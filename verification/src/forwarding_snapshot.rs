//! Snapshots of forwarding, of which the newest are kept.
use std::collections::VecDeque;
use vstd::prelude::*;

verus! {

/// How many snapshots are kept where no number is given.
pub const DEFAULT_SNAPSHOT_CAPACITY: usize = 128;

/// How many targets a snapshot holds at most.
pub const MAX_TARGETS_PER_SNAPSHOT: usize = 256;

/// The spatial layer that is selected for a target.
#[derive(Debug, Clone)]
pub struct SpatialSelectionSnapshot {
    pub source_kind: &'static str,
    pub maximum: &'static str,
    pub desired: &'static str,
    pub current: Option<&'static str>,
    pub selected_ssrc: Option<u32>,
    pub selected_rid: Option<String>,
    pub acquisition_state: &'static str,
    pub waiting_for: &'static str,
    pub acquisition_ticks: u8,
    pub remaining_pli_requests: u8,
    pub transitions: u64,
}

/// The temporal layer that is selected for a target.
#[derive(Debug, Clone)]
pub struct TemporalSelectionSnapshot {
    pub maximum: Option<&'static str>,
    pub desired: Option<&'static str>,
    pub current: Option<&'static str>,
}

/// What was sent to a target within the window.
#[derive(Debug, Clone, Copy, PartialEq, Eq, Structural)]
pub struct RtpWindowSnapshot {
    pub packets: u64,
    pub wire_bytes: u64,
    pub packets_per_second: u64,
    pub wire_bytes_per_second: u64,
}

/// The key frame requests of the selector, and why others were not sent.
#[derive(Debug, Clone, Copy, PartialEq, Eq, Structural)]
pub struct SelectorPliSnapshot {
    pub sent: u64,
    pub suppressed_stable: u64,
    pub suppressed_fallback_locked: u64,
    pub suppressed_budget_exhausted: u64,
    pub suppressed_retry_or_no_target: u64,
}

/// The key frame requests of the target, and how many were passed on.
#[derive(Debug, Clone, Copy, PartialEq, Eq, Structural)]
pub struct DownstreamFeedbackSnapshot {
    pub pli_received: u64,
    pub pli_sent: u64,
    pub pli_suppressed: u64,
    pub fir_received: u64,
    pub fir_sent: u64,
    pub fir_suppressed: u64,
}

/// Why packets were not sent to a target.
#[derive(Debug, Clone, Copy, PartialEq, Eq, Structural)]
pub struct ForwardingResultSnapshot {
    pub rewrite_drops: u64,
    pub write_errors: u64,
    pub drop_waiting_for_keyframe: u64,
    pub drop_non_selected_ssrc: u64,
    pub drop_above_maximum: u64,
    pub drop_unknown_layer: u64,
    pub drop_temporal_above_maximum: u64,
    pub drop_temporal_above_desired: u64,
    pub drop_temporal_timestamp_cap: u64,
}

/// A target of a snapshot.
#[derive(Debug, Clone)]
pub struct ForwardingTargetSnapshot {
    pub subscriber_identity: String,
    pub spatial: SpatialSelectionSnapshot,
    pub temporal: TemporalSelectionSnapshot,
    pub rtp_window: RtpWindowSnapshot,
    pub selector_pli: SelectorPliSnapshot,
    pub downstream_feedback: DownstreamFeedbackSnapshot,
    pub forwarding: ForwardingResultSnapshot,
}

/// The forwarding of a track at the end of a window.
#[derive(Debug, Clone)]
pub struct ForwardingSnapshot {
    pub schema_version: u8,
    pub sequence: u64,
    pub window_duration_ms: u64,
    pub room: String,
    pub publisher_identity: String,
    pub track_sid: String,
    pub targets: Vec<ForwardingTargetSnapshot>,
}

/// The contents of a [`ForwardingSnapshot`].
#[verifier::ext_equal]
pub struct SnapshotView {
    pub schema_version: u8,
    pub sequence: u64,
    pub window_duration_ms: u64,
    pub room: Seq<char>,
    pub publisher_identity: Seq<char>,
    pub track_sid: Seq<char>,
    pub targets: Seq<ForwardingTargetSnapshot>,
}

impl View for ForwardingSnapshot {
    type V = SnapshotView;

    open spec fn view(&self) -> SnapshotView {
        SnapshotView {
            schema_version: self.schema_version,
            sequence: self.sequence,
            window_duration_ms: self.window_duration_ms,
            room: self.room@,
            publisher_identity: self.publisher_identity@,
            track_sid: self.track_sid@,
            targets: self.targets@,
        }
    }
}

impl SnapshotView {
    /// The snapshot with no more than its first targets.
    pub open spec fn cut(self) -> Self {
        SnapshotView {
            targets: if self.targets.len() > MAX_TARGETS_PER_SNAPSHOT {
                self.targets.take(MAX_TARGETS_PER_SNAPSHOT as int)
            } else {
                self.targets
            },
            ..self
        }
    }
}

impl ForwardingSnapshot {
    /// The snapshot with no more than its first targets.
    pub fn bounded(self) -> (snapshot: Self)
        ensures
            snapshot@ == self@.cut(),
    {
        let mut snapshot: ForwardingSnapshot = self;
        snapshot.targets.truncate(MAX_TARGETS_PER_SNAPSHOT);
        assert(snapshot@ =~= self@.cut());
        snapshot
    }
}

/// The newest snapshots.
#[derive(Debug)]
pub struct ForwardingSnapshotStore {
    pub capacity: usize,
    pub snapshots: VecDeque<ForwardingSnapshot>,
}

impl View for ForwardingSnapshotStore {
    type V = Seq<SnapshotView>;

    open spec fn view(&self) -> Seq<SnapshotView> {
        self.snapshots@.map_values(|snapshot: ForwardingSnapshot| snapshot@)
    }
}

/// The snapshots with a new one, without the oldest if they were as many as can be kept.
pub open spec fn with_newest(
    snapshots: Seq<SnapshotView>,
    capacity: nat,
    newest: SnapshotView,
) -> Seq<SnapshotView> {
    if snapshots.len() == capacity {
        snapshots.skip(1).push(newest)
    } else {
        snapshots.push(newest)
    }
}

impl ForwardingSnapshotStore {
    /// At least one snapshot can be kept, and no more are than can be.
    pub open spec fn wf(self) -> bool {
        self.capacity > 0 && self.snapshots@.len() <= self.capacity
    }

    /// A store for so many snapshots, one at least.
    pub fn new(capacity: usize) -> (store: Self)
        ensures
            store.wf(),
            store.capacity == (if capacity > 0 {
                capacity
            } else {
                1
            }),
            store@ == Seq::<SnapshotView>::empty(),
    {
        let kept: usize = if capacity > 0 {
            capacity
        } else {
            1
        };
        let store = ForwardingSnapshotStore { capacity: kept, snapshots: VecDeque::new() };
        assert(store@ =~= Seq::<SnapshotView>::empty());
        store
    }

    /// Keeps a snapshot, and drops the oldest if the store is full.
    pub fn push(&mut self, snapshot: ForwardingSnapshot)
        requires
            old(self).wf(),
        ensures
            final(self).wf(),
            final(self).capacity == old(self).capacity,
            final(self)@ == with_newest(old(self)@, old(self).capacity as nat, snapshot@.cut()),
    {
        let ghost before = self@;
        if self.snapshots.len() == self.capacity {
            let _oldest = self.snapshots.pop_front();
        }
        self.snapshots.push_back(snapshot.bounded());
        assert(self@ =~= with_newest(before, self.capacity as nat, snapshot@.cut()));
    }
}

/// The lines that are there, each but the first after a line break.
pub open spec fn joined(lines: Seq<Option<Seq<char>>>) -> Seq<char>
    decreases lines.len(),
{
    if lines.len() == 0 {
        Seq::empty()
    } else {
        let before = lines.drop_last();
        match lines.last() {
            None => joined(before),
            Some(line) => {
                if is_blank(before) {
                    line
                } else {
                    joined(before).push('\n') + line
                }
            },
        }
    }
}

/// No line is there.
pub open spec fn is_blank(lines: Seq<Option<Seq<char>>>) -> bool {
    forall|i: int| 0 <= i < lines.len() ==> #[trigger] lines[i] is None
}

/// The contents of the lines.
pub open spec fn line_views(lines: Seq<Option<String>>) -> Seq<Option<Seq<char>>> {
    lines.map_values(
        |line: Option<String>|
            match line {
                Some(line) => Some(line@),
                None => None,
            },
    )
}

/// Joins the lines that are there, oldest first.
pub fn join_lines(lines: &Vec<Option<String>>) -> (text: String)
    ensures
        text@ == joined(line_views(lines@)),
{
    let ghost views = line_views(lines@);
    let mut text: String = String::new();
    let mut blank: bool = true;
    let mut i: usize = 0;
    assert(views.take(0) =~= Seq::empty());
    while i < lines.len()
        invariant
            i <= lines@.len(),
            views == line_views(lines@),
            text@ == joined(views.take(i as int)),
            blank == is_blank(views.take(i as int)),
        decreases lines.len() - i,
    {
        proof {
            let before = views.take(i as int);
            let after = views.take(i + 1);
            assert(after.drop_last() =~= before);
            assert(after.last() == views[i as int]);
            assert(forall|j: int| 0 <= j < i ==> after[j] == before[j]);
            assert(after[i as int] == views[i as int]);
            if is_blank(before) {
                lemma_blank_is_empty(before);
            } else {
                let j = choose|j: int| 0 <= j < before.len() && before[j] is Some;
                assert(after[j] is Some);
            }
        }
        if let Some(line) = &lines[i] {
            if !blank {
                text.push('\n');
            }
            push_text(&mut text, line);
            blank = false;
            assert(views.take(i + 1)[i as int] is Some);
            assert(text@ =~= joined(views.take(i + 1)));
        }
        i += 1;
    }
    assert(views.take(i as int) =~= views);
    text
}

proof fn lemma_blank_is_empty(lines: Seq<Option<Seq<char>>>)
    requires
        is_blank(lines),
    ensures
        joined(lines) == Seq::<char>::empty(),
    decreases lines.len(),
{
    if lines.len() > 0 {
        assert(lines[lines.len() - 1] is None);
        assert forall|i: int| 0 <= i < lines.drop_last().len() implies #[trigger] lines.drop_last()[i] is None by {
            assert(lines[i] is None);
        }
        lemma_blank_is_empty(lines.drop_last());
    }
}

fn push_text(text: &mut String, more: &String)
    ensures
        final(text)@ == old(text)@ + more@,
{
    let chars: Vec<char> = crate::text::chars_of(more.as_str());
    let ghost before = text@;
    let mut i: usize = 0;
    assert(text@ =~= before + chars@.take(0));
    while i < chars.len()
        invariant
            i <= chars@.len(),
            text@ == before + chars@.take(i as int),
        decreases chars.len() - i,
    {
        text.push(chars[i]);
        i += 1;
        assert(text@ =~= before + chars@.take(i as int));
    }
    assert(chars@.take(i as int) =~= chars@);
}

/// The newest snapshots are kept, oldest first, and no more than can be.
pub proof fn law_newest_snapshots_are_kept(
    snapshots: Seq<SnapshotView>,
    capacity: nat,
    newest: SnapshotView,
)
    requires
        0 < capacity,
        snapshots.len() <= capacity,
    ensures
        with_newest(snapshots, capacity, newest).len() <= capacity,
        with_newest(snapshots, capacity, newest).last() == newest,
        with_newest(snapshots, capacity, newest).drop_last() == snapshots || (snapshots.len()
            == capacity && with_newest(snapshots, capacity, newest).drop_last()
            == snapshots.skip(1)),
{
    if snapshots.len() == capacity {
        assert(with_newest(snapshots, capacity, newest).drop_last() =~= snapshots.skip(1));
    } else {
        assert(with_newest(snapshots, capacity, newest).drop_last() =~= snapshots);
    }
}

/// A snapshot keeps its first two hundred and fifty-six targets, in order, and all else.
pub proof fn law_first_targets_are_kept(snapshot: SnapshotView, i: int)
    ensures
        snapshot.targets.len() <= 256 ==> snapshot.cut() == snapshot,
        snapshot.targets.len() > 256 ==> snapshot.cut().targets.len() == 256,
        0 <= i < snapshot.cut().targets.len() ==> snapshot.cut().targets[i] == snapshot.targets[i],
        snapshot.cut().sequence == snapshot.sequence,
        snapshot.cut().room == snapshot.room,
        snapshot.cut().track_sid == snapshot.track_sid,
        snapshot.cut().publisher_identity == snapshot.publisher_identity,
        snapshot.cut().window_duration_ms == snapshot.window_duration_ms,
        snapshot.cut().schema_version == snapshot.schema_version,
{
}

/// A line that is there comes after a line break, unless it is the first that is; one that is not
/// there adds nothing.
pub proof fn law_lines_are_joined_by_line_breaks(
    lines: Seq<Option<Seq<char>>>,
    line: Seq<char>,
    i: int,
)
    ensures
        joined(Seq::empty()).len() == 0,
        joined(lines.push(None)) == joined(lines),
        0 <= i < lines.len() && lines[i] is Some ==> joined(lines.push(Some(line))) == joined(lines)
            + seq!['\n'] + line,
        (forall|j: int| 0 <= j < lines.len() ==> #[trigger] lines[j] is None) ==> joined(
            lines.push(Some(line)),
        ) == line,
{
    assert(lines.push(None).drop_last() =~= lines);
    assert(lines.push(Some(line)).drop_last() =~= lines);
    if 0 <= i < lines.len() && lines[i] is Some {
        assert(!is_blank(lines));
        assert(joined(lines).push('\n') + line =~= joined(lines) + seq!['\n'] + line);
    }
}

} // verus!
