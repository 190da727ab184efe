//! Which qualities of a track, and which of its codecs, anybody wants.
use crate::keyed_map::{KeyedMap, StoreKey};
use vstd::prelude::*;

pub mod audio;
pub mod video;

verus! {

/// A codec of a track.
#[derive(Debug, Clone, Copy, PartialEq, Eq, Structural)]
pub enum MimeTypeLite {
    Vp8,
    Av1,
    Red,
    Opus,
}

impl View for MimeTypeLite {
    type V = MimeTypeLite;

    open spec fn view(&self) -> MimeTypeLite {
        *self
    }
}

impl MimeTypeLite {
    /// The name of the codec.
    pub open spec fn name(self) -> Seq<char> {
        match self {
            MimeTypeLite::Vp8 => "video/vp8"@,
            MimeTypeLite::Av1 => "video/av1"@,
            MimeTypeLite::Red => "audio/red"@,
            MimeTypeLite::Opus => "audio/opus"@,
        }
    }

    /// The name of the codec.
    pub fn as_str(self) -> (name: &'static str)
        ensures
            name@ == self.name(),
    {
        match self {
            MimeTypeLite::Vp8 => "video/vp8",
            MimeTypeLite::Av1 => "video/av1",
            MimeTypeLite::Red => "audio/red",
            MimeTypeLite::Opus => "audio/opus",
        }
    }
}

/// Two codecs with the same name are the same.
pub proof fn lemma_names_differ(a: MimeTypeLite, b: MimeTypeLite)
    requires
        a.name() == b.name(),
    ensures
        a == b,
{
    reveal_strlit("video/vp8");
    reveal_strlit("video/av1");
    reveal_strlit("audio/red");
    reveal_strlit("audio/opus");
    assert("video/vp8"@[6] == 'v');
    assert("video/av1"@[6] == 'a');
    assert("audio/red"@[6] == 'r');
    assert("audio/opus"@[6] == 'o');
    assert(a.name()[6] == b.name()[6]);
}

/// A subscriber or a node, and a codec.
pub type MemberKey = (String, MimeTypeLite);

/// The parts of the key of a member and a codec.
pub open spec fn member_key(id: Seq<char>, mime: MimeTypeLite) -> Seq<Seq<char>> {
    seq![id, mime.name()]
}

impl StoreKey for (String, MimeTypeLite) {
    open spec fn parts(&self) -> Seq<Seq<char>> {
        member_key(self.0@, self.1)
    }

    fn same(&self, other: &Self) -> (same: bool) {
        proof {
            if self.parts() == other.parts() {
                assert(self.parts()[0] == self.0@ && self.parts()[1] == self.1.name());
                assert(other.parts()[0] == other.0@ && other.parts()[1] == other.1.name());
                lemma_names_differ(self.1, other.1);
            }
        }
        self.0 == other.0 && self.1 == other.1
    }

    fn duplicate(&self) -> (copy: Self) {
        (self.0.clone(), self.1)
    }
}

/// The key of a member and a codec.
pub fn member(id: &str, mime: MimeTypeLite) -> (key: MemberKey)
    ensures
        key.parts() == member_key(id@, mime),
{
    (id.to_owned(), mime)
}

/// The member that stands in for those who may come, after a codec was given up for another.
pub open spec fn seed() -> Seq<char> {
    "__regression_seed__"@
}

/// The key of the stand-in.
pub fn seed_member(mime: MimeTypeLite) -> (key: MemberKey)
    ensures
        key.parts() == member_key(seed(), mime),
{
    member("__regression_seed__", mime)
}

/// A member has a value for the codec.
pub open spec fn has_codec<V>(values: Map<Seq<Seq<char>>, V>, mime: MimeTypeLite) -> bool {
    exists|id: Seq<char>| values.contains_key(#[trigger] member_key(id, mime))
}

/// A member has this value for the codec.
pub open spec fn has_value<V>(
    values: Map<Seq<Seq<char>>, V>,
    mime: MimeTypeLite,
    value: V,
) -> bool {
    exists|id: Seq<char>|
        values.contains_key(#[trigger] member_key(id, mime)) && values[member_key(id, mime)]
            == value
}

/// Tells whether a member has a value for the codec.
pub fn any_codec<V: View>(values: &KeyedMap<MemberKey, V>, mime: MimeTypeLite) -> (found: bool)
    requires
        values.wf(),
    ensures
        found == has_codec(values@, mime),
{
    let mut i: usize = 0;
    while i < values.entries.len()
        invariant
            values.wf(),
            i <= values.entries@.len(),
            forall|j: int| 0 <= j < i ==> (#[trigger] values.entries@[j]).0.1 != mime,
        decreases values.entries.len() - i,
    {
        if values.entries[i].0.1 == mime {
            proof {
                crate::keyed_map::lemma_place(values.entries@, i as int);
                assert(values@.contains_key(member_key(values.entries@[i as int].0.0@, mime)));
            }
            return true;
        }
        i += 1;
    }
    proof {
        if has_codec(values@, mime) {
            let id = choose|id: Seq<char>| values@.contains_key(#[trigger] member_key(id, mime));
            let j = choose|j: int|
                crate::keyed_map::keyed_at(values.entries@, member_key(id, mime), j);
            let key = values.entries@[j].0;
            assert(key.parts()[1] == key.1.name() && member_key(id, mime)[1] == mime.name());
            lemma_names_differ(key.1, mime);
        }
    }
    false
}

/// The codecs that were named.
#[derive(Debug, Clone, Copy, PartialEq, Eq, Structural)]
pub struct KnownCodecs {
    pub vp8: bool,
    pub av1: bool,
    pub red: bool,
    pub opus: bool,
}

impl View for KnownCodecs {
    type V = Set<MimeTypeLite>;

    open spec fn view(&self) -> Set<MimeTypeLite> {
        Set::new(
            |mime: MimeTypeLite|
                match mime {
                    MimeTypeLite::Vp8 => self.vp8,
                    MimeTypeLite::Av1 => self.av1,
                    MimeTypeLite::Red => self.red,
                    MimeTypeLite::Opus => self.opus,
                },
        )
    }
}

/// The codec, if it is known.
pub open spec fn if_known(known: Set<MimeTypeLite>, mime: MimeTypeLite) -> Seq<MimeTypeLite> {
    if known.contains(mime) {
        seq![mime]
    } else {
        Seq::empty()
    }
}

/// The known codecs, in order.
pub open spec fn in_order(known: Set<MimeTypeLite>) -> Seq<MimeTypeLite> {
    if_known(known, MimeTypeLite::Vp8) + if_known(known, MimeTypeLite::Av1) + if_known(
        known,
        MimeTypeLite::Red,
    ) + if_known(known, MimeTypeLite::Opus)
}

impl KnownCodecs {
    /// No codec is known.
    pub fn new() -> (known: Self)
        ensures
            known@ == Set::<MimeTypeLite>::empty(),
    {
        let known = KnownCodecs { vp8: false, av1: false, red: false, opus: false };
        assert(known@ =~= Set::<MimeTypeLite>::empty());
        known
    }

    /// Makes a codec known.
    pub fn insert(&mut self, mime: MimeTypeLite)
        ensures
            final(self)@ == old(self)@.insert(mime),
    {
        match mime {
            MimeTypeLite::Vp8 => {
                self.vp8 = true;
            },
            MimeTypeLite::Av1 => {
                self.av1 = true;
            },
            MimeTypeLite::Red => {
                self.red = true;
            },
            MimeTypeLite::Opus => {
                self.opus = true;
            },
        }
        assert(self@ =~= old(self)@.insert(mime));
    }

    /// The known codecs, in order.
    pub fn list(&self) -> (codecs: Vec<MimeTypeLite>)
        ensures
            codecs@ == in_order(self@),
    {
        let mut codecs: Vec<MimeTypeLite> = Vec::new();
        if self.vp8 {
            codecs.push(MimeTypeLite::Vp8);
        }
        if self.av1 {
            codecs.push(MimeTypeLite::Av1);
        }
        if self.red {
            codecs.push(MimeTypeLite::Red);
        }
        if self.opus {
            codecs.push(MimeTypeLite::Opus);
        }
        assert(codecs@ =~= in_order(self@));
        codecs
    }
}

/// For each codec that was given up, the codec that took its place.
#[derive(Debug, Clone, Copy, PartialEq, Eq, Structural)]
pub struct RegressedCodecs {
    pub vp8: Option<MimeTypeLite>,
    pub av1: Option<MimeTypeLite>,
    pub red: Option<MimeTypeLite>,
    pub opus: Option<MimeTypeLite>,
}

impl RegressedCodecs {
    /// The codec that took the place of a codec.
    pub open spec fn taken_by(self, mime: MimeTypeLite) -> Option<MimeTypeLite> {
        match mime {
            MimeTypeLite::Vp8 => self.vp8,
            MimeTypeLite::Av1 => self.av1,
            MimeTypeLite::Red => self.red,
            MimeTypeLite::Opus => self.opus,
        }
    }

    /// No codec was given up.
    pub fn new() -> (regressed: Self)
        ensures
            regressed@ == Map::<MimeTypeLite, MimeTypeLite>::empty(),
    {
        let regressed = RegressedCodecs { vp8: None, av1: None, red: None, opus: None };
        assert(regressed@ =~= Map::<MimeTypeLite, MimeTypeLite>::empty());
        regressed
    }

    /// Gives up a codec for another.
    pub fn insert(&mut self, from: MimeTypeLite, to: MimeTypeLite)
        ensures
            final(self)@ == old(self)@.insert(from, to),
    {
        match from {
            MimeTypeLite::Vp8 => {
                self.vp8 = Some(to);
            },
            MimeTypeLite::Av1 => {
                self.av1 = Some(to);
            },
            MimeTypeLite::Red => {
                self.red = Some(to);
            },
            MimeTypeLite::Opus => {
                self.opus = Some(to);
            },
        }
        assert(self@ =~= old(self)@.insert(from, to));
    }

    /// The codec that took the place of a codec, if it was given up.
    pub fn get(&self, mime: MimeTypeLite) -> (to: Option<MimeTypeLite>)
        ensures
            match to {
                Some(to) => self@.contains_key(mime) && self@[mime] == to,
                None => !self@.contains_key(mime),
            },
    {
        match mime {
            MimeTypeLite::Vp8 => self.vp8,
            MimeTypeLite::Av1 => self.av1,
            MimeTypeLite::Red => self.red,
            MimeTypeLite::Opus => self.opus,
        }
    }
}

impl View for RegressedCodecs {
    type V = Map<MimeTypeLite, MimeTypeLite>;

    open spec fn view(&self) -> Map<MimeTypeLite, MimeTypeLite> {
        Map::new(
            |mime: MimeTypeLite| self.taken_by(mime) is Some,
            |mime: MimeTypeLite| self.taken_by(mime)->0,
        )
    }
}

/// The known codecs are listed once each, and no others.
pub proof fn law_known_codecs_are_listed_once(known: Set<MimeTypeLite>)
    ensures
        in_order(known).no_duplicates(),
        forall|mime: MimeTypeLite| #[trigger] in_order(known).contains(mime) <==> known.contains(mime),
{
    let list = in_order(known);
    assert forall|mime: MimeTypeLite| known.contains(mime) implies #[trigger] list.contains(
        mime,
    ) by {
        let vp8 = if_known(known, MimeTypeLite::Vp8);
        let av1 = vp8 + if_known(known, MimeTypeLite::Av1);
        let red = av1 + if_known(known, MimeTypeLite::Red);
        match mime {
            MimeTypeLite::Vp8 => assert(list[0] == mime),
            MimeTypeLite::Av1 => assert(list[vp8.len() as int] == mime),
            MimeTypeLite::Red => assert(list[av1.len() as int] == mime),
            MimeTypeLite::Opus => assert(list[red.len() as int] == mime),
        }
    }
}

/// The known codecs are listed with VP8 before AV1, RED and Opus.
pub proof fn law_codecs_are_listed_in_order(known: Set<MimeTypeLite>, i: int, j: int)
    requires
        0 <= i < j < in_order(known).len(),
    ensures
        in_order(known)[j] != MimeTypeLite::Vp8,
        in_order(known)[i] != MimeTypeLite::Opus,
        in_order(known)[i] == MimeTypeLite::Red ==> in_order(known)[j] == MimeTypeLite::Opus,
        in_order(known)[j] == MimeTypeLite::Av1 ==> in_order(known)[i] == MimeTypeLite::Vp8,
{
}

} // verus!
