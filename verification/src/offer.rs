//! What session descriptions say of the media sections that are sent and received.
use crate::text::{
    chars_of, has_prefix, is_text, same_chars, split_lines, split_once, split_words, string_of,
    strip_prefix, to_lower, trim,
};
use vstd::hash_map::StringHashMap;
use vstd::hash_set::StringHashSet;
use vstd::prelude::*;

verus! {

/// Which ways the media of a section goes, seen from the describing side.
#[derive(Debug, Clone, Copy, PartialEq, Eq, Structural)]
pub enum Direction {
    SendRecv,
    SendOnly,
    RecvOnly,
    Inactive,
}

impl Direction {
    /// The word that stands for the direction.
    pub open spec fn word(self) -> Seq<char> {
        match self {
            Direction::SendRecv => "sendrecv"@,
            Direction::SendOnly => "sendonly"@,
            Direction::RecvOnly => "recvonly"@,
            Direction::Inactive => "inactive"@,
        }
    }

    /// The word that stands for the direction.
    pub fn name(self) -> (name: String)
        ensures
            name@ == self.word(),
    {
        match self {
            Direction::SendRecv => "sendrecv".to_owned(),
            Direction::SendOnly => "sendonly".to_owned(),
            Direction::RecvOnly => "recvonly".to_owned(),
            Direction::Inactive => "inactive".to_owned(),
        }
    }
}

/// The direction that a line sets.
pub open spec fn direction_of_line(line: Seq<char>) -> Option<Direction> {
    if line == "a=sendrecv"@ {
        Some(Direction::SendRecv)
    } else if line == "a=sendonly"@ {
        Some(Direction::SendOnly)
    } else if line == "a=recvonly"@ {
        Some(Direction::RecvOnly)
    } else if line == "a=inactive"@ {
        Some(Direction::Inactive)
    } else {
        None
    }
}

fn direction_from_line(line: &[char]) -> (direction: Option<Direction>)
    ensures
        direction == direction_of_line(line@),
{
    if is_text(line, "a=sendrecv") {
        Some(Direction::SendRecv)
    } else if is_text(line, "a=sendonly") {
        Some(Direction::SendOnly)
    } else if is_text(line, "a=recvonly") {
        Some(Direction::RecvOnly)
    } else if is_text(line, "a=inactive") {
        Some(Direction::Inactive)
    } else {
        None
    }
}

/// The track that the value of an `msid` names: its second word, or what follows the first bar in
/// it.
pub open spec fn track_of_msid(value: Seq<char>) -> Option<Seq<char>> {
    let words = crate::text::words(value);
    if words.len() < 2 {
        None
    } else {
        match crate::text::split_at_first(words[1], "|"@) {
            Some((_, sid)) => Some(sid),
            None => Some(words[1]),
        }
    }
}

/// The track that a line names.
pub open spec fn track_of_line(line: Seq<char>) -> Option<Seq<char>> {
    match crate::text::after_prefix(line, "a=msid:"@) {
        Some(value) => track_of_msid(value),
        None => if crate::text::starts_with(line, "a=ssrc:"@) {
            match crate::text::split_at_first(line, " msid:"@) {
                Some((_, value)) => track_of_msid(value),
                None => None,
            }
        } else {
            None
        },
    }
}

/// The line belongs to a stream that is sent.
pub open spec fn names_stream(line: Seq<char>) -> bool {
    ||| crate::text::starts_with(line, "a=msid:"@)
    ||| crate::text::starts_with(line, "a=ssrc:"@) && crate::text::split_at_first(
        line,
        " msid:"@,
    ) is Some
}

/// The view of an optional text.
pub open spec fn text_of(text: Option<Vec<char>>) -> Option<Seq<char>> {
    match text {
        Some(text) => Some(text@),
        None => None,
    }
}

fn track_in_msid(value: &[char]) -> (track_id: Option<Vec<char>>)
    ensures
        text_of(track_id) == track_of_msid(value@),
{
    let words: Vec<Vec<char>> = split_words(value);
    assert(crate::text::texts(words@).len() == words@.len());
    if words.len() < 2 {
        return None;
    }
    assert(crate::text::texts(words@)[1] == words@[1]@);
    match split_once(words[1].as_slice(), "|") {
        Some((_, track_sid)) => Some(track_sid),
        None => Some(crate::text::slice_of(words[1].as_slice(), 0, words[1].len())),
    }
}

fn track_in_line(line: &[char]) -> (track_id: Option<Vec<char>>)
    ensures
        text_of(track_id) == track_of_line(line@),
{
    if let Some(msid) = strip_prefix(line, "a=msid:") {
        return track_in_msid(msid.as_slice());
    }
    if has_prefix(line, "a=ssrc:") {
        if let Some((_, msid)) = split_once(line, " msid:") {
            return track_in_msid(msid.as_slice());
        }
    }
    None
}

fn line_names_stream(line: &[char]) -> (has_msid: bool)
    ensures
        has_msid == names_stream(line@),
{
    has_prefix(line, "a=msid:") || (has_prefix(line, "a=ssrc:") && split_once(
        line,
        " msid:",
    ).is_some())
}

/// The view of an optional string.
pub open spec fn string_text(text: Option<String>) -> Option<Seq<char>> {
    match text {
        Some(text) => Some(text@),
        None => None,
    }
}

fn optional_string(text: Option<Vec<char>>) -> (result: Option<String>)
    ensures
        string_text(result) == text_of(text),
{
    match text {
        Some(text) => Some(string_of(text.as_slice())),
        None => None,
    }
}

/// The track that the value of an `msid` names.
pub fn track_id_from_msid_value(msid_value: &str) -> (track_id: Option<String>)
    ensures
        string_text(track_id) == track_of_msid(msid_value@),
{
    let chars: Vec<char> = chars_of(msid_value);
    optional_string(track_in_msid(chars.as_slice()))
}

/// The track that a line names.
pub fn track_id_from_sdp_line(line: &str) -> (track_id: Option<String>)
    ensures
        string_text(track_id) == track_of_line(line@),
{
    let chars: Vec<char> = chars_of(line);
    optional_string(track_in_line(chars.as_slice()))
}

/// The line belongs to a stream that is sent.
pub fn section_line_has_msid(line: &str) -> (has_msid: bool)
    ensures
        has_msid == names_stream(line@),
{
    let chars: Vec<char> = chars_of(line);
    line_names_stream(chars.as_slice())
}

/// The word without a plus sign at its start.
pub open spec fn without_plus(word: Seq<char>) -> Seq<char> {
    if word.len() > 0 && word[0] == '+' {
        word.skip(1)
    } else {
        word
    }
}

/// The text is made of zeros, one at least.
pub open spec fn all_zeros(digits: Seq<char>) -> bool {
    digits.len() > 0 && forall|i: int| 0 <= i < digits.len() ==> digits[i] == '0'
}

/// The word is a port number that equals 0: zeros, with a plus sign before them or none.
pub open spec fn is_zero_port(word: Seq<char>) -> bool {
    all_zeros(without_plus(word))
}

fn zero_port(word: &Vec<char>) -> (zero: bool)
    ensures
        zero == is_zero_port(word@),
{
    let from: usize = if word.len() > 0 && word[0] == '+' {
        1
    } else {
        0
    };
    let ghost digits = without_plus(word@);
    if from >= word.len() {
        return false;
    }
    let mut i: usize = from;
    while i < word.len()
        invariant
            from <= i <= word@.len(),
            digits == without_plus(word@),
            digits.len() == word@.len() - from,
            forall|j: int| 0 <= j < digits.len() ==> digits[j] == #[trigger] word@[j + from],
            forall|j: int| 0 <= j < i - from ==> digits[j] == '0',
        decreases word.len() - i,
    {
        assert(digits[i - from] == word@[(i - from) + from]);
        if word[i] != '0' {
            return false;
        }
        i += 1;
    }
    true
}

/// A media section. The lines before the first section are taken for one without a media line.
#[verifier::ext_equal]
pub struct SectionView {
    pub media: Option<Seq<char>>,
    pub mid: Option<Seq<char>>,
    pub direction: Direction,
    pub track_id: Option<Seq<char>>,
    pub has_msid: bool,
    pub is_rejected: bool,
    pub payload_types: Seq<Seq<char>>,
    pub codecs: Seq<(Seq<char>, Seq<char>)>,
}

/// A section without lines.
pub open spec fn empty_section() -> SectionView {
    SectionView {
        media: None,
        mid: None,
        direction: Direction::SendRecv,
        track_id: None,
        has_msid: false,
        is_rejected: false,
        payload_types: Seq::empty(),
        codecs: Seq::empty(),
    }
}

/// The section that a media line opens: the media, a port that is 0 where the section is rejected,
/// and the payload types.
pub open spec fn opened_section(media_line: Seq<char>) -> SectionView {
    let words = crate::text::words(media_line);
    SectionView {
        media: if words.len() > 0 {
            Some(words[0])
        } else {
            None
        },
        is_rejected: words.len() > 1 && is_zero_port(words[1]),
        payload_types: if words.len() > 2 {
            words.skip(2)
        } else {
            Seq::empty()
        },
        ..empty_section()
    }
}

/// The name of a codec that is given with its clock rate.
pub open spec fn codec_name(codec_rate: Seq<char>) -> Seq<char> {
    crate::text::trimmed(
        match crate::text::split_at_first(codec_rate, "/"@) {
            Some((codec, _)) => codec,
            None => codec_rate,
        },
    )
}

/// The payload type and the codec that a line maps it to.
pub open spec fn codec_of_line(line: Seq<char>) -> Option<(Seq<char>, Seq<char>)> {
    match crate::text::after_prefix(line, "a=rtpmap:"@) {
        Some(rtpmap) => match crate::text::split_at_first(rtpmap, " "@) {
            Some((payload_type, codec_rate)) => {
                let codec = codec_name(codec_rate);
                if codec.len() > 0 {
                    Some((crate::text::trimmed(payload_type), codec))
                } else {
                    None
                }
            },
            None => None,
        },
        None => None,
    }
}

/// The codec that a payload type was last mapped to.
pub open spec fn codec_of(codecs: Seq<(Seq<char>, Seq<char>)>, payload_type: Seq<char>) -> Option<
    Seq<char>,
>
    decreases codecs.len(),
{
    if codecs.len() == 0 {
        None
    } else if codecs.last().0 == payload_type {
        Some(codecs.last().1)
    } else {
        codec_of(codecs.drop_last(), payload_type)
    }
}

impl SectionView {
    /// The section after a line that opens no section.
    pub open spec fn with_line(self, line: Seq<char>) -> Self {
        match crate::text::after_prefix(line, "a=mid:"@) {
            Some(mid) => SectionView { mid: Some(crate::text::trimmed(mid)), ..self },
            None => match direction_of_line(line) {
                Some(direction) => SectionView { direction, ..self },
                None => SectionView {
                    track_id: if track_of_line(line) is Some {
                        track_of_line(line)
                    } else {
                        self.track_id
                    },
                    has_msid: self.has_msid || names_stream(line),
                    codecs: match codec_of_line(line) {
                        Some(mapping) => self.codecs.push(mapping),
                        None => self.codecs,
                    },
                    ..self
                },
            },
        }
    }

    /// The describing side sends in the section.
    pub open spec fn sends(self) -> bool {
        self.direction == Direction::SendRecv || self.direction == Direction::SendOnly
    }

    /// The section is there for the describing side to receive a track.
    pub open spec fn receives(self) -> bool {
        &&& !self.is_rejected
        &&& self.direction == Direction::RecvOnly || (self.direction == Direction::SendRecv
            && !self.has_msid)
    }

    /// The section publishes a track of the describing side.
    pub open spec fn publishes(self) -> bool {
        &&& !self.is_rejected
        &&& self.direction == Direction::SendOnly || (self.direction == Direction::SendRecv
            && self.has_msid)
    }

    /// The section is neither rejected nor inactive.
    pub open spec fn accepted(self) -> bool {
        !self.is_rejected && self.direction != Direction::Inactive
    }

    /// A codec of the section, for a payload type that its media line lists, is `codec`.
    pub open spec fn lists_codec(self, codec: Seq<char>) -> bool {
        exists|i: int|
            0 <= i < self.payload_types.len() && codec_of(
                self.codecs,
                #[trigger] self.payload_types[i],
            ) == Some(codec)
    }
}

/// The sections of a description, the lines before the first one included.
pub open spec fn sections(lines: Seq<Seq<char>>) -> Seq<SectionView>
    decreases lines.len(),
{
    if lines.len() == 0 {
        seq![empty_section()]
    } else {
        let before = sections(lines.drop_last());
        match crate::text::after_prefix(lines.last(), "m="@) {
            Some(media_line) => before.push(opened_section(media_line)),
            None => before.drop_last().push(before.last().with_line(lines.last())),
        }
    }
}

/// The sections of the text of a description.
pub open spec fn sections_of(sdp: Seq<char>) -> Seq<SectionView> {
    sections(crate::text::lines(sdp))
}

struct Section {
    media: Option<Vec<char>>,
    mid: Option<Vec<char>>,
    direction: Direction,
    track_id: Option<Vec<char>>,
    has_msid: bool,
    is_rejected: bool,
    payload_types: Vec<Vec<char>>,
    codecs: Vec<(Vec<char>, Vec<char>)>,
}

spec fn codec_pairs(codecs: Seq<(Vec<char>, Vec<char>)>) -> Seq<(Seq<char>, Seq<char>)> {
    Seq::new(codecs.len(), |i: int| (codecs[i].0@, codecs[i].1@))
}

impl View for Section {
    type V = SectionView;

    closed spec fn view(&self) -> SectionView {
        SectionView {
            media: text_of(self.media),
            mid: text_of(self.mid),
            direction: self.direction,
            track_id: text_of(self.track_id),
            has_msid: self.has_msid,
            is_rejected: self.is_rejected,
            payload_types: crate::text::texts(self.payload_types@),
            codecs: codec_pairs(self.codecs@),
        }
    }
}

spec fn section_views(parsed: Seq<Section>) -> Seq<SectionView> {
    Seq::new(parsed.len(), |i: int| parsed[i]@)
}

impl Section {
    fn empty() -> (section: Self)
        ensures
            section@ == empty_section(),
    {
        let section = Section {
            media: None,
            mid: None,
            direction: Direction::SendRecv,
            track_id: None,
            has_msid: false,
            is_rejected: false,
            payload_types: Vec::new(),
            codecs: Vec::new(),
        };
        assert(section@ =~= empty_section());
        section
    }

    fn opened(media_line: &[char]) -> (section: Self)
        ensures
            section@ == opened_section(media_line@),
    {
        let words: Vec<Vec<char>> = split_words(media_line);
        let ghost texts = crate::text::texts(words@);
        let mut section: Section = Section::empty();
        if words.len() > 0 {
            assert(texts[0] == words@[0]@);
            section.media = Some(crate::text::slice_of(words[0].as_slice(), 0, words[0].len()));
        }
        if words.len() > 1 {
            assert(texts[1] == words@[1]@);
            section.is_rejected = zero_port(&words[1]);
        }
        if words.len() > 2 {
            let mut words = words;
            let payload_types: Vec<Vec<char>> = words.split_off(2);
            assert(crate::text::texts(payload_types@) =~= texts.skip(2));
            section.payload_types = payload_types;
        }
        assert(section@ =~= opened_section(media_line@));
        section
    }

    fn add_line(&mut self, line: &[char])
        ensures
            final(self)@ == old(self)@.with_line(line@),
    {
        let ghost before = self@;
        if let Some(mid) = strip_prefix(line, "a=mid:") {
            self.mid = Some(trim(mid.as_slice()));
            assert(self@ =~= before.with_line(line@));
            return ;
        }
        if let Some(direction) = direction_from_line(line) {
            self.direction = direction;
            assert(self@ =~= before.with_line(line@));
            return ;
        }
        let track_id: Option<Vec<char>> = track_in_line(line);
        if track_id.is_some() {
            self.track_id = track_id;
        }
        if line_names_stream(line) {
            self.has_msid = true;
        }
        if let Some(mapping) = codec_from_line(line) {
            let ghost codecs = codec_pairs(self.codecs@);
            let ghost pair = (mapping.0@, mapping.1@);
            self.codecs.push(mapping);
            assert(codec_pairs(self.codecs@) =~= codecs.push(pair));
        }
        assert(self@ =~= before.with_line(line@));
    }

    fn codec_for(&self, payload_type: &Vec<char>) -> (codec: Option<Vec<char>>)
        ensures
            text_of(codec) == codec_of(self@.codecs, payload_type@),
    {
        let ghost codecs = self@.codecs;
        let mut n: usize = self.codecs.len();
        assert(codecs.take(n as int) =~= codecs);
        while n > 0
            invariant
                codecs == codec_pairs(self.codecs@),
                n <= codecs.len(),
                codec_of(codecs, payload_type@) == codec_of(codecs.take(n as int), payload_type@),
            decreases n,
        {
            let pair = &self.codecs[n - 1];
            assert(codecs.take(n as int).last() == (pair.0@, pair.1@));
            assert(codecs.take(n as int).drop_last() =~= codecs.take(n - 1));
            if same_chars(pair.0.as_slice(), payload_type.as_slice()) {
                let codec: Vec<char> = crate::text::slice_of(pair.1.as_slice(), 0, pair.1.len());
                assert(codec@ =~= pair.1@);
                return Some(codec);
            }
            n -= 1;
        }
        None
    }
}

fn name_of_codec(codec_rate: &[char]) -> (codec: Vec<char>)
    ensures
        codec@ == codec_name(codec_rate@),
{
    match split_once(codec_rate, "/") {
        Some((codec, _)) => trim(codec.as_slice()),
        None => trim(codec_rate),
    }
}

fn codec_from_line(line: &[char]) -> (mapping: Option<(Vec<char>, Vec<char>)>)
    ensures
        match mapping {
            Some((payload_type, codec)) => codec_of_line(line@) == Some((payload_type@, codec@)),
            None => codec_of_line(line@) is None,
        },
{
    let rtpmap: Vec<char> = match strip_prefix(line, "a=rtpmap:") {
        Some(rtpmap) => rtpmap,
        None => {
            return None;
        },
    };
    let (payload_type, codec_rate) = match split_once(rtpmap.as_slice(), " ") {
        Some(halves) => halves,
        None => {
            return None;
        },
    };
    let codec: Vec<char> = name_of_codec(codec_rate.as_slice());
    if codec.len() == 0 {
        return None;
    }
    Some((trim(payload_type.as_slice()), codec))
}

fn parse_sections(sdp: &str) -> (parsed: Vec<Section>)
    ensures
        section_views(parsed@) == sections_of(sdp@),
        parsed@.len() > 0,
{
    let chars: Vec<char> = chars_of(sdp);
    let lines: Vec<Vec<char>> = split_lines(chars.as_slice());
    let ghost texts = crate::text::texts(lines@);
    let mut parsed: Vec<Section> = Vec::new();
    let mut current: Section = Section::empty();
    let mut i: usize = 0;
    assert(texts.take(0) =~= Seq::empty());
    assert(section_views(parsed@).push(current@) =~= seq![empty_section()]);
    while i < lines.len()
        invariant
            texts == crate::text::texts(lines@),
            i <= lines@.len(),
            section_views(parsed@).push(current@) == sections(texts.take(i as int)),
        decreases lines.len() - i,
    {
        let line = lines[i].as_slice();
        let ghost before = section_views(parsed@).push(current@);
        assert(texts.take(i + 1).drop_last() =~= texts.take(i as int));
        assert(texts.take(i + 1).last() == line@);
        match strip_prefix(line, "m=") {
            Some(media_line) => {
                parsed.push(current);
                assert(section_views(parsed@) =~= before);
                current = Section::opened(media_line.as_slice());
            },
            None => {
                current.add_line(line);
                assert(before.drop_last() =~= section_views(parsed@));
            },
        }
        i += 1;
    }
    let ghost before = section_views(parsed@).push(current@);
    parsed.push(current);
    assert(section_views(parsed@) =~= before);
    assert(texts.take(i as int) =~= texts);
    parsed
}

/// The tracks of the sections that send one, by the section's id. Later sections count.
pub open spec fn sent_tracks(sections: Seq<SectionView>) -> Map<Seq<char>, Seq<char>>
    decreases sections.len(),
{
    if sections.len() == 0 {
        Map::empty()
    } else {
        let before = sent_tracks(sections.drop_last());
        let section = sections.last();
        if section.sends() && section.mid is Some && section.track_id is Some {
            before.insert(section.mid->0, section.track_id->0)
        } else {
            before
        }
    }
}

/// The map of strings holds the texts of `expected`.
pub open spec fn maps_texts(
    map: Map<Seq<char>, String>,
    expected: Map<Seq<char>, Seq<char>>,
) -> bool {
    &&& map.dom() == expected.dom()
    &&& forall|k: Seq<char>| map.contains_key(k) ==> (#[trigger] map[k])@ == expected[k]
}

/// The tracks that an offer sends, by the id of their section.
pub fn mid_to_track_id_from_offer_sdp(offer_sdp: &str) -> (mapping: StringHashMap<String>)
    ensures
        maps_texts(mapping@, sent_tracks(sections_of(offer_sdp@))),
{
    let parsed: Vec<Section> = parse_sections(offer_sdp);
    let ghost views = section_views(parsed@);
    let mut mapping: StringHashMap<String> = StringHashMap::new();
    let mut i: usize = 0;
    assert(mapping@.dom() =~= sent_tracks(views.take(0)).dom());
    while i < parsed.len()
        invariant
            views == section_views(parsed@),
            i <= parsed@.len(),
            maps_texts(mapping@, sent_tracks(views.take(i as int))),
        decreases parsed.len() - i,
    {
        let section = &parsed[i];
        let ghost expected = sent_tracks(views.take(i as int));
        assert(views.take(i + 1).drop_last() =~= views.take(i as int));
        assert(views.take(i + 1).last() == section@);
        let sends: bool = section.direction == Direction::SendRecv || section.direction
            == Direction::SendOnly;
        if sends {
            if let (Some(mid), Some(track_id)) = (&section.mid, &section.track_id) {
                mapping.insert(string_of(mid.as_slice()), string_of(track_id.as_slice()));
                assert(mapping@.dom() =~= expected.insert(mid@, track_id@).dom());
                assert(maps_texts(mapping@, expected.insert(mid@, track_id@)));
            }
        }
        i += 1;
    }
    assert(views.take(i as int) =~= views);
    mapping
}

/// What an answer's tracks are, line by line: the id that a section was last given, and the track
/// of each id.
pub open spec fn answered_tracks(lines: Seq<Seq<char>>) -> (
    Option<Seq<char>>,
    Map<Seq<char>, Seq<char>>,
)
    decreases lines.len(),
{
    if lines.len() == 0 {
        (None, Map::empty())
    } else {
        let (mid, tracks) = answered_tracks(lines.drop_last());
        match crate::text::after_prefix(lines.last(), "a=mid:"@) {
            Some(next) => (Some(crate::text::trimmed(next)), tracks),
            None => if mid is Some && track_of_line(lines.last()) is Some {
                (mid, tracks.insert(mid->0, track_of_line(lines.last())->0))
            } else {
                (mid, tracks)
            },
        }
    }
}

/// The tracks that an answer names, by the id that was given before them.
pub fn mid_to_track_id_from_answer_sdp(sdp: &str) -> (mapping: StringHashMap<String>)
    ensures
        maps_texts(mapping@, answered_tracks(crate::text::lines(sdp@)).1),
{
    let chars: Vec<char> = chars_of(sdp);
    let lines: Vec<Vec<char>> = split_lines(chars.as_slice());
    let ghost texts = crate::text::texts(lines@);
    let mut current_mid: Option<Vec<char>> = None;
    let mut mapping: StringHashMap<String> = StringHashMap::new();
    let mut i: usize = 0;
    assert(mapping@.dom() =~= answered_tracks(texts.take(0)).1.dom());
    while i < lines.len()
        invariant
            texts == crate::text::texts(lines@),
            i <= lines@.len(),
            text_of(current_mid) == answered_tracks(texts.take(i as int)).0,
            maps_texts(mapping@, answered_tracks(texts.take(i as int)).1),
        decreases lines.len() - i,
    {
        let line = lines[i].as_slice();
        let ghost expected = answered_tracks(texts.take(i as int)).1;
        assert(texts.take(i + 1).drop_last() =~= texts.take(i as int));
        assert(texts.take(i + 1).last() == line@);
        match strip_prefix(line, "a=mid:") {
            Some(mid) => {
                current_mid = Some(trim(mid.as_slice()));
            },
            None => {
                if let Some(mid) = &current_mid {
                    if let Some(track_id) = track_in_line(line) {
                        mapping.insert(string_of(mid.as_slice()), string_of(track_id.as_slice()));
                        assert(mapping@.dom() =~= expected.insert(mid@, track_id@).dom());
                        assert(maps_texts(mapping@, expected.insert(mid@, track_id@)));
                    }
                }
            },
        }
        i += 1;
    }
    assert(texts.take(i as int) =~= texts);
    mapping
}

/// A section with the id `mid` is among those that `chosen` holds of.
pub open spec fn has_mid(
    sections: Seq<SectionView>,
    chosen: spec_fn(SectionView) -> bool,
    mid: Seq<char>,
) -> bool {
    exists|i: int|
        0 <= i < sections.len() && chosen(#[trigger] sections[i]) && sections[i].mid == Some(mid)
}

/// The ids of the sections of an answer that are neither rejected nor inactive.
pub fn accepted_media_mids_from_answer_sdp(answer_sdp: &str) -> (mids: StringHashSet)
    ensures
        forall|mid: Seq<char>|
            mids@.contains(mid) <==> has_mid(
                sections_of(answer_sdp@),
                |section: SectionView| section.accepted(),
                mid,
            ),
{
    let parsed: Vec<Section> = parse_sections(answer_sdp);
    let ghost views = section_views(parsed@);
    let ghost chosen = |section: SectionView| section.accepted();
    let mut mids: StringHashSet = StringHashSet::new();
    let mut i: usize = 0;
    while i < parsed.len()
        invariant
            views == section_views(parsed@),
            chosen == (|section: SectionView| section.accepted()),
            i <= parsed@.len(),
            forall|mid: Seq<char>|
                mids@.contains(mid) <==> has_mid(views.take(i as int), chosen, mid),
        decreases parsed.len() - i,
    {
        let section = &parsed[i];
        let ghost before = mids@;
        if !section.is_rejected && section.direction != Direction::Inactive {
            if let Some(mid) = &section.mid {
                mids.insert(string_of(mid.as_slice()));
            }
        }
        proof {
            lemma_one_more_section(views, chosen, i as int, before, mids@);
        }
        i += 1;
    }
    assert(views.take(i as int) =~= views);
    mids
}

proof fn lemma_one_more_section(
    views: Seq<SectionView>,
    chosen: spec_fn(SectionView) -> bool,
    i: int,
    before: Set<Seq<char>>,
    after: Set<Seq<char>>,
)
    requires
        0 <= i < views.len(),
        forall|mid: Seq<char>| before.contains(mid) <==> has_mid(views.take(i), chosen, mid),
        after == if chosen(views[i]) && views[i].mid is Some {
            before.insert(views[i].mid->0)
        } else {
            before
        },
    ensures
        forall|mid: Seq<char>| after.contains(mid) <==> has_mid(views.take(i + 1), chosen, mid),
{
    assert forall|mid: Seq<char>| after.contains(mid) <==> has_mid(
        views.take(i + 1),
        chosen,
        mid,
    ) by {
        if has_mid(views.take(i + 1), chosen, mid) {
            let k = choose|k: int|
                0 <= k < views.take(i + 1).len() && chosen(#[trigger] views.take(i + 1)[k])
                    && views.take(i + 1)[k].mid == Some(mid);
            if k < i {
                assert(views.take(i)[k] == views.take(i + 1)[k]);
                assert(has_mid(views.take(i), chosen, mid));
            }
        }
        if has_mid(views.take(i), chosen, mid) {
            let k = choose|k: int|
                0 <= k < views.take(i).len() && chosen(#[trigger] views.take(i)[k])
                    && views.take(i)[k].mid == Some(mid);
            assert(views.take(i + 1)[k] == views.take(i)[k]);
        }
        if chosen(views[i]) && views[i].mid == Some(mid) {
            assert(views.take(i + 1)[i] == views[i]);
        }
    }
}

/// How many sections receive audio and video.
#[derive(Debug, Clone, Copy, PartialEq, Eq, Structural)]
pub struct ReceiveSectionCounts {
    pub audio: usize,
    pub video: usize,
}

/// What a section receives.
#[derive(Debug, Clone, Copy, PartialEq, Eq, Structural)]
pub enum ReceiveSectionKind {
    Audio,
    Video,
}

/// A section that is there to receive a track.
#[derive(Debug, Clone, PartialEq, Eq)]
pub struct ReceiveSection {
    pub mid: String,
    pub kind: ReceiveSectionKind,
}

/// A media section of an offer.
#[derive(Debug, Clone, PartialEq, Eq)]
pub struct OfferMediaSection {
    pub mid: String,
    pub kind: Option<ReceiveSectionKind>,
    pub direction: String,
    pub has_msid: bool,
    pub is_rejected: bool,
}

/// The contents of an [`OfferMediaSection`].
pub struct OfferMediaSectionView {
    pub mid: Seq<char>,
    pub kind: Option<ReceiveSectionKind>,
    pub direction: Seq<char>,
    pub has_msid: bool,
    pub is_rejected: bool,
}

impl View for OfferMediaSection {
    type V = OfferMediaSectionView;

    open spec fn view(&self) -> OfferMediaSectionView {
        OfferMediaSectionView {
            mid: self.mid@,
            kind: self.kind,
            direction: self.direction@,
            has_msid: self.has_msid,
            is_rejected: self.is_rejected,
        }
    }
}

impl View for ReceiveSection {
    type V = (Seq<char>, ReceiveSectionKind);

    open spec fn view(&self) -> (Seq<char>, ReceiveSectionKind) {
        (self.mid@, self.kind)
    }
}

/// The kind of media that a media line names.
pub open spec fn kind_of(media: Option<Seq<char>>) -> Option<ReceiveSectionKind> {
    if media == Some("audio"@) {
        Some(ReceiveSectionKind::Audio)
    } else if media == Some("video"@) {
        Some(ReceiveSectionKind::Video)
    } else {
        None
    }
}

fn kind_from_media(media: &Option<Vec<char>>) -> (kind: Option<ReceiveSectionKind>)
    ensures
        kind == kind_of(text_of(*media)),
{
    match media {
        Some(media) => if is_text(media.as_slice(), "audio") {
            Some(ReceiveSectionKind::Audio)
        } else if is_text(media.as_slice(), "video") {
            Some(ReceiveSectionKind::Video)
        } else {
            None
        },
        None => None,
    }
}

/// The sections that have an id, in order.
pub open spec fn offered_sections(sections: Seq<SectionView>) -> Seq<OfferMediaSectionView>
    decreases sections.len(),
{
    if sections.len() == 0 {
        Seq::empty()
    } else {
        let before = offered_sections(sections.drop_last());
        let section = sections.last();
        match section.mid {
            Some(mid) => before.push(
                OfferMediaSectionView {
                    mid,
                    kind: kind_of(section.media),
                    direction: section.direction.word(),
                    has_msid: section.has_msid,
                    is_rejected: section.is_rejected,
                },
            ),
            None => before,
        }
    }
}

/// The views of offered sections.
pub open spec fn offer_views(sections: Seq<OfferMediaSection>) -> Seq<OfferMediaSectionView> {
    Seq::new(sections.len(), |i: int| sections[i]@)
}

/// The views of receiving sections.
pub open spec fn receive_views(sections: Seq<ReceiveSection>) -> Seq<
    (Seq<char>, ReceiveSectionKind),
> {
    Seq::new(sections.len(), |i: int| sections[i]@)
}

/// The media sections of an offer that have an id, in order.
pub fn offer_media_sections_from_sdp(offer_sdp: &str) -> (offered: Vec<OfferMediaSection>)
    ensures
        offer_views(offered@) == offered_sections(sections_of(offer_sdp@)),
{
    let parsed: Vec<Section> = parse_sections(offer_sdp);
    let ghost views = section_views(parsed@);
    let mut offered: Vec<OfferMediaSection> = Vec::new();
    let mut i: usize = 0;
    assert(offer_views(offered@) =~= offered_sections(views.take(0)));
    while i < parsed.len()
        invariant
            views == section_views(parsed@),
            i <= parsed@.len(),
            offer_views(offered@) == offered_sections(views.take(i as int)),
        decreases parsed.len() - i,
    {
        let section = &parsed[i];
        let ghost before = offer_views(offered@);
        assert(views.take(i + 1).drop_last() =~= views.take(i as int));
        assert(views.take(i + 1).last() == section@);
        if let Some(mid) = &section.mid {
            let entry = OfferMediaSection {
                mid: string_of(mid.as_slice()),
                kind: kind_from_media(&section.media),
                direction: section.direction.name(),
                has_msid: section.has_msid,
                is_rejected: section.is_rejected,
            };
            offered.push(entry);
            assert(offer_views(offered@) =~= before.push(entry@));
        }
        i += 1;
    }
    assert(views.take(i as int) =~= views);
    offered
}

/// The section can receive a track that is forwarded.
pub open spec fn can_receive(section: OfferMediaSectionView) -> bool {
    &&& !section.is_rejected
    &&& section.direction == "recvonly"@ || (section.direction == "sendrecv"@ && !section.has_msid)
}

/// The audio and video sections that can receive a track, in order.
pub open spec fn receiving_sections(sections: Seq<OfferMediaSectionView>) -> Seq<
    (Seq<char>, ReceiveSectionKind),
>
    decreases sections.len(),
{
    if sections.len() == 0 {
        Seq::empty()
    } else {
        let before = receiving_sections(sections.drop_last());
        let section = sections.last();
        if can_receive(section) && section.kind is Some {
            before.push((section.mid, section.kind->0))
        } else {
            before
        }
    }
}

fn is_string(s: &String, text: &str) -> (same: bool)
    ensures
        same == (s@ == text@),
{
    let chars: Vec<char> = chars_of(s.as_str());
    is_text(chars.as_slice(), text)
}

/// The audio and video sections of an offer that can receive a track, in order.
pub fn receive_sections_from_offer(offer_sdp: &str) -> (receiving: Vec<ReceiveSection>)
    ensures
        receive_views(receiving@) == receiving_sections(offered_sections(sections_of(offer_sdp@))),
{
    let offered: Vec<OfferMediaSection> = offer_media_sections_from_sdp(offer_sdp);
    let ghost views = offer_views(offered@);
    let mut receiving: Vec<ReceiveSection> = Vec::new();
    let mut i: usize = 0;
    assert(receive_views(receiving@) =~= receiving_sections(views.take(0)));
    while i < offered.len()
        invariant
            views == offer_views(offered@),
            i <= offered@.len(),
            receive_views(receiving@) == receiving_sections(views.take(i as int)),
        decreases offered.len() - i,
    {
        let section = &offered[i];
        let ghost before = receive_views(receiving@);
        assert(views.take(i + 1).drop_last() =~= views.take(i as int));
        assert(views.take(i + 1).last() == section@);
        let can_receive_downtrack: bool = !section.is_rejected && (is_string(
            &section.direction,
            "recvonly",
        ) || (is_string(&section.direction, "sendrecv") && !section.has_msid));
        if can_receive_downtrack {
            if let Some(kind) = section.kind {
                let entry = ReceiveSection { mid: section.mid.clone(), kind };
                receiving.push(entry);
                assert(receive_views(receiving@) =~= before.push(entry@));
            }
        }
        i += 1;
    }
    assert(views.take(i as int) =~= views);
    receiving
}

/// How many sections receive the kind.
pub open spec fn kind_count(
    sections: Seq<(Seq<char>, ReceiveSectionKind)>,
    kind: ReceiveSectionKind,
) -> nat
    decreases sections.len(),
{
    if sections.len() == 0 {
        0
    } else {
        kind_count(sections.drop_last(), kind) + if sections.last().1 == kind {
            1nat
        } else {
            0
        }
    }
}

/// How many sections of an offer can receive audio and video.
pub fn receive_section_counts_from_offer(offer_sdp: &str) -> (counts: ReceiveSectionCounts)
    ensures
        ({
            let receiving = receiving_sections(offered_sections(sections_of(offer_sdp@)));
            &&& counts.audio == kind_count(receiving, ReceiveSectionKind::Audio)
            &&& counts.video == kind_count(receiving, ReceiveSectionKind::Video)
        }),
{
    let receiving: Vec<ReceiveSection> = receive_sections_from_offer(offer_sdp);
    let ghost views = receive_views(receiving@);
    let mut counts = ReceiveSectionCounts { audio: 0, video: 0 };
    let mut i: usize = 0;
    while i < receiving.len()
        invariant
            views == receive_views(receiving@),
            i <= receiving.len(),
            counts.audio + counts.video == i,
            counts.audio == kind_count(views.take(i as int), ReceiveSectionKind::Audio),
            counts.video == kind_count(views.take(i as int), ReceiveSectionKind::Video),
        decreases receiving.len() - i,
    {
        assert(views.take(i + 1).drop_last() =~= views.take(i as int));
        assert(views.take(i + 1).last() == receiving@[i as int]@);
        match receiving[i].kind {
            ReceiveSectionKind::Audio => {
                counts.audio = counts.audio + 1;
            },
            ReceiveSectionKind::Video => {
                counts.video = counts.video + 1;
            },
        }
        i += 1;
    }
    assert(views.take(i as int) =~= views);
    counts
}

/// A video section that can receive lists the codec of this type.
pub open spec fn receives_mime(sections: Seq<SectionView>, mime: Seq<char>) -> bool {
    exists|i: int, codec: Seq<char>|
        0 <= i < sections.len() && (#[trigger] sections[i]).receives() && sections[i].media == Some(
            "video"@,
        ) && #[trigger] sections[i].lists_codec(codec) && mime == "video/"@
            + crate::text::lowered(codec)
}

/// The section, a video section that can receive, lists the codec of this type.
spec fn section_receives_mime(section: SectionView, mime: Seq<char>, upto: int) -> bool {
    exists|j: int|
        0 <= j < upto && codec_of(section.codecs, #[trigger] section.payload_types[j]) is Some
            && mime == "video/"@ + crate::text::lowered(
            codec_of(section.codecs, section.payload_types[j])->0,
        )
}

fn add_mimes(section: &Section, mimes: &mut StringHashSet)
    ensures
        forall|mime: Seq<char>|
            final(mimes)@.contains(mime) <==> old(mimes)@.contains(mime) || section_receives_mime(
                section@,
                mime,
                section@.payload_types.len() as int,
            ),
{
    let ghost before = mimes@;
    let mut j: usize = 0;
    while j < section.payload_types.len()
        invariant
            j <= section.payload_types@.len(),
            section@.payload_types == crate::text::texts(section.payload_types@),
            forall|mime: Seq<char>|
                mimes@.contains(mime) <==> before.contains(mime) || section_receives_mime(
                    section@,
                    mime,
                    j as int,
                ),
        decreases section.payload_types.len() - j,
    {
        let payload_type = &section.payload_types[j];
        assert(section@.payload_types[j as int] == payload_type@);
        let ghost held = mimes@;
        let ghost found = codec_of(section@.codecs, section@.payload_types[j as int]);
        let codec: Option<Vec<char>> = section.codec_for(payload_type);
        if let Some(codec) = &codec {
            let mut mime: Vec<char> = chars_of("video/");
            let mut low: Vec<char> = to_lower(codec.as_slice());
            mime.append(&mut low);
            mimes.insert(string_of(mime.as_slice()));
            assert(found == Some(codec@));
            assert(mimes@ == held.insert("video/"@ + crate::text::lowered(codec@)));
        }
        assert(mimes@ == if found is Some {
            held.insert("video/"@ + crate::text::lowered(found->0))
        } else {
            held
        });
        proof {
            assert(forall|mime: Seq<char>|
                held.contains(mime) <==> before.contains(mime) || section_receives_mime(
                    section@,
                    mime,
                    j as int,
                ));
            assert forall|mime: Seq<char>|
                mimes@.contains(mime) <==> before.contains(mime) || section_receives_mime(
                    section@,
                    mime,
                    j + 1,
                ) by {
                if found is Some && mime == "video/"@ + crate::text::lowered(found->0) {
                    assert(section_receives_mime(section@, mime, j + 1));
                }
                if section_receives_mime(section@, mime, j + 1) {
                    let k = choose|k: int|
                        0 <= k < j + 1 && codec_of(
                            section@.codecs,
                            #[trigger] section@.payload_types[k],
                        ) is Some && mime == "video/"@ + crate::text::lowered(
                            codec_of(section@.codecs, section@.payload_types[k])->0,
                        );
                    if k < j {
                        assert(section_receives_mime(section@, mime, j as int));
                        assert(held.contains(mime));
                    } else {
                        assert(k == j);
                        assert(mimes@.contains(mime));
                    }
                }
                if section_receives_mime(section@, mime, j as int) {
                    let k = choose|k: int|
                        0 <= k < j && codec_of(
                            section@.codecs,
                            #[trigger] section@.payload_types[k],
                        ) is Some && mime == "video/"@ + crate::text::lowered(
                            codec_of(section@.codecs, section@.payload_types[k])->0,
                        );
                    assert(0 <= k < j + 1);
                }
            }
        }
        j += 1;
    }
}

spec fn has_receiving_mime(views: Seq<SectionView>, upto: int, mime: Seq<char>) -> bool {
    exists|i: int|
        0 <= i < upto && (#[trigger] views[i]).receives() && views[i].media == Some("video"@)
            && section_receives_mime(views[i], mime, views[i].payload_types.len() as int)
}

proof fn lemma_receives_mime(views: Seq<SectionView>, mime: Seq<char>)
    ensures
        has_receiving_mime(views, views.len() as int, mime) == receives_mime(views, mime),
{
    if has_receiving_mime(views, views.len() as int, mime) {
        let i = choose|i: int|
            0 <= i < views.len() && (#[trigger] views[i]).receives() && views[i].media == Some(
                "video"@,
            ) && section_receives_mime(views[i], mime, views[i].payload_types.len() as int);
        let section = views[i];
        let j = choose|j: int|
            0 <= j < section.payload_types.len() && codec_of(
                section.codecs,
                #[trigger] section.payload_types[j],
            ) is Some && mime == "video/"@ + crate::text::lowered(
                codec_of(section.codecs, section.payload_types[j])->0,
            );
        let codec = codec_of(section.codecs, section.payload_types[j])->0;
        assert(views[i].lists_codec(codec));
    }
    if receives_mime(views, mime) {
        let (i, codec) = choose|i: int, codec: Seq<char>|
            0 <= i < views.len() && (#[trigger] views[i]).receives() && views[i].media == Some(
                "video"@,
            ) && #[trigger] views[i].lists_codec(codec) && mime == "video/"@
                + crate::text::lowered(codec);
        let section = views[i];
        let j = choose|j: int|
            0 <= j < section.payload_types.len() && codec_of(
                section.codecs,
                #[trigger] section.payload_types[j],
            ) == Some(codec);
        assert(section_receives_mime(section, mime, section.payload_types.len() as int));
    }
}

/// The mime types of the codecs that the video sections of an offer can receive.
pub fn receive_supported_video_mime_types_from_offer(offer_sdp: &str) -> (mimes: StringHashSet)
    ensures
        forall|mime: Seq<char>|
            mimes@.contains(mime) <==> receives_mime(sections_of(offer_sdp@), mime),
{
    let parsed: Vec<Section> = parse_sections(offer_sdp);
    let ghost views = section_views(parsed@);
    let mut mimes: StringHashSet = StringHashSet::new();
    let mut i: usize = 0;
    while i < parsed.len()
        invariant
            views == section_views(parsed@),
            i <= parsed@.len(),
            forall|mime: Seq<char>|
                mimes@.contains(mime) <==> has_receiving_mime(views, i as int, mime),
        decreases parsed.len() - i,
    {
        let section = &parsed[i];
        assert(views[i as int] == section@);
        let is_video: bool = match &section.media {
            Some(media) => is_text(media.as_slice(), "video"),
            None => false,
        };
        let receives: bool = !section.is_rejected && (section.direction == Direction::RecvOnly || (
        section.direction == Direction::SendRecv && !section.has_msid));
        if is_video && receives {
            add_mimes(section, &mut mimes);
        }
        proof {
            assert forall|mime: Seq<char>|
                mimes@.contains(mime) <==> has_receiving_mime(views, i + 1, mime) by {
                if has_receiving_mime(views, i + 1, mime) {
                    let k = choose|k: int|
                        0 <= k < i + 1 && (#[trigger] views[k]).receives() && views[k].media
                            == Some("video"@) && section_receives_mime(
                            views[k],
                            mime,
                            views[k].payload_types.len() as int,
                        );
                    if k < i {
                        assert(has_receiving_mime(views, i as int, mime));
                    }
                }
                if has_receiving_mime(views, i as int, mime) {
                    let k = choose|k: int|
                        0 <= k < i && (#[trigger] views[k]).receives() && views[k].media == Some(
                            "video"@,
                        ) && section_receives_mime(
                            views[k],
                            mime,
                            views[k].payload_types.len() as int,
                        );
                    assert(0 <= k < i + 1);
                }
            }
        }
        i += 1;
    }
    proof {
        assert forall|mime: Seq<char>| mimes@.contains(mime) <==> receives_mime(views, mime) by {
            lemma_receives_mime(views, mime);
        }
    }
    mimes
}

/// The ids of the sections of an offer that publish a track.
pub fn active_publisher_mids_from_offer(offer_sdp: &str) -> (mids: StringHashSet)
    ensures
        forall|mid: Seq<char>|
            mids@.contains(mid) <==> has_mid(
                sections_of(offer_sdp@),
                |section: SectionView| section.publishes(),
                mid,
            ),
{
    let parsed: Vec<Section> = parse_sections(offer_sdp);
    let ghost views = section_views(parsed@);
    let ghost chosen = |section: SectionView| section.publishes();
    let mut mids: StringHashSet = StringHashSet::new();
    let mut i: usize = 0;
    while i < parsed.len()
        invariant
            views == section_views(parsed@),
            chosen == (|section: SectionView| section.publishes()),
            i <= parsed@.len(),
            forall|mid: Seq<char>|
                mids@.contains(mid) <==> has_mid(views.take(i as int), chosen, mid),
        decreases parsed.len() - i,
    {
        let section = &parsed[i];
        let ghost before = mids@;
        let publishes: bool = !section.is_rejected && (section.direction == Direction::SendOnly || (
        section.direction == Direction::SendRecv && section.has_msid));
        if publishes {
            if let Some(mid) = &section.mid {
                mids.insert(string_of(mid.as_slice()));
            }
        }
        proof {
            lemma_one_more_section(views, chosen, i as int, before, mids@);
        }
        i += 1;
    }
    assert(views.take(i as int) =~= views);
    mids
}

/// What follows a media line says nothing of the sections before it, and they say nothing of what
/// follows.
#[verifier::spinoff_prover]
#[verifier::rlimit(60)]
pub proof fn law_sections_are_independent(first: Seq<Seq<char>>, second: Seq<Seq<char>>)
    requires
        second.len() > 0,
        crate::text::starts_with(second[0], "m="@),
    ensures
        sections(first + second) == sections(first) + sections(second).drop_first(),
    decreases second.len(),
{
    let whole = first + second;
    assert(whole.drop_last() =~= first + second.drop_last());
    lemma_section_count(first);
    lemma_section_count(second.drop_last());
    if second.len() == 1 {
        assert(second.drop_last() =~= Seq::<Seq<char>>::empty());
        assert(whole.drop_last() =~= first);
        assert(sections(second).drop_first() =~= seq![
            opened_section(second.last().skip("m="@.len() as int)),
        ]);
        assert(sections(whole) =~= sections(first) + sections(second).drop_first());
    } else {
        let shorter = second.drop_last();
        assert(shorter[0] == second[0]);
        law_sections_are_independent(first, shorter);
        lemma_media_line_opens_section(shorter);
        assert(whole.last() == second.last());
        assert(sections(whole.drop_last()) == sections(first) + sections(shorter).drop_first());
        assert(sections(whole.drop_last()).last() == sections(shorter).last());
        assert(sections(whole) =~= sections(first) + sections(second).drop_first());
    }
}

proof fn lemma_section_count(lines: Seq<Seq<char>>)
    ensures
        sections(lines).len() >= 1,
    decreases lines.len(),
{
    if lines.len() > 0 {
        lemma_section_count(lines.drop_last());
    }
}

proof fn lemma_media_line_opens_section(lines: Seq<Seq<char>>)
    requires
        lines.len() > 0,
        crate::text::starts_with(lines[0], "m="@),
    ensures
        sections(lines).len() >= 2,
    decreases lines.len(),
{
    lemma_section_count(lines.drop_last());
    if lines.len() > 1 {
        assert(lines.drop_last()[0] == lines[0]);
        lemma_media_line_opens_section(lines.drop_last());
    }
}

/// A section that publishes a track sends, is accepted, and receives none.
pub proof fn law_publishing_sections_receive_nothing(section: SectionView)
    requires
        section.publishes(),
    ensures
        !section.receives(),
        section.sends(),
        section.accepted(),
{
}

/// A section that is not rejected publishes exactly where its direction is to send only, or to send
/// and receive with a stream named; it receives exactly where its direction is to receive only, or
/// to send and receive without one. A rejected section does neither.
pub proof fn law_direction_decides_what_a_section_does(section: SectionView)
    ensures
        section.publishes() <==> !section.is_rejected && (section.direction is SendOnly
            || section.direction is SendRecv && section.has_msid),
        section.receives() <==> !section.is_rejected && (section.direction is RecvOnly
            || section.direction is SendRecv && !section.has_msid),
        section.sends() <==> section.direction is SendOnly || section.direction is SendRecv,
        section.accepted() <==> !section.is_rejected && !(section.direction is Inactive),
        section.accepted() && section.sends() && !section.receives() ==> section.publishes(),
        section.accepted() <==> section.publishes() || section.receives(),
        !(section.publishes() && section.receives()),
{
}

/// The ids of an offer's publishing sections are those of the sections that are not rejected and
/// send only, or send and receive with a stream named: each of them, and no others.
pub proof fn law_publisher_ids_are_those_of_sending_sections(
    sections: Seq<SectionView>,
    mid: Seq<char>,
    i: int,
)
    requires
        0 <= i < sections.len(),
        sections[i].mid == Some(mid),
    ensures
        !sections[i].is_rejected && (sections[i].direction is SendOnly
            || sections[i].direction is SendRecv && sections[i].has_msid) ==> has_mid(
            sections,
            |section: SectionView| section.publishes(),
            mid,
        ),
        (forall|j: int|
            0 <= j < sections.len() && (#[trigger] sections[j]).mid == Some(mid) ==> {
                ||| sections[j].is_rejected
                ||| sections[j].direction is RecvOnly
                ||| sections[j].direction is Inactive
                ||| sections[j].direction is SendRecv && !sections[j].has_msid
            }) ==> !has_mid(sections, |section: SectionView| section.publishes(), mid),
{
    let chosen = |section: SectionView| section.publishes();
    if !sections[i].is_rejected && (sections[i].direction is SendOnly
        || sections[i].direction is SendRecv && sections[i].has_msid) {
        assert(chosen(sections[i]));
    }
}

/// The ids of an answer's accepted sections are those of the sections that are neither rejected nor
/// inactive: each of them, and no others.
pub proof fn law_accepted_ids_are_those_of_live_sections(
    sections: Seq<SectionView>,
    mid: Seq<char>,
    i: int,
)
    requires
        0 <= i < sections.len(),
        sections[i].mid == Some(mid),
    ensures
        !sections[i].is_rejected && !(sections[i].direction is Inactive) ==> has_mid(
            sections,
            |section: SectionView| section.accepted(),
            mid,
        ),
        (forall|j: int|
            0 <= j < sections.len() && (#[trigger] sections[j]).mid == Some(mid)
                ==> sections[j].is_rejected || sections[j].direction is Inactive) ==> !has_mid(
            sections,
            |section: SectionView| section.accepted(),
            mid,
        ),
{
    let chosen = |section: SectionView| section.accepted();
    if !sections[i].is_rejected && !(sections[i].direction is Inactive) {
        assert(chosen(sections[i]));
    }
}

/// A line sets the direction that its word stands for, and no other line sets one.
pub proof fn law_direction_lines(direction: Direction, line: Seq<char>)
    ensures
        direction_of_line("a="@ + direction.word()) == Some(direction),
        direction_of_line(line) matches Some(set) ==> line == "a="@ + set.word(),
{
    lemma_direction_words();
}

proof fn lemma_direction_words()
    ensures
        "a=sendrecv"@ == "a="@ + "sendrecv"@,
        "a=sendonly"@ == "a="@ + "sendonly"@,
        "a=recvonly"@ == "a="@ + "recvonly"@,
        "a=inactive"@ == "a="@ + "inactive"@,
        "a=sendrecv"@ != "a=sendonly"@,
        "a=sendrecv"@ != "a=recvonly"@,
        "a=sendrecv"@ != "a=inactive"@,
        "a=sendonly"@ != "a=recvonly"@,
        "a=sendonly"@ != "a=inactive"@,
        "a=recvonly"@ != "a=inactive"@,
        "sendrecv"@ != "recvonly"@,
        "sendonly"@ != "recvonly"@,
        "sendonly"@ != "sendrecv"@,
        "inactive"@ != "recvonly"@,
        "inactive"@ != "sendrecv"@,
{
    reveal_strlit("a=");
    reveal_strlit("sendrecv");
    reveal_strlit("sendonly");
    reveal_strlit("recvonly");
    reveal_strlit("inactive");
    reveal_strlit("a=sendrecv");
    reveal_strlit("a=sendonly");
    reveal_strlit("a=recvonly");
    reveal_strlit("a=inactive");
    assert("a=sendrecv"@ =~= "a="@ + "sendrecv"@);
    assert("a=sendonly"@ =~= "a="@ + "sendonly"@);
    assert("a=recvonly"@ =~= "a="@ + "recvonly"@);
    assert("a=inactive"@ =~= "a="@ + "inactive"@);
    assert("a=sendrecv"@[6] == 'r' && "a=sendonly"@[6] == 'o');
    assert("a=sendrecv"@[2] == 's' && "a=sendonly"@[2] == 's');
    assert("a=recvonly"@[2] == 'r' && "a=inactive"@[2] == 'i');
    assert("sendrecv"@[4] == 'r' && "sendonly"@[4] == 'o');
    assert("sendrecv"@[0] == 's' && "sendonly"@[0] == 's');
    assert("recvonly"@[0] == 'r' && "inactive"@[0] == 'i');
}

proof fn lemma_attribute_is_no_media(line: Seq<char>)
    requires
        line.len() > 0,
        line[0] == 'a',
    ensures
        !crate::text::starts_with(line, "m="@),
{
    reveal_strlit("m=");
    if crate::text::starts_with(line, "m="@) {
        assert(line.take(2)[0] == "m="@[0]);
    }
}

/// The last direction line of a section sets its direction, and changes nothing else of it nor of
/// the sections before.
pub proof fn law_direction_line_sets_the_direction(
    lines: Seq<Seq<char>>,
    direction: Direction,
)
    ensures
        ({
            let before = sections(lines);
            let after = sections(lines.push("a="@ + direction.word()));
            &&& after.len() == before.len()
            &&& after.drop_last() == before.drop_last()
            &&& after.last() == (SectionView { direction, ..before.last() })
        }),
{
    let line = "a="@ + direction.word();
    lemma_direction_words();
    lemma_section_count(lines);
    reveal_strlit("a=");
    reveal_strlit("a=mid:");
    assert(line[0] == 'a');
    lemma_attribute_is_no_media(line);
    if crate::text::starts_with(line, "a=mid:"@) {
        assert(line.take(6)[2] == 'm');
        reveal_strlit("sendrecv");
        reveal_strlit("sendonly");
        reveal_strlit("recvonly");
        reveal_strlit("inactive");
        assert(line[2] == direction.word()[0]);
    }
    assert(lines.push(line).drop_last() =~= lines);
    assert(lines.push(line).last() == line);
    law_direction_lines(direction, line);
    let before = sections(lines);
    assert(before.drop_last().push(before.last().with_line(line)).drop_last()
        =~= before.drop_last());
}

/// The last id line of a section gives its id, without the white space around it, and changes
/// nothing else of it nor of the sections before.
pub proof fn law_id_line_gives_the_id(lines: Seq<Seq<char>>, mid: Seq<char>)
    ensures
        ({
            let before = sections(lines);
            let after = sections(lines.push("a=mid:"@ + mid));
            &&& after.len() == before.len()
            &&& after.drop_last() == before.drop_last()
            &&& after.last() == (SectionView {
                mid: Some(crate::text::trimmed(mid)),
                ..before.last()
            })
        }),
{
    let line = "a=mid:"@ + mid;
    lemma_section_count(lines);
    reveal_strlit("a=mid:");
    assert(line[0] == 'a');
    lemma_attribute_is_no_media(line);
    crate::text::law_prefix_is_taken_off("a=mid:"@, mid, line);
    assert(lines.push(line).drop_last() =~= lines);
    assert(lines.push(line).last() == line);
    let before = sections(lines);
    assert(before.drop_last().push(before.last().with_line(line)).drop_last()
        =~= before.drop_last());
}

/// A stream line marks its section as one with a stream, and gives its track where it names one; no
/// line takes the mark off again, and none but a media line changes whether the section is
/// rejected, its media or its payload types.
pub proof fn law_stream_line_marks_the_section(section: SectionView, value: Seq<char>, line: Seq<char>)
    ensures
        section.with_line("a=msid:"@ + value).has_msid,
        track_of_msid(value) is Some ==> section.with_line("a=msid:"@ + value).track_id
            == track_of_msid(value),
        track_of_msid(value) is None ==> section.with_line("a=msid:"@ + value).track_id
            == section.track_id,
        section.has_msid ==> section.with_line(line).has_msid,
        section.with_line(line).is_rejected == section.is_rejected,
        section.with_line(line).media == section.media,
        section.with_line(line).payload_types == section.payload_types,
        !section.has_msid && section.with_line(line).has_msid ==> crate::text::starts_with(
            line,
            "a=msid:"@,
        ) || crate::text::starts_with(line, "a=ssrc:"@),
{
    let msid = "a=msid:"@ + value;
    reveal_strlit("a=msid:");
    reveal_strlit("a=mid:");
    crate::text::law_prefix_is_taken_off("a=msid:"@, value, msid);
    if crate::text::starts_with(msid, "a=mid:"@) {
        assert(msid.take(6)[3] == 'i');
        assert(msid[3] == 's');
    }
    reveal_strlit("a=sendrecv");
    reveal_strlit("a=sendonly");
    reveal_strlit("a=recvonly");
    reveal_strlit("a=inactive");
    assert(msid[2] == 'm');
    assert("a=sendrecv"@[2] == 's' && "a=sendonly"@[2] == 's');
    assert("a=recvonly"@[2] == 'r' && "a=inactive"@[2] == 'i');
}

/// A media line opens a section that has nothing from the one before: its media is the first word,
/// it is rejected exactly where the second is a port of zeros, it has the words after the third
/// place on as payload types, and it sends and receives until a line says otherwise.
pub proof fn law_media_line_opens_a_section(lines: Seq<Seq<char>>, media_line: Seq<char>)
    ensures
        ({
            let before = sections(lines);
            let after = sections(lines.push("m="@ + media_line));
            let words = crate::text::words(media_line);
            &&& after.len() == before.len() + 1
            &&& after.drop_last() == before
            &&& after.last().mid is None
            &&& after.last().direction is SendRecv
            &&& after.last().track_id is None
            &&& !after.last().has_msid
            &&& after.last().codecs.len() == 0
            &&& words.len() > 0 ==> after.last().media == Some(words[0])
            &&& words.len() == 0 ==> after.last().media is None
            &&& after.last().payload_types == words.skip(
                if words.len() > 2 {
                    2
                } else {
                    words.len() as int
                },
            )
        }),
{
    let line = "m="@ + media_line;
    crate::text::law_prefix_is_taken_off("m="@, media_line, line);
    assert(lines.push(line).drop_last() =~= lines);
    assert(lines.push(line).last() == line);
    assert(sections(lines).push(opened_section(media_line)).drop_last() =~= sections(lines));
}

/// A section is rejected exactly where its port is written with zeros only, one at least, after a
/// plus sign or none.
pub proof fn law_port_of_zeros_rejects(media_line: Seq<char>, digits: Seq<char>)
    ensures
        crate::text::words(media_line).len() < 2 ==> !opened_section(media_line).is_rejected,
        crate::text::words(media_line).len() >= 2 && (crate::text::words(media_line)[1] == digits
            || crate::text::words(media_line)[1] == seq!['+'] + digits) && digits.len() > 0
            && digits[0] != '+' ==> (opened_section(media_line).is_rejected <==> (forall|i: int|
            0 <= i < digits.len() ==> digits[i] == '0')),
        crate::text::words(media_line).len() >= 2 && opened_section(media_line).is_rejected ==> ({
            let port = crate::text::words(media_line)[1];
            port.len() > 0 && port.last() == '0'
        }),
{
    let words = crate::text::words(media_line);
    if words.len() >= 2 {
        assert((seq!['+'] + digits).skip(1) =~= digits);
        if is_zero_port(words[1]) {
            let bare = without_plus(words[1]);
            assert(bare[bare.len() - 1] == '0');
        }
    }
}

/// The codec that a payload type was mapped to last is its codec, whatever other types were mapped
/// to.
pub proof fn law_last_codec_counts(
    codecs: Seq<(Seq<char>, Seq<char>)>,
    payload_type: Seq<char>,
    codec: Seq<char>,
    other: Seq<char>,
)
    ensures
        codec_of(codecs.push((payload_type, codec)), payload_type) == Some(codec),
        other != payload_type ==> codec_of(codecs.push((payload_type, codec)), other) == codec_of(
            codecs,
            other,
        ),
        codec_of(Seq::empty(), other) is None,
{
    assert(codecs.push((payload_type, codec)).drop_last() =~= codecs);
}

/// A mapping line gives the payload type and the codec, without its clock rate.
#[verifier::spinoff_prover]
#[verifier::rlimit(60)]
pub proof fn law_mapping_line_gives_the_codec(
    payload_type: Seq<char>,
    codec: Seq<char>,
    rate: Seq<char>,
)
    requires
        payload_type.len() > 0,
        codec.len() > 0,
        !codec.contains('/'),
        forall|i: int|
            0 <= i < payload_type.len() ==> !crate::text::is_space(#[trigger] payload_type[i]),
        forall|i: int| 0 <= i < codec.len() ==> !crate::text::is_space(#[trigger] codec[i]),
    ensures
        codec_of_line("a=rtpmap:"@ + (payload_type + seq![' '] + (codec + seq!['/'] + rate)))
            == Some((payload_type, codec)),
        !codec.contains('/') ==> codec_of_line(
            "a=rtpmap:"@ + (payload_type + seq![' '] + codec),
        ) == Some((payload_type, codec)),
{
    reveal_strlit(" ");
    reveal_strlit("/");
    assert(" "@ =~= seq![' ']);
    assert("/"@ =~= seq!['/']);
    assert(!payload_type.contains(' ')) by {
        if payload_type.contains(' ') {
            let i = choose|i: int| 0 <= i < payload_type.len() && payload_type[i] == ' ';
            assert(!crate::text::is_space(payload_type[i]));
        }
    }
    let rated = codec + seq!['/'] + rate;
    let empty = Seq::<char>::empty();
    let line = payload_type + seq![' '] + rated;
    let bare = payload_type + seq![' '] + codec;
    crate::text::law_prefix_is_taken_off("a=rtpmap:"@, line, line);
    crate::text::law_prefix_is_taken_off("a=rtpmap:"@, bare, bare);
    crate::text::law_text_splits_at_the_first_character(payload_type, ' ', rated);
    crate::text::law_text_splits_at_the_first_character(payload_type, ' ', codec);
    crate::text::law_text_splits_at_the_first_character(codec, '/', rate);
    assert(!crate::text::is_space(payload_type[0]));
    assert(!crate::text::is_space(payload_type[payload_type.len() - 1]));
    assert(!crate::text::is_space(codec[0]));
    assert(!crate::text::is_space(codec[codec.len() - 1]));
    crate::text::law_only_outer_space_is_trimmed(empty, payload_type, empty);
    crate::text::law_only_outer_space_is_trimmed(empty, codec, empty);
    assert(empty + payload_type + empty =~= payload_type);
    assert(empty + codec + empty =~= codec);
    crate::text::law_split_text_is_put_together_again(codec, "/"@, 0);
    if crate::text::split_at_first(codec, "/"@) is Some {
        let (before, after) = crate::text::split_at_first(codec, "/"@)->0;
        assert(codec[before.len() as int] == '/');
    }
}

/// The track of a stream is the second word of its value, or what follows the first bar in that
/// word; a value without a second word names no track.
pub proof fn law_stream_value_names_the_track(
    stream: Seq<char>,
    owner: Seq<char>,
    track: Seq<char>,
)
    requires
        stream.len() > 0,
        track.len() > 0,
        !owner.contains('|'),
        !track.contains('|'),
        forall|i: int| 0 <= i < stream.len() ==> !crate::text::is_space(#[trigger] stream[i]),
        forall|i: int| 0 <= i < owner.len() ==> !crate::text::is_space(#[trigger] owner[i]),
        forall|i: int| 0 <= i < track.len() ==> !crate::text::is_space(#[trigger] track[i]),
    ensures
        track_of_msid(stream) is None,
        track_of_msid(stream + seq![' '] + track) == Some(track),
        track_of_msid(stream + seq![' '] + (owner + seq!['|'] + track)) == Some(track),
{
    reveal_strlit("|");
    assert("|"@ =~= seq!['|']);
    let barred = owner + seq!['|'] + track;
    assert forall|i: int| 0 <= i < barred.len() implies !crate::text::is_space(
        #[trigger] barred[i],
    ) by {
        if i < owner.len() {
            assert(barred[i] == owner[i]);
        } else if i == owner.len() {
            assert(barred[i] == '|');
        } else {
            assert(barred[i] == track[i - owner.len() - 1]);
        }
    }
    crate::text::law_words_are_parted_by_space(stream, ' ', track);
    crate::text::law_words_are_parted_by_space(stream, ' ', barred);
    crate::text::law_words_are_parted_by_space(track, ' ', track);
    crate::text::law_words_are_parted_by_space(barred, ' ', track);
    assert((seq![stream] + seq![track])[1] == track);
    assert((seq![stream] + seq![barred])[1] == barred);
    crate::text::law_text_splits_at_the_first_character(owner, '|', track);
    crate::text::law_split_text_is_put_together_again(track, "|"@, 0);
    if crate::text::split_at_first(track, "|"@) is Some {
        let (before, after) = crate::text::split_at_first(track, "|"@)->0;
        assert(track[before.len() as int] == '|');
    }
}

/// A track is found for an id exactly where a section with the id and the track sends, and of
/// several such sections the last one counts.
pub proof fn law_last_sending_section_names_the_track(
    sections: Seq<SectionView>,
    i: int,
    mid: Seq<char>,
    track: Seq<char>,
)
    requires
        0 <= i < sections.len(),
        sections[i].direction is SendRecv || sections[i].direction is SendOnly,
        sections[i].mid == Some(mid),
        sections[i].track_id == Some(track),
        forall|j: int|
            i < j < sections.len() ==> !((#[trigger] sections[j]).mid == Some(mid)
                && sections[j].track_id is Some && (sections[j].direction is SendRecv
                || sections[j].direction is SendOnly)),
    ensures
        sent_tracks(sections).contains_key(mid),
        sent_tracks(sections)[mid] == track,
    decreases sections.len(),
{
    if i < sections.len() - 1 {
        let front = sections.drop_last();
        assert(front[i] == sections[i]);
        assert forall|j: int| i < j < front.len() implies !((#[trigger] front[j]).mid == Some(mid)
            && front[j].track_id is Some && (front[j].direction is SendRecv
            || front[j].direction is SendOnly)) by {
            assert(front[j] == sections[j]);
        }
        law_last_sending_section_names_the_track(front, i, mid, track);
        assert(sections[sections.len() - 1] == sections.last());
    }
}

/// No track is found for an id that no sending section with a track has.
pub proof fn law_silent_ids_have_no_track(sections: Seq<SectionView>, mid: Seq<char>)
    requires
        forall|j: int|
            0 <= j < sections.len() ==> !((#[trigger] sections[j]).mid == Some(mid)
                && sections[j].track_id is Some && (sections[j].direction is SendRecv
                || sections[j].direction is SendOnly)),
    ensures
        !sent_tracks(sections).contains_key(mid),
    decreases sections.len(),
{
    if sections.len() > 0 {
        let front = sections.drop_last();
        assert forall|j: int| 0 <= j < front.len() implies !((#[trigger] front[j]).mid == Some(mid)
            && front[j].track_id is Some && (front[j].direction is SendRecv
            || front[j].direction is SendOnly)) by {
            assert(front[j] == sections[j]);
        }
        law_silent_ids_have_no_track(front, mid);
        assert(sections[sections.len() - 1] == sections.last());
    }
}

/// In an answer a track belongs to the id given last before it, and a track before any id to none.
pub proof fn law_answered_track_belongs_to_the_last_id(
    lines: Seq<Seq<char>>,
    mid: Seq<char>,
    line: Seq<char>,
)
    ensures
        answered_tracks(lines.push("a=mid:"@ + mid)) == (
            Some(crate::text::trimmed(mid)),
            answered_tracks(lines).1,
        ),
        !crate::text::starts_with(line, "a=mid:"@) ==> {
            let before = answered_tracks(lines);
            let after = answered_tracks(lines.push(line));
            &&& after.0 == before.0
            &&& before.0 is Some && track_of_line(line) is Some ==> after.1 == before.1.insert(
                before.0->0,
                track_of_line(line)->0,
            )
            &&& before.0 is None || track_of_line(line) is None ==> after.1 == before.1
        },
        answered_tracks(Seq::empty()).0 is None,
        answered_tracks(Seq::empty()).1 == Map::<Seq<char>, Seq<char>>::empty(),
{
    let named = "a=mid:"@ + mid;
    crate::text::law_prefix_is_taken_off("a=mid:"@, mid, named);
    assert(lines.push(named).drop_last() =~= lines);
    assert(lines.push(line).drop_last() =~= lines);
}

/// Each section with an id is offered, in order, as it is; one without an id is not.
pub proof fn law_sections_with_ids_are_offered(sections: Seq<SectionView>, section: SectionView)
    ensures
        offered_sections(Seq::empty()).len() == 0,
        section.mid is None ==> offered_sections(sections.push(section)) == offered_sections(
            sections,
        ),
        section.mid matches Some(mid) ==> {
            let offered = offered_sections(sections.push(section));
            &&& offered.drop_last() == offered_sections(sections)
            &&& offered.last().mid == mid
            &&& offered.last().has_msid == section.has_msid
            &&& offered.last().is_rejected == section.is_rejected
            &&& offered.last().kind is Some ==> section.media is Some
            &&& offered.last().kind == Some(ReceiveSectionKind::Audio) <==> section.media == Some(
                "audio"@,
            )
            &&& offered.last().kind == Some(ReceiveSectionKind::Video) <==> section.media == Some(
                "video"@,
            )
            &&& direction_of_line("a="@ + offered.last().direction) == Some(section.direction)
        },
{
    reveal_strlit("audio");
    reveal_strlit("video");
    assert("audio"@[0] == 'a' && "video"@[0] == 'v');
    assert(sections.push(section).drop_last() =~= sections);
    law_direction_lines(section.direction, "a="@);
    if section.mid is Some {
        assert(offered_sections(sections.push(section)).drop_last() =~= offered_sections(sections));
    }
}

/// An offered section can receive exactly where the section it stands for receives.
pub proof fn law_offered_sections_receive_as_they_are(
    sections: Seq<SectionView>,
    section: SectionView,
)
    requires
        section.mid is Some,
    ensures
        can_receive(offered_sections(sections.push(section)).last()) <==> !section.is_rejected && (
        section.direction is RecvOnly || section.direction is SendRecv && !section.has_msid),
{
    lemma_direction_words();
}

/// The audio and video sections that can receive are taken, in order, with their kind, and no
/// others.
pub proof fn law_receiving_sections_are_taken_in_order(
    offered: Seq<OfferMediaSectionView>,
    section: OfferMediaSectionView,
)
    ensures
        receiving_sections(Seq::empty()).len() == 0,
        can_receive(section) && section.kind is Some ==> receiving_sections(offered.push(section))
            == receiving_sections(offered).push((section.mid, section.kind->0)),
        !can_receive(section) || section.kind is None ==> receiving_sections(offered.push(section))
            == receiving_sections(offered),
{
    assert(offered.push(section).drop_last() =~= offered);
}

/// Every receiving section is counted, once, under its kind.
pub proof fn law_every_receiving_section_is_counted(
    receiving: Seq<(Seq<char>, ReceiveSectionKind)>,
    mid: Seq<char>,
    kind: ReceiveSectionKind,
)
    ensures
        kind_count(receiving, ReceiveSectionKind::Audio) + kind_count(
            receiving,
            ReceiveSectionKind::Video,
        ) == receiving.len(),
        kind_count(receiving.push((mid, kind)), kind) == kind_count(receiving, kind) + 1,
    decreases receiving.len(),
{
    assert(receiving.push((mid, kind)).drop_last() =~= receiving);
    if receiving.len() > 0 {
        law_every_receiving_section_is_counted(receiving.drop_last(), mid, kind);
    }
}

/// A type can be received exactly where a video section that receives maps one of its payload types
/// to the codec of that type; case does not matter.
pub proof fn law_received_types_come_from_receiving_sections(
    sections: Seq<SectionView>,
    i: int,
    j: int,
    codec: Seq<char>,
)
    requires
        0 <= i < sections.len(),
        !sections[i].is_rejected,
        sections[i].direction is RecvOnly || sections[i].direction is SendRecv
            && !sections[i].has_msid,
        sections[i].media == Some("video"@),
        0 <= j < sections[i].payload_types.len(),
        codec_of(sections[i].codecs, sections[i].payload_types[j]) == Some(codec),
    ensures
        receives_mime(sections, "video/"@ + crate::text::lowered(codec)),
{
    assert(sections[i].receives());
    assert(sections[i].lists_codec(codec));
}

/// No type can be received where no video section receives.
pub proof fn law_nothing_is_received_without_video(sections: Seq<SectionView>, mime: Seq<char>)
    requires
        forall|i: int|
            0 <= i < sections.len() ==> {
                ||| (#[trigger] sections[i]).media != Some("video"@)
                ||| sections[i].is_rejected
                ||| sections[i].direction is SendOnly
                ||| sections[i].direction is Inactive
                ||| sections[i].direction is SendRecv && sections[i].has_msid
            },
    ensures
        !receives_mime(sections, mime),
{
}

/// A source line with a stream in it marks its section as one with a stream, as a stream line does,
/// and gives its track where it names one; one without changes nothing of that.
pub proof fn law_source_line_marks_the_section(
    section: SectionView,
    line: Seq<char>,
    before: Seq<char>,
    value: Seq<char>,
)
    requires
        crate::text::starts_with(line, "a=ssrc:"@),
    ensures
        crate::text::split_at_first(line, " msid:"@) == Some((before, value))
            ==> section.with_line(line).has_msid && (track_of_msid(value) is Some
            ==> section.with_line(line).track_id == track_of_msid(value)) && (track_of_msid(
            value,
        ) is None ==> section.with_line(line).track_id == section.track_id),
        crate::text::split_at_first(line, " msid:"@) is None ==> section.with_line(line).has_msid
            == section.has_msid && section.with_line(line).track_id == section.track_id,
        section.with_line(line).direction == section.direction,
        section.with_line(line).mid == section.mid,
{
    reveal_strlit("a=ssrc:");
    reveal_strlit("a=msid:");
    reveal_strlit("a=mid:");
    reveal_strlit("a=sendrecv");
    reveal_strlit("a=sendonly");
    reveal_strlit("a=recvonly");
    reveal_strlit("a=inactive");
    assert(line.take(7)[2] == 's' && line.take(7)[3] == 's');
    assert(line[2] == 's' && line[3] == 's');
    if crate::text::starts_with(line, "a=mid:"@) {
        assert(line.take(6)[2] == 'm');
    }
    if crate::text::starts_with(line, "a=msid:"@) {
        assert(line.take(7)[2] == 'm');
    }
    assert("a=sendrecv"@[3] == 'e' && "a=sendonly"@[3] == 'e');
    assert("a=recvonly"@[2] == 'r' && "a=inactive"@[2] == 'i');
}

/// A mapping line adds its mapping behind those of its section, and changes nothing else of it but
/// what a stream line would.
pub proof fn law_mapping_line_is_kept(
    section: SectionView,
    line: Seq<char>,
    mapping: (Seq<char>, Seq<char>),
)
    requires
        codec_of_line(line) == Some(mapping),
    ensures
        section.with_line(line).codecs == section.codecs.push(mapping),
        section.with_line(line).mid == section.mid,
        section.with_line(line).direction == section.direction,
{
    reveal_strlit("a=rtpmap:");
    reveal_strlit("a=mid:");
    reveal_strlit("a=sendrecv");
    reveal_strlit("a=sendonly");
    reveal_strlit("a=recvonly");
    reveal_strlit("a=inactive");
    assert(line.take(9)[2] == 'r' && line.take(9)[3] == 't');
    assert(line[2] == 'r' && line[3] == 't');
    if crate::text::starts_with(line, "a=mid:"@) {
        assert(line.take(6)[2] == 'm');
    }
    assert("a=sendrecv"@[2] == 's' && "a=sendonly"@[2] == 's');
    assert("a=recvonly"@[3] == 'e' && "a=inactive"@[2] == 'i');
}

/// The lines before the first media line are a section of their own, which has nothing; and the
/// map of an offer holds exactly the texts that are found.
pub proof fn law_descriptions_begin_without_media(
    map: Map<Seq<char>, String>,
    expected: Map<Seq<char>, Seq<char>>,
    key: Seq<char>,
)
    ensures
        sections(Seq::empty()).len() == 1,
        sections(Seq::empty())[0].media is None,
        sections(Seq::empty())[0].mid is None,
        sections(Seq::empty())[0].track_id is None,
        !sections(Seq::empty())[0].has_msid,
        !sections(Seq::empty())[0].is_rejected,
        sections(Seq::empty())[0].direction is SendRecv,
        maps_texts(map, expected) ==> (map.contains_key(key) <==> expected.contains_key(key)) && (
        expected.contains_key(key) ==> map[key]@ == expected[key]),
{
}

} // verus!
