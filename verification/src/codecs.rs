//! Which codecs may be used.
use crate::protocol::Codec;
use crate::text::{chars_of, same_ignoring_case, trim};
use vstd::prelude::*;

verus! {

/// The texts are the same but for the case of ASCII letters.
pub open spec fn alike(a: Seq<char>, b: Seq<char>) -> bool {
    crate::text::lowered(a) == crate::text::lowered(b)
}

/// The mime types are the same but for case and surrounding white space.
pub open spec fn same_mime_type(a: Seq<char>, b: Seq<char>) -> bool {
    alike(crate::text::trimmed(a), crate::text::trimmed(b))
}

/// The codec allows the mime type with the format parameters. Blank parameters allow any.
pub open spec fn allows(codec: Codec, mime_type: Seq<char>, sdp_fmtp_line: Seq<char>) -> bool {
    same_mime_type(codec.mime@, mime_type) && (crate::text::trimmed(codec.fmtp_line@).len() == 0
        || alike(codec.fmtp_line@, sdp_fmtp_line))
}

/// Tells whether mime types are the same but for case and surrounding white space.
pub fn mime_type_equal(a: &str, b: &str) -> (equal: bool)
    ensures
        equal == same_mime_type(a@, b@),
{
    let a_chars: Vec<char> = chars_of(a);
    let b_chars: Vec<char> = chars_of(b);
    let a_trimmed: Vec<char> = trim(a_chars.as_slice());
    let b_trimmed: Vec<char> = trim(b_chars.as_slice());
    same_ignoring_case(a_trimmed.as_slice(), b_trimmed.as_slice())
}

/// Tells whether a codec with format parameters may be used.
pub fn is_codec_enabled(enabled_codecs: &[Codec], mime_type: &str, sdp_fmtp_line: &str) -> (enabled:
    bool)
    ensures
        enabled == exists|i: int|
            0 <= i < enabled_codecs@.len() && allows(
                #[trigger] enabled_codecs@[i],
                mime_type@,
                sdp_fmtp_line@,
            ),
{
    let wanted_line: Vec<char> = chars_of(sdp_fmtp_line);
    let mut i: usize = 0;
    while i < enabled_codecs.len()
        invariant
            i <= enabled_codecs@.len(),
            wanted_line@ == sdp_fmtp_line@,
            forall|j: int|
                0 <= j < i ==> !allows(
                    #[trigger] enabled_codecs@[j],
                    mime_type@,
                    sdp_fmtp_line@,
                ),
        decreases enabled_codecs.len() - i,
    {
        let codec: &Codec = &enabled_codecs[i];
        if mime_type_equal(codec.mime.as_str(), mime_type) {
            let line: Vec<char> = chars_of(codec.fmtp_line.as_str());
            let trimmed: Vec<char> = trim(line.as_slice());
            if trimmed.len() == 0 || same_ignoring_case(line.as_slice(), wanted_line.as_slice()) {
                return true;
            }
        }
        i += 1;
    }
    false
}

/// A codec without format parameters allows its mime type with any.
pub proof fn law_blank_parameters_allow_any(
    codec: Codec,
    mime_type: Seq<char>,
    one: Seq<char>,
    other: Seq<char>,
)
    requires
        codec.fmtp_line@.len() == 0,
    ensures
        allows(codec, mime_type, one) == allows(codec, mime_type, other),
        allows(codec, codec.mime@, one),
{
}

/// Case does not matter, nor does the order in which two texts are compared.
pub proof fn law_case_does_not_matter(a: Seq<char>, b: Seq<char>)
    ensures
        alike(a, a),
        alike(a, crate::text::lowered(a)),
        alike(a, b) == alike(b, a),
        a.len() != b.len() ==> !alike(a, b),
        same_mime_type(a, b) == same_mime_type(b, a),
        same_mime_type(a, a),
{
    if a.len() > 0 {
        crate::text::law_capitals_become_small(a, 0);
    } else {
        assert(crate::text::lowered(crate::text::lowered(a)) =~= crate::text::lowered(a));
    }
    if a.len() != b.len() {
        assert(crate::text::lowered(a).len() != crate::text::lowered(b).len());
    }
}

/// A codec with format parameters allows its mime type with those parameters, and with no others;
/// it allows no other mime type with any.
pub proof fn law_parameters_must_match(codec: Codec, mime_type: Seq<char>, line: Seq<char>)
    ensures
        !same_mime_type(codec.mime@, mime_type) ==> !allows(codec, mime_type, line),
        same_mime_type(codec.mime@, mime_type) ==> allows(codec, mime_type, codec.fmtp_line@),
        crate::text::trimmed(codec.fmtp_line@).len() > 0 && crate::text::lowered(line)
            != crate::text::lowered(codec.fmtp_line@) ==> !allows(codec, mime_type, line),
{
}

} // verus!
