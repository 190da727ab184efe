//! The order of texts, and lists of texts in that order.
use crate::text::chars_of;
use vstd::prelude::*;

verus! {

/// From place `i` on, `a` comes before `b`: the first character that differs is smaller, or `a`
/// ends first.
pub open spec fn precedes_from(a: Seq<char>, b: Seq<char>, i: int) -> bool
    decreases a.len() - i,
{
    if i >= b.len() {
        false
    } else if i >= a.len() {
        true
    } else if a[i] != b[i] {
        a[i] < b[i]
    } else {
        precedes_from(a, b, i + 1)
    }
}

/// `a` comes before `b`.
pub open spec fn precedes(a: Seq<char>, b: Seq<char>) -> bool {
    precedes_from(a, b, 0)
}

/// Every text comes before those after it. So no text is there twice.
pub open spec fn ascending(list: Seq<Seq<char>>) -> bool {
    forall|i: int, j: int| 0 <= i < j < list.len() ==> #[trigger] precedes(list[i], list[j])
}

/// The contents of the strings.
pub open spec fn string_views(list: Seq<String>) -> Seq<Seq<char>> {
    list.map_values(|s: String| s@)
}

proof fn lemma_transitive(a: Seq<char>, b: Seq<char>, c: Seq<char>, i: int)
    requires
        precedes_from(a, b, i),
        precedes_from(b, c, i),
    ensures
        precedes_from(a, c, i),
    decreases a.len() - i,
{
    if i < a.len() && i < b.len() && i < c.len() && a[i] == b[i] && b[i] == c[i] {
        lemma_transitive(a, b, c, i + 1);
    }
}

proof fn lemma_total(a: Seq<char>, b: Seq<char>, i: int)
    requires
        0 <= i,
        forall|j: int| 0 <= j < i && j < a.len() && j < b.len() ==> a[j] == b[j],
        i <= a.len() && i <= b.len(),
        !precedes_from(a, b, i),
        a != b,
    ensures
        precedes_from(b, a, i),
    decreases a.len() - i,
{
    if i < a.len() && i < b.len() {
        if a[i] == b[i] {
            lemma_total(a, b, i + 1);
        }
    } else if a.len() == b.len() {
        assert(a =~= b);
    }
}

proof fn lemma_irreflexive(a: Seq<char>, i: int)
    ensures
        !precedes_from(a, a, i),
    decreases a.len() - i,
{
    if i < a.len() {
        lemma_irreflexive(a, i + 1);
    }
}

/// The order is total: of two texts that differ, one comes before the other, and only one.
pub proof fn law_texts_are_ordered(a: Seq<char>, b: Seq<char>)
    ensures
        a != b ==> (precedes(a, b) <==> !precedes(b, a)),
        !precedes(a, a),
{
    lemma_irreflexive(a, 0);
    if a != b {
        if !precedes(a, b) {
            lemma_total(a, b, 0);
        } else if precedes(b, a) {
            lemma_transitive(a, b, a, 0);
        }
    }
}

/// Tells whether `a` comes before `b`.
pub fn is_before(a: &str, b: &str) -> (before: bool)
    ensures
        before == precedes(a@, b@),
{
    let a_chars: Vec<char> = chars_of(a);
    let b_chars: Vec<char> = chars_of(b);
    let mut i: usize = 0;
    while i < a_chars.len() && i < b_chars.len() && a_chars[i] == b_chars[i]
        invariant
            a_chars@ == a@,
            b_chars@ == b@,
            i <= a_chars@.len(),
            i <= b_chars@.len(),
            precedes(a@, b@) == precedes_from(a@, b@, i as int),
        decreases a_chars.len() - i,
    {
        i += 1;
    }
    if i >= b_chars.len() {
        false
    } else if i >= a_chars.len() {
        true
    } else {
        a_chars[i] < b_chars[i]
    }
}

/// Puts a text into a list where it belongs, unless it is there.
pub fn insert_text(list: &mut Vec<String>, text: String)
    requires
        ascending(string_views(old(list)@)),
    ensures
        ascending(string_views(final(list)@)),
        string_views(final(list)@).to_set() == string_views(old(list)@).to_set().insert(text@),
{
    let ghost before = string_views(list@);
    let ghost added = text@;
    let mut place: usize = 0;
    while place < list.len() && is_before(list[place].as_str(), text.as_str())
        invariant
            place <= list@.len(),
            before == string_views(list@),
            forall|i: int| 0 <= i < place ==> #[trigger] precedes(before[i], text@),
        decreases list.len() - place,
    {
        assert(before[place as int] == list@[place as int]@);
        place += 1;
    }
    if place < list.len() && list[place] == text {
        proof {
            assert(before[place as int] == text@);
            assert(before.contains(text@));
            assert(before.to_set() =~= before.to_set().insert(text@));
        }
        return;
    }
    proof {
        if place < list@.len() {
            law_texts_are_ordered(before[place as int], added);
        }
        assert forall|i: int| place <= i < before.len() implies #[trigger] precedes(
            added,
            before[i],
        ) by {
            if i > place {
                assert(precedes(before[place as int], before[i]));
                lemma_transitive(added, before[place as int], before[i], 0);
            }
        }
    }
    list.insert(place, text);
    proof {
        let after = string_views(list@);
        assert(after =~= before.insert(place as int, added));
        assert forall|i: int, j: int| 0 <= i < j < after.len() implies #[trigger] precedes(
            after[i],
            after[j],
        ) by {
            let from = if i < place {
                i
            } else {
                i - 1
            };
            let to = if j < place {
                j
            } else {
                j - 1
            };
            if i == place {
                assert(precedes(added, before[to]));
            } else if j == place {
                assert(precedes(before[from], added));
            } else {
                assert(precedes(before[from], before[to]));
            }
        }
        assert forall|t: Seq<char>|
            after.to_set().contains(t) <==> before.to_set().insert(added).contains(t) by {
            if after.contains(t) {
                let i = choose|i: int| 0 <= i < after.len() && after[i] == t;
                if i < place {
                    assert(before[i] == t);
                } else if i > place {
                    assert(before[i - 1] == t);
                }
            }
            if before.contains(t) {
                let i = choose|i: int| 0 <= i < before.len() && before[i] == t;
                if i < place {
                    assert(after[i] == t);
                } else {
                    assert(after[i + 1] == t);
                }
            }
            if t == added {
                assert(after[place as int] == t);
            }
        }
        assert(after.to_set() =~= before.to_set().insert(added));
    }
}

/// Two lists in order with the same texts are the same list.
pub proof fn law_order_determines_list(a: Seq<Seq<char>>, b: Seq<Seq<char>>)
    requires
        ascending(a),
        ascending(b),
        a.to_set() == b.to_set(),
    ensures
        a == b,
    decreases a.len(),
{
    if a.len() == 0 {
        if b.len() > 0 {
            assert(b.to_set().contains(b[0]));
            assert(a.contains(b[0]));
        }
        assert(a =~= b);
    } else {
        assert(a.to_set().contains(a[0]));
        assert(b.contains(a[0]));
        let j = choose|j: int| 0 <= j < b.len() && b[j] == a[0];
        assert(b.to_set().contains(b[0]));
        assert(a.contains(b[0]));
        let i = choose|i: int| 0 <= i < a.len() && a[i] == b[0];
        if i > 0 && j > 0 {
            assert(precedes(a[0], a[i]));
            assert(precedes(b[0], b[j]));
            law_texts_are_ordered(a[0], b[0]);
        }
        assert(a[0] == b[0]);
        let rest_a = a.skip(1);
        let rest_b = b.skip(1);
        assert forall|i: int, j: int| 0 <= i < j < rest_a.len() implies #[trigger] precedes(
            rest_a[i],
            rest_a[j],
        ) by {
            assert(precedes(a[i + 1], a[j + 1]));
        }
        assert forall|i: int, j: int| 0 <= i < j < rest_b.len() implies #[trigger] precedes(
            rest_b[i],
            rest_b[j],
        ) by {
            assert(precedes(b[i + 1], b[j + 1]));
        }
        lemma_rest_set(a);
        lemma_rest_set(b);
        law_order_determines_list(rest_a, rest_b);
        assert(a =~= seq![a[0]] + rest_a);
        assert(b =~= seq![b[0]] + rest_b);
    }
}

proof fn lemma_rest_set(list: Seq<Seq<char>>)
    requires
        ascending(list),
        list.len() > 0,
    ensures
        list.skip(1).to_set() == list.to_set().remove(list[0]),
{
    let rest = list.skip(1);
    assert forall|t: Seq<char>|
        rest.to_set().contains(t) <==> list.to_set().remove(list[0]).contains(t) by {
        if rest.contains(t) {
            let i = choose|i: int| 0 <= i < rest.len() && rest[i] == t;
            assert(list[i + 1] == t);
            assert(precedes(list[0], list[i + 1]));
            law_texts_are_ordered(list[0], t);
        }
        if list.contains(t) && t != list[0] {
            let i = choose|i: int| 0 <= i < list.len() && list[i] == t;
            assert(rest[i - 1] == t);
        }
    }
    assert(rest.to_set() =~= list.to_set().remove(list[0]));
}

/// The first character that differs decides, and a text comes before every longer one that begins
/// with it.
pub proof fn law_first_difference_decides(
    common: Seq<char>,
    a: Seq<char>,
    b: Seq<char>,
)
    requires
        b.len() > 0,
        a.len() == 0 || a[0] < b[0],
    ensures
        precedes(common + a, common + b),
        !precedes(common + b, common + a),
{
    lemma_common_start(common, a, b, 0);
    lemma_common_start(common, b, a, 0);
}

proof fn lemma_common_start(common: Seq<char>, a: Seq<char>, b: Seq<char>, i: int)
    requires
        0 <= i <= common.len(),
    ensures
        precedes_from(common + a, common + b, i) == precedes_from(
            common + a,
            common + b,
            common.len() as int,
        ),
    decreases common.len() - i,
{
    if i < common.len() {
        assert((common + a)[i] == (common + b)[i]);
        lemma_common_start(common, a, b, i + 1);
    }
}

} // verus!
