//! The order of texts, by which the clients sort times and names.

use vstd::prelude::*;

verus! {

/// `a` comes strictly before `b`: at the first place where they differ `a`
/// holds the character with the lower code point, or `a` is a proper
/// beginning of `b`.
pub open spec fn text_lt(a: Seq<char>, b: Seq<char>) -> bool
    decreases a.len(),
{
    if b.len() == 0 {
        false
    } else if a.len() == 0 {
        true
    } else if a[0] != b[0] {
        (a[0] as u32) < (b[0] as u32)
    } else {
        text_lt(a.drop_first(), b.drop_first())
    }
}

/// `a` comes before `b` or is the same text.
pub open spec fn text_le(a: Seq<char>, b: Seq<char>) -> bool {
    !text_lt(b, a)
}

/// No text comes before itself.
pub proof fn lemma_text_lt_irreflexive(a: Seq<char>)
    ensures
        !text_lt(a, a),
    decreases a.len(),
{
    if a.len() > 0 {
        lemma_text_lt_irreflexive(a.drop_first());
    }
}

/// Of two texts at most one comes before the other.
pub proof fn lemma_text_lt_asymmetric(a: Seq<char>, b: Seq<char>)
    requires
        text_lt(a, b),
    ensures
        !text_lt(b, a),
        a != b,
    decreases a.len(),
{
    lemma_text_lt_irreflexive(a);
    if a.len() > 0 && b.len() > 0 && a[0] == b[0] {
        lemma_text_lt_asymmetric(a.drop_first(), b.drop_first());
    }
}

/// The order is transitive.
pub proof fn lemma_text_lt_transitive(a: Seq<char>, b: Seq<char>, c: Seq<char>)
    requires
        text_lt(a, b),
        text_lt(b, c),
    ensures
        text_lt(a, c),
    decreases a.len(),
{
    if a.len() > 0 && b.len() > 0 && c.len() > 0 && a[0] == b[0] && b[0] == c[0] {
        lemma_text_lt_transitive(a.drop_first(), b.drop_first(), c.drop_first());
    }
}

/// The order is total: two different texts are ordered one way or the other.
pub proof fn lemma_text_lt_total(a: Seq<char>, b: Seq<char>)
    ensures
        text_lt(a, b) || a == b || text_lt(b, a),
    decreases a.len(),
{
    if a.len() == 0 || b.len() == 0 {
        // one text is empty: it is the other's beginning, or both are empty
    } else if a[0] == b[0] {
        lemma_text_lt_total(a.drop_first(), b.drop_first());
        if a.drop_first() == b.drop_first() {
            assert(a =~= seq![a[0]] + a.drop_first());
        }
    } else {
        let x = a[0] as u32;
        let y = b[0] as u32;
        if x == y {
            vstd::utf8::char_u32_cast(a[0], x);
            vstd::utf8::char_u32_cast(b[0], y);
        }
    }
}

/// "Before or the same" is transitive.
pub proof fn lemma_text_le_transitive(a: Seq<char>, b: Seq<char>, c: Seq<char>)
    requires
        text_le(a, b),
        text_le(b, c),
    ensures
        text_le(a, c),
{
    lemma_text_lt_total(a, b);
    lemma_text_lt_total(b, c);
    if text_lt(c, a) {
        if a != b && b != c {
            lemma_text_lt_transitive(c, a, b);
            lemma_text_lt_asymmetric(b, c);
        }
    }
}

/// Whether two texts are the same.
///
/// Wraps the equality of `str`: two strings are equal exactly when they hold
/// the same characters.
#[verifier::external_body]
pub(crate) fn same_text(a: &str, b: &str) -> (r: bool)
    ensures
        r == (a@ == b@),
{
    a == b
}

/// Whether `a` comes strictly before `b`.
///
/// Wraps `<` on `str`, which orders strings by their bytes and thereby by
/// the code points of their characters.
#[verifier::external_body]
pub(crate) fn text_before(a: &str, b: &str) -> (r: bool)
    ensures
        r == text_lt(a@, b@),
{
    a < b
}

/// The texts of a list of strings.
pub open spec fn texts_of(strings: Seq<String>) -> Seq<Seq<char>> {
    strings.map_values(|s: String| s@)
}

/// The texts rise strictly: the list is sorted and holds no text twice.
pub open spec fn strictly_rising(texts: Seq<Seq<char>>) -> bool {
    forall|i: int, j: int| 0 <= i < j < texts.len() ==> text_lt(texts[i], texts[j])
}

/// Puts `text` into a sorted list at its place, unless the list holds it
/// already.
pub fn insert_sorted(list: &mut Vec<String>, text: &str)
    requires
        strictly_rising(texts_of(old(list)@)),
    ensures
        strictly_rising(texts_of(final(list)@)),
        texts_of(final(list)@).to_set() == texts_of(old(list)@).to_set().insert(text@),
{
    let ghost before = texts_of(list@);
    let mut i: usize = 0;
    let mut placed = false;
    while i < list.len() && !placed
        invariant
            i <= list.len(),
            list@ == old(list)@,
            before == texts_of(list@),
            strictly_rising(before),
            forall|k: int| 0 <= k < i ==> text_lt(before[k], text@),
            placed ==> i < list.len() && text_lt(text@, before[i as int]),
        decreases list.len() - i + (if placed { 0int } else { 1int }),
    {
        assert(before[i as int] == list@[i as int]@);
        if same_text(list[i].as_str(), text) {
            proof {
                assert(before.to_set().insert(text@) =~= before.to_set());
            }
            return ;
        }
        if text_before(text, list[i].as_str()) {
            placed = true;
        } else {
            proof {
                lemma_text_lt_total(before[i as int], text@);
            }
            i = i + 1;
        }
    }
    proof {
        assert forall|k: int| i <= k < before.len() implies text_lt(text@, before[k]) by {
            if i < k {
                lemma_text_lt_transitive(text@, before[i as int], before[k]);
            }
        }
    }
    list.insert(i, text.to_owned());
    proof {
        let after = texts_of(list@);
        assert(after =~= before.insert(i as int, text@));
        assert forall|a: int, b: int| 0 <= a < b < after.len() implies text_lt(
            after[a],
            after[b],
        ) by {}
        assert forall|t: Seq<char>| after.to_set().contains(t) <==> before.to_set().insert(
            text@,
        ).contains(t) by {
            if after.contains(t) {
                let k = choose|k: int| 0 <= k < after.len() && after[k] == t;
            }
            if before.contains(t) {
                let k = choose|k: int| 0 <= k < before.len() && before[k] == t;
                if k < i {
                    assert(after[k] == t);
                } else {
                    assert(after[k + 1] == t);
                }
            }
            if t == text@ {
                assert(after[i as int] == t);
            }
        }
    }
}

} // verus!
