//! The order of keys: byte sequences compared lexicographically.

use vstd::prelude::*;

verus! {

/// `a` comes strictly before `b`: at the first position where they differ `a`
/// holds the smaller byte, or `a` is a proper prefix of `b`.
pub open spec fn key_lt(a: Seq<u8>, b: Seq<u8>) -> bool
    decreases a.len(),
{
    if b.len() == 0 {
        false
    } else if a.len() == 0 {
        true
    } else if a[0] != b[0] {
        a[0] < b[0]
    } else {
        key_lt(a.drop_first(), b.drop_first())
    }
}

/// No key comes before itself.
pub proof fn lemma_key_lt_irreflexive(a: Seq<u8>)
    ensures
        !key_lt(a, a),
    decreases a.len(),
{
    if a.len() > 0 {
        lemma_key_lt_irreflexive(a.drop_first());
    }
}

/// Of two keys at most one comes before the other.
pub proof fn lemma_key_lt_asymmetric(a: Seq<u8>, b: Seq<u8>)
    requires
        key_lt(a, b),
    ensures
        !key_lt(b, a),
        a != b,
    decreases a.len(),
{
    lemma_key_lt_irreflexive(a);
    if a.len() > 0 && b.len() > 0 && a[0] == b[0] {
        lemma_key_lt_asymmetric(a.drop_first(), b.drop_first());
    }
}

/// The order is transitive.
pub proof fn lemma_key_lt_transitive(a: Seq<u8>, b: Seq<u8>, c: Seq<u8>)
    requires
        key_lt(a, b),
        key_lt(b, c),
    ensures
        key_lt(a, c),
    decreases a.len(),
{
    if a.len() > 0 && b.len() > 0 && c.len() > 0 && a[0] == b[0] && b[0] == c[0] {
        lemma_key_lt_transitive(a.drop_first(), b.drop_first(), c.drop_first());
    }
}

/// The order is total: two different keys are ordered one way or the other.
pub proof fn lemma_key_lt_total(a: Seq<u8>, b: Seq<u8>)
    ensures
        key_lt(a, b) || a == b || key_lt(b, a),
    decreases a.len(),
{
    if a.len() > 0 && b.len() > 0 && a[0] == b[0] {
        lemma_key_lt_total(a.drop_first(), b.drop_first());
        if a.drop_first() == b.drop_first() {
            assert(a =~= seq![a[0]] + a.drop_first());
        }
    }
}

/// Two keys that agree on their first `n` bytes are ordered as their
/// remainders are.
pub proof fn lemma_key_lt_after_common_prefix(a: Seq<u8>, b: Seq<u8>, n: int)
    requires
        0 <= n <= a.len(),
        n <= b.len(),
        forall|j: int| 0 <= j < n ==> a[j] == b[j],
    ensures
        key_lt(a, b) == key_lt(a.skip(n), b.skip(n)),
    decreases n,
{
    if n == 0 {
        assert(a.skip(0) =~= a);
        assert(b.skip(0) =~= b);
    } else {
        let a1 = a.drop_first();
        let b1 = b.drop_first();
        assert forall|j: int| 0 <= j < n - 1 implies a1[j] == b1[j] by {}
        lemma_key_lt_after_common_prefix(a1, b1, n - 1);
        assert(a1.skip(n - 1) =~= a.skip(n));
        assert(b1.skip(n - 1) =~= b.skip(n));
    }
}

/// How one key stands to another in the order of keys.
#[derive(Debug, Clone, Copy, PartialEq, Eq, Structural)]
pub enum KeyOrder {
    Before,
    Same,
    After,
}

/// Compares two keys byte by byte.
pub fn key_order(a: &Vec<u8>, b: &Vec<u8>) -> (r: KeyOrder)
    ensures
        r == KeyOrder::Before <==> key_lt(a@, b@),
        r == KeyOrder::Same <==> a@ == b@,
        r == KeyOrder::After <==> key_lt(b@, a@),
{
    let mut i: usize = 0;
    let mut r = KeyOrder::Same;
    let mut done = false;
    while !done
        invariant
            i <= a.len(),
            i <= b.len(),
            forall|j: int| 0 <= j < i ==> a@[j] == b@[j],
            !done ==> r == KeyOrder::Same,
            done ==> (r == KeyOrder::Before <==> key_lt(a@.skip(i as int), b@.skip(i as int))),
            done ==> (r == KeyOrder::After <==> key_lt(b@.skip(i as int), a@.skip(i as int))),
            done ==> (r == KeyOrder::Same <==> a@.skip(i as int) == b@.skip(i as int)),
            done ==> (r == KeyOrder::Same ==> i == a.len() && i == b.len()),
        decreases a.len() - i + (if done { 0int } else { 1int }),
    {
        let ghost ra = a@.skip(i as int);
        let ghost rb = b@.skip(i as int);
        if i == a.len() && i == b.len() {
            assert(ra =~= rb);
            proof { lemma_key_lt_irreflexive(ra); }
            done = true;
        } else if i == a.len() {
            r = KeyOrder::Before;
            done = true;
        } else if i == b.len() {
            r = KeyOrder::After;
            done = true;
        } else if a[i] < b[i] {
            r = KeyOrder::Before;
            done = true;
        } else if a[i] > b[i] {
            r = KeyOrder::After;
            done = true;
        } else {
            i = i + 1;
        }
    }
    proof {
        lemma_key_lt_after_common_prefix(a@, b@, i as int);
        lemma_key_lt_after_common_prefix(b@, a@, i as int);
        if r == KeyOrder::Same {
            assert(a@ =~= b@);
        } else {
            let ra = a@.skip(i as int);
            let rb = b@.skip(i as int);
            if ra == rb {
                lemma_key_lt_irreflexive(ra);
            }
            if key_lt(ra, rb) {
                lemma_key_lt_asymmetric(ra, rb);
            }
            if key_lt(rb, ra) {
                lemma_key_lt_asymmetric(rb, ra);
            }
        }
    }
    r
}


/// `key` begins with `prefix`.
pub open spec fn has_prefix(key: Seq<u8>, prefix: Seq<u8>) -> bool {
    prefix.len() <= key.len() && key.take(prefix.len() as int) == prefix
}

/// Whether `key` begins with `prefix`.
pub fn starts_with(key: &Vec<u8>, prefix: &Vec<u8>) -> (r: bool)
    ensures
        r == has_prefix(key@, prefix@),
{
    if prefix.len() > key.len() {
        return false;
    }
    let mut i: usize = 0;
    while i < prefix.len()
        invariant
            i <= prefix.len() <= key.len(),
            forall|j: int| 0 <= j < i ==> key@[j] == prefix@[j],
        decreases prefix.len() - i,
    {
        if key[i] != prefix[i] {
            assert(key@.take(prefix.len() as int)[i as int] != prefix@[i as int]);
            return false;
        }
        i = i + 1;
    }
    assert(key@.take(prefix.len() as int) =~= prefix@);
    true
}

/// Whether two byte strings hold the same bytes.
pub fn same_bytes(a: &Vec<u8>, b: &Vec<u8>) -> (r: bool)
    ensures
        r == (a@ == b@),
{
    match key_order(a, b) {
        KeyOrder::Same => true,
        _ => false,
    }
}

/// A copy of a byte string.
pub fn copy_bytes(bytes: &Vec<u8>) -> (r: Vec<u8>)
    ensures
        r@ == bytes@,
{
    let r = bytes.clone();
    r
}

} // verus!
