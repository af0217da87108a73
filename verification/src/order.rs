//! The lexicographic order of storage keys and the prefix relation, with the
//! facts about them that the storage scan rests on.

use vstd::prelude::*;

verus! {

/// `a` comes strictly before `b` in lexicographic byte order, the order in
/// which storage keys are walked.
pub open spec fn lex_lt(a: Seq<u8>, b: Seq<u8>) -> bool
    decreases a.len(),
{
    if a.len() == 0 {
        b.len() > 0
    } else if b.len() == 0 {
        false
    } else if a[0] < b[0] {
        true
    } else if a[0] > b[0] {
        false
    } else {
        lex_lt(a.drop_first(), b.drop_first())
    }
}

pub open spec fn lex_le(a: Seq<u8>, b: Seq<u8>) -> bool {
    a == b || lex_lt(a, b)
}

/// `p` is a prefix of `k`.
pub open spec fn is_prefix(p: Seq<u8>, k: Seq<u8>) -> bool {
    p.len() <= k.len() && k.take(p.len() as int) == p
}

/// `k` extends `p` by at least one byte.
pub open spec fn strict_prefix(p: Seq<u8>, k: Seq<u8>) -> bool {
    is_prefix(p, k) && p.len() < k.len()
}

proof fn lemma_drop_first_take(p: Seq<u8>, k: Seq<u8>)
    requires
        p.len() > 0,
        is_prefix(p, k),
    ensures
        k.len() > 0,
        k[0] == p[0],
        is_prefix(p.drop_first(), k.drop_first()),
{
    assert(k.take(p.len() as int)[0] == k[0]);
    assert(k.drop_first().take(p.drop_first().len() as int) =~= p.drop_first()) by {
        assert forall|i: int| 0 <= i < p.len() - 1 implies k.drop_first()[i] == p.drop_first()[i] by {
            assert(k.take(p.len() as int)[i + 1] == k[i + 1]);
        }
    }
}

proof fn lemma_prefix_from_parts(p: Seq<u8>, k: Seq<u8>)
    requires
        p.len() > 0,
        k.len() > 0,
        k[0] == p[0],
        is_prefix(p.drop_first(), k.drop_first()),
    ensures
        is_prefix(p, k),
{
    assert(k.take(p.len() as int) =~= p) by {
        assert forall|i: int| 0 <= i < p.len() implies k.take(p.len() as int)[i] == p[i] by {
            if i > 0 {
                assert(k.drop_first().take(p.drop_first().len() as int)[i - 1] == k[i]);
            }
        }
    }
}

/// No key comes strictly before itself.
pub proof fn lemma_lex_irreflexive(a: Seq<u8>)
    ensures
        !lex_lt(a, a),
    decreases a.len(),
{
    if a.len() > 0 {
        lemma_lex_irreflexive(a.drop_first());
    }
}

/// The order is transitive.
pub proof fn lemma_lex_transitive(a: Seq<u8>, b: Seq<u8>, c: Seq<u8>)
    requires
        lex_lt(a, b),
        lex_lt(b, c),
    ensures
        lex_lt(a, c),
    decreases a.len(),
{
    if a.len() > 0 && b.len() > 0 && c.len() > 0 && a[0] == b[0] && b[0] == c[0] {
        lemma_lex_transitive(a.drop_first(), b.drop_first(), c.drop_first());
    }
}

/// The order is total on distinct keys.
pub proof fn lemma_lex_total(a: Seq<u8>, b: Seq<u8>)
    requires
        a != b,
    ensures
        lex_lt(a, b) || lex_lt(b, a),
    decreases a.len(),
{
    if a.len() > 0 && b.len() > 0 && a[0] == b[0] {
        if a.drop_first() == b.drop_first() {
            assert(a =~= seq![a[0]] + a.drop_first());
            assert(b =~= seq![b[0]] + b.drop_first());
        }
        lemma_lex_total(a.drop_first(), b.drop_first());
    } else if a.len() == 0 && b.len() == 0 {
        assert(a =~= b);
    }
}

/// The order is asymmetric.
pub proof fn lemma_lex_asymmetric(a: Seq<u8>, b: Seq<u8>)
    requires
        lex_lt(a, b),
    ensures
        !lex_lt(b, a),
{
    if lex_lt(b, a) {
        lemma_lex_transitive(a, b, a);
        lemma_lex_irreflexive(a);
    }
}

/// A key comes after every strict prefix of it.
pub proof fn lemma_strict_prefix_lt(p: Seq<u8>, k: Seq<u8>)
    requires
        strict_prefix(p, k),
    ensures
        lex_lt(p, k),
    decreases p.len(),
{
    if p.len() > 0 {
        lemma_drop_first_take(p, k);
        lemma_strict_prefix_lt(p.drop_first(), k.drop_first());
    }
}

/// The keys that extend `p` lie together: a key strictly between `p` and a
/// key that extends `p` extends `p` too.
pub proof fn lemma_prefix_interval(p: Seq<u8>, k: Seq<u8>, x: Seq<u8>)
    requires
        lex_lt(p, k),
        lex_lt(k, x),
        is_prefix(p, x),
    ensures
        strict_prefix(p, k),
    decreases p.len(),
{
    if p.len() == 0 {
        assert(k.take(0) =~= p);
    } else {
        lemma_drop_first_take(p, x);
        if k[0] == p[0] {
            lemma_prefix_interval(p.drop_first(), k.drop_first(), x.drop_first());
            lemma_prefix_from_parts(p, k);
        }
    }
}

} // verus!
