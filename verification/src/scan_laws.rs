//! What a storage scan gathers when the host answers as a storage does.
//!
//! Storage is modelled as its entries in key order. The laws below show that
//! every answer that such a storage gives keeps a scan in agreement with it,
//! that each answer brings the scan closer to its end, and that a finished
//! scan holds exactly the entries that the export promises: for each prefix in
//! turn, the entries whose keys start with it, in key order; for a scan of all
//! storage, every stored entry. Whatever the host answers, what a scan holds
//! stays sound: every entry has a value and a key under one of the prefixes.

use vstd::prelude::*;
use crate::order::{
    is_prefix, lemma_lex_asymmetric, lemma_lex_irreflexive, lemma_lex_total,
    lemma_lex_transitive, lemma_prefix_interval, lemma_strict_prefix_lt, lex_le, lex_lt,
    strict_prefix,
};
use crate::scan::{
    after_next_key, after_value, advance, initial_prefixes, initial_whole, scan_wf, PhaseModel,
    ScanModel,
};
use crate::types::EntryModel;

verus! {

/// Storage as its key-value pairs.
pub type StorageModel = Seq<(Seq<u8>, Seq<u8>)>;

/// The pairs are in strictly increasing key order, as storage walks them.
pub open spec fn sorted_storage(m: StorageModel) -> bool {
    forall|i: int, j: int| 0 <= i < j < m.len() ==> lex_lt(#[trigger] m[i].0, #[trigger] m[j].0)
}

/// Storage holds a value under `k`.
pub open spec fn holds_key(m: StorageModel, k: Seq<u8>) -> bool {
    exists|i: int| 0 <= i < m.len() && #[trigger] m[i].0 == k
}

/// The answer storage gives to "the next key after `after`".
pub open spec fn next_key_in(m: StorageModel, after: Seq<u8>) -> Option<Seq<u8>>
    decreases m.len(),
{
    if m.len() == 0 {
        None
    } else if lex_lt(after, m[0].0) {
        Some(m[0].0)
    } else {
        next_key_in(m.drop_first(), after)
    }
}

/// The answer storage gives to "the value under `key`".
pub open spec fn value_in(m: StorageModel, key: Seq<u8>) -> Option<Seq<u8>>
    decreases m.len(),
{
    if m.len() == 0 {
        None
    } else if m[0].0 == key {
        Some(m[0].1)
    } else {
        value_in(m.drop_first(), key)
    }
}

/// The entries of storage whose keys satisfy `keep`, in key order.
pub open spec fn select(m: StorageModel, keep: spec_fn(Seq<u8>) -> bool) -> Seq<EntryModel>
    decreases m.len(),
{
    if m.len() == 0 {
        Seq::empty()
    } else {
        let rest = select(m.drop_first(), keep);
        if keep(m[0].0) {
            seq![(m[0].0, Some(m[0].1))] + rest
        } else {
            rest
        }
    }
}

pub open spec fn starts_with(p: Seq<u8>) -> spec_fn(Seq<u8>) -> bool {
    |x: Seq<u8>| is_prefix(p, x)
}

pub open spec fn starts_with_up_to(p: Seq<u8>, a: Seq<u8>) -> spec_fn(Seq<u8>) -> bool {
    |x: Seq<u8>| is_prefix(p, x) && lex_le(x, a)
}

pub open spec fn starts_with_before(p: Seq<u8>, k: Seq<u8>) -> spec_fn(Seq<u8>) -> bool {
    |x: Seq<u8>| is_prefix(p, x) && lex_lt(x, k)
}

/// The entries under the keys that start with `p`, `p` itself included.
pub open spec fn under_prefix(m: StorageModel, p: Seq<u8>) -> Seq<EntryModel> {
    select(m, starts_with(p))
}

/// What a scan of `prefixes` gathers: the entries under each prefix in turn.
pub open spec fn expected_prefixes(m: StorageModel, prefixes: Seq<Seq<u8>>) -> Seq<EntryModel>
    decreases prefixes.len(),
{
    if prefixes.len() == 0 {
        Seq::empty()
    } else {
        expected_prefixes(m, prefixes.drop_last()) + under_prefix(m, prefixes.last())
    }
}

/// Every stored entry, in key order.
pub open spec fn stored_entries(m: StorageModel) -> Seq<EntryModel> {
    m.map_values(|e: (Seq<u8>, Seq<u8>)| (e.0, Some(e.1)))
}

/// What a finished scan is to hold.
pub open spec fn expected_entries(s: ScanModel, m: StorageModel) -> Seq<EntryModel> {
    expected_prefixes(m, s.prefixes)
}

/// The answer storage gives to the `NextKey` request of a scan.
pub open spec fn answer_next_key(s: ScanModel, m: StorageModel) -> Option<Seq<u8>> {
    match s.phase {
        PhaseModel::NextKey(a) => next_key_in(m, a),
        _ => None,
    }
}

/// The scan so far agrees with walking storage `m` prefix by prefix.
pub open spec fn walk_agrees(s: ScanModel, m: StorageModel) -> bool {
    let before = expected_prefixes(m, s.prefixes.take(s.index as int));
    match s.phase {
        PhaseModel::NextKey(a) => {
            let p = s.prefixes[s.index as int];
            &&& (a == p || (strict_prefix(p, a) && holds_key(m, a)))
            &&& s.entries == before + select(m, starts_with_up_to(p, a))
        },
        PhaseModel::Value(k) => {
            let p = s.prefixes[s.index as int];
            &&& (k == p || (strict_prefix(p, k) && holds_key(m, k)))
            &&& s.entries == before + select(m, starts_with_before(p, k))
        },
        PhaseModel::Done => s.entries == expected_prefixes(m, s.prefixes),
    }
}

/// The scan so far agrees with storage `m`.
pub open spec fn scan_agrees(s: ScanModel, m: StorageModel) -> bool {
    &&& scan_wf(s)
    &&& sorted_storage(m)
    &&& walk_agrees(s, m)
}

/// The number of keys in storage after `a`.
pub open spec fn count_after(m: StorageModel, a: Seq<u8>) -> nat
    decreases m.len(),
{
    if m.len() == 0 {
        0
    } else {
        (if lex_lt(a, m[0].0) { 1nat } else { 0nat }) + count_after(m.drop_first(), a)
    }
}

/// A measure that every answer of storage makes smaller.
pub open spec fn scan_measure(s: ScanModel, m: StorageModel) -> nat {
    let block = 2 * m.len() + 3;
    let local: nat = match s.phase {
        PhaseModel::NextKey(a) => 2 * count_after(m, a),
        PhaseModel::Value(k) => 2 * count_after(m, k) + 1,
        PhaseModel::Done => 0,
    };
    ((s.prefixes.len() - s.index) as nat) * block + local
}

/// The scan after `steps` calls, each answered by storage `m`.
pub open spec fn drive(s: ScanModel, m: StorageModel, steps: nat) -> ScanModel
    decreases steps,
{
    if steps == 0 {
        s
    } else {
        match s.phase {
            PhaseModel::NextKey(_) => drive(after_next_key(s, answer_next_key(s, m)), m, (steps - 1) as nat),
            PhaseModel::Value(k) => drive(after_value(s, k, value_in(m, k)), m, (steps - 1) as nat),
            PhaseModel::Done => s,
        }
    }
}

// ---------------------------------------------------------------------------
// Facts about storage models.

proof fn lemma_sorted_drop_first(m: StorageModel)
    requires
        sorted_storage(m),
        m.len() > 0,
    ensures
        sorted_storage(m.drop_first()),
{
    assert forall|i: int, j: int| 0 <= i < j < m.drop_first().len() implies lex_lt(
        #[trigger] m.drop_first()[i].0,
        #[trigger] m.drop_first()[j].0,
    ) by {
        assert(m.drop_first()[i] == m[i + 1]);
        assert(m.drop_first()[j] == m[j + 1]);
    }
}

proof fn lemma_next_key_in(m: StorageModel, a: Seq<u8>)
    requires
        sorted_storage(m),
    ensures
        match next_key_in(m, a) {
            None => forall|i: int| 0 <= i < m.len() ==> !lex_lt(a, #[trigger] m[i].0),
            Some(k) => {
                &&& lex_lt(a, k)
                &&& holds_key(m, k)
                &&& forall|i: int| 0 <= i < m.len() && lex_lt(a, #[trigger] m[i].0) ==> lex_le(k, m[i].0)
            },
        },
    decreases m.len(),
{
    if m.len() > 0 {
        if lex_lt(a, m[0].0) {
            assert(m[0].0 == m[0].0);
            assert forall|i: int| 0 <= i < m.len() && lex_lt(a, #[trigger] m[i].0) implies lex_le(m[0].0, m[i].0) by {
                if i > 0 {
                    assert(lex_lt(m[0].0, m[i].0));
                }
            }
        } else {
            lemma_sorted_drop_first(m);
            lemma_next_key_in(m.drop_first(), a);
            match next_key_in(m.drop_first(), a) {
                None => {
                    assert forall|i: int| 0 <= i < m.len() implies !lex_lt(a, #[trigger] m[i].0) by {
                        if i > 0 {
                            assert(m.drop_first()[i - 1] == m[i]);
                        }
                    }
                },
                Some(k) => {
                    let j = choose|j: int| 0 <= j < m.drop_first().len() && #[trigger] m.drop_first()[j].0 == k;
                    assert(m[j + 1].0 == k);
                    assert forall|i: int| 0 <= i < m.len() && lex_lt(a, #[trigger] m[i].0) implies lex_le(k, m[i].0) by {
                        if i > 0 {
                            assert(m.drop_first()[i - 1] == m[i]);
                        }
                    }
                },
            }
        }
    }
}

proof fn lemma_value_in(m: StorageModel, j: int)
    requires
        sorted_storage(m),
        0 <= j < m.len(),
    ensures
        value_in(m, m[j].0) == Some(m[j].1),
    decreases m.len(),
{
    if j > 0 {
        assert(lex_lt(m[0].0, m[j].0));
        lemma_lex_irreflexive(m[j].0);
        lemma_sorted_drop_first(m);
        assert(m.drop_first()[j - 1] == m[j]);
        lemma_value_in(m.drop_first(), j - 1);
    }
}

proof fn lemma_value_absent(m: StorageModel, k: Seq<u8>)
    requires
        !holds_key(m, k),
    ensures
        value_in(m, k) is None,
    decreases m.len(),
{
    if m.len() > 0 {
        assert(m[0].0 != k);
        assert forall|i: int| 0 <= i < m.drop_first().len() implies #[trigger] m.drop_first()[i].0 != k by {
            assert(m.drop_first()[i] == m[i + 1]);
        }
        lemma_value_absent(m.drop_first(), k);
    }
}

proof fn lemma_select_congruent(
    m: StorageModel,
    f: spec_fn(Seq<u8>) -> bool,
    g: spec_fn(Seq<u8>) -> bool,
)
    requires
        forall|i: int| 0 <= i < m.len() ==> f(#[trigger] m[i].0) == g(m[i].0),
    ensures
        select(m, f) == select(m, g),
    decreases m.len(),
{
    if m.len() > 0 {
        assert(f(m[0].0) == g(m[0].0));
        assert forall|i: int| 0 <= i < m.drop_first().len() implies f(#[trigger] m.drop_first()[i].0) == g(
            m.drop_first()[i].0,
        ) by {
            assert(m.drop_first()[i] == m[i + 1]);
        }
        lemma_select_congruent(m.drop_first(), f, g);
    }
}

proof fn lemma_select_none(m: StorageModel, f: spec_fn(Seq<u8>) -> bool)
    requires
        forall|i: int| 0 <= i < m.len() ==> !f(#[trigger] m[i].0),
    ensures
        select(m, f) == Seq::<EntryModel>::empty(),
    decreases m.len(),
{
    if m.len() > 0 {
        assert(!f(m[0].0));
        assert forall|i: int| 0 <= i < m.drop_first().len() implies !f(#[trigger] m.drop_first()[i].0) by {
            assert(m.drop_first()[i] == m[i + 1]);
        }
        lemma_select_none(m.drop_first(), f);
    }
}

proof fn lemma_count_bound(m: StorageModel, a: Seq<u8>)
    ensures
        count_after(m, a) <= m.len(),
    decreases m.len(),
{
    if m.len() > 0 {
        lemma_count_bound(m.drop_first(), a);
    }
}

proof fn lemma_count_all(m: StorageModel, a: Seq<u8>)
    requires
        forall|i: int| 0 <= i < m.len() ==> lex_lt(a, #[trigger] m[i].0),
    ensures
        count_after(m, a) == m.len(),
    decreases m.len(),
{
    if m.len() > 0 {
        assert(lex_lt(a, m[0].0));
        assert forall|i: int| 0 <= i < m.drop_first().len() implies lex_lt(a, #[trigger] m.drop_first()[i].0) by {
            assert(m.drop_first()[i] == m[i + 1]);
        }
        lemma_count_all(m.drop_first(), a);
    }
}

/// Moving from `a` to the next key passes exactly one key.
proof fn lemma_count_next(m: StorageModel, a: Seq<u8>)
    requires
        sorted_storage(m),
        next_key_in(m, a) is Some,
    ensures
        count_after(m, a) == count_after(m, next_key_in(m, a)->Some_0) + 1,
    decreases m.len(),
{
    let k = next_key_in(m, a)->Some_0;
    lemma_sorted_drop_first(m);
    if lex_lt(a, m[0].0) {
        lemma_lex_irreflexive(k);
        assert forall|i: int| 0 <= i < m.drop_first().len() implies lex_lt(k, #[trigger] m.drop_first()[i].0) by {
            assert(m.drop_first()[i] == m[i + 1]);
        }
        assert forall|i: int| 0 <= i < m.drop_first().len() implies lex_lt(a, #[trigger] m.drop_first()[i].0) by {
            assert(m.drop_first()[i] == m[i + 1]);
            lemma_lex_transitive(a, k, m[i + 1].0);
        }
        lemma_count_all(m.drop_first(), k);
        lemma_count_all(m.drop_first(), a);
    } else {
        lemma_next_key_in(m.drop_first(), a);
        lemma_count_next(m.drop_first(), a);
        if lex_lt(k, m[0].0) {
            if m[0].0 != a {
                lemma_lex_total(m[0].0, a);
                lemma_lex_transitive(k, m[0].0, a);
            }
            lemma_lex_asymmetric(a, k);
        }
    }
}

/// `p` comes at or before the key where a walk of `p` stands.
proof fn lemma_walk_position(p: Seq<u8>, a: Seq<u8>, k: Seq<u8>)
    requires
        a == p || strict_prefix(p, a),
        lex_lt(a, k),
    ensures
        lex_lt(p, k),
{
    if a != p {
        lemma_strict_prefix_lt(p, a);
        lemma_lex_transitive(p, a, k);
    }
}

proof fn lemma_block_step(rest: nat, block: nat, local_t: nat, local_s: nat)
    requires
        rest >= 1,
        local_t < block,
    ensures
        ((rest - 1) as nat) * block + local_t < rest * block + local_s,
{
    assert(((rest - 1) as nat) * block + block == rest * block) by (nonlinear_arith)
        requires
            rest >= 1,
    ;
}

/// A step of the measure within the walk of one prefix.
proof fn lemma_local_step(rest: nat, block: nat, local_t: nat, local_s: nat)
    requires
        local_t < local_s,
    ensures
        rest * block + local_t < rest * block + local_s,
{
}


proof fn lemma_prefix_refl(p: Seq<u8>)
    ensures
        is_prefix(p, p),
{
    assert(p.take(p.len() as int) =~= p);
}

/// A key comes at or after each of its prefixes.
proof fn lemma_prefix_le(p: Seq<u8>, x: Seq<u8>)
    requires
        is_prefix(p, x),
    ensures
        lex_le(p, x),
{
    if p.len() == x.len() {
        assert(x.take(x.len() as int) =~= x);
    } else {
        lemma_strict_prefix_lt(p, x);
    }
}

/// Taking the key `m[j]` itself adds its entry at the end.
proof fn lemma_select_through(m: StorageModel, p: Seq<u8>, j: int)
    requires
        sorted_storage(m),
        0 <= j < m.len(),
        is_prefix(p, m[j].0),
    ensures
        select(m, starts_with_up_to(p, m[j].0)) == select(m, starts_with_before(p, m[j].0)).push(
            (m[j].0, Some(m[j].1)),
        ),
    decreases m.len(),
{
    let k = m[j].0;
    lemma_lex_irreflexive(k);
    lemma_sorted_drop_first(m);
    if j == 0 {
        assert forall|i: int| 0 <= i < m.drop_first().len() implies !(#[trigger] starts_with_up_to(p, k)(
            m.drop_first()[i].0,
        )) by {
            assert(m.drop_first()[i] == m[i + 1]);
            assert(lex_lt(k, m[i + 1].0));
            lemma_lex_asymmetric(k, m[i + 1].0);
            lemma_lex_irreflexive(m[i + 1].0);
        }
        assert forall|i: int| 0 <= i < m.drop_first().len() implies !(#[trigger] starts_with_before(p, k)(
            m.drop_first()[i].0,
        )) by {
            assert(m.drop_first()[i] == m[i + 1]);
            assert(lex_lt(k, m[i + 1].0));
            lemma_lex_asymmetric(k, m[i + 1].0);
        }
        lemma_select_none(m.drop_first(), starts_with_up_to(p, k));
        lemma_select_none(m.drop_first(), starts_with_before(p, k));
        assert(select(m, starts_with_up_to(p, k)) =~= seq![(k, Some(m[0].1))]);
        assert(select(m, starts_with_before(p, k)) =~= Seq::<EntryModel>::empty());
    } else {
        assert(lex_lt(m[0].0, k));
        assert(m.drop_first()[j - 1] == m[j]);
        lemma_select_through(m.drop_first(), p, j - 1);
        assert(starts_with_up_to(p, k)(m[0].0) == starts_with_before(p, k)(m[0].0));
        let r2 = select(m.drop_first(), starts_with_before(p, k));
        if starts_with_before(p, k)(m[0].0) {
            assert(seq![(m[0].0, Some(m[0].1))] + r2.push((k, Some(m[j].1))) =~= (seq![
                (m[0].0, Some(m[0].1)),
            ] + r2).push((k, Some(m[j].1))));
        }
    }
}

proof fn lemma_expected_step(m: StorageModel, prefixes: Seq<Seq<u8>>, i: int)
    requires
        0 <= i < prefixes.len(),
    ensures
        expected_prefixes(m, prefixes.take(i + 1)) == expected_prefixes(m, prefixes.take(i))
            + under_prefix(m, prefixes[i]),
{
    assert(prefixes.take(i + 1).drop_last() =~= prefixes.take(i));
    assert(prefixes.take(i + 1).last() == prefixes[i]);
}

/// Nothing that starts with `p` comes before `p`.
proof fn lemma_select_before_prefix_empty(m: StorageModel, p: Seq<u8>)
    ensures
        select(m, starts_with_before(p, p)) == Seq::<EntryModel>::empty(),
{
    assert forall|i: int| 0 <= i < m.len() implies !(#[trigger] starts_with_before(p, p)(m[i].0)) by {
        if is_prefix(p, m[i].0) {
            lemma_prefix_le(p, m[i].0);
            lemma_lex_irreflexive(p);
            if p != m[i].0 {
                lemma_lex_asymmetric(p, m[i].0);
            }
        }
    }
    lemma_select_none(m, starts_with_before(p, p));
}

/// When the walk of the current prefix ends, the scan agrees with storage on
/// the next prefix.
proof fn lemma_walk_advance(s: ScanModel, m: StorageModel)
    requires
        scan_wf(s),
        s.phase is NextKey,
        s.entries == expected_prefixes(m, s.prefixes.take(s.index as int)) + under_prefix(
            m,
            s.prefixes[s.index as int],
        ),
    ensures
        walk_agrees(advance(s), m),
{
    lemma_expected_step(m, s.prefixes, s.index as int);
    let t = advance(s);
    if t.index < s.prefixes.len() {
        lemma_select_before_prefix_empty(m, s.prefixes[t.index as int]);
        assert(t.entries =~= expected_prefixes(m, t.prefixes.take(t.index as int)) + Seq::<EntryModel>::empty());
    } else {
        assert(s.prefixes.take(t.index as int) =~= s.prefixes);
    }
}

/// The walk of the current prefix has met every key that starts with it.
proof fn lemma_walk_complete(m: StorageModel, p: Seq<u8>, a: Seq<u8>)
    requires
        sorted_storage(m),
        forall|i: int| 0 <= i < m.len() && is_prefix(p, #[trigger] m[i].0) ==> !lex_lt(a, m[i].0),
    ensures
        select(m, starts_with_up_to(p, a)) == under_prefix(m, p),
{
    assert forall|i: int| 0 <= i < m.len() implies #[trigger] starts_with_up_to(p, a)(m[i].0) == starts_with(p)(
        m[i].0,
    ) by {
        if is_prefix(p, m[i].0) && m[i].0 != a {
            lemma_lex_total(m[i].0, a);
        }
    }
    lemma_select_congruent(m, starts_with_up_to(p, a), starts_with(p));
}

/// The measure of a scan that moves on to its next prefix.
proof fn lemma_advance_measure(s: ScanModel, m: StorageModel)
    requires
        scan_wf(s),
        s.phase is NextKey,
    ensures
        scan_measure(advance(s), m) < scan_measure(s, m),
{
    let t = advance(s);
    let block = 2 * m.len() + 3;
    let local_t: nat = match t.phase {
        PhaseModel::Value(k) => 2 * count_after(m, k) + 1,
        _ => 0,
    };
    let local_s: nat = 2 * count_after(m, s.phase->NextKey_0);
    match t.phase {
        PhaseModel::Value(k) => lemma_count_bound(m, k),
        _ => {},
    }
    lemma_block_step((s.prefixes.len() - s.index) as nat, block, local_t, local_s);
    assert(((t.prefixes.len() - t.index) as nat) == ((s.prefixes.len() - s.index) as nat) - 1);
}

// ---------------------------------------------------------------------------
// The laws.

/// A fresh scan of any prefixes agrees with every sorted storage.
pub proof fn lemma_prefix_scan_starts_agreeing(prefixes: Seq<Seq<u8>>, m: StorageModel)
    requires
        sorted_storage(m),
    ensures
        scan_agrees(initial_prefixes(prefixes), m),
{
    let s = initial_prefixes(prefixes);
    if prefixes.len() == 0 {
        assert(s.entries =~= expected_prefixes(m, prefixes));
    } else {
        lemma_select_before_prefix_empty(m, prefixes[0]);
        assert(prefixes.take(0) =~= Seq::<Seq<u8>>::empty());
        assert(s.entries =~= expected_prefixes(m, prefixes.take(0)) + select(
            m,
            starts_with_before(prefixes[0], prefixes[0]),
        ));
    }
}

/// Storage's answer to a `NextKey` request keeps the scan in agreement with it
/// and brings the scan closer to its end.
pub proof fn lemma_next_key_keeps_agreement(s: ScanModel, m: StorageModel)
    requires
        scan_agrees(s, m),
        s.phase is NextKey,
    ensures
        scan_agrees(after_next_key(s, answer_next_key(s, m)), m),
        scan_measure(after_next_key(s, answer_next_key(s, m)), m) < scan_measure(s, m),
{
    let a = s.phase->NextKey_0;
    let r = answer_next_key(s, m);
    let block = 2 * m.len() + 3;
    let rest = (s.prefixes.len() - s.index) as nat;
    let p = s.prefixes[s.index as int];
    lemma_next_key_in(m, a);
    match r {
        None => {
            lemma_walk_complete(m, p, a);
            lemma_walk_advance(s, m);
            lemma_advance_measure(s, m);
        },
        Some(k) => {
            lemma_walk_position(p, a, k);
            if !is_prefix(p, k) {
                assert forall|i: int| 0 <= i < m.len() && is_prefix(p, #[trigger] m[i].0) implies !lex_lt(
                    a,
                    m[i].0,
                ) by {
                    if lex_lt(a, m[i].0) {
                        let x = m[i].0;
                        if k != x {
                            lemma_prefix_interval(p, k, x);
                        }
                    }
                }
                lemma_walk_complete(m, p, a);
                lemma_walk_advance(s, m);
                lemma_advance_measure(s, m);
            } else {
                lemma_lex_irreflexive(p);
                if p.len() == k.len() {
                    assert(k.take(k.len() as int) =~= k);
                }
                assert forall|i: int| 0 <= i < m.len() implies #[trigger] starts_with_up_to(p, a)(m[i].0)
                    == starts_with_before(p, k)(m[i].0) by {
                    let x = m[i].0;
                    if x == a {
                    } else if lex_lt(x, a) {
                        lemma_lex_transitive(x, a, k);
                    } else {
                        lemma_lex_total(x, a);
                        lemma_lex_irreflexive(x);
                        if k != x {
                            lemma_lex_asymmetric(k, x);
                        }
                    }
                }
                lemma_select_congruent(m, starts_with_up_to(p, a), starts_with_before(p, k));
                lemma_count_next(m, a);
                lemma_local_step(rest, block, 2 * count_after(m, k) + 1, 2 * count_after(m, a));
            }
        },
    }
}

/// Storage's answer to a `Get` request keeps the scan in agreement with it and
/// brings the scan closer to its end.
pub proof fn lemma_value_keeps_agreement(s: ScanModel, m: StorageModel)
    requires
        scan_agrees(s, m),
        s.phase is Value,
    ensures
        scan_agrees(after_value(s, s.phase->Value_0, value_in(m, s.phase->Value_0)), m),
        scan_measure(after_value(s, s.phase->Value_0, value_in(m, s.phase->Value_0)), m)
            < scan_measure(s, m),
{
    let k = s.phase->Value_0;
    let v = value_in(m, k);
    let t = after_value(s, k, v);
    let block = 2 * m.len() + 3;
    let rest = (s.prefixes.len() - s.index) as nat;
    let p = s.prefixes[s.index as int];
    let before = expected_prefixes(m, s.prefixes.take(s.index as int));
    if holds_key(m, k) {
        let j = choose|j: int| 0 <= j < m.len() && #[trigger] m[j].0 == k;
        lemma_value_in(m, j);
        if k == p {
            lemma_prefix_refl(p);
        }
        lemma_select_through(m, p, j);
        assert(t.entries =~= before + select(m, starts_with_up_to(p, k)));
    } else {
        lemma_value_absent(m, k);
        assert forall|i: int| 0 <= i < m.len() implies #[trigger] starts_with_up_to(p, k)(m[i].0)
            == starts_with_before(p, k)(m[i].0) by {
            assert(m[i].0 != k);
        }
        lemma_select_congruent(m, starts_with_up_to(p, k), starts_with_before(p, k));
    }
    lemma_local_step(rest, block, 2 * count_after(m, k), 2 * count_after(m, k) + 1);
}

/// A finished scan that agrees with storage holds exactly what the export
/// promises.
pub proof fn lemma_finished_scan_gathers_expected(s: ScanModel, m: StorageModel)
    requires
        scan_agrees(s, m),
        s.phase is Done,
    ensures
        s.entries == expected_entries(s, m),
{
}

/// A scan answered call by call by a sorted storage finishes, after at most
/// `scan_measure` calls, holding exactly what the export promises.
pub proof fn lemma_scan_finishes_with_expected(s: ScanModel, m: StorageModel, steps: nat)
    requires
        scan_agrees(s, m),
        steps >= scan_measure(s, m),
    ensures
        drive(s, m, steps).phase is Done,
        drive(s, m, steps).entries == expected_entries(s, m),
    decreases steps,
{
    match s.phase {
        PhaseModel::Done => {
            lemma_finished_scan_gathers_expected(s, m);
        },
        PhaseModel::NextKey(_) => {
            lemma_next_key_keeps_agreement(s, m);
            let t = after_next_key(s, answer_next_key(s, m));
            lemma_scan_finishes_with_expected(t, m, (steps - 1) as nat);
        },
        PhaseModel::Value(k) => {
            lemma_value_keeps_agreement(s, m);
            let t = after_value(s, k, value_in(m, k));
            lemma_scan_finishes_with_expected(t, m, (steps - 1) as nat);
        },
    }
}

proof fn lemma_select_all(m: StorageModel)
    ensures
        select(m, starts_with(Seq::<u8>::empty())) == stored_entries(m),
    decreases m.len(),
{
    if m.len() > 0 {
        lemma_select_all(m.drop_first());
        assert(m[0].0.take(0) =~= Seq::<u8>::empty());
        assert(stored_entries(m) =~= seq![(m[0].0, Some(m[0].1))] + stored_entries(m.drop_first()));
    } else {
        assert(stored_entries(m) =~= Seq::<EntryModel>::empty());
    }
}

/// Collecting all of a sorted storage gathers every stored entry, in key
/// order.
pub proof fn lemma_whole_storage_scan(m: StorageModel)
    requires
        sorted_storage(m),
    ensures
        drive(initial_whole(), m, scan_measure(initial_whole(), m)).phase is Done,
        drive(initial_whole(), m, scan_measure(initial_whole(), m)).entries == stored_entries(m),
{
    let ps = seq![Seq::<u8>::empty()];
    lemma_prefix_scan_starts_agreeing(ps, m);
    lemma_scan_finishes_with_expected(initial_whole(), m, scan_measure(initial_whole(), m));
    assert(ps.drop_last() =~= Seq::<Seq<u8>>::empty());
    assert(expected_prefixes(m, ps.drop_last()) =~= Seq::<EntryModel>::empty());
    lemma_select_all(m);
    assert(expected_prefixes(m, ps) =~= stored_entries(m));
}

/// Collecting the storage under `prefixes` gathers `expected_prefixes`: for
/// each prefix in turn, the entries whose keys start with it (the prefix
/// itself included), in key order.
pub proof fn lemma_prefix_storage_scan(prefixes: Seq<Seq<u8>>, m: StorageModel)
    requires
        sorted_storage(m),
    ensures
        drive(initial_prefixes(prefixes), m, scan_measure(initial_prefixes(prefixes), m)).phase is Done,
        drive(initial_prefixes(prefixes), m, scan_measure(initial_prefixes(prefixes), m)).entries
            == expected_prefixes(m, prefixes),
{
    lemma_prefix_scan_starts_agreeing(prefixes, m);
    lemma_scan_finishes_with_expected(
        initial_prefixes(prefixes),
        m,
        scan_measure(initial_prefixes(prefixes), m),
    );
}

/// `key` starts with one of `prefixes`.
pub open spec fn under_some_prefix(prefixes: Seq<Seq<u8>>, key: Seq<u8>) -> bool {
    exists|j: int| 0 <= j < prefixes.len() && is_prefix(#[trigger] prefixes[j], key)
}

/// What a scan holds is sound whatever the host answers: every gathered entry
/// has a value and a key that starts with one of the prefixes, and a key that
/// waits for its value starts with the current prefix.
pub open spec fn gathered_sound(s: ScanModel) -> bool {
    &&& forall|i: int| 0 <= i < s.entries.len() ==> (#[trigger] s.entries[i]).1 is Some
    &&& forall|i: int|
        0 <= i < s.entries.len() ==> under_some_prefix(s.prefixes, (#[trigger] s.entries[i]).0)
    &&& s.phase is Value ==> is_prefix(s.prefixes[s.index as int], s.phase->Value_0)
}

/// Every answer to a `NextKey` request keeps what the scan holds sound.
pub proof fn lemma_next_key_keeps_soundness(s: ScanModel, response: Option<Seq<u8>>)
    requires
        scan_wf(s),
        gathered_sound(s),
        s.phase is NextKey,
    ensures
        gathered_sound(after_next_key(s, response)),
{
    let t = after_next_key(s, response);
    assert(t.entries == s.entries && t.prefixes == s.prefixes);
    if t.phase is Value && t.index != s.index {
        lemma_prefix_refl(t.prefixes[t.index as int]);
    }
}

/// Every answer to a `Get` request keeps what the scan holds sound.
pub proof fn lemma_value_keeps_soundness(s: ScanModel, value: Option<Seq<u8>>)
    requires
        scan_wf(s),
        gathered_sound(s),
        s.phase is Value,
    ensures
        gathered_sound(after_value(s, s.phase->Value_0, value)),
{
    let t = after_value(s, s.phase->Value_0, value);
    assert forall|i: int| 0 <= i < t.entries.len() implies (#[trigger] t.entries[i]).1 is Some
        && under_some_prefix(t.prefixes, t.entries[i].0) by {
        if i < s.entries.len() {
            assert(t.entries[i] == s.entries[i]);
        } else {
            assert(is_prefix(t.prefixes[s.index as int], t.entries[i].0));
        }
    }
}

/// A fresh scan holds nothing, so what it holds is sound.
pub proof fn lemma_fresh_scan_sound(prefixes: Seq<Seq<u8>>)
    ensures
        gathered_sound(initial_whole()),
        gathered_sound(initial_prefixes(prefixes)),
{
    lemma_prefix_refl(Seq::<u8>::empty());
    if prefixes.len() > 0 {
        lemma_prefix_refl(prefixes[0]);
    }
}

} // verus!
