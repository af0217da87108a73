//! The integer planning of the fast coinbase simulation: which subnets take
//! part, and how a span of days is cut into batches of simulated blocks.

use vstd::prelude::*;

verus! {

/// The root network's id.
pub const ROOT_NETUID: u16 = 0;

/// The number of blocks a batch of the simulation covers at most.
pub const SIMULATION_BATCH_SIZE: u32 = 100;

/// The subnets the simulation walks: every subnet but the root, in order.
pub open spec fn simulated_subnets(netuids: Seq<(u16, bool)>) -> Seq<u16>
    decreases netuids.len(),
{
    if netuids.len() == 0 {
        Seq::empty()
    } else {
        let rest = simulated_subnets(netuids.drop_last());
        let (netuid, _) = netuids.last();
        if netuid != ROOT_NETUID {
            rest.push(netuid)
        } else {
            rest
        }
    }
}

/// The subnets that receive emission: those of [`simulated_subnets`] whose
/// first emission block is set, in order.
pub open spec fn emitting_subnets(netuids: Seq<(u16, bool)>) -> Seq<u16>
    decreases netuids.len(),
{
    if netuids.len() == 0 {
        Seq::empty()
    } else {
        let rest = emitting_subnets(netuids.drop_last());
        let (netuid, has_first_emission) = netuids.last();
        if netuid != ROOT_NETUID && has_first_emission {
            rest.push(netuid)
        } else {
            rest
        }
    }
}

/// Splits the subnets into those the simulation walks and those that receive
/// emission. Each element of `netuids` pairs a subnet id with whether its
/// first emission block is set.
pub fn select_subnets(netuids: &Vec<(u16, bool)>) -> (r: (Vec<u16>, Vec<u16>))
    ensures
        r.0@ == simulated_subnets(netuids@),
        r.1@ == emitting_subnets(netuids@),
        r.0@ == netuids@.filter_map(|e: (u16, bool)| non_root(e)),
        r.1@ == netuids@.filter_map(|e: (u16, bool)| non_root_emitting(e)),
{
    proof {
        lemma_subnets_are_filters(netuids@);
    }
    let mut subnets: Vec<u16> = Vec::new();
    let mut subnets_to_emit_to: Vec<u16> = Vec::new();
    let mut i: usize = 0;
    while i < netuids.len()
        invariant
            i <= netuids.len(),
            subnets@ == simulated_subnets(netuids@.take(i as int)),
            subnets_to_emit_to@ == emitting_subnets(netuids@.take(i as int)),
        decreases netuids.len() - i,
    {
        let (netuid, has_first_emission) = netuids[i];
        assert(netuids@.take(i + 1).drop_last() =~= netuids@.take(i as int));
        assert(netuids@.take(i + 1).last() == netuids@[i as int]);
        if netuid != ROOT_NETUID {
            subnets.push(netuid);
            if has_first_emission {
                subnets_to_emit_to.push(netuid);
            }
        }
        i += 1;
    }
    assert(netuids@.take(netuids.len() as int) =~= netuids@);
    (subnets, subnets_to_emit_to)
}

/// The per-subnet counters that an epoch of the simulation resets.
#[derive(Debug, Clone, Copy)]
pub struct SubnetEpochState {
    pub blocks_since_last_step: u64,
    pub last_mechanism_step_block: u64,
    pub pending_emission: u64,
    pub pending_root_divs: u64,
    pub pending_alpha_swapped: u64,
    pub pending_owner_cut: u64,
}

/// The fast stand-in for a subnet's epoch: no dividends are paid, the step
/// counter restarts, the current block becomes the last mechanism step and
/// every pending amount is cleared.
pub fn fast_epoch_simulation(state: &mut SubnetEpochState, current_block: u64, simulation_multiplier: u32)
    ensures
        final(state).blocks_since_last_step == 0,
        final(state).last_mechanism_step_block == current_block,
        final(state).pending_emission == 0,
        final(state).pending_root_divs == 0,
        final(state).pending_alpha_swapped == 0,
        final(state).pending_owner_cut == 0,
{
    state.blocks_since_last_step = 0;
    state.last_mechanism_step_block = current_block;
    state.pending_emission = 0;
    state.pending_root_divs = 0;
    state.pending_alpha_swapped = 0;
    state.pending_owner_cut = 0;
}

/// The batches a simulation of `total_blocks` blocks runs: as many full
/// batches as fit, then the remainder if there is one.
pub open spec fn batch_plan(total_blocks: nat) -> Seq<u32> {
    let full = total_blocks / (SIMULATION_BATCH_SIZE as nat);
    let remainder = total_blocks % (SIMULATION_BATCH_SIZE as nat);
    Seq::new(full, |i: int| SIMULATION_BATCH_SIZE) + if remainder > 0 {
        seq![remainder as u32]
    } else {
        Seq::empty()
    }
}

/// The sum of a sequence of block counts.
pub open spec fn total(s: Seq<u32>) -> nat
    decreases s.len(),
{
    if s.len() == 0 {
        0
    } else {
        total(s.drop_last()) + s.last() as nat
    }
}

/// The batches of the simulation of `days` days of `blocks_per_day` blocks;
/// each batch is one call of the multi-step simulation.
pub fn simulate_multiple_days(days: u32, blocks_per_day: u32) -> (batches: Vec<u32>)
    requires
        days * blocks_per_day <= u32::MAX,
    ensures
        batches@ == batch_plan((days * blocks_per_day) as nat),
{
    let total_blocks = days * blocks_per_day;
    let batch_size = SIMULATION_BATCH_SIZE;
    let full_batches = total_blocks / batch_size;
    let remainder = total_blocks % batch_size;
    let mut batches: Vec<u32> = Vec::new();
    let mut batch: u32 = 0;
    while batch < full_batches
        invariant
            batch <= full_batches,
            batch_size == SIMULATION_BATCH_SIZE,
            batches@ == Seq::new(batch as nat, |i: int| SIMULATION_BATCH_SIZE),
        decreases full_batches - batch,
    {
        batches.push(batch_size);
        assert(batches@ =~= Seq::new((batch + 1) as nat, |i: int| SIMULATION_BATCH_SIZE));
        batch += 1;
    }
    let ghost full = batches@;
    if remainder > 0 {
        batches.push(remainder);
        assert(batches@ =~= full + seq![remainder]);
    } else {
        assert(batches@ =~= full + Seq::<u32>::empty());
    }
    batches
}

proof fn lemma_total_full(n: nat)
    ensures
        total(Seq::new(n, |i: int| SIMULATION_BATCH_SIZE)) == n * 100,
    decreases n,
{
    if n > 0 {
        assert(Seq::new(n, |i: int| SIMULATION_BATCH_SIZE).drop_last() =~= Seq::new(
            (n - 1) as nat,
            |i: int| SIMULATION_BATCH_SIZE,
        ));
        lemma_total_full((n - 1) as nat);
        assert((n - 1) * 100 + 100 == n * 100) by (nonlinear_arith)
            requires
                n > 0,
        ;
    }
}

/// The batches of a simulation cover exactly the simulated blocks, and each
/// batch runs between one and a hundred blocks.
pub proof fn lemma_batches_cover_blocks(total_blocks: nat)
    ensures
        total(batch_plan(total_blocks)) == total_blocks,
        forall|i: int|
            0 <= i < batch_plan(total_blocks).len() ==> 0 < #[trigger] batch_plan(total_blocks)[i]
                <= SIMULATION_BATCH_SIZE,
{
    let full = total_blocks / 100;
    let remainder = total_blocks % 100;
    let s = Seq::new(full, |i: int| SIMULATION_BATCH_SIZE);
    lemma_total_full(full);
    assert(full * 100 + remainder == total_blocks) by (nonlinear_arith)
        requires
            full == total_blocks / 100,
            remainder == total_blocks % 100,
    ;
    if remainder > 0 {
        assert((s + seq![remainder as u32]).drop_last() =~= s);
    } else {
        assert(s + Seq::<u32>::empty() =~= s);
    }
}

/// The root network never takes part in the simulation, and every subnet
/// that receives emission is one the simulation walks.
pub proof fn lemma_selected_subnets(netuids: Seq<(u16, bool)>)
    ensures
        forall|i: int|
            0 <= i < simulated_subnets(netuids).len() ==> #[trigger] simulated_subnets(netuids)[i]
                != ROOT_NETUID,
        forall|i: int|
            0 <= i < emitting_subnets(netuids).len() ==> simulated_subnets(netuids).contains(
                #[trigger] emitting_subnets(netuids)[i],
            ),
    decreases netuids.len(),
{
    if netuids.len() > 0 {
        let rest = netuids.drop_last();
        lemma_selected_subnets(rest);
        let (netuid, has_first_emission) = netuids.last();
        assert forall|i: int|
            0 <= i < emitting_subnets(netuids).len() implies simulated_subnets(netuids).contains(
            #[trigger] emitting_subnets(netuids)[i],
        ) by {
            if i < emitting_subnets(rest).len() {
                let x = emitting_subnets(rest)[i];
                assert(simulated_subnets(rest).contains(x));
                let j = choose|j: int| 0 <= j < simulated_subnets(rest).len() && simulated_subnets(rest)[j] == x;
                if netuid != ROOT_NETUID {
                    assert(simulated_subnets(netuids)[j] == x);
                }
            } else {
                assert(simulated_subnets(netuids).last() == netuid);
            }
        }
    }
}

pub open spec fn non_root(e: (u16, bool)) -> Option<u16> {
    if e.0 != ROOT_NETUID {
        Some(e.0)
    } else {
        None
    }
}

pub open spec fn non_root_emitting(e: (u16, bool)) -> Option<u16> {
    if e.0 != ROOT_NETUID && e.1 {
        Some(e.0)
    } else {
        None
    }
}

/// The simulated subnets are exactly the non-root subnet ids, and the
/// emitting ones exactly the non-root ids whose first emission block is set,
/// each in the order given: nothing that qualifies is left out, however many
/// subnets there are.
pub proof fn lemma_subnets_are_filters(netuids: Seq<(u16, bool)>)
    ensures
        simulated_subnets(netuids) == netuids.filter_map(|e: (u16, bool)| non_root(e)),
        emitting_subnets(netuids) == netuids.filter_map(|e: (u16, bool)| non_root_emitting(e)),
        forall|i: int|
            0 <= i < netuids.len() && (#[trigger] netuids[i]).0 != ROOT_NETUID
                ==> simulated_subnets(netuids).contains(netuids[i].0),
        forall|i: int|
            0 <= i < netuids.len() && (#[trigger] netuids[i]).0 != ROOT_NETUID && netuids[i].1
                ==> emitting_subnets(netuids).contains(netuids[i].0),
    decreases netuids.len(),
{
    if netuids.len() > 0 {
        let rest = netuids.drop_last();
        lemma_subnets_are_filters(rest);
        let last = netuids.last();
        let fs = |e: (u16, bool)| non_root(e);
        let fe = |e: (u16, bool)| non_root_emitting(e);
        assert(netuids.filter_map(fs) == rest.filter_map(fs) + (match fs(last) {
            Some(x) => seq![x],
            None => Seq::<u16>::empty(),
        })) by {
            match fs(last) {
                Some(x) => {},
                None => {
                    assert(rest.filter_map(fs) + Seq::<u16>::empty() =~= rest.filter_map(fs));
                },
            }
        }
        assert(netuids.filter_map(fe) == rest.filter_map(fe) + (match fe(last) {
            Some(x) => seq![x],
            None => Seq::<u16>::empty(),
        })) by {
            match fe(last) {
                Some(x) => {},
                None => {
                    assert(rest.filter_map(fe) + Seq::<u16>::empty() =~= rest.filter_map(fe));
                },
            }
        }
        assert(simulated_subnets(netuids) =~= netuids.filter_map(fs));
        assert(emitting_subnets(netuids) =~= netuids.filter_map(fe));
        assert forall|i: int|
            0 <= i < netuids.len() && (#[trigger] netuids[i]).0 != ROOT_NETUID
                implies simulated_subnets(netuids).contains(netuids[i].0) by {
            if i < rest.len() {
                assert(rest[i] == netuids[i]);
                let j = choose|j: int| 0 <= j < simulated_subnets(rest).len() && simulated_subnets(rest)[j] == netuids[i].0;
                if last.0 != ROOT_NETUID {
                    assert(simulated_subnets(netuids)[j] == netuids[i].0);
                }
            } else {
                assert(simulated_subnets(netuids).last() == last.0);
            }
        }
        assert forall|i: int|
            0 <= i < netuids.len() && (#[trigger] netuids[i]).0 != ROOT_NETUID && netuids[i].1
                implies emitting_subnets(netuids).contains(netuids[i].0) by {
            if i < rest.len() {
                assert(rest[i] == netuids[i]);
                let j = choose|j: int| 0 <= j < emitting_subnets(rest).len() && emitting_subnets(rest)[j] == netuids[i].0;
                if last.0 != ROOT_NETUID && last.1 {
                    assert(emitting_subnets(netuids)[j] == netuids[i].0);
                }
            } else {
                assert(emitting_subnets(netuids).last() == last.0);
            }
        }
    } else {
        assert(simulated_subnets(netuids) =~= netuids.filter_map(|e: (u16, bool)| non_root(e)));
        assert(emitting_subnets(netuids) =~= netuids.filter_map(|e: (u16, bool)| non_root_emitting(e)));
    }
}

} // verus!
