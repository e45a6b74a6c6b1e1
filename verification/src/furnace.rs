//! The furnace / item-processor phase: each furnace batch-converts its one
//! input unit into a refined output stack on a fixed countdown.

use vstd::prelude::*;
use crate::grid::{Behavior, OutputStack, PlacedTile, ProcessorState, behavior_wf};
use crate::kinds::{ItemKind, spec_smelt_output};
use crate::timer::{MAX_TIME_MS, SimTimer, spec_tick_elapsed, sum_of, timer_wf};
use crate::world::{GameWorld, cargo_of, lemma_machine_cargo_pointwise, machine_cargo};

verus! {

/// One fixed tick of a single furnace.  The countdown advances only while
/// an input unit is held.  On expiry the input kind is looked up in the
/// conversion table; if it has a refined kind and the output stack is
/// empty or already holds that kind, the input is consumed, the stack
/// grows by one and the countdown restarts.  An unmapped input kind, a
/// stack of a different kind, or a full stack leaves everything in place
/// with the countdown expired: the furnace stalls until the output is
/// drained, and never crashes.
pub open spec fn spec_processor_step(p: ProcessorState, dt: u64) -> ProcessorState {
    match p.input {
        None => p,
        Some(raw) => {
            let ticked = SimTimer {
                elapsed_ms: spec_tick_elapsed(p.timer, dt),
                period_ms: p.timer.period_ms,
            };
            if p.timer.elapsed_ms + dt >= p.timer.period_ms {
                match spec_smelt_output(raw) {
                    None => ProcessorState { timer: ticked, ..p },
                    Some(refined) => {
                        let can_stack = match p.output {
                            None => true,
                            Some(stack) => stack.kind == refined && stack.count < u64::MAX,
                        };
                        if can_stack {
                            let new_count = match p.output {
                                None => 1u64,
                                Some(stack) => (stack.count + 1) as u64,
                            };
                            ProcessorState {
                                timer: SimTimer { elapsed_ms: 0, period_ms: p.timer.period_ms },
                                input: None,
                                output: Some(OutputStack { kind: refined, count: new_count }),
                            }
                        } else {
                            ProcessorState { timer: ticked, ..p }
                        }
                    },
                }
            } else {
                ProcessorState { timer: ticked, ..p }
            }
        },
    }
}

/// A furnace step moves cargo between its own slots only: one unit leaves
/// the input exactly when one enters the output stack.
pub proof fn lemma_processor_step_conserves(p: ProcessorState, dt: u64)
    ensures
        ({
            let q = spec_processor_step(p, dt);
            (if q.input is Some { 1int } else { 0 }) + (match q.output {
                Some(stack) => stack.count as int,
                None => 0int,
            }) == (if p.input is Some { 1int } else { 0 }) + (match p.output {
                Some(stack) => stack.count as int,
                None => 0int,
            })
        }),
{
}

/// The executable step; its contract is the transition function itself.
pub fn processor_step(p: &mut ProcessorState, dt: u64)
    requires
        timer_wf(old(p).timer),
        dt <= MAX_TIME_MS,
        behavior_wf(Behavior::Processor(*old(p))),
    ensures
        *final(p) == spec_processor_step(*old(p), dt),
        behavior_wf(Behavior::Processor(*final(p))),
{
    if self_input_is_none(p) {
        return ;
    }
    let finished = p.timer.tick(dt);
    if finished {
        let raw = match p.input {
            Some(k) => k,
            None => { return ; },
        };
        match crate::kinds::smelt_output(raw) {
            None => {},
            Some(refined) => {
                let can_stack = match p.output {
                    None => true,
                    Some(stack) => stack.kind == refined && stack.count < u64::MAX,
                };
                if can_stack {
                    let new_count = match p.output {
                        None => 1u64,
                        Some(stack) => stack.count + 1,
                    };
                    p.timer.reset();
                    p.input = None;
                    p.output = Some(OutputStack { kind: refined, count: new_count });
                }
            },
        }
    }
}

/// Helper so the early return does not hold a borrow.
fn self_input_is_none(p: &ProcessorState) -> (r: bool)
    ensures
        r == (p.input is None),
{
    match p.input {
        None => true,
        Some(_) => false,
    }
}

/// The furnace tile after one phase tick: only processors change.
pub open spec fn spec_processor_phase_tile(t: PlacedTile, dt: u64) -> PlacedTile {
    match t.behavior {
        Behavior::Processor(p) => PlacedTile {
            behavior: Behavior::Processor(spec_processor_step(p, dt)),
            ..t
        },
        _ => t,
    }
}

/// One fixed tick of every furnace on the grid.  Each furnace steps
/// independently through `spec_processor_step`; nothing else in the world
/// changes, and no cargo is created or destroyed.
pub fn update_item_processors(world: &mut GameWorld, dt: u64)
    requires
        old(world).wf(),
        dt <= MAX_TIME_MS,
    ensures
        final(world).wf(),
        final(world).grid.tiles@.len() == old(world).grid.tiles@.len(),
        forall|i: int|
            0 <= i < old(world).grid.tiles@.len() ==> final(world).grid.tiles@[i]
                == spec_processor_phase_tile(#[trigger] old(world).grid.tiles@[i], dt),
        final(world).grid.resources@ == old(world).grid.resources@,
        final(world).items == old(world).items,
        machine_cargo(final(world).grid.tiles@) == machine_cargo(old(world).grid.tiles@),
{
    let n = world.grid.tiles.len();
    let mut i: usize = 0;
    while i < n
        invariant
            world.wf(),
            dt <= MAX_TIME_MS,
            n == world.grid.tiles@.len(),
            i <= n,
            world.grid.tiles@.len() == old(world).grid.tiles@.len(),
            forall|j: int|
                0 <= j < i ==> world.grid.tiles@[j] == spec_processor_phase_tile(
                    #[trigger] old(world).grid.tiles@[j],
                    dt,
                ),
            forall|j: int|
                i <= j < n ==> world.grid.tiles@[j] == #[trigger] old(world).grid.tiles@[j],
            world.grid.resources@ == old(world).grid.resources@,
            world.items == old(world).items,
        decreases n - i,
    {
        let t = world.grid.tiles[i];
        match t.behavior {
            Behavior::Processor(ps) => {
                let mut ps2 = ps;
                processor_step(&mut ps2, dt);
                let t2 = PlacedTile { behavior: Behavior::Processor(ps2), ..t };
                world.grid.tiles.set(i, t2);
                proof {
                    assert(world.grid.tiles@[i as int] == spec_processor_phase_tile(
                        old(world).grid.tiles@[i as int],
                        dt,
                    ));
                }
            },
            _ => {
                proof {
                    assert(world.grid.tiles@[i as int] == spec_processor_phase_tile(
                        old(world).grid.tiles@[i as int],
                        dt,
                    ));
                }
            },
        }
        i = i + 1;
    }
    proof {
        assert forall|j: int| 0 <= j < world.grid.tiles@.len() implies cargo_of(
            #[trigger] world.grid.tiles@[j],
        ) == cargo_of(old(world).grid.tiles@[j]) by {
            match old(world).grid.tiles@[j].behavior {
                Behavior::Processor(p) => {
                    lemma_processor_step_conserves(p, dt);
                },
                _ => {},
            }
        }
        lemma_machine_cargo_pointwise(world.grid.tiles@, old(world).grid.tiles@);
    }
}

/// Feeding one iron-ore unit into an idle furnace and waiting at least one
/// full conversion period yields exactly one iron sheet: the input slot
/// empties and the output stack holds one unit, whatever the tick deltas.
pub open spec fn run_processor(p: ProcessorState, dts: Seq<u64>) -> ProcessorState
    decreases dts.len(),
{
    if dts.len() == 0 {
        p
    } else {
        run_processor(spec_processor_step(p, dts[0]), dts.drop_first())
    }
}

pub proof fn lemma_furnace_conversion(p: ProcessorState, dts: Seq<u64>)
    requires
        p.input == Some(ItemKind::IronOre),
        p.output is None,
        timer_wf(p.timer),
        dts.len() > 0,
        sum_of(dts) >= p.timer.period_ms - p.timer.elapsed_ms,
    ensures
        ({
            let q = run_processor(p, dts);
            &&& q.input is None
            &&& q.output == Some(OutputStack { kind: ItemKind::IronSheet, count: 1u64 })
        }),
    decreases dts.len(),
{
    let q1 = spec_processor_step(p, dts[0]);
    if p.timer.elapsed_ms + dts[0] >= p.timer.period_ms {
        lemma_converted_stays(q1, dts.drop_first());
    } else {
        let rest = dts.drop_first();
        if rest.len() == 0 {
            assert(sum_of(rest) == 0);
        }
        lemma_furnace_conversion(q1, rest);
    }
}

/// Once the input slot is empty and the output holds one sheet, further
/// ticks change nothing until an inserter intervenes.
proof fn lemma_converted_stays(p: ProcessorState, dts: Seq<u64>)
    requires
        p.input is None,
    ensures
        run_processor(p, dts) == p,
    decreases dts.len(),
{
    if dts.len() > 0 {
        lemma_converted_stays(p, dts.drop_first());
    }
}

/// Feeding a raw kind whose refined kind differs from what the output
/// stack already holds is rejected: the output stays unchanged and the
/// input slot keeps the new ore, however long the furnace runs.
pub proof fn lemma_furnace_mismatch_stalls(p: ProcessorState, dts: Seq<u64>)
    requires
        match (p.input, p.output) {
            (Some(raw), Some(stack)) => match spec_smelt_output(raw) {
                Some(refined) => refined != stack.kind,
                None => true,
            },
            _ => false,
        },
    ensures
        ({
            let q = run_processor(p, dts);
            &&& q.input == p.input
            &&& q.output == p.output
        }),
    decreases dts.len(),
{
    if dts.len() > 0 {
        lemma_furnace_mismatch_stalls(spec_processor_step(p, dts[0]), dts.drop_first());
    }
}

} // verus!

