use crate::channel;
use crate::command::Command;
use crate::engine::{cycle_on_arrivals, updates_view, Engine};
use crate::node_ref::{ids_view, NodeId, NodeKey};
use crate::subgraph::SubgraphHandle;
use vstd::prelude::*;

verus! {

/// A command that stops the event loop.
pub open spec fn is_shutdown<V, W>(c: Command<V, W>) -> bool {
    c is Shutdown
}

/// A command after which the loop runs a propagation cycle.
pub open spec fn wants_cycle<V, W>(c: Command<V, W>) -> bool {
    c is SourceUpdate || c is AsyncComplete
}

/// `after` is `before` with `ids` queued as one more released subgraph.
pub open spec fn queued_release<V, W>(before: Engine<V, W>, ids: Seq<NodeKey>, after: Engine<V, W>) -> bool {
    &&& after.graph == before.graph
    &&& after.topology == before.topology
    &&& after.guards == before.guards
    &&& after.active == before.active
    &&& after.async_manager == before.async_manager
    &&& after.error_strategies == before.error_strategies
    &&& after.metrics == before.metrics
    &&& after.pending_removals@.len() == before.pending_removals@.len() + 1
    &&& after.pending_removals@.drop_last() == before.pending_removals@
    &&& ids_view(after.pending_removals@.last()@) == ids
}

/// What one command does to the engine: a merge, where every registration
/// still fits, merges its subgraph (see `Engine::merged`); a removal queues
/// its nodes as a released subgraph and drains the queue (see
/// `Engine::drained`); every other command leaves the engine as it is (a
/// source update goes to the source channel, outside the engine's state).
pub open spec fn command_step<V, W>(before: Engine<V, W>, c: Command<V, W>, after: Engine<V, W>) -> bool {
    match c {
        Command::Merge { subgraph, .. } => if before.graph.room_for_all() {
            exists|h: SubgraphHandle| #[trigger] before.merged(&subgraph, &after, h)
        } else {
            after == before
        },
        Command::Remove { node_ids } => exists|mid: Engine<V, W>|
            #[trigger] queued_release(before, ids_view(node_ids@), mid) && mid.drained(&after),
        _ => after == before,
    }
}

/// `states` steps through `cmds` from `before`, one command at a time.
pub open spec fn runs_commands<V, W>(before: Engine<V, W>, cmds: Seq<Command<V, W>>, states: Seq<Engine<V, W>>) -> bool {
    &&& states.len() == cmds.len() + 1
    &&& states[0] == before
    &&& forall|i: int| 0 <= i < cmds.len() ==> #[trigger] command_step(states[i], cmds[i], states[i + 1])
}

/// The source updates among `cmds`, in order.
pub open spec fn batch_updates<V, W>(cmds: Seq<Command<V, W>>) -> Seq<(NodeKey, V)>
    decreases cmds.len(),
{
    if cmds.len() == 0 {
        seq![]
    } else {
        let rest = batch_updates(cmds.drop_last());
        match cmds.last() {
            Command::SourceUpdate { id, value } => rest.push((id@, value)),
            _ => rest,
        }
    }
}

/// After the commands, from `mid` to `after`: when `wanted` and while the
/// cycle counter has room, the released subgraphs are drained and a cycle
/// runs (see `Engine::run_cycle`) on what has arrived and on the updates
/// `given`; otherwise nothing happens.
pub open spec fn cycle_if_wanted<V, W>(
    mid: Engine<V, W>,
    after: Engine<V, W>,
    wanted: bool,
    given: Seq<(NodeKey, V)>,
) -> bool {
    if wanted && mid.metrics.cycles() < u64::MAX {
        &&& mid.ran_cycle(&after)
        &&& exists|drained: Engine<V, W>|
            #[trigger] mid.drained(&drained) && cycle_on_arrivals(&drained, &after, given, false)
    } else {
        after == mid
    }
}

/// Handle one batch of commands taken from the event loop's channel, in
/// order: merges register and activate their subgraph and reply with its
/// node ids, removals give up one reference of each of their nodes. A cycle
/// runs afterwards when an update or an async completion came, and only then;
/// the batch's source updates join its arrivals, after the updates waiting in
/// the source channel (when no cycle can run, they go to that channel).
/// Returns whether to stop: exactly when a shutdown came.
pub fn process_batch<V: 'static, W: 'static>(engine: &mut Engine<V, W>, commands: Vec<Command<V, W>>) -> (stop: bool)
    requires
        old(engine).wf(),
    ensures
        final(engine).wf(),
        stop == exists|i: int| 0 <= i < commands@.len() && #[trigger] is_shutdown(commands@[i]),
        (forall|i: int| 0 <= i < commands@.len() ==> !#[trigger] wants_cycle(commands@[i])) ==> final(engine).metrics
            == old(engine).metrics,
        exists|states: Seq<Engine<V, W>>|
            #[trigger] runs_commands(*old(engine), commands@, states) && cycle_if_wanted(
                states.last(),
                *final(engine),
                exists|i: int| 0 <= i < commands@.len() && #[trigger] wants_cycle(commands@[i]),
                batch_updates(commands@),
            ),
{
    let mut has_updates = false;
    let mut forwarded: Vec<(NodeId, V)> = Vec::new();
    let mut should_shutdown = false;
    let ghost all = commands@;
    let mut rest = commands;
    let ghost mut done: int = 0;
    let ghost mut states: Seq<Engine<V, W>> = seq![*engine];
    while rest.len() > 0
        invariant
            engine.wf(),
            0 <= done <= all.len(),
            rest@ == all.skip(done),
            should_shutdown == exists|i: int| 0 <= i < done && #[trigger] is_shutdown(all[i]),
            has_updates == exists|i: int| 0 <= i < done && #[trigger] wants_cycle(all[i]),
            engine.metrics == old(engine).metrics,
            states.len() == done + 1,
            states[0] == *old(engine),
            states.last() == *engine,
            forall|i: int| 0 <= i < done ==> #[trigger] command_step(states[i], all[i], states[i + 1]),
            updates_view(forwarded@) == batch_updates(all.take(done)),
        decreases rest@.len(),
    {
        let ghost r0 = rest@;
        let ghost before = *engine;
        let cmd = rest.remove(0);
        proof {
            assert(r0[0] == all[done]);
            assert(rest@ =~= all.skip(done + 1));
            assert(all.take(done + 1).drop_last() =~= all.take(done));
            assert(all.take(done + 1).last() == all[done]);
        }
        let ghost f0 = forwarded@;
        match cmd {
            Command::SourceUpdate { id, value } => {
                let ghost u = (id@, value);
                forwarded.push((id, value));
                has_updates = true;
                assert(updates_view(forwarded@) =~= updates_view(f0).push(u));
            },
            Command::Merge { subgraph, reply } => {
                let node_ids = crate::node_ref::clone_ids(&subgraph.node_ids);
                if engine.graph.has_room() {
                    let ghost sg = subgraph;
                    let _handle = engine.merge(subgraph);
                    assert(before.merged(&sg, &*engine, _handle));
                }
                channel::send(&reply, node_ids);
            },
            Command::Remove { node_ids } => {
                let ghost ids = ids_view(node_ids@);
                let ghost p0 = engine.pending_removals@;
                engine.pending_removals.push(node_ids);
                let ghost mid = *engine;
                proof {
                    assert(engine.pending_removals@.drop_last() =~= p0);
                    assert(queued_release(before, ids, mid));
                }
                engine.drain_pending_removals();
            },
            Command::AsyncComplete => {
                has_updates = true;
            },
            Command::SourceReady => {},
            Command::Shutdown => {
                should_shutdown = true;
            },
        }
        proof {
            assert forall|i: int| 0 <= i < done + 1 && #[trigger] is_shutdown(all[i]) implies should_shutdown by {
                if i < done {
                } else {
                    assert(all[i] == all[done]);
                }
            }
            if should_shutdown {
                if !(exists|i: int| 0 <= i < done && #[trigger] is_shutdown(all[i])) {
                    assert(is_shutdown(all[done]));
                }
            }
            assert forall|i: int| 0 <= i < done + 1 && #[trigger] wants_cycle(all[i]) implies has_updates by {
                if i == done {
                    assert(all[i] == all[done]);
                }
            }
            if has_updates {
                if !(exists|i: int| 0 <= i < done && #[trigger] wants_cycle(all[i])) {
                    assert(wants_cycle(all[done]));
                }
            }
            assert(command_step(before, all[done], *engine));
            states = states.push(*engine);
            assert forall|i: int| 0 <= i < done + 1 implies #[trigger] command_step(states[i], all[i], states[i + 1]) by {
                if i == done {
                    assert(states[i] == before);
                }
            }
            done = done + 1;
        }
    }
    proof {
        assert(done == all.len());
        if has_updates {
            let i = choose|i: int| 0 <= i < done && #[trigger] wants_cycle(all[i]);
            assert(wants_cycle(commands@[i]));
        }
    }
    let ghost mid = *engine;
    assert(all.take(done) =~= all);
    if has_updates && engine.metrics.total_cycles() < u64::MAX {
        engine.run_cycle_given(forwarded);
    } else {
        let mut unsent = forwarded;
        while unsent.len() > 0
            invariant
                *engine == mid,
            decreases unsent@.len(),
        {
            let u = unsent.remove(0);
            channel::send(&engine.graph.source_tx, u);
        }
    }
    proof {
        assert(runs_commands(*old(engine), commands@, states));
        assert(cycle_if_wanted(mid, *engine, has_updates, batch_updates(commands@)));
    }
    should_shutdown
}

} // verus!
