use crate::channel;
use crate::command::Command;
use crate::graph::AsyncPolicy;
use crate::id_map::IdMap;
use crate::node_ref::{NodeId, NodeKey};
use std::sync::mpsc;
use std::time::Duration;
use vstd::prelude::*;

verus! {

/// Handle for a concurrency group. Created by `Engine::concurrency_group()`.
#[derive(Debug, Clone, Copy, PartialEq, Eq, Hash)]
pub struct ConcurrencyGroupHandle(pub usize);

/// What the runtime that executes async work is asked to do.
pub enum AsyncAction<W> {
    /// Run `work` for `node`, after waiting `delay` where one is given; its
    /// result is to be sent back on the manager's result channel.
    Start { node: NodeId, work: W, delay: Option<Duration> },
    /// Cancel the task that runs for `node`.
    Abort { node: NodeId },
}

/// Per-node async state.
pub struct NodeTask<W> {
    pub policy: AsyncPolicy,
    /// A task of this node has been started and has not completed.
    pub in_flight: bool,
    pub group_id: Option<usize>,
    /// Work waiting for the running task (the `Queue` policy), oldest first.
    pub pending: Vec<W>,
}

/// Per-group state: at most `max_concurrent` tasks of the group run at once.
pub struct GroupState<W> {
    pub max_concurrent: usize,
    pub in_flight: usize,
    /// Work waiting for a free slot, oldest first.
    pub queue: Vec<(NodeId, W)>,
}

/// A node's state as contracts see it: policy, whether a task runs, group,
/// pending work.
pub type TaskView<W> = (AsyncPolicy, bool, Option<usize>, Seq<W>);

/// A group as contracts see it: limit, running tasks, queued work.
pub type GroupView<W> = (usize, usize, Seq<(NodeKey, W)>);

/// An action as contracts see it: the node, and the work with its delay for
/// a start (`None` for an abort).
pub type ActionView<W> = (NodeKey, Option<(W, Option<Duration>)>);

/// The whole manager as contracts see it: tasks by node, groups by id, and
/// the actions issued so far and not yet taken.
pub type AsyncModel<W> = (Map<NodeKey, TaskView<W>>, Seq<GroupView<W>>, Seq<ActionView<W>>);

pub open spec fn task_view<W>(t: NodeTask<W>) -> TaskView<W> {
    (t.policy, t.in_flight, t.group_id, t.pending@)
}

pub open spec fn group_view<W>(g: GroupState<W>) -> GroupView<W> {
    (g.max_concurrent, g.in_flight, g.queue@.map_values(|p: (NodeId, W)| (p.0@, p.1)))
}

pub open spec fn action_view<W>(a: AsyncAction<W>) -> ActionView<W> {
    match a {
        AsyncAction::Start { node, work, delay } => (node@, Some((work, delay))),
        AsyncAction::Abort { node } => (node@, None),
    }
}

/// Every group runs at most as many tasks as its limit allows.
pub open spec fn within_limits<W>(groups: Seq<GroupView<W>>) -> bool {
    forall|g: int| 0 <= g < groups.len() ==> #[trigger] groups[g].1 <= groups[g].0
}

proof fn lemma_limits_update<W>(groups: Seq<GroupView<W>>, g: int, v: GroupView<W>)
    requires
        within_limits(groups),
        0 <= g < groups.len(),
        v.1 <= v.0,
    ensures
        within_limits(groups.update(g, v)),
{
    assert forall|i: int| 0 <= i < groups.update(g, v).len() implies #[trigger] groups.update(g, v)[i].1
        <= groups.update(g, v)[i].0 by {
        if i != g {
            assert(groups.update(g, v)[i] == groups[i]);
        }
    }
}

/// `k`'s task is started: it runs from now on, and a start is issued.
pub open spec fn begin<W>(m: AsyncModel<W>, k: NodeKey, w: W, delay: Option<Duration>) -> AsyncModel<
    W,
> {
    let tasks = if m.0.contains_key(k) {
        m.0.insert(k, (m.0[k].0, true, m.0[k].2, m.0[k].3))
    } else {
        m.0
    };
    (tasks, m.1, m.2.push((k, Some((w, delay)))))
}

/// The group of `k`'s task, where it has one that exists.
pub open spec fn group_of<W>(m: AsyncModel<W>, k: NodeKey) -> Option<usize> {
    if m.0.contains_key(k) {
        match m.0[k].2 {
            Some(g) => if g < m.1.len() {
                Some(g)
            } else {
                None
            },
            None => None,
        }
    } else {
        None
    }
}

/// A start of `w` for `k` is asked for: when `k`'s group is full the work
/// waits in the group's queue; otherwise the group counts one more running
/// task and the work begins.
pub open spec fn try_start<W>(m: AsyncModel<W>, k: NodeKey, w: W, delay: Option<Duration>) -> AsyncModel<
    W,
> {
    match group_of(m, k) {
        Some(g) => {
            let gs = m.1[g as int];
            if gs.1 >= gs.0 {
                (m.0, m.1.update(g as int, (gs.0, gs.1, gs.2.push((k, w)))), m.2)
            } else {
                begin((m.0, m.1.update(g as int, (gs.0, (gs.1 + 1) as usize, gs.2)), m.2), k, w, delay)
            }
        },
        None => begin(m, k, w, delay),
    }
}

/// `k`'s running task, if any, is cancelled: an abort is issued and its group
/// counts one running task less.
pub open spec fn cancel<W>(m: AsyncModel<W>, k: NodeKey) -> AsyncModel<W> {
    if m.0.contains_key(k) && m.0[k].1 {
        let tasks = m.0.insert(k, (m.0[k].0, false, m.0[k].2, m.0[k].3));
        let groups = match group_of(m, k) {
            Some(g) => {
                let gs = m.1[g as int];
                m.1.update(g as int, (gs.0, if gs.1 > 0 { (gs.1 - 1) as usize } else { 0 }, gs.2))
            },
            None => m.1,
        };
        (tasks, groups, m.2.push((k, None)))
    } else {
        m
    }
}

/// The state after `w` was handed in for `k`: a node seen for the first time
/// keeps the given policy and group; `LatestWins` and `Debounce` cancel what
/// runs and start anew (`Debounce` after its delay); `Queue` starts when
/// nothing runs and otherwise keeps the work pending.
pub open spec fn after_spawn<W>(
    m: AsyncModel<W>,
    k: NodeKey,
    w: W,
    policy: AsyncPolicy,
    group: Option<usize>,
) -> AsyncModel<W> {
    let m0: AsyncModel<W> = if m.0.contains_key(k) {
        m
    } else {
        (m.0.insert(k, (policy, false, group, Seq::empty())), m.1, m.2)
    };
    let t = m0.0[k];
    match t.0 {
        AsyncPolicy::LatestWins => try_start(cancel(m0, k), k, w, None),
        AsyncPolicy::Queue => if t.1 {
            (m0.0.insert(k, (t.0, t.1, t.2, t.3.push(w))), m0.1, m0.2)
        } else {
            try_start(m0, k, w, None)
        },
        AsyncPolicy::Debounce(d) => try_start(cancel(m0, k), k, w, Some(d)),
    }
}

/// Queued work of group `g` is begun, oldest first, while the group has a
/// free slot.
pub open spec fn drain_group<W>(m: AsyncModel<W>, g: usize) -> AsyncModel<W>
    decreases (if g < m.1.len() { m.1[g as int].2.len() } else { 0 }),
{
    if g < m.1.len() && m.1[g as int].1 < m.1[g as int].0 && m.1[g as int].2.len() > 0 {
        let gs = m.1[g as int];
        let (k, w) = gs.2[0];
        let m1 = (m.0, m.1.update(g as int, (gs.0, (gs.1 + 1) as usize, gs.2.drop_first())), m.2);
        drain_group(begin(m1, k, w, None), g)
    } else {
        m
    }
}

/// The state after `k`'s task completed: it no longer runs; its group counts
/// one running task less and begins queued work; under `Queue` the oldest
/// pending work of `k` is then started.
pub open spec fn after_completion<W>(m: AsyncModel<W>, k: NodeKey) -> AsyncModel<W> {
    if !m.0.contains_key(k) {
        m
    } else {
        let t = m.0[k];
        let takes = t.0 is Queue && t.3.len() > 0;
        let rest = if takes {
            t.3.drop_first()
        } else {
            t.3
        };
        let m1: AsyncModel<W> = (m.0.insert(k, (t.0, false, t.2, rest)), m.1, m.2);
        let m2 = match t.2 {
            Some(g) => {
                let m1b: AsyncModel<W> = if g < m1.1.len() {
                    let gs = m1.1[g as int];
                    (
                        m1.0,
                        m1.1.update(g as int, (gs.0, if gs.1 > 0 { (gs.1 - 1) as usize } else { 0 }, gs.2)),
                        m1.2,
                    )
                } else {
                    m1
                };
                drain_group(m1b, g)
            },
            None => m1,
        };
        if takes {
            try_start(m2, k, t.3[0], None)
        } else {
            m2
        }
    }
}

/// The state after each `(node, work, policy, group)` of `s` was handed in,
/// in order.
pub open spec fn after_spawns<W>(m: AsyncModel<W>, s: Seq<(NodeKey, W, AsyncPolicy, Option<usize>)>) -> AsyncModel<W>
    decreases s.len(),
{
    if s.len() == 0 {
        m
    } else {
        let x = s.last();
        after_spawn(after_spawns(m, s.drop_last()), x.0, x.1, x.2, x.3)
    }
}

/// The state after the tasks of `ks` completed, one after the other.
pub open spec fn after_completions<W>(m: AsyncModel<W>, ks: Seq<NodeKey>) -> AsyncModel<W>
    decreases ks.len(),
{
    if ks.len() == 0 {
        m
    } else {
        after_completion(after_completions(m, ks.drop_last()), ks.last())
    }
}

/// Debouncing cancels what runs: when work is handed in for a `Debounce`
/// node whose task is in flight, the next action issued is an abort of that
/// task; outside any group it is followed by the start of the new work after
/// the delay, and the node then runs one task. The actions issued before
/// stay as they were.
pub proof fn law_debounce_aborts_before_restarting<W>(
    m: AsyncModel<W>,
    k: NodeKey,
    w: W,
    d: Duration,
    policy: AsyncPolicy,
    group: Option<usize>,
)
    requires
        m.0.contains_key(k),
        m.0[k].0 == AsyncPolicy::Debounce(d),
        m.0[k].1,
    ensures
        ({
            let after = after_spawn(m, k, w, policy, group);
            &&& after.2.len() > m.2.len()
            &&& after.2.subrange(0, m.2.len() as int) == m.2
            &&& after.2[m.2.len() as int] == (k, Option::<(W, Option<Duration>)>::None)
            &&& group_of(m, k) is None ==> {
                &&& after.2 == m.2.push((k, None)).push((k, Some((w, Some(d)))))
                &&& after.0[k].1
            }
        }),
{
    let c = cancel(m, k);
    assert(c.2 == m.2.push((k, None)));
    let after = after_spawn(m, k, w, policy, group);
    assert(after == try_start(c, k, w, Some(d)));
    assert(c.0.contains_key(k) && c.0[k].2 == m.0[k].2 && c.1.len() == m.1.len());
    assert(group_of(c, k) == group_of(m, k));
    assert(after.2.len() >= c.2.len());
    assert(after.2.subrange(0, c.2.len() as int) == c.2);
    assert(after.2.subrange(0, m.2.len() as int) =~= m.2) by {
        assert forall|i: int| 0 <= i < m.2.len() implies after.2[i] == m.2[i] by {
            assert(after.2.subrange(0, c.2.len() as int)[i] == after.2[i]);
        }
    }
    assert(after.2[m.2.len() as int] == c.2[m.2.len() as int]) by {
        assert(after.2.subrange(0, c.2.len() as int)[m.2.len() as int] == after.2[m.2.len() as int]);
    }
}

/// Without a task in flight nothing is aborted: outside any group, work
/// handed in for a known `Debounce` node only adds its start after the delay.
pub proof fn law_debounce_idle_starts_without_abort<W>(
    m: AsyncModel<W>,
    k: NodeKey,
    w: W,
    d: Duration,
    policy: AsyncPolicy,
    group: Option<usize>,
)
    requires
        m.0.contains_key(k),
        m.0[k].0 == AsyncPolicy::Debounce(d),
        !m.0[k].1,
        group_of(m, k) is None,
    ensures
        after_spawn(m, k, w, policy, group).2 == m.2.push((k, Some((w, Some(d))))),
        after_spawn(m, k, w, policy, group).0[k].1,
{
}

/// Latest wins: when work is handed in for a `LatestWins` node whose task
/// is in flight, the next action issued is an abort of that task; outside
/// any group it is followed by the start of the new work, and the node then
/// runs one task. The actions issued before stay as they were.
pub proof fn law_latest_wins_aborts_before_restarting<W>(
    m: AsyncModel<W>,
    k: NodeKey,
    w: W,
    policy: AsyncPolicy,
    group: Option<usize>,
)
    requires
        m.0.contains_key(k),
        m.0[k].0 == AsyncPolicy::LatestWins,
        m.0[k].1,
    ensures
        ({
            let after = after_spawn(m, k, w, policy, group);
            &&& after.2.len() > m.2.len()
            &&& after.2.subrange(0, m.2.len() as int) == m.2
            &&& after.2[m.2.len() as int] == (k, Option::<(W, Option<Duration>)>::None)
            &&& group_of(m, k) is None ==> {
                &&& after.2 == m.2.push((k, None)).push((k, Some((w, None))))
                &&& after.0[k].1
            }
        }),
{
    let c = cancel(m, k);
    assert(c.2 == m.2.push((k, None)));
    let after = after_spawn(m, k, w, policy, group);
    assert(after == try_start(c, k, w, None));
    assert(c.0.contains_key(k) && c.0[k].2 == m.0[k].2 && c.1.len() == m.1.len());
    assert(group_of(c, k) == group_of(m, k));
    assert(after.2.subrange(0, c.2.len() as int) == c.2);
    assert(after.2.subrange(0, m.2.len() as int) =~= m.2) by {
        assert forall|i: int| 0 <= i < m.2.len() implies after.2[i] == m.2[i] by {
            assert(after.2.subrange(0, c.2.len() as int)[i] == after.2[i]);
        }
    }
    assert(after.2[m.2.len() as int] == c.2[m.2.len() as int]) by {
        assert(after.2.subrange(0, c.2.len() as int)[m.2.len() as int] == after.2[m.2.len() as int]);
    }
}

/// Queueing never cancels: work handed in for a `Queue` node whose task is
/// in flight issues no action, keeps the task running and waits behind the
/// work already pending.
pub proof fn law_queue_waits_behind_the_running_task<W>(
    m: AsyncModel<W>,
    k: NodeKey,
    w: W,
    policy: AsyncPolicy,
    group: Option<usize>,
)
    requires
        m.0.contains_key(k),
        m.0[k].0 == AsyncPolicy::Queue,
        m.0[k].1,
    ensures
        after_spawn(m, k, w, policy, group).2 == m.2,
        after_spawn(m, k, w, policy, group).0[k].1,
        after_spawn(m, k, w, policy, group).0[k].3 == m.0[k].3.push(w),
        after_spawn(m, k, w, policy, group).1 == m.1,
{
}

/// A full group holds work back: work handed in for a node of group `g`
/// that runs no task, while `g` already runs as many tasks as its limit,
/// starts nothing and waits at the end of the group's queue; the group still
/// runs as many tasks as before.
pub proof fn law_full_group_queues_work<W>(
    m: AsyncModel<W>,
    k: NodeKey,
    w: W,
    policy: AsyncPolicy,
    group: Option<usize>,
    g: usize,
)
    requires
        m.0.contains_key(k),
        !m.0[k].1,
        group_of(m, k) == Some(g),
        m.1[g as int].1 >= m.1[g as int].0,
    ensures
        ({
            let after = after_spawn(m, k, w, policy, group);
            &&& after.2 == m.2
            &&& after.1[g as int].1 == m.1[g as int].1
            &&& after.1[g as int].2 == m.1[g as int].2.push((k, w))
            &&& !after.0[k].1
        }),
{
}

/// Manages async compute execution, policies and concurrency groups. It
/// decides what runs; the runtime that executes the work takes its actions
/// and sends each result back on the result channel.
#[verifier::reject_recursive_types(V)]
#[verifier::reject_recursive_types(W)]
pub struct AsyncManager<V, W> {
    result_tx: mpsc::Sender<(NodeId, V)>,
    result_rx: mpsc::Receiver<(NodeId, V)>,
    node_states: IdMap<NodeTask<W>>,
    groups: Vec<GroupState<W>>,
    actions: Vec<AsyncAction<W>>,
    notifier: Option<mpsc::Sender<Command<V, W>>>,
}

impl<V, W> AsyncManager<V, W> {
    /// The manager as contracts see it.
    pub closed spec fn model(&self) -> AsyncModel<W> {
        (
            self.node_states.view().map_values(|t: NodeTask<W>| task_view(t)),
            self.groups@.map_values(|g: GroupState<W>| group_view(g)),
            self.actions@.map_values(|a: AsyncAction<W>| action_view(a)),
        )
    }

    /// No node has two states.
    pub closed spec fn tasks_wf(&self) -> bool {
        self.node_states.wf()
    }

    /// No node has two states, and no group runs more tasks than its limit.
    pub open spec fn wf(&self) -> bool {
        self.tasks_wf() && within_limits(self.model().1)
    }

    /// The channel that notifications are sent on, if one was set.
    pub closed spec fn notifier_view(&self) -> Option<mpsc::Sender<Command<V, W>>> {
        self.notifier
    }

    /// A manager with no node states, no groups and no actions.
    pub fn new() -> (r: Self)
        ensures
            r.wf(),
            r.model() == (Map::<NodeKey, TaskView<W>>::empty(), Seq::<GroupView<W>>::empty(), Seq::<
                ActionView<W>,
            >::empty()),
            r.notifier_view() is None,
    {
        let (result_tx, result_rx) = channel::channel();
        let r = AsyncManager {
            result_tx,
            result_rx,
            node_states: IdMap::new(),
            groups: Vec::new(),
            actions: Vec::new(),
            notifier: None,
        };
        assert(r.model().0 =~= Map::<NodeKey, TaskView<W>>::empty());
        assert(r.model().1 =~= Seq::<GroupView<W>>::empty());
        assert(r.model().2 =~= Seq::<ActionView<W>>::empty());
        r
    }

    /// Set the channel on which the runtime announces completed work.
    pub fn set_notifier(&mut self, notifier: mpsc::Sender<Command<V, W>>)
        ensures
            final(self).model() == old(self).model(),
            final(self).wf() == old(self).wf(),
            final(self).notifier_view() == Some(notifier),
    {
        self.notifier = Some(notifier);
    }

    /// The channel on which the runtime announces completed work, if set.
    pub fn notifier(&self) -> (r: Option<&mpsc::Sender<Command<V, W>>>)
        ensures
            match r {
                Some(n) => self.notifier_view() == Some(*n),
                None => self.notifier_view() is None,
            },
    {
        self.notifier.as_ref()
    }

    /// A sender on which results of started work are to be sent back.
    pub fn result_sender(&self) -> mpsc::Sender<(NodeId, V)> {
        channel::clone_sender(&self.result_tx)
    }

    /// Create a concurrency group that runs at most `max_concurrent` tasks at once.
    pub fn create_group(&mut self, max_concurrent: usize) -> (r: ConcurrencyGroupHandle)
        requires
            old(self).wf(),
        ensures
            final(self).wf(),
            r.0 == old(self).model().1.len(),
            final(self).model() == (
                old(self).model().0,
                old(self).model().1.push((max_concurrent, 0, Seq::empty())),
                old(self).model().2,
            ),
            final(self).notifier_view() == old(self).notifier_view(),
    {
        let id = self.groups.len();
        let g = GroupState { max_concurrent, in_flight: 0, queue: Vec::new() };
        assert(group_view(g).2 =~= Seq::<(NodeKey, W)>::empty());
        self.groups.push(g);
        proof {
            assert(self.model().1 =~= old(self).model().1.push((max_concurrent, 0, Seq::empty())));
        }
        ConcurrencyGroupHandle(id)
    }

    /// Get the number of in-flight tasks for a concurrency group.
    pub fn group_in_flight(&self, handle: ConcurrencyGroupHandle) -> (r: usize)
        ensures
            r == (if handle.0 < self.model().1.len() {
                self.model().1[handle.0 as int].1
            } else {
                0
            }),
    {
        if handle.0 < self.groups.len() {
            self.groups[handle.0].in_flight
        } else {
            0
        }
    }

    proof fn lemma_task_set(&self, before: Map<NodeKey, NodeTask<W>>, k: NodeKey, t: NodeTask<W>)
        requires
            self.node_states.view() == before.remove(k).insert(k, t),
        ensures
            self.node_states.view().map_values(|t: NodeTask<W>| task_view(t)) == before.map_values(
                |t: NodeTask<W>| task_view(t),
            ).insert(k, task_view(t)),
    {
        assert(self.node_states.view().map_values(|t: NodeTask<W>| task_view(t)) =~= before.map_values(
            |t: NodeTask<W>| task_view(t),
        ).insert(k, task_view(t)));
    }

    /// Replace group `g` by `gs`.
    fn put_group(&mut self, g: usize, gs: GroupState<W>)
        requires
            g < old(self).groups@.len(),
        ensures
            final(self).groups@ == old(self).groups@.update(g as int, gs),
            final(self).model() == (
                old(self).model().0,
                old(self).model().1.update(g as int, group_view(gs)),
                old(self).model().2,
            ),
            final(self).node_states == old(self).node_states,
            final(self).notifier == old(self).notifier,
    {
        self.groups.remove(g);
        self.groups.insert(g, gs);
        assert(self.groups@ =~= old(self).groups@.update(g as int, gs));
        assert(self.model().1 =~= old(self).model().1.update(g as int, group_view(gs)));
    }

    /// A copy of group `g` without its queue, and the queue taken out.
    fn take_group(&mut self, g: usize) -> (r: GroupState<W>)
        requires
            g < old(self).groups@.len(),
        ensures
            r == old(self).groups@[g as int],
            final(self).groups@.len() == old(self).groups@.len(),
            forall|i: int| 0 <= i < old(self).groups@.len() && i != g ==> final(self).groups@[i] == old(self).groups@[i],
            final(self).node_states == old(self).node_states,
            final(self).actions == old(self).actions,
            final(self).notifier == old(self).notifier,
    {
        let r = self.groups.remove(g);
        self.groups.insert(g, GroupState { max_concurrent: r.max_concurrent, in_flight: r.in_flight, queue: Vec::new() });
        assert(forall|i: int| 0 <= i < old(self).groups@.len() && i != g ==> self.groups@[i] == old(self).groups@[i]);
        r
    }

    /// Start `work` for `node` now: it runs, and a start action is issued.
    fn spawn_raw(&mut self, node_id: NodeId, work: W, delay: Option<Duration>)
        requires
            old(self).wf(),
        ensures
            final(self).wf(),
            final(self).model() == begin(old(self).model(), node_id@, work, delay),
            final(self).notifier == old(self).notifier,
    {
        let ghost k = node_id@;
        let ghost before = self.node_states.view();
        match self.node_states.remove(&node_id) {
            Some(mut t) => {
                t.in_flight = true;
                let ghost tt = t;
                self.node_states.insert(node_id.clone(), t);
                proof {
                    self.lemma_task_set(before, k, tt);
                }
            },
            None => {},
        }
        let ghost m = self.model();
        self.actions.push(AsyncAction::Start { node: node_id, work, delay });
        assert(self.model().2 =~= m.2.push((k, Some((work, delay)))));
        assert(self.model().0 =~= begin(old(self).model(), k, work, delay).0);
    }

    /// Ask for a start of `work` for `node`: it waits in the node's group
    /// queue when the group is full, and starts otherwise.
    fn try_spawn(&mut self, node_id: NodeId, work: W, delay: Option<Duration>)
        requires
            old(self).wf(),
        ensures
            final(self).wf(),
            final(self).model() == try_start(old(self).model(), node_id@, work, delay),
            final(self).notifier == old(self).notifier,
    {
        let ghost k = node_id@;
        let group_id = match self.node_states.get(&node_id) {
            Some(t) => t.group_id,
            None => None,
        };
        assert(self.model().0.contains_key(k) ==> self.model().0[k].2 == group_id);
        match group_id {
            Some(g) => {
                if g < self.groups.len() {
                    let mut gs = self.take_group(g);
                    assert(group_view(gs) == old(self).model().1[g as int]);
                    assert(old(self).model().1[g as int].1 <= old(self).model().1[g as int].0);
                    if gs.in_flight >= gs.max_concurrent {
                        let ghost q = group_view(gs).2;
                        gs.queue.push((node_id, work));
                        assert(group_view(gs).2 =~= q.push((k, work)));
                        self.put_group(g, gs);
                        assert(self.model().1 =~= old(self).model().1.update(g as int, group_view(gs)));
                        assert(self.model().0 =~= old(self).model().0);
                        assert(self.model().2 =~= old(self).model().2);
                        proof {
                            lemma_limits_update(old(self).model().1, g as int, group_view(gs));
                        }
                        return;
                    }
                    gs.in_flight = gs.in_flight + 1;
                    self.put_group(g, gs);
                    assert(self.model().1 =~= old(self).model().1.update(g as int, group_view(gs)));
                    proof {
                        lemma_limits_update(old(self).model().1, g as int, group_view(gs));
                    }
                    assert(self.model().0 =~= old(self).model().0);
                    assert(self.model().2 =~= old(self).model().2);
                }
            },
            None => {},
        }
        self.spawn_raw(node_id, work, delay);
    }

    /// Cancel `node`'s running task, if it has one.
    fn cancel_running(&mut self, node_id: &NodeId)
        requires
            old(self).wf(),
        ensures
            final(self).wf(),
            final(self).model() == cancel(old(self).model(), node_id@),
            final(self).notifier == old(self).notifier,
    {
        let ghost k = node_id@;
        let ghost before = self.node_states.view();
        match self.node_states.remove(node_id) {
            Some(mut t) => {
                if t.in_flight {
                    t.in_flight = false;
                    let gid = t.group_id;
                    let ghost tt = t;
                    self.node_states.insert(node_id.clone(), t);
                    proof {
                        self.lemma_task_set(before, k, tt);
                    }
                    let ghost m1 = self.model();
                    match gid {
                        Some(g) => {
                            if g < self.groups.len() {
                                let mut gs = self.take_group(g);
                                assert(group_view(gs) == old(self).model().1[g as int]);
                                gs.in_flight = if gs.in_flight > 0 {
                                    gs.in_flight - 1
                                } else {
                                    0
                                };
                                self.put_group(g, gs);
                                assert(self.model().1 =~= old(self).model().1.update(g as int, group_view(gs)));
                                assert(self.model().0 =~= m1.0);
                                assert(self.model().2 =~= m1.2);
                                proof {
                                    assert(old(self).model().1[g as int].1 <= old(self).model().1[g as int].0);
                                    lemma_limits_update(old(self).model().1, g as int, group_view(gs));
                                }
                            }
                        },
                        None => {},
                    }
                    let ghost m2 = self.model();
                    self.actions.push(AsyncAction::Abort { node: node_id.clone() });
                    assert(self.model().2 =~= m2.2.push((k, None)));
                } else {
                    let ghost tt = t;
                    self.node_states.insert(node_id.clone(), t);
                    proof {
                        self.lemma_task_set(before, k, tt);
                        assert(before.insert(k, tt) =~= before);
                        assert(self.model().0 =~= old(self).model().0);
                    }
                }
            },
            None => {
                assert(self.node_states.view() =~= before);
            },
        }
    }

    /// Spawn async work for a node, respecting its policy and concurrency
    /// group. A node keeps the policy and group it was first spawned with.
    pub fn spawn(&mut self, node_id: NodeId, work: W, policy: AsyncPolicy, group_id: Option<usize>)
        requires
            old(self).wf(),
        ensures
            final(self).wf(),
            final(self).model() == after_spawn(old(self).model(), node_id@, work, policy, group_id),
            final(self).notifier_view() == old(self).notifier_view(),
    {
        let ghost k = node_id@;
        if !self.node_states.contains(&node_id) {
            let t = NodeTask { policy, in_flight: false, group_id, pending: Vec::new() };
            assert(task_view(t).3 =~= Seq::<W>::empty());
            self.node_states.insert(node_id.clone(), t);
            assert(self.model().0 =~= old(self).model().0.insert(k, (policy, false, group_id, Seq::empty())));
        }
        let (pol, running) = match self.node_states.get(&node_id) {
            Some(t) => (t.policy, t.in_flight),
            None => (policy, false),
        };
        let ghost m0 = self.model();
        assert(m0.0.contains_key(k) && m0.0[k].0 == pol && m0.0[k].1 == running);
        match pol {
            AsyncPolicy::LatestWins => {
                self.cancel_running(&node_id);
                self.try_spawn(node_id, work, None);
            },
            AsyncPolicy::Queue => {
                if running {
                    let ghost before = self.node_states.view();
                    match self.node_states.remove(&node_id) {
                        Some(mut t) => {
                            let ghost p = t.pending@;
                            t.pending.push(work);
                            let ghost tt = t;
                            self.node_states.insert(node_id.clone(), t);
                            proof {
                                self.lemma_task_set(before, k, tt);
                                assert(self.model().0 =~= m0.0.insert(k, (m0.0[k].0, m0.0[k].1, m0.0[k].2, m0.0[k].3.push(work))));
                            }
                        },
                        None => {},
                    }
                } else {
                    self.try_spawn(node_id, work, None);
                }
            },
            AsyncPolicy::Debounce(d) => {
                self.cancel_running(&node_id);
                self.try_spawn(node_id, work, Some(d));
            },
        }
    }

    /// Whether group `g` exists, has a free slot and queued work.
    fn can_start_queued(&self, g: usize) -> (r: bool)
        ensures
            r == (g < self.model().1.len() && self.model().1[g as int].1 < self.model().1[g as int].0
                && self.model().1[g as int].2.len() > 0),
    {
        g < self.groups.len() && self.groups[g].in_flight < self.groups[g].max_concurrent
            && self.groups[g].queue.len() > 0
    }

    /// Start queued work of group `g`, oldest first, while it has a free slot.
    fn try_spawn_from_group_queue(&mut self, g: usize)
        requires
            old(self).wf(),
        ensures
            final(self).wf(),
            final(self).model() == drain_group(old(self).model(), g),
            final(self).notifier == old(self).notifier,
    {
        while self.can_start_queued(g)
            invariant
                self.wf(),
                drain_group(self.model(), g) == drain_group(old(self).model(), g),
                self.notifier == old(self).notifier,
            decreases (if g < self.model().1.len() {
                self.model().1[g as int].2.len()
            } else {
                0
            }),
        {
            let ghost m = self.model();
            let mut gs = self.take_group(g);
            assert(group_view(gs) == m.1[g as int]);
            let (node, w) = gs.queue.remove(0);
            assert(group_view(gs).2 =~= m.1[g as int].2.drop_first());
            gs.in_flight = gs.in_flight + 1;
            self.put_group(g, gs);
            let ghost gs1 = m.1[g as int];
            let ghost m1: AsyncModel<W> = (m.0, m.1.update(g as int, (gs1.0, (gs1.1 + 1) as usize, gs1.2.drop_first())), m.2);
            assert(self.model().1 =~= m1.1);
            assert(self.model().0 =~= m1.0);
            assert(self.model().2 =~= m1.2);
            proof {
                lemma_limits_update(m.1, g as int, group_view(gs));
            }
            self.spawn_raw(node, w, None);
        }
    }

    /// Record that `node`'s task completed, and start what was waiting for it.
    pub fn process_completion(&mut self, completed_id: &NodeId)
        requires
            old(self).wf(),
        ensures
            final(self).wf(),
            final(self).model() == after_completion(old(self).model(), completed_id@),
            final(self).notifier_view() == old(self).notifier_view(),
    {
        let ghost k = completed_id@;
        let ghost before = self.node_states.view();
        match self.node_states.remove(completed_id) {
            None => {
                assert(self.node_states.view() =~= before);
            },
            Some(mut t) => {
                let ghost t0 = task_view(t);
                t.in_flight = false;
                let takes = match t.policy {
                    AsyncPolicy::Queue => t.pending.len() > 0,
                    _ => false,
                };
                let next = if takes {
                    Some(t.pending.remove(0))
                } else {
                    None
                };
                let gid = t.group_id;
                let ghost tt = t;
                self.node_states.insert(completed_id.clone(), t);
                proof {
                    self.lemma_task_set(before, k, tt);
                    if takes {
                        assert(task_view(tt).3 =~= t0.3.drop_first());
                    }
                }
                let ghost m1 = self.model();
                match gid {
                    Some(g) => {
                        if g < self.groups.len() {
                            let mut gs = self.take_group(g);
                            assert(group_view(gs) == m1.1[g as int]);
                            gs.in_flight = if gs.in_flight > 0 {
                                gs.in_flight - 1
                            } else {
                                0
                            };
                            self.put_group(g, gs);
                            assert(self.model().1 =~= m1.1.update(g as int, group_view(gs)));
                            assert(self.model().0 =~= m1.0);
                            assert(self.model().2 =~= m1.2);
                            proof {
                                assert(m1.1[g as int].1 <= m1.1[g as int].0);
                                lemma_limits_update(m1.1, g as int, group_view(gs));
                            }
                        }
                        self.try_spawn_from_group_queue(g);
                    },
                    None => {},
                }
                match next {
                    Some(w) => {
                        self.try_spawn(completed_id.clone(), w, None);
                    },
                    None => {},
                }
            },
        }
    }

    /// Take the results that arrived on the result channel, in arrival
    /// order, and record each completion. Which results have arrived depends
    /// on the runtime; the state moves on by the completions of what came.
    pub fn drain_results(&mut self) -> (r: Vec<(NodeId, V)>)
        requires
            old(self).wf(),
        ensures
            final(self).wf(),
            final(self).model() == after_completions(
                old(self).model(),
                r@.map_values(|p: (NodeId, V)| p.0@),
            ),
            final(self).notifier_view() == old(self).notifier_view(),
    {
        let results = channel::drain(&self.result_rx);
        let ghost ks = results@.map_values(|p: (NodeId, V)| p.0@);
        let mut i: usize = 0;
        while i < results.len()
            invariant
                self.wf(),
                i <= results@.len(),
                ks == results@.map_values(|p: (NodeId, V)| p.0@),
                self.model() == after_completions(old(self).model(), ks.take(i as int)),
                self.notifier_view() == old(self).notifier_view(),
            decreases results@.len() - i,
        {
            self.process_completion(&results[i].0);
            assert(ks.take(i + 1).drop_last() =~= ks.take(i as int));
            i = i + 1;
        }
        assert(ks.take(results@.len() as int) =~= ks);
        results
    }

    /// The actions issued since the last call, in order; they are handed over.
    pub fn take_actions(&mut self) -> (r: Vec<AsyncAction<W>>)
        requires
            old(self).wf(),
        ensures
            final(self).wf(),
            r@.map_values(|a: AsyncAction<W>| action_view(a)) == old(self).model().2,
            final(self).model() == (old(self).model().0, old(self).model().1, Seq::<ActionView<W>>::empty()),
            final(self).notifier_view() == old(self).notifier_view(),
    {
        let mut taken: Vec<AsyncAction<W>> = Vec::new();
        std::mem::swap(&mut taken, &mut self.actions);
        assert(self.model().2 =~= Seq::<ActionView<W>>::empty());
        taken
    }
}

} // verus!
