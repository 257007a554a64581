//! The dispatcher: a registry of participants, a queue of pending envelopes,
//! and the single step that moves the oldest pending envelope to the
//! participant it is addressed to.
//!
//! Nothing moves by itself. An envelope is enqueued, then a step hands it to
//! its target's inbox or drops it, then the target consumes it when the
//! caller waits for the target's reports.
use crate::dto::{lemma_file_one, Correlated, PrePrepare, ID};
use crate::node::{
    lemma_run_keeps_id, lemma_run_push, lemma_shut_down_stops, views, JoinHandle, Message,
    MessageView, NodeCtrl, NodeCtrlView,
};
use std::collections::HashMap;
use std::collections::VecDeque;
use vstd::prelude::*;

verus! {

/// Why a step moved nothing.
#[derive(Debug, Clone, Copy, PartialEq, Eq, Structural)]
pub enum NetworkError {
    /// The registry is empty.
    NoParticipants,
    /// The pending queue is empty.
    NoPendingMessages,
}

impl NetworkError {
    /// The wording of each failure.
    pub open spec fn text(self) -> Seq<char> {
        match self {
            NetworkError::NoParticipants => "No nodes were found"@,
            NetworkError::NoPendingMessages => "No more requests"@,
        }
    }

    pub fn message(&self) -> (r: String)
        ensures
            r@ == self.text(),
    {
        match self {
            NetworkError::NoParticipants => "No nodes were found".to_owned(),
            NetworkError::NoPendingMessages => "No more requests".to_owned(),
        }
    }
}

/// Mathematical content of a [`Network`].
#[verifier::ext_equal]
pub struct NetworkView {
    /// The registry: each registered participant under its identifier.
    pub nodes: Map<ID, NodeCtrlView>,
    /// The pending envelopes, oldest first.
    pub queue: Seq<MessageView>,
    /// The number of pending envelopes the dispatcher was sized for.
    pub capacity: nat,
}

impl NetworkView {
    /// A dispatcher as it is built: participants `0` to `node_count - 1`,
    /// each as it starts, and nothing pending.
    pub open spec fn initial(node_count: nat, capacity: nat) -> NetworkView {
        NetworkView {
            nodes: Map::new(|id: ID| id < node_count, |id: ID| NodeCtrlView::fresh(id)),
            queue: Seq::empty(),
            capacity,
        }
    }

    /// Every participant is registered under its own identifier.
    pub open spec fn wf(self) -> bool {
        forall|id: ID| self.nodes.contains_key(id) ==> (#[trigger] self.nodes[id]).node.id == id
    }

    /// After `m` was appended to the pending queue.
    pub open spec fn queue_add(self, m: MessageView) -> NetworkView {
        NetworkView { queue: self.queue.push(m), ..self }
    }

    /// What a step answers: with no participant it fails, whatever is
    /// pending; else with nothing pending it fails; else it tells whether the
    /// target of the oldest pending envelope is registered.
    pub open spec fn tick_result(self) -> Result<bool, NetworkError> {
        if self.nodes.is_empty() {
            Err(NetworkError::NoParticipants)
        } else if self.queue.len() == 0 {
            Err(NetworkError::NoPendingMessages)
        } else {
            Ok(self.nodes.contains_key(self.queue.first().target_id))
        }
    }

    /// After a step: a failed step changes nothing; any other takes the
    /// oldest envelope off the queue and hands it to its target if that is
    /// registered.
    pub open spec fn tick(self) -> NetworkView {
        if self.tick_result() is Err {
            self
        } else {
            let m = self.queue.first();
            let rest = self.queue.drop_first();
            if self.nodes.contains_key(m.target_id) {
                NetworkView {
                    nodes: self.nodes.insert(m.target_id, self.nodes[m.target_id].deliver(m)),
                    queue: rest,
                    ..self
                }
            } else {
                NetworkView { queue: rest, ..self }
            }
        }
    }

    /// After `k` steps in a row.
    pub open spec fn ticks(self, k: nat) -> NetworkView
        decreases k,
    {
        if k == 0 {
            self
        } else {
            self.ticks((k - 1) as nat).tick()
        }
    }

    /// After participant `id` left the registry.
    pub open spec fn remove_node(self, id: ID) -> NetworkView {
        NetworkView { nodes: self.nodes.remove(id), ..self }
    }

    /// What removing participant `id` hands out: the participant, told to
    /// stop, if it was registered.
    pub open spec fn join_handle(self, id: ID) -> Option<NodeCtrlView> {
        if self.nodes.contains_key(id) {
            Some(self.nodes[id].shut_down())
        } else {
            None
        }
    }

    /// After participant `id`, if registered, consumed what was in its inbox.
    pub open spec fn await_reports(self, id: ID) -> NetworkView {
        if self.nodes.contains_key(id) {
            NetworkView { nodes: self.nodes.insert(id, self.nodes[id].settle()), ..self }
        } else {
            self
        }
    }

    /// The number of reports participant `id` makes while it consumes what
    /// is in its inbox, if it is registered.
    pub open spec fn reports_due(self, id: ID) -> Option<nat> {
        if self.nodes.contains_key(id) {
            Some(self.nodes[id].reports_due())
        } else {
            None
        }
    }
}

/// The envelopes of `queue` that are addressed to `id`, in the order of
/// `queue`.
pub open spec fn addressed_to(queue: Seq<MessageView>, id: ID) -> Seq<MessageView>
    decreases queue.len(),
{
    if queue.len() == 0 {
        Seq::empty()
    } else {
        let earlier = addressed_to(queue.drop_last(), id);
        if queue.last().target_id == id {
            earlier.push(queue.last())
        } else {
            earlier
        }
    }
}

/// The contents of a registry.
pub open spec fn ctrl_views(nodes: Map<ID, NodeCtrl>) -> Map<ID, NodeCtrlView> {
    Map::new(|id: ID| nodes.contains_key(id), |id: ID| nodes[id]@)
}

/// Owns the participants and the one path by which envelopes reach them.
///
/// The registry is filled when the dispatcher is built and only shrinks
/// afterwards. The pending queue is first in, first out, and grows without
/// limit: `capacity` is the queue length that the caller plans for, kept for
/// the caller to read back, and no envelope is ever refused on its account.
#[derive(Debug)]
pub struct Network {
    nodes: HashMap<ID, NodeCtrl>,
    queue: VecDeque<Message>,
    capacity: usize,
}

impl View for Network {
    type V = NetworkView;

    closed spec fn view(&self) -> NetworkView {
        NetworkView {
            nodes: ctrl_views(self.nodes@),
            queue: views(self.queue@),
            capacity: self.capacity as nat,
        }
    }
}

impl Network {
    /// Starts participants `0` to `node_count - 1` and registers them.
    pub fn new(node_count: u64, capacity: usize) -> (r: Network)
        ensures
            r@ == NetworkView::initial(node_count as nat, capacity as nat),
            r@.wf(),
    {
        let mut nodes: HashMap<ID, NodeCtrl> = HashMap::new();
        let mut id: ID = 0;
        while id < node_count
            invariant
                id <= node_count,
                ctrl_views(nodes@) =~= NetworkView::initial(id as nat, capacity as nat).nodes,
            decreases node_count - id,
        {
            let ghost before = nodes@;
            nodes.insert(id, NodeCtrl::new(id));
            proof {
                let grown = NetworkView::initial(id as nat, capacity as nat).nodes.insert(
                    id,
                    NodeCtrlView::fresh(id),
                );
                assert(ctrl_views(nodes@) =~= ctrl_views(before).insert(
                    id,
                    NodeCtrlView::fresh(id),
                ));
                assert(NetworkView::initial((id + 1) as nat, capacity as nat).nodes =~= grown);
            }
            id = id + 1;
        }
        Network { nodes, queue: VecDeque::new(), capacity }
    }

    /// Appends `message` to the pending queue. The target need not be
    /// registered.
    pub fn queue_add(&mut self, message: Message)
        ensures
            final(self)@ == old(self)@.queue_add(message@),
            old(self)@.wf() ==> final(self)@.wf(),
    {
        proof {
            assert(views(self.queue@.push(message)) =~= views(self.queue@).push(message@));
        }
        self.queue.push_back(message);
    }

    /// Takes one step. `Ok(true)`: the oldest pending envelope was handed to
    /// its target; `Ok(false)`: it was dropped because its target is not
    /// registered; `Err`: nothing was taken off the queue.
    ///
    /// The step does not wait for the target to consume the envelope. A
    /// target that is registered but has stopped counts as handed to, and
    /// the envelope is lost.
    pub fn tick(&mut self) -> (r: Result<bool, NetworkError>)
        ensures
            r == old(self)@.tick_result(),
            final(self)@ == old(self)@.tick(),
            old(self)@.wf() ==> final(self)@.wf(),
    {
        proof {
            assert(self.nodes@.dom() =~= self@.nodes.dom());
        }
        if self.nodes.is_empty() {
            return Err(NetworkError::NoParticipants);
        }
        let ghost before = self.queue@;
        match self.queue.pop_front() {
            None => Err(NetworkError::NoPendingMessages),
            Some(message) => {
                proof {
                    assert(views(before).first() == message@);
                    assert(views(before).drop_first() =~= views(self.queue@));
                }
                let target = message.target();
                match self.nodes.remove(&target) {
                    None => Ok(false),
                    Some(ctrl) => {
                        let mut ctrl = ctrl;
                        ctrl.send(message);
                        self.nodes.insert(target, ctrl);
                        proof {
                            assert(self@.nodes =~= old(self)@.tick().nodes);
                        }
                        Ok(true)
                    },
                }
            },
        }
    }

    /// Takes participant `id` out of the registry and tells it to stop,
    /// directly and not through the pending queue. Returns the handle on
    /// which its end can be awaited, or `None` if `id` is not registered.
    pub fn remove_node(&mut self, id: ID) -> (r: Option<JoinHandle>)
        ensures
            final(self)@ == old(self)@.remove_node(id),
            match r {
                Some(handle) => old(self)@.join_handle(id) == Some(handle@)
                    && !handle@.settle().node.running,
                None => old(self)@.join_handle(id) is None,
            },
            old(self)@.wf() ==> final(self)@.wf(),
    {
        let removed = self.nodes.remove(&id);
        proof {
            assert(self@.nodes =~= old(self)@.nodes.remove(id));
        }
        match removed {
            None => None,
            Some(ctrl) => Some(ctrl.shut_down()),
        }
    }

    /// The controller of participant `id`, if it is registered.
    pub fn get_node(&self, id: &ID) -> (r: Option<&NodeCtrl>)
        ensures
            match r {
                Some(ctrl) => self@.nodes.contains_key(*id) && ctrl@ == self@.nodes[*id],
                None => !self@.nodes.contains_key(*id),
            },
    {
        self.nodes.get(id)
    }

    /// Waits until participant `id` has consumed everything handed to it so
    /// far. Returns the number of reports it made meanwhile, or `None` if
    /// `id` is not registered.
    pub fn await_reports(&mut self, id: ID) -> (r: Option<usize>)
        ensures
            final(self)@ == old(self)@.await_reports(id),
            match r {
                Some(reports) => old(self)@.reports_due(id) == Some(reports as nat),
                None => old(self)@.reports_due(id) is None,
            },
            old(self)@.wf() ==> final(self)@.wf(),
    {
        proof {
            if self@.nodes.contains_key(id) {
                lemma_run_keeps_id(self@.nodes[id].node, self@.nodes[id].inbox);
            }
        }
        match self.nodes.remove(&id) {
            None => {
                proof {
                    assert(self@.nodes =~= old(self)@.nodes);
                }
                None
            },
            Some(ctrl) => {
                let mut ctrl = ctrl;
                let reports = ctrl.await_reports();
                self.nodes.insert(id, ctrl);
                proof {
                    assert(self@.nodes =~= old(self)@.await_reports(id).nodes);
                }
                Some(reports)
            },
        }
    }

    /// The number of registered participants.
    pub fn node_count(&self) -> (r: usize)
        ensures
            r == self@.nodes.len(),
    {
        proof {
            assert(self.nodes@.dom() =~= self@.nodes.dom());
        }
        self.nodes.len()
    }

    /// The number of pending envelopes.
    pub fn pending(&self) -> (r: usize)
        ensures
            r == self@.queue.len(),
    {
        self.queue.len()
    }

    pub fn capacity(&self) -> (r: usize)
        ensures
            r == self@.capacity,
    {
        self.capacity
    }
}

/// No operation of the dispatcher registers anyone: a participant that is
/// not registered before a step, a removal, an enqueueing or a wait is not
/// registered after it.
pub proof fn lemma_registry_only_shrinks(net: NetworkView, id: ID, m: MessageView, other: ID)
    requires
        !net.nodes.contains_key(id),
    ensures
        !net.queue_add(m).nodes.contains_key(id),
        !net.tick().nodes.contains_key(id),
        !net.remove_node(other).nodes.contains_key(id),
        !net.await_reports(other).nodes.contains_key(id),
{
}

/// Each operation of the dispatcher keeps every registered participant under
/// its own identifier.
pub proof fn lemma_operations_keep_wf(net: NetworkView, id: ID, m: MessageView)
    requires
        net.wf(),
    ensures
        net.queue_add(m).wf(),
        net.tick().wf(),
        net.remove_node(id).wf(),
        net.await_reports(id).wf(),
{
    if net.nodes.contains_key(id) {
        lemma_run_keeps_id(net.nodes[id].node, net.nodes[id].inbox);
    }
}

/// With no participant, a step fails with `NoParticipants` and changes
/// nothing, whatever is pending and however often it is tried.
pub proof fn lemma_no_participants(net: NetworkView, k: nat)
    requires
        net.nodes.is_empty(),
    ensures
        net.ticks(k) == net,
        net.ticks(k).tick_result() == Err::<bool, NetworkError>(NetworkError::NoParticipants),
    decreases k,
{
    if k > 0 {
        lemma_no_participants(net, (k - 1) as nat);
    }
}

/// With a participant and nothing pending, a step fails with
/// `NoPendingMessages` and changes nothing.
pub proof fn lemma_no_pending(net: NetworkView)
    requires
        !net.nodes.is_empty(),
        net.queue.len() == 0,
    ensures
        net.tick_result() == Err::<bool, NetworkError>(NetworkError::NoPendingMessages),
        net.tick() == net,
{
}

/// While there is a participant, `k` steps take the `k` oldest envelopes off
/// the pending queue and leave the registry's membership as it is.
pub proof fn lemma_ticks_consume(net: NetworkView, k: nat)
    requires
        !net.nodes.is_empty(),
        k <= net.queue.len(),
    ensures
        net.ticks(k).queue == net.queue.skip(k as int),
        net.ticks(k).nodes.dom() == net.nodes.dom(),
        net.ticks(k).capacity == net.capacity,
    decreases k,
{
    if k == 0 {
        assert(net.queue.skip(0) =~= net.queue);
    } else {
        lemma_ticks_consume(net, (k - 1) as nat);
        let before = net.ticks((k - 1) as nat);
        assert(before.queue.len() > 0);
        assert(before.tick().queue =~= net.queue.skip(k as int));
        assert(before.tick().nodes.dom() =~= net.nodes.dom());
    }
}

/// Delivery keeps the order of the pending queue: after `k` steps the inbox
/// of a running participant holds what it held, followed by those of the `k`
/// oldest pending envelopes that are addressed to it, oldest first. Stepping
/// alone changes nothing else about a participant, and nothing at all about
/// one that has stopped.
pub proof fn lemma_ticks_deliver_in_order(net: NetworkView, id: ID, k: nat)
    requires
        net.nodes.contains_key(id),
        k <= net.queue.len(),
    ensures
        net.ticks(k).nodes.contains_key(id),
        net.ticks(k).nodes[id].node == net.nodes[id].node,
        net.nodes[id].node.running ==> net.ticks(k).nodes[id].inbox == net.nodes[id].inbox
            + addressed_to(net.queue.take(k as int), id),
        !net.nodes[id].node.running ==> net.ticks(k).nodes[id] == net.nodes[id],
    decreases k,
{
    assert(net.nodes.dom().contains(id));
    if k == 0 {
        assert(net.queue.take(0) =~= Seq::<MessageView>::empty());
        assert(net.nodes[id].inbox + Seq::<MessageView>::empty() =~= net.nodes[id].inbox);
    } else {
        let j = (k - 1) as nat;
        lemma_ticks_deliver_in_order(net, id, j);
        lemma_ticks_consume(net, j);
        let before = net.ticks(j);
        let m = net.queue[j as int];
        assert(before.nodes.dom().contains(id));
        assert(before.queue.first() == m);
        assert(net.queue.take(k as int).drop_last() =~= net.queue.take(j as int));
        assert(net.queue.take(k as int).last() == m);
        if net.nodes[id].node.running && m.target_id == id {
            let earlier = addressed_to(net.queue.take(j as int), id);
            assert((net.nodes[id].inbox + earlier).push(m) =~= net.nodes[id].inbox + earlier.push(
                m,
            ));
        }
    }
}

/// When every pending envelope is addressed to a registered participant,
/// each of as many steps as envelopes are pending delivers, and the step
/// after them fails with `NoPendingMessages`.
pub proof fn lemma_all_pending_delivered(net: NetworkView, k: nat)
    requires
        forall|i: int|
            0 <= i < net.queue.len() ==> net.nodes.contains_key(#[trigger] net.queue[i].target_id),
        net.queue.len() == 0 ==> !net.nodes.is_empty(),
        k <= net.queue.len(),
    ensures
        k < net.queue.len() ==> net.ticks(k).tick_result() == Ok::<bool, NetworkError>(true),
        k == net.queue.len() ==> net.ticks(k).tick_result() == Err::<bool, NetworkError>(
            NetworkError::NoPendingMessages,
        ),
{
    if net.queue.len() > 0 {
        assert(net.nodes.contains_key(net.queue[0].target_id));
    }
    lemma_ticks_consume(net, k);
    if k < net.queue.len() {
        assert(net.ticks(k).queue.first() == net.queue[k as int]);
    }
}

/// Once participant `id` has been removed, the step that takes an envelope
/// addressed to `id`, enqueued after the removal, drops it: the step answers
/// `Ok(false)`. This needs another participant to be left.
pub proof fn lemma_removed_target_is_dropped(net: NetworkView, id: ID, m: MessageView)
    requires
        net.nodes.contains_key(id),
        !net.remove_node(id).nodes.is_empty(),
        m.target_id == id,
    ensures
        ({
            let later = net.remove_node(id).queue_add(m);
            let at_head = later.ticks(net.queue.len());
            &&& at_head.queue =~= seq![m]
            &&& at_head.tick_result() == Ok::<bool, NetworkError>(false)
        }),
{
    let later = net.remove_node(id).queue_add(m);
    lemma_ticks_consume(later, net.queue.len());
    let at_head = later.ticks(net.queue.len());
    assert(at_head.queue =~= seq![m]);
    assert(!at_head.nodes.dom().contains(id));
}

/// An envelope addressed to a registered participant is delivered by the
/// step that takes it, and a later removal does not undo that: the envelope
/// is in the inbox that the removed participant consumes before it stops.
pub proof fn lemma_delivered_before_removal(net: NetworkView, id: ID)
    requires
        net.nodes.contains_key(id),
        net.queue.len() > 0,
        net.queue.first().target_id == id,
    ensures
        net.tick_result() == Ok::<bool, NetworkError>(true),
        net.tick().join_handle(id) == Some(
            net.nodes[id].deliver(net.queue.first()).shut_down(),
        ),
{
    assert(net.nodes.dom().contains(id));
}

/// One pre-prepare delivered to a running participant with an idle inbox
/// and an empty pre-prepare log: once the participant has reported, that
/// log holds exactly the one payload, and the other two logs are as before.
pub proof fn lemma_preprepare_reaches_store(
    net: NetworkView,
    sender: ID,
    target: ID,
    pp: PrePrepare,
)
    requires
        net.nodes.contains_key(target),
        net.nodes[target].node.running,
        net.nodes[target].inbox.len() == 0,
        net.nodes[target].node.state.preprepares.is_empty(),
        net.queue.len() > 0,
        net.queue.first() == (MessageView {
            preprepares: seq![pp],
            ..MessageView::bare(sender, target)
        }),
    ensures
        net.tick_result() == Ok::<bool, NetworkError>(true),
        net.tick().reports_due(target) == Some(1nat),
        ({
            let before = net.nodes[target].node.state;
            let after = net.tick().await_reports(target).nodes[target].node.state;
            &&& before.preprepares.len() == 0
            &&& after.preprepares.len() == 1
            &&& after.preprepares == before.preprepares.insert(pp.key(), pp)
            &&& after.prepares == before.prepares
            &&& after.commits == before.commits
        }),
{
    let m = net.queue.first();
    let ctrl = net.nodes[target];
    let before = ctrl.node.state;
    assert(net.nodes.dom().contains(target));
    lemma_run_push(ctrl.node, ctrl.inbox, m);
    lemma_file_one(before.preprepares, pp);
    assert(before.preprepares.insert(pp.key(), pp).dom() =~= set![pp.key()]);
}

/// Removing a registered participant hands out a handle that joins: the
/// participant has stopped once it has consumed its inbox. The handle is the
/// same whatever is pending in the dispatcher's queue.
pub proof fn lemma_removed_participant_joins(net: NetworkView, id: ID, queue: Seq<MessageView>)
    requires
        net.nodes.contains_key(id),
    ensures
        net.join_handle(id) is Some,
        !net.join_handle(id).unwrap().settle().node.running,
        (NetworkView { queue, ..net }).join_handle(id) == net.join_handle(id),
{
    lemma_shut_down_stops(net.nodes[id]);
}

} // verus!
