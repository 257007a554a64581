//! The envelope, the participant that consumes envelopes, and the controller
//! through which a dispatcher reaches one participant.
//!
//! A participant is modelled as a state machine, and the channel that feeds
//! it as a first-in, first-out inbox held by its controller. Handing an
//! envelope to the inbox and having the participant consume it are two
//! separate events: the second happens only when the participant is run.
use crate::dto::{
    lemma_file_all_keeps_keys, Commit, PrePrepare, Prepare, Shutdown, State, StateView, ID,
};
use std::collections::VecDeque;
use vstd::prelude::*;

verus! {

/// Something that accepts protocol payloads addressed to one participant.
/// Each method tells whether the payload was handed over.
pub trait TargetNode {
    fn send_pre_prepare(&mut self, req: PrePrepare) -> bool;

    fn send_prepare(&mut self, req: Prepare) -> bool;

    fn send_commit(&mut self, req: Commit) -> bool;
}

/// Mathematical content of a [`Message`].
#[verifier::ext_equal]
pub struct MessageView {
    pub sender_id: ID,
    pub target_id: ID,
    pub preprepares: Seq<PrePrepare>,
    pub prepares: Seq<Prepare>,
    pub commits: Seq<Commit>,
    pub shutdowns: Seq<Shutdown>,
}

impl MessageView {
    /// An envelope without payloads.
    pub open spec fn bare(sender_id: ID, target_id: ID) -> MessageView {
        MessageView {
            sender_id,
            target_id,
            preprepares: Seq::empty(),
            prepares: Seq::empty(),
            commits: Seq::empty(),
            shutdowns: Seq::empty(),
        }
    }

    /// Whether the envelope tells its receiver to stop.
    pub open spec fn carries_shutdown(self) -> bool {
        self.shutdowns.len() > 0
    }
}

/// The unit of delivery: addressed to one participant, carrying payloads of
/// any of the four kinds.
#[derive(Debug)]
pub struct Message {
    pub sender_id: ID,
    pub target_id: ID,
    preprepares: Vec<PrePrepare>,
    prepares: Vec<Prepare>,
    commits: Vec<Commit>,
    shutdowns: Vec<Shutdown>,
}

impl View for Message {
    type V = MessageView;

    closed spec fn view(&self) -> MessageView {
        MessageView {
            sender_id: self.sender_id,
            target_id: self.target_id,
            preprepares: self.preprepares@,
            prepares: self.prepares@,
            commits: self.commits@,
            shutdowns: self.shutdowns@,
        }
    }
}

impl Message {
    /// An envelope that carries one pre-prepare and nothing else.
    pub fn preprepare(sender_id: ID, target_id: ID, pp: PrePrepare) -> (r: Message)
        ensures
            r@ == (MessageView { preprepares: seq![pp], ..MessageView::bare(sender_id, target_id) }),
    {
        Message {
            sender_id: sender_id,
            target_id: target_id,
            preprepares: vec![pp],
            prepares: vec![],
            commits: vec![],
            shutdowns: vec![],
        }
    }

    /// An envelope that carries one prepare and nothing else.
    pub fn prepare(sender_id: ID, target_id: ID, p: Prepare) -> (r: Message)
        ensures
            r@ == (MessageView { prepares: seq![p], ..MessageView::bare(sender_id, target_id) }),
    {
        Message {
            sender_id: sender_id,
            target_id: target_id,
            preprepares: vec![],
            prepares: vec![p],
            commits: vec![],
            shutdowns: vec![],
        }
    }

    /// An envelope that carries one commit and nothing else.
    pub fn commit(sender_id: ID, target_id: ID, c: Commit) -> (r: Message)
        ensures
            r@ == (MessageView { commits: seq![c], ..MessageView::bare(sender_id, target_id) }),
    {
        Message {
            sender_id: sender_id,
            target_id: target_id,
            preprepares: vec![],
            prepares: vec![],
            commits: vec![c],
            shutdowns: vec![],
        }
    }

    /// An envelope that carries one shutdown marker and nothing else.
    pub fn shutdown(sender_id: ID, target_id: ID, s: Shutdown) -> (r: Message)
        ensures
            r@ == (MessageView { shutdowns: seq![s], ..MessageView::bare(sender_id, target_id) }),
    {
        Message {
            sender_id: sender_id,
            target_id: target_id,
            preprepares: vec![],
            prepares: vec![],
            commits: vec![],
            shutdowns: vec![s],
        }
    }

    pub fn sender(&self) -> (r: ID)
        ensures
            r == self@.sender_id,
    {
        self.sender_id
    }

    pub fn target(&self) -> (r: ID)
        ensures
            r == self@.target_id,
    {
        self.target_id
    }

    pub fn carries_shutdown(&self) -> (r: bool)
        ensures
            r == self@.carries_shutdown(),
    {
        self.shutdowns.len() > 0
    }
}

/// The contents of a queue of envelopes, first in first.
pub open spec fn views(queue: Seq<Message>) -> Seq<MessageView> {
    queue.map_values(|m: Message| m@)
}

/// Mathematical content of a [`Node`].
#[verifier::ext_equal]
pub struct NodeView {
    pub id: ID,
    pub state: StateView,
    pub running: bool,
}

impl NodeView {
    /// A participant as it starts: running, with an empty store.
    pub open spec fn fresh(id: ID) -> NodeView {
        NodeView { id, state: StateView::empty(), running: true }
    }

    /// Whether consuming `m` makes the participant report its store: it does
    /// unless it has stopped or `m` stops it.
    pub open spec fn reports_on(self, m: MessageView) -> bool {
        self.running && !m.carries_shutdown()
    }

    /// The participant after it consumed `m`.
    ///
    /// A stopped participant ignores everything. A running one stops on an
    /// envelope that carries a shutdown marker, whatever else the envelope
    /// holds, and files the payloads of any other envelope.
    pub open spec fn handle(self, m: MessageView) -> NodeView {
        if !self.running {
            self
        } else if m.carries_shutdown() {
            NodeView { running: false, ..self }
        } else {
            NodeView { state: self.state.record(m.preprepares, m.prepares, m.commits), ..self }
        }
    }

    /// The participant after it consumed `inbox`, first envelope first.
    pub open spec fn run(self, inbox: Seq<MessageView>) -> NodeView
        decreases inbox.len(),
    {
        if inbox.len() == 0 {
            self
        } else {
            self.handle(inbox.first()).run(inbox.drop_first())
        }
    }

    /// The number of reports the participant makes while it consumes `inbox`.
    pub open spec fn run_reports(self, inbox: Seq<MessageView>) -> nat
        decreases inbox.len(),
    {
        if inbox.len() == 0 {
            0
        } else {
            let rest = self.handle(inbox.first()).run_reports(inbox.drop_first());
            if self.reports_on(inbox.first()) {
                rest + 1
            } else {
                rest
            }
        }
    }
}

/// A stopped participant stays as it is and reports nothing, whatever it is
/// sent.
pub proof fn lemma_stopped_is_final(node: NodeView, inbox: Seq<MessageView>)
    requires
        !node.running,
    ensures
        node.run(inbox) == node,
        node.run_reports(inbox) == 0,
    decreases inbox.len(),
{
    if inbox.len() > 0 {
        lemma_stopped_is_final(node, inbox.drop_first());
    }
}

/// A participant keeps its identifier, and never becomes running again.
pub proof fn lemma_run_keeps_id(node: NodeView, inbox: Seq<MessageView>)
    ensures
        node.run(inbox).id == node.id,
        node.run(inbox).running ==> node.running,
    decreases inbox.len(),
{
    if inbox.len() > 0 {
        lemma_run_keeps_id(node.handle(inbox.first()), inbox.drop_first());
    }
}

/// A store only grows: whatever key a log holds before the participant
/// consumes `inbox`, it holds afterwards.
pub proof fn lemma_run_keeps_keys(node: NodeView, inbox: Seq<MessageView>, k: ID)
    ensures
        node.state.preprepares.contains_key(k) ==> node.run(inbox).state.preprepares.contains_key(k),
        node.state.prepares.contains_key(k) ==> node.run(inbox).state.prepares.contains_key(k),
        node.state.commits.contains_key(k) ==> node.run(inbox).state.commits.contains_key(k),
    decreases inbox.len(),
{
    if inbox.len() > 0 {
        let m = inbox.first();
        let after = node.handle(m);
        if node.state.preprepares.contains_key(k) {
            lemma_file_all_keeps_keys(node.state.preprepares, m.preprepares, k);
        }
        if node.state.prepares.contains_key(k) {
            lemma_file_all_keeps_keys(node.state.prepares, m.prepares, k);
        }
        if node.state.commits.contains_key(k) {
            lemma_file_all_keeps_keys(node.state.commits, m.commits, k);
        }
        lemma_run_keeps_keys(after, inbox.drop_first(), k);
    }
}

/// Consuming `inbox` and then one more envelope is consuming `inbox` with
/// that envelope appended.
pub proof fn lemma_run_push(node: NodeView, inbox: Seq<MessageView>, m: MessageView)
    ensures
        node.run(inbox.push(m)) == node.run(inbox).handle(m),
        node.run_reports(inbox.push(m)) == node.run_reports(inbox) + (if node.run(
            inbox,
        ).reports_on(m) {
            1nat
        } else {
            0nat
        }),
    decreases inbox.len(),
{
    let longer = inbox.push(m);
    if inbox.len() == 0 {
        let after = node.handle(m);
        assert(longer.drop_first() =~= inbox);
        assert(after.run(inbox) == after);
        assert(after.run_reports(inbox) == 0);
    } else {
        let after = node.handle(inbox.first());
        assert(longer.drop_first() =~= inbox.drop_first().push(m));
        lemma_run_push(after, inbox.drop_first(), m);
    }
}

/// A participant: an identifier, the store it logs into, and whether it is
/// still running. It starts running and stops for good on the first
/// shutdown marker it consumes.
#[derive(Debug)]
pub struct Node {
    id: ID,
    state: State,
    running: bool,
}

impl View for Node {
    type V = NodeView;

    closed spec fn view(&self) -> NodeView {
        NodeView { id: self.id, state: self.state@, running: self.running }
    }
}

impl Node {
    pub fn new(id: ID) -> (r: Node)
        ensures
            r@ == NodeView::fresh(id),
    {
        Node { id, state: State::new(), running: true }
    }

    /// Consumes one envelope and tells whether the participant has stopped.
    /// When the answer is `false` the participant owes its owner a report.
    pub fn handle(&mut self, message: Message) -> (stopped: bool)
        ensures
            final(self)@ == old(self)@.handle(message@),
            stopped == !final(self)@.running,
            stopped == !old(self)@.reports_on(message@),
    {
        if !self.running {
            return true;
        }
        if message.shutdowns.len() > 0 {
            self.running = false;
            return true;
        }
        self.state.record(message.preprepares, message.prepares, message.commits);
        false
    }

    /// Consumes the envelopes of `inbox`, first in first out, until the inbox
    /// is empty or the participant stops; what a stopped participant leaves
    /// in its inbox is discarded. Returns the number of reports made.
    pub fn run(&mut self, inbox: &mut VecDeque<Message>) -> (reports: usize)
        ensures
            final(self)@ == old(self)@.run(views(old(inbox)@)),
            reports == old(self)@.run_reports(views(old(inbox)@)),
            final(inbox)@.len() == 0,
    {
        let total = inbox.len();
        let mut reports: usize = 0;
        loop
            invariant
                self@.run(views(inbox@)) == old(self)@.run(views(old(inbox)@)),
                reports + self@.run_reports(views(inbox@)) == old(self)@.run_reports(
                    views(old(inbox)@),
                ),
                reports + inbox@.len() <= total,
            ensures
                self@ == old(self)@.run(views(old(inbox)@)),
                reports == old(self)@.run_reports(views(old(inbox)@)),
            decreases inbox@.len(),
        {
            let ghost before = inbox@;
            match inbox.pop_front() {
                None => {
                    break ;
                },
                Some(message) => {
                    proof {
                        assert(views(before).first() == message@);
                        assert(views(before).drop_first() =~= views(inbox@));
                    }
                    if self.handle(message) {
                        proof {
                            lemma_stopped_is_final(self@, views(inbox@));
                        }
                        break ;
                    }
                    reports = reports + 1;
                },
            }
        }
        inbox.clear();
        reports
    }

    pub fn id(&self) -> (r: ID)
        ensures
            r == self@.id,
    {
        self.id
    }

    pub fn is_running(&self) -> (r: bool)
        ensures
            r == self@.running,
    {
        self.running
    }

    pub fn get_state(&self) -> (r: &State)
        ensures
            r@ == self@.state,
    {
        &self.state
    }
}

/// Mathematical content of a [`NodeCtrl`] and of a [`JoinHandle`]: the
/// participant, and the envelopes handed to it that it has not consumed yet.
#[verifier::ext_equal]
pub struct NodeCtrlView {
    pub node: NodeView,
    pub inbox: Seq<MessageView>,
}

impl NodeCtrlView {
    /// A participant as it starts, with nothing handed to it.
    pub open spec fn fresh(id: ID) -> NodeCtrlView {
        NodeCtrlView { node: NodeView::fresh(id), inbox: Seq::empty() }
    }

    /// After `m` was handed over. The inbox of a running participant takes
    /// it; a stopped participant has no inbox any more, and `m` is lost.
    pub open spec fn deliver(self, m: MessageView) -> NodeCtrlView {
        if self.node.running {
            NodeCtrlView { inbox: self.inbox.push(m), ..self }
        } else {
            self
        }
    }

    /// The number of reports the participant makes while it consumes what
    /// is in its inbox.
    pub open spec fn reports_due(self) -> nat {
        self.node.run_reports(self.inbox)
    }

    /// After the participant consumed what was in its inbox.
    pub open spec fn settle(self) -> NodeCtrlView {
        NodeCtrlView { node: self.node.run(self.inbox), inbox: Seq::empty() }
    }

    /// The envelope that tells participant `id` to stop.
    pub open spec fn shutdown_directive(id: ID) -> MessageView {
        MessageView { shutdowns: seq![Shutdown { id }], ..MessageView::bare(id, id) }
    }

    /// After the participant was told to stop.
    pub open spec fn shut_down(self) -> NodeCtrlView {
        self.deliver(Self::shutdown_directive(self.node.id))
    }
}

/// A participant that was told to stop has stopped once it has consumed its
/// inbox, whatever was handed to it before.
pub proof fn lemma_shut_down_stops(ctrl: NodeCtrlView)
    ensures
        !ctrl.shut_down().settle().node.running,
{
    if ctrl.node.running {
        lemma_run_push(ctrl.node, ctrl.inbox, NodeCtrlView::shutdown_directive(ctrl.node.id));
    } else {
        lemma_stopped_is_final(ctrl.node, ctrl.inbox);
    }
}

/// The dispatcher's side of one participant: the inbox that stands for the
/// channel to it, and the participant itself, through which its store can be
/// read.
#[derive(Debug)]
pub struct NodeCtrl {
    node: Node,
    inbox: VecDeque<Message>,
}

impl View for NodeCtrl {
    type V = NodeCtrlView;

    closed spec fn view(&self) -> NodeCtrlView {
        NodeCtrlView { node: self.node@, inbox: views(self.inbox@) }
    }
}

impl NodeCtrl {
    /// Starts participant `id`.
    pub fn new(id: ID) -> (r: NodeCtrl)
        ensures
            r@ == NodeCtrlView::fresh(id),
    {
        NodeCtrl { node: Node::new(id), inbox: VecDeque::new() }
    }

    /// Hands `message` to the participant without waiting for it to be
    /// consumed, and tells whether the participant could take it.
    pub fn send(&mut self, message: Message) -> (sent: bool)
        ensures
            final(self)@ == old(self)@.deliver(message@),
            sent == old(self)@.node.running,
    {
        if self.node.is_running() {
            proof {
                assert(views(self.inbox@.push(message)) =~= views(self.inbox@).push(message@));
            }
            self.inbox.push_back(message);
            true
        } else {
            false
        }
    }

    /// Waits until the participant has consumed everything handed to it so
    /// far, and returns the number of reports it made meanwhile.
    pub fn await_reports(&mut self) -> (reports: usize)
        ensures
            final(self)@ == old(self)@.settle(),
            reports == old(self)@.reports_due(),
    {
        self.node.run(&mut self.inbox)
    }

    /// Tells the participant to stop, and gives up the controller for a
    /// handle on which the participant's end can be awaited.
    pub fn shut_down(self) -> (handle: JoinHandle)
        ensures
            handle@ == self@.shut_down(),
            !handle@.settle().node.running,
    {
        proof {
            lemma_shut_down_stops(self@);
        }
        let mut ctrl = self;
        let id = ctrl.node.id();
        ctrl.send(Message::shutdown(id, id, Shutdown::new(id)));
        JoinHandle { ctrl }
    }

    pub fn id(&self) -> (r: ID)
        ensures
            r == self@.node.id,
    {
        self.node.id()
    }

    pub fn get_node(&self) -> (r: &Node)
        ensures
            r@ == self@.node,
    {
        &self.node
    }

    pub fn get_state(&self) -> (r: &State)
        ensures
            r@ == self@.node.state,
    {
        self.node.get_state()
    }

    /// The number of envelopes handed over and not consumed yet.
    pub fn pending(&self) -> (r: usize)
        ensures
            r == self@.inbox.len(),
    {
        self.inbox.len()
    }
}

impl TargetNode for NodeCtrl {
    /// Hands the participant an envelope that carries `req` alone, sent in
    /// the name of the payload's origin.
    fn send_pre_prepare(&mut self, req: PrePrepare) -> (sent: bool)
        ensures
            final(self)@ == old(self)@.deliver(
                MessageView {
                    preprepares: seq![req],
                    ..MessageView::bare(req@.origin, old(self)@.node.id)
                },
            ),
            sent == old(self)@.node.running,
    {
        let message = Message::preprepare(req.origin(), self.node.id(), req);
        self.send(message)
    }

    /// Hands the participant an envelope that carries `req` alone, sent in
    /// the name of the payload's origin.
    fn send_prepare(&mut self, req: Prepare) -> (sent: bool)
        ensures
            final(self)@ == old(self)@.deliver(
                MessageView {
                    prepares: seq![req],
                    ..MessageView::bare(req@.origin, old(self)@.node.id)
                },
            ),
            sent == old(self)@.node.running,
    {
        let message = Message::prepare(req.origin(), self.node.id(), req);
        self.send(message)
    }

    /// Hands the participant an envelope that carries `req` alone, sent in
    /// the name of the payload's origin.
    fn send_commit(&mut self, req: Commit) -> (sent: bool)
        ensures
            final(self)@ == old(self)@.deliver(
                MessageView {
                    commits: seq![req],
                    ..MessageView::bare(req@.origin, old(self)@.node.id)
                },
            ),
            sent == old(self)@.node.running,
    {
        let message = Message::commit(req.origin(), self.node.id(), req);
        self.send(message)
    }
}

/// Stands for a participant that left the registry: joining it lets the
/// participant come to its end.
#[derive(Debug)]
pub struct JoinHandle {
    ctrl: NodeCtrl,
}

impl View for JoinHandle {
    type V = NodeCtrlView;

    closed spec fn view(&self) -> NodeCtrlView {
        self.ctrl@
    }
}

impl JoinHandle {
    /// Waits for the participant to come to its end: it consumes what is in
    /// its inbox, up to the envelope that stops it. Yields the participant as
    /// it ended, with its store as it stays from then on. Joining never
    /// fails: a participant of this simulation has no way to break down.
    pub fn join(self) -> (r: Result<Node, String>)
        ensures
            r is Ok,
            r.unwrap()@ == self@.settle().node,
    {
        let mut ctrl = self.ctrl;
        ctrl.await_reports();
        Ok(ctrl.node)
    }
}

} // verus!
