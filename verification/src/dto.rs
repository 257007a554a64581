//! Payload records of the three protocol phases, the shutdown marker, and the
//! store in which a participant logs what it received.
//!
//! Payloads are opaque to the rest of the library: they are built once, moved
//! around and stored, and nothing but their correlation key is ever read.
use std::collections::HashMap;
use vstd::prelude::*;

verus! {

/// Names a participant, and is the type of every correlation key.
pub type ID = u64;

/// A payload that a store files under a key of its own.
pub trait Correlated: Sized {
    /// The key under which a store files this payload.
    spec fn key(&self) -> ID;

    fn correlation_key(&self) -> (r: ID)
        ensures
            r == self.key(),
    ;
}

/// Mathematical content of a [`PrePrepare`].
pub struct PrePrepareView {
    pub view: u64,
    pub sequence: u64,
    pub digest: Seq<char>,
    pub origin: ID,
    pub message: Seq<char>,
}

/// First-phase payload: a request proposed under a sequence number.
#[derive(Debug, PartialEq, Eq)]
pub struct PrePrepare {
    view: u64,
    sequence: u64,
    digest: String,
    origin: ID,
    message: String,
}

impl View for PrePrepare {
    type V = PrePrepareView;

    closed spec fn view(&self) -> PrePrepareView {
        PrePrepareView {
            view: self.view,
            sequence: self.sequence,
            digest: self.digest@,
            origin: self.origin,
            message: self.message@,
        }
    }
}

impl PrePrepare {
    pub fn new(view: u64, sequence: u64, digest: String, origin: ID, message: String) -> (r: Self)
        ensures
            r@ == (PrePrepareView {
                view,
                sequence,
                digest: digest@,
                origin,
                message: message@,
            }),
    {
        PrePrepare { view, sequence, digest, origin, message }
    }

    pub fn view_number(&self) -> (r: u64)
        ensures
            r == self@.view,
    {
        self.view
    }

    pub fn sequence(&self) -> (r: u64)
        ensures
            r == self@.sequence,
    {
        self.sequence
    }

    pub fn digest(&self) -> (r: &String)
        ensures
            r@ == self@.digest,
    {
        &self.digest
    }

    pub fn origin(&self) -> (r: ID)
        ensures
            r == self@.origin,
    {
        self.origin
    }

    pub fn message(&self) -> (r: &String)
        ensures
            r@ == self@.message,
    {
        &self.message
    }
}

impl Correlated for PrePrepare {
    /// A pre-prepare is filed under its sequence number.
    open spec fn key(&self) -> ID {
        self@.sequence
    }

    fn correlation_key(&self) -> (r: ID) {
        self.sequence
    }
}

/// Mathematical content of a [`Prepare`].
pub struct PrepareView {
    pub view: u64,
    pub sequence: u64,
    pub digest: Seq<char>,
    pub origin: ID,
    pub replica: ID,
}

/// Second-phase payload: a replica's agreement to a proposal.
#[derive(Debug, PartialEq, Eq)]
pub struct Prepare {
    view: u64,
    sequence: u64,
    digest: String,
    origin: ID,
    replica: ID,
}

impl View for Prepare {
    type V = PrepareView;

    closed spec fn view(&self) -> PrepareView {
        PrepareView {
            view: self.view,
            sequence: self.sequence,
            digest: self.digest@,
            origin: self.origin,
            replica: self.replica,
        }
    }
}

impl Prepare {
    pub fn new(view: u64, sequence: u64, digest: String, origin: ID, replica: ID) -> (r: Self)
        ensures
            r@ == (PrepareView { view, sequence, digest: digest@, origin, replica }),
    {
        Prepare { view, sequence, digest, origin, replica }
    }

    pub fn view_number(&self) -> (r: u64)
        ensures
            r == self@.view,
    {
        self.view
    }

    pub fn sequence(&self) -> (r: u64)
        ensures
            r == self@.sequence,
    {
        self.sequence
    }

    pub fn digest(&self) -> (r: &String)
        ensures
            r@ == self@.digest,
    {
        &self.digest
    }

    pub fn origin(&self) -> (r: ID)
        ensures
            r == self@.origin,
    {
        self.origin
    }

    pub fn replica(&self) -> (r: ID)
        ensures
            r == self@.replica,
    {
        self.replica
    }
}

impl Correlated for Prepare {
    /// A prepare is filed under its sequence number.
    open spec fn key(&self) -> ID {
        self@.sequence
    }

    fn correlation_key(&self) -> (r: ID) {
        self.sequence
    }
}

/// Mathematical content of a [`Commit`].
pub struct CommitView {
    pub view: u64,
    pub sequence: u64,
    pub digest: Seq<char>,
    pub origin: ID,
    pub replica: ID,
}

/// Third-phase payload: a replica's commitment to a proposal.
#[derive(Debug, PartialEq, Eq)]
pub struct Commit {
    view: u64,
    sequence: u64,
    digest: String,
    origin: ID,
    replica: ID,
}

impl View for Commit {
    type V = CommitView;

    closed spec fn view(&self) -> CommitView {
        CommitView {
            view: self.view,
            sequence: self.sequence,
            digest: self.digest@,
            origin: self.origin,
            replica: self.replica,
        }
    }
}

impl Commit {
    pub fn new(view: u64, sequence: u64, digest: String, origin: ID, replica: ID) -> (r: Self)
        ensures
            r@ == (CommitView { view, sequence, digest: digest@, origin, replica }),
    {
        Commit { view, sequence, digest, origin, replica }
    }

    pub fn view_number(&self) -> (r: u64)
        ensures
            r == self@.view,
    {
        self.view
    }

    pub fn sequence(&self) -> (r: u64)
        ensures
            r == self@.sequence,
    {
        self.sequence
    }

    pub fn digest(&self) -> (r: &String)
        ensures
            r@ == self@.digest,
    {
        &self.digest
    }

    pub fn origin(&self) -> (r: ID)
        ensures
            r == self@.origin,
    {
        self.origin
    }

    pub fn replica(&self) -> (r: ID)
        ensures
            r == self@.replica,
    {
        self.replica
    }
}

impl Correlated for Commit {
    /// A commit is filed under its sequence number.
    open spec fn key(&self) -> ID {
        self@.sequence
    }

    fn correlation_key(&self) -> (r: ID) {
        self.sequence
    }
}

/// Control marker: the participant that receives it stops. It carries only
/// the identifier of the participant it is meant for.
#[derive(Debug, Clone, Copy, PartialEq, Eq)]
pub struct Shutdown {
    pub id: ID,
}

impl Shutdown {
    pub fn new(id: ID) -> (r: Self)
        ensures
            r.id == id,
    {
        Shutdown { id }
    }
}

/// The log obtained from `log` by filing the payloads of `items`, first to
/// last, each under its own key. A payload filed later replaces one filed
/// earlier under the same key.
pub open spec fn file_all<P: Correlated>(log: Map<ID, P>, items: Seq<P>) -> Map<ID, P>
    decreases items.len(),
{
    if items.len() == 0 {
        log
    } else {
        file_all(log, items.drop_last()).insert(items.last().key(), items.last())
    }
}

/// Filing one payload is one insertion.
pub proof fn lemma_file_one<P: Correlated>(log: Map<ID, P>, item: P)
    ensures
        file_all(log, seq![item]) == log.insert(item.key(), item),
{
    let items = seq![item];
    assert(items.drop_last() =~= Seq::<P>::empty());
    assert(file_all(log, items.drop_last()) == log);
}

/// Filing only adds keys: what was filed before stays filed, possibly under
/// a newer payload.
pub proof fn lemma_file_all_keeps_keys<P: Correlated>(log: Map<ID, P>, items: Seq<P>, k: ID)
    requires
        log.contains_key(k),
    ensures
        file_all(log, items).contains_key(k),
    decreases items.len(),
{
    if items.len() > 0 {
        lemma_file_all_keeps_keys(log, items.drop_last(), k);
    }
}

fn file_into<P: Correlated>(log: &mut HashMap<ID, P>, items: Vec<P>)
    ensures
        final(log)@ == file_all(old(log)@, items@),
{
    let ghost all = items@;
    for item in it: items
        invariant
            it.seq() == all,
            log@ == file_all(old(log)@, all.take(it.index() as int)),
    {
        let k = item.correlation_key();
        proof {
            let i = it.index() as int;
            assert(all.take(i + 1).drop_last() == all.take(i));
            assert(all.take(i + 1).last() == item);
        }
        log.insert(k, item);
    }
    proof {
        assert(all.take(all.len() as int) == all);
    }
}

/// Mathematical content of a [`State`]: one log per payload kind.
#[verifier::ext_equal]
pub struct StateView {
    pub preprepares: Map<ID, PrePrepare>,
    pub prepares: Map<ID, Prepare>,
    pub commits: Map<ID, Commit>,
}

impl StateView {
    /// The store of a participant that has received nothing.
    pub open spec fn empty() -> StateView {
        StateView { preprepares: Map::empty(), prepares: Map::empty(), commits: Map::empty() }
    }

    /// The store after the payloads of one envelope were filed, each kind
    /// into its own log.
    pub open spec fn record(
        self,
        preprepares: Seq<PrePrepare>,
        prepares: Seq<Prepare>,
        commits: Seq<Commit>,
    ) -> StateView {
        StateView {
            preprepares: file_all(self.preprepares, preprepares),
            prepares: file_all(self.prepares, prepares),
            commits: file_all(self.commits, commits),
        }
    }
}

/// What one participant has received so far: three independent logs, one per
/// payload kind, each keyed by the payloads' correlation key. Entries are
/// added or replaced, never removed.
#[derive(Debug)]
pub struct State {
    preprepares: HashMap<ID, PrePrepare>,
    prepares: HashMap<ID, Prepare>,
    commits: HashMap<ID, Commit>,
}

impl View for State {
    type V = StateView;

    closed spec fn view(&self) -> StateView {
        StateView {
            preprepares: self.preprepares@,
            prepares: self.prepares@,
            commits: self.commits@,
        }
    }
}

impl State {
    pub fn new() -> (r: State)
        ensures
            r@ == StateView::empty(),
    {
        State { preprepares: HashMap::new(), prepares: HashMap::new(), commits: HashMap::new() }
    }

    /// Files the payloads of one envelope, each kind into its own log.
    pub fn record(
        &mut self,
        preprepares: Vec<PrePrepare>,
        prepares: Vec<Prepare>,
        commits: Vec<Commit>,
    )
        ensures
            final(self)@ == old(self)@.record(preprepares@, prepares@, commits@),
    {
        file_into(&mut self.preprepares, preprepares);
        file_into(&mut self.prepares, prepares);
        file_into(&mut self.commits, commits);
    }

    pub fn get_preprepares(&self) -> (r: &HashMap<ID, PrePrepare>)
        ensures
            r@ == self@.preprepares,
    {
        &self.preprepares
    }

    pub fn get_prepares(&self) -> (r: &HashMap<ID, Prepare>)
        ensures
            r@ == self@.prepares,
    {
        &self.prepares
    }

    pub fn get_commits(&self) -> (r: &HashMap<ID, Commit>)
        ensures
            r@ == self@.commits,
    {
        &self.commits
    }
}

} // verus!
