//! Carrying out a queued deletion.
use crate::metadata::{broadcast_targets, online_peers};
use crate::types::{NodeId, NodeInfo};
use vstd::prelude::*;

verus! {

/// What is done next for a queued deletion.
#[derive(Clone, Copy, Debug, PartialEq, Eq, Structural)]
pub enum DrainStep {
    /// Remove the file's record here.
    RemoveRecord,
    /// Remove its path here.
    RemovePath,
    /// Remove the chunks here, and the records of where they are.
    DropChunks,
    /// Forget the chunks in memory.
    Forget,
    /// Take the chunks off the list of what is to be healed.
    PruneHealing,
    /// Have this node delete the file and its chunks.
    Tell(NodeId),
    /// Take the deletion off the queue.
    Dequeue,
    /// Have the other nodes take it off theirs.
    SpreadDone,
    /// Nothing is left to do now.
    Over,
}

/// A queued deletion that is being carried out. It is told to every other node that is online,
/// whether that node holds one of the chunks or not, for it may know the file all the same.
#[derive(Debug)]
pub struct Drain {
    step: DrainStep,
    peers: Vec<NodeId>,
    acks: Vec<bool>,
}

pub ghost struct DrainState {
    pub step: DrainStep,
    /// The nodes to tell.
    pub peers: Seq<NodeId>,
    /// What those that were told so far answered.
    pub acks: Seq<bool>,
}

impl View for Drain {
    type V = DrainState;

    closed spec fn view(&self) -> DrainState {
        DrainState { step: self.step, peers: self.peers@, acks: self.acks@ }
    }
}

/// Everyone agreed.
pub open spec fn all_of(acks: Seq<bool>) -> bool {
    forall|i: int| 0 <= i < acks.len() ==> #[trigger] acks[i]
}

impl DrainState {
    /// The step once the peers that are left, if any, are to be told.
    pub open spec fn peer_step(peers: Seq<NodeId>, acks: Seq<bool>) -> DrainStep {
        if acks.len() < peers.len() {
            DrainStep::Tell(peers[acks.len() as int])
        } else if all_of(acks) {
            DrainStep::Dequeue
        } else {
            DrainStep::Over
        }
    }

    /// The state once the step was done, well or not. If the record could not be removed here,
    /// nobody is told; if someone did not agree, the deletion stays in the queue. What else fails
    /// does not matter.
    pub open spec fn after(self, fine: bool) -> DrainState {
        match self.step {
            DrainStep::RemoveRecord => DrainState {
                step: if fine {
                    DrainStep::RemovePath
                } else {
                    DrainStep::Over
                },
                ..self
            },
            DrainStep::RemovePath => DrainState { step: DrainStep::DropChunks, ..self },
            DrainStep::DropChunks => DrainState { step: DrainStep::Forget, ..self },
            DrainStep::Forget => DrainState { step: DrainStep::PruneHealing, ..self },
            DrainStep::PruneHealing => DrainState {
                step: Self::peer_step(self.peers, self.acks),
                ..self
            },
            DrainStep::Tell(_) => DrainState {
                step: Self::peer_step(self.peers, self.acks.push(fine)),
                acks: self.acks.push(fine),
                ..self
            },
            DrainStep::Dequeue => DrainState { step: DrainStep::SpreadDone, ..self },
            DrainStep::SpreadDone => DrainState { step: DrainStep::Over, ..self },
            DrainStep::Over => self,
        }
    }

    /// The answers are those of the peers told so far, and the step is one that can come with
    /// them.
    pub open spec fn wf(self) -> bool {
        &&& self.acks.len() <= self.peers.len()
        &&& match self.step {
            DrainStep::Tell(n) => self.acks.len() < self.peers.len() && n
                == self.peers[self.acks.len() as int],
            DrainStep::Dequeue | DrainStep::SpreadDone => self.acks.len() == self.peers.len()
                && all_of(self.acks),
            DrainStep::Over => true,
            _ => self.acks.len() == 0,
        }
    }

    /// How many steps are left at most.
    pub open spec fn left(self) -> int {
        match self.step {
            DrainStep::RemoveRecord => self.peers.len() as int + 7,
            DrainStep::RemovePath => self.peers.len() as int + 6,
            DrainStep::DropChunks => self.peers.len() as int + 5,
            DrainStep::Forget => self.peers.len() as int + 4,
            DrainStep::PruneHealing => self.peers.len() as int + 3,
            DrainStep::Tell(_) => self.peers.len() as int - self.acks.len() as int + 2,
            DrainStep::Dequeue => 2,
            DrainStep::SpreadDone => 1,
            DrainStep::Over => 0,
        }
    }
}

fn all_agree(acks: &Vec<bool>) -> (r: bool)
    ensures
        r == all_of(acks@),
{
    let mut i: usize = 0;
    while i < acks.len()
        invariant
            i <= acks@.len(),
            forall|j: int| 0 <= j < i ==> #[trigger] acks@[j],
        decreases acks@.len() - i,
    {
        if !acks[i] {
            return false;
        }
        i += 1;
    }
    true
}

impl Drain {
    /// Begins to carry out a deletion in a cluster of these nodes.
    pub fn begins(nodes: &Vec<NodeInfo>, local: NodeId) -> (d: Drain)
        ensures
            d@ == (DrainState {
                step: DrainStep::RemoveRecord,
                peers: online_peers(nodes@, local),
                acks: Seq::empty(),
            }),
            d@.wf(),
    {
        let acks: Vec<bool> = Vec::new();
        assert(acks@ =~= Seq::<bool>::empty());
        Drain { step: DrainStep::RemoveRecord, peers: broadcast_targets(nodes, local), acks }
    }

    /// What is to be done.
    pub fn step(&self) -> (r: DrainStep)
        ensures
            r == self@.step,
    {
        self.step
    }

    /// The nodes that are told of the end.
    pub fn peers(&self) -> (r: &Vec<NodeId>)
        ensures
            r@ == self@.peers,
    {
        &self.peers
    }

    fn peer_step(&self) -> (r: DrainStep)
        ensures
            r == DrainState::peer_step(self@.peers, self@.acks),
    {
        let n: usize = self.acks.len();
        if n < self.peers.len() {
            DrainStep::Tell(self.peers[n])
        } else if all_agree(&self.acks) {
            DrainStep::Dequeue
        } else {
            DrainStep::Over
        }
    }

    /// The step was done, well or not.
    pub fn done(&mut self, fine: bool)
        requires
            old(self)@.wf(),
        ensures
            final(self)@ == old(self)@.after(fine),
            final(self)@.wf(),
    {
        let ghost s0 = self@;
        let next: DrainStep = match self.step {
            DrainStep::RemoveRecord => if fine {
                DrainStep::RemovePath
            } else {
                DrainStep::Over
            },
            DrainStep::RemovePath => DrainStep::DropChunks,
            DrainStep::DropChunks => DrainStep::Forget,
            DrainStep::Forget => DrainStep::PruneHealing,
            DrainStep::PruneHealing => self.peer_step(),
            DrainStep::Tell(_) => {
                self.acks.push(fine);
                self.peer_step()
            },
            DrainStep::Dequeue => DrainStep::SpreadDone,
            DrainStep::SpreadDone => DrainStep::Over,
            DrainStep::Over => DrainStep::Over,
        };
        self.step = next;
        proof {
            draining_stays_in_order(s0, fine);
        }
    }
}

/// Whatever fails, the steps come in their order, and they come to an end.
pub proof fn draining_stays_in_order(s: DrainState, fine: bool)
    requires
        s.wf(),
    ensures
        s.after(fine).wf(),
        s.step != DrainStep::Over ==> 0 <= s.after(fine).left() < s.left(),
{
}

/// The states that a run of steps went through, each with how its step went.
pub open spec fn drain_run(states: Seq<DrainState>, fine: Seq<bool>) -> bool {
    &&& states.len() > 0
    &&& fine.len() == states.len()
    &&& states[0].step == DrainStep::RemoveRecord
    &&& states[0].acks.len() == 0
    &&& forall|i: int|
        0 <= i < states.len() - 1 ==> states[i + 1] == (#[trigger] states[i]).after(fine[i])
}

proof fn run_facts(states: Seq<DrainState>, fine: Seq<bool>, k: int)
    requires
        drain_run(states, fine),
        0 <= k < states.len(),
    ensures
        states[k].wf(),
        states[k].peers == states[0].peers,
        k > 0 && !fine[0] ==> states[k].step == DrainStep::Over,
    decreases k,
{
    if k > 0 {
        run_facts(states, fine, k - 1);
        assert(states[k] == states[k - 1].after(fine[k - 1]));
        draining_stays_in_order(states[k - 1], fine[k - 1]);
    }
}

/// Nobody is told to delete a file that is still recorded here: whoever was told, the removal of
/// the record came first, and went well.
pub proof fn no_peer_is_told_before_the_record_is_gone(
    states: Seq<DrainState>,
    fine: Seq<bool>,
    k: int,
)
    requires
        drain_run(states, fine),
        0 <= k < states.len(),
        states[k].step is Tell,
    ensures
        k > 0,
        states[0].step == DrainStep::RemoveRecord,
        fine[0],
{
    run_facts(states, fine, k);
}

/// A deletion leaves the queue only once it took effect everywhere it was told: the record is gone
/// here, and every peer agreed. Otherwise it stays, and is tried again.
pub proof fn a_deletion_leaves_the_queue_only_when_done(
    states: Seq<DrainState>,
    fine: Seq<bool>,
    k: int,
)
    requires
        drain_run(states, fine),
        0 <= k < states.len(),
        states[k].step == DrainStep::Dequeue || states[k].step == DrainStep::SpreadDone,
    ensures
        fine[0],
        states[k].acks.len() == states[0].peers.len(),
        all_of(states[k].acks),
{
    run_facts(states, fine, k);
}

} // verus!
