use vstd::prelude::*;

verus! {

/// How many acknowledgements of `op` are in `acks`.
pub open spec fn ack_count(acks: Seq<(u64, u64)>, op: u64) -> nat
    decreases acks.len(),
{
    if acks.len() == 0 {
        0
    } else {
        ack_count(acks.drop_last(), op) + if acks.last().0 == op {
            1nat
        } else {
            0nat
        }
    }
}

/// The majority of a group of `n`.
pub open spec fn majority_of(n: nat) -> nat {
    n / 2 + 1
}

/// Acknowledgements of operation numbers, as (operation number, sender) pairs.
pub struct QuorumTracker {
    group_size: u64,
    acks: Vec<(u64, u64)>,
}

impl View for QuorumTracker {
    type V = Seq<(u64, u64)>;

    closed spec fn view(&self) -> Seq<(u64, u64)> {
        self.acks@
    }
}

impl QuorumTracker {
    pub closed spec fn group(&self) -> nat {
        self.group_size as nat
    }

    pub fn new(group_size: u64) -> (r: QuorumTracker)
        ensures
            r@ == Seq::<(u64, u64)>::empty(),
            r.group() == group_size,
    {
        QuorumTracker { group_size, acks: Vec::new() }
    }

    /// Forgets every acknowledgement.
    pub fn clear(&mut self)
        ensures
            final(self)@ == Seq::<(u64, u64)>::empty(),
            final(self).group() == old(self).group(),
    {
        self.acks = Vec::new();
    }

    /// The majority of the group.
    pub fn quorum(&self) -> (r: u64)
        ensures
            r == majority_of(self.group()),
    {
        self.group_size / 2 + 1
    }

    /// Records that `sender` acknowledged `op_number`. True exactly when this
    /// acknowledgement is the one that makes a majority; a repeated one changes nothing.
    pub fn register_ack(&mut self, op_number: u64, sender: u64) -> (r: bool)
        ensures
            final(self).group() == old(self).group(),
            old(self)@.contains((op_number, sender)) ==> final(self)@ == old(self)@ && !r,
            !old(self)@.contains((op_number, sender)) ==> final(self)@ == old(self)@.push(
                (op_number, sender),
            ) && r == (ack_count(old(self)@, op_number) + 1 == majority_of(old(self).group())),
    {
        let mut i: usize = 0;
        let mut count: u64 = 0;
        while i < self.acks.len()
            invariant
                i <= self.acks.len(),
                count == ack_count(self@.take(i as int), op_number),
                count <= i,
                !self@.take(i as int).contains((op_number, sender)),
            decreases self.acks.len() - i,
        {
            assert(self@.take(i + 1).drop_last() =~= self@.take(i as int));
            let a = self.acks[i];
            if a.0 == op_number && a.1 == sender {
                assert(self@[i as int] == (op_number, sender));
                return false;
            }
            if a.0 == op_number {
                count = count + 1;
            }
            i = i + 1;
            assert(forall|j: int| 0 <= j < i - 1 ==> self@.take(i as int)[j] == self@.take(i - 1)[j]);
        }
        assert(self@.take(i as int) =~= self@);
        let ghost before = self@;
        self.acks.push((op_number, sender));
        assert(self@.drop_last() =~= before);
        count == self.group_size / 2
    }
}

} // verus!
