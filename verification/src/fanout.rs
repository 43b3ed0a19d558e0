//! Output fan-out bookkeeping: the set of broadcast readers, the tee
//! policy, and dead-reader pruning.  The surrounding process owns the
//! actual connections; it registers each accepted reader here under an
//! identifier, asks where a line must go, reports which writes failed, and
//! prunes accordingly.  Readers are only ever removed after a full
//! broadcast pass, never during one.

use vstd::prelude::*;

verus! {

/// The readers that survive a broadcast pass: those whose write did not
/// fail, in their original order.
pub open spec fn spec_surviving(readers: Seq<u64>, failed: Seq<bool>) -> Seq<u64>
    decreases readers.len(),
{
    if readers.len() == 0 {
        Seq::empty()
    } else {
        spec_surviving(readers.drop_last(), failed.drop_last()) + (if failed[readers.len() - 1] {
            Seq::<u64>::empty()
        } else {
            seq![readers.last()]
        })
    }
}

/// The fan-out of published lines: the primary destination (standard
/// output) plus zero or more registered broadcast readers, with the tee
/// policy fixed at startup.
pub struct OutputFanout {
    /// Write to standard output even when a secondary destination exists.
    pub tee: bool,
    /// A secondary broadcast socket is configured.
    pub has_secondary: bool,
    /// Identifiers of the currently registered broadcast readers.
    pub readers: Vec<u64>,
}

/// Whether a published line goes to standard output: always, unless a
/// secondary destination exists and tee is disabled.
pub open spec fn spec_writes_stdout(f: OutputFanout) -> bool {
    !f.has_secondary || f.tee
}

impl OutputFanout {
    /// A fresh fan-out with no readers.  Tee is only meaningful with a
    /// secondary destination.
    pub fn new(has_secondary: bool, tee: bool) -> (r: Self)
        requires
            tee ==> has_secondary,
        ensures
            r.tee == tee,
            r.has_secondary == has_secondary,
            r.readers@ == Seq::<u64>::empty(),
    {
        OutputFanout { tee, has_secondary, readers: Vec::new() }
    }

    /// Register one accepted broadcast reader.
    pub fn accept_reader(&mut self, id: u64)
        ensures
            final(self).readers@ == old(self).readers@.push(id),
            final(self).tee == old(self).tee,
            final(self).has_secondary == old(self).has_secondary,
    {
        self.readers.push(id);
    }

    /// How many broadcast readers are registered.
    pub fn reader_count(&self) -> (r: usize)
        ensures
            r == self.readers@.len(),
    {
        self.readers.len()
    }

    /// Whether a published line goes to standard output.
    pub fn writes_to_stdout(&self) -> (r: bool)
        ensures
            r == spec_writes_stdout(*self),
    {
        !self.has_secondary || self.tee
    }

    /// Whether a published line goes to the broadcast readers.
    pub fn writes_to_readers(&self) -> (r: bool)
        ensures
            r == self.has_secondary,
    {
        self.has_secondary
    }

    /// Drop the readers whose write failed, keeping the others in order.
    /// Called once after a full broadcast pass.
    pub fn prune_failed(&mut self, failed: &Vec<bool>)
        requires
            failed@.len() == old(self).readers@.len(),
        ensures
            final(self).readers@ == spec_surviving(old(self).readers@, failed@),
            final(self).tee == old(self).tee,
            final(self).has_secondary == old(self).has_secondary,
    {
        let mut kept: Vec<u64> = Vec::new();
        let mut i: usize = 0;
        let n = self.readers.len();
        proof {
            assert(self.readers@.take(0) =~= Seq::<u64>::empty());
            assert(failed@.take(0) =~= Seq::<bool>::empty());
            assert(kept@ =~= spec_surviving(self.readers@.take(0), failed@.take(0)));
        }
        while i < n
            invariant
                *self == *old(self),
                n == self.readers@.len(),
                failed@.len() == n,
                i <= n,
                kept@ == spec_surviving(self.readers@.take(i as int), failed@.take(i as int)),
            decreases n - i,
        {
            proof {
                assert(self.readers@.take(i + 1).drop_last() =~= self.readers@.take(i as int));
                assert(failed@.take(i + 1).drop_last() =~= failed@.take(i as int));
                assert(self.readers@.take(i + 1).last() == self.readers@[i as int]);
                assert(failed@.take(i + 1)[i as int] == failed@[i as int]);
            }
            if !failed[i] {
                kept.push(self.readers[i]);
            }
            proof {
                assert(kept@ =~= spec_surviving(
                    self.readers@.take(i + 1),
                    failed@.take(i + 1),
                ));
            }
            i = i + 1;
        }
        proof {
            assert(self.readers@.take(n as int) =~= self.readers@);
            assert(failed@.take(n as int) =~= failed@);
        }
        self.readers = kept;
    }

    /// Forget every reader, as the shutdown path does before the process
    /// releases the secondary socket.
    pub fn clear_readers(&mut self)
        ensures
            final(self).readers@ == Seq::<u64>::empty(),
            final(self).tee == old(self).tee,
            final(self).has_secondary == old(self).has_secondary,
    {
        self.readers.clear();
    }
}

} // verus!
