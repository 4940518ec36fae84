use vstd::prelude::*;

use crate::values::RegisterValues;

verus! {

/// Standard registers store up to this many yanks worth of history. A write
/// that finds more batches than this discards the oldest one first, so at
/// most one more batch than this is ever retained.
pub const MAX_REGISTER_HISTORY_LEN: usize = 100;

/// The history a register holds after one write: the oldest batch is evicted
/// when the history has grown past the bound, and the written values are
/// appended as one new batch.
pub open spec fn reg_write(hist: Seq<Seq<Seq<char>>>, batch: Seq<Seq<char>>) -> Seq<Seq<Seq<char>>> {
    let kept = if hist.len() > MAX_REGISTER_HISTORY_LEN {
        hist.drop_first()
    } else {
        hist
    };
    kept.push(batch)
}

/// The history a register holds after one push: the value is appended to the
/// most recent batch, and a first one-value batch is created when the history
/// is empty. A push never evicts.
pub open spec fn reg_push(hist: Seq<Seq<Seq<char>>>, value: Seq<char>) -> Seq<Seq<Seq<char>>> {
    if hist.len() == 0 {
        seq![seq![value]]
    } else {
        hist.update(hist.len() - 1, hist.last().push(value))
    }
}

/// The most recent batch of a history, the only part a default read exposes;
/// empty when the history is empty.
pub open spec fn last_batch(hist: Seq<Seq<Seq<char>>>) -> Seq<Seq<char>> {
    if hist.len() == 0 {
        Seq::empty()
    } else {
        hist.last()
    }
}

/// A register history is well formed when no batch is empty and at most one
/// batch more than the bound is retained.
pub open spec fn hist_wf(hist: Seq<Seq<Seq<char>>>) -> bool {
    &&& forall|i: int| 0 <= i < hist.len() ==> hist[i].len() > 0
    &&& hist.len() <= MAX_REGISTER_HISTORY_LEN + 1
}

/// Law: a write always leaves the written values as the most recent batch,
/// and a history that respects the retention bound still respects it after
/// the write, so the retained batch count never exceeds the bound plus one
/// however many writes are made.
pub proof fn lemma_write_bounds_history(hist: Seq<Seq<Seq<char>>>, batch: Seq<Seq<char>>)
    requires
        hist.len() <= MAX_REGISTER_HISTORY_LEN + 1,
    ensures
        last_batch(reg_write(hist, batch)) == batch,
        reg_write(hist, batch).len() <= MAX_REGISTER_HISTORY_LEN + 1,
{
}

/// Law: writing a batch and then reading the same register yields exactly
/// that batch, in order, whatever history the register held before.
pub proof fn lemma_write_read_round_trip(hist: Seq<Seq<Seq<char>>>, batch: Seq<Seq<char>>)
    ensures
        last_batch(reg_write(hist, batch)) == batch,
{
}

/// Law: a push appends its value to the end of the current batch and
/// discards no prior batch: every earlier batch is kept unchanged, the batch
/// count never shrinks, and the most recent batch grows by exactly the
/// pushed value.
pub proof fn lemma_push_keeps_history(hist: Seq<Seq<Seq<char>>>, value: Seq<char>)
    ensures
        reg_push(hist, value).len() == if hist.len() == 0 { 1int } else { hist.len() as int },
        forall|i: int| 0 <= i < hist.len() - 1 ==> reg_push(hist, value)[i] == hist[i],
        last_batch(reg_push(hist, value)) == last_batch(hist).push(value),
{
    if hist.len() == 0 {
        assert(last_batch(reg_push(hist, value)) =~= last_batch(hist).push(value));
    }
}

/// Bounded history of yank batches for one register name. Batches are kept
/// oldest to newest; within a batch, values are kept in the order written.
pub struct Register {
    batches: Vec<Vec<String>>,
}

impl View for Register {
    type V = Seq<Seq<Seq<char>>>;

    closed spec fn view(&self) -> Seq<Seq<Seq<char>>> {
        self.batches.deep_view()
    }
}

impl Register {
    /// Well-formedness: the stored history respects the batch invariants.
    pub open spec fn inv(&self) -> bool {
        hist_wf(self@)
    }

    /// An empty register, holding no history yet.
    pub fn new() -> (r: Self)
        ensures
            r@ == Seq::<Seq<Seq<char>>>::empty(),
            r.inv(),
    {
        let r = Register { batches: Vec::new() };
        proof {
            assert(r@ =~= Seq::<Seq<Seq<char>>>::empty());
        }
        r
    }

    /// The number of batches currently retained.
    pub fn history_len(&self) -> (r: usize)
        ensures
            r == self@.len(),
    {
        self.batches.len()
    }

    /// Appends all `values` as one new batch, evicting the oldest batch first
    /// when the history has grown past the bound. Writing an empty batch is a
    /// contract violation, so it is excluded here.
    pub fn write(&mut self, values: Vec<String>)
        requires
            old(self).inv(),
            values@.len() > 0,
        ensures
            final(self)@ == reg_write(old(self)@, values.deep_view()),
            final(self).inv(),
    {
        if values.len() == 0 {
            // a write of zero values is a contract violation, terminated
            // abnormally rather than recorded as an empty batch
            return unreached();
        }
        if self.batches.len() > MAX_REGISTER_HISTORY_LEN {
            self.batches.remove(0);
            proof {
                assert(self.batches.deep_view() =~= old(self).batches.deep_view().drop_first());
            }
        }
        let ghost mid = self@;
        self.batches.push(values);
        proof {
            assert(self.batches.deep_view() =~= mid.push(values.deep_view()));
            assert(final(self)@ == reg_write(old(self)@, values.deep_view()));
        }
    }

    /// Appends one value to the most recent batch, creating a first one-value
    /// batch when none exists yet. Never evicts.
    pub fn push(&mut self, value: String)
        requires
            old(self).inv(),
        ensures
            final(self)@ == reg_push(old(self)@, value@),
            final(self).inv(),
    {
        match self.batches.pop() {
            None => {
                let mut batch: Vec<String> = Vec::new();
                batch.push(value);
                self.batches.push(batch);
                proof {
                    assert(self.batches.deep_view() =~~= reg_push(old(self)@, value@));
                }
            },
            Some(mut batch) => {
                batch.push(value);
                self.batches.push(batch);
                proof {
                    assert(self.batches.deep_view() =~~= reg_push(old(self)@, value@));
                }
            },
        }
    }

    /// A fresh sequence over exactly the most recent batch; empty when the
    /// register holds no history.
    pub fn values(&self) -> (r: RegisterValues)
        ensures
            r@ == last_batch(self@),
    {
        let n = self.batches.len();
        if n == 0 {
            let empty: Vec<String> = Vec::new();
            proof {
                assert(empty.deep_view() =~= last_batch(self@));
            }
            RegisterValues::new(empty)
        } else {
            let batch = self.clone_batch(n - 1);
            RegisterValues::new(batch)
        }
    }

    /// A borrowed view of the most recent batch, or none when the register
    /// holds no history.
    pub fn current_batch(&self) -> (r: Option<&Vec<String>>)
        ensures
            self@.len() == 0 ==> r is None,
            self@.len() > 0 ==> r is Some && (r->0).deep_view() == last_batch(self@),
    {
        let n = self.batches.len();
        if n == 0 {
            None
        } else {
            Some(&self.batches[n - 1])
        }
    }

    /// The single most recently appended value across the whole history,
    /// or none when the register holds no history.
    pub fn latest_value(&self) -> (r: Option<&String>)
        requires
            self.inv(),
        ensures
            self@.len() == 0 ==> r is None,
            self@.len() > 0 ==> r is Some && (r->0)@ == last_batch(self@).last(),
    {
        let n = self.batches.len();
        if n == 0 {
            None
        } else {
            let batch = &self.batches[n - 1];
            assert(self@[n - 1].len() > 0);
            Some(&batch[batch.len() - 1])
        }
    }

    /// An owned copy of the batch at one index of the stored history.
    fn clone_batch(&self, i: usize) -> (r: Vec<String>)
        requires
            i < self@.len(),
        ensures
            r.deep_view() == self@[i as int],
    {
        let batch = self.batches[i].clone();
        proof {
            let orig = self.batches@[i as int];
            assert forall|j: int| 0 <= j < batch@.len() implies batch@[j] == orig@[j] by {
                assert(cloned::<String>(orig@[j], batch@[j]));
            }
            assert(batch@ =~= orig@);
            assert(batch.deep_view() =~= orig.deep_view());
        }
        batch
    }
}

} // verus!
