use vstd::prelude::*;

verus! {

/// A finite sequence of text values, the result type of every register read.
///
/// It supports consumption from the front, consumption from the back, and an
/// always-current remaining-length query, so callers can cheaply fetch the
/// first or last value without walking the whole sequence. Each instance is
/// independent and owns its values.
pub struct RegisterValues {
    values: Vec<String>,
}

impl View for RegisterValues {
    type V = Seq<Seq<char>>;

    closed spec fn view(&self) -> Seq<Seq<char>> {
        self.values.deep_view()
    }
}

impl RegisterValues {
    /// Wraps a list of owned values as a sequence, in order.
    pub fn new(values: Vec<String>) -> (r: Self)
        ensures
            r@ == values.deep_view(),
    {
        RegisterValues { values }
    }

    /// The number of values not yet consumed.
    pub fn remaining_length(&self) -> (r: usize)
        ensures
            r == self@.len(),
    {
        self.values.len()
    }

    /// Removes and returns the first remaining value, or `None` when empty.
    pub fn next(&mut self) -> (r: Option<String>)
        ensures
            old(self)@.len() == 0 ==> r is None && final(self)@ == old(self)@,
            old(self)@.len() > 0 ==> {
                &&& r is Some
                &&& (r->0)@ == old(self)@[0]
                &&& final(self)@ == old(self)@.drop_first()
            },
    {
        if self.values.len() == 0 {
            None
        } else {
            let v = self.values.remove(0);
            proof {
                assert(self@ =~= old(self)@.drop_first());
            }
            Some(v)
        }
    }

    /// Removes and returns the last remaining value, or `None` when empty.
    pub fn next_from_end(&mut self) -> (r: Option<String>)
        ensures
            old(self)@.len() == 0 ==> r is None && final(self)@ == old(self)@,
            old(self)@.len() > 0 ==> {
                &&& r is Some
                &&& (r->0)@ == old(self)@.last()
                &&& final(self)@ == old(self)@.drop_last()
            },
    {
        let r = self.values.pop();
        proof {
            if old(self)@.len() > 0 {
                assert(self@ =~= old(self)@.drop_last());
            } else {
                assert(self@ =~= old(self)@);
            }
        }
        r
    }
}

} // verus!
