//! Value storage bound to one hardware instance.
//!
//! A buffer owns the element values of one array and remembers the identity
//! of the hardware instance they live on. Ownership is exclusive: copying a
//! buffer always produces fresh storage, never an alias.

use vstd::prelude::*;

use crate::rational::{rats_of, Rat, Rational};

verus! {

/// Mathematical content of a [`Buffer`]: the hardware identity and the
/// stored values.
#[verifier::ext_equal]
pub struct BufferModel {
    pub hw: u64,
    pub vals: Seq<Rat>,
}

/// Storage for element values, bound to one hardware identity.
#[derive(Debug)]
pub struct Buffer {
    hardware: u64,
    values: Vec<Rational>,
}

impl View for Buffer {
    type V = BufferModel;

    closed spec fn view(&self) -> BufferModel {
        BufferModel { hw: self.hardware, vals: rats_of(self.values@) }
    }
}

impl Buffer {
    /// A buffer holding the given values on the given hardware identity.
    pub fn from_values(hardware: u64, values: Vec<Rational>) -> (r: Buffer)
        ensures
            r@.hw == hardware,
            r@.vals == rats_of(values@),
    {
        Buffer { hardware, values }
    }

    /// A buffer of `count` copies of `value`.
    pub fn filled(hardware: u64, count: usize, value: Rational) -> (r: Buffer)
        ensures
            r@.hw == hardware,
            r@.vals == Seq::new(count as nat, |i: int| value@),
    {
        let mut values: Vec<Rational> = Vec::new();
        let mut i: usize = 0;
        while i < count
            invariant
                0 <= i <= count,
                values@.len() == i,
                forall|k: int| 0 <= k < i ==> #[trigger] values@[k] == value,
            decreases count - i,
        {
            values.push(value);
            i = i + 1;
        }
        let r = Buffer { hardware, values };
        proof {
            assert(r@.vals =~= Seq::new(count as nat, |i: int| value@));
        }
        r
    }

    /// The hardware identity this buffer is bound to.
    pub fn hardware(&self) -> (r: u64)
        ensures
            r == self@.hw,
    {
        self.hardware
    }

    /// The number of stored values.
    pub fn size(&self) -> (r: usize)
        ensures
            r as nat == self@.vals.len(),
    {
        self.values.len()
    }

    /// One stored value.
    pub fn value_at(&self, i: usize) -> (r: Rational)
        requires
            i < self@.vals.len(),
        ensures
            r@ == self@.vals[i as int],
    {
        self.values[i]
    }

    /// The stored values, borrowed in place.
    pub fn values_ref(&self) -> (r: &Vec<Rational>)
        ensures
            rats_of(r@) == self@.vals,
    {
        &self.values
    }

    /// A copy of every stored value, in order.
    pub fn values(&self) -> (r: Vec<Rational>)
        ensures
            rats_of(r@) == self@.vals,
    {
        let n: usize = self.values.len();
        let mut out: Vec<Rational> = Vec::new();
        let mut i: usize = 0;
        while i < n
            invariant
                0 <= i <= n,
                n == self.values@.len(),
                out@.len() == i,
                forall|k: int| 0 <= k < i ==> #[trigger] out@[k] == self.values@[k],
            decreases n - i,
        {
            out.push(self.values[i]);
            i = i + 1;
        }
        proof {
            assert(rats_of(out@) =~= self@.vals);
        }
        out
    }
}

impl Clone for Buffer {
    /// Fresh storage with the same values on the same hardware identity.
    fn clone(&self) -> (r: Buffer)
        ensures
            r@ == self@,
    {
        let r = Buffer { hardware: self.hardware, values: self.values() };
        proof {
            assert(r@ =~= self@);
        }
        r
    }
}

} // verus!
