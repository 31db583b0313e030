//! Immutable materialized values.
//!
//! An array is a shape, a hardware identity and a buffer of exactly one
//! rational value per element. Arrays are produced by operators during
//! calculation and never mutated; copying an array copies its buffer.

use vstd::prelude::*;

use crate::buffer::Buffer;
use crate::error::Error;
use crate::hardware::Hardware;
use crate::rational::{rat_wf, rats_of, rats_wf, Rat, Rational};
use crate::shape::{count_of, Shape};

verus! {

/// Mathematical content of an [`Array`]: shape, hardware identity and
/// element values.
#[verifier::ext_equal]
pub struct ArrayModel {
    pub shape: Seq<usize>,
    pub hw: u64,
    pub vals: Seq<Rat>,
}

/// A well-formed array holds exactly one well-formed value per element of
/// its shape; since the values are materialized, their number fits in a
/// machine word.
pub open spec fn arr_wf(a: ArrayModel) -> bool {
    &&& a.vals.len() == count_of(a.shape)
    &&& a.vals.len() <= usize::MAX
    &&& rats_wf(a.vals)
}

/// An immutable materialized value: shape, hardware identity and one
/// rational per element.
#[derive(Debug)]
pub struct Array {
    shape: Shape,
    buffer: Buffer,
}

impl View for Array {
    type V = ArrayModel;

    closed spec fn view(&self) -> ArrayModel {
        ArrayModel { shape: self.shape@, hw: self.buffer@.hw, vals: self.buffer@.vals }
    }
}

impl Array {
    /// An array assembled from its parts. The buffer must hold exactly one
    /// well-formed value per element.
    pub(crate) fn from_parts(shape: Shape, buffer: Buffer) -> (r: Array)
        requires
            buffer@.vals.len() == count_of(shape@),
            rats_wf(buffer@.vals),
        ensures
            r@.shape == shape@,
            r@.hw == buffer@.hw,
            r@.vals == buffer@.vals,
            arr_wf(r@),
    {
        let stored: usize = buffer.size();
        proof {
            assert(buffer@.vals.len() == stored as nat);
        }
        Array { shape, buffer }
    }

    /// A rank-zero array holding one value.
    pub fn scalar(hardware: &Hardware, value: Rational) -> (r: Array)
        requires
            rat_wf(value@),
        ensures
            r@.shape == Seq::<usize>::empty(),
            r@.hw == hardware@,
            r@.vals == seq![value@],
            arr_wf(r@),
    {
        let mut values: Vec<Rational> = Vec::new();
        values.push(value);
        proof {
            assert(rats_of(values@) =~= seq![value@]);
        }
        let r = Array { shape: Shape::scalar(), buffer: Buffer::from_values(hardware.id(), values) };
        r
    }

    /// An array of the given shape with every element equal to `value`.
    /// Fails with `ShapeMismatch` when the element count does not fit in a
    /// machine word.
    pub fn constant(hardware: &Hardware, shape: Shape, value: Rational) -> (r: Result<
        Array,
        Error,
    >)
        requires
            rat_wf(value@),
        ensures
            r matches Ok(a) ==> {
                &&& a@.shape == shape@
                &&& a@.hw == hardware@
                &&& a@.vals == Seq::new(count_of(shape@), |i: int| value@)
                &&& arr_wf(a@)
            },
            r is Ok <==> count_of(shape@) <= usize::MAX,
            r is Err ==> r == Err::<Array, Error>(Error::ShapeMismatch),
    {
        match shape.num_elements() {
            None => Err(Error::ShapeMismatch),
            Some(count) => {
                let buffer = Buffer::filled(hardware.id(), count, value);
                let r = Array { shape, buffer };
                Ok(r)
            },
        }
    }

    /// The shape of this array.
    pub fn shape(&self) -> (r: &Shape)
        ensures
            r@ == self@.shape,
    {
        &self.shape
    }

    /// The identity of the hardware instance this array lives on.
    pub fn hardware(&self) -> (r: u64)
        ensures
            r == self@.hw,
    {
        self.buffer.hardware()
    }

    /// The buffer holding the element values.
    pub fn buffer(&self) -> (r: &Buffer)
        ensures
            r@.hw == self@.hw,
            r@.vals == self@.vals,
    {
        &self.buffer
    }

    /// The single value of a rank-zero array, or `ShapeMismatch` for any
    /// other rank.
    pub fn to_scalar(&self) -> (r: Result<Rational, Error>)
        requires
            arr_wf(self@),
        ensures
            r matches Ok(v) ==> self@.shape.len() == 0 && v@ == self@.vals[0],
            r is Ok <==> self@.shape.len() == 0,
            r is Err ==> r == Err::<Rational, Error>(Error::ShapeMismatch),
    {
        if self.shape.rank() == 0 {
            proof {
                assert(count_of(self@.shape) == 1);
            }
            Ok(self.buffer.value_at(0))
        } else {
            Err(Error::ShapeMismatch)
        }
    }

    /// A copy of every element value, in order.
    pub fn get_values(&self) -> (r: Vec<Rational>)
        ensures
            rats_of(r@) == self@.vals,
    {
        self.buffer.values()
    }
}

impl Clone for Array {
    /// A copy with fresh storage; the copied array is never aliased.
    fn clone(&self) -> (r: Array)
        ensures
            r@ == self@,
    {
        let r = Array { shape: self.shape.clone(), buffer: self.buffer.clone() };
        proof {
            assert(r@ =~= self@);
        }
        r
    }
}

} // verus!
