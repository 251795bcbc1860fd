//! A unit-tagged wrapper around a machine number: arithmetic is only
//! offered between values of the same unit, and the tag costs nothing at
//! run time.

use vstd::prelude::*;

verus! {

/// A number carrying a phantom unit tag `TP`. Arithmetic stays within one
/// tag; values of different tags cannot meet in an operation.
#[derive(Debug, Clone, Copy)]
pub struct UniqueNumber<TP> where TP: Copy + Default {
    /// The unit tag; carries no data.
    __type: TP,
    /// The wrapped value.
    __value: u32,
}

impl<TP> UniqueNumber<TP> where TP: Copy + Default {
    /// Wraps a value in the unit tag.
    pub fn new(value: u32) -> (r: Self)
        ensures
            r.value_spec() == value,
    {
        Self { __type: Default::default(), __value: value }
    }

    /// The wrapped value.
    pub fn value(&self) -> (r: u32)
        ensures
            r == self.value_spec(),
    {
        self.__value
    }

    /// The sum of two same-unit numbers.
    pub fn add(self, rhs: Self) -> (r: Self)
        requires
            self.value_spec() + rhs.value_spec() <= u32::MAX,
        ensures
            r.value_spec() == self.value_spec() + rhs.value_spec(),
    {
        Self { __type: self.__type, __value: self.__value + rhs.__value }
    }

    /// The difference of two same-unit numbers.
    pub fn sub(self, rhs: Self) -> (r: Self)
        requires
            rhs.value_spec() <= self.value_spec(),
        ensures
            r.value_spec() == self.value_spec() - rhs.value_spec(),
    {
        Self { __type: self.__type, __value: self.__value - rhs.__value }
    }

    /// The product of two same-unit numbers.
    pub fn mul(self, rhs: Self) -> (r: Self)
        requires
            self.value_spec() * rhs.value_spec() <= u32::MAX,
        ensures
            r.value_spec() == self.value_spec() * rhs.value_spec(),
    {
        Self { __type: self.__type, __value: self.__value * rhs.__value }
    }
}

/// The unit tag of weights in grams.
#[derive(Debug, Clone, Copy)]
pub struct WeightGramType;

impl Default for WeightGramType {
    /// The tag carries no data; its default is itself.
    fn default() -> (r: Self)
        ensures
            r == (WeightGramType {  }),
    {
        WeightGramType
    }
}

/// A weight in grams.
pub type WeightGram = UniqueNumber<WeightGramType>;

impl UniqueNumber<WeightGramType> {
    /// A weight scaled by a bare factor.
    pub fn scale(self, rhs: u32) -> (r: WeightGram)
        requires
            self.value_spec() * rhs <= u32::MAX,
        ensures
            r.value_spec() == self.value_spec() * rhs,
    {
        Self { __type: self.__type, __value: self.__value * rhs }
    }
}

impl<TP> UniqueNumber<TP> where TP: Copy + Default {
    /// The wrapped value, as specifications see it.
    pub closed spec fn value_spec(self) -> u32 {
        self.__value
    }
}

/// A weight scaled by a bare factor on the left.
pub fn scale_weight(lhs: u32, rhs: WeightGram) -> (r: WeightGram)
    requires
        lhs * rhs.value_spec() <= u32::MAX,
    ensures
        r.value_spec() == lhs * rhs.value_spec(),
{
    proof {
        vstd::arithmetic::mul::lemma_mul_is_commutative(lhs as int, rhs.value_spec() as int);
    }
    WeightGram::new(rhs.value() * lhs)
}

} // verus!
