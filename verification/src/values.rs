//! The tagged scalar values of the machine and the transacts that carry them.

use vstd::prelude::*;
use core::cmp::Ordering;
use crate::error::VmError;
use crate::float::{float_eq, float_lt, float_equal, float_less};

verus! {

/// A tagged scalar. The derived `==` compares tag and payload as they are
/// stored; [`GpssValue::equal`] is the equality of the values.
#[derive(Clone, Copy, Debug, PartialEq, Eq, Structural)]
pub enum GpssValue {
    Boolean(bool),
    /// A single-precision number, held as its 32-bit encoding.
    Float(u32),
    Integer(i32),
    UnsignedInteger(u32),
    /// A server, with the number of entities that occupy it.
    Facility(u8),
}

/// An entity that moves through the program, with its sixteen parameters.
#[derive(Clone, Copy, Debug, PartialEq, Eq)]
pub struct Transact {
    pub params: [GpssValue; 16],
}

/// The order of two integers.
pub open spec fn int_ordering(a: int, b: int) -> Ordering {
    if a < b {
        Ordering::Less
    } else if a == b {
        Ordering::Equal
    } else {
        Ordering::Greater
    }
}

/// The order of two single-precision numbers, where they have one.
pub open spec fn float_ordering(a: u32, b: u32) -> Option<Ordering> {
    if float_lt(a, b) {
        Some(Ordering::Less)
    } else if float_eq(a, b) {
        Some(Ordering::Equal)
    } else if float_lt(b, a) {
        Some(Ordering::Greater)
    } else {
        None
    }
}

impl GpssValue {
    /// Both values carry the same tag.
    pub open spec fn same_tag(self, other: GpssValue) -> bool {
        match (self, other) {
            (GpssValue::Boolean(_), GpssValue::Boolean(_)) => true,
            (GpssValue::Float(_), GpssValue::Float(_)) => true,
            (GpssValue::Integer(_), GpssValue::Integer(_)) => true,
            (GpssValue::UnsignedInteger(_), GpssValue::UnsignedInteger(_)) => true,
            (GpssValue::Facility(_), GpssValue::Facility(_)) => true,
            _ => false,
        }
    }

    /// Equality of two values of one tag.
    pub open spec fn equal_spec(self, other: GpssValue) -> bool {
        match (self, other) {
            (GpssValue::Float(a), GpssValue::Float(b)) => float_eq(a, b),
            _ => self == other,
        }
    }

    /// The payload of a value that is no `Float`, as an integer; `false` is 0
    /// and `true` is 1.
    pub open spec fn rank(self) -> int {
        match self {
            GpssValue::Boolean(b) => if b {
                1
            } else {
                0
            },
            GpssValue::Float(_) => 0,
            GpssValue::Integer(n) => n as int,
            GpssValue::UnsignedInteger(n) => n as int,
            GpssValue::Facility(n) => n as int,
        }
    }

    /// The order of two values of one tag; `None` where the tags differ or a
    /// NaN takes part. `false` is below `true`.
    pub open spec fn ordering(self, other: GpssValue) -> Option<Ordering> {
        match (self, other) {
            (GpssValue::Float(a), GpssValue::Float(b)) => float_ordering(a, b),
            _ => if self.same_tag(other) {
                Some(int_ordering(self.rank(), other.rank()))
            } else {
                None
            },
        }
    }

    /// The value that fills unused cells.
    pub fn empty() -> (v: GpssValue)
        ensures
            v == GpssValue::Boolean(false),
    {
        GpssValue::Boolean(false)
    }

    /// The payload of a `Boolean`.
    pub fn to_bool(self) -> (r: Result<bool, VmError>)
        ensures
            r == (match self {
                GpssValue::Boolean(b) => Ok::<bool, VmError>(b),
                _ => Err::<bool, VmError>(VmError::TypeMismatch),
            }),
    {
        match self {
            GpssValue::Boolean(b) => Ok(b),
            _ => Err(VmError::TypeMismatch),
        }
    }

    /// The payload of an `UnsignedInteger`.
    pub fn to_u32(self) -> (r: Result<u32, VmError>)
        ensures
            r == (match self {
                GpssValue::UnsignedInteger(n) => Ok::<u32, VmError>(n),
                _ => Err::<u32, VmError>(VmError::TypeMismatch),
            }),
    {
        match self {
            GpssValue::UnsignedInteger(n) => Ok(n),
            _ => Err(VmError::TypeMismatch),
        }
    }

    /// The payload of an `UnsignedInteger`, as an index.
    pub fn to_usize(self) -> (r: Result<usize, VmError>)
        ensures
            r == (match self {
                GpssValue::UnsignedInteger(n) => Ok::<usize, VmError>(n as usize),
                _ => Err::<usize, VmError>(VmError::TypeMismatch),
            }),
    {
        match self {
            GpssValue::UnsignedInteger(n) => Ok(n as usize),
            _ => Err(VmError::TypeMismatch),
        }
    }

    /// The encoding of a `Float`.
    pub fn to_float_bits(self) -> (r: Result<u32, VmError>)
        ensures
            r == (match self {
                GpssValue::Float(bits) => Ok::<u32, VmError>(bits),
                _ => Err::<u32, VmError>(VmError::TypeMismatch),
            }),
    {
        match self {
            GpssValue::Float(bits) => Ok(bits),
            _ => Err(VmError::TypeMismatch),
        }
    }

    /// Whether two values of one tag are equal; values of different tags are
    /// not compared.
    pub fn equal(self, other: GpssValue) -> (r: Result<bool, VmError>)
        ensures
            self.same_tag(other) ==> r == Ok::<bool, VmError>(self.equal_spec(other)),
            !self.same_tag(other) ==> r == Err::<bool, VmError>(VmError::TypeMismatch),
    {
        match (self, other) {
            (GpssValue::Boolean(a), GpssValue::Boolean(b)) => Ok(a == b),
            (GpssValue::Float(a), GpssValue::Float(b)) => Ok(float_equal(a, b)),
            (GpssValue::Integer(a), GpssValue::Integer(b)) => Ok(a == b),
            (GpssValue::UnsignedInteger(a), GpssValue::UnsignedInteger(b)) => Ok(a == b),
            (GpssValue::Facility(a), GpssValue::Facility(b)) => Ok(a == b),
            _ => Err(VmError::TypeMismatch),
        }
    }

    /// The order of two values of one tag. Values of different tags, and
    /// numbers that have no order, are not compared.
    pub fn compare(self, other: GpssValue) -> (r: Result<Ordering, VmError>)
        ensures
            r == (match self.ordering(other) {
                Some(o) => Ok::<Ordering, VmError>(o),
                None => Err::<Ordering, VmError>(VmError::TypeMismatch),
            }),
    {
        match (self, other) {
            (GpssValue::Boolean(a), GpssValue::Boolean(b)) => {
                if !a && b {
                    Ok(Ordering::Less)
                } else if a == b {
                    Ok(Ordering::Equal)
                } else {
                    Ok(Ordering::Greater)
                }
            },
            (GpssValue::Float(a), GpssValue::Float(b)) => {
                if float_less(a, b) {
                    Ok(Ordering::Less)
                } else if float_equal(a, b) {
                    Ok(Ordering::Equal)
                } else if float_less(b, a) {
                    Ok(Ordering::Greater)
                } else {
                    Err(VmError::TypeMismatch)
                }
            },
            (GpssValue::Integer(a), GpssValue::Integer(b)) => {
                if a < b {
                    Ok(Ordering::Less)
                } else if a == b {
                    Ok(Ordering::Equal)
                } else {
                    Ok(Ordering::Greater)
                }
            },
            (GpssValue::UnsignedInteger(a), GpssValue::UnsignedInteger(b)) => {
                if a < b {
                    Ok(Ordering::Less)
                } else if a == b {
                    Ok(Ordering::Equal)
                } else {
                    Ok(Ordering::Greater)
                }
            },
            (GpssValue::Facility(a), GpssValue::Facility(b)) => {
                if a < b {
                    Ok(Ordering::Less)
                } else if a == b {
                    Ok(Ordering::Equal)
                } else {
                    Ok(Ordering::Greater)
                }
            },
            _ => Err(VmError::TypeMismatch),
        }
    }

    /// Whether a facility is occupied; `None` for what is no facility.
    pub fn is_facility_busy(self) -> (r: Option<bool>)
        ensures
            r == (match self {
                GpssValue::Facility(count) => Some(count > 0),
                _ => None::<bool>,
            }),
    {
        match self {
            GpssValue::Facility(count) => Some(count != 0),
            _ => None,
        }
    }
}

impl Transact {
    /// The parameters of a transact whose first parameter is `first` and
    /// whose others are empty.
    pub open spec fn params_with_first(first: GpssValue) -> Seq<GpssValue> {
        Seq::new(
            16,
            |i: int|
                if i == 0 {
                    first
                } else {
                    GpssValue::Boolean(false)
                },
        )
    }

    /// The transact with every parameter empty.
    pub open spec fn empty_spec() -> Transact {
        Transact {
            params: vstd::array::spec_array_fill_for_copy_type::<GpssValue, 16>(
                GpssValue::Boolean(false),
            ),
        }
    }

    /// The transact whose first parameter holds `number` and whose others
    /// are empty.
    pub open spec fn generated_spec(number: i32) -> Transact {
        Transact {
            params: vstd::array::spec_array_update(
                Transact::empty_spec().params,
                0,
                GpssValue::Integer(number),
            ),
        }
    }

    /// A transact with every parameter empty.
    pub fn empty() -> (t: Transact)
        ensures
            t == Transact::empty_spec(),
            t.params@ == Seq::new(16, |i: int| GpssValue::Boolean(false)),
    {
        Transact { params: [GpssValue::Boolean(false);16] }
    }

    /// A freshly generated transact: its first parameter holds `number`.
    pub fn generated(number: i32) -> (t: Transact)
        ensures
            t == Transact::generated_spec(number),
            t.params@ == Transact::params_with_first(GpssValue::Integer(number)),
    {
        let mut t = Transact::empty();
        t.params[0] = GpssValue::Integer(number);
        t
    }
}

} // verus!
