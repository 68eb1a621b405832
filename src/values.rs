use crate::gc::Gc;
use crate::number::{is_nan_bits, is_zero_bits, AvmNumber, NAN_BITS, ONE_BITS};
use vstd::prelude::*;

verus! {

#[derive(Clone, Copy, Debug, PartialEq, Eq, Structural)]
pub struct AvmUndefined;

#[derive(Clone, Copy, Debug, PartialEq, Eq, Structural)]
pub struct AvmNull;

#[derive(Clone, Copy, Debug, PartialEq, Eq, Structural)]
pub struct AvmBoolean {
    pub value: bool,
}

impl AvmBoolean {
    pub fn new(value: bool) -> (r: AvmBoolean)
        ensures
            r.value == value,
    {
        AvmBoolean { value }
    }

    pub fn value(&self) -> (r: bool)
        ensures
            r == self.value,
    {
        self.value
    }

    pub fn to_bool(&self) -> (r: bool)
        ensures
            r == self.value,
    {
        self.value
    }

    pub fn inner(&self) -> (r: bool)
        ensures
            r == self.value,
    {
        self.value
    }

    /// ToNumber of a boolean: 1 for true, +0 for false.
    pub fn to_avm_number(&self) -> (r: AvmNumber)
        ensures
            r.bits == if self.value {
                ONE_BITS
            } else {
                0u64
            },
    {
        if self.value {
            AvmNumber { bits: ONE_BITS }
        } else {
            AvmNumber { bits: 0 }
        }
    }
}

/// A handle to an object cell of the heap.
#[derive(Clone, Copy, Debug, PartialEq, Eq, Structural)]
pub struct AvmObjectRef {
    pub handle: Gc,
}

/// A value of the machine. Strings and objects live in the heap; the other
/// variants carry their payload.
#[derive(Clone, Copy, Debug, PartialEq, Eq, Structural)]
pub enum AvmValue {
    Boolean(AvmBoolean),
    Null(AvmNull),
    Number(AvmNumber),
    Object(AvmObjectRef),
    String(Gc),
    Undefined(AvmUndefined),
}

/// A value that is not an object.
#[derive(Clone, Copy, Debug, PartialEq, Eq, Structural)]
pub enum AvmPrimitive {
    Boolean(AvmBoolean),
    Null(AvmNull),
    Number(AvmNumber),
    String(Gc),
    Undefined(AvmUndefined),
}

#[derive(Clone, Copy, Debug, PartialEq, Eq, Structural)]
pub enum ToPrimitiveHint {
    Default,
    Number,
    String,
}

/// The heap handle that a value holds, if any.
pub open spec fn value_handle(v: AvmValue) -> Option<Gc> {
    match v {
        AvmValue::Object(o) => Some(o.handle),
        AvmValue::String(h) => Some(h),
        _ => None,
    }
}

/// ToBoolean of the values that need no heap: `None` for strings, whose
/// conversion is left open.
pub open spec fn to_boolean_spec(v: AvmValue) -> Option<bool> {
    match v {
        AvmValue::Undefined(_) => Some(false),
        AvmValue::Null(_) => Some(false),
        AvmValue::Boolean(b) => Some(b.value),
        AvmValue::Number(n) => Some(!(is_nan_bits(n.bits) || is_zero_bits(n.bits))),
        AvmValue::String(_) => None,
        AvmValue::Object(_) => Some(true),
    }
}

/// The legacy numeric reading: numbers as they are, booleans as 0 or 1,
/// anything else as +0.
pub open spec fn legacy_number_spec(v: AvmValue) -> u64 {
    match v {
        AvmValue::Number(n) => n.bits,
        AvmValue::Boolean(b) => if b.value {
            ONE_BITS
        } else {
            0u64
        },
        _ => 0u64,
    }
}

/// ToNumber of the values that need neither heap nor parsing.
pub open spec fn to_number_spec(v: AvmValue) -> Option<u64> {
    match v {
        AvmValue::Undefined(_) => Some(NAN_BITS),
        AvmValue::Null(_) => Some(0u64),
        AvmValue::Boolean(b) => Some(
            if b.value {
                ONE_BITS
            } else {
                0u64
            },
        ),
        AvmValue::Number(n) => Some(n.bits),
        _ => None,
    }
}

/// The value that a boolean-producing opcode pushes: a number 0 or 1 before
/// SWF 5, a boolean from SWF 5 on.
pub open spec fn legacy_boolean_spec(value: bool, swf_version: u8) -> AvmValue {
    if swf_version < 5 {
        AvmValue::Number(
            AvmNumber {
                bits: if value {
                    ONE_BITS
                } else {
                    0u64
                },
            },
        )
    } else {
        AvmValue::Boolean(AvmBoolean { value })
    }
}

impl AvmValue {
    pub fn undefined() -> (r: AvmValue)
        ensures
            r == AvmValue::Undefined(AvmUndefined),
    {
        AvmValue::Undefined(AvmUndefined)
    }

    pub fn boolean(value: bool) -> (r: AvmValue)
        ensures
            r == AvmValue::Boolean(AvmBoolean { value }),
    {
        AvmValue::Boolean(AvmBoolean::new(value))
    }

    pub fn number(value: AvmNumber) -> (r: AvmValue)
        ensures
            r == AvmValue::Number(value),
    {
        AvmValue::Number(value)
    }

    /// Pushes booleans as numbers 0/1 before SWF 5.
    pub fn legacy_boolean(value: bool, swf_version: u8) -> (r: AvmValue)
        ensures
            r == legacy_boolean_spec(value, swf_version),
    {
        if swf_version < 5 {
            if value {
                AvmValue::Number(AvmNumber { bits: ONE_BITS })
            } else {
                AvmValue::Number(AvmNumber { bits: 0 })
            }
        } else {
            AvmValue::Boolean(AvmBoolean::new(value))
        }
    }

    /// ToBoolean; `None` for a string, whose conversion is left open.
    pub fn to_avm_boolean(&self) -> (r: Option<AvmBoolean>)
        ensures
            r matches Some(b) ==> to_boolean_spec(*self) == Some(b.value),
            r is None ==> to_boolean_spec(*self) is None,
    {
        match self {
            AvmValue::Undefined(_) => Some(AvmBoolean::new(false)),
            AvmValue::Null(_) => Some(AvmBoolean::new(false)),
            AvmValue::Boolean(b) => Some(*b),
            AvmValue::Number(n) => Some(AvmBoolean::new(!(n.is_nan() || n.is_zero()))),
            AvmValue::String(_) => None,
            AvmValue::Object(_) => Some(AvmBoolean::new(true)),
        }
    }

    /// The legacy numeric reading used by the SWF 4 opcodes.
    pub fn legacy_to_avm_number(&self) -> (r: AvmNumber)
        ensures
            r.bits == legacy_number_spec(*self),
    {
        match self {
            AvmValue::Number(n) => *n,
            AvmValue::Boolean(b) => b.to_avm_number(),
            _ => AvmNumber { bits: 0 },
        }
    }

    /// ToNumber of a value that is neither a string nor an object.
    pub fn to_avm_number(&self) -> (r: Option<AvmNumber>)
        ensures
            r matches Some(n) ==> to_number_spec(*self) == Some(n.bits),
            r is None ==> to_number_spec(*self) is None,
    {
        match self {
            AvmValue::Undefined(_) => Some(AvmNumber { bits: NAN_BITS }),
            AvmValue::Null(_) => Some(AvmNumber { bits: 0 }),
            AvmValue::Boolean(b) => Some(b.to_avm_number()),
            AvmValue::Number(n) => Some(*n),
            _ => None,
        }
    }

    /// The primitive that this value is, or `None` for an object.
    pub fn as_primitive(&self) -> (r: Option<AvmPrimitive>)
        ensures
            r is None <==> self is Object,
            r matches Some(p) ==> p.to_value() == *self,
    {
        match self {
            AvmValue::Undefined(u) => Some(AvmPrimitive::Undefined(*u)),
            AvmValue::Null(n) => Some(AvmPrimitive::Null(*n)),
            AvmValue::Boolean(b) => Some(AvmPrimitive::Boolean(*b)),
            AvmValue::Number(n) => Some(AvmPrimitive::Number(*n)),
            AvmValue::String(s) => Some(AvmPrimitive::String(*s)),
            AvmValue::Object(_) => None,
        }
    }
}

impl AvmPrimitive {
    pub open spec fn to_value(self) -> AvmValue {
        match self {
            AvmPrimitive::Undefined(u) => AvmValue::Undefined(u),
            AvmPrimitive::Null(n) => AvmValue::Null(n),
            AvmPrimitive::Boolean(b) => AvmValue::Boolean(b),
            AvmPrimitive::Number(n) => AvmValue::Number(n),
            AvmPrimitive::String(s) => AvmValue::String(s),
        }
    }

    pub fn into_value(self) -> (r: AvmValue)
        ensures
            r == self.to_value(),
    {
        match self {
            AvmPrimitive::Undefined(u) => AvmValue::Undefined(u),
            AvmPrimitive::Null(n) => AvmValue::Null(n),
            AvmPrimitive::Boolean(b) => AvmValue::Boolean(b),
            AvmPrimitive::Number(n) => AvmValue::Number(n),
            AvmPrimitive::String(s) => AvmValue::String(s),
        }
    }
}

} // verus!
