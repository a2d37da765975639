//! The `SettingChanged` signal of the desktop portal's settings interface.

use vstd::prelude::*;

verus! {

/// What the theme logic reads of a signal's value: the number of an integer
/// or boolean payload, by its D-Bus type, or that it is of another type.
#[derive(Debug, Clone, Copy, PartialEq, Eq, Structural)]
pub enum SignalValue {
    U8(u8),
    Bool(bool),
    I16(i16),
    U16(u16),
    I32(i32),
    U32(u32),
    I64(i64),
    U64(u64),
    Other,
}

/// The number that a payload converts to as `usize` (a boolean gives 0 or 1,
/// a negative number wraps), or `None` for a payload that is not a number.
pub open spec fn value_code(v: SignalValue) -> Option<usize> {
    match v {
        SignalValue::U8(x) => Some(x as usize),
        SignalValue::Bool(b) => Some(if b { 1usize } else { 0usize }),
        SignalValue::I16(x) => Some(x as usize),
        SignalValue::U16(x) => Some(x as usize),
        SignalValue::I32(x) => Some(x as usize),
        SignalValue::U32(x) => Some(x as usize),
        SignalValue::I64(x) => Some(x as usize),
        SignalValue::U64(x) => Some(x as usize),
        SignalValue::Other => None,
    }
}

/// The number that a payload carries, as a mathematical integer (a boolean
/// carries 0 or 1), or `None` for a payload that is not a number.
pub open spec fn payload_number(v: SignalValue) -> Option<int> {
    match v {
        SignalValue::U8(x) => Some(x as int),
        SignalValue::Bool(b) => Some(if b { 1int } else { 0int }),
        SignalValue::I16(x) => Some(x as int),
        SignalValue::U16(x) => Some(x as int),
        SignalValue::I32(x) => Some(x as int),
        SignalValue::U32(x) => Some(x as int),
        SignalValue::I64(x) => Some(x as int),
        SignalValue::U64(x) => Some(x as int),
        SignalValue::Other => None,
    }
}

/// A payload converts by value: a number that fits in `usize` keeps its
/// value, a negative number down to -2^31 becomes neither 1 nor 2 (below
/// that, a 32-bit `usize` wraps it), and a payload that is not a number has
/// no code.
pub proof fn lemma_code_by_value(v: SignalValue)
    ensures
        payload_number(v) is None <==> value_code(v) is None,
        payload_number(v) is Some && 0 <= payload_number(v)->0 <= usize::MAX ==> value_code(v) is Some
            && value_code(v)->0 == payload_number(v)->0,
        payload_number(v) is Some && -0x8000_0000 <= payload_number(v)->0 < 0 ==> value_code(v) is Some
            && value_code(v)->0 != 1 && value_code(v)->0 != 2,
{
    match v {
        SignalValue::I16(x) => {
            assert(x < 0 ==> (x as usize) != 1usize && (x as usize) != 2usize) by (bit_vector);
        },
        SignalValue::I32(x) => {
            assert(x < 0 ==> (x as usize) != 1usize && (x as usize) != 2usize) by (bit_vector);
        },
        SignalValue::I64(x) => {
            assert(-0x8000_0000i64 <= x < 0 ==> (x as usize) != 1usize && (x as usize) != 2usize)
                by (bit_vector);
        },
        _ => {},
    }
}

impl SignalValue {
    /// The payload as `usize`, as `value_code` defines it.
    pub fn code(&self) -> (r: Option<usize>)
        ensures
            r == value_code(*self),
    {
        match *self {
            SignalValue::U8(x) => Some(x as usize),
            SignalValue::Bool(b) => Some(if b { 1usize } else { 0usize }),
            SignalValue::I16(x) => Some(x as usize),
            SignalValue::U16(x) => Some(x as usize),
            SignalValue::I32(x) => Some(x as usize),
            SignalValue::U32(x) => Some(x as usize),
            SignalValue::I64(x) => Some(x as usize),
            SignalValue::U64(x) => Some(x as usize),
            SignalValue::Other => None,
        }
    }
}

/// A `SettingChanged` signal: a namespace, a key and the new value, as the
/// theme logic reads it.
#[derive(Debug)]
pub struct DBusSignal<'a> {
    namespace: &'a str,
    key: &'a str,
    value: SignalValue,
}

impl<'a> DBusSignal<'a> {
    pub closed spec fn spec_namespace(&self) -> &'a str {
        self.namespace
    }

    pub closed spec fn spec_key(&self) -> &'a str {
        self.key
    }

    pub closed spec fn spec_value(&self) -> SignalValue {
        self.value
    }

    /// Create a new signal.
    pub fn new(namespace: &'a str, key: &'a str, value: SignalValue) -> (s: Self)
        ensures
            s.spec_namespace() == namespace,
            s.spec_key() == key,
            s.spec_value() == value,
    {
        DBusSignal { namespace, key, value }
    }

    /// The namespace.
    pub fn namespace(&self) -> (r: &'a str)
        ensures
            r == self.spec_namespace(),
    {
        self.namespace
    }

    /// The key.
    pub fn key(&self) -> (r: &'a str)
        ensures
            r == self.spec_key(),
    {
        self.key
    }

    /// The value.
    pub fn value(&self) -> (r: &SignalValue)
        ensures
            *r == self.spec_value(),
    {
        &self.value
    }

    /// The signal as text, `namespace.key = shown`, where `shown` is the
    /// value as it is to be displayed.
    pub fn describe(&self, shown: &str) -> (s: String)
        ensures
            s@ == self.spec_namespace()@ + "."@ + self.spec_key()@ + " = "@ + shown@,
    {
        let mut s = String::from_str(self.namespace);
        s.append(".");
        s.append(self.key);
        s.append(" = ");
        s.append(shown);
        s
    }
}

} // verus!
