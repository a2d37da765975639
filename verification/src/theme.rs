//! The light/dark theme mode announced by the desktop, and why a signal may
//! not announce one.

use vstd::prelude::*;
use crate::dbus::{lemma_code_by_value, payload_number, value_code, DBusSignal, SignalValue};
use crate::text::text_eq;

verus! {

/// The settings namespace that carries the colour scheme.
pub const NAMESPACE: &'static str = "org.freedesktop.appearance";

/// The settings key of the colour scheme.
pub const KEY: &'static str = "color-scheme";

/// Parsed theme mode.
#[derive(Debug, Clone, Copy, PartialEq, Eq, Structural)]
pub enum ThemeMode {
    /// Light theme.
    Light,
    /// Dark theme.
    Dark,
}

/// The number by which the desktop announces a mode.
pub open spec fn mode_code(mode: ThemeMode) -> usize {
    match mode {
        ThemeMode::Light => 2usize,
        ThemeMode::Dark => 1usize,
    }
}

/// The name of a mode, as it is shown to the user.
pub open spec fn mode_name(mode: ThemeMode) -> Seq<char> {
    match mode {
        ThemeMode::Light => "Light"@,
        ThemeMode::Dark => "Dark"@,
    }
}

/// Why a signal announces no theme mode.
#[derive(Debug, Clone, Copy)]
pub enum ThemeModeError<'a> {
    /// Invalid namespace.
    InvalidNameSpace(&'a str),
    /// Invalid key.
    InvalidKey(&'a str),
    /// Invalid value.
    InvalidValue,
}

/// The text that describes an error to the user.
pub open spec fn error_message(e: ThemeModeError) -> Seq<char> {
    match e {
        ThemeModeError::InvalidNameSpace(ns) => "Invalid Namespace: "@ + ns@ + " (expecting \""@
            + NAMESPACE@ + "\")"@,
        ThemeModeError::InvalidKey(key) => "Invalid Key: "@ + key@ + " (expecting \""@ + KEY@
            + "\")"@,
        ThemeModeError::InvalidValue => "Invalid Value (expecting \"2/1\")"@,
    }
}

/// The mode that a payload announces: the number 2 is Light, 1 is Dark, and
/// any other number or a payload that is not a number is invalid.
pub open spec fn mode_of_value<'a>(v: SignalValue) -> Result<ThemeMode, ThemeModeError<'a>> {
    match value_code(v) {
        Some(c) => if c == 2 {
            Ok(ThemeMode::Light)
        } else if c == 1 {
            Ok(ThemeMode::Dark)
        } else {
            Err(ThemeModeError::InvalidValue)
        },
        None => Err(ThemeModeError::InvalidValue),
    }
}

/// A payload announces a mode exactly when it carries that mode's number, in
/// any of the integer types or as a boolean.
pub proof fn lemma_mode_code_round_trip<'a>(mode: ThemeMode, v: SignalValue)
    ensures
        value_code(v) == Some(mode_code(mode)) <==> mode_of_value::<'a>(v) == Ok::<
            ThemeMode,
            ThemeModeError<'a>,
        >(mode),
{
}

/// The number 2, in any integer type, announces Light and the number 1 (or
/// `true`) announces Dark; any other number that fits in `usize`, any
/// negative number down to -2^31, and a payload that is not a number are
/// invalid.
pub proof fn lemma_mode_by_number<'a>(v: SignalValue)
    ensures
        payload_number(v) == Some(2int) ==> mode_of_value::<'a>(v) == Ok::<
            ThemeMode,
            ThemeModeError<'a>,
        >(ThemeMode::Light),
        payload_number(v) == Some(1int) ==> mode_of_value::<'a>(v) == Ok::<
            ThemeMode,
            ThemeModeError<'a>,
        >(ThemeMode::Dark),
        payload_number(v) matches Some(n) && ((-0x8000_0000 <= n < 0) || (0 <= n <= usize::MAX && n
            != 1 && n != 2))
            ==> mode_of_value::<'a>(v) == Err::<ThemeMode, ThemeModeError<'a>>(
            ThemeModeError::InvalidValue,
        ),
        payload_number(v) is None ==> mode_of_value::<'a>(v) == Err::<
            ThemeMode,
            ThemeModeError<'a>,
        >(ThemeModeError::InvalidValue),
{
    lemma_code_by_value(v);
}

impl ThemeMode {
    /// The number by which the desktop announces this mode.
    pub fn code(&self) -> (c: usize)
        ensures
            c == mode_code(*self),
            *self == ThemeMode::Light ==> c == 2,
            *self == ThemeMode::Dark ==> c == 1,
    {
        match self {
            ThemeMode::Light => 2,
            ThemeMode::Dark => 1,
        }
    }

    /// The name of this mode.
    pub fn name(&self) -> (s: String)
        ensures
            s@ == mode_name(*self),
            *self == ThemeMode::Light ==> s@ == "Light"@,
            *self == ThemeMode::Dark ==> s@ == "Dark"@,
    {
        match self {
            ThemeMode::Light => String::from_str("Light"),
            ThemeMode::Dark => String::from_str("Dark"),
        }
    }

    /// The mode that a payload of the colour-scheme key announces.
    pub fn from_value<'a>(value: SignalValue) -> (r: Result<ThemeMode, ThemeModeError<'a>>)
        ensures
            r == mode_of_value::<'a>(value),
    {
        match value.code() {
            Some(c) => if c == 2 {
                Ok(ThemeMode::Light)
            } else if c == 1 {
                Ok(ThemeMode::Dark)
            } else {
                Err(ThemeModeError::InvalidValue)
            },
            None => Err(ThemeModeError::InvalidValue),
        }
    }

    /// The mode that a signal announces.
    pub fn try_from<'a>(value: DBusSignal<'a>) -> (r: Result<ThemeMode, ThemeModeError<'a>>)
        ensures
            value.spec_namespace()@ != NAMESPACE@ ==> r == Err::<ThemeMode, ThemeModeError<'a>>(
                ThemeModeError::InvalidNameSpace(value.spec_namespace()),
            ),
            value.spec_namespace()@ == NAMESPACE@ && value.spec_key()@ != KEY@ ==> r == Err::<
                ThemeMode,
                ThemeModeError<'a>,
            >(ThemeModeError::InvalidKey(value.spec_key())),
            value.spec_namespace()@ == NAMESPACE@ && value.spec_key()@ == KEY@ ==> r
                == mode_of_value::<'a>(value.spec_value()),
    {
        let namespace = value.namespace();
        if !text_eq(namespace, NAMESPACE) {
            return Err(ThemeModeError::InvalidNameSpace(namespace));
        }
        let key = value.key();
        if !text_eq(key, KEY) {
            return Err(ThemeModeError::InvalidKey(key));
        }
        ThemeMode::from_value(*value.value())
    }
}

impl<'a> ThemeModeError<'a> {
    /// The text that describes this error to the user.
    pub fn message(&self) -> (m: String)
        ensures
            m@ == error_message(*self),
    {
        match self {
            ThemeModeError::InvalidNameSpace(ns) => {
                let mut m = String::from_str("Invalid Namespace: ");
                m.append(ns);
                m.append(" (expecting \"");
                m.append(NAMESPACE);
                m.append("\")");
                m
            },
            ThemeModeError::InvalidKey(key) => {
                let mut m = String::from_str("Invalid Key: ");
                m.append(key);
                m.append(" (expecting \"");
                m.append(KEY);
                m.append("\")");
                m
            },
            ThemeModeError::InvalidValue => String::from_str("Invalid Value (expecting \"2/1\")"),
        }
    }

    /// Whether this error ends the program: a colour-scheme payload that names
    /// no mode does, a signal of another namespace or key is passed over.
    pub fn is_fatal(&self) -> (b: bool)
        ensures
            b == (*self is InvalidValue),
    {
        match self {
            ThemeModeError::InvalidValue => true,
            _ => false,
        }
    }
}

} // verus!
