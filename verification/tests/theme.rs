use colorschemed::dbus::{DBusSignal, SignalValue};
use colorschemed::theme::{ThemeMode, ThemeModeError, KEY, NAMESPACE};

fn signal_of(value: SignalValue) -> Result<ThemeMode, ThemeModeError<'static>> {
    ThemeMode::try_from(DBusSignal::new(NAMESPACE, KEY, value))
}

#[test]
fn numbers_of_the_modes() {
    assert!(matches!(signal_of(SignalValue::U32(2)), Ok(ThemeMode::Light)));
    assert!(matches!(signal_of(SignalValue::U32(1)), Ok(ThemeMode::Dark)));
    assert!(matches!(signal_of(SignalValue::U8(2)), Ok(ThemeMode::Light)));
    assert!(matches!(signal_of(SignalValue::I16(1)), Ok(ThemeMode::Dark)));
    assert!(matches!(signal_of(SignalValue::U16(2)), Ok(ThemeMode::Light)));
    assert!(matches!(signal_of(SignalValue::I32(2)), Ok(ThemeMode::Light)));
    assert!(matches!(signal_of(SignalValue::I64(1)), Ok(ThemeMode::Dark)));
    assert!(matches!(signal_of(SignalValue::U64(2)), Ok(ThemeMode::Light)));
    assert!(matches!(signal_of(SignalValue::Bool(true)), Ok(ThemeMode::Dark)));
}

#[test]
fn number_of_no_mode() {
    // The desktop's "no preference" (0), other numbers and negative numbers name no mode.
    for value in [
        SignalValue::U32(0),
        SignalValue::U32(3),
        SignalValue::Bool(false),
        SignalValue::I32(-1),
        SignalValue::I64(-2),
    ] {
        match signal_of(value) {
            Err(e) => {
                assert!(matches!(e, ThemeModeError::InvalidValue));
                assert!(e.is_fatal());
            }
            Ok(_) => panic!("expected InvalidValue for {value:?}"),
        }
    }
}

#[test]
fn not_a_number() {
    match signal_of(SignalValue::Other) {
        Err(e) => {
            assert!(matches!(e, ThemeModeError::InvalidValue));
            assert!(e.is_fatal());
            assert_eq!(e.message(), "Invalid Value (expecting \"2/1\")");
        }
        _ => panic!("expected InvalidValue"),
    }
}

#[test]
fn other_namespace_or_key() {
    let r = ThemeMode::try_from(DBusSignal::new(
        "org.gnome.desktop.interface",
        KEY,
        SignalValue::U32(1),
    ));
    match r {
        Err(e) => {
            assert!(matches!(e, ThemeModeError::InvalidNameSpace("org.gnome.desktop.interface")));
            assert!(!e.is_fatal());
            assert_eq!(
                e.message(),
                "Invalid Namespace: org.gnome.desktop.interface (expecting \"org.freedesktop.appearance\")"
            );
        }
        _ => panic!("expected InvalidNameSpace"),
    }
    let r = ThemeMode::try_from(DBusSignal::new(NAMESPACE, "accent-color", SignalValue::U32(1)));
    match r {
        Err(e) => {
            assert!(matches!(e, ThemeModeError::InvalidKey("accent-color")));
            assert!(!e.is_fatal());
            assert_eq!(e.message(), "Invalid Key: accent-color (expecting \"color-scheme\")");
        }
        _ => panic!("expected InvalidKey"),
    }
}

#[test]
fn mode_codes_round_trip() {
    for mode in [ThemeMode::Light, ThemeMode::Dark] {
        let code = mode.code();
        assert!(matches!(ThemeMode::from_value(SignalValue::U64(code as u64)), Ok(m) if m == mode));
        assert!(matches!(ThemeMode::from_value(SignalValue::U8(code as u8)), Ok(m) if m == mode));
        let sig = DBusSignal::new(NAMESPACE, KEY, SignalValue::U32(code as u32));
        assert!(matches!(ThemeMode::try_from(sig), Ok(m) if m == mode));
    }
    assert_eq!(ThemeMode::Light.code(), 2);
    assert_eq!(ThemeMode::Dark.code(), 1);
}

#[test]
fn from_value_of_a_non_number() {
    assert!(matches!(ThemeMode::from_value(SignalValue::Other), Err(ThemeModeError::InvalidValue)));
    assert!(matches!(ThemeMode::from_value(SignalValue::U16(7)), Err(ThemeModeError::InvalidValue)));
}

#[test]
fn signal_value_codes() {
    assert_eq!(SignalValue::Bool(true).code(), Some(1));
    assert_eq!(SignalValue::Bool(false).code(), Some(0));
    assert_eq!(SignalValue::I16(-1).code(), Some(usize::MAX));
    assert_eq!(SignalValue::U32(7).code(), Some(7));
    assert_eq!(SignalValue::Other.code(), None);
}

#[test]
fn names() {
    assert_eq!(ThemeMode::Light.name(), "Light");
    assert_eq!(ThemeMode::Dark.name(), "Dark");
}

#[test]
fn signal_accessors_and_text() {
    let s = DBusSignal::new("ns", "k", SignalValue::U8(5));
    assert_eq!(s.namespace(), "ns");
    assert_eq!(s.key(), "k");
    assert_eq!(*s.value(), SignalValue::U8(5));
    assert_eq!(s.describe("5"), "ns.k = 5");
}
