use zbus_names::{unique_name, well_known_name};
use zbus_names::well_known_name::{validate, validate_bytes, validate_bytes_const};
use zbus_names::{Error, OwnedWellKnownName, WellKnownName};

const WELL_KNOWN_MESSAGE: &str = "Invalid well-known name. See https://dbus.freedesktop.org/doc/dbus-specification.html#message-protocol-names-bus";

fn accepted(name: &str) -> bool {
    let by_parser = validate_bytes(name.as_bytes()).is_ok();
    let by_bytes = validate_bytes_const(name.as_bytes());
    assert_eq!(by_parser, by_bytes, "the two checks disagree on {:?}", name);
    assert_eq!(validate(name).is_ok(), by_parser);
    by_parser
}

#[test]
fn well_known_name_doc_examples() {
    let name = WellKnownName::try_from("org.gnome.Service-for_you").unwrap();
    assert_eq!(name.as_str(), "org.gnome.Service-for_you");
    let name = WellKnownName::try_from("a.very.loooooooooooooooooo-ooooooo_0000o0ng.Name").unwrap();
    assert_eq!(name.as_str(), "a.very.loooooooooooooooooo-ooooooo_0000o0ng.Name");

    WellKnownName::try_from("").unwrap_err();
    WellKnownName::try_from("double..dots").unwrap_err();
    WellKnownName::try_from(".").unwrap_err();
    WellKnownName::try_from(".start.with.dot").unwrap_err();
    WellKnownName::try_from("1st.element.starts.with.digit").unwrap_err();
    WellKnownName::try_from("the.2nd.element.starts.with.digit").unwrap_err();
    WellKnownName::try_from("no-dots").unwrap_err();
}

#[test]
fn well_known_name_error_message() {
    assert_eq!(validate("no-dots"), Err(Error::InvalidName(WELL_KNOWN_MESSAGE)));
    assert_eq!(WellKnownName::try_from("x").unwrap_err(), Error::InvalidName(WELL_KNOWN_MESSAGE));
    assert_eq!(
        OwnedWellKnownName::try_from(String::from("1.a")).unwrap_err(),
        Error::InvalidName(WELL_KNOWN_MESSAGE)
    );
    assert_eq!(validate("org.freedesktop.DBus"), Ok(()));
}

#[test]
fn well_known_name_rules() {
    assert!(accepted("a.b"));
    assert!(accepted("_.-"));
    assert!(accepted("a1.b2.c3"));
    assert!(accepted("org.freedesktop.DBus"));
    assert!(!accepted("a.1"));
    assert!(!accepted("1.a"));
    assert!(!accepted("a.b.9c"));
    assert!(!accepted("a."));
    assert!(!accepted(".a"));
    assert!(!accepted("a..b"));
    assert!(!accepted("ab"));
    assert!(!accepted(":a.b"));
    assert!(!accepted("a.b c"));
    assert!(!accepted("a.\u{e9}"));
}

#[test]
fn well_known_name_byte_classes() {
    for b in 0u8..=127 {
        let inner = b.is_ascii_alphanumeric() || b == b'_' || b == b'-';
        let first = b.is_ascii_alphabetic() || b == b'_' || b == b'-';
        assert_eq!(accepted(&format!("a.a{}", b as char)), inner, "byte {}", b);
        assert_eq!(accepted(&format!("a.{}", b as char)), first, "byte {}", b);
        assert_eq!(accepted(&format!("{}.a", b as char)), first, "byte {}", b);
    }
}

#[test]
fn well_known_name_length_limit() {
    let longest = format!("a.{}", "b".repeat(253));
    assert_eq!(longest.len(), 255);
    assert!(accepted(&longest));
    let too_long = format!("a.{}", "b".repeat(254));
    assert_eq!(too_long.len(), 256);
    assert!(!accepted(&too_long));
}

#[test]
fn well_known_name_shortest() {
    assert!(accepted("a.b"));
    for name in ["", "a", "a.", ".b", "ab", "."] {
        assert!(!accepted(name), "{:?}", name);
    }
}

#[test]
fn well_known_name_static_and_owned() {
    let name = WellKnownName::from_static_str_checked("org.example.App");
    assert_eq!(name.as_str(), "org.example.App");
    let owned = name.to_owned();
    assert_eq!(owned.as_str(), "org.example.App");
    assert_eq!(owned.inner(), name);
    assert_eq!(owned.clone(), owned);
    assert_eq!(name.clone(), name);

    let owned = OwnedWellKnownName::try_from(String::from("x.y_z")).unwrap();
    assert_eq!(owned.inner().as_str(), "x.y_z");
    assert!(OwnedWellKnownName::try_from(String::from("x")).is_err());
}

#[test]
fn only_the_bus_name_is_both_kinds() {
    let both = |n: &str| {
        unique_name::validate_bytes_const(n.as_bytes())
            && well_known_name::validate_bytes_const(n.as_bytes())
    };
    assert!(both("org.freedesktop.DBus"));
    for name in [":a.b", "a.b", "org.freedesktop.DBu", ":org.freedesktop.DBus", "org.freedesktop.DBus.X"] {
        assert!(!both(name), "{:?}", name);
    }
}
