use zbus_names::unique_name::{bytes_eq, validate, validate_bytes, validate_bytes_const};
use zbus_names::{Error, OwnedUniqueName, UniqueName};

const UNIQUE_MESSAGE: &str = "Invalid unique name. See https://dbus.freedesktop.org/doc/dbus-specification.html#message-protocol-names-bus";

fn accepted(name: &str) -> bool {
    let by_parser = validate_bytes(name.as_bytes()).is_ok();
    let by_bytes = validate_bytes_const(name.as_bytes());
    assert_eq!(by_parser, by_bytes, "the two checks disagree on {:?}", name);
    assert_eq!(validate(name).is_ok(), by_parser);
    by_parser
}

#[test]
fn unique_name_doc_examples() {
    let name = UniqueName::try_from(":org.gnome.Service-for_you").unwrap();
    assert_eq!(name.as_str(), ":org.gnome.Service-for_you");
    let name = UniqueName::try_from(":a.very.loooooooooooooooooo-ooooooo_0000o0ng.Name").unwrap();
    assert_eq!(name.as_str(), ":a.very.loooooooooooooooooo-ooooooo_0000o0ng.Name");

    UniqueName::try_from("").unwrap_err();
    UniqueName::try_from("dont.start.with.a.colon").unwrap_err();
    UniqueName::try_from(":double..dots").unwrap_err();
    UniqueName::try_from(".").unwrap_err();
    UniqueName::try_from(".start.with.dot").unwrap_err();
    UniqueName::try_from(":no-dots").unwrap_err();
}

#[test]
fn unique_name_error_message() {
    assert_eq!(validate(":no-dots"), Err(Error::InvalidName(UNIQUE_MESSAGE)));
    assert_eq!(UniqueName::try_from("x").unwrap_err(), Error::InvalidName(UNIQUE_MESSAGE));
    assert_eq!(
        OwnedUniqueName::try_from(String::from("x")).unwrap_err(),
        Error::InvalidName(UNIQUE_MESSAGE)
    );
    assert_eq!(validate(":1.42"), Ok(()));
}

#[test]
fn unique_name_bus_name() {
    assert!(accepted("org.freedesktop.DBus"));
    assert!(!accepted("org.freedesktop.DBusX"));
    assert!(!accepted("org.freedesktop.DBu"));
    assert!(!accepted("org.freedesktop.dbus"));
    assert!(accepted(":org.freedesktop.DBus"));
}

#[test]
fn unique_name_rules() {
    assert!(accepted(":1.42"));
    assert!(accepted(":a.b"));
    assert!(accepted(":_.-"));
    assert!(accepted(":0.0.0"));
    assert!(!accepted(":a."));
    assert!(!accepted(":.a"));
    assert!(!accepted(":a..b"));
    assert!(!accepted(":ab"));
    assert!(!accepted(":"));
    assert!(!accepted(":a.b c"));
    assert!(!accepted(":a.b/c"));
    assert!(!accepted(":a.b:c"));
    assert!(!accepted("a.b"));
    assert!(!accepted("::a.b"));
    assert!(!accepted(":a.\u{e9}"));
}

#[test]
fn unique_name_byte_classes() {
    // Every ASCII letter and digit, `_` and `-` may stand in an element; no
    // other byte may.
    for b in 0u8..=127 {
        let name = format!(":a.{}", b as char);
        let expected = b.is_ascii_alphanumeric() || b == b'_' || b == b'-';
        assert_eq!(accepted(&name), expected, "byte {}", b);
        let name = format!(":{}.a", b as char);
        assert_eq!(accepted(&name), expected, "byte {}", b);
    }
}

#[test]
fn unique_name_length_limit() {
    let longest = format!(":a.{}", "b".repeat(252));
    assert_eq!(longest.len(), 255);
    assert!(accepted(&longest));
    let too_long = format!(":a.{}", "b".repeat(253));
    assert_eq!(too_long.len(), 256);
    assert!(!accepted(&too_long));
}

#[test]
fn unique_name_shortest() {
    // No unique name is shorter than 4 bytes.
    assert!(accepted(":a.b"));
    for name in ["", ":", ":a", ":a.", ":.b", "a.b", ":ab"] {
        assert!(!accepted(name), "{:?}", name);
    }
}

#[test]
fn unique_name_static_and_owned() {
    let name = UniqueName::from_static_str_checked(":1.7");
    assert_eq!(name.as_str(), ":1.7");
    let owned = name.to_owned();
    assert_eq!(owned.as_str(), ":1.7");
    assert_eq!(owned.inner(), name);
    assert_eq!(owned.clone(), owned);
    assert_eq!(name.clone(), name);

    let owned = OwnedUniqueName::try_from(String::from(":x.y_z")).unwrap();
    assert_eq!(owned.as_str(), ":x.y_z");
    assert_eq!(owned.inner().as_str(), ":x.y_z");
    assert!(OwnedUniqueName::try_from(String::from(":x")).is_err());
}

#[test]
fn unique_name_bytes_eq() {
    assert!(bytes_eq(b"", b""));
    assert!(bytes_eq(b"abc", b"abc"));
    assert!(!bytes_eq(b"abc", b"abd"));
    assert!(!bytes_eq(b"abc", b"ab"));
    assert!(!bytes_eq(b"a", b""));
}
