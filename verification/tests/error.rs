use partymix::Error;

#[test]
fn messages() {
    assert_eq!(Error::Bool.message(), "error parsing bool");
    assert_eq!(Error::Int.message(), "error parsing int");
    assert_eq!(
        Error::Msg(String::from("missing '=' in `linux`")).message(),
        "missing '=' in `linux`"
    );
    assert_eq!(
        Error::Io(String::from("file not found")).message(),
        "io error: file not found"
    );
}

#[test]
fn from_message() {
    let e = Error::from(String::from("partition does not fit"));
    assert_eq!(e.message(), "partition does not fit");
    assert!(matches!(e, Error::Msg(_)));
}

#[test]
fn kind_failure_is_int_error() {
    let e = partymix::Kind::from_str("nope").unwrap_err();
    assert!(matches!(e, Error::Int));
    assert_eq!(e.message(), "error parsing int");
}
