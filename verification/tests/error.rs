use snaps::error::{Error, WithContext};
use snaps::style::Colour;

#[test]
fn error_messages() {
    assert_eq!(
        Error::ExistingSnapshot(17).message(),
        "Unable to create new snapshot for 17, due to it already existing"
    );
    assert_eq!(Error::UnknownTag("zz".to_string()).message(), "Unknown tag: zz");
    assert_eq!(Error::EmptyTag("empty".to_string()).message(), "empty");
    assert_eq!(Error::FromStrError("bad".to_string()).message(), "bad");
    let parse = "x".parse::<u64>().unwrap_err();
    assert_eq!(Error::ParseInt(parse.clone()).message(), format!("parse int error: {}", parse));
    let io = Error::Io { context: "/proc/sys/kernel/hostname".to_string(), kind: std::io::ErrorKind::NotFound };
    assert_eq!(
        io.message(),
        format!("I/O error {} from /proc/sys/kernel/hostname", std::io::ErrorKind::NotFound)
    );
    let path = Error::InvalidPath { path: std::path::PathBuf::from("/var/snaps") };
    assert_eq!(path.message(), "/var/snaps");
}

#[test]
fn io_errors_carry_their_context() {
    let failed: std::io::Result<u8> = Err(std::io::Error::new(std::io::ErrorKind::PermissionDenied, "no"));
    match failed.with_context("/var/snaps") {
        Err(Error::Io { context, kind }) => {
            assert_eq!(context, "/var/snaps");
            assert_eq!(kind, std::io::ErrorKind::PermissionDenied);
        },
        other => panic!("{:?}", other),
    }
    let ok: std::io::Result<u8> = Ok(3);
    assert!(matches!(ok.with_context("x"), Ok(3)));
    let converted: Error = std::io::Error::new(std::io::ErrorKind::Other, "e").into();
    assert!(matches!(converted, Error::Io { context, kind: std::io::ErrorKind::Other } if context.is_empty()));
    let parsed: Error = "q".parse::<u64>().unwrap_err().into();
    assert!(matches!(parsed, Error::ParseInt(_)));
}

#[test]
fn colour_codes() {
    let colours = [
        Colour::Black,
        Colour::Red,
        Colour::Green,
        Colour::Yellow,
        Colour::Blue,
        Colour::Magenta,
        Colour::Cyan,
        Colour::White,
    ];
    for (i, c) in colours.iter().enumerate() {
        assert_eq!(c.fg_code(), format!("3{}", i));
        assert_eq!(c.bg_code(), format!("4{}", i));
    }
}
