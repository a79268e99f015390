//! The library's error type.
use vstd::prelude::*;
use std::num::ParseIntError;
use std::path::PathBuf;
use std::time::SystemTimeError;

use crate::text::{decimal_digits, push_all, push_decimal, chars_of, string_from_chars};

verus! {

#[verifier::external_type_specification]
#[verifier::external_body]
pub struct ExSystemTimeError(std::time::SystemTimeError);

#[verifier::external_type_specification]
#[verifier::external_body]
pub struct ExIoErrorKind(std::io::ErrorKind);

#[verifier::external_type_specification]
#[verifier::external_body]
pub struct ExIoError(std::io::Error);

#[verifier::external_type_specification]
#[verifier::external_body]
pub struct ExPathBuf(std::path::PathBuf);

#[derive(Debug)]
pub enum Error {
    /// Failed because an existing snapshot with the
    /// same timestamp already exists.
    ExistingSnapshot(u64),
    /// An error returned when output from
    /// duration_since or elapsed methods
    /// on SystemTime is not positive.
    SnapShotTime(SystemTimeError),
    Io { context: String, kind: std::io::ErrorKind },
    ParseInt(ParseIntError),
    FromStrError(String),
    UnknownTag(String),
    EmptyTag(String),
    InvalidPath { path: PathBuf },
}

/// std's `std::io::Error::kind`. Nothing is stated of the kind it reports.
#[verifier::external_body]
fn io_error_kind(e: &std::io::Error) -> std::io::ErrorKind {
    e.kind()
}

/// The text that std's `Display` gives an I/O error kind. Nothing is stated of the text.
#[verifier::external_body]
fn io_error_kind_text(kind: &std::io::ErrorKind) -> String {
    format!("{}", kind)
}

/// The text that std's `Display` gives a system time error. Nothing is stated of the text.
#[verifier::external_body]
fn system_time_error_text(e: &SystemTimeError) -> String {
    format!("{}", e)
}

/// The text that std's `Display` gives an integer parse error. Nothing is stated of the text.
#[verifier::external_body]
fn parse_int_error_text(e: &ParseIntError) -> String {
    format!("{}", e)
}

/// std's `Path::to_string_lossy`, as an owned string. Nothing is stated of the text.
#[verifier::external_body]
fn path_text(p: &PathBuf) -> String {
    p.to_string_lossy().into_owned()
}

impl Error {
    /// The message this error displays.
    pub fn message(&self) -> (r: String)
        ensures
            match self {
                Error::ExistingSnapshot(t) => r@ == "Unable to create new snapshot for "@
                    + decimal_digits(*t as nat) + ", due to it already existing"@,
                Error::SnapShotTime(_) => r@.take(21) == "Snapshot time error: "@ && r@.len() >= 21,
                Error::Io { context, .. } => r@.take(10) == "I/O error "@ && r@.len() >= 16
                    + context@.len() && r@.skip(r@.len() - context@.len() - 6) == " from "@ + context@,
                Error::ParseInt(_) => r@.take(17) == "parse int error: "@ && r@.len() >= 17,
                Error::FromStrError(s) => r@ == s@,
                Error::UnknownTag(s) => r@ == "Unknown tag: "@ + s@,
                Error::EmptyTag(s) => r@ == s@,
                Error::InvalidPath { .. } => true,
            },
    {
        proof {
            reveal_strlit("Snapshot time error: ");
            reveal_strlit("I/O error ");
            reveal_strlit(" from ");
            reveal_strlit("parse int error: ");
        }
        let mut out: Vec<char> = Vec::new();
        match self {
            Error::ExistingSnapshot(t) => {
                push_all(&mut out, &chars_of("Unable to create new snapshot for "));
                push_decimal(&mut out, *t);
                push_all(&mut out, &chars_of(", due to it already existing"));
            },
            Error::SnapShotTime(e) => {
                push_all(&mut out, &chars_of("Snapshot time error: "));
                push_all(&mut out, &chars_of(system_time_error_text(e).as_str()));
            },
            Error::Io { context, kind } => {
                push_all(&mut out, &chars_of("I/O error "));
                push_all(&mut out, &chars_of(io_error_kind_text(kind).as_str()));
                push_all(&mut out, &chars_of(" from "));
                push_all(&mut out, &chars_of(context.as_str()));
            },
            Error::ParseInt(e) => {
                push_all(&mut out, &chars_of("parse int error: "));
                push_all(&mut out, &chars_of(parse_int_error_text(e).as_str()));
            },
            Error::FromStrError(s) => {
                push_all(&mut out, &chars_of(s.as_str()));
            },
            Error::UnknownTag(s) => {
                push_all(&mut out, &chars_of("Unknown tag: "));
                push_all(&mut out, &chars_of(s.as_str()));
            },
            Error::EmptyTag(s) => {
                push_all(&mut out, &chars_of(s.as_str()));
            },
            Error::InvalidPath { path } => {
                push_all(&mut out, &chars_of(path_text(path).as_str()));
            },
        }
        string_from_chars(&out)
    }
}

/// Propagates an I/O error together with the context it arose in.
pub trait WithContext<'a, T> {
    fn with_context(self, context: &'a str) -> Result<T, Error>;
}

impl<'a, T> WithContext<'a, T> for std::io::Result<T> {
    fn with_context(self, context: &'a str) -> (r: Result<T, Error>)
        ensures
            match self {
                Ok(v) => r matches Ok(w) && w == v,
                Err(_) => r matches Err(Error::Io { context: c, .. }) && c@ == context@,
            },
    {
        match self {
            Ok(v) => Ok(v),
            Err(source) => Err(Error::Io { context: context.to_owned(), kind: io_error_kind(&source) }),
        }
    }
}

impl From<std::io::Error> for Error {
    fn from(value: std::io::Error) -> (r: Self)
        ensures
            r matches Error::Io { context: c, .. } && c@ == Seq::<char>::empty(),
    {
        let context: String = String::new();
        Error::Io { context, kind: io_error_kind(&value) }
    }
}

impl vstd::std_specs::convert::FromSpecImpl<std::io::Error> for Error {
    open spec fn obeys_from_spec() -> bool {
        false
    }

    open spec fn from_spec(v: std::io::Error) -> Self {
        arbitrary()
    }
}

impl From<SystemTimeError> for Error {
    fn from(value: SystemTimeError) -> (r: Self)
        ensures
            r == Error::SnapShotTime(value),
    {
        Error::SnapShotTime(value)
    }
}

impl vstd::std_specs::convert::FromSpecImpl<SystemTimeError> for Error {
    open spec fn obeys_from_spec() -> bool {
        true
    }

    open spec fn from_spec(v: SystemTimeError) -> Self {
        Error::SnapShotTime(v)
    }
}

impl From<ParseIntError> for Error {
    fn from(value: ParseIntError) -> (r: Self)
        ensures
            r == Error::ParseInt(value),
    {
        Error::ParseInt(value)
    }
}

impl vstd::std_specs::convert::FromSpecImpl<ParseIntError> for Error {
    open spec fn obeys_from_spec() -> bool {
        true
    }

    open spec fn from_spec(v: ParseIntError) -> Self {
        Error::ParseInt(v)
    }
}

} // verus!
