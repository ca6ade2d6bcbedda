//! Error kinds of the key toolkit, and their conversions.
//!
//! Each toolkit operation surfaces failures of the crates under it as
//! a `Crate` variant naming the origin and carrying its description.

use vstd::prelude::*;

verus! {

/// Relied-on type of the standard library: `std::io::Error`.
#[verifier::external_type_specification]
#[verifier::external_body]
pub struct ExIoError(std::io::Error);

/// Relied-on type of the hex crate: its decoding error.
#[verifier::external_type_specification]
#[verifier::external_body]
pub struct ExFromHexError(hex::FromHexError);

/// Relies on the standard `Debug` formatting of `std::io::Error` for
/// the error's description. Nothing is promised of the text.
#[verifier::external_body]
fn io_error_description(error: &std::io::Error) -> String {
    format!("{:?}", error)
}

/// Relies on the derived `Debug` formatting of `hex::FromHexError`
/// for the error's description. Nothing is promised of the text.
#[verifier::external_body]
fn hex_error_description(error: &hex::FromHexError) -> String {
    format!("{:?}", error)
}

/// Failure to derive or read a private key.
#[derive(Debug)]
pub enum PrivateKeyError {
    /// The named crate failed with the carried description.
    Crate(&'static str, String),
}

impl From<std::io::Error> for PrivateKeyError {
    /// The origin label is fixed; the description is the outside
    /// error's text and is left unpromised.
    fn from(error: std::io::Error) -> (r: Self)
        ensures
            r matches PrivateKeyError::Crate(label, _) && label@ == "std::io"@,
    {
        PrivateKeyError::Crate("std::io", io_error_description(&error))
    }
}

impl vstd::std_specs::convert::FromSpecImpl<std::io::Error> for PrivateKeyError {
    open spec fn obeys_from_spec() -> bool {
        false
    }

    closed spec fn from_spec(v: std::io::Error) -> Self {
        vstd::pervasive::arbitrary()
    }
}

/// Failure to derive or read a view key.
#[derive(Debug)]
pub enum ViewKeyError {
    /// The named crate failed with the carried description.
    Crate(&'static str, String),
}

impl From<std::io::Error> for ViewKeyError {
    /// The origin label is fixed; the description is the outside
    /// error's text and is left unpromised.
    fn from(error: std::io::Error) -> (r: Self)
        ensures
            r matches ViewKeyError::Crate(label, _) && label@ == "std::io"@,
    {
        ViewKeyError::Crate("std::io", io_error_description(&error))
    }
}

impl vstd::std_specs::convert::FromSpecImpl<std::io::Error> for ViewKeyError {
    open spec fn obeys_from_spec() -> bool {
        false
    }

    closed spec fn from_spec(v: std::io::Error) -> Self {
        vstd::pervasive::arbitrary()
    }
}

/// Failure to derive or read an account address.
#[derive(Debug)]
pub enum AddressError {
    /// The named crate failed with the carried description.
    Crate(&'static str, String),
}

impl From<std::io::Error> for AddressError {
    /// The origin label is fixed; the description is the outside
    /// error's text and is left unpromised.
    fn from(error: std::io::Error) -> (r: Self)
        ensures
            r matches AddressError::Crate(label, _) && label@ == "std::io"@,
    {
        AddressError::Crate("std::io", io_error_description(&error))
    }
}

impl vstd::std_specs::convert::FromSpecImpl<std::io::Error> for AddressError {
    open spec fn obeys_from_spec() -> bool {
        false
    }

    closed spec fn from_spec(v: std::io::Error) -> Self {
        vstd::pervasive::arbitrary()
    }
}

/// Failure to create or verify a signature.
#[derive(Debug)]
pub enum SignatureError {
    /// The named crate failed with the carried description.
    Crate(&'static str, String),
}

impl From<std::io::Error> for SignatureError {
    /// The origin label is fixed; the description is the outside
    /// error's text and is left unpromised.
    fn from(error: std::io::Error) -> (r: Self)
        ensures
            r matches SignatureError::Crate(label, _) && label@ == "std::io"@,
    {
        SignatureError::Crate("std::io", io_error_description(&error))
    }
}

impl vstd::std_specs::convert::FromSpecImpl<std::io::Error> for SignatureError {
    open spec fn obeys_from_spec() -> bool {
        false
    }

    closed spec fn from_spec(v: std::io::Error) -> Self {
        vstd::pervasive::arbitrary()
    }
}

impl From<hex::FromHexError> for SignatureError {
    /// The origin label is fixed; the description is the outside
    /// error's text and is left unpromised.
    fn from(error: hex::FromHexError) -> (r: Self)
        ensures
            r matches SignatureError::Crate(label, _) && label@ == "hex"@,
    {
        SignatureError::Crate("hex", hex_error_description(&error))
    }
}

impl vstd::std_specs::convert::FromSpecImpl<hex::FromHexError> for SignatureError {
    open spec fn obeys_from_spec() -> bool {
        false
    }

    closed spec fn from_spec(v: hex::FromHexError) -> Self {
        vstd::pervasive::arbitrary()
    }
}

} // verus!
