//! What can go wrong converting a save.

use vstd::prelude::*;
use crate::text::{decimal_text, push_decimal, push_str};

verus! {

/// A conversion that could not be done.
#[derive(Debug, Clone, PartialEq, Eq)]
pub enum Error {
    /// The input is not the length this format comes in.
    WrongLength {
        /// What the file is being read as.
        format: &'static str,
        /// The lengths that would have been acceptable.
        expected: &'static str,
        /// The length the file actually is.
        found: usize,
    },
    /// The input does not carry the signature this format opens with.
    NotThisFormat {
        /// What the file was being read as.
        format: &'static str,
        /// Why it was rejected.
        why: String,
    },
    /// The input is structurally broken in a way that is not recoverable by guessing.
    Corrupt {
        /// What the file is being read as.
        format: &'static str,
        /// Where and how it is broken.
        why: String,
    },
    /// The format could not be worked out from the extension or the bytes.
    Undetected,
    /// A format this build knows the name of but cannot write.
    ///
    /// A consumer that does not know a card format **must not** attempt the write: rebuilding a
    /// card it cannot lay out would corrupt it.
    CannotWrite(String),
    /// A card format this build was not compiled with.
    ///
    /// One that is off leaves the format nameable, so a file is still identified rather than
    /// misread, and takes the reader and writer with it.
    Unsupported {
        /// What the format is called.
        format: &'static str,
        /// The feature that would have supplied it.
        feature: &'static str,
    },
    /// The bundle does not hold what this format needs to be rebuilt from.
    NotConvertible(String),
    /// An archive held nothing this could read, or more than one thing it could.
    Archive(String),
}

/// What an error says, in words.
pub open spec fn error_text(e: Error) -> Seq<char> {
    match e {
        Error::WrongLength { format, expected, found } => "a "@ + format@ + " is "@ + expected@
            + ", but this file is "@ + decimal_text(found as nat) + " bytes"@,
        Error::NotThisFormat { format, why } => "not a "@ + format@ + ": "@ + why@,
        Error::Corrupt { format, why } => "this "@ + format@ + " is corrupt: "@ + why@,
        Error::Undetected => "could not tell what this file is; name the format with --from"@,
        Error::Archive(why) => "this archive "@ + why@,
        Error::CannotWrite(format) => "this build cannot write a "@ + format@
            + ", and writing a card format it does not know would corrupt it"@,
        Error::Unsupported { format, feature } => "this is a "@ + format@ + ", and this build has the `"@
            + feature@ + "` feature off, so it can name the format and not read or write it"@,
        Error::NotConvertible(why) => "cannot convert this bundle: "@ + why@,
    }
}

impl Error {
    /// The error in words, as a message to show.
    pub fn to_string(&self) -> (r: String)
        ensures
            r@ == error_text(*self),
    {
        match self {
            Error::WrongLength { format, expected, found } => {
                let mut text = "a ".to_owned();
                push_str(&mut text, format);
                push_str(&mut text, " is ");
                push_str(&mut text, expected);
                push_str(&mut text, ", but this file is ");
                push_decimal(&mut text, *found as u64);
                push_str(&mut text, " bytes");
                text
            },
            Error::NotThisFormat { format, why } => {
                let mut text = "not a ".to_owned();
                push_str(&mut text, format);
                push_str(&mut text, ": ");
                push_str(&mut text, why.as_str());
                text
            },
            Error::Corrupt { format, why } => {
                let mut text = "this ".to_owned();
                push_str(&mut text, format);
                push_str(&mut text, " is corrupt: ");
                push_str(&mut text, why.as_str());
                text
            },
            Error::Undetected => "could not tell what this file is; name the format with --from".to_owned(),
            Error::Archive(why) => {
                let mut text = "this archive ".to_owned();
                push_str(&mut text, why.as_str());
                text
            },
            Error::CannotWrite(format) => {
                let mut text = "this build cannot write a ".to_owned();
                push_str(&mut text, format.as_str());
                push_str(&mut text, ", and writing a card format it does not know would corrupt it");
                text
            },
            Error::Unsupported { format, feature } => {
                let mut text = "this is a ".to_owned();
                push_str(&mut text, format);
                push_str(&mut text, ", and this build has the `");
                push_str(&mut text, feature);
                push_str(&mut text, "` feature off, so it can name the format and not read or write it");
                text
            },
            Error::NotConvertible(why) => {
                let mut text = "cannot convert this bundle: ".to_owned();
                push_str(&mut text, why.as_str());
                text
            },
        }
    }
}

} // verus!
