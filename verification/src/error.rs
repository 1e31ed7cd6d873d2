//! Errors reported while reading a flattened device tree.

use crate::text::{decimal_text, hex_text, push_decimal, push_hex};
use vstd::prelude::*;
use vstd::string::StringExecFns;

verus! {

/// The kind of an error that can occur when parsing a device tree.
#[derive(Debug)]
#[non_exhaustive]
pub enum FdtErrorKind {
    /// The magic number of the device tree is invalid.
    InvalidMagic,
    /// The Device Tree version is not supported by this library.
    UnsupportedVersion(u32),
    /// The length of the device tree is invalid.
    InvalidLength,
    /// The header failed validation.
    InvalidHeader(&'static str),
    /// An invalid token was encountered.
    BadToken(u32),
    /// A read from data at invalid offset was attempted.
    InvalidOffset,
    /// An invalid string was encountered.
    InvalidString,
}

/// What an [`FdtError`] says: the kind of the error and the byte offset in
/// the blob at which it was found.
pub ghost struct Fault {
    pub kind: FdtErrorKind,
    pub offset: int,
}

/// An error that can occur when parsing a device tree.
#[derive(Debug)]
#[non_exhaustive]
pub struct FdtError {
    offset: usize,
    /// The type of the error that has occurred.
    pub kind: FdtErrorKind,
}

/// What an error of the given kind says.
pub open spec fn kind_text(kind: FdtErrorKind) -> Seq<char> {
    match kind {
        FdtErrorKind::InvalidMagic => "invalid FDT magic number"@,
        FdtErrorKind::UnsupportedVersion(version) => "the FDT version "@ + decimal_text(
            version as nat,
        ) + " is not supported"@,
        FdtErrorKind::InvalidLength => "invalid FDT length"@,
        FdtErrorKind::InvalidHeader(msg) => "FDT header has failed validation: "@ + msg@,
        FdtErrorKind::BadToken(token) => "bad FDT token: 0x"@ + hex_text(token as nat),
        FdtErrorKind::InvalidOffset => "invalid offset in FDT"@,
        FdtErrorKind::InvalidString => "invalid string in FDT"@,
    }
}

/// What an error says: its kind, and the offset at which it was found.
pub open spec fn fault_text(f: Fault) -> Seq<char> {
    kind_text(f.kind) + " at offset "@ + decimal_text(f.offset as nat)
}

impl FdtErrorKind {
    /// Appends what an error of this kind says.
    pub fn fmt(&self, f: &mut String)
        ensures
            final(f)@ == old(f)@ + kind_text(*self),
    {
        match self {
            FdtErrorKind::InvalidMagic => {
                f.append("invalid FDT magic number");
            },
            FdtErrorKind::UnsupportedVersion(version) => {
                f.append("the FDT version ");
                push_decimal(f, *version as u64);
                f.append(" is not supported");
                assert(f@ =~= old(f)@ + kind_text(*self));
            },
            FdtErrorKind::InvalidLength => {
                f.append("invalid FDT length");
            },
            FdtErrorKind::InvalidHeader(msg) => {
                f.append("FDT header has failed validation: ");
                f.append(msg);
                assert(f@ =~= old(f)@ + kind_text(*self));
            },
            FdtErrorKind::BadToken(token) => {
                f.append("bad FDT token: 0x");
                push_hex(f, *token as u64);
                assert(f@ =~= old(f)@ + kind_text(*self));
            },
            FdtErrorKind::InvalidOffset => {
                f.append("invalid offset in FDT");
            },
            FdtErrorKind::InvalidString => {
                f.append("invalid string in FDT");
            },
        }
    }

    /// What an error of this kind says.
    pub fn to_string(&self) -> (s: String)
        ensures
            s@ == kind_text(*self),
    {
        let mut s = String::new();
        self.fmt(&mut s);
        assert(s@ =~= kind_text(*self));
        s
    }
}

impl View for FdtError {
    type V = Fault;

    closed spec fn view(&self) -> Fault {
        Fault { kind: self.kind, offset: self.offset as int }
    }
}

impl FdtError {
    /// An error of the given kind, found at the given byte offset.
    pub fn new(kind: FdtErrorKind, offset: usize) -> (e: Self)
        ensures
            e@ == (Fault { kind, offset: offset as int }),
    {
        Self { offset, kind }
    }

    /// Appends what the error says.
    pub fn fmt(&self, f: &mut String)
        ensures
            final(f)@ == old(f)@ + fault_text(self@),
    {
        self.kind.fmt(f);
        f.append(" at offset ");
        push_decimal(f, self.offset as u64);
        assert(f@ =~= old(f)@ + fault_text(self@));
    }

    /// What the error says.
    pub fn to_string(&self) -> (s: String)
        ensures
            s@ == fault_text(self@),
    {
        let mut s = String::new();
        self.fmt(&mut s);
        assert(s@ =~= fault_text(self@));
        s
    }

    /// The byte offset in the blob at which the error was found.
    pub fn offset(&self) -> (o: usize)
        ensures
            o == self@.offset,
    {
        self.offset
    }
}

/// A result of reading, with the error replaced by what it says.
pub open spec fn outcome<T>(r: Result<T, FdtError>) -> Result<T, Fault> {
    match r {
        Ok(v) => Ok(v),
        Err(e) => Err(e@),
    }
}

} // verus!
