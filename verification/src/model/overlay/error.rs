//! Errors reported while applying an overlay.

use vstd::prelude::*;
use vstd::string::StringExecFns;

verus! {

/// The kind of an error that can occur when applying an overlay to a device
/// tree.
#[derive(Debug)]
#[non_exhaustive]
pub enum OverlayErrorKind {
    /// A fragment has no `target-path` property.
    TargetPathNotFound,
    /// The `target-path` property of a fragment is not a string.
    TargetPathInvalid,
    /// The `target-path` of a fragment names no node of the base tree.
    TargetNodeNotFound,
    /// A fragment has no `__overlay__` node.
    SourceNodeNotFound,
    /// A node has lost its `phandle` property while it was renumbered.
    PhandleNotFound,
    /// A `phandle` property is not four bytes long.
    CorruptedPhandle,
}

/// What an [`OverlayError`] says: the kind of the error, and the name of
/// the fragment or node at which it was found.
pub ghost struct OverlayFault {
    pub kind: OverlayErrorKind,
    pub fragment: Seq<char>,
}

/// An error that can occur when applying an overlay to a device tree.
#[derive(Debug)]
#[non_exhaustive]
pub struct OverlayError {
    fragment: String,
    /// The type of the error that has occurred.
    pub kind: OverlayErrorKind,
}

/// What an error of the given kind says.
pub open spec fn overlay_kind_text(kind: OverlayErrorKind) -> Seq<char> {
    match kind {
        OverlayErrorKind::TargetPathNotFound => "target-path property not found"@,
        OverlayErrorKind::TargetPathInvalid => "target-path property is not a valid string"@,
        OverlayErrorKind::TargetNodeNotFound => "target node not found"@,
        OverlayErrorKind::SourceNodeNotFound => "source node not found"@,
        OverlayErrorKind::PhandleNotFound => "phandle property not found"@,
        OverlayErrorKind::CorruptedPhandle => "phandle property is corrupted"@,
    }
}

/// What an error says: its kind, and the fragment at which it was found.
pub open spec fn overlay_fault_text(f: OverlayFault) -> Seq<char> {
    overlay_kind_text(f.kind) + " in fragment `"@ + f.fragment + "`"@
}

impl OverlayErrorKind {
    /// Appends what an error of this kind says.
    pub fn fmt(&self, f: &mut String)
        ensures
            final(f)@ == old(f)@ + overlay_kind_text(*self),
    {
        match self {
            OverlayErrorKind::TargetPathNotFound => {
                f.append("target-path property not found");
            },
            OverlayErrorKind::TargetPathInvalid => {
                f.append("target-path property is not a valid string");
            },
            OverlayErrorKind::TargetNodeNotFound => {
                f.append("target node not found");
            },
            OverlayErrorKind::SourceNodeNotFound => {
                f.append("source node not found");
            },
            OverlayErrorKind::PhandleNotFound => {
                f.append("phandle property not found");
            },
            OverlayErrorKind::CorruptedPhandle => {
                f.append("phandle property is corrupted");
            },
        }
    }

    /// What an error of this kind says.
    pub fn to_string(&self) -> (s: String)
        ensures
            s@ == overlay_kind_text(*self),
    {
        let mut s = String::new();
        self.fmt(&mut s);
        assert(s@ =~= overlay_kind_text(*self));
        s
    }
}

impl View for OverlayError {
    type V = OverlayFault;

    closed spec fn view(&self) -> OverlayFault {
        OverlayFault { kind: self.kind, fragment: self.fragment@ }
    }
}

impl OverlayError {
    /// An error of the given kind, found at the fragment or node of the
    /// given name.
    pub fn new(kind: OverlayErrorKind, fragment: String) -> (e: Self)
        ensures
            e@ == (OverlayFault { kind, fragment: fragment@ }),
    {
        Self { fragment, kind }
    }

    /// Appends what the error says.
    pub fn fmt(&self, f: &mut String)
        ensures
            final(f)@ == old(f)@ + overlay_fault_text(self@),
    {
        self.kind.fmt(f);
        f.append(" in fragment `");
        f.append(self.fragment.as_str());
        f.append("`");
        assert(f@ =~= old(f)@ + overlay_fault_text(self@));
    }

    /// What the error says.
    pub fn to_string(&self) -> (s: String)
        ensures
            s@ == overlay_fault_text(self@),
    {
        let mut s = String::new();
        self.fmt(&mut s);
        assert(s@ =~= overlay_fault_text(self@));
        s
    }

    /// The name of the fragment or node at which the error was found.
    pub fn fragment(&self) -> (f: &str)
        ensures
            f@ == self@.fragment,
    {
        self.fragment.as_str()
    }
}

} // verus!
