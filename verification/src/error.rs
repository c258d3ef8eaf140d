//! Errors reported while opening archives, querying lumps and decoding
//! pictures. Every error carries the path of the archive it blames.

use vstd::prelude::*;

verus! {

/// An archive is either a primary archive carrying a full content set
/// (an IWAD) or a patch archive meant to overlay a primary one (a PWAD).
#[derive(Clone, Copy, Debug, PartialEq, Eq, Hash, Structural)]
pub enum WadKind {
    /// A primary archive such as `doom.wad`.
    Iwad,
    /// A patch archive overlaid on top of earlier archives.
    Pwad,
}

/// A failure while reading or querying an archive.
#[derive(Debug)]
pub enum WadError {
    /// A structural violation: bad magic bytes, an illegal lump name,
    /// truncated data, a non-unique name where uniqueness is required,
    /// missing or misordered markers, or picture data running past the end
    /// of its lump.
    Malformed { path: String, desc: String },
    /// The archive's declared kind does not match the role expected by a
    /// stack-building call.
    WrongType { path: String, expected: WadKind },
}

impl WadError {
    /// Builds a [`WadError::Malformed`] blaming the given archive path.
    pub fn malformed(path: &str, desc: &str) -> (r: WadError)
        ensures
            r matches WadError::Malformed { path: p, desc: d } && p@ == path@ && d@ == desc@,
    {
        WadError::Malformed { path: path.to_owned(), desc: desc.to_owned() }
    }

    /// Whether this is a [`WadError::Malformed`] error.
    pub fn is_malformed(&self) -> (r: bool)
        ensures
            r == (self matches WadError::Malformed { .. }),
    {
        match self {
            WadError::Malformed { .. } => true,
            WadError::WrongType { .. } => false,
        }
    }

    /// Whether this is a [`WadError::WrongType`] error.
    pub fn is_wrong_type(&self) -> (r: bool)
        ensures
            r == (self matches WadError::WrongType { .. }),
    {
        match self {
            WadError::Malformed { .. } => false,
            WadError::WrongType { .. } => true,
        }
    }
}

} // verus!
