//! Lumps: the named, immutable byte buffers that an archive holds.

use vstd::prelude::*;

use crate::error::WadError;

verus! {

/// The mathematical value of a [`Lump`]: its name, its bytes, and the path
/// of the archive that owns it.
pub ghost struct LumpV {
    pub name: Seq<char>,
    pub data: Seq<u8>,
    pub path: Seq<char>,
}

/// A named, immutable byte buffer read from an archive. The name is at most
/// eight characters of uppercase letters, digits and a small symbol set;
/// `path` remembers the archive the lump came from, for error reports.
#[derive(Debug)]
pub struct Lump {
    /// The lump's name, as stored in the archive directory.
    pub name: String,
    /// The lump's bytes.
    pub data: Vec<u8>,
    /// The path of the archive the lump was read from.
    pub path: String,
}

impl View for Lump {
    type V = LumpV;

    open spec fn view(&self) -> LumpV {
        LumpV { name: self.name@, data: self.data@, path: self.path@ }
    }
}

impl DeepView for Lump {
    type V = LumpV;

    open spec fn deep_view(&self) -> LumpV {
        self@
    }
}

impl Lump {
    /// Packs a name, its bytes and the owning archive's path into a lump.
    pub fn new(path: String, name: String, data: Vec<u8>) -> (r: Lump)
        ensures
            r@ == (LumpV { name: name@, data: data@, path: path@ }),
    {
        Lump { name, data, path }
    }

    /// The lump's bytes.
    pub fn data(&self) -> (r: &Vec<u8>)
        ensures
            r@ == self@.data,
    {
        &self.data
    }

    /// The number of bytes the lump holds.
    pub fn size(&self) -> (r: usize)
        ensures
            r == self@.data.len(),
    {
        self.data.len()
    }

    /// Builds a [`WadError::Malformed`] blaming this lump and the archive
    /// it came from.
    pub fn error(&self, desc: &str) -> (r: WadError)
        ensures
            r matches WadError::Malformed { path: p, .. } && p@ == self@.path,
    {
        let mut full = self.name.clone();
        full.append(" ");
        full.append(desc);
        WadError::Malformed { path: self.path.clone(), desc: full }
    }
}

} // verus!
