//! A map: a marker lump (`ExMy` or `MAPnn`) followed by a fixed block of
//! data lumps. Only the shape of the block is checked here; the geometry
//! the data lumps hold is decoded elsewhere.

use vstd::prelude::*;

use crate::error::WadError;
use crate::lump::LumpV;
use crate::stack::{stack_following, WadStack};

verus! {

/// How many data lumps follow a map marker.
pub open spec fn map_block_len() -> int {
    10
}

/// Whether a map's data lumps stand at their fixed positions after the
/// marker: things first, then lines, sides and vertices, with sectors
/// eighth.
pub open spec fn map_names_ok(b: Seq<LumpV>) -> bool {
    &&& b.len() == map_block_len()
    &&& b[0].name == "THINGS"@
    &&& b[1].name == "LINEDEFS"@
    &&& b[2].name == "SIDEDEFS"@
    &&& b[3].name == "VERTEXES"@
    &&& b[7].name == "SECTORS"@
}

/// One map read from a stack: for now its name and the checked shape of
/// its lump block.
#[derive(Debug)]
pub struct LevelMap {
    name: String,
}

impl View for LevelMap {
    type V = Seq<char>;

    closed spec fn view(&self) -> Seq<char> {
        self.name@
    }
}

impl LevelMap {
    /// Loads a map, typically named `ExMy` or `MAPnn`, from the block of
    /// lumps following its marker; a stack with no such block yields
    /// `Ok(None)`, a block whose data lumps are misnamed an error.
    pub fn load(wad: &WadStack, name: &str) -> (r: Result<Option<LevelMap>, WadError>)
        ensures
            match r {
                Ok(None) => stack_following(wad@, name@, map_block_len()) is None,
                Ok(Some(m)) => (stack_following(wad@, name@, map_block_len()) matches Some(b)
                    && map_names_ok(b)) && m@ == name@,
                Err(e) => (stack_following(wad@, name@, map_block_len()) matches Some(b)
                    && !map_names_ok(b)) && e matches WadError::Malformed { .. },
            },
    {
        let lumps = match wad.lumps_after(name, 10) {
            Some(sl) => sl,
            None => {
                return Ok(None);
            },
        };
        proof {
            crate::stack::lemma_stack_following_len(wad@, name@, map_block_len());
            assert(lumps@.len() == lumps.deep_view().len());
            assert(lumps.deep_view()[0] == lumps@[0]@);
            assert(lumps.deep_view()[1] == lumps@[1]@);
            assert(lumps.deep_view()[2] == lumps@[2]@);
            assert(lumps.deep_view()[3] == lumps@[3]@);
            assert(lumps.deep_view()[7] == lumps@[7]@);
        }
        if !(lumps[0].name == "THINGS".to_owned() && lumps[1].name == "LINEDEFS".to_owned()
            && lumps[2].name == "SIDEDEFS".to_owned() && lumps[3].name == "VERTEXES".to_owned()
            && lumps[7].name == "SECTORS".to_owned()) {
            let mut desc = name.to_owned();
            desc.append(" has misnamed map lumps");
            return Err(WadError::Malformed { path: lumps[0].path.clone(), desc });
        }
        Ok(Some(LevelMap { name: name.to_owned() }))
    }

    /// The map's name.
    pub fn name(&self) -> (r: &str)
        ensures
            r@ == self@,
    {
        self.name.as_str()
    }
}

} // verus!
