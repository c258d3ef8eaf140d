//! Reader for the WAD archive format used by DOOM-family games: a single-file
//! container of named binary chunks ("lumps"), an overlay stack that layers
//! several archives with later ones shadowing earlier ones, a decoder for the
//! embedded run-length picture format, and a table of decoded pictures driven
//! by a name-list lump.

pub mod bytes;
pub mod error;
pub mod lump;
pub mod archive;
pub mod map;
pub mod name;
pub mod patch;
pub mod stack;

pub use error::WadError;
pub use error::WadKind;
pub use lump::Lump;
pub use lump::LumpV;
pub use archive::WadFile;
pub use archive::WadFileV;
pub use stack::WadStack;
pub use stack::WadSource;
pub use patch::Patch;
pub use patch::PatchV;
pub use patch::Post;
pub use patch::PostV;
pub use patch::Column;
pub use patch::PatchBank;
pub use map::LevelMap;
