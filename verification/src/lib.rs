//! Reader for a chunk-addressed hierarchical archive: a tree of Group and Data
//! chunks named by 8-byte addresses, the typed decoding of Data chunks, and the
//! objects and sampled properties stored on top of them.
//!
//! Layout, all words little-endian:
//! - the archive starts with sixteen bytes: the signature `Ogawa`, the frozen
//!   mark, two bytes of version, and the address of the root Group;
//! - an address is a byte offset, a multiple of eight, with the top bit set
//!   where it names a Data chunk; offset 0 is the empty chunk of either kind;
//! - a Group chunk is a count of children and then their addresses;
//! - a Data chunk is a size and then as many bytes of payload;
//! - the Group of a sampled property holds one Data chunk for each stored
//!   sample and, behind them, an optional table from logical sample to slot;
//! - the Group of a compound property holds the Groups of its sub-properties
//!   and, behind them, a Data chunk with one record for each;
//! - the Group of an object holds the Group of its properties, the Groups of
//!   its children and, behind them, a Data chunk with the children's names.
//!
//! Every load is a function of the bytes of the archive, which the caller
//! reads into an `ArchiveReader`; nothing is cached, and nothing is written.

pub mod result;
pub mod reader;
pub mod chunks;
pub mod pod;
pub mod codec_laws;
pub mod property;
pub mod object;
pub mod tables;
pub mod archive;
pub mod walk;
