use vstd::prelude::*;
use crate::chunks::{group_at, read_group, GroupChunk, GroupModel};
use crate::object::{names_of, ObjectHeader};
use crate::reader::{le64, ArchiveReader, read_u64_le};
use crate::tables::{
    meta_data_at, time_samplings_at, IndexedMetaData, TimeSampling, TimeSamplings,
};
use crate::result::OgawaError;

verus! {

/// The version of the format that is read here: major, then minor.
pub const VERSION_MAJOR: u8 = 0;

pub const VERSION_MINOR: u8 = 1;

/// The byte that marks an archive as closed by its writer.
pub const FROZEN: u8 = 0xff;

/// The five bytes that every archive starts with.
pub open spec fn signature() -> Seq<u8> {
    seq![0x4fu8, 0x67u8, 0x61u8, 0x77u8, 0x61u8]
}

/// Whether `bytes` starts with a whole top-level header of a closed archive:
/// the signature, the frozen mark, two bytes of version and the address of
/// the root Group.
pub open spec fn header_is_sound(bytes: Seq<u8>) -> bool {
    &&& bytes.len() >= 16
    &&& bytes.subrange(0, 5) == signature()
    &&& bytes[5] == FROZEN
}

/// Whether the header of `bytes` declares the version that is read here.
pub open spec fn version_is_supported(bytes: Seq<u8>) -> bool {
    bytes[6] == VERSION_MAJOR && bytes[7] == VERSION_MINOR
}

/// The root Group of the archive `bytes`.
///
/// `Corrupt` where the header is cut short, does not start with the
/// signature or is not marked frozen; `UnsupportedVersion` where it declares
/// another version; else what the root address names.
pub open spec fn root_of(bytes: Seq<u8>) -> Result<GroupModel, OgawaError> {
    if !header_is_sound(bytes) {
        Err(OgawaError::Corrupt)
    } else if !version_is_supported(bytes) {
        Err(OgawaError::UnsupportedVersion)
    } else {
        group_at(bytes, le64(bytes, 8) as u64, true)
    }
}

/// An opened archive: the root Group, the header of the root object and the
/// two tables, each read once.
#[derive(Clone, Debug, PartialEq, Eq)]
pub struct Archive {
    pub root_group: GroupChunk,
    pub root_header: ObjectHeader,
    pub indexed_meta_data: IndexedMetaData,
    pub time_samplings: TimeSamplings,
}

/// What an `Archive` is.
pub struct ArchiveModel {
    pub root_group: GroupModel,
    pub time_samplings: Seq<TimeSampling>,
    pub meta_data: Seq<Seq<char>>,
}

impl View for Archive {
    type V = ArchiveModel;

    open spec fn view(&self) -> ArchiveModel {
        ArchiveModel {
            root_group: self.root_group@,
            time_samplings: self.time_samplings.entries@,
            meta_data: names_of(self.indexed_meta_data.entries@),
        }
    }
}

/// The archive that `bytes` hold: the root Group, then the time samplings,
/// then the metadata strings; the first of them that fails gives the error.
pub open spec fn archive_of(bytes: Seq<u8>) -> Result<ArchiveModel, OgawaError> {
    match root_of(bytes) {
        Err(e) => Err(e),
        Ok(root_group) => match time_samplings_at(root_group.children, bytes) {
            Err(e) => Err(e),
            Ok(time_samplings) => match meta_data_at(root_group.children, bytes) {
                Err(e) => Err(e),
                Ok(meta_data) => Ok(ArchiveModel { root_group, time_samplings, meta_data }),
            },
        },
    }
}

impl Archive {
    /// Checks the top-level header and loads the root Group and the two
    /// tables. The root object has the empty path.
    pub fn new(reader: &ArchiveReader) -> (r: Result<Archive, OgawaError>)
        ensures
            match r {
                Ok(a) => archive_of(reader@) == Ok::<ArchiveModel, OgawaError>(a@)
                    && a.root_group.child_count == a.root_group.children@.len()
                    && a.root_header.full_name@.len() == 0,
                Err(e) => archive_of(reader@) == Err::<ArchiveModel, OgawaError>(e),
            },
    {
        let bytes: &[u8] = reader.bytes.as_slice();
        if bytes.len() < 16 {
            return Err(OgawaError::Corrupt);
        }
        let signed: bool = bytes[0] == 0x4f && bytes[1] == 0x67 && bytes[2] == 0x61 && bytes[3]
            == 0x77 && bytes[4] == 0x61;
        proof {
            let head = bytes@.subrange(0, 5);
            if signed {
                assert(head =~= signature());
            } else {
                assert(head[0] == bytes@[0] && head[1] == bytes@[1] && head[2] == bytes@[2]
                    && head[3] == bytes@[3] && head[4] == bytes@[4]);
                assert(signature()[0] == 0x4f && signature()[1] == 0x67 && signature()[2] == 0x61
                    && signature()[3] == 0x77 && signature()[4] == 0x61);
            }
        }
        if !signed || bytes[5] != FROZEN {
            return Err(OgawaError::Corrupt);
        }
        if bytes[6] != VERSION_MAJOR || bytes[7] != VERSION_MINOR {
            return Err(OgawaError::UnsupportedVersion);
        }
        let root: u64 = read_u64_le(bytes, 8);
        let root_group: GroupChunk = match read_group(reader, root, true) {
            Ok(g) => g,
            Err(e) => { return Err(e); },
        };
        let time_samplings: TimeSamplings = match TimeSamplings::load(&root_group, reader) {
            Ok(t) => t,
            Err(e) => { return Err(e); },
        };
        let indexed_meta_data: IndexedMetaData = match IndexedMetaData::load(&root_group, reader) {
            Ok(t) => t,
            Err(e) => { return Err(e); },
        };
        let root_header = ObjectHeader { full_name: String::new() };
        Ok(Archive { root_group, root_header, indexed_meta_data, time_samplings })
    }
}

} // verus!
