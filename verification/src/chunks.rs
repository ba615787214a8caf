use vstd::prelude::*;
use crate::reader::{le64, ArchiveReader, read_u64_le};
use crate::result::OgawaError;

verus! {

/// The top bit of an address: set for a Data chunk, clear for a Group chunk.
pub const DATA_TAG: u64 = 0x8000_0000_0000_0000;

/// The empty Group address: no chunk stands behind it.
pub const EMPTY_GROUP: u64 = 0;

/// The empty Data address: no chunk stands behind it.
pub const EMPTY_DATA: u64 = 0x8000_0000_0000_0000;

/// The bytes of the top-level header, which no root Group may overlap.
pub const HEADER_SIZE: u64 = 16;

/// Whether `address` names a Group chunk: its top bit is clear.
pub open spec fn spec_is_group(address: u64) -> bool {
    address < DATA_TAG
}

/// The byte offset that an address names, its tag taken off.
pub open spec fn spec_offset(address: u64) -> u64 {
    if address < DATA_TAG {
        address
    } else {
        (address - DATA_TAG) as u64
    }
}

/// Whether no chunk stands behind `address`.
pub open spec fn spec_is_empty(address: u64) -> bool {
    spec_offset(address) == 0
}

/// Whether `address` names a Group chunk; no byte is read.
pub fn is_group(address: u64) -> (r: bool)
    ensures
        r == spec_is_group(address),
{
    address < DATA_TAG
}

/// Whether `address` names a Data chunk; no byte is read.
pub fn is_data(address: u64) -> (r: bool)
    ensures
        r == !spec_is_group(address),
{
    address >= DATA_TAG
}

/// The byte offset that `address` names.
pub fn address_offset(address: u64) -> (r: u64)
    ensures
        r == spec_offset(address),
{
    if address < DATA_TAG {
        address
    } else {
        address - DATA_TAG
    }
}

/// Whether `address` is one of the two empty addresses.
pub fn is_empty(address: u64) -> (r: bool)
    ensures
        r == spec_is_empty(address),
{
    address_offset(address) == 0
}

/// A Data chunk: `size` bytes whose first stands at `position`.
#[derive(Clone, Copy, Debug, PartialEq, Eq, Structural)]
pub struct DataChunk {
    pub position: u64,
    pub size: u64,
}

/// A Group chunk: the addresses of its children, in the order of the file.
#[derive(Clone, Debug, PartialEq, Eq)]
pub struct GroupChunk {
    pub position: u64,
    pub child_count: u64,
    pub children: Vec<u64>,
}

/// What a Group chunk is: where it stands and what its slots hold.
pub struct GroupModel {
    pub position: u64,
    pub children: Seq<u64>,
}

impl View for GroupChunk {
    type V = GroupModel;

    open spec fn view(&self) -> GroupModel {
        GroupModel { position: self.position, children: self.children@ }
    }
}

/// A child of a Group: a Group or a Data chunk.
#[derive(Clone, Debug, PartialEq, Eq)]
pub enum Chunk {
    Group(GroupChunk),
    Data(DataChunk),
}

/// The `count` addresses that stand in `bytes` from `at` on.
pub open spec fn addresses_at(bytes: Seq<u8>, at: int, count: nat) -> Seq<u64> {
    Seq::new(count, |i: int| le64(bytes, at + 8 * i) as u64)
}

/// The Group chunk that `address` names in `bytes`.
///
/// `Corrupt` where the address is tagged as Data, is empty or unaligned, lies
/// inside the top-level header though it is the root's, or where the count or
/// the addresses it announces would end behind the last byte.
pub open spec fn group_at(bytes: Seq<u8>, address: u64, is_root: bool) -> Result<
    GroupModel,
    OgawaError,
> {
    if !spec_is_group(address) || address == 0 || address % 8 != 0 || (is_root && address
        < HEADER_SIZE) {
        Err(OgawaError::Corrupt)
    } else if address + 8 > bytes.len() {
        Err(OgawaError::Corrupt)
    } else if 8 * le64(bytes, address as int) > bytes.len() - address - 8 {
        Err(OgawaError::Corrupt)
    } else {
        Ok(
            GroupModel {
                position: address,
                children: addresses_at(bytes, address + 8, le64(bytes, address as int) as nat),
            },
        )
    }
}

/// The Data chunk that `address` names in `bytes`: an eight-byte size, then
/// the payload.
///
/// The empty Data address gives the chunk of no bytes. `Corrupt` where the
/// address is tagged as Group or unaligned, or where the size word or the
/// payload it announces would end behind the last byte.
pub open spec fn data_at(bytes: Seq<u8>, address: u64) -> Result<DataChunk, OgawaError> {
    let offset = spec_offset(address);
    if spec_is_group(address) {
        Err(OgawaError::Corrupt)
    } else if offset == 0 {
        Ok(DataChunk { position: 0, size: 0 })
    } else if offset % 8 != 0 || offset + 8 > bytes.len() {
        Err(OgawaError::Corrupt)
    } else if le64(bytes, offset as int) > bytes.len() - offset - 8 {
        Err(OgawaError::Corrupt)
    } else {
        Ok(DataChunk { position: (offset + 8) as u64, size: le64(bytes, offset as int) as u64 })
    }
}

/// The Group behind slot `index` of a Group with the slots `children`.
pub open spec fn child_group(children: Seq<u64>, bytes: Seq<u8>, index: int, is_root: bool) -> Result<
    GroupModel,
    OgawaError,
> {
    if 0 <= index < children.len() {
        group_at(bytes, children[index], is_root)
    } else {
        Err(OgawaError::OutOfBounds)
    }
}

/// The Data chunk behind slot `index` of a Group with the slots `children`.
pub open spec fn child_data(children: Seq<u64>, bytes: Seq<u8>, index: int) -> Result<
    DataChunk,
    OgawaError,
> {
    if 0 <= index < children.len() {
        data_at(bytes, children[index])
    } else {
        Err(OgawaError::OutOfBounds)
    }
}

/// Reads the Group chunk that `address` names.
pub fn read_group(reader: &ArchiveReader, address: u64, is_root: bool) -> (r: Result<
    GroupChunk,
    OgawaError,
>)
    ensures
        match r {
            Ok(g) => group_at(reader@, address, is_root) == Ok::<GroupModel, OgawaError>(g@)
                && g.child_count == g.children@.len(),
            Err(e) => group_at(reader@, address, is_root) == Err::<GroupModel, OgawaError>(e),
        },
{
    let len: usize = reader.bytes.len();
    if !is_group(address) || address == 0 || address % 8 != 0 || (is_root && address
        < HEADER_SIZE) {
        return Err(OgawaError::Corrupt);
    }
    if address > len as u64 || (len as u64) - address < 8 {
        return Err(OgawaError::Corrupt);
    }
    let at: usize = address as usize;
    let bytes: &[u8] = reader.bytes.as_slice();
    let count: u64 = read_u64_le(bytes, at);
    let room: usize = len - at - 8;
    if count > (room / 8) as u64 {
        return Err(OgawaError::Corrupt);
    }
    let n: usize = count as usize;
    let first: usize = at + 8;
    let mut children: Vec<u64> = Vec::new();
    let mut i: usize = 0;
    while i < n
        invariant
            i <= n,
            first + 8 * n <= bytes@.len(),
            bytes@.len() == len,
            children@.len() == i,
            forall|j: int| 0 <= j < i ==> children@[j] == le64(bytes@, first + 8 * j) as u64,
        decreases n - i,
    {
        children.push(read_u64_le(bytes, first + 8 * i));
        i += 1;
    }
    proof {
        assert(children@ =~= addresses_at(reader@, address + 8, count as nat));
    }
    Ok(GroupChunk { position: address, child_count: count, children })
}

/// Reads the header of the Data chunk that `address` names; the payload is
/// left unread.
pub fn read_data(reader: &ArchiveReader, address: u64) -> (r: Result<DataChunk, OgawaError>)
    ensures
        r == data_at(reader@, address),
{
    if is_group(address) {
        return Err(OgawaError::Corrupt);
    }
    let offset: u64 = address_offset(address);
    if offset == 0 {
        return Ok(DataChunk { position: 0, size: 0 });
    }
    let len: usize = reader.bytes.len();
    if offset % 8 != 0 || offset > len as u64 || (len as u64) - offset < 8 {
        return Err(OgawaError::Corrupt);
    }
    let at: usize = offset as usize;
    let size: u64 = read_u64_le(reader.bytes.as_slice(), at);
    if size > (len - at - 8) as u64 {
        return Err(OgawaError::Corrupt);
    }
    Ok(DataChunk { position: offset + 8, size })
}

impl GroupChunk {
    /// The Group with no place in the file and the slots `children`: the
    /// parent from which a walk starts.
    pub fn from_children(children: Vec<u64>) -> (g: Self)
        requires
            children@.len() <= u64::MAX,
        ensures
            g@ == (GroupModel { position: 0, children: children@ }),
            g.child_count == children@.len(),
    {
        let child_count: u64 = children.len() as u64;
        GroupChunk { position: 0, child_count, children }
    }

    /// Loads the Group behind slot `index`.
    ///
    /// `OutOfBounds` exactly where there is no such slot; an empty slot, or
    /// one that holds a Data address, is `Corrupt`.
    pub fn load_group(&self, reader: &ArchiveReader, index: usize, is_root: bool) -> (r: Result<
        GroupChunk,
        OgawaError,
    >)
        ensures
            match r {
                Ok(g) => child_group(self@.children, reader@, index as int, is_root) == Ok::<
                    GroupModel,
                    OgawaError,
                >(g@) && g.child_count == g.children@.len() && spec_is_group(
                    self@.children[index as int],
                ),
                Err(e) => child_group(self@.children, reader@, index as int, is_root) == Err::<
                    GroupModel,
                    OgawaError,
                >(e),
            },
            r == Err::<GroupChunk, OgawaError>(OgawaError::OutOfBounds) <==> index
                >= self@.children.len(),
    {
        if index >= self.children.len() {
            return Err(OgawaError::OutOfBounds);
        }
        read_group(reader, self.children[index], is_root)
    }

    /// Loads the header of the Data chunk behind slot `index`.
    ///
    /// `OutOfBounds` exactly where there is no such slot; the empty Data
    /// address gives the chunk of no bytes; a Group address is `Corrupt`.
    pub fn load_data(&self, reader: &ArchiveReader, index: usize) -> (r: Result<
        DataChunk,
        OgawaError,
    >)
        ensures
            r == child_data(self@.children, reader@, index as int),
            r.is_ok() ==> !spec_is_group(self@.children[index as int]),
            r == Err::<DataChunk, OgawaError>(OgawaError::OutOfBounds) <==> index
                >= self@.children.len(),
    {
        if index >= self.children.len() {
            return Err(OgawaError::OutOfBounds);
        }
        read_data(reader, self.children[index])
    }
}

/// An address is read as a Group or as a Data chunk, never as both: where
/// slot `index` loads as a Group its address is a Group address, where it
/// loads as Data it is a Data address, and an address of the one kind never
/// loads as the other.
pub proof fn lemma_tag_predicts_load(children: Seq<u64>, bytes: Seq<u8>, index: int, is_root: bool)
    requires
        0 <= index < children.len(),
    ensures
        child_group(children, bytes, index, is_root).is_ok() ==> spec_is_group(children[index]),
        child_data(children, bytes, index).is_ok() ==> !spec_is_group(children[index]),
        spec_is_group(children[index]) ==> child_data(children, bytes, index) == Err::<
            DataChunk,
            OgawaError,
        >(OgawaError::Corrupt),
        !spec_is_group(children[index]) ==> child_group(children, bytes, index, is_root) == Err::<
            GroupModel,
            OgawaError,
        >(OgawaError::Corrupt),
        !(child_group(children, bytes, index, is_root).is_ok() && child_data(
            children,
            bytes,
            index,
        ).is_ok()),
{
}

} // verus!
