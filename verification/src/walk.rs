use vstd::prelude::*;
use crate::chunks::{
    data_at, group_at, is_group, read_data, read_group, spec_is_group, Chunk, DataChunk,
    GroupChunk, GroupModel,
};
use crate::reader::ArchiveReader;
use crate::result::OgawaError;

verus! {

/// A chunk that waits to be visited: how deep it stands below the start of
/// the walk, the slot of its parent that names it, and the chunk.
#[derive(Clone, Debug, PartialEq, Eq)]
pub struct Visit {
    pub indent: usize,
    pub index: usize,
    pub chunk: Chunk,
}

/// What a `Chunk` is.
pub enum ChunkModel {
    Group(GroupModel),
    Data(DataChunk),
}

impl View for Chunk {
    type V = ChunkModel;

    open spec fn view(&self) -> ChunkModel {
        match self {
            Chunk::Group(g) => ChunkModel::Group(g@),
            Chunk::Data(d) => ChunkModel::Data(*d),
        }
    }
}

/// The chunk that `address` names in `bytes`, read as its tag says.
pub open spec fn chunk_at(bytes: Seq<u8>, address: u64) -> Result<ChunkModel, OgawaError> {
    if spec_is_group(address) {
        match group_at(bytes, address, false) {
            Ok(g) => Ok(ChunkModel::Group(g)),
            Err(e) => Err(e),
        }
    } else {
        match data_at(bytes, address) {
            Ok(d) => Ok(ChunkModel::Data(d)),
            Err(e) => Err(e),
        }
    }
}

/// Reads the chunk that `address` names, as a Group or as Data by its tag.
pub fn read_chunk(reader: &ArchiveReader, address: u64) -> (r: Result<Chunk, OgawaError>)
    ensures
        match r {
            Ok(c) => chunk_at(reader@, address) == Ok::<ChunkModel, OgawaError>(c@),
            Err(e) => chunk_at(reader@, address) == Err::<ChunkModel, OgawaError>(e),
        },
{
    if is_group(address) {
        match read_group(reader, address, false) {
            Ok(g) => Ok(Chunk::Group(g)),
            Err(e) => Err(e),
        }
    } else {
        match read_data(reader, address) {
            Ok(d) => Ok(Chunk::Data(d)),
            Err(e) => Err(e),
        }
    }
}

/// Loads the children of `group` for a depth-first walk that keeps its
/// pending chunks on a stack: they come last slot first, so that pushed in
/// this order they are popped, and visited, first slot first.
///
/// Entry `k` is the child in slot `n - 1 - k` of the `n` slots, one level
/// below `indent`. The first child that fails to load, last slot first,
/// gives the error.
pub fn children_reversed(group: &GroupChunk, reader: &ArchiveReader, indent: usize) -> (r: Result<
    Vec<Visit>,
    OgawaError,
>)
    requires
        indent < usize::MAX,
    ensures
        match r {
            Ok(v) => {
                &&& v@.len() == group@.children.len()
                &&& forall|k: int|
                    0 <= k < v@.len() ==> {
                        &&& (#[trigger] v@[k]).index == v@.len() - 1 - k
                        &&& v@[k].indent == indent + 1
                        &&& chunk_at(reader@, group@.children[v@.len() - 1 - k]) == Ok::<
                            ChunkModel,
                            OgawaError,
                        >(v@[k].chunk@)
                    }
            },
            Err(e) => exists|i: int|
                {
                    &&& 0 <= i < group@.children.len()
                    &&& #[trigger] chunk_at(reader@, group@.children[i]) == Err::<
                        ChunkModel,
                        OgawaError,
                    >(e)
                    &&& forall|j: int|
                        i < j < group@.children.len() ==> (#[trigger] chunk_at(
                            reader@,
                            group@.children[j],
                        )).is_ok()
                },
        },
{
    let n: usize = group.children.len();
    let mut out: Vec<Visit> = Vec::new();
    let mut k: usize = 0;
    while k < n
        invariant
            k <= n,
            n == group@.children.len(),
            indent < usize::MAX,
            out@.len() == k,
            forall|m: int|
                0 <= m < k ==> {
                    &&& (#[trigger] out@[m]).index == n - 1 - m
                    &&& out@[m].indent == indent + 1
                    &&& chunk_at(reader@, group@.children[n - 1 - m]) == Ok::<
                        ChunkModel,
                        OgawaError,
                    >(out@[m].chunk@)
                },
        decreases n - k,
    {
        let index: usize = n - 1 - k;
        match read_chunk(reader, group.children[index]) {
            Ok(chunk) => {
                out.push(Visit { indent: indent + 1, index, chunk });
            },
            Err(e) => {
                proof {
                    assert forall|j: int| index < j < n implies (#[trigger] chunk_at(
                        reader@,
                        group@.children[j],
                    )).is_ok() by {
                        let m = n - 1 - j;
                        assert(out@[m].index == n - 1 - m);
                    }
                }
                return Err(e);
            },
        }
        k += 1;
    }
    Ok(out)
}

} // verus!
