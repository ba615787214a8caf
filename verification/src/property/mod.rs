use vstd::prelude::*;
use crate::chunks::{data_at, read_data, DataChunk, GroupChunk};
use crate::pod::{payload_of, pod_array_at, u32s_of, DataType, PodArray, PodType, PodValues};
use crate::reader::ArchiveReader;
use crate::result::OgawaError;

pub mod array_reader;
pub mod scalar_reader;
pub mod compound_reader;
pub mod header_codec;

verus! {

/// What is known of one property before any sample is read.
///
/// `indirection`, where present, maps each logical sample index to the slot
/// of the property's Group that holds its bytes: samples that repeat are
/// stored once. Where it is absent, sample `i` stands in slot `i`.
#[derive(Clone, Debug, PartialEq, Eq)]
pub struct PropertyHeader {
    pub name: String,
    pub data_type: DataType,
    pub next_sample_index: u32,
    pub indirection: Option<Vec<u32>>,
}

/// What a `PropertyHeader` is, its table as a sequence.
pub struct HeaderModel {
    pub name: Seq<char>,
    pub data_type: DataType,
    pub next_sample_index: u32,
    pub indirection: Option<Seq<u32>>,
}

/// Whether `table` serves `count` logical samples: one entry for each, and
/// none below the one before it.
pub open spec fn table_is_valid(table: Seq<u32>, count: u32) -> bool {
    &&& table.len() == count
    &&& forall|i: int, j: int| 0 <= i <= j < table.len() ==> table[i] <= table[j]
}

/// The slot that holds logical sample `index`.
///
/// `OutOfBounds` exactly where `index` is no logical sample; `Corrupt` where
/// the table has no entry for it.
pub open spec fn mapped_index(h: HeaderModel, index: u32) -> Result<usize, OgawaError> {
    if index >= h.next_sample_index {
        Err(OgawaError::OutOfBounds)
    } else {
        match h.indirection {
            None => Ok(index as usize),
            Some(table) => if index < table.len() {
                Ok(table[index as int] as usize)
            } else {
                Err(OgawaError::Corrupt)
            },
        }
    }
}

/// The number of slots that the samples of `h` take up: one more than the
/// last entry of the table, or one for each sample where there is no table.
pub open spec fn slots_used(h: HeaderModel) -> int {
    match h.indirection {
        None => h.next_sample_index as int,
        Some(table) => if table.len() == 0 {
            0
        } else {
            table.last() + 1
        },
    }
}

impl View for PropertyHeader {
    type V = HeaderModel;

    open spec fn view(&self) -> HeaderModel {
        HeaderModel {
            name: self.name@,
            data_type: self.data_type,
            next_sample_index: self.next_sample_index,
            indirection: match self.indirection {
                Some(t) => Some(t@),
                None => None,
            },
        }
    }
}

impl HeaderModel {
    /// The table, where there is one, is valid for the declared samples.
    pub open spec fn wf(self) -> bool {
        match self.indirection {
            None => true,
            Some(table) => table_is_valid(table, self.next_sample_index),
        }
    }
}

/// Whether `table` has `count` entries, none below the one before it.
pub fn check_table(table: &Vec<u32>, count: u32) -> (ok: bool)
    ensures
        ok == table_is_valid(table@, count),
{
    let n: usize = table.len();
    if n > u32::MAX as usize || n as u32 != count {
        return false;
    }
    let mut i: usize = 1;
    while i < n
        invariant
            1 <= i,
            n == table@.len(),
            forall|a: int, b: int| 0 <= a <= b < i && b < n ==> table@[a] <= table@[b],
        decreases n - i,
    {
        if table[i - 1] > table[i] {
            return false;
        }
        proof {
            assert forall|a: int, b: int| 0 <= a <= b < i + 1 && b < n implies table@[a]
                <= table@[b] by {
                if b == i && a < i {
                    assert(table@[a] <= table@[i - 1]);
                }
            }
        }
        i += 1;
    }
    true
}

impl PropertyHeader {
    /// A header without a table: sample `i` stands in slot `i`.
    pub fn new(name: String, data_type: DataType, next_sample_index: u32) -> (h: Self)
        ensures
            h@ == (HeaderModel {
                name: name@,
                data_type,
                next_sample_index,
                indirection: None::<Seq<u32>>,
            }),
            h@.wf(),
    {
        PropertyHeader { name, data_type, next_sample_index, indirection: None }
    }

    /// A header with the table `table`; `Corrupt` exactly where the table is
    /// not valid for `next_sample_index` samples.
    pub fn with_indirection(
        name: String,
        data_type: DataType,
        next_sample_index: u32,
        table: Vec<u32>,
    ) -> (r: Result<Self, OgawaError>)
        ensures
            match r {
                Ok(h) => table_is_valid(table@, next_sample_index) && h@ == (HeaderModel {
                    name: name@,
                    data_type,
                    next_sample_index,
                    indirection: Some(table@),
                }) && h@.wf(),
                Err(e) => e == OgawaError::Corrupt && !table_is_valid(table@, next_sample_index),
            },
    {
        if !check_table(&table, next_sample_index) {
            return Err(OgawaError::Corrupt);
        }
        Ok(PropertyHeader { name, data_type, next_sample_index, indirection: Some(table) })
    }

    /// The slot of the property's Group that holds logical sample `index`.
    pub fn map_index(&self, index: u32) -> (r: Result<usize, OgawaError>)
        ensures
            r == mapped_index(self@, index),
            r == Err::<usize, OgawaError>(OgawaError::OutOfBounds) <==> index
                >= self.next_sample_index,
    {
        if index >= self.next_sample_index {
            return Err(OgawaError::OutOfBounds);
        }
        match &self.indirection {
            None => Ok(index as usize),
            Some(table) => {
                if (index as usize) < table.len() {
                    Ok(table[index as usize] as usize)
                } else {
                    Err(OgawaError::Corrupt)
                }
            },
        }
    }
}

/// The slots of a Group with the slots `children` that hold samples of `h`:
/// all of them, but for the last where it holds the table.
pub open spec fn sample_slots(h: HeaderModel, children: Seq<u64>) -> int {
    if h.indirection.is_some() && children.len() > 0 {
        children.len() - 1
    } else {
        children.len() as int
    }
}

/// The Data chunk that holds logical sample `index` of the property with the
/// header `h` and the Group slots `children`.
///
/// `OutOfBounds` exactly where `index` is no logical sample; `Corrupt` where
/// the sample maps to no sample slot of the Group, or the slot to no Data
/// chunk.
pub open spec fn sample_chunk(h: HeaderModel, children: Seq<u64>, bytes: Seq<u8>, index: u32) -> Result<
    DataChunk,
    OgawaError,
> {
    match mapped_index(h, index) {
        Err(e) => Err(e),
        Ok(slot) => if slot < sample_slots(h, children) {
            data_at(bytes, children[slot as int])
        } else {
            Err(OgawaError::Corrupt)
        },
    }
}

/// The decoded logical sample `index` of an array property.
pub open spec fn sample_at(h: HeaderModel, children: Seq<u64>, bytes: Seq<u8>, index: u32) -> Result<
    PodValues,
    OgawaError,
> {
    match sample_chunk(h, children, bytes, index) {
        Err(e) => Err(e),
        Ok(d) => pod_array_at(bytes, d, h.data_type),
    }
}

/// The decoded logical sample `index` of a scalar property: one element of
/// `extent` values, else `Corrupt`.
pub open spec fn scalar_sample_at(
    h: HeaderModel,
    children: Seq<u64>,
    bytes: Seq<u8>,
    index: u32,
) -> Result<PodValues, OgawaError> {
    match sample_at(h, children, bytes, index) {
        Err(e) => Err(e),
        Ok(v) => if v.len() == h.data_type.extent {
            Ok(v)
        } else {
            Err(OgawaError::Corrupt)
        },
    }
}

/// The table that the last slot of a Group holds for `count` logical
/// samples: a Data chunk of 32-bit indices.
///
/// `Corrupt` where the Group has no slot, the last is no Data chunk, what
/// it holds is no valid table, or the table names a slot that is not before
/// the last.
pub open spec fn table_at(children: Seq<u64>, bytes: Seq<u8>, count: u32) -> Result<
    Seq<u32>,
    OgawaError,
> {
    if children.len() == 0 {
        Err(OgawaError::Corrupt)
    } else {
        match data_at(bytes, children.last()) {
            Err(e) => Err(e),
            Ok(d) => match payload_of(bytes, d) {
                Err(e) => Err(e),
                Ok(p) => if p.len() % 4 == 0 && table_is_valid(u32s_of(p), count) && (count == 0
                    || u32s_of(p).last() < children.len() - 1) {
                    Ok(u32s_of(p))
                } else {
                    Err(OgawaError::Corrupt)
                },
            },
        }
    }
}

/// Reads the table for `count` logical samples from the last slot of
/// `group`.
pub fn load_indirection(group: &GroupChunk, reader: &ArchiveReader, count: u32) -> (r: Result<
    Vec<u32>,
    OgawaError,
>)
    ensures
        match r {
            Ok(t) => table_at(group@.children, reader@, count) == Ok::<Seq<u32>, OgawaError>(t@),
            Err(e) => table_at(group@.children, reader@, count) == Err::<Seq<u32>, OgawaError>(e),
        },
{
    let n: usize = group.children.len();
    if n == 0 {
        return Err(OgawaError::Corrupt);
    }
    let data: DataChunk = match read_data(reader, group.children[n - 1]) {
        Ok(d) => d,
        Err(e) => { return Err(e); },
    };
    let words = DataType { pod_type: PodType::U32, extent: 1 };
    match data.read_pod_array(&words, reader) {
        Ok(PodArray::U32(table)) => {
            if !check_table(&table, count) {
                return Err(OgawaError::Corrupt);
            }
            let entries: usize = table.len();
            if entries > 0 && table[entries - 1] as usize >= n - 1 {
                return Err(OgawaError::Corrupt);
            }
            Ok(table)
        },
        Ok(_) => Err(OgawaError::Corrupt),
        Err(e) => Err(e),
    }
}

/// Finds the Data chunk that holds logical sample `index`; the payload is
/// left unread.
pub fn load_sample_chunk(
    header: &PropertyHeader,
    group: &GroupChunk,
    reader: &ArchiveReader,
    index: u32,
) -> (r: Result<DataChunk, OgawaError>)
    ensures
        r == sample_chunk(header@, group@.children, reader@, index),
        r == Err::<DataChunk, OgawaError>(OgawaError::OutOfBounds) <==> index
            >= header.next_sample_index,
        r.is_ok() ==> r.unwrap().size <= reader@.len(),
{
    let slot: usize = match header.map_index(index) {
        Ok(s) => s,
        Err(e) => { return Err(e); },
    };
    let n: usize = group.children.len();
    let slots: usize = if header.indirection.is_some() && n > 0 { n - 1 } else { n };
    if slot >= slots {
        return Err(OgawaError::Corrupt);
    }
    read_data(reader, group.children[slot])
}

/// Every logical sample of a well-formed header resolves, and to a slot
/// below `slots_used`: where a Group has that many slots, no sample maps out
/// of its range.
pub proof fn lemma_samples_resolve_in_range(h: HeaderModel, index: u32)
    requires
        h.wf(),
        index < h.next_sample_index,
    ensures
        mapped_index(h, index).is_ok(),
        0 <= mapped_index(h, index).unwrap() < slots_used(h),
{
}

/// Where the Group has a sample slot for each slot that a well-formed
/// header uses, each logical sample below the declared count is looked for
/// in a slot of the Group, and each index from the count on is
/// `OutOfBounds`.
pub proof fn lemma_sample_bounds(h: HeaderModel, children: Seq<u64>, bytes: Seq<u8>, index: u32)
    requires
        h.wf(),
        slots_used(h) <= sample_slots(h, children),
    ensures
        index >= h.next_sample_index <==> sample_chunk(h, children, bytes, index) == Err::<
            DataChunk,
            OgawaError,
        >(OgawaError::OutOfBounds),
        index < h.next_sample_index ==> sample_chunk(h, children, bytes, index) == data_at(
            bytes,
            children[mapped_index(h, index).unwrap() as int],
        ) && 0 <= mapped_index(h, index).unwrap() < children.len(),
{
}

/// Two logical samples that stand in one slot are read from the same bytes:
/// they give the same Data chunk, and so the same decoded sample.
pub proof fn lemma_aliased_samples_equal(
    h: HeaderModel,
    children: Seq<u64>,
    bytes: Seq<u8>,
    i: u32,
    j: u32,
)
    requires
        mapped_index(h, i).is_ok(),
        mapped_index(h, i) == mapped_index(h, j),
    ensures
        sample_chunk(h, children, bytes, i) == sample_chunk(h, children, bytes, j),
        sample_at(h, children, bytes, i) == sample_at(h, children, bytes, j),
        scalar_sample_at(h, children, bytes, i) == scalar_sample_at(h, children, bytes, j),
{
}

/// A later logical sample never stands in an earlier slot.
pub proof fn lemma_map_index_monotonic(h: HeaderModel, i: u32, j: u32)
    requires
        h.wf(),
        i <= j < h.next_sample_index,
    ensures
        mapped_index(h, i).is_ok(),
        mapped_index(h, j).is_ok(),
        mapped_index(h, i).unwrap() <= mapped_index(h, j).unwrap(),
{
}

} // verus!
