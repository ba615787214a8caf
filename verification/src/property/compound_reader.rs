use std::rc::Rc;
use vstd::prelude::*;
use vstd::slice::slice_subrange;
use crate::chunks::{data_at, group_at, read_data, DataChunk, GroupChunk, GroupModel};
use crate::pod::payload_of;
use crate::property::array_reader::ArrayPropertyReader;
use crate::property::header_codec::{
    parse_records, records_from, records_of, PropertyKind, RecordModel, SubHeader,
};
use crate::property::scalar_reader::ScalarPropertyReader;
use crate::property::{
    load_indirection, mapped_index, sample_slots, table_at, HeaderModel, PropertyHeader,
};
use crate::reader::ArchiveReader;
use crate::result::OgawaError;

verus! {

/// A property with no samples of its own, only named sub-properties.
///
/// Its Group holds one Group for each sub-property, in the declared order,
/// and behind them one Data chunk with their records.
#[derive(Debug)]
pub struct CompoundPropertyReader {
    pub group: Rc<GroupChunk>,
    pub name: String,
    pub sub_headers: Vec<SubHeader>,
}

/// A property of any of the three variants.
#[derive(Debug)]
pub enum PropertyReader {
    Scalar(ScalarPropertyReader),
    Array(ArrayPropertyReader),
    Compound(CompoundPropertyReader),
}

/// What a `PropertyReader` is: its Group and what is declared of it.
pub enum PropertyModel {
    Scalar(GroupModel, HeaderModel),
    Array(GroupModel, HeaderModel),
    Compound(GroupModel, Seq<char>, Seq<RecordModel>),
}

impl View for PropertyReader {
    type V = PropertyModel;

    open spec fn view(&self) -> PropertyModel {
        match self {
            PropertyReader::Scalar(p) => PropertyModel::Scalar(p.group@, p.header@),
            PropertyReader::Array(p) => PropertyModel::Array(p.group@, p.header@),
            PropertyReader::Compound(p) => PropertyModel::Compound(
                p.group@,
                p.name@,
                records_of(p.sub_headers@),
            ),
        }
    }
}

impl PropertyModel {
    /// The name of the property.
    pub open spec fn name(self) -> Seq<char> {
        match self {
            PropertyModel::Scalar(_, h) => h.name,
            PropertyModel::Array(_, h) => h.name,
            PropertyModel::Compound(_, name, _) => name,
        }
    }
}

impl PropertyReader {
    /// The name of the property.
    pub fn name(&self) -> (r: &str)
        ensures
            r@ == self@.name(),
    {
        match self {
            PropertyReader::Scalar(p) => p.name(),
            PropertyReader::Array(p) => p.name(),
            PropertyReader::Compound(p) => p.name(),
        }
    }
}

/// The records of the sub-properties of a compound whose Group has the slots
/// `children`: those in the Data chunk of the last slot, one for each slot
/// before it. A Group without slots declares none.
///
/// `Corrupt` where the last slot holds no Data chunk, the chunk no sequence
/// of records, or another number of them than there are slots before it.
pub open spec fn sub_headers_at(children: Seq<u64>, bytes: Seq<u8>) -> Result<
    Seq<RecordModel>,
    OgawaError,
> {
    if children.len() == 0 {
        Ok(Seq::empty())
    } else {
        match data_at(bytes, children.last()) {
            Err(e) => Err(e),
            Ok(d) => match payload_of(bytes, d) {
                Err(e) => Err(e),
                Ok(p) => match records_from(p, 0) {
                    Some(rs) => if rs.len() == children.len() - 1 {
                        Ok(rs)
                    } else {
                        Err(OgawaError::Corrupt)
                    },
                    None => Err(OgawaError::Corrupt),
                },
            },
        }
    }
}

/// The header of the sampled property that `record` declares, with the
/// table from the last slot of its Group where the record announces one.
///
/// `Corrupt` where the table is, or where there is none and the Group has
/// fewer slots than the record declares samples.
pub open spec fn sample_header_at(record: RecordModel, children: Seq<u64>, bytes: Seq<u8>) -> Result<
    HeaderModel,
    OgawaError,
> {
    if record.has_table {
        match table_at(children, bytes, record.next_sample_index) {
            Err(e) => Err(e),
            Ok(t) => Ok(
                HeaderModel {
                    name: record.name,
                    data_type: record.data_type,
                    next_sample_index: record.next_sample_index,
                    indirection: Some(t),
                },
            ),
        }
    } else if record.next_sample_index > children.len() {
        Err(OgawaError::Corrupt)
    } else {
        Ok(
            HeaderModel {
                name: record.name,
                data_type: record.data_type,
                next_sample_index: record.next_sample_index,
                indirection: None,
            },
        )
    }
}

/// Every sampled property that loads is sound: its table, where it has one,
/// is valid, and each of its logical samples stands in a sample slot of its
/// Group.
pub proof fn lemma_loaded_samples_in_range(
    record: RecordModel,
    g: GroupModel,
    bytes: Seq<u8>,
    index: u32,
)
    requires
        property_on(record, g, bytes).is_ok(),
        record.kind != PropertyKind::Compound,
        index < record.next_sample_index,
    ensures
        sample_header_at(record, g.children, bytes).is_ok(),
        sample_header_at(record, g.children, bytes).unwrap().wf(),
        mapped_index(sample_header_at(record, g.children, bytes).unwrap(), index).is_ok(),
        0 <= mapped_index(sample_header_at(record, g.children, bytes).unwrap(), index).unwrap()
            < sample_slots(sample_header_at(record, g.children, bytes).unwrap(), g.children),
{
    let h = sample_header_at(record, g.children, bytes).unwrap();
    if record.has_table {
        let table = h.indirection.unwrap();
        assert(table[index as int] <= table[table.len() - 1]);
    }
}

/// The property that `record` declares on the Group `g`.
pub open spec fn property_on(record: RecordModel, g: GroupModel, bytes: Seq<u8>) -> Result<
    PropertyModel,
    OgawaError,
> {
    match record.kind {
        PropertyKind::Compound => match sub_headers_at(g.children, bytes) {
            Err(e) => Err(e),
            Ok(rs) => Ok(PropertyModel::Compound(g, record.name, rs)),
        },
        PropertyKind::Scalar => match sample_header_at(record, g.children, bytes) {
            Err(e) => Err(e),
            Ok(h) => Ok(PropertyModel::Scalar(g, h)),
        },
        PropertyKind::Array => match sample_header_at(record, g.children, bytes) {
            Err(e) => Err(e),
            Ok(h) => Ok(PropertyModel::Array(g, h)),
        },
    }
}

/// Sub-property `index` of a compound with the records `records` and the
/// Group slots `children`.
///
/// `OutOfBounds` exactly where `index` is no sub-property; `Corrupt` where
/// the Group has no slot for it; else what loading the Group in slot `index`
/// and the property on it gives.
pub open spec fn sub_property_at(
    records: Seq<RecordModel>,
    children: Seq<u64>,
    bytes: Seq<u8>,
    index: int,
) -> Result<PropertyModel, OgawaError> {
    if index < 0 || index >= records.len() {
        Err(OgawaError::OutOfBounds)
    } else if index >= children.len() {
        Err(OgawaError::Corrupt)
    } else {
        match group_at(bytes, children[index], false) {
            Err(e) => Err(e),
            Ok(g) => property_on(records[index], g, bytes),
        }
    }
}

impl CompoundPropertyReader {
    /// Reads the records of the sub-properties from the last slot of `group`.
    pub fn new(group: Rc<GroupChunk>, name: String, reader: &ArchiveReader) -> (r: Result<
        Self,
        OgawaError,
    >)
        ensures
            match r {
                Ok(c) => sub_headers_at(group@.children, reader@) == Ok::<
                    Seq<RecordModel>,
                    OgawaError,
                >(records_of(c.sub_headers@)) && c.group == group && c.name == name,
                Err(e) => sub_headers_at(group@.children, reader@) == Err::<
                    Seq<RecordModel>,
                    OgawaError,
                >(e),
            },
    {
        let n: usize = group.children.len();
        if n == 0 {
            let sub_headers: Vec<SubHeader> = Vec::new();
            proof {
                assert(records_of(sub_headers@) =~= Seq::<RecordModel>::empty());
            }
            return Ok(Self { group, name, sub_headers });
        }
        let data: DataChunk = match read_data(reader, group.children[n - 1]) {
            Ok(d) => d,
            Err(e) => { return Err(e); },
        };
        let len: usize = reader.bytes.len();
        if data.position > len as u64 || (len as u64) - data.position < data.size {
            return Err(OgawaError::Corrupt);
        }
        let start: usize = data.position as usize;
        let end: usize = start + data.size as usize;
        let payload: &[u8] = slice_subrange(reader.bytes.as_slice(), start, end);
        match parse_records(payload) {
            Some(sub_headers) => {
                if sub_headers.len() != n - 1 {
                    return Err(OgawaError::Corrupt);
                }
                Ok(Self { group, name, sub_headers })
            },
            None => Err(OgawaError::Corrupt),
        }
    }

    /// The name of the property.
    pub fn name(&self) -> (r: &str)
        ensures
            r@ == self.name@,
    {
        self.name.as_str()
    }

    /// The number of sub-properties.
    pub fn sub_property_count(&self) -> (n: usize)
        ensures
            n == self.sub_headers@.len(),
    {
        self.sub_headers.len()
    }

    /// Loads sub-property `index`: the reader of the declared variant, on the
    /// Group in slot `index`.
    ///
    /// `OutOfBounds` exactly where `index` is not below
    /// `sub_property_count()`.
    pub fn load_sub_property(&self, index: usize, reader: &ArchiveReader) -> (r: Result<
        PropertyReader,
        OgawaError,
    >)
        ensures
            match r {
                Ok(p) => sub_property_at(
                    records_of(self.sub_headers@),
                    self.group@.children,
                    reader@,
                    index as int,
                ) == Ok::<PropertyModel, OgawaError>(p@),
                Err(e) => sub_property_at(
                    records_of(self.sub_headers@),
                    self.group@.children,
                    reader@,
                    index as int,
                ) == Err::<PropertyModel, OgawaError>(e),
            },
            r matches Err(OgawaError::OutOfBounds) <==> index >= self.sub_headers@.len(),
    {
        if index >= self.sub_headers.len() {
            return Err(OgawaError::OutOfBounds);
        }
        if index >= self.group.children.len() {
            return Err(OgawaError::Corrupt);
        }
        let group: GroupChunk = match self.group.load_group(reader, index, false) {
            Ok(g) => g,
            Err(e) => { return Err(e); },
        };
        let sub: &SubHeader = &self.sub_headers[index];
        let name: String = sub.header.name.clone();
        if let PropertyKind::Compound = sub.kind {
            return match CompoundPropertyReader::new(Rc::new(group), name, reader) {
                Ok(c) => Ok(PropertyReader::Compound(c)),
                Err(e) => Err(e),
            };
        }
        let indirection: Option<Vec<u32>> = if sub.has_table {
            match load_indirection(&group, reader, sub.header.next_sample_index) {
                Ok(t) => Some(t),
                Err(e) => { return Err(e); },
            }
        } else {
            if sub.header.next_sample_index as usize > group.children.len() {
                return Err(OgawaError::Corrupt);
            }
            None
        };
        let header = PropertyHeader {
            name,
            data_type: sub.header.data_type,
            next_sample_index: sub.header.next_sample_index,
            indirection,
        };
        match sub.kind {
            PropertyKind::Scalar => Ok(
                PropertyReader::Scalar(ScalarPropertyReader::new(Rc::new(group), header)),
            ),
            _ => Ok(PropertyReader::Array(ArrayPropertyReader::new(Rc::new(group), header))),
        }
    }

    /// Loads all sub-properties, the last first.
    ///
    /// Entry `k` is number `n - 1 - k` of the `n`: pushed on a stack in this
    /// order, they are popped first to last. The first that fails to load,
    /// last to first, gives the error.
    pub fn load_sub_properties_reversed(&self, reader: &ArchiveReader) -> (r: Result<Vec<PropertyReader>, OgawaError>)
        ensures
            match r {
                Ok(v) => {
                    &&& v@.len() == self.sub_headers@.len()
                    &&& forall|k: int|
                        0 <= k < v@.len() ==> sub_property_at(records_of(self.sub_headers@), self.group@.children, reader@, v@.len() - 1 - k) == Ok::<
                            PropertyModel,
                            OgawaError,
                        >((#[trigger] v@[k])@)
                },
                Err(e) => exists|i: int|
                    {
                        &&& 0 <= i < self.sub_headers@.len()
                        &&& #[trigger] sub_property_at(records_of(self.sub_headers@), self.group@.children, reader@, i) == Err::<PropertyModel, OgawaError>(e)
                        &&& forall|j: int|
                            i < j < self.sub_headers@.len() ==> (#[trigger] sub_property_at(records_of(self.sub_headers@), self.group@.children, reader@, j)).is_ok()
                    },
            },
    {
        let n: usize = self.sub_headers.len();
        let mut out: Vec<PropertyReader> = Vec::new();
        let mut k: usize = 0;
        while k < n
            invariant
                k <= n,
                n == self.sub_headers@.len(),
                out@.len() == k,
                forall|m: int|
                    0 <= m < k ==> sub_property_at(records_of(self.sub_headers@), self.group@.children, reader@, n - 1 - m) == Ok::<PropertyModel, OgawaError>(
                        (#[trigger] out@[m])@,
                    ),
            decreases n - k,
        {
            let index: usize = n - 1 - k;
            match self.load_sub_property(index, reader) {
                Ok(x) => {
                    out.push(x);
                },
                Err(e) => {
                    proof {
                        assert forall|j: int| index < j < n implies (#[trigger] sub_property_at(records_of(self.sub_headers@), self.group@.children, reader@, j)).is_ok() by {
                            let m = n - 1 - j;
                            assert(sub_property_at(records_of(self.sub_headers@), self.group@.children, reader@, n - 1 - m) == Ok::<PropertyModel, OgawaError>(out@[m]@));
                        }
                    }
                    return Err(e);
                },
            }
            k += 1;
        }
        Ok(out)
    }
}

} // verus!
