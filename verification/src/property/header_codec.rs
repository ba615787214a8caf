use vstd::prelude::*;
use vstd::slice::slice_subrange;
use vstd::utf8::{decode_utf8, valid_utf8};
use crate::pod::{copy_bytes, DataType, PodType};
use crate::property::PropertyHeader;
use crate::reader::{le32, read_u32_le};

verus! {

/// The three variants of a property.
#[derive(Clone, Copy, Debug, PartialEq, Eq, Structural)]
pub enum PropertyKind {
    Scalar,
    Array,
    Compound,
}

/// The text that `bytes` encode in UTF-8, where they encode any.
pub open spec fn utf8_text(bytes: Seq<u8>) -> Option<Seq<char>> {
    if valid_utf8(bytes) {
        Some(decode_utf8(bytes))
    } else {
        None
    }
}

/// `String::from_utf8` of std: the string that the bytes encode where they
/// are valid UTF-8, and an error, here nothing, where they are not.
#[verifier::external_body]
pub(crate) fn text_from_utf8(bytes: Vec<u8>) -> (r: Option<String>)
    ensures
        match r {
            Some(s) => valid_utf8(bytes@) && s@ == decode_utf8(bytes@),
            None => !valid_utf8(bytes@),
        },
{
    match String::from_utf8(bytes) {
        Ok(s) => Some(s),
        Err(_) => None,
    }
}

/// What a compound declares of one sub-property: its variant, its header
/// without the table, and whether the last slot of its Group holds a table.
#[derive(Debug)]
pub struct SubHeader {
    pub kind: PropertyKind,
    pub has_table: bool,
    pub header: PropertyHeader,
}

/// What a `SubHeader` is.
pub struct RecordModel {
    pub kind: PropertyKind,
    pub has_table: bool,
    pub name: Seq<char>,
    pub data_type: DataType,
    pub next_sample_index: u32,
}

impl View for SubHeader {
    type V = RecordModel;

    open spec fn view(&self) -> RecordModel {
        RecordModel {
            kind: self.kind,
            has_table: self.has_table,
            name: self.header.name@,
            data_type: self.header.data_type,
            next_sample_index: self.header.next_sample_index,
        }
    }
}

/// The records that a vector of sub-headers holds.
pub open spec fn records_of(v: Seq<SubHeader>) -> Seq<RecordModel> {
    Seq::new(v.len(), |i: int| v[i]@)
}

/// The variant that the tag byte of a record stands for.
pub open spec fn kind_of(tag: u8) -> Option<PropertyKind> {
    if tag == 0 {
        Some(PropertyKind::Scalar)
    } else if tag == 1 {
        Some(PropertyKind::Array)
    } else if tag == 2 {
        Some(PropertyKind::Compound)
    } else {
        None
    }
}

/// The kind of value that the type byte of a record stands for.
pub open spec fn pod_of(tag: u8) -> Option<PodType> {
    if tag == 0 {
        Some(PodType::Bool)
    } else if tag == 1 {
        Some(PodType::U8)
    } else if tag == 2 {
        Some(PodType::I8)
    } else if tag == 3 {
        Some(PodType::U16)
    } else if tag == 4 {
        Some(PodType::I16)
    } else if tag == 5 {
        Some(PodType::U32)
    } else if tag == 6 {
        Some(PodType::I32)
    } else if tag == 7 {
        Some(PodType::U64)
    } else if tag == 8 {
        Some(PodType::I64)
    } else if tag == 9 {
        Some(PodType::F32)
    } else if tag == 10 {
        Some(PodType::F64)
    } else if tag == 11 {
        Some(PodType::String)
    } else {
        None
    }
}

/// The variant that the tag byte `tag` stands for, if any.
pub fn kind_from_tag(tag: u8) -> (r: Option<PropertyKind>)
    ensures
        r == kind_of(tag),
{
    match tag {
        0 => Some(PropertyKind::Scalar),
        1 => Some(PropertyKind::Array),
        2 => Some(PropertyKind::Compound),
        _ => None,
    }
}

/// The kind of value that the type byte `tag` stands for, if any.
pub fn pod_from_tag(tag: u8) -> (r: Option<PodType>)
    ensures
        r == pod_of(tag),
{
    match tag {
        0 => Some(PodType::Bool),
        1 => Some(PodType::U8),
        2 => Some(PodType::I8),
        3 => Some(PodType::U16),
        4 => Some(PodType::I16),
        5 => Some(PodType::U32),
        6 => Some(PodType::I32),
        7 => Some(PodType::U64),
        8 => Some(PodType::I64),
        9 => Some(PodType::F32),
        10 => Some(PodType::F64),
        11 => Some(PodType::String),
        _ => None,
    }
}

/// The bytes before the name in a record: variant, kind of value, extent,
/// table flag, the sample count in four bytes and the length of the name in
/// four.
pub const RECORD_HEAD: usize = 12;

/// Where the record that starts at `at` ends, if it is whole.
pub open spec fn record_end(p: Seq<u8>, at: int) -> Option<int> {
    if at + 12 <= p.len() && at + 12 + le32(p, at + 8) <= p.len() {
        Some(at + 12 + le32(p, at + 8))
    } else {
        None
    }
}

/// The record whose fixed fields are the first twelve bytes of `p` from `at`
/// on and whose name decodes to `name`.
pub open spec fn record_of(p: Seq<u8>, at: int, name: Option<Seq<char>>) -> Option<RecordModel> {
    match (kind_of(p[at]), pod_of(p[at + 1]), name) {
        (Some(kind), Some(pod_type), Some(name)) => if p[at + 3] <= 1 {
            Some(
                RecordModel {
                    kind,
                    has_table: p[at + 3] == 1,
                    name,
                    data_type: DataType { pod_type, extent: p[at + 2] },
                    next_sample_index: le32(p, at + 4) as u32,
                },
            )
        } else {
            None
        },
        _ => None,
    }
}

/// The record that starts at `at`: nothing where it is cut short, a tag is
/// unknown, the table flag is neither 0 nor 1, or the name is no UTF-8.
pub open spec fn record_at(p: Seq<u8>, at: int) -> Option<RecordModel> {
    match record_end(p, at) {
        None => None,
        Some(end) => record_of(p, at, utf8_text(p.subrange(at + 12, end))),
    }
}

/// `rest` behind `done`, where there is a rest.
pub open spec fn behind(done: Seq<RecordModel>, rest: Option<Seq<RecordModel>>) -> Option<
    Seq<RecordModel>,
> {
    match rest {
        None => None,
        Some(r) => Some(done + r),
    }
}

/// The records that `p` holds from `at` to its end, one behind the other;
/// nothing where one of them is no record.
pub open spec fn records_from(p: Seq<u8>, at: int) -> Option<Seq<RecordModel>>
    decreases p.len() - at,
{
    if at < 0 || at >= p.len() {
        Some(Seq::empty())
    } else {
        match (record_end(p, at), record_at(p, at)) {
            (Some(end), Some(r)) => behind(seq![r], records_from(p, end)),
            _ => None,
        }
    }
}

/// Builds the sub-header of the record at `at` from its fixed fields and its
/// decoded name.
pub fn make_sub_header(p: &[u8], at: usize, name: Option<String>) -> (r: Option<SubHeader>)
    requires
        at + 12 <= p@.len(),
    ensures
        match r {
            Some(h) => record_of(
                p@,
                at as int,
                match name {
                    Some(s) => Some(s@),
                    None => None,
                },
            ) == Some(h@) && h.header.indirection.is_none(),
            None => record_of(
                p@,
                at as int,
                match name {
                    Some(s) => Some(s@),
                    None => None,
                },
            ).is_none(),
        },
{
    let len: usize = p.len();
    assert(at + 12 <= len);
    let kind: PropertyKind = match kind_from_tag(p[at]) {
        Some(k) => k,
        None => { return None; },
    };
    let pod_type: PodType = match pod_from_tag(p[at + 1]) {
        Some(t) => t,
        None => { return None; },
    };
    let name: String = match name {
        Some(s) => s,
        None => { return None; },
    };
    if p[at + 3] > 1 {
        return None;
    }
    let has_table: bool = p[at + 3] == 1;
    let data_type = DataType { pod_type, extent: p[at + 2] };
    let next_sample_index: u32 = read_u32_le(p, at + 4);
    Some(
        SubHeader {
            kind,
            has_table,
            header: PropertyHeader { name, data_type, next_sample_index, indirection: None },
        },
    )
}

/// Parses the records of the sub-properties of a compound.
pub fn parse_records(p: &[u8]) -> (r: Option<Vec<SubHeader>>)
    ensures
        match r {
            Some(v) => records_from(p@, 0) == Some(records_of(v@)) && forall|i: int|
                0 <= i < v@.len() ==> (#[trigger] v@[i]).header.indirection.is_none(),
            None => records_from(p@, 0).is_none(),
        },
{
    let len: usize = p.len();
    let mut out: Vec<SubHeader> = Vec::new();
    let mut at: usize = 0;
    proof {
        assert(records_of(out@) =~= Seq::<RecordModel>::empty());
        if let Some(r) = records_from(p@, 0) {
            assert(Seq::<RecordModel>::empty() + r =~= r);
        }
    }
    while at < len
        invariant
            at <= len,
            len == p@.len(),
            records_from(p@, 0) == behind(records_of(out@), records_from(p@, at as int)),
            forall|i: int| 0 <= i < out@.len() ==> (#[trigger] out@[i]).header.indirection.is_none(),
        decreases len - at,
    {
        if len - at < RECORD_HEAD {
            return None;
        }
        let n: usize = read_u32_le(p, at + 8) as usize;
        if n > len - at - RECORD_HEAD {
            return None;
        }
        let end: usize = at + RECORD_HEAD + n;
        let name: Option<String> = text_from_utf8(copy_bytes(slice_subrange(p, at + RECORD_HEAD, end)));
        let header: SubHeader = match make_sub_header(p, at, name) {
            Some(h) => h,
            None => { return None; },
        };
        proof {
            let rest = records_from(p@, end as int);
            assert(records_of(out@.push(header)) =~= records_of(out@).push(header@));
            if let Some(r) = rest {
                assert(records_of(out@) + (seq![header@] + r) =~= records_of(out@).push(header@)
                    + r);
            }
        }
        out.push(header);
        at = end;
    }
    Some(out)
}

} // verus!
