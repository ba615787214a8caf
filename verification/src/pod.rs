use vstd::prelude::*;
use vstd::slice::slice_subrange;
use crate::chunks::DataChunk;
use crate::reader::{le16, le32, le64, read_u16_le, read_u32_le, read_u64_le, ArchiveReader};
use crate::result::OgawaError;

verus! {

/// The kinds of plain-old-data value that a sample is made of.
#[derive(Clone, Copy, Debug, PartialEq, Eq, Structural)]
pub enum PodType {
    Bool,
    U8,
    I8,
    U16,
    I16,
    U32,
    I32,
    U64,
    I64,
    /// A 32-bit float, held as its bit pattern.
    F32,
    /// A 64-bit float, held as its bit pattern.
    F64,
    /// A byte string, closed by a zero byte.
    String,
}

impl PodType {
    /// The bytes of one value; 0 for strings, which have no fixed width.
    pub open spec fn spec_width(self) -> nat {
        match self {
            PodType::Bool | PodType::U8 | PodType::I8 => 1,
            PodType::U16 | PodType::I16 => 2,
            PodType::U32 | PodType::I32 | PodType::F32 => 4,
            PodType::U64 | PodType::I64 | PodType::F64 => 8,
            PodType::String => 0,
        }
    }

    /// The bytes of one value; 0 for strings.
    pub fn width(self) -> (w: usize)
        ensures
            w == self.spec_width(),
    {
        match self {
            PodType::Bool | PodType::U8 | PodType::I8 => 1,
            PodType::U16 | PodType::I16 => 2,
            PodType::U32 | PodType::I32 | PodType::F32 => 4,
            PodType::U64 | PodType::I64 | PodType::F64 => 8,
            PodType::String => 0,
        }
    }
}

/// The declared type of a property's elements: `extent` values of `pod_type`
/// make one element.
#[derive(Clone, Copy, Debug, PartialEq, Eq, Structural)]
pub struct DataType {
    pub pod_type: PodType,
    pub extent: u8,
}

impl DataType {
    /// The bytes of one element.
    pub open spec fn spec_element_width(self) -> nat {
        self.pod_type.spec_width() * (self.extent as nat)
    }

    /// The bytes of one element.
    pub fn element_width(&self) -> (w: usize)
        ensures
            w == self.spec_element_width(),
            w <= 2040,
    {
        let w: usize = self.pod_type.width();
        let e: usize = self.extent as usize;
        assert(w * e <= 2040) by (nonlinear_arith)
            requires
                w <= 8,
                e <= 255,
        ;
        w * e
    }
}

/// A decoded sample: the values of one kind, flattened, in the order of the
/// bytes. Floats are held as their bit patterns.
#[derive(Clone, Debug, PartialEq, Eq)]
pub enum PodArray {
    Bool(Vec<bool>),
    U8(Vec<u8>),
    I8(Vec<i8>),
    U16(Vec<u16>),
    I16(Vec<i16>),
    U32(Vec<u32>),
    I32(Vec<i32>),
    U64(Vec<u64>),
    I64(Vec<i64>),
    F32(Vec<u32>),
    F64(Vec<u64>),
    String(Vec<Vec<u8>>),
}

/// What a `PodArray` holds.
pub enum PodValues {
    Bool(Seq<bool>),
    U8(Seq<u8>),
    I8(Seq<i8>),
    U16(Seq<u16>),
    I16(Seq<i16>),
    U32(Seq<u32>),
    I32(Seq<i32>),
    U64(Seq<u64>),
    I64(Seq<i64>),
    F32(Seq<u32>),
    F64(Seq<u64>),
    String(Seq<Seq<u8>>),
}

/// The byte strings that a vector of byte vectors holds.
pub open spec fn strings_of(v: Seq<Vec<u8>>) -> Seq<Seq<u8>> {
    Seq::new(v.len(), |i: int| v[i]@)
}

impl View for PodArray {
    type V = PodValues;

    open spec fn view(&self) -> PodValues {
        match self {
            PodArray::Bool(v) => PodValues::Bool(v@),
            PodArray::U8(v) => PodValues::U8(v@),
            PodArray::I8(v) => PodValues::I8(v@),
            PodArray::U16(v) => PodValues::U16(v@),
            PodArray::I16(v) => PodValues::I16(v@),
            PodArray::U32(v) => PodValues::U32(v@),
            PodArray::I32(v) => PodValues::I32(v@),
            PodArray::U64(v) => PodValues::U64(v@),
            PodArray::I64(v) => PodValues::I64(v@),
            PodArray::F32(v) => PodValues::F32(v@),
            PodArray::F64(v) => PodValues::F64(v@),
            PodArray::String(v) => PodValues::String(strings_of(v@)),
        }
    }
}

impl PodValues {
    /// The number of values.
    pub open spec fn len(self) -> nat {
        match self {
            PodValues::Bool(v) => v.len(),
            PodValues::U8(v) => v.len(),
            PodValues::I8(v) => v.len(),
            PodValues::U16(v) => v.len(),
            PodValues::I16(v) => v.len(),
            PodValues::U32(v) => v.len(),
            PodValues::I32(v) => v.len(),
            PodValues::U64(v) => v.len(),
            PodValues::I64(v) => v.len(),
            PodValues::F32(v) => v.len(),
            PodValues::F64(v) => v.len(),
            PodValues::String(v) => v.len(),
        }
    }
}

impl PodArray {
    /// The number of values.
    pub fn len(&self) -> (n: usize)
        ensures
            n == self@.len(),
    {
        match self {
            PodArray::Bool(v) => v.len(),
            PodArray::U8(v) => v.len(),
            PodArray::I8(v) => v.len(),
            PodArray::U16(v) => v.len(),
            PodArray::I16(v) => v.len(),
            PodArray::U32(v) => v.len(),
            PodArray::I32(v) => v.len(),
            PodArray::U64(v) => v.len(),
            PodArray::I64(v) => v.len(),
            PodArray::F32(v) => v.len(),
            PodArray::F64(v) => v.len(),
            PodArray::String(v) => v.len(),
        }
    }
}

/// The two's-complement reading of an 8-bit pattern.
pub open spec fn signed8(v: int) -> i8 {
    if v < 128 { v as i8 } else { (v - 256) as i8 }
}

/// The two's-complement reading of a 16-bit pattern.
pub open spec fn signed16(v: int) -> i16 {
    if v < 32768 { v as i16 } else { (v - 65536) as i16 }
}

/// The two's-complement reading of a 32-bit pattern.
pub open spec fn signed32(v: int) -> i32 {
    if v < 2147483648 { v as i32 } else { (v - 4294967296) as i32 }
}

/// The two's-complement reading of a 64-bit pattern.
pub open spec fn signed64(v: int) -> i64 {
    if v < 9223372036854775808 { v as i64 } else { (v - 18446744073709551616) as i64 }
}

fn to_i8(v: u8) -> (r: i8)
    ensures
        r == signed8(v as int),
{
    if v < 128 { v as i8 } else { (v as i16 - 256) as i8 }
}

fn to_i16(v: u16) -> (r: i16)
    ensures
        r == signed16(v as int),
{
    if v < 32768 { v as i16 } else { (v as i32 - 65536) as i16 }
}

fn to_i32(v: u32) -> (r: i32)
    ensures
        r == signed32(v as int),
{
    if v < 2147483648 { v as i32 } else { (v as i64 - 4294967296) as i32 }
}

fn to_i64(v: u64) -> (r: i64)
    ensures
        r == signed64(v as int),
{
    if v < 9223372036854775808 {
        v as i64
    } else {
        let low: i64 = (v - 9223372036854775808) as i64;
        low + i64::MIN
    }
}

/// The booleans that the bytes `p` hold: a byte other than 0 is true.
pub open spec fn bools_of(p: Seq<u8>) -> Seq<bool> {
    Seq::new(p.len(), |i: int| p[i] != 0)
}

/// The signed bytes that `p` holds.
pub open spec fn i8s_of(p: Seq<u8>) -> Seq<i8> {
    Seq::new(p.len(), |i: int| signed8(p[i] as int))
}

/// The 16-bit words that `p` holds.
pub open spec fn u16s_of(p: Seq<u8>) -> Seq<u16> {
    Seq::new(p.len() / 2, |i: int| le16(p, 2 * i) as u16)
}

/// The signed 16-bit words that `p` holds.
pub open spec fn i16s_of(p: Seq<u8>) -> Seq<i16> {
    Seq::new(p.len() / 2, |i: int| signed16(le16(p, 2 * i)))
}

/// The 32-bit words that `p` holds.
pub open spec fn u32s_of(p: Seq<u8>) -> Seq<u32> {
    Seq::new(p.len() / 4, |i: int| le32(p, 4 * i) as u32)
}

/// The signed 32-bit words that `p` holds.
pub open spec fn i32s_of(p: Seq<u8>) -> Seq<i32> {
    Seq::new(p.len() / 4, |i: int| signed32(le32(p, 4 * i)))
}

/// The 64-bit words that `p` holds.
pub open spec fn u64s_of(p: Seq<u8>) -> Seq<u64> {
    Seq::new(p.len() / 8, |i: int| le64(p, 8 * i) as u64)
}

/// The signed 64-bit words that `p` holds.
pub open spec fn i64s_of(p: Seq<u8>) -> Seq<i64> {
    Seq::new(p.len() / 8, |i: int| signed64(le64(p, 8 * i)))
}

/// The strings of `p` from byte `i` on, behind the strings `done` that are
/// already closed and the bytes `open` of the one that is not: each zero
/// byte closes a string.
pub open spec fn strings_from(p: Seq<u8>, i: int, open: Seq<u8>, done: Seq<Seq<u8>>) -> Seq<Seq<u8>>
    decreases p.len() - i,
{
    if i < 0 || i >= p.len() {
        done
    } else if p[i] == 0 {
        strings_from(p, i + 1, Seq::empty(), done.push(open))
    } else {
        strings_from(p, i + 1, open.push(p[i]), done)
    }
}

/// The zero-terminated strings that `p` is made of.
pub open spec fn strings_in(p: Seq<u8>) -> Seq<Seq<u8>> {
    strings_from(p, 0, Seq::empty(), Seq::empty())
}

/// The values that the payload `p` of a Data chunk holds under `data_type`.
///
/// Fixed-width kinds are little-endian; the payload must be a whole number
/// of elements, each `extent` values wide, else it is `Corrupt`. A payload of
/// strings must be empty or end in a zero byte.
pub open spec fn decode_pod(data_type: DataType, p: Seq<u8>) -> Result<PodValues, OgawaError> {
    if data_type.pod_type == PodType::String {
        if p.len() > 0 && p.last() != 0 {
            Err(OgawaError::Corrupt)
        } else {
            Ok(PodValues::String(strings_in(p)))
        }
    } else if data_type.extent == 0 || p.len() % data_type.spec_element_width() != 0 {
        Err(OgawaError::Corrupt)
    } else {
        Ok(
            match data_type.pod_type {
                PodType::Bool => PodValues::Bool(bools_of(p)),
                PodType::U8 => PodValues::U8(p),
                PodType::I8 => PodValues::I8(i8s_of(p)),
                PodType::U16 => PodValues::U16(u16s_of(p)),
                PodType::I16 => PodValues::I16(i16s_of(p)),
                PodType::U32 => PodValues::U32(u32s_of(p)),
                PodType::I32 => PodValues::I32(i32s_of(p)),
                PodType::U64 => PodValues::U64(u64s_of(p)),
                PodType::I64 => PodValues::I64(i64s_of(p)),
                PodType::F32 => PodValues::F32(u32s_of(p)),
                PodType::F64 => PodValues::F64(u64s_of(p)),
                PodType::String => PodValues::String(strings_in(p)),
            },
        )
    }
}

/// The payload of `data` in `bytes`; `Corrupt` where it would end behind the
/// last byte.
pub open spec fn payload_of(bytes: Seq<u8>, data: DataChunk) -> Result<Seq<u8>, OgawaError> {
    if data.position + data.size <= bytes.len() {
        Ok(bytes.subrange(data.position as int, data.position + data.size))
    } else {
        Err(OgawaError::Corrupt)
    }
}

/// The values that `data` holds in `bytes` under `data_type`.
pub open spec fn pod_array_at(bytes: Seq<u8>, data: DataChunk, data_type: DataType) -> Result<
    PodValues,
    OgawaError,
> {
    match payload_of(bytes, data) {
        Ok(p) => decode_pod(data_type, p),
        Err(e) => Err(e),
    }
}

/// Whether `r` is the outcome `model`, the values taken by their view.
pub open spec fn pod_result_is(r: Result<PodArray, OgawaError>, model: Result<PodValues, OgawaError>) -> bool {
    match r {
        Ok(a) => model == Ok::<PodValues, OgawaError>(a@),
        Err(e) => model == Err::<PodValues, OgawaError>(e),
    }
}

fn decode_bools(p: &[u8]) -> (out: Vec<bool>)
    ensures
        out@ == bools_of(p@),
{
    let n: usize = p.len();
    let mut out: Vec<bool> = Vec::new();
    let mut i: usize = 0;
    while i < n
        invariant
            i <= n,
            n == p@.len(),
            out@.len() == i,
            forall|j: int| 0 <= j < i ==> out@[j] == bools_of(p@)[j],
        decreases n - i,
    {
        let b: u8 = p[i];
        out.push(b != 0);
        i += 1;
    }
    proof {
        assert(out@ =~= bools_of(p@));
    }
    out
}

fn decode_i8s(p: &[u8]) -> (out: Vec<i8>)
    ensures
        out@ == i8s_of(p@),
{
    let n: usize = p.len();
    let mut out: Vec<i8> = Vec::new();
    let mut i: usize = 0;
    while i < n
        invariant
            i <= n,
            n == p@.len(),
            out@.len() == i,
            forall|j: int| 0 <= j < i ==> out@[j] == i8s_of(p@)[j],
        decreases n - i,
    {
        let b: u8 = p[i];
        out.push(to_i8(b));
        i += 1;
    }
    proof {
        assert(out@ =~= i8s_of(p@));
    }
    out
}

fn decode_u16s(p: &[u8]) -> (out: Vec<u16>)
    ensures
        out@ == u16s_of(p@),
{
    let len: usize = p.len();
    let n: usize = len / 2;
    let mut out: Vec<u16> = Vec::new();
    let mut i: usize = 0;
    while i < n
        invariant
            i <= n,
            len == p@.len(),
            n == len / 2,
            out@.len() == i,
            forall|j: int| 0 <= j < i ==> out@[j] == u16s_of(p@)[j],
        decreases n - i,
    {
        let v: u16 = read_u16_le(p, 2 * i);
        out.push(v);
        i += 1;
    }
    proof {
        assert(out@ =~= u16s_of(p@));
    }
    out
}

fn decode_i16s(p: &[u8]) -> (out: Vec<i16>)
    ensures
        out@ == i16s_of(p@),
{
    let len: usize = p.len();
    let n: usize = len / 2;
    let mut out: Vec<i16> = Vec::new();
    let mut i: usize = 0;
    while i < n
        invariant
            i <= n,
            len == p@.len(),
            n == len / 2,
            out@.len() == i,
            forall|j: int| 0 <= j < i ==> out@[j] == i16s_of(p@)[j],
        decreases n - i,
    {
        let v: u16 = read_u16_le(p, 2 * i);
        out.push(to_i16(v));
        i += 1;
    }
    proof {
        assert(out@ =~= i16s_of(p@));
    }
    out
}

fn decode_u32s(p: &[u8]) -> (out: Vec<u32>)
    ensures
        out@ == u32s_of(p@),
{
    let len: usize = p.len();
    let n: usize = len / 4;
    let mut out: Vec<u32> = Vec::new();
    let mut i: usize = 0;
    while i < n
        invariant
            i <= n,
            len == p@.len(),
            n == len / 4,
            out@.len() == i,
            forall|j: int| 0 <= j < i ==> out@[j] == u32s_of(p@)[j],
        decreases n - i,
    {
        let v: u32 = read_u32_le(p, 4 * i);
        out.push(v);
        i += 1;
    }
    proof {
        assert(out@ =~= u32s_of(p@));
    }
    out
}

fn decode_i32s(p: &[u8]) -> (out: Vec<i32>)
    ensures
        out@ == i32s_of(p@),
{
    let len: usize = p.len();
    let n: usize = len / 4;
    let mut out: Vec<i32> = Vec::new();
    let mut i: usize = 0;
    while i < n
        invariant
            i <= n,
            len == p@.len(),
            n == len / 4,
            out@.len() == i,
            forall|j: int| 0 <= j < i ==> out@[j] == i32s_of(p@)[j],
        decreases n - i,
    {
        let v: u32 = read_u32_le(p, 4 * i);
        out.push(to_i32(v));
        i += 1;
    }
    proof {
        assert(out@ =~= i32s_of(p@));
    }
    out
}

fn decode_u64s(p: &[u8]) -> (out: Vec<u64>)
    ensures
        out@ == u64s_of(p@),
{
    let len: usize = p.len();
    let n: usize = len / 8;
    let mut out: Vec<u64> = Vec::new();
    let mut i: usize = 0;
    while i < n
        invariant
            i <= n,
            len == p@.len(),
            n == len / 8,
            out@.len() == i,
            forall|j: int| 0 <= j < i ==> out@[j] == u64s_of(p@)[j],
        decreases n - i,
    {
        let v: u64 = read_u64_le(p, 8 * i);
        out.push(v);
        i += 1;
    }
    proof {
        assert(out@ =~= u64s_of(p@));
    }
    out
}

fn decode_i64s(p: &[u8]) -> (out: Vec<i64>)
    ensures
        out@ == i64s_of(p@),
{
    let len: usize = p.len();
    let n: usize = len / 8;
    let mut out: Vec<i64> = Vec::new();
    let mut i: usize = 0;
    while i < n
        invariant
            i <= n,
            len == p@.len(),
            n == len / 8,
            out@.len() == i,
            forall|j: int| 0 <= j < i ==> out@[j] == i64s_of(p@)[j],
        decreases n - i,
    {
        let v: u64 = read_u64_le(p, 8 * i);
        out.push(to_i64(v));
        i += 1;
    }
    proof {
        assert(out@ =~= i64s_of(p@));
    }
    out
}

/// The bytes of `p`, owned.
pub fn copy_bytes(p: &[u8]) -> (out: Vec<u8>)
    ensures
        out@ == p@,
{
    let n: usize = p.len();
    let mut out: Vec<u8> = Vec::new();
    let mut i: usize = 0;
    while i < n
        invariant
            i <= n,
            n == p@.len(),
            out@ == p@.subrange(0, i as int),
        decreases n - i,
    {
        out.push(p[i]);
        proof {
            assert(p@.subrange(0, i as int).push(p@[i as int]) =~= p@.subrange(0, i + 1));
        }
        i += 1;
    }
    proof {
        assert(p@.subrange(0, n as int) =~= p@);
    }
    out
}

fn decode_strings(p: &[u8]) -> (out: Vec<Vec<u8>>)
    ensures
        strings_of(out@) == strings_in(p@),
{
    let n: usize = p.len();
    let mut out: Vec<Vec<u8>> = Vec::new();
    let mut open: Vec<u8> = Vec::new();
    let mut i: usize = 0;
    proof {
        assert(strings_of(out@) =~= Seq::<Seq<u8>>::empty());
    }
    while i < n
        invariant
            i <= n,
            n == p@.len(),
            strings_from(p@, i as int, open@, strings_of(out@)) == strings_in(p@),
        decreases n - i,
    {
        let b: u8 = p[i];
        if b == 0 {
            proof {
                assert(strings_of(out@.push(open)) =~= strings_of(out@).push(open@));
            }
            out.push(open);
            open = Vec::new();
        } else {
            open.push(b);
        }
        i += 1;
    }
    out
}

/// Decodes the payload `p` of a Data chunk under `data_type`.
pub fn decode_pod_array(data_type: &DataType, p: &[u8]) -> (r: Result<PodArray, OgawaError>)
    ensures
        pod_result_is(r, decode_pod(*data_type, p@)),
{
    let n: usize = p.len();
    if let PodType::String = data_type.pod_type {
        if n > 0 && p[n - 1] != 0 {
            return Err(OgawaError::Corrupt);
        }
        return Ok(PodArray::String(decode_strings(p)));
    }
    if data_type.extent == 0 {
        return Err(OgawaError::Corrupt);
    }
    let width: usize = data_type.element_width();
    assert(width > 0) by (nonlinear_arith)
        requires
            width == data_type.pod_type.spec_width() * (data_type.extent as nat),
            data_type.pod_type.spec_width() > 0,
            data_type.extent > 0,
    ;
    if n % width != 0 {
        return Err(OgawaError::Corrupt);
    }
    Ok(
        match data_type.pod_type {
            PodType::Bool => PodArray::Bool(decode_bools(p)),
            PodType::U8 => PodArray::U8(copy_bytes(p)),
            PodType::I8 => PodArray::I8(decode_i8s(p)),
            PodType::U16 => PodArray::U16(decode_u16s(p)),
            PodType::I16 => PodArray::I16(decode_i16s(p)),
            PodType::U32 => PodArray::U32(decode_u32s(p)),
            PodType::I32 => PodArray::I32(decode_i32s(p)),
            PodType::U64 => PodArray::U64(decode_u64s(p)),
            PodType::I64 => PodArray::I64(decode_i64s(p)),
            PodType::F32 => PodArray::F32(decode_u32s(p)),
            PodType::F64 => PodArray::F64(decode_u64s(p)),
            PodType::String => PodArray::String(decode_strings(p)),
        },
    )
}

impl DataChunk {
    /// Reads and decodes the payload under `data_type`.
    ///
    /// `Corrupt` where the payload would end behind the last byte of the
    /// source, or is no whole number of elements.
    pub fn read_pod_array(&self, data_type: &DataType, reader: &ArchiveReader) -> (r: Result<
        PodArray,
        OgawaError,
    >)
        ensures
            pod_result_is(r, pod_array_at(reader@, *self, *data_type)),
    {
        let len: usize = reader.bytes.len();
        if self.position > len as u64 || (len as u64) - self.position < self.size {
            return Err(OgawaError::Corrupt);
        }
        let start: usize = self.position as usize;
        let end: usize = start + self.size as usize;
        let payload: &[u8] = slice_subrange(reader.bytes.as_slice(), start, end);
        decode_pod_array(data_type, payload)
    }
}

} // verus!
