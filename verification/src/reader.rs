use vstd::prelude::*;
use crate::result::OgawaError;

verus! {

/// The little-endian value of the two bytes of `s` that start at `at`.
pub open spec fn le16(s: Seq<u8>, at: int) -> int {
    s[at] + 256 * s[at + 1]
}

/// The little-endian value of the four bytes of `s` that start at `at`.
pub open spec fn le32(s: Seq<u8>, at: int) -> int {
    le16(s, at) + 65536 * le16(s, at + 2)
}

/// The little-endian value of the eight bytes of `s` that start at `at`.
pub open spec fn le64(s: Seq<u8>, at: int) -> int {
    le32(s, at) + 4294967296 * le32(s, at + 4)
}

/// What a read of eight bytes at `offset` delivers: the word, or `Io` where
/// the bytes end before `offset + 8`.
pub open spec fn word_at(bytes: Seq<u8>, offset: u64) -> Result<u64, OgawaError> {
    if offset + 8 <= bytes.len() {
        Ok(le64(bytes, offset as int) as u64)
    } else {
        Err(OgawaError::Io)
    }
}

/// What a read of `size` bytes at `offset` delivers.
pub open spec fn range_at(bytes: Seq<u8>, offset: u64, size: u64) -> Result<Seq<u8>, OgawaError> {
    if offset + size <= bytes.len() {
        Ok(bytes.subrange(offset as int, offset + size))
    } else {
        Err(OgawaError::Io)
    }
}

/// A byte source held in memory: every read is addressed by absolute offset.
pub struct ArchiveReader {
    pub bytes: Vec<u8>,
}

impl View for ArchiveReader {
    type V = Seq<u8>;

    open spec fn view(&self) -> Seq<u8> {
        self.bytes@
    }
}

/// Reads the little-endian 16-bit word at `at`.
pub fn read_u16_le(bytes: &[u8], at: usize) -> (r: u16)
    requires
        at + 2 <= bytes@.len(),
    ensures
        r == le16(bytes@, at as int),
{
    let b0: u16 = bytes[at] as u16;
    let b1: u16 = bytes[at + 1] as u16;
    b0 + 256 * b1
}

/// Reads the little-endian 32-bit word at `at`.
pub fn read_u32_le(bytes: &[u8], at: usize) -> (r: u32)
    requires
        at + 4 <= bytes@.len(),
    ensures
        r == le32(bytes@, at as int),
{
    let n: usize = bytes.len();
    assert(at + 4 <= n);
    let lo: u32 = read_u16_le(bytes, at) as u32;
    let hi: u32 = read_u16_le(bytes, at + 2) as u32;
    lo + 65536 * hi
}

/// Reads the little-endian 64-bit word at `at`.
pub fn read_u64_le(bytes: &[u8], at: usize) -> (r: u64)
    requires
        at + 8 <= bytes@.len(),
    ensures
        r == le64(bytes@, at as int),
{
    let n: usize = bytes.len();
    assert(at + 8 <= n);
    let lo: u64 = read_u32_le(bytes, at) as u64;
    let hi: u64 = read_u32_le(bytes, at + 4) as u64;
    lo + 4294967296 * hi
}

impl ArchiveReader {
    /// The byte source over `bytes`.
    pub fn new(bytes: Vec<u8>) -> (r: Self)
        ensures
            r@ == bytes@,
    {
        ArchiveReader { bytes }
    }

    /// The number of bytes that the source holds.
    pub fn len(&self) -> (n: usize)
        ensures
            n == self@.len(),
    {
        self.bytes.len()
    }

    /// Reads the little-endian word at `offset`; `Io` where the bytes end
    /// before it does.
    pub fn read_u64(&self, offset: u64) -> (r: Result<u64, OgawaError>)
        ensures
            r == word_at(self@, offset),
    {
        let n: usize = self.bytes.len();
        if offset > n as u64 || (n as u64) - offset < 8 {
            return Err(OgawaError::Io);
        }
        let at: usize = offset as usize;
        Ok(read_u64_le(self.bytes.as_slice(), at))
    }

    /// Reads `size` bytes at `offset`; `Io` where the bytes end before
    /// they do.
    pub fn read_bytes(&self, offset: u64, size: u64) -> (r: Result<Vec<u8>, OgawaError>)
        ensures
            match r {
                Ok(v) => range_at(self@, offset, size) == Ok::<Seq<u8>, OgawaError>(v@),
                Err(e) => range_at(self@, offset, size) == Err::<Seq<u8>, OgawaError>(e),
            },
    {
        let n: usize = self.bytes.len();
        if offset > n as u64 || (n as u64) - offset < size {
            return Err(OgawaError::Io);
        }
        let start: usize = offset as usize;
        let end: usize = start + size as usize;
        let mut out: Vec<u8> = Vec::new();
        let mut i: usize = start;
        while i < end
            invariant
                start <= i <= end,
                end <= self.bytes@.len(),
                out@ == self.bytes@.subrange(start as int, i as int),
            decreases end - i,
        {
            out.push(self.bytes[i]);
            proof {
                assert(self.bytes@.subrange(start as int, i as int).push(self.bytes@[i as int])
                    =~= self.bytes@.subrange(start as int, i + 1));
            }
            i += 1;
        }
        Ok(out)
    }
}

} // verus!
