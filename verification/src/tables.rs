use vstd::prelude::*;
use crate::chunks::{data_at, read_data, DataChunk, GroupChunk};
use crate::object::{decode_names, names_of, texts_of};
use crate::pod::{payload_of, strings_in, u64s_of, DataType, PodArray, PodType};
use crate::reader::ArchiveReader;
use crate::result::OgawaError;

verus! {

/// The slot of the root Group that holds the table of time samplings.
pub const TIME_SAMPLINGS_SLOT: usize = 4;

/// The slot of the root Group that holds the table of metadata strings.
pub const META_DATA_SLOT: usize = 5;

/// How the samples of a property are spread over time. The two times are
/// 64-bit floats, held as their bit patterns.
#[derive(Clone, Copy, Debug, PartialEq, Eq, Structural)]
pub struct TimeSampling {
    pub samples_per_cycle: u64,
    pub time_per_cycle: u64,
    pub start_time: u64,
}

/// The time samplings of an archive, found by index.
#[derive(Clone, Debug, PartialEq, Eq)]
pub struct TimeSamplings {
    pub entries: Vec<TimeSampling>,
}

/// The metadata strings of an archive, found by index.
#[derive(Clone, Debug, PartialEq, Eq)]
pub struct IndexedMetaData {
    pub entries: Vec<String>,
}

/// The time samplings that the words `w` hold, three words each.
pub open spec fn samplings_of(w: Seq<u64>) -> Seq<TimeSampling> {
    Seq::new(
        w.len() / 3,
        |i: int|
            TimeSampling {
                samples_per_cycle: w[3 * i],
                time_per_cycle: w[3 * i + 1],
                start_time: w[3 * i + 2],
            },
    )
}

/// The time samplings of the archive whose root Group has the slots
/// `children`: none where it has no slot for them, else those of the Data
/// chunk in that slot, twenty-four bytes each.
pub open spec fn time_samplings_at(children: Seq<u64>, bytes: Seq<u8>) -> Result<
    Seq<TimeSampling>,
    OgawaError,
> {
    if children.len() <= TIME_SAMPLINGS_SLOT {
        Ok(Seq::empty())
    } else {
        match data_at(bytes, children[TIME_SAMPLINGS_SLOT as int]) {
            Err(e) => Err(e),
            Ok(d) => match payload_of(bytes, d) {
                Err(e) => Err(e),
                Ok(p) => if p.len() % 24 == 0 {
                    Ok(samplings_of(u64s_of(p)))
                } else {
                    Err(OgawaError::Corrupt)
                },
            },
        }
    }
}

/// The metadata strings of the archive whose root Group has the slots
/// `children`: none where it has no slot for them, else the zero-terminated
/// UTF-8 strings of the Data chunk in that slot.
pub open spec fn meta_data_at(children: Seq<u64>, bytes: Seq<u8>) -> Result<
    Seq<Seq<char>>,
    OgawaError,
> {
    if children.len() <= META_DATA_SLOT {
        Ok(Seq::empty())
    } else {
        match data_at(bytes, children[META_DATA_SLOT as int]) {
            Err(e) => Err(e),
            Ok(d) => match payload_of(bytes, d) {
                Err(e) => Err(e),
                Ok(p) => if p.len() > 0 && p.last() != 0 {
                    Err(OgawaError::Corrupt)
                } else {
                    match texts_of(strings_in(p)) {
                        Some(texts) => Ok(texts),
                        None => Err(OgawaError::Corrupt),
                    }
                },
            },
        }
    }
}

/// Groups the words `w` by three into time samplings.
pub fn samplings_from_words(w: &Vec<u64>) -> (out: Vec<TimeSampling>)
    ensures
        out@ == samplings_of(w@),
{
    let len: usize = w.len();
    let n: usize = len / 3;
    let mut out: Vec<TimeSampling> = Vec::new();
    let mut i: usize = 0;
    while i < n
        invariant
            i <= n,
            len == w@.len(),
            n == len / 3,
            out@.len() == i,
            forall|j: int| 0 <= j < i ==> out@[j] == samplings_of(w@)[j],
        decreases n - i,
    {
        out.push(
            TimeSampling {
                samples_per_cycle: w[3 * i],
                time_per_cycle: w[3 * i + 1],
                start_time: w[3 * i + 2],
            },
        );
        i += 1;
    }
    proof {
        assert(out@ =~= samplings_of(w@));
    }
    out
}

impl TimeSamplings {
    /// Reads the table from its slot of the root Group `root`.
    pub fn load(root: &GroupChunk, reader: &ArchiveReader) -> (r: Result<Self, OgawaError>)
        ensures
            match r {
                Ok(t) => time_samplings_at(root@.children, reader@) == Ok::<
                    Seq<TimeSampling>,
                    OgawaError,
                >(t.entries@),
                Err(e) => time_samplings_at(root@.children, reader@) == Err::<
                    Seq<TimeSampling>,
                    OgawaError,
                >(e),
            },
    {
        if root.children.len() <= TIME_SAMPLINGS_SLOT {
            return Ok(TimeSamplings { entries: Vec::new() });
        }
        let data: DataChunk = match read_data(reader, root.children[TIME_SAMPLINGS_SLOT]) {
            Ok(d) => d,
            Err(e) => { return Err(e); },
        };
        let triples = DataType { pod_type: PodType::U64, extent: 3 };
        match data.read_pod_array(&triples, reader) {
            Ok(PodArray::U64(words)) => Ok(TimeSamplings { entries: samplings_from_words(&words) }),
            Ok(_) => Err(OgawaError::Corrupt),
            Err(e) => Err(e),
        }
    }

    /// The time sampling with the index `index`; `Corrupt` exactly where
    /// the table has no such entry.
    pub fn resolve_time_sampling(&self, index: usize) -> (r: Result<&TimeSampling, OgawaError>)
        ensures
            match r {
                Ok(t) => index < self.entries@.len() && *t == self.entries@[index as int],
                Err(e) => index >= self.entries@.len() && e == OgawaError::Corrupt,
            },
    {
        if index < self.entries.len() {
            Ok(&self.entries[index])
        } else {
            Err(OgawaError::Corrupt)
        }
    }
}

impl IndexedMetaData {
    /// Reads the table from its slot of the root Group `root`.
    pub fn load(root: &GroupChunk, reader: &ArchiveReader) -> (r: Result<Self, OgawaError>)
        ensures
            match r {
                Ok(t) => meta_data_at(root@.children, reader@) == Ok::<Seq<Seq<char>>, OgawaError>(
                    names_of(t.entries@),
                ),
                Err(e) => meta_data_at(root@.children, reader@) == Err::<
                    Seq<Seq<char>>,
                    OgawaError,
                >(e),
            },
    {
        if root.children.len() <= META_DATA_SLOT {
            let entries: Vec<String> = Vec::new();
            proof {
                assert(names_of(entries@) =~= Seq::<Seq<char>>::empty());
            }
            return Ok(IndexedMetaData { entries });
        }
        let data: DataChunk = match read_data(reader, root.children[META_DATA_SLOT]) {
            Ok(d) => d,
            Err(e) => { return Err(e); },
        };
        let strings = DataType { pod_type: PodType::String, extent: 1 };
        let raw: Vec<Vec<u8>> = match data.read_pod_array(&strings, reader) {
            Ok(PodArray::String(raw)) => raw,
            Ok(_) => { return Err(OgawaError::Corrupt); },
            Err(e) => { return Err(e); },
        };
        match decode_names(&raw) {
            Some(entries) => Ok(IndexedMetaData { entries }),
            None => Err(OgawaError::Corrupt),
        }
    }

    /// The metadata string with the index `index`; `Corrupt` exactly where
    /// the table has no such entry.
    pub fn resolve_metadata(&self, index: usize) -> (r: Result<&str, OgawaError>)
        ensures
            match r {
                Ok(s) => index < self.entries@.len() && s@ == self.entries@[index as int]@,
                Err(e) => index >= self.entries@.len() && e == OgawaError::Corrupt,
            },
    {
        if index < self.entries.len() {
            Ok(self.entries[index].as_str())
        } else {
            Err(OgawaError::Corrupt)
        }
    }
}

} // verus!
