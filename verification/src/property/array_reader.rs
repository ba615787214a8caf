use std::rc::Rc;
use vstd::prelude::*;
use crate::chunks::{DataChunk, GroupChunk};
use crate::pod::{pod_result_is, PodArray};
use crate::property::{load_sample_chunk, sample_at, sample_chunk, PropertyHeader};
use crate::reader::ArchiveReader;
use crate::result::OgawaError;

verus! {

/// A property whose samples are sequences of varying length.
#[derive(Debug)]
pub struct ArrayPropertyReader {
    pub group: Rc<GroupChunk>,
    pub header: PropertyHeader,
}

impl ArrayPropertyReader {
    /// The property with the header `header` on the Group `group`.
    pub fn new(group: Rc<GroupChunk>, header: PropertyHeader) -> (r: Self)
        ensures
            r.group == group,
            r.header == header,
    {
        Self { group, header }
    }

    /// The name of the property.
    pub fn name(&self) -> (r: &str)
        ensures
            r@ == self.header.name@,
    {
        self.header.name.as_str()
    }

    /// The number of logical samples.
    pub fn sample_count(&self) -> (r: u32)
        ensures
            r == self.header.next_sample_index,
    {
        self.header.next_sample_index
    }

    /// Loads and decodes logical sample `index`.
    ///
    /// `OutOfBounds` exactly where `index` is not below `sample_count()`.
    pub fn load_sample(&self, index: u32, reader: &ArchiveReader) -> (r: Result<
        PodArray,
        OgawaError,
    >)
        ensures
            pod_result_is(r, sample_at(self.header@, self.group@.children, reader@, index)),
            r matches Err(OgawaError::OutOfBounds) <==> index >= self.header.next_sample_index,
    {
        if index >= self.header.next_sample_index {
            return Err(OgawaError::OutOfBounds);
        }
        let data: DataChunk = match load_sample_chunk(&self.header, &self.group, reader, index) {
            Ok(d) => d,
            Err(e) => { return Err(e); },
        };
        data.read_pod_array(&self.header.data_type, reader)
    }

    /// The bytes of logical sample `index`; nothing is decoded.
    ///
    /// `OutOfBounds` exactly where `index` is not below `sample_count()`.
    pub fn sample_size(&self, index: u32, reader: &ArchiveReader) -> (r: Result<usize, OgawaError>)
        ensures
            match sample_chunk(self.header@, self.group@.children, reader@, index) {
                Ok(d) => r == Ok::<usize, OgawaError>(d.size as usize),
                Err(e) => r == Err::<usize, OgawaError>(e),
            },
            r matches Err(OgawaError::OutOfBounds) <==> index >= self.header.next_sample_index,
    {
        if index >= self.header.next_sample_index {
            return Err(OgawaError::OutOfBounds);
        }
        let data: DataChunk = match load_sample_chunk(&self.header, &self.group, reader, index) {
            Ok(d) => d,
            Err(e) => { return Err(e); },
        };
        Ok(data.size as usize)
    }
}

} // verus!
