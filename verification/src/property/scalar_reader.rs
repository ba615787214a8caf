use std::rc::Rc;
use vstd::prelude::*;
use crate::chunks::{DataChunk, GroupChunk};
use crate::pod::{pod_result_is, PodArray};
use crate::property::{load_sample_chunk, sample_chunk, scalar_sample_at, PropertyHeader};
use crate::reader::ArchiveReader;
use crate::result::OgawaError;

verus! {

/// A property whose every sample is one element of the declared shape.
#[derive(Debug)]
pub struct ScalarPropertyReader {
    pub group: Rc<GroupChunk>,
    pub header: PropertyHeader,
}

impl ScalarPropertyReader {
    /// The property with the header `header` on the Group `group`.
    pub fn new(group: Rc<GroupChunk>, header: PropertyHeader) -> (r: Self)
        ensures
            r.group == group,
            r.header == header,
    {
        Self { group, header }
    }

    /// The name of the property.
    pub fn name(&self) -> (r: &str)
        ensures
            r@ == self.header.name@,
    {
        self.header.name.as_str()
    }

    /// The number of logical samples.
    pub fn sample_count(&self) -> (r: u32)
        ensures
            r == self.header.next_sample_index,
    {
        self.header.next_sample_index
    }

    /// Loads and decodes logical sample `index`.
    ///
    /// `OutOfBounds` exactly where `index` is not below `sample_count()`;
    /// `Corrupt` where the sample is not one element.
    pub fn load_sample(&self, index: u32, reader: &ArchiveReader) -> (r: Result<
        PodArray,
        OgawaError,
    >)
        ensures
            pod_result_is(r, scalar_sample_at(self.header@, self.group@.children, reader@, index)),
            r matches Err(OgawaError::OutOfBounds) <==> index >= self.header.next_sample_index,
    {
        if index >= self.header.next_sample_index {
            return Err(OgawaError::OutOfBounds);
        }
        let data: DataChunk = match load_sample_chunk(&self.header, &self.group, reader, index) {
            Ok(d) => d,
            Err(e) => { return Err(e); },
        };
        let values: PodArray = match data.read_pod_array(&self.header.data_type, reader) {
            Ok(v) => v,
            Err(e) => { return Err(e); },
        };
        if values.len() != self.header.data_type.extent as usize {
            return Err(OgawaError::Corrupt);
        }
        Ok(values)
    }

    /// The bytes of logical sample `index`; nothing is decoded.
    ///
    /// `OutOfBounds` exactly where `index` is not below `sample_count()`.
    pub fn sample_size(&self, index: u32, reader: &ArchiveReader) -> (r: Result<usize, OgawaError>)
        ensures
            match sample_chunk(self.header@, self.group@.children, reader@, index) {
                Ok(d) => r == Ok::<usize, OgawaError>(d.size as usize),
                Err(e) => r == Err::<usize, OgawaError>(e),
            },
            r matches Err(OgawaError::OutOfBounds) <==> index >= self.header.next_sample_index,
    {
        if index >= self.header.next_sample_index {
            return Err(OgawaError::OutOfBounds);
        }
        let data: DataChunk = match load_sample_chunk(&self.header, &self.group, reader, index) {
            Ok(d) => d,
            Err(e) => { return Err(e); },
        };
        Ok(data.size as usize)
    }
}

} // verus!
