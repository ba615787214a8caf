use std::rc::Rc;

use ogawa_rs::archive::Archive;
use ogawa_rs::chunks::{
    address_offset, is_data, is_empty, is_group, read_data, read_group, Chunk, DataChunk,
    GroupChunk, EMPTY_DATA, EMPTY_GROUP,
};
use ogawa_rs::object::{decode_names, join_path, ObjectHeader, ObjectReader};
use ogawa_rs::pod::{decode_pod_array, DataType, PodArray, PodType};
use ogawa_rs::property::compound_reader::{CompoundPropertyReader, PropertyReader};
use ogawa_rs::property::header_codec::{
    kind_from_tag, make_sub_header, parse_records, pod_from_tag, PropertyKind,
};
use ogawa_rs::property::array_reader::ArrayPropertyReader;
use ogawa_rs::property::scalar_reader::ScalarPropertyReader;
use ogawa_rs::property::{check_table, load_indirection, load_sample_chunk, PropertyHeader};
use ogawa_rs::reader::{read_u16_le, read_u32_le, read_u64_le, ArchiveReader};
use ogawa_rs::result::OgawaError;
use ogawa_rs::tables::{samplings_from_words, IndexedMetaData, TimeSampling, TimeSamplings};
use ogawa_rs::walk::{children_reversed, read_chunk, Visit};

const TAG: u64 = 0x8000_0000_0000_0000;

fn header() -> Vec<u8> {
    let mut bytes = b"Ogawa".to_vec();
    bytes.extend_from_slice(&[0xff, 0x00, 0x01]);
    bytes.extend_from_slice(&[0u8; 8]);
    bytes
}

fn put_data(bytes: &mut Vec<u8>, payload: &[u8]) -> u64 {
    let at = bytes.len() as u64;
    bytes.extend_from_slice(&(payload.len() as u64).to_le_bytes());
    bytes.extend_from_slice(payload);
    while bytes.len() % 8 != 0 {
        bytes.push(0);
    }
    at | TAG
}

fn put_group(bytes: &mut Vec<u8>, children: &[u64]) -> u64 {
    let at = bytes.len() as u64;
    bytes.extend_from_slice(&(children.len() as u64).to_le_bytes());
    for c in children {
        bytes.extend_from_slice(&c.to_le_bytes());
    }
    at
}

fn set_root(bytes: &mut Vec<u8>, root: u64) {
    bytes[8..16].copy_from_slice(&root.to_le_bytes());
}

fn floats() -> Vec<u8> {
    let mut p = Vec::new();
    for f in [1.0f32, 2.0, 3.0, 4.0] {
        p.extend_from_slice(&f.to_le_bytes());
    }
    p
}

/// A root Group of two children: a Group of three Data chunks, and a Data
/// chunk of sixteen bytes.
fn fixture() -> ArchiveReader {
    let mut bytes = header();
    let a = put_data(&mut bytes, b"a\0");
    let b = put_data(&mut bytes, &[7u8; 4]);
    let c = put_data(&mut bytes, &[]);
    let inner = put_group(&mut bytes, &[a, b, c]);
    let data = put_data(&mut bytes, &floats());
    let root = put_group(&mut bytes, &[inner, data]);
    set_root(&mut bytes, root);
    ArchiveReader::new(bytes)
}

fn int32() -> DataType {
    DataType { pod_type: PodType::I32, extent: 1 }
}

/// A property Group of three stored samples and the table `[0, 1, 1, 2, 2]`.
fn property_fixture() -> (ArchiveReader, GroupChunk) {
    let mut bytes = header();
    let s0 = put_data(&mut bytes, &10i32.to_le_bytes());
    let s1 = put_data(&mut bytes, &(-20i32).to_le_bytes());
    let s2 = put_data(&mut bytes, &30i32.to_le_bytes());
    let mut table = Vec::new();
    for t in [0u32, 1, 1, 2, 2] {
        table.extend_from_slice(&t.to_le_bytes());
    }
    let t = put_data(&mut bytes, &table);
    let other = put_group(&mut bytes, &[s0]);
    let group = put_group(&mut bytes, &[s0, s1, s2, t]);
    let compound = put_group(&mut bytes, &[other, group]);
    let root = put_group(&mut bytes, &[compound]);
    set_root(&mut bytes, root);
    let reader = ArchiveReader::new(bytes);
    let archive = Archive::new(&reader).unwrap();
    let compound = archive.root_group.load_group(&reader, 0, false).unwrap();
    assert_eq!(compound.child_count, 2);
    let group = compound.load_group(&reader, 1, false).unwrap();
    (reader, group)
}

fn scalar_fixture() -> (ArchiveReader, ScalarPropertyReader) {
    let (reader, group) = property_fixture();
    let table = load_indirection(&group, &reader, 5).unwrap();
    assert_eq!(table, vec![0, 1, 1, 2, 2]);
    let header = PropertyHeader::with_indirection("P".to_string(), int32(), 5, table).unwrap();
    (reader, ScalarPropertyReader::new(Rc::new(group), header))
}

#[test]
fn root_group_child_loads_as_group_of_three() {
    let reader = fixture();
    let archive = Archive::new(&reader).unwrap();
    assert_eq!(archive.root_group.child_count, 2);
    let g = archive.root_group.load_group(&reader, 0, false).unwrap();
    assert_eq!(g.child_count, 3);
    assert_eq!(g.children.len(), 3);
    assert_eq!(g.position, archive.root_group.children[0]);
}

#[test]
fn data_chunk_of_sixteen_bytes_decodes_to_four_floats() {
    let reader = fixture();
    let archive = Archive::new(&reader).unwrap();
    let d = archive.root_group.load_data(&reader, 1).unwrap();
    assert_eq!(d.size, 16);
    assert_eq!(d.position, address_offset(archive.root_group.children[1]) + 8);
    let dt = DataType { pod_type: PodType::F32, extent: 1 };
    match d.read_pod_array(&dt, &reader).unwrap() {
        PodArray::F32(bits) => {
            let v: Vec<f32> = bits.iter().map(|b| f32::from_bits(*b)).collect();
            assert_eq!(v, vec![1.0, 2.0, 3.0, 4.0]);
        }
        other => panic!("{:?}", other),
    }
}

#[test]
fn indirection_aliases_samples_as_declared() {
    let (reader, pr) = scalar_fixture();
    assert_eq!(pr.sample_count(), 5);
    assert_eq!(pr.name(), "P");
    let s: Vec<PodArray> = (0..5).map(|i| pr.load_sample(i, &reader).unwrap()).collect();
    assert_eq!(s[0], PodArray::I32(vec![10]));
    assert_eq!(s[1], PodArray::I32(vec![-20]));
    assert_eq!(s[2], s[1]);
    assert_eq!(s[3], PodArray::I32(vec![30]));
    assert_eq!(s[4], s[3]);
    assert_ne!(s[0], s[1]);
    for i in 0..5 {
        assert_eq!(pr.sample_size(i, &reader), Ok(4));
    }
}

#[test]
fn sample_index_at_count_is_out_of_bounds() {
    let (reader, pr) = scalar_fixture();
    assert_eq!(pr.load_sample(5, &reader), Err(OgawaError::OutOfBounds));
    assert_eq!(pr.sample_size(5, &reader), Err(OgawaError::OutOfBounds));
    assert_eq!(pr.load_sample(u32::MAX, &reader), Err(OgawaError::OutOfBounds));
}

#[test]
fn slot_beyond_the_last_is_out_of_bounds() {
    let reader = fixture();
    let archive = Archive::new(&reader).unwrap();
    assert_eq!(archive.root_group.load_group(&reader, 2, false), Err(OgawaError::OutOfBounds));
    assert_eq!(archive.root_group.load_data(&reader, 2), Err(OgawaError::OutOfBounds));
}

#[test]
fn truncated_header_is_corrupt() {
    let mut bytes = header();
    bytes.truncate(12);
    assert_eq!(Archive::new(&ArchiveReader::new(bytes)), Err(OgawaError::Corrupt));
    assert_eq!(Archive::new(&ArchiveReader::new(Vec::new())), Err(OgawaError::Corrupt));
}

#[test]
fn truncated_size_word_is_corrupt() {
    let mut bytes = header();
    let d = put_data(&mut bytes, &[1, 2, 3, 4, 5, 6, 7, 8]);
    let root = put_group(&mut bytes, &[d]);
    set_root(&mut bytes, root);
    let whole = ArchiveReader::new(bytes.clone());
    let parent = Archive::new(&whole).unwrap().root_group;
    assert_eq!(parent.load_data(&whole, 0), Ok(DataChunk { position: 24, size: 8 }));
    let cut = ArchiveReader::new(bytes[..20].to_vec());
    assert_eq!(parent.load_data(&cut, 0), Err(OgawaError::Corrupt));
    let cut_payload = ArchiveReader::new(bytes[..28].to_vec());
    assert_eq!(parent.load_data(&cut_payload, 0), Err(OgawaError::Corrupt));
    assert_eq!(Archive::new(&cut), Err(OgawaError::Corrupt));
}

#[test]
fn archive_header_is_checked() {
    let reader = fixture();
    assert!(Archive::new(&reader).is_ok());
    let mut bad = reader.bytes.clone();
    bad[0] = b'o';
    assert_eq!(Archive::new(&ArchiveReader::new(bad)), Err(OgawaError::Corrupt));
    let mut open = reader.bytes.clone();
    open[5] = 0;
    assert_eq!(Archive::new(&ArchiveReader::new(open)), Err(OgawaError::Corrupt));
    let mut newer = reader.bytes.clone();
    newer[7] = 2;
    assert_eq!(Archive::new(&ArchiveReader::new(newer)), Err(OgawaError::UnsupportedVersion));
    let mut inside = reader.bytes.clone();
    set_root(&mut inside, 8);
    assert_eq!(Archive::new(&ArchiveReader::new(inside)), Err(OgawaError::Corrupt));
}

#[test]
fn tag_predicts_which_load_succeeds() {
    let reader = fixture();
    let root = Archive::new(&reader).unwrap().root_group;
    let inner = root.load_group(&reader, 0, false).unwrap();
    for g in [&root, &inner] {
        for i in 0..g.children.len() {
            let as_group = g.load_group(&reader, i, false);
            let as_data = g.load_data(&reader, i);
            assert_eq!(as_group.is_ok(), is_group(g.children[i]));
            assert_eq!(as_data.is_ok(), !is_group(g.children[i]));
            assert_eq!(is_data(g.children[i]), !is_group(g.children[i]));
        }
    }
    assert_eq!(root.load_data(&reader, 0), Err(OgawaError::Corrupt));
    assert_eq!(root.load_group(&reader, 1, false), Err(OgawaError::Corrupt));
}

#[test]
fn addresses_are_told_apart_by_the_top_bit() {
    assert!(is_group(0));
    assert!(is_group(TAG - 1));
    assert!(is_data(TAG));
    assert!(is_data(u64::MAX));
    assert!(!is_group(TAG | 24));
    assert_eq!(address_offset(TAG | 24), 24);
    assert_eq!(address_offset(24), 24);
    assert!(is_empty(EMPTY_GROUP));
    assert!(is_empty(EMPTY_DATA));
    assert!(!is_empty(8));
}

#[test]
fn empty_slots_are_not_missing_slots() {
    let reader = fixture();
    let parent = GroupChunk::from_children(vec![EMPTY_DATA, EMPTY_GROUP]);
    assert_eq!(parent.child_count, 2);
    assert_eq!(parent.load_data(&reader, 0), Ok(DataChunk { position: 0, size: 0 }));
    assert_eq!(parent.load_group(&reader, 1, false), Err(OgawaError::Corrupt));
    assert_eq!(parent.load_data(&reader, 2), Err(OgawaError::OutOfBounds));
    let none = DataChunk { position: 0, size: 0 };
    assert_eq!(none.read_pod_array(&int32(), &reader), Ok(PodArray::I32(vec![])));
}

#[test]
fn malformed_addresses_are_corrupt() {
    let reader = fixture();
    let len = reader.len() as u64;
    assert_eq!(read_group(&reader, 20, false), Err(OgawaError::Corrupt));
    assert_eq!(read_data(&reader, TAG | 20), Err(OgawaError::Corrupt));
    assert_eq!(read_group(&reader, len, false), Err(OgawaError::Corrupt));
    assert_eq!(read_data(&reader, TAG | len), Err(OgawaError::Corrupt));
    assert_eq!(read_group(&reader, len + 800, false), Err(OgawaError::Corrupt));
    let mut bytes = header();
    bytes.extend_from_slice(&3u64.to_le_bytes());
    bytes.extend_from_slice(&[0u8; 16]);
    assert_eq!(read_group(&ArchiveReader::new(bytes.clone()), 16, false), Err(OgawaError::Corrupt));
    bytes.extend_from_slice(&[0u8; 8]);
    let g = read_group(&ArchiveReader::new(bytes.clone()), 16, true).unwrap();
    assert_eq!(g.children, vec![0, 0, 0]);
    bytes[16..24].copy_from_slice(&u64::MAX.to_le_bytes());
    assert_eq!(read_group(&ArchiveReader::new(bytes), 16, false), Err(OgawaError::Corrupt));
}

#[test]
fn every_logical_sample_maps_into_the_group() {
    let (reader, pr) = scalar_fixture();
    let mut last = 0;
    for i in 0..pr.sample_count() {
        let slot = pr.header.map_index(i).unwrap();
        assert!(slot < pr.group.children.len() - 1);
        assert!(slot >= last);
        last = slot;
        assert!(load_sample_chunk(&pr.header, &pr.group, &reader, i).is_ok());
    }
    assert_eq!(pr.header.map_index(5), Err(OgawaError::OutOfBounds));
}

#[test]
fn map_index_without_table_is_identity() {
    let h = PropertyHeader::new("x".to_string(), int32(), 3);
    assert_eq!(h.map_index(0), Ok(0));
    assert_eq!(h.map_index(2), Ok(2));
    assert_eq!(h.map_index(3), Err(OgawaError::OutOfBounds));
    let none = PropertyHeader::new("x".to_string(), int32(), 0);
    assert_eq!(none.map_index(0), Err(OgawaError::OutOfBounds));
}

#[test]
fn map_index_looks_up_the_table() {
    let h = PropertyHeader::with_indirection("x".to_string(), int32(), 5, vec![0, 1, 1, 2, 2])
        .unwrap();
    let slots: Vec<usize> = (0..5).map(|i| h.map_index(i).unwrap()).collect();
    assert_eq!(slots, vec![0, 1, 1, 2, 2]);
    assert_eq!(h.map_index(5), Err(OgawaError::OutOfBounds));
    let short = PropertyHeader {
        name: "x".to_string(),
        data_type: int32(),
        next_sample_index: 3,
        indirection: Some(vec![0]),
    };
    assert_eq!(short.map_index(0), Ok(0));
    assert_eq!(short.map_index(1), Err(OgawaError::Corrupt));
    assert_eq!(short.map_index(3), Err(OgawaError::OutOfBounds));
}

#[test]
fn malformed_tables_are_corrupt() {
    assert!(check_table(&vec![0, 1, 1, 2, 2], 5));
    assert!(check_table(&vec![], 0));
    assert!(!check_table(&vec![0, 1, 1, 2, 2], 4));
    assert!(!check_table(&vec![0, 2, 1], 3));
    let r = PropertyHeader::with_indirection("x".to_string(), int32(), 3, vec![0, 2, 1]);
    assert_eq!(r, Err(OgawaError::Corrupt));
    let r = PropertyHeader::with_indirection("x".to_string(), int32(), 2, vec![0, 1, 2]);
    assert_eq!(r, Err(OgawaError::Corrupt));
    let (reader, group) = property_fixture();
    assert_eq!(load_indirection(&group, &reader, 4), Err(OgawaError::Corrupt));
    let mut narrow = group.clone();
    narrow.children.remove(2);
    assert_eq!(load_indirection(&narrow, &reader, 5), Err(OgawaError::Corrupt));
    let empty = GroupChunk::from_children(vec![]);
    assert_eq!(load_indirection(&empty, &reader, 0), Err(OgawaError::Corrupt));
    let groups = GroupChunk::from_children(vec![16]);
    assert_eq!(load_indirection(&groups, &reader, 0), Err(OgawaError::Corrupt));
}

#[test]
fn sample_that_maps_outside_the_group_is_corrupt() {
    let (reader, group) = property_fixture();
    let h = PropertyHeader::with_indirection("x".to_string(), int32(), 2, vec![0, 3]).unwrap();
    let pr = ArrayPropertyReader::new(Rc::new(group.clone()), h);
    assert_eq!(pr.load_sample(0, &reader), Ok(PodArray::I32(vec![10])));
    assert_eq!(pr.load_sample(1, &reader), Err(OgawaError::Corrupt));
    assert_eq!(pr.load_sample(2, &reader), Err(OgawaError::OutOfBounds));
    let plain = PropertyHeader::new("x".to_string(), int32(), 9);
    let pr = ArrayPropertyReader::new(Rc::new(group), plain);
    assert_eq!(pr.load_sample(2, &reader), Ok(PodArray::I32(vec![30])));
    assert_eq!(pr.load_sample(4, &reader), Err(OgawaError::Corrupt));
    assert_eq!(pr.load_sample(8, &reader), Err(OgawaError::Corrupt));
    assert_eq!(pr.load_sample(9, &reader), Err(OgawaError::OutOfBounds));
}

#[test]
fn array_reader_loads_samples_of_varying_length() {
    let mut bytes = header();
    let s0 = put_data(&mut bytes, &[1, 0, 2, 0, 3, 0]);
    let s1 = put_data(&mut bytes, &[]);
    let s2 = put_data(&mut bytes, &[0xff, 0xff]);
    let group = put_group(&mut bytes, &[s0, s1, s2]);
    let reader = ArchiveReader::new(bytes);
    let group = read_group(&reader, group, false).unwrap();
    let dt = DataType { pod_type: PodType::U16, extent: 1 };
    let pr = ArrayPropertyReader::new(Rc::new(group), PropertyHeader::new("a".to_string(), dt, 3));
    assert_eq!(pr.name(), "a");
    assert_eq!(pr.sample_count(), 3);
    assert_eq!(pr.load_sample(0, &reader), Ok(PodArray::U16(vec![1, 2, 3])));
    assert_eq!(pr.load_sample(1, &reader), Ok(PodArray::U16(vec![])));
    assert_eq!(pr.load_sample(2, &reader), Ok(PodArray::U16(vec![65535])));
    assert_eq!(pr.sample_size(0, &reader), Ok(6));
    assert_eq!(pr.sample_size(1, &reader), Ok(0));
    assert_eq!(pr.sample_size(2, &reader), Ok(2));
    for i in 0..10u32 {
        let r = pr.load_sample(i, &reader);
        assert_eq!(r == Err(OgawaError::OutOfBounds), i >= 3);
        assert_eq!(r.is_ok(), i < 3);
        assert_eq!(pr.sample_size(i, &reader).is_ok(), i < 3);
    }
}

#[test]
fn scalar_sample_is_one_element() {
    let mut bytes = header();
    let s0 = put_data(&mut bytes, &floats()[..12]);
    let s1 = put_data(&mut bytes, &floats()[..8]);
    let s2 = put_data(&mut bytes, &[0u8; 24]);
    let group = put_group(&mut bytes, &[s0, s1, s2]);
    let reader = ArchiveReader::new(bytes);
    let group = read_group(&reader, group, false).unwrap();
    let dt = DataType { pod_type: PodType::F32, extent: 3 };
    let pr = ScalarPropertyReader::new(Rc::new(group), PropertyHeader::new("v".to_string(), dt, 3));
    let bits = vec![1.0f32.to_bits(), 2.0f32.to_bits(), 3.0f32.to_bits()];
    assert_eq!(pr.load_sample(0, &reader), Ok(PodArray::F32(bits)));
    assert_eq!(pr.load_sample(1, &reader), Err(OgawaError::Corrupt));
    assert_eq!(pr.load_sample(2, &reader), Err(OgawaError::Corrupt));
    assert_eq!(pr.sample_size(2, &reader), Ok(24));
    assert_eq!(pr.load_sample(3, &reader), Err(OgawaError::OutOfBounds));
}

#[test]
fn fixed_width_kinds_decode_what_was_encoded() {
    let dt = |pod_type| DataType { pod_type, extent: 1 };
    let mut p = Vec::new();
    for v in [0u16, 1, 0x1234, u16::MAX] {
        p.extend_from_slice(&v.to_le_bytes());
    }
    assert_eq!(decode_pod_array(&dt(PodType::U16), &p), Ok(PodArray::U16(vec![0, 1, 0x1234, u16::MAX])));
    let mut p = Vec::new();
    for v in [0i16, -1, i16::MIN, i16::MAX] {
        p.extend_from_slice(&v.to_le_bytes());
    }
    assert_eq!(decode_pod_array(&dt(PodType::I16), &p), Ok(PodArray::I16(vec![0, -1, i16::MIN, i16::MAX])));
    let mut p = Vec::new();
    for v in [0u32, 0x12345678, u32::MAX] {
        p.extend_from_slice(&v.to_le_bytes());
    }
    assert_eq!(decode_pod_array(&dt(PodType::U32), &p), Ok(PodArray::U32(vec![0, 0x12345678, u32::MAX])));
    let mut p = Vec::new();
    for v in [0i32, -1, i32::MIN, i32::MAX, -123456] {
        p.extend_from_slice(&v.to_le_bytes());
    }
    assert_eq!(decode_pod_array(&dt(PodType::I32), &p), Ok(PodArray::I32(vec![0, -1, i32::MIN, i32::MAX, -123456])));
    let mut p = Vec::new();
    for v in [0u64, 0x0123456789abcdef, u64::MAX] {
        p.extend_from_slice(&v.to_le_bytes());
    }
    assert_eq!(decode_pod_array(&dt(PodType::U64), &p), Ok(PodArray::U64(vec![0, 0x0123456789abcdef, u64::MAX])));
    let mut p = Vec::new();
    for v in [0i64, -1, i64::MIN, i64::MAX, -5_000_000_000] {
        p.extend_from_slice(&v.to_le_bytes());
    }
    assert_eq!(decode_pod_array(&dt(PodType::I64), &p), Ok(PodArray::I64(vec![0, -1, i64::MIN, i64::MAX, -5_000_000_000])));
    let p: Vec<u8> = [0i8, -1, i8::MIN, i8::MAX].iter().map(|v| v.to_le_bytes()[0]).collect();
    assert_eq!(decode_pod_array(&dt(PodType::I8), &p), Ok(PodArray::I8(vec![0, -1, i8::MIN, i8::MAX])));
    assert_eq!(decode_pod_array(&dt(PodType::U8), &[0, 7, 255]), Ok(PodArray::U8(vec![0, 7, 255])));
    assert_eq!(decode_pod_array(&dt(PodType::Bool), &[0, 1, 0]), Ok(PodArray::Bool(vec![false, true, false])));
}

#[test]
fn floats_keep_their_bits() {
    let values = [0.0f64, -0.0, 1.5, f64::MAX, f64::MIN_POSITIVE, f64::INFINITY, f64::NAN];
    let mut p = Vec::new();
    for v in values {
        p.extend_from_slice(&v.to_le_bytes());
    }
    let dt = DataType { pod_type: PodType::F64, extent: 1 };
    match decode_pod_array(&dt, &p).unwrap() {
        PodArray::F64(bits) => {
            assert_eq!(bits.len(), values.len());
            for (b, v) in bits.iter().zip(values.iter()) {
                assert_eq!(*b, v.to_bits());
            }
            assert_eq!(f64::from_bits(bits[2]), 1.5);
        }
        other => panic!("{:?}", other),
    }
    let dt = DataType { pod_type: PodType::F32, extent: 1 };
    let p = (-2.25f32).to_le_bytes();
    assert_eq!(decode_pod_array(&dt, &p), Ok(PodArray::F32(vec![(-2.25f32).to_bits()])));
}

#[test]
fn payload_must_be_whole_elements() {
    let f3 = DataType { pod_type: PodType::F32, extent: 3 };
    assert!(decode_pod_array(&f3, &[0u8; 24]).is_ok());
    assert_eq!(decode_pod_array(&f3, &[0u8; 24]).unwrap().len(), 6);
    assert_eq!(decode_pod_array(&f3, &[0u8; 16]), Err(OgawaError::Corrupt));
    let u2 = DataType { pod_type: PodType::U16, extent: 1 };
    assert_eq!(decode_pod_array(&u2, &[0u8; 3]), Err(OgawaError::Corrupt));
    let none = DataType { pod_type: PodType::U8, extent: 0 };
    assert_eq!(decode_pod_array(&none, &[]), Err(OgawaError::Corrupt));
    assert_eq!(f3.element_width(), 12);
    assert_eq!(PodType::F64.width(), 8);
    assert_eq!(PodType::String.width(), 0);
}

#[test]
fn strings_are_closed_by_zero_bytes() {
    let dt = DataType { pod_type: PodType::String, extent: 1 };
    assert_eq!(
        decode_pod_array(&dt, b"ab\0\0cde\0"),
        Ok(PodArray::String(vec![b"ab".to_vec(), vec![], b"cde".to_vec()]))
    );
    assert_eq!(decode_pod_array(&dt, b""), Ok(PodArray::String(vec![])));
    assert_eq!(decode_pod_array(&dt, b"ab\0c"), Err(OgawaError::Corrupt));
}

#[test]
fn payload_behind_the_end_is_corrupt() {
    let reader = fixture();
    let len = reader.len() as u64;
    let d = DataChunk { position: len - 4, size: 8 };
    assert_eq!(d.read_pod_array(&int32(), &reader), Err(OgawaError::Corrupt));
    let d = DataChunk { position: u64::MAX, size: u64::MAX };
    assert_eq!(d.read_pod_array(&int32(), &reader), Err(OgawaError::Corrupt));
    let d = DataChunk { position: len - 4, size: 4 };
    assert!(d.read_pod_array(&int32(), &reader).is_ok());
}

#[test]
fn byte_source_reads_by_absolute_offset() {
    let reader = ArchiveReader::new(vec![1, 2, 3, 4, 5, 6, 7, 8, 9]);
    assert_eq!(reader.len(), 9);
    assert_eq!(reader.read_u64(0), Ok(0x0807060504030201));
    assert_eq!(reader.read_u64(1), Ok(0x0908070605040302));
    assert_eq!(reader.read_u64(2), Err(OgawaError::Io));
    assert_eq!(reader.read_u64(u64::MAX), Err(OgawaError::Io));
    assert_eq!(reader.read_bytes(7, 2), Ok(vec![8, 9]));
    assert_eq!(reader.read_bytes(9, 0), Ok(vec![]));
    assert_eq!(reader.read_bytes(8, 2), Err(OgawaError::Io));
    assert_eq!(read_u16_le(&reader.bytes, 0), 0x0201);
    assert_eq!(read_u32_le(&reader.bytes, 1), 0x05040302);
    assert_eq!(read_u64_le(&reader.bytes, 1), 0x0908070605040302);
}

#[test]
fn children_come_last_slot_first() {
    let reader = fixture();
    let root = Archive::new(&reader).unwrap().root_group;
    let v = children_reversed(&root, &reader, 0).unwrap();
    assert_eq!(v.len(), 2);
    assert_eq!((v[0].indent, v[0].index), (1, 1));
    assert_eq!((v[1].indent, v[1].index), (1, 0));
    assert_eq!(v[0].chunk, read_chunk(&reader, root.children[1]).unwrap());
    assert!(matches!(v[0].chunk, Chunk::Data(DataChunk { size: 16, .. })));
    assert!(matches!(&v[1].chunk, Chunk::Group(g) if g.child_count == 3));
    let broken = GroupChunk::from_children(vec![root.children[0], TAG | 4, 12]);
    assert_eq!(children_reversed(&broken, &reader, 0), Err(OgawaError::Corrupt));
}

#[test]
fn depth_first_walk_visits_in_file_order() {
    let reader = fixture();
    let root = Archive::new(&reader).unwrap().root_group;
    let mut stack = vec![Visit { indent: 0, index: 0, chunk: Chunk::Group(root) }];
    let mut seen: Vec<(usize, usize, bool, u64)> = Vec::new();
    while let Some(v) = stack.pop() {
        match &v.chunk {
            Chunk::Group(g) => {
                seen.push((v.indent, v.index, true, g.child_count));
                stack.extend(children_reversed(g, &reader, v.indent).unwrap());
            }
            Chunk::Data(d) => seen.push((v.indent, v.index, false, d.size)),
        }
    }
    assert_eq!(
        seen,
        vec![
            (0, 0, true, 2),
            (1, 0, true, 3),
            (2, 0, false, 2),
            (2, 1, false, 4),
            (2, 2, false, 0),
            (1, 1, false, 16),
        ]
    );
}

fn record(kind: u8, pod: u8, extent: u8, has_table: u8, samples: u32, name: &[u8]) -> Vec<u8> {
    let mut r = vec![kind, pod, extent, has_table];
    r.extend_from_slice(&samples.to_le_bytes());
    r.extend_from_slice(&(name.len() as u32).to_le_bytes());
    r.extend_from_slice(name);
    r
}

fn put_object(bytes: &mut Vec<u8>, properties: u64, children: &[(u64, &str)]) -> u64 {
    let mut names = Vec::new();
    let mut slots = vec![properties];
    for (group, name) in children {
        slots.push(*group);
        names.extend_from_slice(name.as_bytes());
        names.push(0);
    }
    slots.push(put_data(bytes, &names));
    put_group(bytes, &slots)
}

/// An archive whose root object has the children `a` and `b`, `b` the child
/// `c`, and the root the properties `ids` (array), `P` (scalar, five samples
/// in three slots) and `more` (compound of `w`).
fn scene() -> (ArchiveReader, ObjectReader) {
    let mut bytes = header();
    let ids = put_data(&mut bytes, &[1, 0, 2, 0]);
    let ids_group = put_group(&mut bytes, &[ids]);
    let s0 = put_data(&mut bytes, &10i32.to_le_bytes());
    let s1 = put_data(&mut bytes, &(-20i32).to_le_bytes());
    let s2 = put_data(&mut bytes, &30i32.to_le_bytes());
    let mut table = Vec::new();
    for t in [0u32, 1, 1, 2, 2] {
        table.extend_from_slice(&t.to_le_bytes());
    }
    let t = put_data(&mut bytes, &table);
    let p_group = put_group(&mut bytes, &[s0, s1, s2, t]);
    let w = put_data(&mut bytes, &[9, 9, 9]);
    let w_group = put_group(&mut bytes, &[w]);
    let inner_records = put_data(&mut bytes, &record(1, 1, 1, 0, 1, b"w"));
    let more_group = put_group(&mut bytes, &[w_group, inner_records]);
    let mut records = record(1, 3, 1, 0, 1, b"ids");
    records.extend(record(0, 6, 1, 1, 5, b"P"));
    records.extend(record(2, 0, 0, 0, 0, b"more"));
    let records = put_data(&mut bytes, &records);
    let properties = put_group(&mut bytes, &[ids_group, p_group, more_group, records]);
    let a = put_object(&mut bytes, EMPTY_GROUP, &[]);
    let c = put_object(&mut bytes, EMPTY_GROUP, &[]);
    let b = put_object(&mut bytes, EMPTY_GROUP, &[(c, "c")]);
    let top = put_object(&mut bytes, properties, &[(a, "a"), (b, "b")]);
    let root = put_group(&mut bytes, &[EMPTY_DATA, EMPTY_DATA, top]);
    set_root(&mut bytes, root);
    let reader = ArchiveReader::new(bytes);
    let archive = Archive::new(&reader).unwrap();
    let group = archive.root_group.load_group(&reader, 2, false).unwrap();
    let parent = ObjectHeader { full_name: String::new() };
    let object = ObjectReader::new(Rc::new(group), "", &reader, &parent).unwrap();
    (reader, object)
}

#[test]
fn compound_declares_its_sub_properties() {
    let (reader, object) = scene();
    let properties = object.properties(&reader).unwrap().unwrap();
    assert_eq!(properties.name(), "");
    assert_eq!(properties.sub_property_count(), 3);
    match properties.load_sub_property(0, &reader).unwrap() {
        PropertyReader::Array(a) => {
            assert_eq!(a.name(), "ids");
            assert_eq!(a.sample_count(), 1);
            assert_eq!(a.load_sample(0, &reader), Ok(PodArray::U16(vec![1, 2])));
        }
        other => panic!("{:?}", other),
    }
    match properties.load_sub_property(1, &reader).unwrap() {
        PropertyReader::Scalar(p) => {
            assert_eq!(p.name(), "P");
            assert_eq!(p.sample_count(), 5);
            assert_eq!(p.header.indirection, Some(vec![0, 1, 1, 2, 2]));
            let s: Vec<PodArray> = (0..5).map(|i| p.load_sample(i, &reader).unwrap()).collect();
            assert_eq!(s[1], s[2]);
            assert_eq!(s[3], s[4]);
            assert_eq!(s[0], PodArray::I32(vec![10]));
            assert_eq!(s[2], PodArray::I32(vec![-20]));
            assert_eq!(s[4], PodArray::I32(vec![30]));
            assert_eq!(p.load_sample(5, &reader), Err(OgawaError::OutOfBounds));
        }
        other => panic!("{:?}", other),
    }
    match properties.load_sub_property(2, &reader).unwrap() {
        PropertyReader::Compound(c) => {
            assert_eq!(c.name(), "more");
            assert_eq!(c.sub_property_count(), 1);
            let w = c.load_sub_property(0, &reader).unwrap();
            assert_eq!(w.name(), "w");
            assert!(matches!(w, PropertyReader::Array(_)));
            assert!(matches!(c.load_sub_property(1, &reader), Err(OgawaError::OutOfBounds)));
        }
        other => panic!("{:?}", other),
    }
}

#[test]
fn sub_property_index_at_count_is_out_of_bounds() {
    let (reader, object) = scene();
    let properties = object.properties(&reader).unwrap().unwrap();
    for i in 0..8usize {
        let r = properties.load_sub_property(i, &reader);
        assert_eq!(r.is_ok(), i < 3);
        assert_eq!(matches!(r, Err(OgawaError::OutOfBounds)), i >= 3);
    }
}

#[test]
fn child_index_at_count_is_out_of_bounds() {
    let (reader, object) = scene();
    assert_eq!(object.child_count(), 2);
    for i in 0..6usize {
        let r = object.load_child(i, &reader);
        assert_eq!(r.is_ok(), i < 2);
        assert_eq!(matches!(r, Err(OgawaError::OutOfBounds)), i >= 2);
    }
    assert!(matches!(object.load_child(usize::MAX, &reader), Err(OgawaError::OutOfBounds)));
}

#[test]
fn objects_and_properties_come_in_declared_order() {
    let (reader, object) = scene();
    let mut seen: Vec<String> = Vec::new();
    let mut stack = vec![object];
    while let Some(current) = stack.pop() {
        seen.push(current.header.full_name.clone());
        if let Some(properties) = current.properties(&reader).unwrap() {
            let mut pending = properties.load_sub_properties_reversed(&reader).unwrap();
            while let Some(p) = pending.pop() {
                seen.push(format!("prop {}", p.name()));
                if let PropertyReader::Compound(c) = &p {
                    pending.extend(c.load_sub_properties_reversed(&reader).unwrap());
                }
            }
        }
        stack.extend(current.load_children_reversed(&reader).unwrap());
    }
    assert_eq!(
        seen,
        vec!["", "prop ids", "prop P", "prop more", "prop w", "/a", "/b", "/b/c"]
    );
    let (reader, object) = scene();
    let names: Vec<String> = object
        .load_children_reversed(&reader)
        .unwrap()
        .iter()
        .map(|o| o.header.full_name.clone())
        .collect();
    assert_eq!(names, vec!["/b", "/a"]);
}

#[test]
fn object_without_properties_has_none() {
    let (reader, object) = scene();
    let a = object.load_child(0, &reader).unwrap();
    assert_eq!(a.header.full_name, "/a");
    assert_eq!(a.child_count(), 0);
    assert!(a.properties(&reader).unwrap().is_none());
    assert_eq!(a.child_names, Vec::<String>::new());
    let b = object.load_child(1, &reader).unwrap();
    assert_eq!(b.child_names, vec!["c".to_string()]);
    assert_eq!(object.child_index(&"a".to_string()), Some(0));
    assert_eq!(object.child_index(&"b".to_string()), Some(1));
    assert_eq!(object.child_index(&"c".to_string()), None);
    assert_eq!(b.child_index(&"c".to_string()), Some(0));
}

#[test]
fn malformed_objects_are_corrupt() {
    let (reader, object) = scene();
    let parent = ObjectHeader { full_name: String::new() };
    let short = Rc::new(GroupChunk::from_children(vec![EMPTY_GROUP]));
    assert!(matches!(ObjectReader::new(short, "x", &reader, &parent), Err(OgawaError::Corrupt)));
    let unnamed = Rc::new(GroupChunk::from_children(vec![EMPTY_GROUP, 16, EMPTY_DATA]));
    assert!(matches!(ObjectReader::new(unnamed, "x", &reader, &parent), Err(OgawaError::Corrupt)));
    let no_data = Rc::new(GroupChunk::from_children(vec![EMPTY_GROUP, 16]));
    assert!(matches!(ObjectReader::new(no_data, "x", &reader, &parent), Err(OgawaError::Corrupt)));
    let leaf = Rc::new(GroupChunk::from_children(vec![EMPTY_GROUP, EMPTY_DATA]));
    let leaf = ObjectReader::new(leaf, "x", &reader, &object.header).unwrap();
    assert_eq!(leaf.header.full_name, "/x");
    let mut bytes = header();
    let names = put_data(&mut bytes, &[0xff, 0]);
    let reader = ArchiveReader::new(bytes);
    let bad = Rc::new(GroupChunk::from_children(vec![EMPTY_GROUP, 16, names]));
    assert!(matches!(ObjectReader::new(bad, "x", &reader, &parent), Err(OgawaError::Corrupt)));
}

#[test]
fn paths_are_joined_with_slashes() {
    assert_eq!(join_path("", ""), "");
    assert_eq!(join_path("", "a"), "/a");
    assert_eq!(join_path("/a", "b"), "/a/b");
    assert_eq!(join_path("/a", ""), "/a");
}

#[test]
fn names_must_be_utf8() {
    let names = decode_names(&vec![b"caf\xc3\xa9".to_vec(), vec![]]);
    assert_eq!(names, Some(vec!["caf\u{e9}".to_string(), String::new()]));
    assert_eq!(decode_names(&vec![b"ok".to_vec(), vec![0xc3]]), None);
    assert_eq!(decode_names(&vec![]), Some(vec![]));
}

#[test]
fn records_are_parsed_one_behind_the_other() {
    let mut p = record(0, 9, 3, 0, 7, b"pos");
    p.extend(record(1, 11, 1, 1, 0x01020304, b""));
    let v = parse_records(&p).unwrap();
    assert_eq!(v.len(), 2);
    assert_eq!(v[0].kind, PropertyKind::Scalar);
    assert!(!v[0].has_table);
    assert_eq!(v[0].header.name, "pos");
    assert_eq!(v[0].header.data_type, DataType { pod_type: PodType::F32, extent: 3 });
    assert_eq!(v[0].header.next_sample_index, 7);
    assert_eq!(v[0].header.indirection, None);
    assert_eq!(v[1].kind, PropertyKind::Array);
    assert!(v[1].has_table);
    assert_eq!(v[1].header.name, "");
    assert_eq!(v[1].header.data_type.pod_type, PodType::String);
    assert_eq!(v[1].header.next_sample_index, 0x01020304);
    assert_eq!(parse_records(&[]).unwrap().len(), 0);
}

#[test]
fn malformed_records_are_refused() {
    assert!(parse_records(&record(3, 0, 1, 0, 0, b"x")).is_none());
    assert!(parse_records(&record(0, 12, 1, 0, 0, b"x")).is_none());
    assert!(parse_records(&record(0, 0, 1, 2, 0, b"x")).is_none());
    assert!(parse_records(&record(0, 0, 1, 0, 0, &[0xff])).is_none());
    let whole = record(0, 0, 1, 0, 0, b"name");
    assert!(parse_records(&whole).is_some());
    assert!(parse_records(&whole[..whole.len() - 1]).is_none());
    assert!(parse_records(&whole[..11]).is_none());
    let mut two = whole.clone();
    two.push(0);
    assert!(parse_records(&two).is_none());
    assert!(make_sub_header(&whole, 0, None).is_none());
    let h = make_sub_header(&whole, 0, Some("other".to_string())).unwrap();
    assert_eq!(h.header.name, "other");
    assert_eq!(kind_from_tag(2), Some(PropertyKind::Compound));
    assert_eq!(kind_from_tag(3), None);
    assert_eq!(pod_from_tag(10), Some(PodType::F64));
    assert_eq!(pod_from_tag(12), None);
}

#[test]
fn malformed_compounds_are_corrupt() {
    let mut bytes = header();
    let d = put_data(&mut bytes, &[1]);
    let g = put_group(&mut bytes, &[d]);
    let one = put_data(&mut bytes, &record(1, 1, 1, 0, 1, b"w"));
    let table_less = put_data(&mut bytes, &record(1, 1, 1, 1, 1, b"w"));
    let reader = ArchiveReader::new(bytes);
    let new = |slots: Vec<u64>| {
        CompoundPropertyReader::new(Rc::new(GroupChunk::from_children(slots)), "c".to_string(), &reader)
    };
    assert_eq!(new(vec![]).unwrap().sub_property_count(), 0);
    assert_eq!(new(vec![EMPTY_DATA]).unwrap().sub_property_count(), 0);
    assert_eq!(new(vec![g, one]).unwrap().sub_property_count(), 1);
    assert!(matches!(new(vec![g, g, one]), Err(OgawaError::Corrupt)));
    assert!(matches!(new(vec![one]), Err(OgawaError::Corrupt)));
    assert!(matches!(new(vec![g, g]), Err(OgawaError::Corrupt)));
    assert!(matches!(new(vec![g, d]), Err(OgawaError::Corrupt)));
    let c = new(vec![d, one]).unwrap();
    assert!(matches!(c.load_sub_property(0, &reader), Err(OgawaError::Corrupt)));
    let c = new(vec![g, table_less]).unwrap();
    assert!(matches!(c.load_sub_property(0, &reader), Err(OgawaError::Corrupt)));
    let c = new(vec![g, one]).unwrap();
    assert!(matches!(c.load_sub_property(0, &reader), Ok(PropertyReader::Array(_))));
}

fn archive_with_tables(samplings: &[u8], strings: &[u8]) -> ArchiveReader {
    let mut bytes = header();
    let top = put_object(&mut bytes, EMPTY_GROUP, &[]);
    let times = put_data(&mut bytes, samplings);
    let meta = put_data(&mut bytes, strings);
    let root = put_group(&mut bytes, &[EMPTY_DATA, EMPTY_DATA, top, EMPTY_DATA, times, meta]);
    set_root(&mut bytes, root);
    ArchiveReader::new(bytes)
}

#[test]
fn tables_are_loaded_with_the_archive() {
    let mut samplings = Vec::new();
    for w in [1u64, 1.0f64.to_bits(), 0.0f64.to_bits(), 24, 0.5f64.to_bits(), 2.0f64.to_bits()] {
        samplings.extend_from_slice(&w.to_le_bytes());
    }
    let reader = archive_with_tables(&samplings, b"a=1\0\0b=2\0");
    let archive = Archive::new(&reader).unwrap();
    assert_eq!(archive.root_header.full_name, "");
    assert_eq!(archive.root_group.child_count, 6);
    assert_eq!(archive.time_samplings.entries.len(), 2);
    let second = archive.time_samplings.resolve_time_sampling(1).unwrap();
    assert_eq!(second.samples_per_cycle, 24);
    assert_eq!(f64::from_bits(second.time_per_cycle), 0.5);
    assert_eq!(f64::from_bits(second.start_time), 2.0);
    assert_eq!(
        archive.time_samplings.resolve_time_sampling(0),
        Ok(&TimeSampling {
            samples_per_cycle: 1,
            time_per_cycle: 1.0f64.to_bits(),
            start_time: 0
        })
    );
    assert_eq!(archive.time_samplings.resolve_time_sampling(2), Err(OgawaError::Corrupt));
    assert_eq!(archive.indexed_meta_data.resolve_metadata(0), Ok("a=1"));
    assert_eq!(archive.indexed_meta_data.resolve_metadata(1), Ok(""));
    assert_eq!(archive.indexed_meta_data.resolve_metadata(2), Ok("b=2"));
    assert_eq!(archive.indexed_meta_data.resolve_metadata(3), Err(OgawaError::Corrupt));
}

#[test]
fn malformed_tables_fail_the_open() {
    assert!(Archive::new(&archive_with_tables(&[], b"")).is_ok());
    assert_eq!(Archive::new(&archive_with_tables(&[0u8; 23], b"")), Err(OgawaError::Corrupt));
    assert_eq!(Archive::new(&archive_with_tables(&[0u8; 8], b"")), Err(OgawaError::Corrupt));
    assert_eq!(Archive::new(&archive_with_tables(&[], b"open")), Err(OgawaError::Corrupt));
    assert_eq!(Archive::new(&archive_with_tables(&[], &[0xff, 0])), Err(OgawaError::Corrupt));
}

#[test]
fn archive_without_table_slots_has_empty_tables() {
    let reader = fixture();
    let archive = Archive::new(&reader).unwrap();
    assert_eq!(archive.time_samplings, TimeSamplings { entries: vec![] });
    assert_eq!(archive.indexed_meta_data, IndexedMetaData { entries: vec![] });
    assert_eq!(archive.indexed_meta_data.resolve_metadata(0), Err(OgawaError::Corrupt));
    assert_eq!(samplings_from_words(&vec![1, 2, 3, 4]).len(), 1);
    let root = GroupChunk::from_children(vec![0, 0, 0, 0, 16, 16]);
    assert_eq!(TimeSamplings::load(&root, &reader), Err(OgawaError::Corrupt));
    assert_eq!(IndexedMetaData::load(&root, &reader), Err(OgawaError::Corrupt));
}
