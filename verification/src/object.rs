use std::rc::Rc;
use vstd::prelude::*;
use crate::chunks::{data_at, group_at, read_data, DataChunk, GroupChunk, GroupModel, EMPTY_GROUP};
use crate::pod::{copy_bytes, payload_of, strings_in, strings_of, DataType, PodArray, PodType};
use crate::property::compound_reader::{sub_headers_at, CompoundPropertyReader};
use crate::property::header_codec::{records_of, text_from_utf8, utf8_text, RecordModel};
use crate::reader::ArchiveReader;
use crate::result::OgawaError;

verus! {

/// What is known of an object before its children are read.
#[derive(Clone, Debug, PartialEq, Eq)]
pub struct ObjectHeader {
    /// The path of the object from the root of the archive.
    pub full_name: String,
}

/// A node of the object tree.
///
/// Its Group holds, in slot 0, the Group of its compound of properties, or
/// the empty Group address where it has none; then one Group for each
/// child; and in the last slot a Data chunk with the zero-terminated names
/// of the children.
#[derive(Debug)]
pub struct ObjectReader {
    pub group: Rc<GroupChunk>,
    pub header: ObjectHeader,
    pub child_names: Vec<String>,
}

/// What an `ObjectReader` is.
pub struct ObjectModel {
    pub group: GroupModel,
    pub full_name: Seq<char>,
    pub child_names: Seq<Seq<char>>,
}

/// The texts that a vector of strings holds.
pub open spec fn names_of(v: Seq<String>) -> Seq<Seq<char>> {
    Seq::new(v.len(), |i: int| v[i]@)
}

impl View for ObjectReader {
    type V = ObjectModel;

    open spec fn view(&self) -> ObjectModel {
        ObjectModel {
            group: self.group@,
            full_name: self.header.full_name@,
            child_names: names_of(self.child_names@),
        }
    }
}

/// The path of the object `name` below the object with the path `parent`;
/// the object without a name is the root and has the path of its parent.
pub open spec fn full_name_of(parent: Seq<char>, name: Seq<char>) -> Seq<char> {
    if name.len() == 0 {
        parent
    } else {
        parent + seq!['/'] + name
    }
}

/// The texts of the byte strings `ss`, where each of them is UTF-8.
pub open spec fn texts_of(ss: Seq<Seq<u8>>) -> Option<Seq<Seq<char>>> {
    if forall|i: int| 0 <= i < ss.len() ==> (#[trigger] utf8_text(ss[i])).is_some() {
        Some(Seq::new(ss.len(), |i: int| utf8_text(ss[i]).unwrap()))
    } else {
        None
    }
}

/// The names of the children of an object whose Group has the slots
/// `children`.
///
/// `Corrupt` where the Group has fewer than two slots, the last holds no
/// Data chunk of zero-terminated UTF-8 strings, or the strings are not one
/// for each slot between the first and the last.
pub open spec fn child_names_at(children: Seq<u64>, bytes: Seq<u8>) -> Result<
    Seq<Seq<char>>,
    OgawaError,
> {
    if children.len() < 2 {
        Err(OgawaError::Corrupt)
    } else {
        match data_at(bytes, children.last()) {
            Err(e) => Err(e),
            Ok(d) => match payload_of(bytes, d) {
                Err(e) => Err(e),
                Ok(p) => if p.len() > 0 && p.last() != 0 {
                    Err(OgawaError::Corrupt)
                } else {
                    match texts_of(strings_in(p)) {
                        Some(names) => if names.len() == children.len() - 2 {
                            Ok(names)
                        } else {
                            Err(OgawaError::Corrupt)
                        },
                        None => Err(OgawaError::Corrupt),
                    }
                },
            },
        }
    }
}

/// The object `name` on the Group `g`, below the object with the path
/// `parent`.
pub open spec fn object_on(g: GroupModel, name: Seq<char>, bytes: Seq<u8>, parent: Seq<char>) -> Result<
    ObjectModel,
    OgawaError,
> {
    match child_names_at(g.children, bytes) {
        Err(e) => Err(e),
        Ok(names) => Ok(
            ObjectModel { group: g, full_name: full_name_of(parent, name), child_names: names },
        ),
    }
}

/// Child `index` of the object `o`.
///
/// `OutOfBounds` exactly where `index` is no child; `Corrupt` where the
/// Group has no slot for it; else what loading the Group in slot `index + 1`
/// and the object on it gives.
pub open spec fn child_object_at(o: ObjectModel, bytes: Seq<u8>, index: int) -> Result<
    ObjectModel,
    OgawaError,
> {
    if index < 0 || index >= o.child_names.len() {
        Err(OgawaError::OutOfBounds)
    } else if index + 1 >= o.group.children.len() {
        Err(OgawaError::Corrupt)
    } else {
        match group_at(bytes, o.group.children[index + 1], false) {
            Err(e) => Err(e),
            Ok(g) => object_on(g, o.child_names[index], bytes, o.full_name),
        }
    }
}

/// The records of the compound of properties of an object whose Group has
/// the slots `children`, with the Group of the compound; nothing where slot
/// 0 holds the empty Group address.
pub open spec fn properties_at(children: Seq<u64>, bytes: Seq<u8>) -> Result<
    Option<(GroupModel, Seq<RecordModel>)>,
    OgawaError,
> {
    if children.len() == 0 {
        Err(OgawaError::Corrupt)
    } else if children[0] == EMPTY_GROUP {
        Ok(None)
    } else {
        match group_at(bytes, children[0], false) {
            Err(e) => Err(e),
            Ok(g) => match sub_headers_at(g.children, bytes) {
                Err(e) => Err(e),
                Ok(rs) => Ok(Some((g, rs))),
            },
        }
    }
}

/// `String::push_str` of std: the text of `t` is appended to `s`.
#[verifier::external_body]
fn append_text(s: &mut String, t: &str)
    ensures
        final(s)@ == old(s)@ + t@,
{
    s.push_str(t)
}

/// Builds the path of the object `name` below `parent`.
pub fn join_path(parent: &str, name: &str) -> (r: String)
    ensures
        r@ == full_name_of(parent@, name@),
{
    let mut path: String = parent.to_owned();
    if name.is_empty() {
        return path;
    }
    proof {
        reveal_strlit("/");
        assert("/"@ =~= seq!['/']);
    }
    append_text(&mut path, "/");
    append_text(&mut path, name);
    path
}

/// Turns the byte strings `raw` into texts, where each is UTF-8.
pub fn decode_names(raw: &Vec<Vec<u8>>) -> (r: Option<Vec<String>>)
    ensures
        match r {
            Some(v) => texts_of(strings_of(raw@)) == Some(names_of(v@)),
            None => texts_of(strings_of(raw@)).is_none(),
        },
{
    let n: usize = raw.len();
    let mut out: Vec<String> = Vec::new();
    let mut i: usize = 0;
    while i < n
        invariant
            i <= n,
            n == raw@.len(),
            out@.len() == i,
            forall|j: int|
                0 <= j < i ==> (#[trigger] utf8_text(strings_of(raw@)[j])) == Some(out@[j]@),
        decreases n - i,
    {
        match text_from_utf8(copy_bytes(raw[i].as_slice())) {
            Some(s) => {
                out.push(s);
            },
            None => {
                proof {
                    assert(utf8_text(strings_of(raw@)[i as int]).is_none());
                }
                return None;
            },
        }
        i += 1;
    }
    proof {
        assert(texts_of(strings_of(raw@)).unwrap() =~= names_of(out@));
    }
    Some(out)
}

impl ObjectReader {
    /// Reads the object `name` from its Group; `parent_header` is the header
    /// of the object above it.
    pub fn new(
        group: Rc<GroupChunk>,
        name: &str,
        reader: &ArchiveReader,
        parent_header: &ObjectHeader,
    ) -> (r: Result<Self, OgawaError>)
        ensures
            match r {
                Ok(o) => object_on(group@, name@, reader@, parent_header.full_name@) == Ok::<
                    ObjectModel,
                    OgawaError,
                >(o@),
                Err(e) => object_on(group@, name@, reader@, parent_header.full_name@) == Err::<
                    ObjectModel,
                    OgawaError,
                >(e),
            },
    {
        let n: usize = group.children.len();
        if n < 2 {
            return Err(OgawaError::Corrupt);
        }
        let data: DataChunk = match read_data(reader, group.children[n - 1]) {
            Ok(d) => d,
            Err(e) => { return Err(e); },
        };
        let strings = DataType { pod_type: PodType::String, extent: 1 };
        let raw: Vec<Vec<u8>> = match data.read_pod_array(&strings, reader) {
            Ok(PodArray::String(raw)) => raw,
            Ok(_) => { return Err(OgawaError::Corrupt); },
            Err(e) => { return Err(e); },
        };
        let child_names: Vec<String> = match decode_names(&raw) {
            Some(v) => v,
            None => { return Err(OgawaError::Corrupt); },
        };
        if child_names.len() != n - 2 {
            return Err(OgawaError::Corrupt);
        }
        let full_name: String = join_path(parent_header.full_name.as_str(), name);
        Ok(ObjectReader { group, header: ObjectHeader { full_name }, child_names })
    }

    /// Finds the child `name`: the index of the first child of that name.
    pub fn child_index(&self, name: &String) -> (r: Option<usize>)
        ensures
            match r {
                Some(i) => i < self@.child_names.len() && self@.child_names[i as int] == name@
                    && forall|j: int| 0 <= j < i ==> self@.child_names[j] != name@,
                None => forall|j: int|
                    0 <= j < self@.child_names.len() ==> self@.child_names[j] != name@,
            },
    {
        let n: usize = self.child_names.len();
        let mut i: usize = 0;
        while i < n
            invariant
                i <= n,
                n == self.child_names@.len(),
                forall|j: int| 0 <= j < i ==> self@.child_names[j] != name@,
            decreases n - i,
        {
            if self.child_names[i] == *name {
                return Some(i);
            }
            i += 1;
        }
        None
    }

    /// The number of children.
    pub fn child_count(&self) -> (n: usize)
        ensures
            n == self@.child_names.len(),
    {
        self.child_names.len()
    }

    /// Loads child `index`.
    ///
    /// `OutOfBounds` exactly where `index` is not below `child_count()`.
    pub fn load_child(&self, index: usize, reader: &ArchiveReader) -> (r: Result<
        ObjectReader,
        OgawaError,
    >)
        ensures
            match r {
                Ok(o) => child_object_at(self@, reader@, index as int) == Ok::<
                    ObjectModel,
                    OgawaError,
                >(o@),
                Err(e) => child_object_at(self@, reader@, index as int) == Err::<
                    ObjectModel,
                    OgawaError,
                >(e),
            },
            r matches Err(OgawaError::OutOfBounds) <==> index >= self@.child_names.len(),
    {
        if index >= self.child_names.len() {
            return Err(OgawaError::OutOfBounds);
        }
        if self.group.children.len() == 0 || index >= self.group.children.len() - 1 {
            return Err(OgawaError::Corrupt);
        }
        let group: GroupChunk = match self.group.load_group(reader, index + 1, false) {
            Ok(g) => g,
            Err(e) => { return Err(e); },
        };
        ObjectReader::new(Rc::new(group), self.child_names[index].as_str(), reader, &self.header)
    }

    /// Loads all children, the last first.
    ///
    /// Entry `k` is number `n - 1 - k` of the `n`: pushed on a stack in this
    /// order, they are popped first to last. The first that fails to load,
    /// last to first, gives the error.
    pub fn load_children_reversed(&self, reader: &ArchiveReader) -> (r: Result<Vec<ObjectReader>, OgawaError>)
        ensures
            match r {
                Ok(v) => {
                    &&& v@.len() == self@.child_names.len()
                    &&& forall|k: int|
                        0 <= k < v@.len() ==> child_object_at(self@, reader@, v@.len() - 1 - k) == Ok::<
                            ObjectModel,
                            OgawaError,
                        >((#[trigger] v@[k])@)
                },
                Err(e) => exists|i: int|
                    {
                        &&& 0 <= i < self@.child_names.len()
                        &&& #[trigger] child_object_at(self@, reader@, i) == Err::<ObjectModel, OgawaError>(e)
                        &&& forall|j: int|
                            i < j < self@.child_names.len() ==> (#[trigger] child_object_at(self@, reader@, j)).is_ok()
                    },
            },
    {
        let n: usize = self.child_names.len();
        let mut out: Vec<ObjectReader> = Vec::new();
        let mut k: usize = 0;
        while k < n
            invariant
                k <= n,
                n == self@.child_names.len(),
                out@.len() == k,
                forall|m: int|
                    0 <= m < k ==> child_object_at(self@, reader@, n - 1 - m) == Ok::<ObjectModel, OgawaError>(
                        (#[trigger] out@[m])@,
                    ),
            decreases n - k,
        {
            let index: usize = n - 1 - k;
            match self.load_child(index, reader) {
                Ok(x) => {
                    out.push(x);
                },
                Err(e) => {
                    proof {
                        assert forall|j: int| index < j < n implies (#[trigger] child_object_at(self@, reader@, j)).is_ok() by {
                            let m = n - 1 - j;
                            assert(child_object_at(self@, reader@, n - 1 - m) == Ok::<ObjectModel, OgawaError>(out@[m]@));
                        }
                    }
                    return Err(e);
                },
            }
            k += 1;
        }
        Ok(out)
    }

    /// Loads the compound of the object's properties, where it has one.
    pub fn properties(&self, reader: &ArchiveReader) -> (r: Result<
        Option<CompoundPropertyReader>,
        OgawaError,
    >)
        ensures
            match r {
                Ok(Some(c)) => properties_at(self@.group.children, reader@) == Ok::<
                    Option<(GroupModel, Seq<RecordModel>)>,
                    OgawaError,
                >(Some((c.group@, records_of(c.sub_headers@)))) && c.name@.len() == 0,
                Ok(None) => properties_at(self@.group.children, reader@) == Ok::<
                    Option<(GroupModel, Seq<RecordModel>)>,
                    OgawaError,
                >(None),
                Err(e) => properties_at(self@.group.children, reader@) == Err::<
                    Option<(GroupModel, Seq<RecordModel>)>,
                    OgawaError,
                >(e),
            },
    {
        if self.group.children.len() == 0 {
            return Err(OgawaError::Corrupt);
        }
        if self.group.children[0] == EMPTY_GROUP {
            return Ok(None);
        }
        let group: GroupChunk = match self.group.load_group(reader, 0, false) {
            Ok(g) => g,
            Err(e) => { return Err(e); },
        };
        match CompoundPropertyReader::new(Rc::new(group), String::new(), reader) {
            Ok(c) => Ok(Some(c)),
            Err(e) => Err(e),
        }
    }
}

} // verus!
