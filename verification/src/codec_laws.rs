use vstd::prelude::*;
use vstd::arithmetic::div_mod::{lemma_fundamental_div_mod, lemma_mod_multiples_basic};
use crate::pod::{
    bools_of, decode_pod, i16s_of, i32s_of, i64s_of, i8s_of, strings_from, u16s_of, u32s_of,
    u64s_of, DataType, PodType, PodValues,
};
use crate::reader::{le16, le32, le64};
use crate::result::OgawaError;

verus! {

/// Byte `k` of `x`, the lowest first.
pub open spec fn le_byte(x: int, k: int) -> u8
    decreases k,
{
    if k <= 0 {
        (x % 256) as u8
    } else {
        le_byte(x / 256, k - 1)
    }
}

/// The bit pattern of a signed value of `bits` bits, as a number from 0 on;
/// `modulus` is two to the `bits`.
pub open spec fn pattern(v: int, modulus: int) -> int {
    if v >= 0 {
        v
    } else {
        v + modulus
    }
}

/// The little-endian bytes of the words `v`, each `w` bytes wide.
pub open spec fn encode_words(v: Seq<int>, w: int) -> Seq<u8> {
    Seq::new((w * v.len()) as nat, |k: int| le_byte(v[k / w], k % w))
}

impl PodValues {
    /// The kind of the values.
    pub open spec fn pod_type(self) -> PodType {
        match self {
            PodValues::Bool(_) => PodType::Bool,
            PodValues::U8(_) => PodType::U8,
            PodValues::I8(_) => PodType::I8,
            PodValues::U16(_) => PodType::U16,
            PodValues::I16(_) => PodType::I16,
            PodValues::U32(_) => PodType::U32,
            PodValues::I32(_) => PodType::I32,
            PodValues::U64(_) => PodType::U64,
            PodValues::I64(_) => PodType::I64,
            PodValues::F32(_) => PodType::F32,
            PodValues::F64(_) => PodType::F64,
            PodValues::String(_) => PodType::String,
        }
    }
}

/// The bytes that a writer stores for the strings `v`: each string, then a
/// zero byte.
pub open spec fn encode_strings(v: Seq<Seq<u8>>) -> Seq<u8>
    decreases v.len(),
{
    if v.len() == 0 {
        Seq::empty()
    } else {
        v[0] + seq![0u8] + encode_strings(v.skip(1))
    }
}

/// The payload that a writer stores for `values`: fixed-width values
/// little-endian, a boolean as one byte 0 or 1, strings zero-terminated.
pub open spec fn encode_pod(values: PodValues) -> Seq<u8> {
    match values {
        PodValues::Bool(v) => Seq::new(v.len(), |i: int| if v[i] { 1u8 } else { 0u8 }),
        PodValues::U8(v) => v,
        PodValues::I8(v) => Seq::new(v.len(), |i: int| pattern(v[i] as int, 256) as u8),
        PodValues::U16(v) => encode_words(Seq::new(v.len(), |i: int| v[i] as int), 2),
        PodValues::I16(v) => encode_words(Seq::new(v.len(), |i: int| pattern(v[i] as int, 65536)), 2),
        PodValues::U32(v) => encode_words(Seq::new(v.len(), |i: int| v[i] as int), 4),
        PodValues::I32(v) => encode_words(
            Seq::new(v.len(), |i: int| pattern(v[i] as int, 4294967296)),
            4,
        ),
        PodValues::U64(v) => encode_words(Seq::new(v.len(), |i: int| v[i] as int), 8),
        PodValues::I64(v) => encode_words(
            Seq::new(v.len(), |i: int| pattern(v[i] as int, 18446744073709551616)),
            8,
        ),
        PodValues::F32(v) => encode_words(Seq::new(v.len(), |i: int| v[i] as int), 4),
        PodValues::F64(v) => encode_words(Seq::new(v.len(), |i: int| v[i] as int), 8),
        PodValues::String(v) => encode_strings(v),
    }
}

proof fn lemma_le16_of_bytes(p: Seq<u8>, at: int, x: int)
    requires
        0 <= x < 65536,
        0 <= at,
        at + 2 <= p.len(),
        forall|k: int| 0 <= k < 2 ==> p[at + k] == le_byte(x, k),
    ensures
        le16(p, at) == x,
{
    reveal_with_fuel(le_byte, 3);
    assert(p[at + 0] == le_byte(x, 0));
    assert(p[at + 1] == le_byte(x, 1));
}

proof fn lemma_le32_of_bytes(p: Seq<u8>, at: int, x: int)
    requires
        0 <= x < 4294967296,
        0 <= at,
        at + 4 <= p.len(),
        forall|k: int| 0 <= k < 4 ==> p[at + k] == le_byte(x, k),
    ensures
        le32(p, at) == x,
{
    reveal_with_fuel(le_byte, 5);
    assert(p[at + 0] == le_byte(x, 0));
    assert(p[at + 1] == le_byte(x, 1));
    assert(p[at + 2] == le_byte(x, 2));
    assert(p[at + 3] == le_byte(x, 3));
}

proof fn lemma_le64_of_bytes(p: Seq<u8>, at: int, x: int)
    requires
        0 <= x < 18446744073709551616,
        0 <= at,
        at + 8 <= p.len(),
        forall|k: int| 0 <= k < 8 ==> p[at + k] == le_byte(x, k),
    ensures
        le64(p, at) == x,
{
    reveal_with_fuel(le_byte, 9);
    assert(p[at + 0] == le_byte(x, 0));
    assert(p[at + 1] == le_byte(x, 1));
    assert(p[at + 2] == le_byte(x, 2));
    assert(p[at + 3] == le_byte(x, 3));
    assert(p[at + 4] == le_byte(x, 4));
    assert(p[at + 5] == le_byte(x, 5));
    assert(p[at + 6] == le_byte(x, 6));
    assert(p[at + 7] == le_byte(x, 7));
}

/// The bytes of `n` words of `w` bytes are a whole number of elements of
/// `e` words where `n` is a multiple of `e`.
proof fn lemma_whole_elements(n: int, w: int, e: int)
    requires
        0 <= n,
        0 < w,
        0 < e,
        n % e == 0,
    ensures
        (w * n) % (w * e) == 0,
        w * e > 0,
        (w * n) / w == n,
{
    lemma_fundamental_div_mod(n, e);
    let q = n / e;
    assert(w * n == q * (w * e)) by (nonlinear_arith)
        requires
            n == e * q,
    ;
    assert(w * e > 0) by (nonlinear_arith)
        requires
            0 < w,
            0 < e,
    ;
    lemma_mod_multiples_basic(q, w * e);
    assert((w * n) / w == n) by (nonlinear_arith)
        requires
            0 < w,
    ;
}

proof fn lemma_round_trip_bool(v: Seq<bool>, extent: u8)
    requires
        extent > 0,
        v.len() % (extent as nat) == 0,
    ensures
        decode_pod(
            DataType { pod_type: PodType::Bool, extent },
            encode_pod(PodValues::Bool(v)),
        ) == Ok::<PodValues, OgawaError>(PodValues::Bool(v)),
{
    let p = encode_pod(PodValues::Bool(v));
    lemma_whole_elements(v.len() as int, 1, extent as int);
    assert(p.len() == v.len());
    assert(bools_of(p) =~= v);
}

proof fn lemma_round_trip_u8(v: Seq<u8>, extent: u8)
    requires
        extent > 0,
        v.len() % (extent as nat) == 0,
    ensures
        decode_pod(
            DataType { pod_type: PodType::U8, extent },
            encode_pod(PodValues::U8(v)),
        ) == Ok::<PodValues, OgawaError>(PodValues::U8(v)),
{
    let p = encode_pod(PodValues::U8(v));
    lemma_whole_elements(v.len() as int, 1, extent as int);
    assert(p.len() == v.len());
    assert(p =~= v);
}

proof fn lemma_round_trip_i8(v: Seq<i8>, extent: u8)
    requires
        extent > 0,
        v.len() % (extent as nat) == 0,
    ensures
        decode_pod(
            DataType { pod_type: PodType::I8, extent },
            encode_pod(PodValues::I8(v)),
        ) == Ok::<PodValues, OgawaError>(PodValues::I8(v)),
{
    let p = encode_pod(PodValues::I8(v));
    lemma_whole_elements(v.len() as int, 1, extent as int);
    assert(p.len() == v.len());
    assert(i8s_of(p) =~= v);
}

proof fn lemma_round_trip_u16(v: Seq<u16>, extent: u8)
    requires
        extent > 0,
        v.len() % (extent as nat) == 0,
    ensures
        decode_pod(
            DataType { pod_type: PodType::U16, extent },
            encode_pod(PodValues::U16(v)),
        ) == Ok::<PodValues, OgawaError>(PodValues::U16(v)),
{
    let p = encode_pod(PodValues::U16(v));
    let words = Seq::new(v.len(), |i: int| v[i] as int);
    lemma_whole_elements(v.len() as int, 2, extent as int);
    assert(p.len() == 2 * v.len());
    assert forall|i: int| 0 <= i < v.len() implies #[trigger] u16s_of(p)[i] == v[i] by {
        assert forall|k: int| 0 <= k < 2 implies p[2 * i + k] == le_byte(words[i], k) by {
            assert((2 * i + k) / 2 == i);
            assert((2 * i + k) % 2 == k);
        }
        lemma_le16_of_bytes(p, 2 * i, words[i]);
    }
    assert(u16s_of(p) =~= v);
}

proof fn lemma_round_trip_i16(v: Seq<i16>, extent: u8)
    requires
        extent > 0,
        v.len() % (extent as nat) == 0,
    ensures
        decode_pod(
            DataType { pod_type: PodType::I16, extent },
            encode_pod(PodValues::I16(v)),
        ) == Ok::<PodValues, OgawaError>(PodValues::I16(v)),
{
    let p = encode_pod(PodValues::I16(v));
    let words = Seq::new(v.len(), |i: int| pattern(v[i] as int, 65536));
    lemma_whole_elements(v.len() as int, 2, extent as int);
    assert(p.len() == 2 * v.len());
    assert forall|i: int| 0 <= i < v.len() implies #[trigger] i16s_of(p)[i] == v[i] by {
        assert forall|k: int| 0 <= k < 2 implies p[2 * i + k] == le_byte(words[i], k) by {
            assert((2 * i + k) / 2 == i);
            assert((2 * i + k) % 2 == k);
        }
        lemma_le16_of_bytes(p, 2 * i, words[i]);
    }
    assert(i16s_of(p) =~= v);
}

proof fn lemma_round_trip_u32(v: Seq<u32>, extent: u8)
    requires
        extent > 0,
        v.len() % (extent as nat) == 0,
    ensures
        decode_pod(
            DataType { pod_type: PodType::U32, extent },
            encode_pod(PodValues::U32(v)),
        ) == Ok::<PodValues, OgawaError>(PodValues::U32(v)),
{
    let p = encode_pod(PodValues::U32(v));
    let words = Seq::new(v.len(), |i: int| v[i] as int);
    lemma_whole_elements(v.len() as int, 4, extent as int);
    assert(p.len() == 4 * v.len());
    assert forall|i: int| 0 <= i < v.len() implies #[trigger] u32s_of(p)[i] == v[i] by {
        assert forall|k: int| 0 <= k < 4 implies p[4 * i + k] == le_byte(words[i], k) by {
            assert((4 * i + k) / 4 == i);
            assert((4 * i + k) % 4 == k);
        }
        lemma_le32_of_bytes(p, 4 * i, words[i]);
    }
    assert(u32s_of(p) =~= v);
}

proof fn lemma_round_trip_i32(v: Seq<i32>, extent: u8)
    requires
        extent > 0,
        v.len() % (extent as nat) == 0,
    ensures
        decode_pod(
            DataType { pod_type: PodType::I32, extent },
            encode_pod(PodValues::I32(v)),
        ) == Ok::<PodValues, OgawaError>(PodValues::I32(v)),
{
    let p = encode_pod(PodValues::I32(v));
    let words = Seq::new(v.len(), |i: int| pattern(v[i] as int, 4294967296));
    lemma_whole_elements(v.len() as int, 4, extent as int);
    assert(p.len() == 4 * v.len());
    assert forall|i: int| 0 <= i < v.len() implies #[trigger] i32s_of(p)[i] == v[i] by {
        assert forall|k: int| 0 <= k < 4 implies p[4 * i + k] == le_byte(words[i], k) by {
            assert((4 * i + k) / 4 == i);
            assert((4 * i + k) % 4 == k);
        }
        lemma_le32_of_bytes(p, 4 * i, words[i]);
    }
    assert(i32s_of(p) =~= v);
}

proof fn lemma_round_trip_u64(v: Seq<u64>, extent: u8)
    requires
        extent > 0,
        v.len() % (extent as nat) == 0,
    ensures
        decode_pod(
            DataType { pod_type: PodType::U64, extent },
            encode_pod(PodValues::U64(v)),
        ) == Ok::<PodValues, OgawaError>(PodValues::U64(v)),
{
    let p = encode_pod(PodValues::U64(v));
    let words = Seq::new(v.len(), |i: int| v[i] as int);
    lemma_whole_elements(v.len() as int, 8, extent as int);
    assert(p.len() == 8 * v.len());
    assert forall|i: int| 0 <= i < v.len() implies #[trigger] u64s_of(p)[i] == v[i] by {
        assert forall|k: int| 0 <= k < 8 implies p[8 * i + k] == le_byte(words[i], k) by {
            assert((8 * i + k) / 8 == i);
            assert((8 * i + k) % 8 == k);
        }
        lemma_le64_of_bytes(p, 8 * i, words[i]);
    }
    assert(u64s_of(p) =~= v);
}

proof fn lemma_round_trip_i64(v: Seq<i64>, extent: u8)
    requires
        extent > 0,
        v.len() % (extent as nat) == 0,
    ensures
        decode_pod(
            DataType { pod_type: PodType::I64, extent },
            encode_pod(PodValues::I64(v)),
        ) == Ok::<PodValues, OgawaError>(PodValues::I64(v)),
{
    let p = encode_pod(PodValues::I64(v));
    let words = Seq::new(v.len(), |i: int| pattern(v[i] as int, 18446744073709551616));
    lemma_whole_elements(v.len() as int, 8, extent as int);
    assert(p.len() == 8 * v.len());
    assert forall|i: int| 0 <= i < v.len() implies #[trigger] i64s_of(p)[i] == v[i] by {
        assert forall|k: int| 0 <= k < 8 implies p[8 * i + k] == le_byte(words[i], k) by {
            assert((8 * i + k) / 8 == i);
            assert((8 * i + k) % 8 == k);
        }
        lemma_le64_of_bytes(p, 8 * i, words[i]);
    }
    assert(i64s_of(p) =~= v);
}

proof fn lemma_round_trip_f32(v: Seq<u32>, extent: u8)
    requires
        extent > 0,
        v.len() % (extent as nat) == 0,
    ensures
        decode_pod(
            DataType { pod_type: PodType::F32, extent },
            encode_pod(PodValues::F32(v)),
        ) == Ok::<PodValues, OgawaError>(PodValues::F32(v)),
{
    let p = encode_pod(PodValues::F32(v));
    let words = Seq::new(v.len(), |i: int| v[i] as int);
    lemma_whole_elements(v.len() as int, 4, extent as int);
    assert(p.len() == 4 * v.len());
    assert forall|i: int| 0 <= i < v.len() implies #[trigger] u32s_of(p)[i] == v[i] by {
        assert forall|k: int| 0 <= k < 4 implies p[4 * i + k] == le_byte(words[i], k) by {
            assert((4 * i + k) / 4 == i);
            assert((4 * i + k) % 4 == k);
        }
        lemma_le32_of_bytes(p, 4 * i, words[i]);
    }
    assert(u32s_of(p) =~= v);
}

proof fn lemma_round_trip_f64(v: Seq<u64>, extent: u8)
    requires
        extent > 0,
        v.len() % (extent as nat) == 0,
    ensures
        decode_pod(
            DataType { pod_type: PodType::F64, extent },
            encode_pod(PodValues::F64(v)),
        ) == Ok::<PodValues, OgawaError>(PodValues::F64(v)),
{
    let p = encode_pod(PodValues::F64(v));
    let words = Seq::new(v.len(), |i: int| v[i] as int);
    lemma_whole_elements(v.len() as int, 8, extent as int);
    assert(p.len() == 8 * v.len());
    assert forall|i: int| 0 <= i < v.len() implies #[trigger] u64s_of(p)[i] == v[i] by {
        assert forall|k: int| 0 <= k < 8 implies p[8 * i + k] == le_byte(words[i], k) by {
            assert((8 * i + k) / 8 == i);
            assert((8 * i + k) % 8 == k);
        }
        lemma_le64_of_bytes(p, 8 * i, words[i]);
    }
    assert(u64s_of(p) =~= v);
}

/// Whether no string of `v` holds a zero byte.
pub open spec fn zero_free(v: Seq<Seq<u8>>) -> bool {
    forall|i: int, k: int| 0 <= i < v.len() && 0 <= k < v[i].len() ==> (#[trigger] v[i][k]) != 0
}

proof fn lemma_scan_one_string(p: Seq<u8>, i: int, s: Seq<u8>, open: Seq<u8>, done: Seq<Seq<u8>>)
    requires
        0 <= i,
        i + s.len() < p.len(),
        forall|k: int| 0 <= k < s.len() ==> p[i + k] == s[k] && s[k] != 0,
        p[i + s.len()] == 0,
    ensures
        strings_from(p, i, open, done) == strings_from(
            p,
            i + s.len() + 1,
            Seq::empty(),
            done.push(open + s),
        ),
    decreases s.len(),
{
    if s.len() == 0 {
        assert(open + s =~= open);
    } else {
        assert(p[i + 0] == s[0]);
        let rest = s.skip(1);
        assert forall|k: int| 0 <= k < rest.len() implies p[i + 1 + k] == rest[k] && rest[k]
            != 0 by {
            assert(p[i + (k + 1)] == s[k + 1]);
        }
        lemma_scan_one_string(p, i + 1, rest, open.push(s[0]), done);
        assert(open.push(s[0]) + rest =~= open + s);
    }
}

proof fn lemma_scan_strings(p: Seq<u8>, i: int, v: Seq<Seq<u8>>, done: Seq<Seq<u8>>)
    requires
        0 <= i,
        zero_free(v),
        p.len() == i + encode_strings(v).len(),
        forall|k: int| 0 <= k < encode_strings(v).len() ==> p[i + k] == encode_strings(v)[k],
    ensures
        strings_from(p, i, Seq::empty(), done) == done + v,
    decreases v.len(),
{
    let enc = encode_strings(v);
    if v.len() == 0 {
        assert(done + v =~= done);
    } else {
        let first = v[0];
        let rest = v.skip(1);
        let tail = encode_strings(rest);
        assert(enc == first + seq![0u8] + tail);
        assert forall|k: int| 0 <= k < first.len() implies p[i + k] == first[k] && first[k]
            != 0 by {
            assert(enc[k] == first[k]);
        }
        assert(enc[first.len() as int] == 0);
        lemma_scan_one_string(p, i, first, Seq::empty(), done);
        assert(Seq::<u8>::empty() + first =~= first);
        let next = i + first.len() + 1;
        assert(zero_free(rest)) by {
            assert forall|a: int, k: int| 0 <= a < rest.len() && 0 <= k < rest[a].len() implies (
            #[trigger] rest[a][k]) != 0 by {
                assert(rest[a] == v[a + 1]);
                assert(v[a + 1][k] != 0);
            }
        }
        assert forall|k: int| 0 <= k < tail.len() implies p[next + k] == tail[k] by {
            assert(enc[first.len() + 1 + k] == tail[k]);
            assert(p[i + (first.len() + 1 + k)] == enc[first.len() + 1 + k]);
        }
        lemma_scan_strings(p, next, rest, done.push(first));
        assert(done.push(first) + rest =~= done + v);
    }
}

proof fn lemma_encoded_strings_end_in_zero(v: Seq<Seq<u8>>)
    ensures
        encode_strings(v).len() > 0 ==> encode_strings(v).last() == 0,
        v.len() == 0 ==> encode_strings(v).len() == 0,
    decreases v.len(),
{
    if v.len() > 0 {
        lemma_encoded_strings_end_in_zero(v.skip(1));
        let tail = encode_strings(v.skip(1));
        let enc = encode_strings(v);
        assert(enc == v[0] + seq![0u8] + tail);
        if tail.len() > 0 {
            assert(enc.last() == tail.last());
        } else {
            assert(enc.last() == 0);
        }
    }
}

proof fn lemma_string_round_trip(v: Seq<Seq<u8>>, extent: u8)
    requires
        zero_free(v),
    ensures
        decode_pod(
            DataType { pod_type: PodType::String, extent },
            encode_pod(PodValues::String(v)),
        ) == Ok::<PodValues, OgawaError>(PodValues::String(v)),
{
    let p = encode_strings(v);
    lemma_encoded_strings_end_in_zero(v);
    lemma_scan_strings(p, 0, v, Seq::empty());
    assert(Seq::<Seq<u8>>::empty() + v =~= v);
}

/// Whether `values` can stand in a Data chunk under the extent `extent`:
/// strings hold no zero byte, and values of fixed width make up whole
/// elements of `extent` values.
pub open spec fn encodable(values: PodValues, extent: u8) -> bool {
    match values {
        PodValues::String(v) => zero_free(v),
        _ => extent > 0 && values.len() % (extent as nat) == 0,
    }
}

/// Values that are encoded and decoded again under their own kind come back
/// unchanged, bit for bit, for every kind.
pub proof fn lemma_pod_round_trip(values: PodValues, extent: u8)
    requires
        encodable(values, extent),
    ensures
        decode_pod(DataType { pod_type: values.pod_type(), extent }, encode_pod(values)) == Ok::<
            PodValues,
            OgawaError,
        >(values),
{
    match values {
        PodValues::Bool(v) => lemma_round_trip_bool(v, extent),
        PodValues::U8(v) => lemma_round_trip_u8(v, extent),
        PodValues::I8(v) => lemma_round_trip_i8(v, extent),
        PodValues::U16(v) => lemma_round_trip_u16(v, extent),
        PodValues::I16(v) => lemma_round_trip_i16(v, extent),
        PodValues::U32(v) => lemma_round_trip_u32(v, extent),
        PodValues::I32(v) => lemma_round_trip_i32(v, extent),
        PodValues::U64(v) => lemma_round_trip_u64(v, extent),
        PodValues::I64(v) => lemma_round_trip_i64(v, extent),
        PodValues::F32(v) => lemma_round_trip_f32(v, extent),
        PodValues::F64(v) => lemma_round_trip_f64(v, extent),
        PodValues::String(v) => lemma_string_round_trip(v, extent),
    }
}

} // verus!
