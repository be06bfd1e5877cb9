use crate::encoding::{
    enc_i16, enc_i32, enc_i64, enc_list_len, enc_string_len, eof_at, fixed_bytes, fixed_value,
    p128, sp_fixed, sp_i16, sp_i32, sp_i64, sp_list_len, sp_string_len, sp_take, sp_u16, sp_u32,
    sp_u64, sp_var_u32, sp_var_u32_from, sp_var_u64, sp_var_u64_from, unzigzag, var_bytes, zigzag,
    EncodingKind, Step,
};
use crate::endian::{lemma_be_roundtrip, lemma_le_roundtrip, lemma_p256_values, p256};
use crate::error::{innermost_of, wrap, Error, IoErrorKind};
use crate::headless::{enc_prefixed, sp_by_id, sp_byte, sp_prefixed};
use crate::root::{
    enc_header_root, enc_root, enc_sized, sp_header_root, sp_root, sp_root_name, sp_sized_root,
    valid_root_type, HeaderReadMode, HeaderWriteMode, BEDROCK_FILE_HEADER_MAGIC,
};
use crate::config::{NbtReadConfig, ParseMode};
use crate::limits::NbtLimits;
use crate::protocol_adapter::{protocol_kind, whole_input, ProtocolNbtAdapter};
use crate::payload_spec::{
    ctx, enc_elems_from, enc_entries_from, enc_i32s, enc_i64s, enc_len_i32, enc_payload,
    enc_string, sp_array_bytes, sp_budget, sp_byte_array, sp_compound_from, sp_elems_from,
    sp_i32s_from, sp_i64s_from, sp_int_array, sp_len_i32, sp_limit, sp_list, sp_long_array,
    sp_payload, sp_read_payload, sp_string, sp_tag_type, window,
};
use crate::tag::{
    decode_type_id, entries_insert, key_index, keys_distinct, lemma_first_mismatch, lemma_insert_distinct,
    lemma_key_index, lemma_type_id_roundtrip, lemma_wf_compound, lemma_wf_list, list_type_error, type_id, view_type, wf_view,
    TagType, TagView,
};
use vstd::utf8::{
    decode_utf8, decode_utf8_encode_utf8, encode_utf8, encode_utf8_decode_utf8, encode_utf8_valid_utf8,
    valid_utf8,
};
use vstd::prelude::*;

verus! {

broadcast use vstd::seq::group_seq_axioms;

/// The window `s` holds the bytes `b` from position `p` on, as far as it reaches.
pub open spec fn agrees(s: Seq<u8>, p: int, b: Seq<u8>) -> bool {
    forall|i: int| 0 <= i < b.len() && p + i < s.len() ==> s[p + i] == b[i]
}

/// The input ended before the value did.
pub open spec fn truncated(e: Error) -> bool {
    let x = innermost_of(e);
    ||| x == Error::Io(IoErrorKind::UnexpectedEof)
    ||| x == (Error::InvalidVarint { detail: "truncated u32 varint" })
    ||| x == (Error::InvalidVarint { detail: "truncated u64 varint" })
}

/// A configured limit (or the size of `usize`) refused the value.
pub open spec fn refused(e: Error) -> bool {
    let x = innermost_of(e);
    ||| x is SizeExceeded
    ||| x is DepthExceeded
    ||| x is LengthOverflow
}

/// Reading gave back `v` ending at `end`, or the window of length `len` ended
/// before `end`.
pub open spec fn reads_back<T>(r: Step<T>, v: T, end: int, len: int) -> bool {
    match r {
        Ok((w, q)) => w == v && q == end && end <= len,
        Err((e, _)) => end > len && truncated(e),
    }
}

/// Reading gave back `v` ending at `end`; only where `fits` is false may a limit
/// have refused it instead, or the window of length `len` have ended before `end`.
pub open spec fn reads_back_fit<T>(r: Step<T>, v: T, end: int, len: int, fits: bool) -> bool {
    match r {
        Ok((w, q)) => w == v && q == end && end <= len,
        Err((e, _)) => !fits && (refused(e) || (end > len && truncated(e))),
    }
}

/// The value can be read within the limits `lim` at nesting depth `depth`: no
/// node deeper than the depth limit, every string, name, array, list and compound
/// within its limit, and, in the network layout (where numbers may take fewer
/// bytes than their width, and the reader checks the full width against the read
/// budget), the full width of every int or long array within `room` bytes.
pub open spec fn fits_limits(enc: EncodingKind, lim: NbtLimits, v: TagView, depth: nat, room: nat) -> bool
    decreases v,
{
    &&& depth <= lim.max_depth
    &&& match v {
        TagView::String(t) => encode_utf8(t).len() <= lim.max_string_len,
        TagView::ByteArray(b) => b.len() <= lim.max_array_len,
        TagView::IntArray(xs) => xs.len() <= lim.max_array_len && (enc == EncodingKind::NetworkLittleEndian
            ==> 4 * xs.len() <= room),
        TagView::LongArray(xs) => xs.len() <= lim.max_array_len && (enc == EncodingKind::NetworkLittleEndian
            ==> 8 * xs.len() <= room),
        TagView::List(_, es) => es.len() <= lim.max_list_len && forall|j: int|
            0 <= j < es.len() ==> fits_limits(enc, lim, #[trigger] es[j], depth + 1, room),
        TagView::Compound(es) => es.len() <= lim.max_compound_entries && forall|j: int|
            #![trigger es[j]]
            0 <= j < es.len() ==> encode_utf8(es[j].0).len() <= lim.max_string_len && fits_limits(
                enc,
                lim,
                es[j].1,
                depth + 1,
                room,
            ),
        _ => true,
    }
}

/// A value and its bytes `b` are within the read limits: `b` within the read
/// budget, and the value, read at depth 1, within the others, with what is left
/// of the budget after `b` as the room of its network arrays.
pub open spec fn within_limits(enc: EncodingKind, lim: NbtLimits, v: TagView, b: Seq<u8>) -> bool {
    b.len() <= lim.max_read_bytes && fits_limits(enc, lim, v, 1, (lim.max_read_bytes - b.len()) as nat)
}

/// A root and its bytes `b` are within the read limits: its name within the
/// string limit, and its payload and `b` as `within_limits` says.
pub open spec fn root_within_limits(enc: EncodingKind, lim: NbtLimits, root: (Seq<char>, TagView), b: Seq<u8>) -> bool {
    encode_utf8(root.0).len() <= lim.max_string_len && within_limits(enc, lim, root.1, b)
}

proof fn lemma_fits_list(enc: EncodingKind, lim: NbtLimits, t: TagType, es: Seq<TagView>, depth: nat, room: nat)
    requires
        fits_limits(enc, lim, TagView::List(t, es), depth, room),
    ensures
        depth <= lim.max_depth,
        es.len() <= lim.max_list_len,
        forall|j: int| 0 <= j < es.len() ==> fits_limits(enc, lim, #[trigger] es[j], depth + 1, room),
{
    let v = TagView::List(t, es);
    assert(v->List_1 == es);
}

proof fn lemma_fits_compound(enc: EncodingKind, lim: NbtLimits, es: Seq<(Seq<char>, TagView)>, depth: nat, room: nat)
    requires
        fits_limits(enc, lim, TagView::Compound(es), depth, room),
    ensures
        depth <= lim.max_depth,
        es.len() <= lim.max_compound_entries,
        forall|j: int|
            #![trigger es[j]]
            0 <= j < es.len() ==> encode_utf8(es[j].0).len() <= lim.max_string_len && fits_limits(
                enc,
                lim,
                es[j].1,
                depth + 1,
                room,
            ),
{
    let v = TagView::Compound(es);
    assert(v->Compound_0 == es);
}

/// More room keeps a value within the limits.
proof fn lemma_fits_room(enc: EncodingKind, lim: NbtLimits, v: TagView, depth: nat, r1: nat, r2: nat)
    requires
        fits_limits(enc, lim, v, depth, r1),
        r1 <= r2,
    ensures
        fits_limits(enc, lim, v, depth, r2),
    decreases v,
{
    match v {
        TagView::List(t, es) => {
            lemma_fits_list(enc, lim, t, es, depth, r1);
            assert forall|j: int| 0 <= j < es.len() implies fits_limits(enc, lim, #[trigger] es[j], depth + 1, r2) by {
                lemma_fits_room(enc, lim, es[j], depth + 1, r1, r2);
            }
        },
        TagView::Compound(es) => {
            lemma_fits_compound(enc, lim, es, depth, r1);
            assert forall|j: int|
                #![trigger es[j]]
                0 <= j < es.len() implies encode_utf8(es[j].0).len() <= lim.max_string_len && fits_limits(
                enc,
                lim,
                es[j].1,
                depth + 1,
                r2,
            ) by {
                lemma_fits_room(enc, lim, es[j].1, depth + 1, r1, r2);
            }
        },
        _ => {},
    }
}

/// Fixed-width bytes have the width asked for.
proof fn lemma_fixed_len(enc: EncodingKind, n: nat, k: nat)
    ensures
        fixed_bytes(enc, n, k).len() == k,
    decreases k,
{
    if k > 0 {
        lemma_fixed_len(enc, n / 256, (k - 1) as nat);
    }
}

/// Outside the network layout, `i32`s take four bytes each.
proof fn lemma_enc_i32s_len(enc: EncodingKind, xs: Seq<i32>)
    requires
        enc != EncodingKind::NetworkLittleEndian,
    ensures
        enc_i32s(enc, xs).len() == 4 * xs.len(),
    decreases xs.len(),
{
    if xs.len() > 0 {
        lemma_enc_i32s_len(enc, xs.drop_last());
        lemma_fixed_len(enc, (xs.last() as u32) as nat, 4);
    }
}

/// Outside the network layout, `i64`s take eight bytes each.
proof fn lemma_enc_i64s_len(enc: EncodingKind, xs: Seq<i64>)
    requires
        enc != EncodingKind::NetworkLittleEndian,
    ensures
        enc_i64s(enc, xs).len() == 8 * xs.len(),
    decreases xs.len(),
{
    if xs.len() > 0 {
        lemma_enc_i64s_len(enc, xs.drop_last());
        lemma_fixed_len(enc, (xs.last() as u64) as nat, 8);
    }
}

/// Every element is well formed and of the list's element type.
pub open spec fn elems_fit(es: Seq<TagView>, et: TagType) -> bool {
    forall|j: int| 0 <= j < es.len() ==> #[trigger] wf_view(es[j]) && view_type(es[j]) == et
}

proof fn lemma_agrees_split(s: Seq<u8>, p: int, a: Seq<u8>, c: Seq<u8>)
    requires
        agrees(s, p, a + c),
    ensures
        agrees(s, p, a),
        agrees(s, p + a.len(), c),
{
    assert forall|i: int| 0 <= i < a.len() && p + i < s.len() implies s[p + i] == a[i] by {
        assert((a + c)[i] == a[i]);
    }
    assert forall|i: int| 0 <= i < c.len() && p + a.len() + i < s.len() implies s[p + a.len() + i]
        == c[i] by {
        assert((a + c)[a.len() + i] == c[i]);
    }
}

proof fn lemma_take_back(s: Seq<u8>, p: usize, b: Seq<u8>, k: usize)
    requires
        p <= s.len(),
        s.len() <= usize::MAX,
        agrees(s, p as int, b),
        b.len() == k,
    ensures
        p + k <= s.len() ==> sp_take(s, p, k) == Ok::<(Seq<u8>, usize), (Error, usize)>(
            (b, (p + k) as usize),
        ),
        p + k > s.len() ==> sp_take(s, p, k) == eof_at::<Seq<u8>>(s),
{
    if p + k <= s.len() {
        assert(s.subrange(p as int, p + k) =~= b);
    }
}

proof fn lemma_fixed_back(enc: EncodingKind, s: Seq<u8>, p: usize, n: nat, k: usize)
    requires
        p <= s.len(),
        s.len() <= usize::MAX,
        n < p256(k as nat),
        agrees(s, p as int, fixed_bytes(enc, n, k as nat)),
    ensures
        reads_back(sp_fixed(enc, s, p, k), n, p + k, s.len() as int),
        fixed_bytes(enc, n, k as nat).len() == k,
{
    if enc == EncodingKind::BigEndian {
        lemma_be_roundtrip(n, k as nat);
    } else {
        lemma_le_roundtrip(n, k as nat);
    }
    lemma_take_back(s, p, fixed_bytes(enc, n, k as nat), k);
}

/// Two bytes written for `x` in the given byte order read back as `x`, unless the input ends first.
pub proof fn lemma_u16_back(enc: EncodingKind, s: Seq<u8>, p: usize, x: u16)
    requires
        p <= s.len(),
        s.len() <= usize::MAX,
        agrees(s, p as int, fixed_bytes(enc, x as nat, 2)),
    ensures
        reads_back(sp_u16(enc, s, p), x, p + 2, s.len() as int),
        fixed_bytes(enc, x as nat, 2).len() == 2,
{
    lemma_p256_values();
    lemma_fixed_back(enc, s, p, x as nat, 2);
}

/// Four bytes written for `x` in the given byte order read back as `x`, unless the input ends first.
pub proof fn lemma_u32_back(enc: EncodingKind, s: Seq<u8>, p: usize, x: u32)
    requires
        p <= s.len(),
        s.len() <= usize::MAX,
        agrees(s, p as int, fixed_bytes(enc, x as nat, 4)),
    ensures
        reads_back(sp_u32(enc, s, p), x, p + 4, s.len() as int),
        fixed_bytes(enc, x as nat, 4).len() == 4,
{
    lemma_p256_values();
    lemma_fixed_back(enc, s, p, x as nat, 4);
}

/// Eight bytes written for `x` in the given byte order read back as `x`, unless the input ends first.
pub proof fn lemma_u64_back(enc: EncodingKind, s: Seq<u8>, p: usize, x: u64)
    requires
        p <= s.len(),
        s.len() <= usize::MAX,
        agrees(s, p as int, fixed_bytes(enc, x as nat, 8)),
    ensures
        reads_back(sp_u64(enc, s, p), x, p + 8, s.len() as int),
        fixed_bytes(enc, x as nat, 8).len() == 8,
{
    lemma_p256_values();
    lemma_fixed_back(enc, s, p, x as nat, 8);
}

/// A written `i16` reads back as itself, unless the input ends first.
pub proof fn lemma_i16_back(enc: EncodingKind, s: Seq<u8>, p: usize, v: i16)
    requires
        p <= s.len(),
        s.len() <= usize::MAX,
        agrees(s, p as int, enc_i16(enc, v)),
    ensures
        reads_back(sp_i16(enc, s, p), v, p + 2, s.len() as int),
        enc_i16(enc, v).len() == 2,
{
    lemma_u16_back(enc, s, p, v as u16);
    assert((v as u16) as i16 == v) by (bit_vector);
}

/// A written `i32` (zigzag varint in the network encoding) reads back as itself, unless the input ends first.
pub proof fn lemma_i32_back(enc: EncodingKind, s: Seq<u8>, p: usize, v: i32)
    requires
        p <= s.len(),
        s.len() <= usize::MAX,
        agrees(s, p as int, enc_i32(enc, v)),
    ensures
        reads_back(sp_i32(enc, s, p), v, p + enc_i32(enc, v).len(), s.len() as int),
{
    if enc == EncodingKind::NetworkLittleEndian {
        let n = zigzag(v as int);
        lemma_var_u32_back(s, p, n);
        assert(unzigzag(n) == v);
    } else {
        lemma_u32_back(enc, s, p, v as u32);
        assert((v as u32) as i32 == v) by (bit_vector);
    }
}

/// A written `i64` (zigzag varint in the network encoding) reads back as itself, unless the input ends first.
pub proof fn lemma_i64_back(enc: EncodingKind, s: Seq<u8>, p: usize, v: i64)
    requires
        p <= s.len(),
        s.len() <= usize::MAX,
        agrees(s, p as int, enc_i64(enc, v)),
    ensures
        reads_back(sp_i64(enc, s, p), v, p + enc_i64(enc, v).len(), s.len() as int),
{
    if enc == EncodingKind::NetworkLittleEndian {
        let n = zigzag(v as int);
        lemma_var_u64_back(s, p, n);
        assert(unzigzag(n) == v);
    } else {
        lemma_u64_back(enc, s, p, v as u64);
        assert((v as u64) as i64 == v) by (bit_vector);
    }
}

/// A written string length prefix reads back as that length, unless the input ends first.
pub proof fn lemma_string_len_back(enc: EncodingKind, s: Seq<u8>, p: usize, len: nat)
    requires
        p <= s.len(),
        s.len() <= usize::MAX,
        enc_string_len(enc, len) is Ok,
        agrees(s, p as int, enc_string_len(enc, len)->Ok_0),
    ensures
        reads_back(
            sp_string_len(enc, s, p),
            len as usize,
            p + enc_string_len(enc, len)->Ok_0.len(),
            s.len() as int,
        ),
{
    if enc == EncodingKind::NetworkLittleEndian {
        lemma_var_u32_back(s, p, len);
    } else {
        lemma_u16_back(enc, s, p, len as u16);
    }
}

/// A written list length prefix reads back as that length, unless the input ends first.
pub proof fn lemma_list_len_back(enc: EncodingKind, s: Seq<u8>, p: usize, len: nat)
    requires
        p <= s.len(),
        s.len() <= usize::MAX,
        enc_list_len(enc, len) is Ok,
        agrees(s, p as int, enc_list_len(enc, len)->Ok_0),
    ensures
        reads_back(
            sp_list_len(enc, s, p),
            len as usize,
            p + enc_list_len(enc, len)->Ok_0.len(),
            s.len() as int,
        ),
{
    if enc == EncodingKind::NetworkLittleEndian {
        lemma_var_u32_back(s, p, len);
    } else {
        let x = len as u32;
        lemma_u32_back(enc, s, p, x);
        assert((x as i32) < 0 <==> x > 0x7fff_ffff) by (bit_vector);
    }
}

/// The LEB128 encoding of `m < 128^k` has at most `k` bytes, and at least one.
proof fn lemma_var_len(m: nat, k: nat)
    requires
        k >= 1,
        m < p128(k),
    ensures
        1 <= var_bytes(m).len() <= k,
    decreases m,
{
    if m >= 128 {
        assert(p128(1) == 128) by {
            reveal_with_fuel(p128, 2);
        }
        assert(m / 128 < p128((k - 1) as nat) && k >= 2) by (nonlinear_arith)
            requires
                m >= 128,
                m < p128(k),
                k >= 1,
                p128(k) == 128 * p128((k - 1) as nat),
                k == 1 ==> p128(k) == 128,
        {
            if k == 1 {
            }
        }
        lemma_var_len(m / 128, (k - 1) as nat);
    }
}

proof fn lemma_var_u32_from_back(s: Seq<u8>, p: usize, i: nat, acc: nat, m: nat)
    requires
        p <= s.len(),
        s.len() <= usize::MAX,
        i <= 4,
        acc < p128(i),
        acc + m * p128(i) < 0x1_0000_0000,
        i + var_bytes(m).len() <= 5,
        agrees(s, p + i, var_bytes(m)),
    ensures
        reads_back(
            sp_var_u32_from(s, p, i, acc),
            (acc + m * p128(i)) as u32,
            p + i + var_bytes(m).len(),
            s.len() as int,
        ),
    decreases m,
{
    let b = var_bytes(m);
    if p + i >= s.len() {
        assert(b.len() >= 1);
    } else {
        assert(s[p + i] == b[0]);
        if m < 128 {
            assert(b[0] == m as u8);
            assert(((acc + (m % 128) * p128(i)) % 0x1_0000_0000) as u32 == (acc + m * p128(i)) as u32);
        } else {
            assert(b == seq![(m % 128 + 128) as u8] + var_bytes(m / 128));
            lemma_agrees_split(s, p + i, seq![(m % 128 + 128) as u8], var_bytes(m / 128));
            let acc2 = acc + (m % 128) * p128(i);
            assert(acc2 < p128(i + 1) && acc2 + (m / 128) * p128(i + 1) == acc + m * p128(i)) by (nonlinear_arith)
                requires
                    acc < p128(i),
                    acc2 == acc + (m % 128) * p128(i),
                    m % 128 < 128,
                    m == (m / 128) * 128 + m % 128,
                    p128(i + 1) == 128 * p128(i),
            ;
            lemma_var_u32_from_back(s, p, i + 1, acc2, m / 128);
        }
    }
}

proof fn lemma_var_u64_from_back(s: Seq<u8>, p: usize, i: nat, acc: nat, m: nat)
    requires
        p <= s.len(),
        s.len() <= usize::MAX,
        i <= 9,
        acc < p128(i),
        acc + m * p128(i) < 0x1_0000_0000_0000_0000,
        i + var_bytes(m).len() <= 10,
        agrees(s, p + i, var_bytes(m)),
    ensures
        reads_back(
            sp_var_u64_from(s, p, i, acc),
            (acc + m * p128(i)) as u64,
            p + i + var_bytes(m).len(),
            s.len() as int,
        ),
    decreases m,
{
    let b = var_bytes(m);
    if p + i >= s.len() {
        assert(b.len() >= 1);
    } else {
        assert(s[p + i] == b[0]);
        if m < 128 {
            assert(b[0] == m as u8);
            if i == 9 {
                assert(p128(9) == 0x8000_0000_0000_0000) by {
                    reveal_with_fuel(p128, 10);
                }
                assert(m <= 1) by (nonlinear_arith)
                    requires
                        acc + m * 0x8000_0000_0000_0000 < 0x1_0000_0000_0000_0000,
                ;
            }
        } else {
            assert(b == seq![(m % 128 + 128) as u8] + var_bytes(m / 128));
            lemma_agrees_split(s, p + i, seq![(m % 128 + 128) as u8], var_bytes(m / 128));
            let acc2 = acc + (m % 128) * p128(i);
            assert(acc2 < p128(i + 1) && acc2 + (m / 128) * p128(i + 1) == acc + m * p128(i)) by (nonlinear_arith)
                requires
                    acc < p128(i),
                    acc2 == acc + (m % 128) * p128(i),
                    m % 128 < 128,
                    m == (m / 128) * 128 + m % 128,
                    p128(i + 1) == 128 * p128(i),
            ;
            lemma_var_u64_from_back(s, p, i + 1, acc2, m / 128);
        }
    }
}

/// The LEB128 bytes of `n < 2^32` read back as `n`, unless the input ends first.
pub proof fn lemma_var_u32_back(s: Seq<u8>, p: usize, n: nat)
    requires
        p <= s.len(),
        s.len() <= usize::MAX,
        n < 0x1_0000_0000,
        agrees(s, p as int, var_bytes(n)),
    ensures
        reads_back(sp_var_u32(s, p), n as u32, p + var_bytes(n).len(), s.len() as int),
{
    assert(p128(5) == 0x8_0000_0000 && p128(0) == 1) by {
        reveal_with_fuel(p128, 6);
    }
    lemma_var_len(n, 5);
    lemma_var_u32_from_back(s, p, 0, 0, n);
}

/// The LEB128 bytes of `n < 2^64` read back as `n`, unless the input ends first.
pub proof fn lemma_var_u64_back(s: Seq<u8>, p: usize, n: nat)
    requires
        p <= s.len(),
        s.len() <= usize::MAX,
        n < 0x1_0000_0000_0000_0000,
        agrees(s, p as int, var_bytes(n)),
    ensures
        reads_back(sp_var_u64(s, p), n as u64, p + var_bytes(n).len(), s.len() as int),
{
    assert(p128(10) == 0x40_0000_0000_0000_0000 && p128(0) == 1) by {
        reveal_with_fuel(p128, 11);
    }
    lemma_var_len(n, 10);
    lemma_var_u64_from_back(s, p, 0, 0, n);
}


/// A written string reads back as the same characters; where `fits` says that it
/// is within the string limit and the input holds all of it, nothing else can
/// happen, and otherwise a limit may refuse it or the input end first.
pub proof fn lemma_string_back(enc: EncodingKind, cfg: NbtReadConfig, s: Seq<u8>, p: usize, text: Seq<char>, fits: bool)
    requires
        p <= s.len(),
        s.len() <= usize::MAX,
        s.len() <= cfg.limits.max_read_bytes,
        enc_string(enc, text) is Ok,
        agrees(s, p as int, enc_string(enc, text)->Ok_0),
        fits ==> encode_utf8(text).len() <= cfg.limits.max_string_len && p + enc_string(enc, text)->Ok_0.len()
            <= s.len(),
    ensures
        reads_back_fit(
            sp_string(enc, cfg, s, p),
            text,
            p + enc_string(enc, text)->Ok_0.len(),
            s.len() as int,
            fits,
        ),
{
    reveal_with_fuel(innermost_of, 3);
    let u = encode_utf8(text);
    let h = enc_string_len(enc, u.len())->Ok_0;
    lemma_agrees_split(s, p as int, h, u);
    lemma_string_len_back(enc, s, p, u.len());
    encode_utf8_valid_utf8(text);
    encode_utf8_decode_utf8(text);
    assert(enc_string(enc, text)->Ok_0 == h + u);
    assert(u.len() <= 0x7fff_ffff);
    match sp_string_len(enc, s, p) {
        Ok((l, q)) => {
            assert(l == u.len());
            assert(q == p + h.len());
            lemma_take_back(s, q, u, l);
            if l > cfg.limits.max_string_len {
                assert(refused(sp_string(enc, cfg, s, p)->Err_0.0));
            } else if l > cfg.limits.max_read_bytes - q {
                assert(refused(sp_string(enc, cfg, s, p)->Err_0.0));
            } else if q + l <= s.len() {
                assert(sp_take(s, q, l) == Ok::<(Seq<u8>, usize), (Error, usize)>((u, (q + l) as usize)));
                assert(valid_utf8(u));
                assert(decode_utf8(u) == text);
                assert(sp_string(enc, cfg, s, p) == Ok::<(Seq<char>, usize), (Error, usize)>((text, (q + l) as usize)));
            } else {
                assert(truncated(sp_string(enc, cfg, s, p)->Err_0.0));
            }
        },
        Err(_) => {},
    }
}

/// A written array length reads back as that length, unless the input ends first.
pub proof fn lemma_len_i32_back(enc: EncodingKind, s: Seq<u8>, p: usize, field: &'static str, len: nat)
    requires
        p <= s.len(),
        s.len() <= usize::MAX,
        len <= 0x7fff_ffff,
        agrees(s, p as int, enc_i32(enc, len as i32)),
    ensures
        reads_back(sp_len_i32(enc, s, p, field), len as usize, p + enc_i32(enc, len as i32).len(), s.len() as int),
{
    lemma_i32_back(enc, s, p, len as i32);
}

proof fn lemma_enc_i32s_cons(enc: EncodingKind, xs: Seq<i32>)
    requires
        xs.len() > 0,
    ensures
        enc_i32s(enc, xs) == enc_i32(enc, xs[0]) + enc_i32s(enc, xs.drop_first()),
    decreases xs.len(),
{
    if xs.len() > 1 {
        lemma_enc_i32s_cons(enc, xs.drop_last());
        assert(xs.drop_last().drop_first() =~= xs.drop_first().drop_last());
        assert(enc_i32(enc, xs[0]) + enc_i32s(enc, xs.drop_first()) =~= enc_i32(enc, xs[0]) + (
        enc_i32s(enc, xs.drop_first().drop_last()) + enc_i32(enc, xs.last())));
    } else {
        assert(xs.drop_last() =~= Seq::<i32>::empty());
        assert(xs.drop_first() =~= Seq::<i32>::empty());
    }
}

proof fn lemma_enc_i64s_cons(enc: EncodingKind, xs: Seq<i64>)
    requires
        xs.len() > 0,
    ensures
        enc_i64s(enc, xs) == enc_i64(enc, xs[0]) + enc_i64s(enc, xs.drop_first()),
    decreases xs.len(),
{
    if xs.len() > 1 {
        lemma_enc_i64s_cons(enc, xs.drop_last());
        assert(xs.drop_last().drop_first() =~= xs.drop_first().drop_last());
        assert(enc_i64(enc, xs[0]) + enc_i64s(enc, xs.drop_first()) =~= enc_i64(enc, xs[0]) + (
        enc_i64s(enc, xs.drop_first().drop_last()) + enc_i64(enc, xs.last())));
    } else {
        assert(xs.drop_last() =~= Seq::<i64>::empty());
        assert(xs.drop_first() =~= Seq::<i64>::empty());
    }
}

proof fn lemma_i32s_back(enc: EncodingKind, s: Seq<u8>, pos: usize, i: nat, xs: Seq<i32>)
    requires
        pos <= s.len(),
        s.len() <= usize::MAX,
        i <= xs.len(),
        agrees(s, pos as int, enc_i32s(enc, xs.skip(i as int))),
    ensures
        reads_back(
            sp_i32s_from(enc, s, pos, i, xs.len(), xs.take(i as int)),
            xs,
            pos + enc_i32s(enc, xs.skip(i as int)).len(),
            s.len() as int,
        ),
    decreases xs.len() - i,
{
    if i < xs.len() {
        let rest = xs.skip(i as int);
        lemma_enc_i32s_cons(enc, rest);
        assert(rest.drop_first() =~= xs.skip(i + 1 as int));
        assert(rest[0] == xs[i as int]);
        lemma_agrees_split(s, pos as int, enc_i32(enc, xs[i as int]), enc_i32s(enc, xs.skip(i + 1 as int)));
        lemma_i32_back(enc, s, pos, xs[i as int]);
        match sp_i32(enc, s, pos) {
            Ok((v, q)) => {
                assert(xs.take(i as int).push(v) =~= xs.take(i + 1 as int));
                lemma_i32s_back(enc, s, q, i + 1, xs);
            },
            Err(_) => {},
        }
    } else {
        assert(xs.take(i as int) =~= xs);
        assert(xs.skip(i as int) =~= Seq::<i32>::empty());
    }
}

proof fn lemma_i64s_back(enc: EncodingKind, s: Seq<u8>, pos: usize, i: nat, xs: Seq<i64>)
    requires
        pos <= s.len(),
        s.len() <= usize::MAX,
        i <= xs.len(),
        agrees(s, pos as int, enc_i64s(enc, xs.skip(i as int))),
    ensures
        reads_back(
            sp_i64s_from(enc, s, pos, i, xs.len(), xs.take(i as int)),
            xs,
            pos + enc_i64s(enc, xs.skip(i as int)).len(),
            s.len() as int,
        ),
    decreases xs.len() - i,
{
    if i < xs.len() {
        let rest = xs.skip(i as int);
        lemma_enc_i64s_cons(enc, rest);
        assert(rest.drop_first() =~= xs.skip(i + 1 as int));
        assert(rest[0] == xs[i as int]);
        lemma_agrees_split(s, pos as int, enc_i64(enc, xs[i as int]), enc_i64s(enc, xs.skip(i + 1 as int)));
        lemma_i64_back(enc, s, pos, xs[i as int]);
        match sp_i64(enc, s, pos) {
            Ok((v, q)) => {
                assert(xs.take(i as int).push(v) =~= xs.take(i + 1 as int));
                lemma_i64s_back(enc, s, q, i + 1, xs);
            },
            Err(_) => {},
        }
    } else {
        assert(xs.take(i as int) =~= xs);
        assert(xs.skip(i as int) =~= Seq::<i64>::empty());
    }
}


/// The bounds a reading lemma needs where `fits` holds: the value within the
/// limits at `depth`, its bytes ending at `end` inside the window, and `room` more
/// bytes still inside the read budget.
pub open spec fn fits_at(enc: EncodingKind, cfg: NbtReadConfig, v: TagView, depth: nat, room: nat, end: int, len: int) -> bool {
    fits_limits(enc, cfg.limits, v, depth, room) && end <= len && end + room <= cfg.limits.max_read_bytes
}

#[verifier::rlimit(60)]
proof fn lemma_payload_back(
    enc: EncodingKind,
    cfg: NbtReadConfig,
    s: Seq<u8>,
    p: usize,
    v: TagView,
    depth: nat,
    fits: bool,
    room: nat,
)
    requires
        p <= s.len(),
        s.len() <= usize::MAX,
        s.len() <= cfg.limits.max_read_bytes,
        depth <= cfg.limits.max_depth + 1,
        wf_view(v),
        enc_payload(enc, v) is Ok,
        agrees(s, p as int, enc_payload(enc, v)->Ok_0),
        fits ==> fits_at(enc, cfg, v, depth, room, p + enc_payload(enc, v)->Ok_0.len(), s.len() as int),
    ensures
        reads_back_fit(
            sp_payload(enc, cfg, s, p, view_type(v), depth),
            v,
            p + enc_payload(enc, v)->Ok_0.len(),
            s.len() as int,
            fits,
        ),
    decreases v, 0int,
{
    reveal_with_fuel(innermost_of, 3);
    if depth > cfg.limits.max_depth {
        return;
    }
    match v {
        TagView::End => {
            assert(enc_payload(enc, v) is Err);
        },
        TagView::Byte(x) => {
            let b = seq![x as u8];
            assert(enc_payload(enc, v) == Ok::<Seq<u8>, Error>(b));
            lemma_take_back(s, p, b, 1);
            assert((x as u8) as i8 == x) by (bit_vector);
            assert(b[0] == x as u8);
        },
        TagView::Short(x) => {
            lemma_i16_back(enc, s, p, x);
        },
        TagView::Int(x) => {
            lemma_i32_back(enc, s, p, x);
        },
        TagView::Long(x) => {
            lemma_i64_back(enc, s, p, x);
        },
        TagView::Float(bits) => {
            lemma_u32_back(enc, s, p, bits);
        },
        TagView::Double(bits) => {
            lemma_u64_back(enc, s, p, bits);
        },
        TagView::ByteArray(bytes) => {
            lemma_byte_array_back(enc, cfg, s, p, bytes, fits);
        },
        TagView::String(text) => {
            lemma_string_back(enc, cfg, s, p, text, fits);
        },
        TagView::List(et, es) => {
            lemma_list_back(enc, cfg, s, p, depth, et, es, fits, room);
        },
        TagView::Compound(es) => {
            assert(es.take(0) =~= Seq::<(Seq<char>, TagView)>::empty());
            lemma_compound_back(enc, cfg, s, p, depth, es, 0, fits, room);
        },
        TagView::IntArray(xs) => {
            lemma_int_array_back(enc, cfg, s, p, xs, fits, room);
        },
        TagView::LongArray(xs) => {
            lemma_long_array_back(enc, cfg, s, p, xs, fits, room);
        },
    }
}

proof fn lemma_byte_array_back(enc: EncodingKind, cfg: NbtReadConfig, s: Seq<u8>, p: usize, bytes: Seq<u8>, fits: bool)
    requires
        p <= s.len(),
        s.len() <= usize::MAX,
        s.len() <= cfg.limits.max_read_bytes,
        enc_payload(enc, TagView::ByteArray(bytes)) is Ok,
        agrees(s, p as int, enc_payload(enc, TagView::ByteArray(bytes))->Ok_0),
        fits ==> bytes.len() <= cfg.limits.max_array_len && p + enc_payload(enc, TagView::ByteArray(bytes))->Ok_0.len()
            <= s.len(),
    ensures
        reads_back_fit(
            sp_byte_array(cfg, enc, s, p),
            TagView::ByteArray(bytes),
            p + enc_payload(enc, TagView::ByteArray(bytes))->Ok_0.len(),
            s.len() as int,
            fits,
        ),
{
    reveal_with_fuel(innermost_of, 3);
    let h = enc_i32(enc, bytes.len() as i32);
    lemma_agrees_split(s, p as int, h, bytes);
    lemma_len_i32_back(enc, s, p, "byte_array_length", bytes.len());
    match sp_len_i32(enc, s, p, "byte_array_length") {
        Ok((l, q)) => {
            lemma_take_back(s, q, bytes, l);
        },
        Err(_) => {},
    }
}

proof fn lemma_int_array_back(enc: EncodingKind, cfg: NbtReadConfig, s: Seq<u8>, p: usize, xs: Seq<i32>, fits: bool, room: nat)
    requires
        p <= s.len(),
        s.len() <= usize::MAX,
        s.len() <= cfg.limits.max_read_bytes,
        enc_payload(enc, TagView::IntArray(xs)) is Ok,
        agrees(s, p as int, enc_payload(enc, TagView::IntArray(xs))->Ok_0),
        fits ==> xs.len() <= cfg.limits.max_array_len && (enc == EncodingKind::NetworkLittleEndian ==> 4
            * xs.len() <= room) && p + enc_payload(enc, TagView::IntArray(xs))->Ok_0.len() <= s.len() && p
            + enc_payload(enc, TagView::IntArray(xs))->Ok_0.len() + room <= cfg.limits.max_read_bytes,
    ensures
        reads_back_fit(
            sp_int_array(enc, cfg, s, p),
            TagView::IntArray(xs),
            p + enc_payload(enc, TagView::IntArray(xs))->Ok_0.len(),
            s.len() as int,
            fits,
        ),
{
    reveal_with_fuel(innermost_of, 3);
    let h = enc_i32(enc, xs.len() as i32);
    lemma_agrees_split(s, p as int, h, enc_i32s(enc, xs));
    lemma_len_i32_back(enc, s, p, "int_array_length", xs.len());
    assert(xs.skip(0) =~= xs);
    assert(xs.take(0) =~= Seq::<i32>::empty());
    if enc != EncodingKind::NetworkLittleEndian {
        lemma_enc_i32s_len(enc, xs);
    }
    match sp_len_i32(enc, s, p, "int_array_length") {
        Ok((l, q)) => {
            lemma_i32s_back(enc, s, q, 0, xs);
        },
        Err(_) => {},
    }
}

proof fn lemma_long_array_back(enc: EncodingKind, cfg: NbtReadConfig, s: Seq<u8>, p: usize, xs: Seq<i64>, fits: bool, room: nat)
    requires
        p <= s.len(),
        s.len() <= usize::MAX,
        s.len() <= cfg.limits.max_read_bytes,
        enc_payload(enc, TagView::LongArray(xs)) is Ok,
        agrees(s, p as int, enc_payload(enc, TagView::LongArray(xs))->Ok_0),
        fits ==> xs.len() <= cfg.limits.max_array_len && (enc == EncodingKind::NetworkLittleEndian ==> 8
            * xs.len() <= room) && p + enc_payload(enc, TagView::LongArray(xs))->Ok_0.len() <= s.len() && p
            + enc_payload(enc, TagView::LongArray(xs))->Ok_0.len() + room <= cfg.limits.max_read_bytes,
    ensures
        reads_back_fit(
            sp_long_array(enc, cfg, s, p),
            TagView::LongArray(xs),
            p + enc_payload(enc, TagView::LongArray(xs))->Ok_0.len(),
            s.len() as int,
            fits,
        ),
{
    reveal_with_fuel(innermost_of, 3);
    let h = enc_i32(enc, xs.len() as i32);
    lemma_agrees_split(s, p as int, h, enc_i64s(enc, xs));
    lemma_len_i32_back(enc, s, p, "long_array_length", xs.len());
    assert(xs.skip(0) =~= xs);
    assert(xs.take(0) =~= Seq::<i64>::empty());
    if enc != EncodingKind::NetworkLittleEndian {
        lemma_enc_i64s_len(enc, xs);
    }
    match sp_len_i32(enc, s, p, "long_array_length") {
        Ok((l, q)) => {
            lemma_i64s_back(enc, s, q, 0, xs);
        },
        Err(_) => {},
    }
}

proof fn lemma_list_back(
    enc: EncodingKind,
    cfg: NbtReadConfig,
    s: Seq<u8>,
    p: usize,
    depth: nat,
    et: TagType,
    es: Seq<TagView>,
    fits: bool,
    room: nat,
)
    requires
        p <= s.len(),
        s.len() <= usize::MAX,
        s.len() <= cfg.limits.max_read_bytes,
        depth <= cfg.limits.max_depth,
        wf_view(TagView::List(et, es)),
        enc_payload(enc, TagView::List(et, es)) is Ok,
        agrees(s, p as int, enc_payload(enc, TagView::List(et, es))->Ok_0),
        fits ==> fits_at(
            enc,
            cfg,
            TagView::List(et, es),
            depth,
            room,
            p + enc_payload(enc, TagView::List(et, es))->Ok_0.len(),
            s.len() as int,
        ),
    ensures
        reads_back_fit(
            sp_list(enc, cfg, s, p, depth),
            TagView::List(et, es),
            p + enc_payload(enc, TagView::List(et, es))->Ok_0.len(),
            s.len() as int,
            fits,
        ),
    decreases es, es.len() + 1,
{
    reveal_with_fuel(innermost_of, 3);
    let b = enc_payload(enc, TagView::List(et, es))->Ok_0;
    let h = enc_list_len(enc, es.len())->Ok_0;
    let eb = enc_elems_from(enc, es, 0)->Ok_0;
    let id = seq![type_id(et)];
    assert(b == id + h + eb);
    lemma_agrees_split(s, p as int, id + h, eb);
    lemma_agrees_split(s, p as int, id, h);
    lemma_take_back(s, p, id, 1);
    lemma_type_id_roundtrip(et, 0);
    assert(id[0] == type_id(et));
    assert(list_type_error(et, es) is None);
    lemma_first_mismatch(et, es, 0);
    lemma_wf_list(et, es);
    assert forall|j: int| 0 <= j < es.len() implies #[trigger] wf_view(es[j]) && view_type(es[j]) == et by {
        assert(view_type(es[j]) == et);
    }
    assert(elems_fit(es, et));
    if fits {
        lemma_fits_list(enc, cfg.limits, et, es, depth, room);
    }
    if p + 1 <= s.len() {
        lemma_list_len_back(enc, s, (p + 1) as usize, es.len());
        match sp_list_len(enc, s, (p + 1) as usize) {
            Ok((l, q)) => {
                if l <= cfg.limits.max_list_len {
                    assert(es.take(0) =~= Seq::<TagView>::empty());
                    lemma_elems_back(enc, cfg, s, q, et, depth, es, 0, fits, room);
                }
            },
            Err(_) => {},
        }
    }
}

proof fn lemma_elems_back(
    enc: EncodingKind,
    cfg: NbtReadConfig,
    s: Seq<u8>,
    pos: usize,
    et: TagType,
    depth: nat,
    es: Seq<TagView>,
    i: nat,
    fits: bool,
    room: nat,
)
    requires
        pos <= s.len(),
        s.len() <= usize::MAX,
        s.len() <= cfg.limits.max_read_bytes,
        depth <= cfg.limits.max_depth,
        i <= es.len(),
        elems_fit(es, et),
        enc_elems_from(enc, es, i as int) is Ok,
        agrees(s, pos as int, enc_elems_from(enc, es, i as int)->Ok_0),
        fits ==> (forall|j: int| 0 <= j < es.len() ==> fits_limits(enc, cfg.limits, #[trigger] es[j], depth + 1, room))
            && pos + enc_elems_from(enc, es, i as int)->Ok_0.len() <= s.len() && pos + enc_elems_from(
            enc,
            es,
            i as int,
        )->Ok_0.len() + room <= cfg.limits.max_read_bytes,
    ensures
        reads_back_fit(
            sp_elems_from(enc, cfg, s, pos, et, depth, i, es.len(), es.take(i as int)),
            TagView::List(et, es),
            pos + enc_elems_from(enc, es, i as int)->Ok_0.len(),
            s.len() as int,
            fits,
        ),
    decreases es, es.len() - i,
{
    if i < es.len() {
        let bi = enc_payload(enc, es[i as int])->Ok_0;
        let rest = enc_elems_from(enc, es, i + 1 as int)->Ok_0;
        assert(wf_view(es[i as int]) && view_type(es[i as int]) == et);
        lemma_agrees_split(s, pos as int, bi, rest);
        lemma_payload_back(enc, cfg, s, pos, es[i as int], depth + 1, fits, room);
        match sp_payload(enc, cfg, s, pos, et, depth + 1) {
            Ok((w, q)) => {
                assert(es.take(i as int).push(w) =~= es.take(i + 1 as int));
                lemma_elems_back(enc, cfg, s, q, et, depth, es, i + 1, fits, room);
            },
            Err(_) => {},
        }
    } else {
        assert(es.take(i as int) =~= es);
    }
}

/// Inserting the next entry of a compound with distinct names extends the prefix read so far.
proof fn lemma_take_insert(es: Seq<(Seq<char>, TagView)>, i: int)
    requires
        keys_distinct(es),
        0 <= i < es.len(),
    ensures
        entries_insert(es.take(i), es[i].0, es[i].1) == es.take(i + 1),
{
    let acc = es.take(i);
    let k = es[i].0;
    lemma_key_index(acc, k);
    assert forall|j: int| 0 <= j < acc.len() implies acc[j].0 != k by {
        assert(acc[j] == es[j]);
    }
    assert(entries_insert(acc, k, es[i].1) =~= es.take(i + 1));
}

/// Splits the agreement of one entry's bytes followed by the rest.
proof fn lemma_entry_split(s: Seq<u8>, p: int, id: Seq<u8>, kb: Seq<u8>, vb: Seq<u8>, rest: Seq<u8>)
    requires
        agrees(s, p, id + kb + vb + rest),
    ensures
        agrees(s, p, id),
        agrees(s, p + id.len(), kb),
        agrees(s, p + id.len() + kb.len(), vb),
        agrees(s, p + id.len() + kb.len() + vb.len(), rest),
{
    lemma_agrees_split(s, p, id + kb + vb, rest);
    lemma_agrees_split(s, p, id + kb, vb);
    lemma_agrees_split(s, p, id, kb);
}

#[verifier::rlimit(60)]
proof fn lemma_compound_back(
    enc: EncodingKind,
    cfg: NbtReadConfig,
    s: Seq<u8>,
    pos: usize,
    depth: nat,
    es: Seq<(Seq<char>, TagView)>,
    i: nat,
    fits: bool,
    room: nat,
)
    requires
        pos <= s.len(),
        s.len() <= usize::MAX,
        s.len() <= cfg.limits.max_read_bytes,
        depth <= cfg.limits.max_depth,
        i <= es.len(),
        i <= cfg.limits.max_compound_entries,
        wf_view(TagView::Compound(es)),
        enc_entries_from(enc, es, i as int) is Ok,
        agrees(s, pos as int, enc_entries_from(enc, es, i as int)->Ok_0 + seq![0u8]),
        fits ==> fits_at(
            enc,
            cfg,
            TagView::Compound(es),
            depth,
            room,
            pos + enc_entries_from(enc, es, i as int)->Ok_0.len() + 1,
            s.len() as int,
        ),
    ensures
        reads_back_fit(
            sp_compound_from(enc, cfg, s, pos, depth, i as usize, es.take(i as int)),
            TagView::Compound(es),
            pos + enc_entries_from(enc, es, i as int)->Ok_0.len() + 1,
            s.len() as int,
            fits,
        ),
    decreases es, es.len() - i,
{
    reveal_with_fuel(innermost_of, 3);
    lemma_wf_compound(es);
    if fits {
        lemma_fits_compound(enc, cfg.limits, es, depth, room);
    }
    if i < es.len() {
        let k = es[i as int].0;
        let v = es[i as int].1;
        assert(wf_view(v));
        let id = seq![type_id(view_type(v))];
        let kb = enc_string(enc, k)->Ok_0;
        let vb = enc_payload(enc, v)->Ok_0;
        let rest = enc_entries_from(enc, es, i + 1 as int)->Ok_0;
        assert(enc_entries_from(enc, es, i as int)->Ok_0 + seq![0u8] =~= id + kb + vb + (rest + seq![0u8]));
        lemma_entry_split(s, pos as int, id, kb, vb, rest + seq![0u8]);
        lemma_take_back(s, pos, id, 1);
        lemma_type_id_roundtrip(view_type(v), 0);
        assert(id[0] == type_id(view_type(v)));
        if pos + 1 <= s.len() && i + 1 <= cfg.limits.max_compound_entries {
            lemma_string_back(enc, cfg, s, (pos + 1) as usize, k, fits);
            match sp_string(enc, cfg, s, (pos + 1) as usize) {
                Ok((name, q2)) => {
                    lemma_payload_back(enc, cfg, s, q2, v, depth + 1, fits, room);
                    match sp_payload(enc, cfg, s, q2, view_type(v), depth + 1) {
                        Ok((w, q3)) => {
                            lemma_take_insert(es, i as int);
                            lemma_compound_back(enc, cfg, s, q3, depth, es, i + 1, fits, room);
                        },
                        Err(_) => {},
                    }
                },
                Err(_) => {},
            }
        }
    } else {
        assert(es.take(i as int) =~= es);
        lemma_take_back(s, pos, seq![0u8], 1);
        lemma_type_id_roundtrip(TagType::End, 0);
    }
}

/// Reading back what was written: the payload bytes a writer produces for a
/// well-formed value, followed by anything, read back as that same value and
/// exactly those bytes whenever the value and its bytes are within the limits;
/// otherwise a configured limit may refuse it, or, where the payload is longer
/// than the read budget, the input end early for the reader.
pub proof fn law_payload_roundtrip(
    enc: EncodingKind,
    cfg: NbtReadConfig,
    v: TagView,
    b: Seq<u8>,
    rest: Seq<u8>,
)
    requires
        wf_view(v),
        enc_payload(enc, v) == Ok::<Seq<u8>, Error>(b),
    ensures
        match sp_read_payload(enc, cfg, b + rest, view_type(v)) {
            Ok((w, n)) => w == v && n == b.len(),
            Err((e, _)) => !within_limits(enc, cfg.limits, v, b) && (refused(e) || (b.len()
                > cfg.limits.max_read_bytes && truncated(e))),
        },
{
    let input = b + rest;
    let s = window(input, cfg);
    assert forall|i: int| 0 <= i < b.len() && 0 + i < s.len() implies s[0 + i] == b[i] by {
        assert(input[i] == b[i]);
    }
    assert(agrees(s, 0, b));
    let fits = within_limits(enc, cfg.limits, v, b);
    let room: nat = if b.len() <= cfg.limits.max_read_bytes {
        (cfg.limits.max_read_bytes - b.len()) as nat
    } else {
        0
    };
    lemma_payload_back(enc, cfg, s, 0, v, 1, fits, room);
}

/// A layer of context keeps what an error says about limits and truncation.
proof fn lemma_wrap_keeps(e: Error, op: &'static str, off: usize, field: Option<&'static str>)
    ensures
        innermost_of(wrap(e, op, off, field)) == innermost_of(e),
        refused(wrap(e, op, off, field)) == refused(e),
        truncated(wrap(e, op, off, field)) == truncated(e),
{
    assert(innermost_of(wrap(e, op, off, field)) == innermost_of(e));
}

/// Reading one byte at `p` from bytes that hold `x` there.
proof fn lemma_byte_back(s: Seq<u8>, p: usize, x: u8, field: &'static str)
    requires
        p < s.len(),
        s.len() <= usize::MAX,
        s[p as int] == x,
    ensures
        sp_byte(s, p, field) == Ok::<(u8, usize), (Error, usize)>((x, (p + 1) as usize)),
{
    assert(s.subrange(p as int, p + 1)[0] == s[p as int]);
}

/// Reading back a root name written at offset 1.
proof fn lemma_root_name_back(enc: EncodingKind, cfg: NbtReadConfig, s: Seq<u8>, name: Seq<char>)
    requires
        1 <= s.len() <= usize::MAX,
        enc_string(enc, name) is Ok,
        1 + enc_string(enc, name)->Ok_0.len() <= s.len(),
        agrees(s, 1, enc_string(enc, name)->Ok_0),
    ensures
        match sp_root_name(enc, cfg, s, 1) {
            Ok((w, q)) => w == name && q == 1 + enc_string(enc, name)->Ok_0.len(),
            Err((e, _)) => refused(e) && encode_utf8(name).len() > cfg.limits.max_string_len,
        },
{
    reveal_with_fuel(innermost_of, 3);
    let u = encode_utf8(name);
    let h = enc_string_len(enc, u.len())->Ok_0;
    lemma_agrees_split(s, 1, h, u);
    lemma_string_len_back(enc, s, 1, u.len());
    encode_utf8_valid_utf8(name);
    encode_utf8_decode_utf8(name);
    match sp_string_len(enc, s, 1) {
        Ok((l, q)) => {
            if l <= cfg.limits.max_string_len {
                lemma_take_back(s, q, u, l);
            }
        },
        Err(_) => {},
    }
}

/// Reading back what a root writer produced: the bytes of a well-formed root value,
/// followed by anything, read back as that root and exactly those bytes whenever
/// the root and its bytes are within the limits; otherwise a configured limit may
/// refuse it, or, where they are longer than the read budget, the input end early
/// for the payload reader.
#[verifier::rlimit(40)]
pub proof fn law_root_roundtrip(
    enc: EncodingKind,
    cfg: NbtReadConfig,
    root: (Seq<char>, TagView),
    b: Seq<u8>,
    rest: Seq<u8>,
)
    requires
        wf_view(root.1),
        enc_root(enc, root) == Ok::<Seq<u8>, Error>(b),
        b.len() + rest.len() <= usize::MAX,
    ensures
        match sp_root(enc, cfg, b + rest) {
            Ok((w, n)) => w == root && n == b.len(),
            Err((e, _)) => !root_within_limits(enc, cfg.limits, root, b) && (refused(e) || (b.len()
                > cfg.limits.max_read_bytes && truncated(e))),
        },
{
    let s = b + rest;
    let t = view_type(root.1);
    let nb = enc_string(enc, root.0)->Ok_0;
    let pb = enc_payload(enc, root.1)->Ok_0;
    assert(b == seq![type_id(t)] + nb + pb);
    lemma_byte_back(s, 0, type_id(t), "root_tag_type");
    lemma_type_id_roundtrip(t, 0);
    assert(valid_root_type(t, cfg.parse_mode));
    assert forall|i: int| 0 <= i < nb.len() && 1 + i < s.len() implies s[1 + i] == nb[i] by {
        assert(s[1 + i] == b[1 + i]);
    }
    lemma_root_name_back(enc, cfg, s, root.0);
    assert(sp_byte(s, 0, "root_tag_type") == Ok::<(u8, usize), (Error, usize)>((type_id(t), 1)));
    assert(decode_type_id(type_id(t)) == Ok::<TagType, Error>(t));
    match sp_root_name(enc, cfg, s, 1) {
        Ok((w, q)) => {
            assert(s.subrange(q as int, s.len() as int) =~= pb + rest);
            law_payload_roundtrip(enc, cfg, root.1, pb, rest);
            if root_within_limits(enc, cfg.limits, root, b) {
                lemma_fits_room(
                    enc,
                    cfg.limits,
                    root.1,
                    1,
                    (cfg.limits.max_read_bytes - b.len()) as nat,
                    (cfg.limits.max_read_bytes - pb.len()) as nat,
                );
                assert(within_limits(enc, cfg.limits, root.1, pb));
            }
            match sp_read_payload(enc, cfg, pb + rest, t) {
                Ok((v, n)) => {
                    assert(sp_root(enc, cfg, s) == Ok::<((Seq<char>, TagView), usize), (Error, usize)>(
                        ((w, v), (q + n) as usize),
                    ));
                },
                Err((e, c)) => {
                    lemma_wrap_keeps(e, "read_root_payload", 1, Some("root_payload"));
                    assert(sp_root(enc, cfg, s) == Err::<((Seq<char>, TagView), usize), (Error, usize)>(
                        (wrap(e, "read_root_payload", 1, Some("root_payload")), (q + c) as usize),
                    ));
                },
            }
        },
        Err((e, c)) => {
            assert(sp_root(enc, cfg, s) == Err::<((Seq<char>, TagView), usize), (Error, usize)>((e, c)));
        },
    }
}

/// Reading back a value written as type id and payload, on the same terms as
/// a payload: whenever the value and its bytes are within the limits, the value
/// and exactly those bytes.
pub proof fn law_prefixed_roundtrip(enc: EncodingKind, cfg: NbtReadConfig, v: TagView, b: Seq<u8>, rest: Seq<u8>)
    requires
        wf_view(v),
        enc_prefixed(enc, v) == Ok::<Seq<u8>, Error>(b),
        b.len() + rest.len() <= usize::MAX,
    ensures
        match sp_prefixed(enc, cfg, b + rest) {
            Ok((w, n)) => w == v && n == b.len(),
            Err((e, _)) => !within_limits(enc, cfg.limits, v, b) && (refused(e) || (b.len()
                > cfg.limits.max_read_bytes && truncated(e))),
        },
{
    let s = b + rest;
    let t = view_type(v);
    let pb = enc_payload(enc, v)->Ok_0;
    assert(b == seq![type_id(t)] + pb);
    lemma_byte_back(s, 0, type_id(t), "tag_type_id");
    lemma_type_id_roundtrip(t, 0);
    assert(s.subrange(1, s.len() as int) =~= pb + rest);
    law_payload_roundtrip(enc, cfg, v, pb, rest);
    if within_limits(enc, cfg.limits, v, b) {
        lemma_fits_room(
            enc,
            cfg.limits,
            v,
            1,
            (cfg.limits.max_read_bytes - b.len()) as nat,
            (cfg.limits.max_read_bytes - pb.len()) as nat,
        );
        assert(within_limits(enc, cfg.limits, v, pb));
    }
}

/// Header modes a reader can read back: the same header; the level.dat header
/// for a Bedrock file header, whose layout is the same; and the Bedrock header for
/// a level.dat header whose storage version is the Bedrock magic.
pub open spec fn header_reads_back(w: HeaderWriteMode, r: HeaderReadMode) -> bool {
    match w {
        HeaderWriteMode::NoHeader => r == HeaderReadMode::NoHeader,
        HeaderWriteMode::BedrockFileHeader => r == HeaderReadMode::BedrockFileHeader || r
            == HeaderReadMode::LevelDatHeader,
        HeaderWriteMode::LevelDatHeader { storage_version } => r == HeaderReadMode::LevelDatHeader || (r
            == HeaderReadMode::BedrockFileHeader && storage_version == BEDROCK_FILE_HEADER_MAGIC),
    }
}

proof fn lemma_sized_back(enc: EncodingKind, cfg: NbtReadConfig, root: (Seq<char>, TagView), word: u32, b: Seq<u8>, rest: Seq<u8>, field: &'static str)
    requires
        wf_view(root.1),
        enc_sized(enc_root(enc, root), word) == Ok::<Seq<u8>, Error>(b),
        b.len() + rest.len() <= usize::MAX,
    ensures
        ctx(sp_u32(EncodingKind::LittleEndian, b + rest, 0), "read_exact", 0, field) == Ok::<(u32, usize), (Error, usize)>(
            (word, 4),
        ),
        match sp_sized_root(enc, cfg, b + rest, field) {
            Ok((w, n)) => w == root && n == b.len(),
            Err((e, _)) => refused(e) && !root_within_limits(enc, cfg.limits, root, b),
        },
{
    reveal_with_fuel(innermost_of, 3);
    let s = b + rest;
    let p = enc_root(enc, root)->Ok_0;
    let wb = fixed_bytes(EncodingKind::LittleEndian, word as nat, 4);
    let lb = fixed_bytes(EncodingKind::LittleEndian, p.len(), 4);
    assert(b == wb + lb + p);
    assert(agrees(s, 0, wb + lb + p)) by {
        assert forall|i: int| 0 <= i < (wb + lb + p).len() && 0 + i < s.len() implies s[0 + i] == (wb + lb + p)[i] by {
            assert(s[i] == b[i]);
        }
    }
    lemma_agrees_split(s, 0, wb + lb, p);
    lemma_agrees_split(s, 0, wb, lb);
    lemma_u32_back(EncodingKind::LittleEndian, s, 0, word);
    lemma_u32_back(EncodingKind::LittleEndian, s, 4, p.len() as u32);
    let len = p.len() as usize;
    if len <= cfg.limits.max_read_bytes {
        lemma_take_back(s, 8, p, len);
        law_root_roundtrip(enc, cfg, root, p, Seq::empty());
        assert(p + Seq::<u8>::empty() =~= p);
        if root_within_limits(enc, cfg.limits, root, b) {
            lemma_fits_room(
                enc,
                cfg.limits,
                root.1,
                1,
                (cfg.limits.max_read_bytes - b.len()) as nat,
                (cfg.limits.max_read_bytes - p.len()) as nat,
            );
            assert(root_within_limits(enc, cfg.limits, root, p));
        }
        match sp_root(enc, cfg, p) {
            Ok(_) => {},
            Err((e, _)) => {
                lemma_wrap_keeps(e, "read_header_payload_root", 8, Some("root_payload"));
            },
        }
    }
}

/// Reading back what a header writer produced, with a header mode that reads
/// what was written: the root and exactly those bytes whenever the root and the
/// bytes are within the limits; otherwise a configured limit may refuse it.
pub proof fn law_header_roundtrip(
    enc: EncodingKind,
    cfg: NbtReadConfig,
    root: (Seq<char>, TagView),
    wmode: HeaderWriteMode,
    rmode: HeaderReadMode,
    b: Seq<u8>,
    rest: Seq<u8>,
)
    requires
        wf_view(root.1),
        header_reads_back(wmode, rmode),
        enc_header_root(enc, root, wmode) == Ok::<Seq<u8>, Error>(b),
        b.len() + rest.len() <= usize::MAX,
    ensures
        match sp_header_root(enc, cfg, b + rest, rmode) {
            Ok((w, n)) => w == root && n == b.len(),
            Err((e, _)) => !root_within_limits(enc, cfg.limits, root, b) && (refused(e) || (b.len()
                > cfg.limits.max_read_bytes && truncated(e))),
        },
{
    match wmode {
        HeaderWriteMode::NoHeader => {
            law_root_roundtrip(enc, cfg, root, b, rest);
        },
        HeaderWriteMode::BedrockFileHeader => {
            if rmode == HeaderReadMode::BedrockFileHeader {
                lemma_sized_back(enc, cfg, root, BEDROCK_FILE_HEADER_MAGIC, b, rest, "bedrock_header_magic");
                lemma_sized_back(enc, cfg, root, BEDROCK_FILE_HEADER_MAGIC, b, rest, "bedrock_header_payload_length");
            } else {
                lemma_sized_back(enc, cfg, root, BEDROCK_FILE_HEADER_MAGIC, b, rest, "leveldat_storage_version");
                lemma_sized_back(enc, cfg, root, BEDROCK_FILE_HEADER_MAGIC, b, rest, "leveldat_payload_length");
            }
        },
        HeaderWriteMode::LevelDatHeader { storage_version } => {
            if rmode == HeaderReadMode::BedrockFileHeader {
                lemma_sized_back(enc, cfg, root, storage_version, b, rest, "bedrock_header_magic");
                lemma_sized_back(enc, cfg, root, storage_version, b, rest, "bedrock_header_payload_length");
            } else {
                lemma_sized_back(enc, cfg, root, storage_version, b, rest, "leveldat_storage_version");
                lemma_sized_back(enc, cfg, root, storage_version, b, rest, "leveldat_payload_length");
            }
        },
    }
}

/// The Bedrock header reader refuses a level.dat header whose storage version is
/// not the Bedrock magic, with the magic mismatch naming that version.
pub proof fn law_header_magic_mismatch(
    enc: EncodingKind,
    cfg: NbtReadConfig,
    root: (Seq<char>, TagView),
    storage_version: u32,
    b: Seq<u8>,
    rest: Seq<u8>,
)
    requires
        wf_view(root.1),
        enc_header_root(enc, root, HeaderWriteMode::LevelDatHeader { storage_version }) == Ok::<Seq<u8>, Error>(b),
        b.len() + rest.len() <= usize::MAX,
        storage_version != BEDROCK_FILE_HEADER_MAGIC,
    ensures
        sp_header_root(enc, cfg, b + rest, HeaderReadMode::BedrockFileHeader) == Err::<
            ((Seq<char>, TagView), usize),
            (Error, usize),
        >(
            (
                wrap(
                    Error::InvalidHeader {
                        detail: "bedrock_header_magic_mismatch",
                        expected: Some(BEDROCK_FILE_HEADER_MAGIC),
                        actual: Some(storage_version),
                    },
                    "validate_header_magic",
                    0,
                    Some("bedrock_header_magic"),
                ),
                4,
            ),
        ),
{
    lemma_sized_back(enc, cfg, root, storage_version, b, rest, "bedrock_header_magic");
}

/// What a decoder that wants the whole input gives for the bytes `b` of `v`
/// followed by `rest`: `v` itself when nothing follows, and the count of the
/// bytes that follow when some do; only where `fits` is false may a configured
/// limit refuse the value instead, or, where it is longer than the read budget,
/// the input end early for the reader.
pub open spec fn decodes_back<T>(r: std::result::Result<T, Error>, v: T, b: Seq<u8>, rest: Seq<u8>, cfg: NbtReadConfig, fits: bool) -> bool {
    match r {
        Ok(w) => w == v && rest.len() == 0,
        Err(e) => {
            ||| rest.len() > 0 && e == (Error::TrailingPayloadBytes { unread: rest.len() as usize })
            ||| !fits && (refused(e) || (b.len() > cfg.limits.max_read_bytes && truncated(e)))
        },
    }
}

/// A protocol adapter decodes the headless payload it encoded as that value
/// whenever it is within the limits, and refuses bytes left over after it.
pub proof fn law_adapter_headless_roundtrip(a: ProtocolNbtAdapter, v: TagView, b: Seq<u8>, rest: Seq<u8>)
    requires
        wf_view(v),
        enc_payload(protocol_kind(a.encoding), v) == Ok::<Seq<u8>, Error>(b),
        b.len() + rest.len() <= usize::MAX,
    ensures
        decodes_back(
            whole_input(
                sp_read_payload(protocol_kind(a.encoding), a.read_config, b + rest, view_type(v)),
                (b + rest).len(),
            ),
            v,
            b,
            rest,
            a.read_config,
            within_limits(protocol_kind(a.encoding), a.read_config.limits, v, b),
        ),
{
    law_payload_roundtrip(protocol_kind(a.encoding), a.read_config, v, b, rest);
}

/// A protocol adapter decodes the type id and payload it encoded as that value
/// whenever it is within the limits, and refuses bytes left over after it.
pub proof fn law_adapter_prefixed_roundtrip(a: ProtocolNbtAdapter, v: TagView, b: Seq<u8>, rest: Seq<u8>)
    requires
        wf_view(v),
        enc_prefixed(protocol_kind(a.encoding), v) == Ok::<Seq<u8>, Error>(b),
        b.len() + rest.len() <= usize::MAX,
    ensures
        decodes_back(
            whole_input(sp_prefixed(protocol_kind(a.encoding), a.read_config, b + rest), (b + rest).len()),
            v,
            b,
            rest,
            a.read_config,
            within_limits(protocol_kind(a.encoding), a.read_config.limits, v, b),
        ),
{
    law_prefixed_roundtrip(protocol_kind(a.encoding), a.read_config, v, b, rest);
}

/// A protocol adapter decodes the root it encoded as that root whenever it is
/// within the limits, and refuses bytes left over after it.
pub proof fn law_adapter_root_roundtrip(a: ProtocolNbtAdapter, root: (Seq<char>, TagView), b: Seq<u8>, rest: Seq<u8>)
    requires
        wf_view(root.1),
        enc_root(protocol_kind(a.encoding), root) == Ok::<Seq<u8>, Error>(b),
        b.len() + rest.len() <= usize::MAX,
    ensures
        decodes_back(
            whole_input(sp_root(protocol_kind(a.encoding), a.read_config, b + rest), (b + rest).len()),
            root,
            b,
            rest,
            a.read_config,
            root_within_limits(protocol_kind(a.encoding), a.read_config.limits, root, b),
        ),
{
    law_root_roundtrip(protocol_kind(a.encoding), a.read_config, root, b, rest);
}

/// A value as a reader gives it: no `End` anywhere, every list's elements of its
/// element type (and a list of `End` empty), and every compound naming each of its
/// entries once.
pub open spec fn valid_value(v: TagView) -> bool
    decreases v,
{
    match v {
        TagView::End => false,
        TagView::List(t, es) => list_type_error(t, es) is None && forall|j: int|
            0 <= j < es.len() ==> valid_value(#[trigger] es[j]),
        TagView::Compound(es) => keys_distinct(es) && forall|j: int|
            0 <= j < es.len() ==> valid_value(#[trigger] es[j].1),
        _ => true,
    }
}

proof fn lemma_i32s_count(enc: EncodingKind, s: Seq<u8>, p: usize, i: nat, n: nat, acc: Seq<i32>)
    requires
        acc.len() == i,
        i <= n,
    ensures
        sp_i32s_from(enc, s, p, i, n, acc) matches Ok((xs, _)) ==> xs.len() == n,
    decreases n - i,
{
    if i < n {
        match sp_i32(enc, s, p) {
            Ok((v, q)) => lemma_i32s_count(enc, s, q, i + 1, n, acc.push(v)),
            Err(_) => {},
        }
    }
}

proof fn lemma_i64s_count(enc: EncodingKind, s: Seq<u8>, p: usize, i: nat, n: nat, acc: Seq<i64>)
    requires
        acc.len() == i,
        i <= n,
    ensures
        sp_i64s_from(enc, s, p, i, n, acc) matches Ok((xs, _)) ==> xs.len() == n,
    decreases n - i,
{
    if i < n {
        match sp_i64(enc, s, p) {
            Ok((v, q)) => lemma_i64s_count(enc, s, q, i + 1, n, acc.push(v)),
            Err(_) => {},
        }
    }
}

/// A string the reader accepts is within the string limit.
proof fn lemma_read_string_fits(enc: EncodingKind, cfg: NbtReadConfig, s: Seq<u8>, p: usize)
    ensures
        sp_string(enc, cfg, s, p) matches Ok((t, _)) ==> encode_utf8(t).len() <= cfg.limits.max_string_len,
{
    match sp_string_len(enc, s, p) {
        Ok((len, q)) => {
            match sp_take(s, q, len) {
                Ok((b, _)) => {
                    if valid_utf8(b) {
                        decode_utf8_encode_utf8(b);
                    }
                },
                Err(_) => {},
            }
        },
        Err(_) => {},
    }
}

/// What a successful read gives: a valid value (see `valid_value`) of the type
/// asked for, within the limits at the depth it was read at, every int or long
/// array's full width within the read budget.
pub proof fn law_read_gives_valid(enc: EncodingKind, cfg: NbtReadConfig, s: Seq<u8>, p: usize, ty: TagType, depth: nat)
    requires
        depth <= cfg.limits.max_depth + 1,
    ensures
        sp_payload(enc, cfg, s, p, ty, depth) matches Ok((v, _)) ==> view_type(v) == ty && valid_value(v)
            && fits_limits(enc, cfg.limits, v, depth, cfg.limits.max_read_bytes as nat),
    decreases cfg.limits.max_depth + 1 - depth, 3int, 0int,
{
    let room = cfg.limits.max_read_bytes as nat;
    if depth <= cfg.limits.max_depth {
        match ty {
            TagType::String => {
                lemma_read_string_fits(enc, cfg, s, p);
            },
            TagType::IntArray => {
                match sp_len_i32(enc, s, p, "int_array_length") {
                    Ok((len, q)) => {
                        lemma_i32s_count(enc, s, q, 0, len as nat, Seq::empty());
                    },
                    Err(_) => {},
                }
            },
            TagType::LongArray => {
                match sp_len_i32(enc, s, p, "long_array_length") {
                    Ok((len, q)) => {
                        lemma_i64s_count(enc, s, q, 0, len as nat, Seq::empty());
                    },
                    Err(_) => {},
                }
            },
            TagType::List => {
                lemma_read_list(enc, cfg, s, p, depth);
            },
            TagType::Compound => {
                lemma_read_compound(enc, cfg, s, p, depth, 0, Seq::empty());
            },
            _ => {},
        }
    }
}

proof fn lemma_read_list(enc: EncodingKind, cfg: NbtReadConfig, s: Seq<u8>, p: usize, depth: nat)
    requires
        depth <= cfg.limits.max_depth,
    ensures
        sp_list(enc, cfg, s, p, depth) matches Ok((v, _)) ==> v is List && valid_value(v) && fits_limits(
            enc,
            cfg.limits,
            v,
            depth,
            cfg.limits.max_read_bytes as nat,
        ),
    decreases cfg.limits.max_depth + 1 - depth, 2int, 0int,
{
    match sp_tag_type(s, p) {
        Ok((et, p1)) => match sp_list_len(enc, s, p1) {
            Ok((len, q)) => {
                let n: usize = if et == TagType::End { 0 } else { len };
                if len <= cfg.limits.max_list_len {
                    lemma_read_elems(enc, cfg, s, q, et, depth, 0, n as nat, Seq::empty());
                }
            },
            Err(_) => {},
        },
        Err(_) => {},
    }
}

proof fn lemma_read_elems(
    enc: EncodingKind,
    cfg: NbtReadConfig,
    s: Seq<u8>,
    p: usize,
    et: TagType,
    depth: nat,
    i: nat,
    n: nat,
    acc: Seq<TagView>,
)
    requires
        depth <= cfg.limits.max_depth,
        i <= n,
        n <= cfg.limits.max_list_len,
        et == TagType::End ==> n == 0,
        acc.len() == i,
        forall|j: int|
            0 <= j < acc.len() ==> view_type(#[trigger] acc[j]) == et && valid_value(acc[j]) && fits_limits(
                enc,
                cfg.limits,
                acc[j],
                depth + 1,
                cfg.limits.max_read_bytes as nat,
            ),
    ensures
        sp_elems_from(enc, cfg, s, p, et, depth, i, n, acc) matches Ok((v, _)) ==> v is List && valid_value(v)
            && fits_limits(enc, cfg.limits, v, depth, cfg.limits.max_read_bytes as nat),
    decreases cfg.limits.max_depth + 1 - depth, 1int, n - i,
{
    if i < n {
        law_read_gives_valid(enc, cfg, s, p, et, depth + 1);
        match sp_payload(enc, cfg, s, p, et, depth + 1) {
            Ok((v, q)) => {
                let acc2 = acc.push(v);
                assert forall|j: int| 0 <= j < acc2.len() implies view_type(#[trigger] acc2[j]) == et
                    && valid_value(acc2[j]) && fits_limits(
                    enc,
                    cfg.limits,
                    acc2[j],
                    depth + 1,
                    cfg.limits.max_read_bytes as nat,
                ) by {
                    if j < acc.len() {
                        assert(acc2[j] == acc[j]);
                    }
                }
                lemma_read_elems(enc, cfg, s, q, et, depth, i + 1, n, acc2);
            },
            Err(_) => {},
        }
    } else {
        lemma_first_mismatch(et, acc, 0);
        let v = TagView::List(et, acc);
        assert(list_type_error(et, acc) is None);
        assert(valid_value(v));
        assert(fits_limits(enc, cfg.limits, v, depth, cfg.limits.max_read_bytes as nat));
    }
}

proof fn lemma_read_compound(
    enc: EncodingKind,
    cfg: NbtReadConfig,
    s: Seq<u8>,
    p: usize,
    depth: nat,
    count: usize,
    acc: Seq<(Seq<char>, TagView)>,
)
    requires
        depth <= cfg.limits.max_depth,
        count <= cfg.limits.max_compound_entries,
        acc.len() <= count,
        keys_distinct(acc),
        forall|j: int|
            #![trigger acc[j]]
            0 <= j < acc.len() ==> valid_value(acc[j].1) && encode_utf8(acc[j].0).len() <= cfg.limits.max_string_len
                && fits_limits(enc, cfg.limits, acc[j].1, depth + 1, cfg.limits.max_read_bytes as nat),
    ensures
        sp_compound_from(enc, cfg, s, p, depth, count, acc) matches Ok((v, _)) ==> v is Compound && valid_value(v)
            && fits_limits(enc, cfg.limits, v, depth, cfg.limits.max_read_bytes as nat),
    decreases cfg.limits.max_depth + 1 - depth, 1int, cfg.limits.max_compound_entries - count,
{
    match sp_tag_type(s, p) {
        Ok((t, q)) => {
            if t == TagType::End {
                let v = TagView::Compound(acc);
                assert(valid_value(v));
                assert(fits_limits(enc, cfg.limits, v, depth, cfg.limits.max_read_bytes as nat));
            } else if count + 1 <= cfg.limits.max_compound_entries {
                lemma_read_string_fits(enc, cfg, s, q);
                match sp_string(enc, cfg, s, q) {
                    Ok((name, q2)) => {
                        law_read_gives_valid(enc, cfg, s, q2, t, depth + 1);
                        match sp_payload(enc, cfg, s, q2, t, depth + 1) {
                            Ok((v, q3)) => {
                                let acc2 = entries_insert(acc, name, v);
                                lemma_key_index(acc, name);
                                lemma_insert_distinct(acc, name, v);
                                assert forall|j: int|
                                    #![trigger acc2[j]]
                                    0 <= j < acc2.len() implies valid_value(acc2[j].1) && encode_utf8(acc2[j].0).len()
                                    <= cfg.limits.max_string_len && fits_limits(
                                    enc,
                                    cfg.limits,
                                    acc2[j].1,
                                    depth + 1,
                                    cfg.limits.max_read_bytes as nat,
                                ) by {
                                    if j < acc.len() && j != key_index(acc, name) {
                                        assert(acc2[j] == acc[j]);
                                    } else {
                                        assert(acc2[j] == (name, v));
                                    }
                                }
                                lemma_read_compound(enc, cfg, s, q3, depth, (count + 1) as usize, acc2);
                            },
                            Err(_) => {},
                        }
                    },
                    Err(_) => {},
                }
            }
        },
        Err(_) => {},
    }
}

} // verus!
