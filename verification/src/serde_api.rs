use crate::error::{Error, Result};
use crate::text::{decimal_value, is_digit};
use crate::tag::{
    entries_insert, key_index, lemma_entries_view, lemma_key_index, lemma_tags_view, lemma_tags_view_push, list_type_error,
    tags_view, type_id, view_type, CompoundTag, ListTag, Tag, TagType, TagView,
};
use vstd::prelude::*;

verus! {

broadcast use vstd::seq::group_seq_axioms;

// ---------------------------------------------------------------------------
// The conversion contract
// ---------------------------------------------------------------------------

/// How typed values map onto NBT: `Some(x)` is written as `x`, `None` is refused,
/// a non-empty byte vector becomes a byte array, and an empty one needs the
/// [`NbtByteArray`] wrapper to be one.
#[derive(Debug, Clone, Copy, PartialEq, Eq, Structural)]
pub struct SerdeBehaviorContract {
    pub option_some_as_inner_tag: bool,
    pub option_none_rejected: bool,
    pub vec_u8_non_empty_as_byte_array: bool,
    pub empty_vec_u8_requires_wrapper: bool,
}

impl SerdeBehaviorContract {
    /// The contract that the conversions of this library keep.
    pub fn current() -> (r: Self)
        ensures
            r.option_some_as_inner_tag && r.option_none_rejected && r.vec_u8_non_empty_as_byte_array
                && r.empty_vec_u8_requires_wrapper,
    {
        SerdeBehaviorContract {
            option_some_as_inner_tag: true,
            option_none_rejected: true,
            vec_u8_non_empty_as_byte_array: true,
            empty_vec_u8_requires_wrapper: true,
        }
    }
}

/// Bytes that are always written as a byte array, empty ones included.
#[derive(Debug, PartialEq, Eq)]
pub struct NbtByteArray(pub Vec<u8>);

/// A byte array tag holding `bytes`.
pub fn to_byte_array_tag(bytes: Vec<u8>) -> (r: Tag)
    ensures
        r@ == TagView::ByteArray(bytes@),
{
    Tag::ByteArray(bytes)
}

/// The bytes of a byte array tag.
pub fn from_byte_array_tag(tag: &Tag) -> (r: Result<Vec<u8>>)
    ensures
        match tag@ {
            TagView::ByteArray(b) => r matches Ok(v) && v@ == b,
            v => r == Err::<Vec<u8>, Error>(
                Error::UnexpectedType {
                    context: "byte_array_tag_decode",
                    expected_id: type_id(TagType::ByteArray),
                    actual_id: type_id(view_type(v)),
                },
            ),
        },
{
    match tag {
        Tag::ByteArray(value) => {
            let mut out: Vec<u8> = Vec::new();
            let mut i: usize = 0;
            while i < value.len()
                invariant
                    i <= value@.len(),
                    out@ == value@.take(i as int),
                decreases value@.len() - i,
            {
                out.push(value[i]);
                proof {
                    assert(value@.take(i + 1 as int) =~= value@.take(i as int).push(value@[i as int]));
                }
                i = i + 1;
            }
            proof {
                assert(value@.take(value@.len() as int) =~= value@);
            }
            Ok(out)
        },
        other => Err(
            Error::UnexpectedType {
                context: "byte_array_tag_decode",
                expected_id: TagType::ByteArray.id(),
                actual_id: other.tag_type().id(),
            },
        ),
    }
}

// ---------------------------------------------------------------------------
// The serde data model
// ---------------------------------------------------------------------------

/// A value of the serde data model, as a serializer describes it. Floats are
/// held as their IEEE-754 bit patterns; a map holds its entries in order.
#[derive(Debug, PartialEq)]
pub enum SerdeValue {
    Bool(bool),
    U8(u8),
    U16(u16),
    U32(u32),
    U64(u64),
    I8(i8),
    I16(i16),
    I32(i32),
    I64(i64),
    F32(u32),
    F64(u64),
    Char(char),
    String(String),
    Unit,
    Option(Option<Box<SerdeValue>>),
    Newtype(Box<SerdeValue>),
    Sequence(Vec<SerdeValue>),
    Mapping(Vec<(SerdeValue, SerdeValue)>),
    Bytes(Vec<u8>),
}

/// A serde value as plain mathematical values.
pub enum SerdeView {
    Bool(bool),
    U8(u8),
    U16(u16),
    U32(u32),
    U64(u64),
    I8(i8),
    I16(i16),
    I32(i32),
    I64(i64),
    F32(u32),
    F64(u64),
    Char(char),
    String(Seq<char>),
    Unit,
    Option(Option<Box<SerdeView>>),
    Newtype(Box<SerdeView>),
    Sequence(Seq<SerdeView>),
    Mapping(Seq<(SerdeView, SerdeView)>),
    Bytes(Seq<u8>),
}

/// The mathematical value of a serde value.
pub open spec fn serde_view(v: SerdeValue) -> SerdeView
    decreases v,
{
    match v {
        SerdeValue::Bool(x) => SerdeView::Bool(x),
        SerdeValue::U8(x) => SerdeView::U8(x),
        SerdeValue::U16(x) => SerdeView::U16(x),
        SerdeValue::U32(x) => SerdeView::U32(x),
        SerdeValue::U64(x) => SerdeView::U64(x),
        SerdeValue::I8(x) => SerdeView::I8(x),
        SerdeValue::I16(x) => SerdeView::I16(x),
        SerdeValue::I32(x) => SerdeView::I32(x),
        SerdeValue::I64(x) => SerdeView::I64(x),
        SerdeValue::F32(x) => SerdeView::F32(x),
        SerdeValue::F64(x) => SerdeView::F64(x),
        SerdeValue::Char(x) => SerdeView::Char(x),
        SerdeValue::String(x) => SerdeView::String(x@),
        SerdeValue::Unit => SerdeView::Unit,
        SerdeValue::Option(None) => SerdeView::Option(None),
        SerdeValue::Option(Some(b)) => SerdeView::Option(Some(Box::new(serde_view(*b)))),
        SerdeValue::Newtype(b) => SerdeView::Newtype(Box::new(serde_view(*b))),
        SerdeValue::Sequence(vs) => SerdeView::Sequence(serde_views(vs@)),
        SerdeValue::Mapping(ps) => SerdeView::Mapping(serde_pair_views(ps@)),
        SerdeValue::Bytes(b) => SerdeView::Bytes(b@),
    }
}

/// The values of a sequence of serde values.
pub open spec fn serde_views(s: Seq<SerdeValue>) -> Seq<SerdeView>
    decreases s,
{
    if s.len() == 0 {
        Seq::empty()
    } else {
        serde_views(s.subrange(0, s.len() - 1)).push(serde_view(s[s.len() - 1]))
    }
}

/// The values of a sequence of serde key-value pairs.
pub open spec fn serde_pair_views(s: Seq<(SerdeValue, SerdeValue)>) -> Seq<(SerdeView, SerdeView)>
    decreases s,
{
    if s.len() == 0 {
        Seq::empty()
    } else {
        serde_pair_views(s.subrange(0, s.len() - 1)).push(
            (serde_view(s[s.len() - 1].0), serde_view(s[s.len() - 1].1)),
        )
    }
}

impl View for SerdeValue {
    type V = SerdeView;

    open spec fn view(&self) -> SerdeView {
        serde_view(*self)
    }
}

/// Viewing a sequence views each value in place.
pub proof fn lemma_serde_views(s: Seq<SerdeValue>)
    ensures
        serde_views(s).len() == s.len(),
        forall|i: int| 0 <= i < s.len() ==> #[trigger] serde_views(s)[i] == serde_view(s[i]),
    decreases s.len(),
{
    if s.len() > 0 {
        lemma_serde_views(s.subrange(0, s.len() - 1));
    }
}

/// Viewing pairs views each pair in place.
pub proof fn lemma_serde_pair_views(s: Seq<(SerdeValue, SerdeValue)>)
    ensures
        serde_pair_views(s).len() == s.len(),
        forall|i: int|
            0 <= i < s.len() ==> #[trigger] serde_pair_views(s)[i] == (serde_view(s[i].0), serde_view(s[i].1)),
    decreases s.len(),
{
    if s.len() > 0 {
        lemma_serde_pair_views(s.subrange(0, s.len() - 1));
    }
}

// ---------------------------------------------------------------------------
// Decimal text of integers
// ---------------------------------------------------------------------------

/// The decimal digits of `n`, most significant first, with no leading zero.
pub open spec fn digits_of(n: nat) -> Seq<char>
    decreases n,
{
    if n < 10 {
        seq![(n + 48) as char]
    } else {
        digits_of(n / 10).push(((n % 10) + 48) as char)
    }
}

/// The decimal text of `v`, with a leading `-` when it is negative.
pub open spec fn int_text(v: int) -> Seq<char> {
    if v < 0 {
        seq!['-'] + digits_of((-v) as nat)
    } else {
        digits_of(v as nat)
    }
}

/// `i64::to_string`: the decimal text of the value, `-` first when it is negative.
#[verifier::external_body]
fn i64_text(v: i64) -> (r: String)
    ensures
        r@ == int_text(v as int),
{
    v.to_string()
}

/// `u64::to_string`: the decimal text of the value.
#[verifier::external_body]
fn u64_text(v: u64) -> (r: String)
    ensures
        r@ == int_text(v as int),
{
    v.to_string()
}

/// `char::to_string`: a string of that one character.
#[verifier::external_body]
fn char_text(c: char) -> (r: String)
    ensures
        r@ == seq![c],
{
    c.to_string()
}

// ---------------------------------------------------------------------------
// From serde values to tags
// ---------------------------------------------------------------------------

/// Why a conversion failed: a serde error with its message, or another error.
pub enum Failure {
    Message(Seq<char>),
    Other(Error),
}

/// The error `e` is the failure `f`.
pub open spec fn fails_as(e: Error, f: Failure) -> bool {
    match f {
        Failure::Message(m) => e matches Error::Serde { message } && message@ == m,
        Failure::Other(x) => e == x,
    }
}

/// `r` is the outcome that `s` describes, values by their views.
pub open spec fn converts_as<T: View>(r: Result<T>, s: std::result::Result<T::V, Failure>) -> bool {
    match s {
        Ok(v) => r matches Ok(x) && x@ == v,
        Err(f) => r matches Err(e) && fails_as(e, f),
    }
}

/// Every value is a `u8`.
pub open spec fn all_u8(vs: Seq<SerdeView>) -> bool {
    forall|i: int| 0 <= i < vs.len() ==> #[trigger] vs[i] is U8
}

/// The bytes of values that are all `u8`s.
pub open spec fn u8s(vs: Seq<SerdeView>) -> Seq<u8> {
    Seq::new(vs.len(), |i: int| vs[i]->U8_0)
}

/// A signed or unsigned integer that fits an `i32`.
pub open spec fn fits_i32(v: SerdeView) -> bool {
    v is I32 || (v is U32 && v->U32_0 <= 0x7fff_ffff)
}

/// The `i32` that an integer value holds.
pub open spec fn as_i32(v: SerdeView) -> i32 {
    match v {
        SerdeView::I32(x) => x,
        SerdeView::U32(x) => x as i32,
        _ => 0,
    }
}

/// A signed or unsigned integer that fits an `i64`.
pub open spec fn fits_i64(v: SerdeView) -> bool {
    v is I64 || (v is U64 && v->U64_0 <= 0x7fff_ffff_ffff_ffff)
}

/// The `i64` that an integer value holds.
pub open spec fn as_i64(v: SerdeView) -> i64 {
    match v {
        SerdeView::I64(x) => x,
        SerdeView::U64(x) => x as i64,
        _ => 0,
    }
}

/// The text a map key stands for, if it is string-like.
pub open spec fn key_text(k: SerdeView) -> std::result::Result<Seq<char>, Failure> {
    match k {
        SerdeView::String(s) => Ok(s),
        SerdeView::Char(c) => Ok(seq![c]),
        SerdeView::Bool(b) => Ok(if b { "true"@ } else { "false"@ }),
        SerdeView::I8(x) => Ok(int_text(x as int)),
        SerdeView::I16(x) => Ok(int_text(x as int)),
        SerdeView::I32(x) => Ok(int_text(x as int)),
        SerdeView::I64(x) => Ok(int_text(x as int)),
        SerdeView::U8(x) => Ok(int_text(x as int)),
        SerdeView::U16(x) => Ok(int_text(x as int)),
        SerdeView::U32(x) => Ok(int_text(x as int)),
        SerdeView::U64(x) => Ok(int_text(x as int)),
        _ => Err(Failure::Message("map key must be string-like for NBT compound"@)),
    }
}

/// The tag a serde value becomes.
pub open spec fn sv_to_tag(v: SerdeView) -> std::result::Result<TagView, Failure>
    decreases v, 0int,
{
    match v {
        SerdeView::Bool(b) => Ok(TagView::Byte(if b { 1 } else { 0 })),
        SerdeView::I8(x) => Ok(TagView::Byte(x)),
        SerdeView::I16(x) => Ok(TagView::Short(x)),
        SerdeView::I32(x) => Ok(TagView::Int(x)),
        SerdeView::I64(x) => Ok(TagView::Long(x)),
        SerdeView::U8(x) => Ok(TagView::Short(x as i16)),
        SerdeView::U16(x) => if x <= 0x7fff {
            Ok(TagView::Short(x as i16))
        } else {
            Ok(TagView::Int(x as i32))
        },
        SerdeView::U32(x) => if x <= 0x7fff_ffff {
            Ok(TagView::Int(x as i32))
        } else {
            Ok(TagView::Long(x as i64))
        },
        SerdeView::U64(x) => if x <= 0x7fff_ffff_ffff_ffff {
            Ok(TagView::Long(x as i64))
        } else {
            Err(Failure::Message("u64 out of i64 range"@))
        },
        SerdeView::F32(b) => Ok(TagView::Float(b)),
        SerdeView::F64(b) => Ok(TagView::Double(b)),
        SerdeView::Char(c) => Ok(TagView::String(seq![c])),
        SerdeView::String(s) => Ok(TagView::String(s)),
        SerdeView::Bytes(b) => Ok(TagView::ByteArray(b)),
        SerdeView::Sequence(vs) => sv_seq_to_tag(vs),
        SerdeView::Mapping(ps) => match sv_map_from(ps, 0, Seq::empty()) {
            Ok(es) => Ok(TagView::Compound(es)),
            Err(f) => Err(f),
        },
        SerdeView::Option(None) => Err(Failure::Message("Option::None is not representable in NBT"@)),
        SerdeView::Option(Some(inner)) => sv_to_tag(*inner),
        SerdeView::Unit => Err(Failure::Message("unit values are not representable in NBT"@)),
        SerdeView::Newtype(inner) => sv_to_tag(*inner),
    }
}

/// The tag a sequence becomes: an empty list, a byte, int or long array when
/// every element fits one, else a list of the converted elements.
pub open spec fn sv_seq_to_tag(vs: Seq<SerdeView>) -> std::result::Result<TagView, Failure>
    decreases vs, vs.len() + 1,
{
    if vs.len() == 0 {
        Ok(TagView::List(TagType::End, Seq::empty()))
    } else if all_u8(vs) {
        Ok(TagView::ByteArray(u8s(vs)))
    } else if forall|i: int| 0 <= i < vs.len() ==> #[trigger] fits_i32(vs[i]) {
        Ok(TagView::IntArray(Seq::new(vs.len(), |i: int| as_i32(vs[i]))))
    } else if forall|i: int| 0 <= i < vs.len() ==> #[trigger] fits_i64(vs[i]) {
        Ok(TagView::LongArray(Seq::new(vs.len(), |i: int| as_i64(vs[i]))))
    } else {
        match sv_elems_from(vs, 0) {
            Err(f) => Err(f),
            Ok(ts) => match list_type_error(view_type(ts[0]), ts) {
                Some(e) => Err(Failure::Other(e)),
                None => Ok(TagView::List(view_type(ts[0]), ts)),
            },
        }
    }
}

/// The tags of the elements from index `i` on.
pub open spec fn sv_elems_from(vs: Seq<SerdeView>, i: int) -> std::result::Result<Seq<TagView>, Failure>
    decreases vs, vs.len() - i,
{
    if i < 0 || i >= vs.len() {
        Ok(Seq::empty())
    } else {
        match sv_to_tag(vs[i]) {
            Err(f) => Err(f),
            Ok(t) => match sv_elems_from(vs, i + 1) {
                Err(f) => Err(f),
                Ok(rest) => Ok(seq![t] + rest),
            },
        }
    }
}

/// The compound entries of map entries from index `i` on, added to `acc`.
pub open spec fn sv_map_from(ps: Seq<(SerdeView, SerdeView)>, i: int, acc: Seq<(Seq<char>, TagView)>) -> std::result::Result<Seq<(Seq<char>, TagView)>, Failure>
    decreases ps, ps.len() - i,
{
    if i < 0 || i >= ps.len() {
        Ok(acc)
    } else {
        match key_text(ps[i].0) {
            Err(f) => Err(f),
            Ok(k) => match sv_to_tag(ps[i].1) {
                Err(f) => Err(f),
                Ok(t) => sv_map_from(ps, i + 1, entries_insert(acc, k, t)),
            },
        }
    }
}

fn serde_error(message: &str) -> (r: Error)
    ensures
        r matches Error::Serde { message: m } && m@ == message@,
{
    Error::Serde { message: message.to_owned() }
}

fn serde_key_to_string(value: &SerdeValue) -> (r: Result<String>)
    ensures
        converts_as(r, key_text(value@)),
{
    match value {
        SerdeValue::String(v) => Ok(v.clone()),
        SerdeValue::Char(c) => Ok(char_text(*c)),
        SerdeValue::Bool(b) => Ok(
            if *b {
                "true".to_owned()
            } else {
                "false".to_owned()
            },
        ),
        SerdeValue::I8(v) => Ok(i64_text(*v as i64)),
        SerdeValue::I16(v) => Ok(i64_text(*v as i64)),
        SerdeValue::I32(v) => Ok(i64_text(*v as i64)),
        SerdeValue::I64(v) => Ok(i64_text(*v)),
        SerdeValue::U8(v) => Ok(u64_text(*v as u64)),
        SerdeValue::U16(v) => Ok(u64_text(*v as u64)),
        SerdeValue::U32(v) => Ok(u64_text(*v as u64)),
        SerdeValue::U64(v) => Ok(u64_text(*v)),
        _ => Err(serde_error("map key must be string-like for NBT compound")),
    }
}

/// The tag a serde value becomes.
pub fn serde_value_to_tag(value: &SerdeValue) -> (r: Result<Tag>)
    ensures
        converts_as(r, sv_to_tag(value@)),
    decreases value, 1int,
{
    match value {
        SerdeValue::Bool(v) => Ok(Tag::Byte(if *v { 1 } else { 0 })),
        SerdeValue::I8(v) => Ok(Tag::Byte(*v)),
        SerdeValue::I16(v) => Ok(Tag::Short(*v)),
        SerdeValue::I32(v) => Ok(Tag::Int(*v)),
        SerdeValue::I64(v) => Ok(Tag::Long(*v)),
        SerdeValue::U8(v) => Ok(Tag::Short(*v as i16)),
        SerdeValue::U16(v) => {
            if *v <= 0x7fff {
                Ok(Tag::Short(*v as i16))
            } else {
                Ok(Tag::Int(*v as i32))
            }
        },
        SerdeValue::U32(v) => {
            if *v <= 0x7fff_ffff {
                Ok(Tag::Int(*v as i32))
            } else {
                Ok(Tag::Long(*v as i64))
            }
        },
        SerdeValue::U64(v) => {
            if *v <= 0x7fff_ffff_ffff_ffff {
                Ok(Tag::Long(*v as i64))
            } else {
                Err(serde_error("u64 out of i64 range"))
            }
        },
        SerdeValue::F32(v) => Ok(Tag::Float(*v)),
        SerdeValue::F64(v) => Ok(Tag::Double(*v)),
        SerdeValue::Char(c) => Ok(Tag::String(char_text(*c))),
        SerdeValue::String(v) => Ok(Tag::String(v.clone())),
        SerdeValue::Bytes(b) => Ok(Tag::ByteArray(b.clone())),
        SerdeValue::Sequence(_) => serde_seq_to_tag(value),
        SerdeValue::Mapping(_) => match serde_map_to_compound(value) {
            Ok(c) => Ok(Tag::Compound(c)),
            Err(e) => Err(e),
        },
        SerdeValue::Option(None) => Err(serde_error("Option::None is not representable in NBT")),
        SerdeValue::Option(Some(inner)) => serde_value_to_tag(&**inner),
        SerdeValue::Unit => Err(serde_error("unit values are not representable in NBT")),
        SerdeValue::Newtype(inner) => serde_value_to_tag(&**inner),
    }
}

fn try_u8_seq_to_byte_array(values: &Vec<SerdeValue>) -> (r: Option<Vec<u8>>)
    ensures
        all_u8(serde_views(values@)) ==> (r matches Some(b) && b@ == u8s(serde_views(values@))),
        !all_u8(serde_views(values@)) ==> r is None,
{
    let ghost vs = serde_views(values@);
    proof {
        lemma_serde_views(values@);
    }
    let mut out: Vec<u8> = Vec::new();
    let mut i: usize = 0;
    while i < values.len()
        invariant
            i <= values@.len(),
            vs == serde_views(values@),
            vs.len() == values@.len(),
            forall|k: int| 0 <= k < vs.len() ==> #[trigger] vs[k] == values@[k]@,
            forall|k: int| 0 <= k < i ==> #[trigger] vs[k] is U8,
            out@ == u8s(vs.take(i as int)),
        decreases values@.len() - i,
    {
        match &values[i] {
            SerdeValue::U8(b) => out.push(*b),
            _ => return None,
        }
        proof {
            assert(u8s(vs.take(i + 1 as int)) =~= u8s(vs.take(i as int)).push(vs[i as int]->U8_0));
        }
        i = i + 1;
    }
    proof {
        assert(vs.take(vs.len() as int) =~= vs);
    }
    Some(out)
}

fn try_i32_seq_to_int_array(values: &Vec<SerdeValue>) -> (r: Option<Vec<i32>>)
    ensures
        (forall|i: int| 0 <= i < values@.len() ==> #[trigger] fits_i32(serde_views(values@)[i])) ==> (r matches Some(b)
            && b@ == Seq::new(values@.len(), |i: int| as_i32(serde_views(values@)[i]))),
        !(forall|i: int| 0 <= i < values@.len() ==> #[trigger] fits_i32(serde_views(values@)[i])) ==> r is None,
{
    let ghost vs = serde_views(values@);
    proof {
        lemma_serde_views(values@);
    }
    let mut out: Vec<i32> = Vec::new();
    let mut i: usize = 0;
    while i < values.len()
        invariant
            i <= values@.len(),
            vs == serde_views(values@),
            vs.len() == values@.len(),
            forall|k: int| 0 <= k < vs.len() ==> #[trigger] vs[k] == values@[k]@,
            forall|k: int| 0 <= k < i ==> #[trigger] fits_i32(vs[k]),
            out@ == Seq::new(i as nat, |k: int| as_i32(vs[k])),
        decreases values@.len() - i,
    {
        match &values[i] {
            SerdeValue::I32(v) => out.push(*v),
            SerdeValue::U32(v) => {
                if *v <= 0x7fff_ffff {
                    out.push(*v as i32);
                } else {
                    assert(!fits_i32(vs[i as int]));
                    return None;
                }
            },
            _ => {
                assert(!fits_i32(vs[i as int]));
                return None;
            },
        }
        proof {
            assert(out@ =~= Seq::new((i + 1) as nat, |k: int| as_i32(vs[k])));
        }
        i = i + 1;
    }
    Some(out)
}

fn try_i64_seq_to_long_array(values: &Vec<SerdeValue>) -> (r: Option<Vec<i64>>)
    ensures
        (forall|i: int| 0 <= i < values@.len() ==> #[trigger] fits_i64(serde_views(values@)[i])) ==> (r matches Some(b)
            && b@ == Seq::new(values@.len(), |i: int| as_i64(serde_views(values@)[i]))),
        !(forall|i: int| 0 <= i < values@.len() ==> #[trigger] fits_i64(serde_views(values@)[i])) ==> r is None,
{
    let ghost vs = serde_views(values@);
    proof {
        lemma_serde_views(values@);
    }
    let mut out: Vec<i64> = Vec::new();
    let mut i: usize = 0;
    while i < values.len()
        invariant
            i <= values@.len(),
            vs == serde_views(values@),
            vs.len() == values@.len(),
            forall|k: int| 0 <= k < vs.len() ==> #[trigger] vs[k] == values@[k]@,
            forall|k: int| 0 <= k < i ==> #[trigger] fits_i64(vs[k]),
            out@ == Seq::new(i as nat, |k: int| as_i64(vs[k])),
        decreases values@.len() - i,
    {
        match &values[i] {
            SerdeValue::I64(v) => out.push(*v),
            SerdeValue::U64(v) => {
                if *v <= 0x7fff_ffff_ffff_ffff {
                    out.push(*v as i64);
                } else {
                    assert(!fits_i64(vs[i as int]));
                    return None;
                }
            },
            _ => {
                assert(!fits_i64(vs[i as int]));
                return None;
            },
        }
        proof {
            assert(out@ =~= Seq::new((i + 1) as nat, |k: int| as_i64(vs[k])));
        }
        i = i + 1;
    }
    Some(out)
}

fn serde_seq_to_tag(value: &SerdeValue) -> (r: Result<Tag>)
    requires
        value is Sequence,
    ensures
        converts_as(r, sv_to_tag(value@)),
    decreases value, 0int,
{
    let values = match value {
        SerdeValue::Sequence(values) => values,
        _ => return Err(serde_error("unit values are not representable in NBT")),
    };
    let ghost vs = serde_views(values@);
    assert(value@ == SerdeView::Sequence(vs));
    assert(sv_to_tag(value@) == sv_seq_to_tag(vs));
    proof {
        lemma_serde_views(values@);
    }
    if values.len() == 0 {
        let empty = ListTag::empty(TagType::End);
        assert(tags_view(empty.elements@) =~= Seq::<TagView>::empty());
        return Ok(Tag::List(empty));
    }
    match try_u8_seq_to_byte_array(values) {
        Some(bytes) => return Ok(Tag::ByteArray(bytes)),
        None => {},
    }
    match try_i32_seq_to_int_array(values) {
        Some(ints) => return Ok(Tag::IntArray(ints)),
        None => {},
    }
    match try_i64_seq_to_long_array(values) {
        Some(longs) => return Ok(Tag::LongArray(longs)),
        None => {},
    }
    let mut tags: Vec<Tag> = Vec::new();
    let mut i: usize = 0;
    while i < values.len()
        invariant
            i <= values@.len(),
            vs == serde_views(values@),
            vs.len() == values@.len(),
            value@ == SerdeView::Sequence(vs),
            *value == SerdeValue::Sequence(*values),
            sv_to_tag(value@) == sv_seq_to_tag(vs),
            vs.len() > 0,
            !all_u8(vs),
            !(forall|k: int| 0 <= k < vs.len() ==> #[trigger] fits_i32(vs[k])),
            !(forall|k: int| 0 <= k < vs.len() ==> #[trigger] fits_i64(vs[k])),
            forall|k: int| 0 <= k < vs.len() ==> #[trigger] vs[k] == values@[k]@,
            sv_elems_from(vs, 0) == match sv_elems_from(vs, i as int) {
                Ok(rest) => Ok::<Seq<TagView>, Failure>(tags_view(tags@) + rest),
                Err(f) => Err(f),
            },
        decreases values@.len() - i,
    {
        let t = match serde_value_to_tag(&values[i]) {
            Ok(t) => t,
            Err(e) => return Err(e),
        };
        proof {
            lemma_tags_view_push(tags@, t);
            match sv_elems_from(vs, i + 1) {
                Ok(rest) => {
                    assert(tags_view(tags@) + (seq![t@] + rest) =~= tags_view(tags@).push(t@) + rest);
                },
                Err(_) => {},
            }
        }
        tags.push(t);
        i = i + 1;
    }
    proof {
        lemma_tags_view(tags@);
        assert(tags_view(tags@) + Seq::<TagView>::empty() =~= tags_view(tags@));
    }
    let element_type = tags[0].tag_type();
    match ListTag::new(element_type, tags) {
        Ok(list) => Ok(Tag::List(list)),
        Err(e) => Err(e),
    }
}

fn serde_map_to_compound(value: &SerdeValue) -> (r: Result<CompoundTag>)
    requires
        value is Mapping,
    ensures
        match value@ {
            SerdeView::Mapping(ps) => converts_as(r, sv_map_from(ps, 0, Seq::empty())),
            _ => false,
        },
    decreases value, 0int,
{
    let pairs = match value {
        SerdeValue::Mapping(pairs) => pairs,
        _ => return Err(serde_error("unit values are not representable in NBT")),
    };
    let ghost ps = serde_pair_views(pairs@);
    assert(value@ == SerdeView::Mapping(ps));
    proof {
        lemma_serde_pair_views(pairs@);
    }
    let mut out = CompoundTag::new();
    let mut i: usize = 0;
    while i < pairs.len()
        invariant
            i <= pairs@.len(),
            ps == serde_pair_views(pairs@),
            ps.len() == pairs@.len(),
            value@ == SerdeView::Mapping(ps),
            *value == SerdeValue::Mapping(*pairs),
            forall|k: int| 0 <= k < ps.len() ==> #[trigger] ps[k] == (pairs@[k].0@, pairs@[k].1@),
            sv_map_from(ps, 0, Seq::empty()) == sv_map_from(ps, i as int, out@),
        decreases pairs@.len() - i,
    {
        let key = match serde_key_to_string(&pairs[i].0) {
            Ok(k) => k,
            Err(e) => return Err(e),
        };
        let tag = match serde_value_to_tag(&pairs[i].1) {
            Ok(t) => t,
            Err(e) => return Err(e),
        };
        out.insert(key, tag);
        i = i + 1;
    }
    Ok(out)
}

// ---------------------------------------------------------------------------
// From tags to serde values
// ---------------------------------------------------------------------------

/// The serde value a tag becomes.
pub open spec fn tag_to_sv(t: TagView) -> std::result::Result<SerdeView, Failure>
    decreases t, 0int,
{
    match t {
        TagView::End => Err(Failure::Message("TAG_End is not representable as a typed serde value"@)),
        TagView::Byte(x) => Ok(SerdeView::I8(x)),
        TagView::Short(x) => Ok(SerdeView::I16(x)),
        TagView::Int(x) => Ok(SerdeView::I32(x)),
        TagView::Long(x) => Ok(SerdeView::I64(x)),
        TagView::Float(b) => Ok(SerdeView::F32(b)),
        TagView::Double(b) => Ok(SerdeView::F64(b)),
        TagView::ByteArray(b) => Ok(SerdeView::Sequence(Seq::new(b.len(), |i: int| SerdeView::U8(b[i])))),
        TagView::String(s) => Ok(SerdeView::String(s)),
        TagView::List(_, es) => match tags_to_sv_from(es, 0) {
            Ok(vs) => Ok(SerdeView::Sequence(vs)),
            Err(f) => Err(f),
        },
        TagView::Compound(es) => match entries_to_sv_from(es, 0) {
            Ok(ps) => Ok(SerdeView::Mapping(ps)),
            Err(f) => Err(f),
        },
        TagView::IntArray(xs) => Ok(SerdeView::Sequence(Seq::new(xs.len(), |i: int| SerdeView::I32(xs[i])))),
        TagView::LongArray(xs) => Ok(SerdeView::Sequence(Seq::new(xs.len(), |i: int| SerdeView::I64(xs[i])))),
    }
}

/// The serde values of list elements from index `i` on.
pub open spec fn tags_to_sv_from(es: Seq<TagView>, i: int) -> std::result::Result<Seq<SerdeView>, Failure>
    decreases es, es.len() - i,
{
    if i < 0 || i >= es.len() {
        Ok(Seq::empty())
    } else {
        match tag_to_sv(es[i]) {
            Err(f) => Err(f),
            Ok(v) => match tags_to_sv_from(es, i + 1) {
                Err(f) => Err(f),
                Ok(rest) => Ok(seq![v] + rest),
            },
        }
    }
}

/// The serde map entries of compound entries from index `i` on, keys as strings.
pub open spec fn entries_to_sv_from(es: Seq<(Seq<char>, TagView)>, i: int) -> std::result::Result<Seq<(SerdeView, SerdeView)>, Failure>
    decreases es, es.len() - i,
{
    if i < 0 || i >= es.len() {
        Ok(Seq::empty())
    } else {
        match tag_to_sv(es[i].1) {
            Err(f) => Err(f),
            Ok(v) => match entries_to_sv_from(es, i + 1) {
                Err(f) => Err(f),
                Ok(rest) => Ok(seq![(SerdeView::String(es[i].0), v)] + rest),
            },
        }
    }
}

/// The serde value a tag becomes.
pub fn tag_to_serde_value(tag: &Tag) -> (r: Result<SerdeValue>)
    ensures
        converts_as(r, tag_to_sv(tag@)),
    decreases tag, 1int,
{
    match tag {
        Tag::End => Err(serde_error("TAG_End is not representable as a typed serde value")),
        Tag::Byte(v) => Ok(SerdeValue::I8(*v)),
        Tag::Short(v) => Ok(SerdeValue::I16(*v)),
        Tag::Int(v) => Ok(SerdeValue::I32(*v)),
        Tag::Long(v) => Ok(SerdeValue::I64(*v)),
        Tag::Float(v) => Ok(SerdeValue::F32(*v)),
        Tag::Double(v) => Ok(SerdeValue::F64(*v)),
        Tag::ByteArray(values) => {
            let mut out: Vec<SerdeValue> = Vec::new();
            let mut i: usize = 0;
            while i < values.len()
                invariant
                    i <= values@.len(),
                    serde_views(out@) == Seq::new(i as nat, |k: int| SerdeView::U8(values@[k])),
                decreases values@.len() - i,
            {
                proof {
                    lemma_serde_views_push(out@, SerdeValue::U8(values[i as int]));
                }
                out.push(SerdeValue::U8(values[i]));
                proof {
                    assert(serde_views(out@) =~= Seq::new((i + 1) as nat, |k: int| SerdeView::U8(values@[k])));
                }
                i = i + 1;
            }
            Ok(SerdeValue::Sequence(out))
        },
        Tag::String(v) => Ok(SerdeValue::String(v.clone())),
        Tag::List(_) => list_to_serde_value(tag),
        Tag::Compound(_) => compound_to_serde_value(tag),
        Tag::IntArray(values) => {
            let mut out: Vec<SerdeValue> = Vec::new();
            let mut i: usize = 0;
            while i < values.len()
                invariant
                    i <= values@.len(),
                    serde_views(out@) == Seq::new(i as nat, |k: int| SerdeView::I32(values@[k])),
                decreases values@.len() - i,
            {
                proof {
                    lemma_serde_views_push(out@, SerdeValue::I32(values[i as int]));
                }
                out.push(SerdeValue::I32(values[i]));
                proof {
                    assert(serde_views(out@) =~= Seq::new((i + 1) as nat, |k: int| SerdeView::I32(values@[k])));
                }
                i = i + 1;
            }
            Ok(SerdeValue::Sequence(out))
        },
        Tag::LongArray(values) => {
            let mut out: Vec<SerdeValue> = Vec::new();
            let mut i: usize = 0;
            while i < values.len()
                invariant
                    i <= values@.len(),
                    serde_views(out@) == Seq::new(i as nat, |k: int| SerdeView::I64(values@[k])),
                decreases values@.len() - i,
            {
                proof {
                    lemma_serde_views_push(out@, SerdeValue::I64(values[i as int]));
                }
                out.push(SerdeValue::I64(values[i]));
                proof {
                    assert(serde_views(out@) =~= Seq::new((i + 1) as nat, |k: int| SerdeView::I64(values@[k])));
                }
                i = i + 1;
            }
            Ok(SerdeValue::Sequence(out))
        },
    }
}

/// Pushing a value pushes its view.
pub proof fn lemma_serde_views_push(s: Seq<SerdeValue>, v: SerdeValue)
    ensures
        serde_views(s.push(v)) == serde_views(s).push(serde_view(v)),
{
    assert(s.push(v).subrange(0, s.len() as int) =~= s);
}

/// Pushing a pair pushes its view.
pub proof fn lemma_serde_pair_views_push(s: Seq<(SerdeValue, SerdeValue)>, p: (SerdeValue, SerdeValue))
    ensures
        serde_pair_views(s.push(p)) == serde_pair_views(s).push((serde_view(p.0), serde_view(p.1))),
{
    assert(s.push(p).subrange(0, s.len() as int) =~= s);
}

fn list_to_serde_value(tag: &Tag) -> (r: Result<SerdeValue>)
    requires
        tag is List,
    ensures
        converts_as(r, tag_to_sv(tag@)),
    decreases tag, 0int,
{
    let list = match tag {
        Tag::List(list) => list,
        _ => return Err(serde_error("TAG_End is not representable as a typed serde value")),
    };
    let ghost es = tags_view(list.elements@);
    proof {
        lemma_tags_view(list.elements@);
    }
    assert(tag@ == TagView::List(list.element_type, es));
    let mut out: Vec<SerdeValue> = Vec::new();
    let mut i: usize = 0;
    while i < list.elements.len()
        invariant
            i <= list.elements@.len(),
            es == tags_view(list.elements@),
            es.len() == list.elements@.len(),
            *tag == Tag::List(*list),
            tag@ == TagView::List(list.element_type, es),
            forall|k: int| 0 <= k < es.len() ==> #[trigger] es[k] == list.elements@[k]@,
            tags_to_sv_from(es, 0) == match tags_to_sv_from(es, i as int) {
                Ok(rest) => Ok::<Seq<SerdeView>, Failure>(serde_views(out@) + rest),
                Err(f) => Err(f),
            },
        decreases list.elements@.len() - i,
    {
        let v = match tag_to_serde_value(&list.elements[i]) {
            Ok(v) => v,
            Err(e) => return Err(e),
        };
        proof {
            lemma_serde_views_push(out@, v);
            match tags_to_sv_from(es, i + 1) {
                Ok(rest) => {
                    assert(serde_views(out@) + (seq![v@] + rest) =~= serde_views(out@).push(v@) + rest);
                },
                Err(_) => {},
            }
        }
        out.push(v);
        i = i + 1;
    }
    proof {
        assert(serde_views(out@) + Seq::<SerdeView>::empty() =~= serde_views(out@));
    }
    Ok(SerdeValue::Sequence(out))
}

fn compound_to_serde_value(tag: &Tag) -> (r: Result<SerdeValue>)
    requires
        tag is Compound,
    ensures
        converts_as(r, tag_to_sv(tag@)),
    decreases tag, 0int,
{
    let compound = match tag {
        Tag::Compound(c) => c,
        _ => return Err(serde_error("TAG_End is not representable as a typed serde value")),
    };
    let entries = &compound.entries;
    let ghost es = compound@;
    proof {
        lemma_entries_view(entries@);
        crate::tag::lemma_compound_view(*compound);
    }
    assert(tag@ == TagView::Compound(es));
    let mut out: Vec<(SerdeValue, SerdeValue)> = Vec::new();
    let mut i: usize = 0;
    while i < entries.len()
        invariant
            i <= entries@.len(),
            es == crate::tag::entries_view(entries@),
            es.len() == entries@.len(),
            *tag == Tag::Compound(*compound),
            entries == &compound.entries,
            tag@ == TagView::Compound(es),
            forall|k: int| 0 <= k < es.len() ==> #[trigger] es[k] == (entries@[k].key@, entries@[k].value@),
            entries_to_sv_from(es, 0) == match entries_to_sv_from(es, i as int) {
                Ok(rest) => Ok::<Seq<(SerdeView, SerdeView)>, Failure>(serde_pair_views(out@) + rest),
                Err(f) => Err(f),
            },
        decreases entries@.len() - i,
    {
        assert(decreases_to!(*tag => entries[i as int].value));
        let v = match tag_to_serde_value(&entries[i].value) {
            Ok(v) => v,
            Err(e) => return Err(e),
        };
        let key = SerdeValue::String(entries[i].key.clone());
        proof {
            lemma_serde_pair_views_push(out@, (key, v));
            match entries_to_sv_from(es, i + 1) {
                Ok(rest) => {
                    assert(serde_pair_views(out@) + (seq![(key@, v@)] + rest) =~= serde_pair_views(out@).push(
                        (key@, v@),
                    ) + rest);
                },
                Err(_) => {},
            }
        }
        out.push((key, v));
        i = i + 1;
    }
    proof {
        assert(serde_pair_views(out@) + Seq::<(SerdeView, SerdeView)>::empty() =~= serde_pair_views(out@));
    }
    Ok(SerdeValue::Mapping(out))
}

/// Bytes as a sequence of serde `u8` values.
pub open spec fn byte_values(bytes: Seq<u8>) -> Seq<SerdeView> {
    Seq::new(bytes.len(), |i: int| SerdeView::U8(bytes[i]))
}

/// The conversion contract holds of the conversion: `Some(x)` becomes what `x`
/// becomes, `None` is refused, a non-empty sequence of bytes becomes a byte array,
/// an empty sequence becomes an empty list of `End`, and serde bytes (what a
/// byte-array wrapper serialises to) become a byte array, empty ones included.
pub proof fn law_serde_behavior_contract(x: SerdeView, bytes: Seq<u8>)
    ensures
        sv_to_tag(SerdeView::Option(Some(Box::new(x)))) == sv_to_tag(x),
        sv_to_tag(SerdeView::Option(None)) is Err,
        bytes.len() > 0 ==> sv_to_tag(SerdeView::Sequence(byte_values(bytes))) == Ok::<TagView, Failure>(
            TagView::ByteArray(bytes),
        ),
        sv_to_tag(SerdeView::Sequence(Seq::empty())) == Ok::<TagView, Failure>(
            TagView::List(TagType::End, Seq::empty()),
        ),
        sv_to_tag(SerdeView::Bytes(bytes)) == Ok::<TagView, Failure>(TagView::ByteArray(bytes)),
{
    let vs = byte_values(bytes);
    assert(all_u8(vs));
    assert(u8s(vs) =~= bytes);
    assert(sv_to_tag(SerdeView::Sequence(vs)) == sv_seq_to_tag(vs));
    if bytes.len() > 0 {
        assert(vs.len() > 0);
        assert(sv_seq_to_tag(vs) == Ok::<TagView, Failure>(TagView::ByteArray(u8s(vs))));
    }
    let b = Box::new(x);
    assert(sv_to_tag(SerdeView::Option(Some(b))) == sv_to_tag(*b));
    let none = Seq::<SerdeView>::empty();
    assert(sv_to_tag(SerdeView::Sequence(none)) == sv_seq_to_tag(none));
    assert(sv_seq_to_tag(none) == Ok::<TagView, Failure>(TagView::List(TagType::End, Seq::empty())));
}

// ---------------------------------------------------------------------------
// The round trip through a tag
// ---------------------------------------------------------------------------

/// What a serde value comes back as after a trip through a tag: a boolean as the
/// `i8` 0 or 1, an unsigned integer as the signed integer that holds it, a char as
/// a string, serde bytes as a sequence of `u8`s, an option or newtype as what it
/// holds, a sequence of integers that became an array as the array's integers, and
/// a map with its keys as their text, a repeated key's last value in its first place.
pub open spec fn widen(v: SerdeView) -> SerdeView
    decreases v, 0int,
{
    match v {
        SerdeView::Bool(b) => SerdeView::I8(if b { 1 } else { 0 }),
        SerdeView::U8(x) => SerdeView::I16(x as i16),
        SerdeView::U16(x) => if x <= 0x7fff {
            SerdeView::I16(x as i16)
        } else {
            SerdeView::I32(x as i32)
        },
        SerdeView::U32(x) => if x <= 0x7fff_ffff {
            SerdeView::I32(x as i32)
        } else {
            SerdeView::I64(x as i64)
        },
        SerdeView::U64(x) => SerdeView::I64(x as i64),
        SerdeView::Char(c) => SerdeView::String(seq![c]),
        SerdeView::Bytes(b) => SerdeView::Sequence(Seq::new(b.len(), |i: int| SerdeView::U8(b[i]))),
        SerdeView::Option(Some(inner)) => widen(*inner),
        SerdeView::Newtype(inner) => widen(*inner),
        SerdeView::Sequence(vs) => SerdeView::Sequence(widen_seq(vs)),
        SerdeView::Mapping(ps) => SerdeView::Mapping(text_keys(widen_map_from(ps, 0, Seq::empty()))),
        _ => v,
    }
}

/// What the elements of a sequence come back as.
pub open spec fn widen_seq(vs: Seq<SerdeView>) -> Seq<SerdeView>
    decreases vs, vs.len() + 1,
{
    if vs.len() == 0 {
        Seq::empty()
    } else if all_u8(vs) {
        vs
    } else if forall|i: int| 0 <= i < vs.len() ==> #[trigger] fits_i32(vs[i]) {
        Seq::new(vs.len(), |i: int| SerdeView::I32(as_i32(vs[i])))
    } else if forall|i: int| 0 <= i < vs.len() ==> #[trigger] fits_i64(vs[i]) {
        Seq::new(vs.len(), |i: int| SerdeView::I64(as_i64(vs[i])))
    } else {
        widen_from(vs, 0)
    }
}

/// What the elements from index `i` on come back as, one by one.
pub open spec fn widen_from(vs: Seq<SerdeView>, i: int) -> Seq<SerdeView>
    decreases vs, vs.len() - i,
{
    if i < 0 || i >= vs.len() {
        Seq::empty()
    } else {
        seq![widen(vs[i])] + widen_from(vs, i + 1)
    }
}

/// The map entries from index `i` on, keys as their text and values as they come
/// back, added to `acc`.
pub open spec fn widen_map_from(ps: Seq<(SerdeView, SerdeView)>, i: int, acc: Seq<(Seq<char>, SerdeView)>) -> Seq<(Seq<char>, SerdeView)>
    decreases ps, ps.len() - i,
{
    if i < 0 || i >= ps.len() {
        acc
    } else {
        widen_map_from(ps, i + 1, entries_insert(acc, key_text(ps[i].0)->Ok_0, widen(ps[i].1)))
    }
}

/// Map entries with each key as a serde string.
pub open spec fn text_keys(es: Seq<(Seq<char>, SerdeView)>) -> Seq<(SerdeView, SerdeView)> {
    Seq::new(es.len(), |j: int| (SerdeView::String(es[j].0), es[j].1))
}

/// Compound entries with each value as the serde value it becomes.
spec fn entry_values(es: Seq<(Seq<char>, TagView)>) -> Seq<(Seq<char>, SerdeView)> {
    Seq::new(es.len(), |j: int| (es[j].0, tag_to_sv(es[j].1)->Ok_0))
}

/// Every value of the compound entries becomes a serde value.
spec fn entry_values_ok(es: Seq<(Seq<char>, TagView)>) -> bool {
    forall|j: int| 0 <= j < es.len() ==> #[trigger] tag_to_sv(es[j].1) is Ok
}

proof fn lemma_key_index_same_keys<A, B>(a: Seq<(Seq<char>, A)>, b: Seq<(Seq<char>, B)>, k: Seq<char>)
    requires
        a.len() == b.len(),
        forall|j: int| 0 <= j < a.len() ==> #[trigger] a[j].0 == b[j].0,
    ensures
        key_index(a, k) == key_index(b, k),
    decreases a.len(),
{
    if a.len() > 0 {
        let a1 = a.subrange(1, a.len() as int);
        let b1 = b.subrange(1, b.len() as int);
        assert forall|j: int| 0 <= j < a1.len() implies #[trigger] a1[j].0 == b1[j].0 by {
            assert(a1[j] == a[j + 1]);
            assert(b1[j] == b[j + 1]);
        }
        lemma_key_index_same_keys(a1, b1, k);
        assert(a[0].0 == b[0].0);
    }
}

proof fn lemma_tags_shift(t: TagView, r: Seq<TagView>, j: int)
    requires
        0 <= j <= r.len(),
    ensures
        tags_to_sv_from(seq![t] + r, j + 1) == tags_to_sv_from(r, j),
    decreases r.len() - j,
{
    if j < r.len() {
        assert((seq![t] + r)[j + 1] == r[j]);
        lemma_tags_shift(t, r, j + 1);
    }
}

proof fn lemma_entries_to_sv(es: Seq<(Seq<char>, TagView)>, j: int)
    requires
        0 <= j <= es.len(),
        entry_values_ok(es),
    ensures
        entries_to_sv_from(es, j) == Ok::<Seq<(SerdeView, SerdeView)>, Failure>(
            text_keys(entry_values(es)).subrange(j, es.len() as int),
        ),
    decreases es.len() - j,
{
    if j < es.len() {
        lemma_entries_to_sv(es, j + 1);
        assert(tag_to_sv(es[j].1) is Ok);
        let all = text_keys(entry_values(es));
        assert(all.subrange(j, es.len() as int) =~= seq![all[j]] + all.subrange(j + 1, es.len() as int));
    } else {
        assert(text_keys(entry_values(es)).subrange(j, es.len() as int) =~= Seq::<(SerdeView, SerdeView)>::empty());
    }
}

proof fn lemma_widen(v: SerdeView)
    ensures
        sv_to_tag(v) matches Ok(t) ==> tag_to_sv(t) == Ok::<SerdeView, Failure>(widen(v)),
    decreases v, 0int,
{
    match v {
        SerdeView::Bytes(b) => {},
        SerdeView::Option(Some(inner)) => {
            lemma_widen(*inner);
        },
        SerdeView::Newtype(inner) => {
            lemma_widen(*inner);
        },
        SerdeView::Sequence(vs) => {
            lemma_widen_seq(vs);
        },
        SerdeView::Mapping(ps) => {
            assert(entry_values(Seq::<(Seq<char>, TagView)>::empty()) =~= Seq::<(Seq<char>, SerdeView)>::empty());
            lemma_widen_map(ps, 0, Seq::empty(), Seq::empty());
            match sv_map_from(ps, 0, Seq::empty()) {
                Ok(es) => {
                    lemma_entries_to_sv(es, 0);
                    assert(text_keys(entry_values(es)).subrange(0, es.len() as int) =~= text_keys(entry_values(es)));
                },
                Err(_) => {},
            }
        },
        _ => {},
    }
}

proof fn lemma_widen_seq(vs: Seq<SerdeView>)
    ensures
        sv_seq_to_tag(vs) matches Ok(t) ==> tag_to_sv(t) == Ok::<SerdeView, Failure>(SerdeView::Sequence(widen_seq(vs))),
    decreases vs, vs.len() + 1,
{
    if vs.len() == 0 {
    } else if all_u8(vs) {
        let b = u8s(vs);
        assert(Seq::new(b.len(), |i: int| SerdeView::U8(b[i])) =~= vs) by {
            assert forall|i: int| 0 <= i < vs.len() implies #[trigger] vs[i] == SerdeView::U8(b[i]) by {
                assert(vs[i] is U8);
            }
        }
    } else if forall|i: int| 0 <= i < vs.len() ==> #[trigger] fits_i32(vs[i]) {
        let xs = Seq::new(vs.len(), |i: int| as_i32(vs[i]));
        assert(Seq::new(xs.len(), |i: int| SerdeView::I32(xs[i])) =~= Seq::new(
            vs.len(),
            |i: int| SerdeView::I32(as_i32(vs[i])),
        ));
    } else if forall|i: int| 0 <= i < vs.len() ==> #[trigger] fits_i64(vs[i]) {
        let xs = Seq::new(vs.len(), |i: int| as_i64(vs[i]));
        assert(Seq::new(xs.len(), |i: int| SerdeView::I64(xs[i])) =~= Seq::new(
            vs.len(),
            |i: int| SerdeView::I64(as_i64(vs[i])),
        ));
    } else {
        lemma_widen_elems(vs, 0);
    }
}

proof fn lemma_widen_elems(vs: Seq<SerdeView>, i: int)
    requires
        0 <= i <= vs.len(),
    ensures
        sv_elems_from(vs, i) matches Ok(ts) ==> tags_to_sv_from(ts, 0) == Ok::<Seq<SerdeView>, Failure>(
            widen_from(vs, i),
        ),
    decreases vs, vs.len() - i,
{
    if i < vs.len() {
        lemma_widen(vs[i]);
        lemma_widen_elems(vs, i + 1);
        match sv_to_tag(vs[i]) {
            Ok(t) => match sv_elems_from(vs, i + 1) {
                Ok(rest) => {
                    let ts = seq![t] + rest;
                    assert(ts[0] == t);
                    lemma_tags_shift(t, rest, 0);
                },
                Err(_) => {},
            },
            Err(_) => {},
        }
    }
}

proof fn lemma_widen_map(
    ps: Seq<(SerdeView, SerdeView)>,
    i: int,
    acc_t: Seq<(Seq<char>, TagView)>,
    acc_s: Seq<(Seq<char>, SerdeView)>,
)
    requires
        0 <= i <= ps.len(),
        entry_values_ok(acc_t),
        acc_s == entry_values(acc_t),
    ensures
        sv_map_from(ps, i, acc_t) matches Ok(es) ==> entry_values_ok(es) && widen_map_from(ps, i, acc_s)
            == entry_values(es),
    decreases ps, ps.len() - i,
{
    if i < ps.len() {
        lemma_widen(ps[i].1);
        match key_text(ps[i].0) {
            Ok(k) => match sv_to_tag(ps[i].1) {
                Ok(t) => {
                    let w = widen(ps[i].1);
                    let acc_t2 = entries_insert(acc_t, k, t);
                    let acc_s2 = entries_insert(acc_s, k, w);
                    lemma_key_index_same_keys(acc_t, acc_s, k);
                    lemma_key_index(acc_t, k);
                    assert(acc_s2 =~= entry_values(acc_t2));
                    assert(entry_values_ok(acc_t2)) by {
                        assert forall|j: int| 0 <= j < acc_t2.len() implies #[trigger] tag_to_sv(acc_t2[j].1) is Ok by {
                            if j < acc_t.len() && j != key_index(acc_t, k) {
                                assert(acc_t2[j] == acc_t[j]);
                            }
                        }
                    }
                    lemma_widen_map(ps, i + 1, acc_t2, acc_s2);
                },
                Err(_) => {},
            },
            Err(_) => {},
        }
    }
}

/// Converting a serde value to a tag and back gives the value as `widen` says it
/// comes back, whenever the value converts to a tag at all.
pub proof fn law_serde_roundtrip(v: SerdeView)
    requires
        sv_to_tag(v) is Ok,
    ensures
        tag_to_sv(sv_to_tag(v)->Ok_0) == Ok::<SerdeView, Failure>(widen(v)),
{
    lemma_widen(v);
}

/// Decimal digits with no leading zero: at least one digit, and a first digit
/// other than `0` unless it is the only one.
pub open spec fn plain_decimal(d: Seq<char>) -> bool {
    &&& d.len() >= 1
    &&& forall|i: int| 0 <= i < d.len() ==> is_digit(#[trigger] d[i])
    &&& d.len() > 1 ==> d[0] != '0'
}

/// The integer that an integer serde value holds.
pub open spec fn int_value(k: SerdeView) -> int {
    match k {
        SerdeView::I8(x) => x as int,
        SerdeView::I16(x) => x as int,
        SerdeView::I32(x) => x as int,
        SerdeView::I64(x) => x as int,
        SerdeView::U8(x) => x as int,
        SerdeView::U16(x) => x as int,
        SerdeView::U32(x) => x as int,
        SerdeView::U64(x) => x as int,
        _ => 0,
    }
}

proof fn lemma_digits_of(n: nat)
    ensures
        plain_decimal(digits_of(n)),
        decimal_value(digits_of(n)) == n,
    decreases n,
{
    if n < 10 {
        let d = digits_of(n);
        assert(d.drop_last() =~= Seq::<char>::empty());
        assert(d[0] == (n + 48) as char);
        assert(((n + 48) as char) as nat == n + 48);
        assert(d.last() == d[0]);
        assert(decimal_value(d) == decimal_value(d.drop_last()) * 10 + (d.last() as nat - 48) as nat);
        assert(decimal_value(d) == n);
        assert(is_digit(d[0]));
        assert(plain_decimal(d));
    } else {
        lemma_digits_of(n / 10);
        let d = digits_of(n / 10);
        let c = ((n % 10) + 48) as char;
        assert(c as nat == (n % 10) + 48);
        let e = d.push(c);
        assert(e.drop_last() =~= d);
        assert(e.last() == c);
        assert(forall|i: int| 0 <= i < e.len() ==> is_digit(#[trigger] e[i])) by {
            assert forall|i: int| 0 <= i < e.len() implies is_digit(#[trigger] e[i]) by {
                if i < d.len() {
                    assert(e[i] == d[i]);
                }
            }
        }
        assert(e[0] == d[0]);
        if d.len() == 1 {
            assert(decimal_value(d.drop_last()) == 0) by {
                assert(d.drop_last() =~= Seq::<char>::empty());
            }
            assert(d[0] != '0');
        }
        assert(n == (n / 10) * 10 + n % 10);
        assert(decimal_value(e) == decimal_value(e.drop_last()) * 10 + (e.last() as nat - 48) as nat);
        assert(decimal_value(e) == n);
        assert(plain_decimal(e));
    }
}

/// An integer map key becomes its decimal text: a `-` and the digits of its
/// magnitude when it is negative, else its digits, in either case with no
/// leading zero.
pub proof fn law_integer_keys_are_decimal(k: SerdeView)
    requires
        k is I8 || k is I16 || k is I32 || k is I64 || k is U8 || k is U16 || k is U32 || k is U64,
    ensures
        key_text(k) is Ok,
        int_value(k) < 0 ==> ({
            let s = key_text(k)->Ok_0;
            &&& s.len() >= 2
            &&& s[0] == '-'
            &&& plain_decimal(s.skip(1))
            &&& decimal_value(s.skip(1)) == -int_value(k)
        }),
        int_value(k) >= 0 ==> plain_decimal(key_text(k)->Ok_0) && decimal_value(key_text(k)->Ok_0)
            == int_value(k),
{
    let x = int_value(k);
    assert(key_text(k) == Ok::<Seq<char>, Failure>(int_text(x)));
    if x < 0 {
        lemma_digits_of((-x) as nat);
        let s = int_text(x);
        assert(s.skip(1) =~= digits_of((-x) as nat));
    } else {
        lemma_digits_of(x as nat);
    }
}

} // verus!
