use crate::tag::{
    entries_view, key_index, keys_distinct, lemma_compound_view, lemma_key_index, view_type, lemma_entries_view, lemma_tags_view, tag_view,
    CompoundTag, Tag,
    TagView,
};
use crate::text::str_eq;
use vstd::prelude::*;
use vstd::std_specs::cmp::PartialEqSpecImpl;

verus! {

broadcast use vstd::seq::group_seq_axioms;

/// An `f32` bit pattern is a NaN: all exponent bits set, and a mantissa.
pub open spec fn f32_is_nan(a: u32) -> bool {
    (a & 0x7f80_0000u32) == 0x7f80_0000u32 && (a & 0x007f_ffffu32) != 0
}

/// An `f64` bit pattern is a NaN: all exponent bits set, and a mantissa.
pub open spec fn f64_is_nan(a: u64) -> bool {
    (a & 0x7ff0_0000_0000_0000u64) == 0x7ff0_0000_0000_0000u64 && (a & 0x000f_ffff_ffff_ffffu64) != 0
}

/// IEEE-754 equality of two `f32` bit patterns: no NaN equals anything, the two
/// zeros are equal, and other values are equal when their bits are.
pub open spec fn f32_bits_eq(a: u32, b: u32) -> bool {
    !f32_is_nan(a) && !f32_is_nan(b) && (a == b || ((a & 0x7fff_ffffu32) == 0 && (b & 0x7fff_ffffu32)
        == 0))
}

/// IEEE-754 equality of two `f64` bit patterns.
pub open spec fn f64_bits_eq(a: u64, b: u64) -> bool {
    !f64_is_nan(a) && !f64_is_nan(b) && (a == b || ((a & 0x7fff_ffff_ffff_ffffu64) == 0 && (b
        & 0x7fff_ffff_ffff_ffffu64) == 0))
}

/// Equality of tag values: floats as IEEE-754 numbers, lists element by element,
/// and compounds as maps, whatever the order of their entries.
pub open spec fn tag_eq(a: TagView, b: TagView) -> bool
    decreases a,
{
    match a {
        TagView::End => b is End,
        TagView::Byte(x) => b matches TagView::Byte(y) && x == y,
        TagView::Short(x) => b matches TagView::Short(y) && x == y,
        TagView::Int(x) => b matches TagView::Int(y) && x == y,
        TagView::Long(x) => b matches TagView::Long(y) && x == y,
        TagView::Float(x) => b matches TagView::Float(y) && f32_bits_eq(x, y),
        TagView::Double(x) => b matches TagView::Double(y) && f64_bits_eq(x, y),
        TagView::ByteArray(x) => b matches TagView::ByteArray(y) && x == y,
        TagView::String(x) => b matches TagView::String(y) && x == y,
        TagView::IntArray(x) => b matches TagView::IntArray(y) && x == y,
        TagView::LongArray(x) => b matches TagView::LongArray(y) && x == y,
        TagView::List(t, xs) => match b {
            TagView::List(u, ys) => t == u && xs.len() == ys.len() && forall|i: int|
                0 <= i < xs.len() ==> tag_eq(#[trigger] xs[i], ys[i]),
            _ => false,
        },
        TagView::Compound(xs) => match b {
            TagView::Compound(ys) => compound_eq(xs, ys),
            _ => false,
        },
    }
}

/// Equality of compound entries as maps: as many entries, and each entry of `xs`
/// has an equal value under its name in `ys`.
pub open spec fn compound_eq(xs: Seq<(Seq<char>, TagView)>, ys: Seq<(Seq<char>, TagView)>) -> bool
    decreases xs,
{
    xs.len() == ys.len() && forall|i: int|
        #![trigger xs[i]]
        0 <= i < xs.len() ==> key_index(ys, xs[i].0) >= 0 && tag_eq(xs[i].1, ys[key_index(ys, xs[i].0)].1)
}

fn f32_equal(a: u32, b: u32) -> (r: bool)
    ensures
        r == f32_bits_eq(a, b),
{
    let a_nan = (a & 0x7f80_0000u32) == 0x7f80_0000u32 && (a & 0x007f_ffffu32) != 0;
    let b_nan = (b & 0x7f80_0000u32) == 0x7f80_0000u32 && (b & 0x007f_ffffu32) != 0;
    !a_nan && !b_nan && (a == b || ((a & 0x7fff_ffffu32) == 0 && (b & 0x7fff_ffffu32) == 0))
}

fn f64_equal(a: u64, b: u64) -> (r: bool)
    ensures
        r == f64_bits_eq(a, b),
{
    let a_nan = (a & 0x7ff0_0000_0000_0000u64) == 0x7ff0_0000_0000_0000u64 && (a & 0x000f_ffff_ffff_ffffu64)
        != 0;
    let b_nan = (b & 0x7ff0_0000_0000_0000u64) == 0x7ff0_0000_0000_0000u64 && (b & 0x000f_ffff_ffff_ffffu64)
        != 0;
    !a_nan && !b_nan && (a == b || ((a & 0x7fff_ffff_ffff_ffffu64) == 0 && (b & 0x7fff_ffff_ffff_ffffu64)
        == 0))
}

fn bytes_equal(a: &Vec<u8>, b: &Vec<u8>) -> (r: bool)
    ensures
        r == (a@ == b@),
{
    if a.len() != b.len() {
        return false;
    }
    let mut i: usize = 0;
    while i < a.len()
        invariant
            a@.len() == b@.len(),
            i <= a@.len(),
            forall|j: int| 0 <= j < i ==> a@[j] == b@[j],
        decreases a@.len() - i,
    {
        if a[i] != b[i] {
            return false;
        }
        i = i + 1;
    }
    assert(a@ =~= b@);
    true
}

fn ints_equal(a: &Vec<i32>, b: &Vec<i32>) -> (r: bool)
    ensures
        r == (a@ == b@),
{
    if a.len() != b.len() {
        return false;
    }
    let mut i: usize = 0;
    while i < a.len()
        invariant
            a@.len() == b@.len(),
            i <= a@.len(),
            forall|j: int| 0 <= j < i ==> a@[j] == b@[j],
        decreases a@.len() - i,
    {
        if a[i] != b[i] {
            return false;
        }
        i = i + 1;
    }
    assert(a@ =~= b@);
    true
}

fn longs_equal(a: &Vec<i64>, b: &Vec<i64>) -> (r: bool)
    ensures
        r == (a@ == b@),
{
    if a.len() != b.len() {
        return false;
    }
    let mut i: usize = 0;
    while i < a.len()
        invariant
            a@.len() == b@.len(),
            i <= a@.len(),
            forall|j: int| 0 <= j < i ==> a@[j] == b@[j],
        decreases a@.len() - i,
    {
        if a[i] != b[i] {
            return false;
        }
        i = i + 1;
    }
    assert(a@ =~= b@);
    true
}

/// Decides `tag_eq` of two tags.
pub fn tag_equal(a: &Tag, b: &Tag) -> (r: bool)
    ensures
        r == tag_eq(a@, b@),
    decreases a, 1int,
{
    match a {
        Tag::End => match b {
            Tag::End => true,
            _ => false,
        },
        Tag::Byte(x) => match b {
            Tag::Byte(y) => *x == *y,
            _ => false,
        },
        Tag::Short(x) => match b {
            Tag::Short(y) => *x == *y,
            _ => false,
        },
        Tag::Int(x) => match b {
            Tag::Int(y) => *x == *y,
            _ => false,
        },
        Tag::Long(x) => match b {
            Tag::Long(y) => *x == *y,
            _ => false,
        },
        Tag::Float(x) => match b {
            Tag::Float(y) => f32_equal(*x, *y),
            _ => false,
        },
        Tag::Double(x) => match b {
            Tag::Double(y) => f64_equal(*x, *y),
            _ => false,
        },
        Tag::ByteArray(x) => match b {
            Tag::ByteArray(y) => bytes_equal(x, y),
            _ => false,
        },
        Tag::String(x) => match b {
            Tag::String(y) => str_eq(x.as_str(), y.as_str()),
            _ => false,
        },
        Tag::IntArray(x) => match b {
            Tag::IntArray(y) => ints_equal(x, y),
            _ => false,
        },
        Tag::LongArray(x) => match b {
            Tag::LongArray(y) => longs_equal(x, y),
            _ => false,
        },
        Tag::List(xl) => match b {
            Tag::List(yl) => {
                proof {
                    lemma_tags_view(xl.elements@);
                    lemma_tags_view(yl.elements@);
                }
                if xl.element_type != yl.element_type || xl.elements.len() != yl.elements.len() {
                    return false;
                }
                let ghost xs = a@->List_1;
                let ghost ys = b@->List_1;
                let mut i: usize = 0;
                while i < xl.elements.len()
                    invariant
                        i <= xl.elements@.len(),
                        xl.elements@.len() == yl.elements@.len(),
                        *a == Tag::List(*xl),
                        *b == Tag::List(*yl),
                        xs.len() == xl.elements@.len(),
                        ys.len() == yl.elements@.len(),
                        a@ == TagView::List(xl.element_type, xs),
                        b@ == TagView::List(yl.element_type, ys),
                        xl.element_type == yl.element_type,
                        forall|j: int| 0 <= j < xs.len() ==> #[trigger] xs[j] == tag_view(xl.elements@[j]),
                        forall|j: int| 0 <= j < ys.len() ==> #[trigger] ys[j] == tag_view(yl.elements@[j]),
                        forall|j: int| 0 <= j < i ==> tag_eq(#[trigger] xs[j], ys[j]),
                    decreases xl.elements@.len() - i,
                {
                    assert(decreases_to!(*a => xl.elements@[i as int]));
                    if !tag_equal(&xl.elements[i], &yl.elements[i]) {
                        assert(!tag_eq(xs[i as int], ys[i as int]));
                        return false;
                    }
                    i = i + 1;
                }
                true
            },
            _ => false,
        },
        Tag::Compound(xc) => match b {
            Tag::Compound(yc) => {
                assert(decreases_to!(*a => *xc));
                compound_equal(xc, yc)
            },
            _ => false,
        },
    }
}

/// Decides `compound_eq` of two compounds.
pub fn compound_equal(x: &CompoundTag, y: &CompoundTag) -> (r: bool)
    ensures
        r == compound_eq(x@, y@),
    decreases x, 0int,
{
    let xe = &x.entries;
    proof {
        lemma_compound_view(*x);
        lemma_entries_view(xe@);
    }
    if xe.len() != y.len() {
        return false;
    }
    let ghost xs = x@;
    let ghost ys = y@;
    let mut i: usize = 0;
    while i < xe.len()
        invariant
            i <= xe@.len(),
            xs == x@,
            ys == y@,
            xs == entries_view(xe@),
            xs.len() == xe@.len(),
            xs.len() == ys.len(),
            xe@ == x.entries@,
            forall|j: int| 0 <= j < xs.len() ==> #[trigger] xs[j] == (xe@[j].key@, tag_view(xe@[j].value)),
            forall|j: int|
                #![trigger xs[j]]
                0 <= j < i ==> key_index(ys, xs[j].0) >= 0 && tag_eq(xs[j].1, ys[key_index(ys, xs[j].0)].1),
        decreases xe@.len() - i,
    {
        let entry = &xe[i];
        assert(xs[i as int] == (entry.key@, entry.value@));
        match y.get(entry.key.as_str()) {
            None => {
                return false;
            },
            Some(v) => {
                assert(decreases_to!(*x => x.entries@[i as int].value));
                if !tag_equal(&entry.value, v) {
                    return false;
                }
            },
        }
        i = i + 1;
    }
    true
}

impl PartialEq for Tag {
    fn eq(&self, other: &Self) -> (r: bool) {
        tag_equal(self, other)
    }
}

impl PartialEqSpecImpl for Tag {
    open spec fn obeys_eq_spec() -> bool {
        true
    }

    open spec fn eq_spec(&self, other: &Tag) -> bool {
        tag_eq(self@, other@)
    }
}

impl PartialEq for CompoundTag {
    fn eq(&self, other: &Self) -> (r: bool) {
        compound_equal(self, other)
    }
}

impl PartialEqSpecImpl for CompoundTag {
    open spec fn obeys_eq_spec() -> bool {
        true
    }

    open spec fn eq_spec(&self, other: &CompoundTag) -> bool {
        compound_eq(self@, other@)
    }
}

/// Equal compounds hold equal values: every name of one is a name of the other,
/// and the values under it are equal.
pub proof fn law_equal_compounds_hold_equal_values(
    xs: Seq<(Seq<char>, TagView)>,
    ys: Seq<(Seq<char>, TagView)>,
    k: Seq<char>,
)
    requires
        compound_eq(xs, ys),
        key_index(xs, k) >= 0,
    ensures
        key_index(ys, k) >= 0,
        tag_eq(xs[key_index(xs, k)].1, ys[key_index(ys, k)].1),
{
    lemma_key_index(xs, k);
    let i = key_index(xs, k);
    assert(xs[i].0 == k);
}

/// Equal compounds have the same names: as many entries, and every name of either
/// is a name of the other.
pub proof fn law_equal_compounds_same_names(
    xs: Seq<(Seq<char>, TagView)>,
    ys: Seq<(Seq<char>, TagView)>,
    k: Seq<char>,
)
    requires
        compound_eq(xs, ys),
        keys_distinct(xs),
        keys_distinct(ys),
    ensures
        xs.len() == ys.len(),
        key_index(xs, k) >= 0 ==> key_index(ys, k) >= 0,
{
    if key_index(xs, k) >= 0 {
        law_equal_compounds_hold_equal_values(xs, ys, k);
    }
}

/// Equality of tags that are neither floats nor lists nor compounds is equality of
/// their contents: equal tags of these kinds are the same value.
pub proof fn law_plain_tags_equal_exactly(a: TagView, b: TagView)
    requires
        !(a is Float || a is Double || a is List || a is Compound),
    ensures
        tag_eq(a, b) <==> a == b,
{
}

/// Equal tags have the same type.
pub proof fn law_equal_tags_same_type(a: TagView, b: TagView)
    requires
        tag_eq(a, b),
    ensures
        view_type(a) == view_type(b),
{
}

} // verus!
