use crate::config::ParseMode;
use crate::error::{Error, Result};
use crate::root::RootTag;
use crate::tag::{
    key_index, lemma_entries_view, lemma_tags_view, type_id, view_type, CompoundTag, ListTag, Tag,
    TagType, TagView,
};
use crate::text::{parse_usize, parsed_usize};
use vstd::prelude::*;

verus! {

broadcast use vstd::seq::group_seq_axioms;

// ---------------------------------------------------------------------------
// Cell indices in ZYX order
// ---------------------------------------------------------------------------

/// The shape error with the given detail.
pub open spec fn shape(detail: &'static str) -> Error {
    Error::InvalidStructureShape { detail }
}

/// The error for an arithmetic result that does not fit a `usize`.
pub open spec fn too_large(field: &'static str) -> Error {
    Error::LengthOverflow { field, max: usize::MAX, actual: usize::MAX }
}

/// Whether the number of cells of a structure of size `s` fits a `usize`, each
/// partial product included.
pub open spec fn volume_fits(s: Seq<usize>) -> bool {
    s[0] * s[1] <= usize::MAX && s[0] * s[1] * s[2] <= usize::MAX
}

/// The number of cells of a structure of size `s`.
pub open spec fn zyx_volume(s: Seq<usize>) -> std::result::Result<usize, Error> {
    if volume_fits(s) {
        Ok((s[0] * s[1] * s[2]) as usize)
    } else {
        Err(too_large("mcstructure_volume"))
    }
}

/// The flat index of cell `(x, y, z)`: `z` varies fastest, then `y`, then `x`.
pub open spec fn flat_of(s: Seq<usize>, x: int, y: int, z: int) -> int {
    (x * s[1] + y) * s[2] + z
}

/// The flat index of cell `(x, y, z)` in a structure of size `s`, z fastest, then y, then x.
pub open spec fn zyx_flatten(s: Seq<usize>, x: usize, y: usize, z: usize) -> std::result::Result<usize, Error> {
    if x >= s[0] || y >= s[1] || z >= s[2] {
        Err(shape("mcstructure_coordinate_out_of_bounds"))
    } else if flat_of(s, x as int, y as int, z as int) > usize::MAX {
        Err(too_large("mcstructure_flatten_index"))
    } else {
        Ok(flat_of(s, x as int, y as int, z as int) as usize)
    }
}

/// The cell whose flat index is `flat` in a structure of size `s`.
pub open spec fn zyx_unflatten(s: Seq<usize>, flat: usize) -> std::result::Result<(usize, usize, usize), Error> {
    match zyx_volume(s) {
        Err(e) => Err(e),
        Ok(v) => if flat >= v {
            Err(shape("mcstructure_flat_index_out_of_bounds"))
        } else {
            let f = flat as int;
            let c = s[2] as int;
            let yz = s[1] * c;
            Ok(((f / yz) as usize, ((f % yz) / c) as usize, ((f % yz) % c) as usize))
        },
    }
}

fn checked_volume(size: [usize; 3]) -> (r: Result<usize>)
    ensures
        r == zyx_volume(size@),
{
    let a = size[0];
    let b = size[1];
    let c = size[2];
    if b != 0 && a > usize::MAX / b {
        assert(a * b > usize::MAX) by (nonlinear_arith)
            requires
                b != 0,
                a > usize::MAX / b,
        ;
        return Err(Error::LengthOverflow { field: "mcstructure_volume", max: usize::MAX, actual: usize::MAX });
    }
    assert(a * b <= usize::MAX) by (nonlinear_arith)
        requires
            b == 0 || a <= usize::MAX / b,
    ;
    let ab = a * b;
    if c != 0 && ab > usize::MAX / c {
        assert(ab * c > usize::MAX) by (nonlinear_arith)
            requires
                c != 0,
                ab > usize::MAX / c,
        ;
        return Err(Error::LengthOverflow { field: "mcstructure_volume", max: usize::MAX, actual: usize::MAX });
    }
    assert(ab * c <= usize::MAX) by (nonlinear_arith)
        requires
            c == 0 || ab <= usize::MAX / c,
    ;
    Ok(ab * c)
}

/// The flat index of cell `(x, y, z)` of a structure of size `size`.
pub fn zyx_flatten_index(size: [usize; 3], x: usize, y: usize, z: usize) -> (r: Result<usize>)
    ensures
        r == zyx_flatten(size@, x, y, z),
{
    if x >= size[0] || y >= size[1] || z >= size[2] {
        return Err(Error::InvalidStructureShape { detail: "mcstructure_coordinate_out_of_bounds" });
    }
    let b = size[1];
    let c = size[2];
    let ghost total = flat_of(size@, x as int, y as int, z as int);
    if x > usize::MAX / b {
        assert(total > usize::MAX) by (nonlinear_arith)
            requires
                b >= 1,
                c >= 1,
                x > usize::MAX / b,
                total == (x * b + y) * c + z,
                y >= 0,
                z >= 0,
        ;
        return Err(Error::LengthOverflow { field: "mcstructure_flatten_index", max: usize::MAX, actual: usize::MAX });
    }
    assert(x * b <= usize::MAX) by (nonlinear_arith)
        requires
            b >= 1,
            x <= usize::MAX / b,
    ;
    let a = x * b;
    if a > usize::MAX - y {
        assert(total > usize::MAX) by (nonlinear_arith)
            requires
                c >= 1,
                a + y > usize::MAX,
                total == (a + y) * c + z,
                z >= 0,
        ;
        return Err(Error::LengthOverflow { field: "mcstructure_flatten_index", max: usize::MAX, actual: usize::MAX });
    }
    let base = a + y;
    if base > usize::MAX / c {
        assert(total > usize::MAX) by (nonlinear_arith)
            requires
                c >= 1,
                base > usize::MAX / c,
                total == base * c + z,
                z >= 0,
        ;
        return Err(Error::LengthOverflow { field: "mcstructure_flatten_index", max: usize::MAX, actual: usize::MAX });
    }
    assert(base * c <= usize::MAX) by (nonlinear_arith)
        requires
            c >= 1,
            base <= usize::MAX / c,
    ;
    let flat = base * c;
    if flat > usize::MAX - z {
        return Err(Error::LengthOverflow { field: "mcstructure_flatten_index", max: usize::MAX, actual: usize::MAX });
    }
    Ok(flat + z)
}

/// The cell `(x, y, z)` of a structure of size `size` at a flat index.
pub fn zyx_unflatten_index(size: [usize; 3], flat_index: usize) -> (r: Result<(usize, usize, usize)>)
    ensures
        r == zyx_unflatten(size@, flat_index),
{
    let volume = match checked_volume(size) {
        Ok(v) => v,
        Err(e) => return Err(e),
    };
    if flat_index >= volume {
        return Err(Error::InvalidStructureShape { detail: "mcstructure_flat_index_out_of_bounds" });
    }
    let b = size[1];
    let c = size[2];
    assert(b * c >= 1 && b * c <= usize::MAX && c >= 1) by (nonlinear_arith)
        requires
            volume == size@[0] * b * c,
            flat_index < volume,
            size@[0] * b <= usize::MAX,
            volume <= usize::MAX,
            size@[0] >= 0,
    ;
    let yz_span = b * c;
    let x = flat_index / yz_span;
    let rem = flat_index % yz_span;
    let y = rem / c;
    let z = rem % c;
    Ok((x, y, z))
}

/// Unflattening a flat index and flattening the cell again gives the index back.
pub proof fn law_zyx_unflatten_then_flatten(size: Seq<usize>, flat: usize)
    requires
        size.len() == 3,
        zyx_unflatten(size, flat) is Ok,
    ensures
        ({
            let (x, y, z) = zyx_unflatten(size, flat)->Ok_0;
            zyx_flatten(size, x, y, z) == Ok::<usize, Error>(flat)
        }),
{
    let a = size[0] as int;
    let b = size[1] as int;
    let c = size[2] as int;
    let f = flat as int;
    let yz = b * c;
    assert(yz >= 1 && c >= 1 && b >= 1) by (nonlinear_arith)
        requires
            f < a * b * c,
            f >= 0,
            yz == b * c,
            a >= 0,
            b >= 0,
            c >= 0,
    ;
    let q = f / yz;
    let m = f % yz;
    let y = m / c;
    let z = m % c;
    vstd::arithmetic::div_mod::lemma_fundamental_div_mod(f, yz);
    vstd::arithmetic::div_mod::lemma_fundamental_div_mod(m, c);
    assert(0 <= m < yz && 0 <= z < c && q >= 0 && y >= 0) by (nonlinear_arith)
        requires
            yz >= 1,
            c >= 1,
            f >= 0,
            m == f % yz,
            q == f / yz,
            z == m % c,
            y == m / c,
            f == yz * q + m,
            m == c * y + z,
    {
        vstd::arithmetic::div_mod::lemma_mod_bound(f, yz);
        vstd::arithmetic::div_mod::lemma_mod_bound(m, c);
    }
    assert(f == (q * b + y) * c + z && q < a && y < b) by (nonlinear_arith)
        requires
            yz == b * c,
            f == yz * q + m,
            m == c * y + z,
            0 <= m < yz,
            0 <= z < c,
            q >= 0,
            y >= 0,
            c >= 1,
            f < a * b * c,
    ;
}

/// Flattening a cell and unflattening the index again gives the cell back, where
/// the structure's volume fits a `usize`.
pub proof fn law_zyx_flatten_then_unflatten(size: Seq<usize>, x: usize, y: usize, z: usize)
    requires
        size.len() == 3,
        volume_fits(size),
        x < size[0],
        y < size[1],
        z < size[2],
    ensures
        zyx_flatten(size, x, y, z) matches Ok(f) && zyx_unflatten(size, f) == Ok::<(usize, usize, usize), Error>(
            (x, y, z),
        ),
{
    let a = size[0] as int;
    let b = size[1] as int;
    let c = size[2] as int;
    let f = flat_of(size, x as int, y as int, z as int);
    let yz = b * c;
    assert(f < a * b * c && 0 <= f && yz >= 1) by (nonlinear_arith)
        requires
            f == (x * b + y) * c + z,
            x < a, y < b, z < c,
            x >= 0, y >= 0, z >= 0,
            yz == b * c,
    ;
    let r = y * c + z;
    assert(f == x * yz + r) by (nonlinear_arith)
        requires
            f == (x * b + y) * c + z,
            yz == b * c,
            r == y * c + z,
    ;
    assert(0 <= r < yz) by (nonlinear_arith)
        requires
            0 <= y < b,
            0 <= z < c,
            yz == b * c,
            r == y * c + z,
    ;
    vstd::arithmetic::div_mod::lemma_fundamental_div_mod_converse(f, yz, x as int, r);
    vstd::arithmetic::div_mod::lemma_fundamental_div_mod_converse(r, c, y as int, z as int);
}

// ---------------------------------------------------------------------------
// The semantic report
// ---------------------------------------------------------------------------

/// What a validation found in a structure.
#[derive(Debug, Clone, Copy, PartialEq, Eq)]
pub struct McStructureSemanticReport {
    pub size: [usize; 3],
    pub volume: usize,
    pub layer_count: usize,
    pub palette_len: usize,
    pub has_default_palette: bool,
    pub no_block_indices: usize,
    pub out_of_range_indices: usize,
    pub invalid_block_position_data_keys: usize,
}

/// The report as plain values: the size as a sequence.
pub struct ReportView {
    pub size: Seq<usize>,
    pub volume: usize,
    pub layer_count: usize,
    pub palette_len: usize,
    pub has_default_palette: bool,
    pub no_block_indices: usize,
    pub out_of_range_indices: usize,
    pub invalid_block_position_data_keys: usize,
}

impl View for McStructureSemanticReport {
    type V = ReportView;

    open spec fn view(&self) -> ReportView {
        ReportView {
            size: self.size@,
            volume: self.volume,
            layer_count: self.layer_count,
            palette_len: self.palette_len,
            has_default_palette: self.has_default_palette,
            no_block_indices: self.no_block_indices,
            out_of_range_indices: self.out_of_range_indices,
            invalid_block_position_data_keys: self.invalid_block_position_data_keys,
        }
    }
}

impl Default for McStructureSemanticReport {
    fn default() -> (r: Self)
        ensures
            r@ == (ReportView {
                size: seq![0usize, 0usize, 0usize],
                volume: 0,
                layer_count: 0,
                palette_len: 0,
                has_default_palette: false,
                no_block_indices: 0,
                out_of_range_indices: 0,
                invalid_block_position_data_keys: 0,
            }),
    {
        let r = McStructureSemanticReport {
            size: [0, 0, 0],
            volume: 0,
            layer_count: 0,
            palette_len: 0,
            has_default_palette: false,
            no_block_indices: 0,
            out_of_range_indices: 0,
            invalid_block_position_data_keys: 0,
        };
        assert(r.size@ =~= seq![0usize, 0usize, 0usize]);
        r
    }
}

// ---------------------------------------------------------------------------
// What validation decides
// ---------------------------------------------------------------------------

/// The value stored under `key` in compound entries.
pub open spec fn lookup(es: Seq<(Seq<char>, TagView)>, key: Seq<char>) -> Option<TagView> {
    if key_index(es, key) < 0 {
        None
    } else {
        Some(es[key_index(es, key)].1)
    }
}

/// The value under `key`, or the shape error `detail` when there is none.
pub open spec fn sp_required(es: Seq<(Seq<char>, TagView)>, key: Seq<char>, detail: &'static str) -> std::result::Result<TagView, Error> {
    match lookup(es, key) {
        Some(v) => Ok(v),
        None => Err(shape(detail)),
    }
}

/// The error for a value of another type than `expected`.
pub open spec fn wrong_type(context: &'static str, expected: TagType, v: TagView) -> Error {
    Error::UnexpectedType { context, expected_id: type_id(expected), actual_id: type_id(view_type(v)) }
}

/// The entries of a compound, or a type error naming `context`.
pub open spec fn as_compound(v: TagView, context: &'static str) -> std::result::Result<Seq<(Seq<char>, TagView)>, Error> {
    match v {
        TagView::Compound(es) => Ok(es),
        _ => Err(wrong_type(context, TagType::Compound, v)),
    }
}

/// The element type and elements of a list, or a type error naming `context`.
pub open spec fn as_list(v: TagView, context: &'static str) -> std::result::Result<(TagType, Seq<TagView>), Error> {
    match v {
        TagView::List(t, es) => Ok((t, es)),
        _ => Err(wrong_type(context, TagType::List, v)),
    }
}

/// The value of an int, or a type error naming `context`.
pub open spec fn as_int(v: TagView, context: &'static str) -> std::result::Result<i32, Error> {
    match v {
        TagView::Int(x) => Ok(x),
        _ => Err(wrong_type(context, TagType::Int, v)),
    }
}

/// The format version: an int, and 1 in strict mode.
pub open spec fn sp_format_version(top: Seq<(Seq<char>, TagView)>, mode: ParseMode) -> std::result::Result<i32, Error> {
    match sp_required(top, "format_version"@, "mcstructure_format_version_missing") {
        Err(e) => Err(e),
        Ok(v) => match as_int(v, "mcstructure_format_version_type") {
            Err(e) => Err(e),
            Ok(x) => if mode == ParseMode::Strict && x != 1 {
                Err(shape("mcstructure_format_version_must_be_one"))
            } else {
                Ok(x)
            },
        },
    }
}

/// The size components from index `i` on: ints that are not negative.
pub open spec fn sp_size_from(es: Seq<TagView>, i: int) -> std::result::Result<Seq<usize>, Error>
    decreases es.len() - i,
{
    if i < 0 || i >= es.len() {
        Ok(Seq::empty())
    } else {
        match as_int(es[i], "mcstructure_size_value_type") {
            Err(e) => Err(e),
            Ok(x) => if x < 0 {
                Err(shape("mcstructure_size_negative_component"))
            } else {
                match sp_size_from(es, i + 1) {
                    Err(e) => Err(e),
                    Ok(rest) => Ok(seq![x as usize] + rest),
                }
            },
        }
    }
}

/// The size: a list of three ints, none negative.
pub open spec fn sp_size(top: Seq<(Seq<char>, TagView)>) -> std::result::Result<Seq<usize>, Error> {
    match sp_required(top, "size"@, "mcstructure_size_missing") {
        Err(e) => Err(e),
        Ok(v) => match as_list(v, "mcstructure_size_type") {
            Err(e) => Err(e),
            Ok((t, es)) => if t != TagType::Int || es.len() != 3 {
                Err(shape("mcstructure_size_must_be_int3"))
            } else {
                sp_size_from(es, 0)
            },
        },
    }
}

/// The first origin component from index `i` on that is not an int, if any.
pub open spec fn sp_origin_from(es: Seq<TagView>, i: int) -> std::result::Result<(), Error>
    decreases es.len() - i,
{
    if i < 0 || i >= es.len() {
        Ok(())
    } else {
        match as_int(es[i], "mcstructure_world_origin_value_type") {
            Err(e) => Err(e),
            Ok(_) => sp_origin_from(es, i + 1),
        }
    }
}

/// The world origin: a list of three ints.
pub open spec fn sp_origin(top: Seq<(Seq<char>, TagView)>) -> std::result::Result<(), Error> {
    match sp_required(top, "structure_world_origin"@, "mcstructure_world_origin_missing") {
        Err(e) => Err(e),
        Ok(v) => match as_list(v, "mcstructure_world_origin_type") {
            Err(e) => Err(e),
            Ok((t, es)) => if t != TagType::Int || es.len() != 3 {
                Err(shape("mcstructure_world_origin_must_be_int3"))
            } else {
                sp_origin_from(es, 0)
            },
        },
    }
}

/// The palette: its length, whether the default palette exists, and the block
/// position data of the default palette where there is one.
pub open spec fn sp_palette(structure: Seq<(Seq<char>, TagView)>, mode: ParseMode) -> std::result::Result<(usize, bool, Option<Seq<(Seq<char>, TagView)>>), Error> {
    match sp_required(structure, "palette"@, "mcstructure_palette_missing") {
        Err(e) => Err(e),
        Ok(pv) => match as_compound(pv, "mcstructure_palette_type") {
            Err(e) => Err(e),
            Ok(palette) => match lookup(palette, "default"@) {
                None => if mode == ParseMode::Strict {
                    Err(shape("mcstructure_default_palette_missing"))
                } else {
                    Ok((0, false, None))
                },
                Some(dv) => match as_compound(dv, "mcstructure_default_palette_type") {
                    Err(e) => Err(e),
                    Ok(default) => match sp_required(default, "block_palette"@, "mcstructure_block_palette_missing") {
                        Err(e) => Err(e),
                        Ok(bv) => match as_list(bv, "mcstructure_block_palette_type") {
                            Err(e) => Err(e),
                            Ok((t, blocks)) => if t != TagType::Compound {
                                Err(shape("mcstructure_block_palette_not_compound_list"))
                            } else {
                                match lookup(default, "block_position_data"@) {
                                    None => Ok((blocks.len() as usize, true, None)),
                                    Some(pd) => match as_compound(pd, "mcstructure_block_position_data_type") {
                                        Err(e) => Err(e),
                                        Ok(data) => Ok((blocks.len() as usize, true, Some(data))),
                                    },
                                }
                            },
                        },
                    },
                },
            },
        },
    }
}

/// One more, where one more fits.
pub open spec fn sat_inc(n: usize) -> usize {
    if n < usize::MAX {
        (n + 1) as usize
    } else {
        n
    }
}

/// Scanning the palette indices of a layer from index `i` on, with `nb` cells
/// without a block and `oor` indices out of range counted so far. Compatible mode
/// reads a value that is not an int as index 0.
pub open spec fn sp_layer_scan(es: Seq<TagView>, i: int, palette_len: usize, mode: ParseMode, nb: usize, oor: usize) -> std::result::Result<(usize, usize), Error>
    decreases es.len() - i,
{
    if i < 0 || i >= es.len() {
        Ok((nb, oor))
    } else if !(es[i] is Int) && mode == ParseMode::Strict {
        Err(wrong_type("mcstructure_block_index_value_type", TagType::Int, es[i]))
    } else {
        let index: i32 = match es[i] {
            TagView::Int(x) => x,
            _ => 0,
        };
        if index == -1 {
            sp_layer_scan(es, i + 1, palette_len, mode, sat_inc(nb), oor)
        } else if index < -1 || index >= palette_len {
            if mode == ParseMode::Strict {
                Err(Error::InvalidPaletteIndex { index, palette_len })
            } else {
                sp_layer_scan(es, i + 1, palette_len, mode, nb, sat_inc(oor))
            }
        } else {
            sp_layer_scan(es, i + 1, palette_len, mode, nb, oor)
        }
    }
}

/// Scanning the layers from index `j` on: each a list of `volume` indices, of
/// ints in strict mode.
pub open spec fn sp_layers(ls: Seq<TagView>, j: int, volume: usize, palette_len: usize, mode: ParseMode, nb: usize, oor: usize) -> std::result::Result<(usize, usize), Error>
    decreases ls.len() - j,
{
    if j < 0 || j >= ls.len() {
        Ok((nb, oor))
    } else {
        match as_list(ls[j], "mcstructure_block_indices_layer_type") {
            Err(e) => Err(e),
            Ok((t, es)) => if t != TagType::Int && mode == ParseMode::Strict {
                Err(shape("mcstructure_block_indices_layer_not_int_list"))
            } else if es.len() != volume {
                Err(shape("mcstructure_block_indices_length_mismatch"))
            } else {
                match sp_layer_scan(es, 0, palette_len, mode, nb, oor) {
                    Err(e) => Err(e),
                    Ok((nb2, oor2)) => sp_layers(ls, j + 1, volume, palette_len, mode, nb2, oor2),
                }
            },
        }
    }
}

/// Scanning the keys of the block position data from index `i` on: each must be
/// a cell index below `volume`; compatible mode counts the others in `inv`.
pub open spec fn sp_key_scan(ks: Seq<(Seq<char>, TagView)>, i: int, volume: usize, mode: ParseMode, inv: usize) -> std::result::Result<usize, Error>
    decreases ks.len() - i,
{
    if i < 0 || i >= ks.len() {
        Ok(inv)
    } else {
        match parsed_usize(ks[i].0) {
            None => if mode == ParseMode::Strict {
                Err(shape("mcstructure_block_position_data_key_not_usize"))
            } else {
                sp_key_scan(ks, i + 1, volume, mode, sat_inc(inv))
            },
            Some(flat) => if flat >= volume {
                if mode == ParseMode::Strict {
                    Err(shape("mcstructure_block_position_data_key_out_of_bounds"))
                } else {
                    sp_key_scan(ks, i + 1, volume, mode, sat_inc(inv))
                }
            } else {
                sp_key_scan(ks, i + 1, volume, mode, inv)
            },
        }
    }
}

/// The block indices, palette and position data of the `structure` compound, for
/// a structure of the given size and volume.
pub open spec fn sp_validate_structure(structure: Seq<(Seq<char>, TagView)>, mode: ParseMode, size: Seq<usize>, volume: usize) -> std::result::Result<ReportView, Error> {
    match sp_required(structure, "block_indices"@, "mcstructure_block_indices_missing") {
        Err(e) => Err(e),
        Ok(bv) => match as_list(bv, "mcstructure_block_indices_type") {
            Err(e) => Err(e),
            Ok((t, layers)) => if t != TagType::List {
                Err(shape("mcstructure_block_indices_not_list_of_list"))
            } else if layers.len() != 2 {
                Err(shape("mcstructure_block_indices_layer_count_must_be_two"))
            } else {
                match sp_palette(structure, mode) {
                    Err(e) => Err(e),
                    Ok((palette_len, has_default, data)) => match sp_layers(layers, 0, volume, palette_len, mode, 0, 0) {
                        Err(e) => Err(e),
                        Ok((nb, oor)) => match (match data {
                            None => Ok(0usize),
                            Some(ks) => sp_key_scan(ks, 0, volume, mode, 0),
                        }) {
                            Err(e) => Err(e),
                            Ok(inv) => Ok(
                                ReportView {
                                    size,
                                    volume,
                                    layer_count: 2,
                                    palette_len,
                                    has_default_palette: has_default,
                                    no_block_indices: nb,
                                    out_of_range_indices: oor,
                                    invalid_block_position_data_keys: inv,
                                },
                            ),
                        },
                    },
                }
            },
        },
    }
}

/// What validating a structure payload gives: its report, or the first problem found.
pub open spec fn sp_validate(v: TagView, mode: ParseMode) -> std::result::Result<ReportView, Error> {
    match as_compound(v, "mcstructure_root_payload_type") {
        Err(e) => Err(e),
        Ok(top) => match sp_format_version(top, mode) {
            Err(e) => Err(e),
            Ok(_) => match sp_size(top) {
                Err(e) => Err(e),
                Ok(size) => match sp_origin(top) {
                    Err(e) => Err(e),
                    Ok(_) => match zyx_volume(size) {
                        Err(e) => Err(e),
                        Ok(volume) => match sp_required(top, "structure"@, "mcstructure_structure_missing") {
                            Err(e) => Err(e),
                            Ok(sv) => match as_compound(sv, "mcstructure_structure_type") {
                                Err(e) => Err(e),
                                Ok(structure) => sp_validate_structure(structure, mode, size, volume),
                            },
                        },
                    },
                },
            },
        },
    }
}

// ---------------------------------------------------------------------------
// Validation
// ---------------------------------------------------------------------------

fn required<'a>(compound: &'a CompoundTag, key: &str, detail: &'static str) -> (r: Result<&'a Tag>)
    ensures
        match sp_required(compound@, key@, detail) {
            Ok(v) => r matches Ok(t) && t@ == v,
            Err(e) => r == Err::<&Tag, Error>(e),
        },
{
    match compound.get(key) {
        Some(t) => Ok(t),
        None => Err(Error::InvalidStructureShape { detail }),
    }
}

fn expect_compound<'a>(tag: &'a Tag, context: &'static str) -> (r: Result<&'a CompoundTag>)
    ensures
        match as_compound(tag@, context) {
            Ok(es) => r matches Ok(c) && c@ == es,
            Err(e) => r == Err::<&CompoundTag, Error>(e),
        },
{
    match tag {
        Tag::Compound(value) => Ok(value),
        other => Err(
            Error::UnexpectedType {
                context,
                expected_id: TagType::Compound.id(),
                actual_id: other.tag_type().id(),
            },
        ),
    }
}

fn expect_list<'a>(tag: &'a Tag, context: &'static str) -> (r: Result<&'a ListTag>)
    ensures
        match as_list(tag@, context) {
            Ok((t, es)) => r matches Ok(l) && l.element_type == t && crate::tag::tags_view(l.elements@) == es,
            Err(e) => r == Err::<&ListTag, Error>(e),
        },
{
    match tag {
        Tag::List(value) => Ok(value),
        other => Err(
            Error::UnexpectedType { context, expected_id: TagType::List.id(), actual_id: other.tag_type().id() },
        ),
    }
}

fn expect_int(tag: &Tag, context: &'static str) -> (r: Result<i32>)
    ensures
        r == as_int(tag@, context),
{
    match tag {
        Tag::Int(value) => Ok(*value),
        other => Err(
            Error::UnexpectedType { context, expected_id: TagType::Int.id(), actual_id: other.tag_type().id() },
        ),
    }
}

fn validate_format_version(top: &CompoundTag, parse_mode: ParseMode) -> (r: Result<i32>)
    ensures
        r == sp_format_version(top@, parse_mode),
{
    let format_version = match required(top, "format_version", "mcstructure_format_version_missing") {
        Ok(t) => t,
        Err(e) => return Err(e),
    };
    let value = match expect_int(format_version, "mcstructure_format_version_type") {
        Ok(v) => v,
        Err(e) => return Err(e),
    };
    if parse_mode == ParseMode::Strict && value != 1 {
        return Err(Error::InvalidStructureShape { detail: "mcstructure_format_version_must_be_one" });
    }
    Ok(value)
}

fn size_component(elements: &Vec<Tag>, i: usize) -> (r: Result<usize>)
    requires
        i < elements@.len(),
    ensures
        match as_int(elements@[i as int]@, "mcstructure_size_value_type") {
            Err(e) => r == Err::<usize, Error>(e),
            Ok(x) => if x < 0 {
                r == Err::<usize, Error>(shape("mcstructure_size_negative_component"))
            } else {
                r == Ok::<usize, Error>(x as usize)
            },
        },
{
    let value = match expect_int(&elements[i], "mcstructure_size_value_type") {
        Ok(v) => v,
        Err(e) => return Err(e),
    };
    if value < 0 {
        return Err(Error::InvalidStructureShape { detail: "mcstructure_size_negative_component" });
    }
    Ok(value as usize)
}

fn parse_size(top: &CompoundTag) -> (r: Result<[usize; 3]>)
    ensures
        match sp_size(top@) {
            Ok(s) => r matches Ok(a) && a@ == s,
            Err(e) => r == Err::<[usize; 3], Error>(e),
        },
{
    let size = match required(top, "size", "mcstructure_size_missing") {
        Ok(t) => match expect_list(t, "mcstructure_size_type") {
            Ok(l) => l,
            Err(e) => return Err(e),
        },
        Err(e) => return Err(e),
    };
    if size.element_type != TagType::Int || size.elements.len() != 3 {
        proof {
            lemma_tags_view(size.elements@);
        }
        return Err(Error::InvalidStructureShape { detail: "mcstructure_size_must_be_int3" });
    }
    let ghost es = crate::tag::tags_view(size.elements@);
    proof {
        lemma_tags_view(size.elements@);
        reveal_with_fuel(sp_size_from, 4);
    }
    let a = match size_component(&size.elements, 0) {
        Ok(v) => v,
        Err(e) => return Err(e),
    };
    let b = match size_component(&size.elements, 1) {
        Ok(v) => v,
        Err(e) => return Err(e),
    };
    let c = match size_component(&size.elements, 2) {
        Ok(v) => v,
        Err(e) => return Err(e),
    };
    let out = [a, b, c];
    proof {
        assert(sp_size_from(es, 3) == Ok::<Seq<usize>, Error>(Seq::empty()));
        assert(sp_size_from(es, 2) == Ok::<Seq<usize>, Error>(seq![c]));
        assert(sp_size_from(es, 1) == Ok::<Seq<usize>, Error>(seq![b] + seq![c]));
        assert(out@ =~= seq![a] + (seq![b] + seq![c]));
    }
    Ok(out)
}

fn validate_origin(top: &CompoundTag) -> (r: Result<()>)
    ensures
        r == sp_origin(top@),
{
    let origin = match required(top, "structure_world_origin", "mcstructure_world_origin_missing") {
        Ok(t) => match expect_list(t, "mcstructure_world_origin_type") {
            Ok(l) => l,
            Err(e) => return Err(e),
        },
        Err(e) => return Err(e),
    };
    proof {
        lemma_tags_view(origin.elements@);
    }
    if origin.element_type != TagType::Int || origin.elements.len() != 3 {
        return Err(Error::InvalidStructureShape { detail: "mcstructure_world_origin_must_be_int3" });
    }
    let ghost es = crate::tag::tags_view(origin.elements@);
    let mut i: usize = 0;
    while i < origin.elements.len()
        invariant
            i <= origin.elements@.len(),
            es == crate::tag::tags_view(origin.elements@),
            es.len() == origin.elements@.len(),
            forall|k: int| 0 <= k < es.len() ==> #[trigger] es[k] == origin.elements@[k]@,
            sp_origin(top@) == sp_origin_from(es, 0),
            sp_origin_from(es, 0) == sp_origin_from(es, i as int),
        decreases origin.elements@.len() - i,
    {
        match expect_int(&origin.elements[i], "mcstructure_world_origin_value_type") {
            Ok(_) => {},
            Err(e) => return Err(e),
        }
        i = i + 1;
    }
    Ok(())
}

fn resolve_palette_semantics<'a>(structure: &'a CompoundTag, parse_mode: ParseMode) -> (r: Result<(usize, bool, Option<&'a CompoundTag>)>)
    ensures
        match sp_palette(structure@, parse_mode) {
            Ok((n, has, data)) => r matches Ok((n2, has2, d2)) && n2 == n && has2 == has && match data {
                None => d2 is None,
                Some(es) => d2 matches Some(c) && c@ == es,
            },
            Err(e) => r == Err::<(usize, bool, Option<&CompoundTag>), Error>(e),
        },
{
    let palette = match required(structure, "palette", "mcstructure_palette_missing") {
        Ok(t) => match expect_compound(t, "mcstructure_palette_type") {
            Ok(c) => c,
            Err(e) => return Err(e),
        },
        Err(e) => return Err(e),
    };
    let default_tag = match palette.get("default") {
        Some(t) => t,
        None => {
            if parse_mode == ParseMode::Strict {
                return Err(Error::InvalidStructureShape { detail: "mcstructure_default_palette_missing" });
            }
            return Ok((0, false, None));
        },
    };
    let default = match expect_compound(default_tag, "mcstructure_default_palette_type") {
        Ok(c) => c,
        Err(e) => return Err(e),
    };
    let block_palette = match required(default, "block_palette", "mcstructure_block_palette_missing") {
        Ok(t) => match expect_list(t, "mcstructure_block_palette_type") {
            Ok(l) => l,
            Err(e) => return Err(e),
        },
        Err(e) => return Err(e),
    };
    if block_palette.element_type != TagType::Compound {
        return Err(Error::InvalidStructureShape { detail: "mcstructure_block_palette_not_compound_list" });
    }
    proof {
        lemma_tags_view(block_palette.elements@);
    }
    let block_position_data = match default.get("block_position_data") {
        Some(tag) => match expect_compound(tag, "mcstructure_block_position_data_type") {
            Ok(c) => Some(c),
            Err(e) => return Err(e),
        },
        None => None,
    };
    Ok((block_palette.elements.len(), true, block_position_data))
}

fn validate_layer_indices(
    layer: &ListTag,
    palette_len: usize,
    parse_mode: ParseMode,
    report: &mut McStructureSemanticReport,
) -> (r: Result<()>)
    ensures
        match sp_layer_scan(
            crate::tag::tags_view(layer.elements@),
            0,
            palette_len,
            parse_mode,
            old(report).no_block_indices,
            old(report).out_of_range_indices,
        ) {
            Ok((nb, oor)) => r is Ok && *final(report) == (McStructureSemanticReport {
                no_block_indices: nb,
                out_of_range_indices: oor,
                ..*old(report)
            }),
            Err(e) => r == Err::<(), Error>(e),
        },
{
    let ghost es = crate::tag::tags_view(layer.elements@);
    proof {
        lemma_tags_view(layer.elements@);
    }
    let mut i: usize = 0;
    while i < layer.elements.len()
        invariant
            i <= layer.elements@.len(),
            es == crate::tag::tags_view(layer.elements@),
            es.len() == layer.elements@.len(),
            forall|k: int| 0 <= k < es.len() ==> #[trigger] es[k] == layer.elements@[k]@,
            *report == (McStructureSemanticReport {
                no_block_indices: report.no_block_indices,
                out_of_range_indices: report.out_of_range_indices,
                ..*old(report)
            }),
            sp_layer_scan(es, 0, palette_len, parse_mode, old(report).no_block_indices, old(report).out_of_range_indices)
                == sp_layer_scan(es, i as int, palette_len, parse_mode, report.no_block_indices, report.out_of_range_indices),
        decreases layer.elements@.len() - i,
    {
        let index_tag = &layer.elements[i];
        let index = match index_tag {
            Tag::Int(value) => *value,
            _ => {
                if parse_mode == ParseMode::Compatible {
                    0
                } else {
                    return Err(
                        Error::UnexpectedType {
                            context: "mcstructure_block_index_value_type",
                            expected_id: TagType::Int.id(),
                            actual_id: index_tag.tag_type().id(),
                        },
                    );
                }
            },
        };
        if index == -1 {
            report.no_block_indices = report.no_block_indices.saturating_add(1);
        } else if index < -1 || (index as usize) >= palette_len {
            if parse_mode == ParseMode::Strict {
                return Err(Error::InvalidPaletteIndex { index, palette_len });
            }
            report.out_of_range_indices = report.out_of_range_indices.saturating_add(1);
        }
        i = i + 1;
    }
    Ok(())
}

fn validate_block_position_data_keys(
    block_position_data: &CompoundTag,
    volume: usize,
    parse_mode: ParseMode,
    report: &mut McStructureSemanticReport,
) -> (r: Result<()>)
    requires
        zyx_volume(old(report).size@) == Ok::<usize, Error>(volume),
    ensures
        match sp_key_scan(
            block_position_data@,
            0,
            volume,
            parse_mode,
            old(report).invalid_block_position_data_keys,
        ) {
            Ok(inv) => r is Ok && *final(report) == (McStructureSemanticReport {
                invalid_block_position_data_keys: inv,
                ..*old(report)
            }),
            Err(e) => r == Err::<(), Error>(e),
        },
{
    let entries = &block_position_data.entries;
    let ghost ks = block_position_data@;
    proof {
        lemma_entries_view(entries@);
        crate::tag::lemma_compound_view(*block_position_data);
    }
    let mut i: usize = 0;
    while i < entries.len()
        invariant
            i <= entries@.len(),
            ks == block_position_data@,
            ks == crate::tag::entries_view(entries@),
            ks.len() == entries@.len(),
            forall|k: int| 0 <= k < ks.len() ==> #[trigger] ks[k] == (entries@[k].key@, entries@[k].value@),
            zyx_volume(report.size@) == Ok::<usize, Error>(volume),
            *report == (McStructureSemanticReport {
                invalid_block_position_data_keys: report.invalid_block_position_data_keys,
                ..*old(report)
            }),
            sp_key_scan(ks, 0, volume, parse_mode, old(report).invalid_block_position_data_keys)
                == sp_key_scan(ks, i as int, volume, parse_mode, report.invalid_block_position_data_keys),
        decreases entries@.len() - i,
    {
        assert(ks[i as int].0 == entries@[i as int].key@);
        let flat = match parse_usize(entries[i].key.as_str()) {
            Some(value) => value,
            None => {
                if parse_mode == ParseMode::Strict {
                    return Err(
                        Error::InvalidStructureShape { detail: "mcstructure_block_position_data_key_not_usize" },
                    );
                }
                report.invalid_block_position_data_keys = report.invalid_block_position_data_keys.saturating_add(1);
                i = i + 1;
                continue;
            },
        };
        if flat >= volume {
            if parse_mode == ParseMode::Strict {
                return Err(
                    Error::InvalidStructureShape { detail: "mcstructure_block_position_data_key_out_of_bounds" },
                );
            }
            report.invalid_block_position_data_keys = report.invalid_block_position_data_keys.saturating_add(1);
            i = i + 1;
            continue;
        }
        let (x, y, z) = match zyx_unflatten_index(report.size, flat) {
            Ok(t) => t,
            Err(e) => return Err(e),
        };
        proof {
            law_zyx_unflatten_then_flatten(report.size@, flat);
        }
        let roundtrip = match zyx_flatten_index(report.size, x, y, z) {
            Ok(v) => v,
            Err(e) => return Err(e),
        };
        if roundtrip != flat {
            return Err(Error::InvalidStructureShape { detail: "mcstructure_zyx_roundtrip_mismatch" });
        }
        i = i + 1;
    }
    Ok(())
}

fn validate_layers(
    layers: &Vec<Tag>,
    volume: usize,
    palette_len: usize,
    parse_mode: ParseMode,
    report: &mut McStructureSemanticReport,
) -> (r: Result<()>)
    ensures
        match sp_layers(
            crate::tag::tags_view(layers@),
            0,
            volume,
            palette_len,
            parse_mode,
            old(report).no_block_indices,
            old(report).out_of_range_indices,
        ) {
            Ok((nb, oor)) => r is Ok && *final(report) == (McStructureSemanticReport {
                no_block_indices: nb,
                out_of_range_indices: oor,
                ..*old(report)
            }),
            Err(e) => r == Err::<(), Error>(e),
        },
{
    let ghost ls = crate::tag::tags_view(layers@);
    proof {
        lemma_tags_view(layers@);
    }
    let mut j: usize = 0;
    while j < layers.len()
        invariant
            j <= layers@.len(),
            ls == crate::tag::tags_view(layers@),
            ls.len() == layers@.len(),
            forall|k: int| 0 <= k < ls.len() ==> #[trigger] ls[k] == layers@[k]@,
            *report == (McStructureSemanticReport {
                no_block_indices: report.no_block_indices,
                out_of_range_indices: report.out_of_range_indices,
                ..*old(report)
            }),
            sp_layers(ls, 0, volume, palette_len, parse_mode, old(report).no_block_indices, old(report).out_of_range_indices)
                == sp_layers(ls, j as int, volume, palette_len, parse_mode, report.no_block_indices, report.out_of_range_indices),
        decreases layers@.len() - j,
    {
        let layer = match expect_list(&layers[j], "mcstructure_block_indices_layer_type") {
            Ok(l) => l,
            Err(e) => return Err(e),
        };
        proof {
            lemma_tags_view(layer.elements@);
        }
        if layer.element_type != TagType::Int && parse_mode == ParseMode::Strict {
            return Err(Error::InvalidStructureShape { detail: "mcstructure_block_indices_layer_not_int_list" });
        }
        if layer.elements.len() != volume {
            return Err(Error::InvalidStructureShape { detail: "mcstructure_block_indices_length_mismatch" });
        }
        match validate_layer_indices(layer, palette_len, parse_mode, report) {
            Ok(()) => {},
            Err(e) => return Err(e),
        }
        j = j + 1;
    }
    Ok(())
}

/// Checks the shape of a `.mcstructure` payload and reports what it holds.
pub fn validate_mcstructure_tag(payload: &Tag, parse_mode: ParseMode) -> (r: Result<McStructureSemanticReport>)
    ensures
        match sp_validate(payload@, parse_mode) {
            Ok(v) => r matches Ok(rep) && rep@ == v,
            Err(e) => r == Err::<McStructureSemanticReport, Error>(e),
        },
{
    let top = match expect_compound(payload, "mcstructure_root_payload_type") {
        Ok(c) => c,
        Err(e) => return Err(e),
    };
    match validate_format_version(top, parse_mode) {
        Ok(_) => {},
        Err(e) => return Err(e),
    }
    let size = match parse_size(top) {
        Ok(s) => s,
        Err(e) => return Err(e),
    };
    match validate_origin(top) {
        Ok(()) => {},
        Err(e) => return Err(e),
    }
    let volume = match checked_volume(size) {
        Ok(v) => v,
        Err(e) => return Err(e),
    };
    let structure = match required(top, "structure", "mcstructure_structure_missing") {
        Ok(t) => match expect_compound(t, "mcstructure_structure_type") {
            Ok(c) => c,
            Err(e) => return Err(e),
        },
        Err(e) => return Err(e),
    };
    let block_indices = match required(structure, "block_indices", "mcstructure_block_indices_missing") {
        Ok(t) => match expect_list(t, "mcstructure_block_indices_type") {
            Ok(l) => l,
            Err(e) => return Err(e),
        },
        Err(e) => return Err(e),
    };
    proof {
        lemma_tags_view(block_indices.elements@);
    }
    if block_indices.element_type != TagType::List {
        return Err(Error::InvalidStructureShape { detail: "mcstructure_block_indices_not_list_of_list" });
    }
    if block_indices.elements.len() != 2 {
        return Err(Error::InvalidStructureShape { detail: "mcstructure_block_indices_layer_count_must_be_two" });
    }
    let (palette_len, has_default_palette, block_position_data) = match resolve_palette_semantics(
        structure,
        parse_mode,
    ) {
        Ok(x) => x,
        Err(e) => return Err(e),
    };
    let mut report = McStructureSemanticReport {
        size,
        volume,
        layer_count: block_indices.elements.len(),
        palette_len,
        has_default_palette,
        no_block_indices: 0,
        out_of_range_indices: 0,
        invalid_block_position_data_keys: 0,
    };
    match validate_layers(&block_indices.elements, volume, palette_len, parse_mode, &mut report) {
        Ok(()) => {},
        Err(e) => return Err(e),
    }
    if let Some(position_data) = block_position_data {
        match validate_block_position_data_keys(position_data, volume, parse_mode, &mut report) {
            Ok(()) => {},
            Err(e) => return Err(e),
        }
    }
    Ok(report)
}

/// Checks the shape of a `.mcstructure` root value and reports what it holds.
pub fn validate_mcstructure_root(root: &RootTag, parse_mode: ParseMode) -> (r: Result<McStructureSemanticReport>)
    ensures
        match sp_validate(root.payload@, parse_mode) {
            Ok(v) => r matches Ok(rep) && rep@ == v,
            Err(e) => r == Err::<McStructureSemanticReport, Error>(e),
        },
{
    validate_mcstructure_tag(&root.payload, parse_mode)
}

proof fn lemma_layer_scan_modes(es: Seq<TagView>, i: int, palette_len: usize, nb: usize, oor: usize)
    requires
        sp_layer_scan(es, i, palette_len, ParseMode::Strict, nb, oor) is Ok,
    ensures
        sp_layer_scan(es, i, palette_len, ParseMode::Compatible, nb, oor) == sp_layer_scan(
            es,
            i,
            palette_len,
            ParseMode::Strict,
            nb,
            oor,
        ),
    decreases es.len() - i,
{
    if 0 <= i < es.len() {
        let index: i32 = match es[i] {
            TagView::Int(x) => x,
            _ => 0,
        };
        if index == -1 {
            lemma_layer_scan_modes(es, i + 1, palette_len, sat_inc(nb), oor);
        } else {
            lemma_layer_scan_modes(es, i + 1, palette_len, nb, oor);
        }
    }
}

proof fn lemma_layers_modes(ls: Seq<TagView>, j: int, volume: usize, palette_len: usize, nb: usize, oor: usize)
    requires
        sp_layers(ls, j, volume, palette_len, ParseMode::Strict, nb, oor) is Ok,
    ensures
        sp_layers(ls, j, volume, palette_len, ParseMode::Compatible, nb, oor) == sp_layers(
            ls,
            j,
            volume,
            palette_len,
            ParseMode::Strict,
            nb,
            oor,
        ),
    decreases ls.len() - j,
{
    if 0 <= j < ls.len() {
        match as_list(ls[j], "mcstructure_block_indices_layer_type") {
            Ok((t, es)) => {
                lemma_layer_scan_modes(es, 0, palette_len, nb, oor);
                match sp_layer_scan(es, 0, palette_len, ParseMode::Strict, nb, oor) {
                    Ok((nb2, oor2)) => {
                        lemma_layers_modes(ls, j + 1, volume, palette_len, nb2, oor2);
                    },
                    Err(_) => {},
                }
            },
            Err(_) => {},
        }
    }
}

proof fn lemma_key_scan_modes(ks: Seq<(Seq<char>, TagView)>, i: int, volume: usize, inv: usize)
    requires
        sp_key_scan(ks, i, volume, ParseMode::Strict, inv) is Ok,
    ensures
        sp_key_scan(ks, i, volume, ParseMode::Compatible, inv) == sp_key_scan(ks, i, volume, ParseMode::Strict, inv),
    decreases ks.len() - i,
{
    if 0 <= i < ks.len() {
        lemma_key_scan_modes(ks, i + 1, volume, inv);
    }
}

/// Compatible mode accepts every structure that strict mode accepts, with the
/// same report.
pub proof fn law_compatible_accepts_strict(v: TagView)
    requires
        sp_validate(v, ParseMode::Strict) is Ok,
    ensures
        sp_validate(v, ParseMode::Compatible) == sp_validate(v, ParseMode::Strict),
{
    let top = as_compound(v, "mcstructure_root_payload_type")->Ok_0;
    let size = sp_size(top)->Ok_0;
    let volume = zyx_volume(size)->Ok_0;
    let sv = sp_required(top, "structure"@, "mcstructure_structure_missing")->Ok_0;
    let structure = as_compound(sv, "mcstructure_structure_type")->Ok_0;
    let bv = sp_required(structure, "block_indices"@, "mcstructure_block_indices_missing")->Ok_0;
    let layers = as_list(bv, "mcstructure_block_indices_type")->Ok_0.1;
    let (palette_len, has_default, data) = sp_palette(structure, ParseMode::Strict)->Ok_0;
    lemma_layers_modes(layers, 0, volume, palette_len, 0, 0);
    match data {
        Some(ks) => {
            lemma_key_scan_modes(ks, 0, volume, 0);
        },
        None => {},
    }
}

proof fn lemma_layers_fill(ls: Seq<TagView>, j: int, volume: usize, palette_len: usize, mode: ParseMode, nb: usize, oor: usize)
    requires
        0 <= j <= ls.len(),
        sp_layers(ls, j, volume, palette_len, mode, nb, oor) is Ok,
    ensures
        forall|m: int| j <= m < ls.len() ==> (#[trigger] ls[m] matches TagView::List(_, es) && es.len() == volume),
    decreases ls.len() - j,
{
    if j < ls.len() {
        let (t, es) = as_list(ls[j], "mcstructure_block_indices_layer_type")->Ok_0;
        let (nb2, oor2) = sp_layer_scan(es, 0, palette_len, mode, nb, oor)->Ok_0;
        lemma_layers_fill(ls, j + 1, volume, palette_len, mode, nb2, oor2);
    }
}

/// A structure that validates has the shape its report gives: the report's size
/// is the structure's `size` list of three ints and its volume their product, and
/// the `block_indices` of its `structure` compound are two layers, each holding
/// exactly that many indices.
pub proof fn law_valid_layers_fill_volume(v: TagView, mode: ParseMode)
    requires
        sp_validate(v, mode) is Ok,
    ensures
        ({
            let r = sp_validate(v, mode)->Ok_0;
            &&& r.size.len() == 3
            &&& r.volume == r.size[0] * r.size[1] * r.size[2]
            &&& v matches TagView::Compound(top) && {
                let si = key_index(top, "size"@);
                let ti = key_index(top, "structure"@);
                &&& si >= 0
                &&& top[si].1 matches TagView::List(_, sz) && sz.len() == 3 && forall|i: int|
                    0 <= i < 3 ==> #[trigger] sz[i] == TagView::Int(r.size[i] as i32)
                &&& ti >= 0
                &&& top[ti].1 matches TagView::Compound(st) && {
                    let bi = key_index(st, "block_indices"@);
                    &&& bi >= 0
                    &&& st[bi].1 matches TagView::List(_, layers) && layers.len() == 2 && forall|j: int|
                        0 <= j < 2 ==> (#[trigger] layers[j] matches TagView::List(_, es) && es.len() == r.volume)
                }
            }
        }),
{
    let top = as_compound(v, "mcstructure_root_payload_type")->Ok_0;
    let size = sp_size(top)->Ok_0;
    let volume = zyx_volume(size)->Ok_0;
    let sv = sp_required(top, "structure"@, "mcstructure_structure_missing")->Ok_0;
    let structure = as_compound(sv, "mcstructure_structure_type")->Ok_0;
    let bv = sp_required(structure, "block_indices"@, "mcstructure_block_indices_missing")->Ok_0;
    let layers = as_list(bv, "mcstructure_block_indices_type")->Ok_0.1;
    let (palette_len, has_default, data) = sp_palette(structure, mode)->Ok_0;
    lemma_layers_fill(layers, 0, volume, palette_len, mode, 0, 0);
    let sz = as_list(sp_required(top, "size"@, "mcstructure_size_missing")->Ok_0, "mcstructure_size_type")->Ok_0.1;
    reveal_with_fuel(sp_size_from, 4);
    assert(size == sp_size_from(sz, 0)->Ok_0);
    assert(size =~= seq![
        as_int(sz[0], "mcstructure_size_value_type")->Ok_0 as usize,
        as_int(sz[1], "mcstructure_size_value_type")->Ok_0 as usize,
        as_int(sz[2], "mcstructure_size_value_type")->Ok_0 as usize,
    ]);
    assert(forall|i: int| 0 <= i < 3 ==> #[trigger] sz[i] == TagView::Int(size[i] as i32));
}

} // verus!
