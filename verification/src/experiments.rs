use crate::error::{Error, Result};
use crate::root::RootTag;
use crate::tag::{
    entries_insert, entries_remove, key_index, lemma_key_index, type_id, view_type, CompoundTag,
    Tag, TagType, TagView,
};
use crate::text::str_eq;
use indexmap::IndexMap;
use std::collections::hash_map::RandomState;
use vstd::prelude::*;

verus! {

broadcast use vstd::seq::group_seq_axioms;

// ---------------------------------------------------------------------------
// The registry of known experiment keys
// ---------------------------------------------------------------------------

/// Whether an experiment key is one the registry knows.
#[derive(Debug, Clone, Copy, PartialEq, Eq, Structural)]
pub enum ExperimentKeyKind {
    Known,
    Unknown,
}

/// The experiment keys the registry knows.
pub open spec fn known_key(key: Seq<char>) -> bool {
    ||| key == "caves_and_cliffs"@
    ||| key == "upcoming_creator_features"@
    ||| key == "gametest"@
    ||| key == "holiday_creator_features"@
    ||| key == "data_driven_items"@
    ||| key == "custom_biomes"@
    ||| key == "next_major_update"@
    ||| key == "molang_features"@
}

/// Whether the key names a known experiment.
pub fn is_known_experiment_key(key: &str) -> (r: bool)
    ensures
        r == known_key(key@),
{
    str_eq(key, "caves_and_cliffs") || str_eq(key, "upcoming_creator_features") || str_eq(key, "gametest")
        || str_eq(key, "holiday_creator_features") || str_eq(key, "data_driven_items") || str_eq(
        key,
        "custom_biomes",
    ) || str_eq(key, "next_major_update") || str_eq(key, "molang_features")
}

/// Whether the key names a known experiment or an unknown one.
pub fn classify_experiment_key(key: &str) -> (r: ExperimentKeyKind)
    ensures
        r == (if known_key(key@) {
            ExperimentKeyKind::Known
        } else {
            ExperimentKeyKind::Unknown
        }),
{
    if is_known_experiment_key(key) {
        ExperimentKeyKind::Known
    } else {
        ExperimentKeyKind::Unknown
    }
}

// ---------------------------------------------------------------------------
// The ordered map of flags, held in an `IndexMap`
// ---------------------------------------------------------------------------

#[verifier::external_type_specification]
#[verifier::external_body]
#[verifier::reject_recursive_types(K)]
#[verifier::reject_recursive_types(V)]
#[verifier::reject_recursive_types(S)]
pub struct ExIndexMap<K, V, S>(IndexMap<K, V, S>);

/// The entries of a map of flags, in the map's order, each key as its characters.
pub uninterp spec fn flag_entries(m: IndexMap<String, i8, RandomState>) -> Seq<(Seq<char>, i8)>;

/// `IndexMap::new`: an empty map.
#[verifier::external_body]
fn flags_new() -> (r: IndexMap<String, i8, RandomState>)
    ensures
        flag_entries(r) == Seq::<(Seq<char>, i8)>::empty(),
{
    IndexMap::new()
}

/// `IndexMap::insert`: an existing key keeps its place and takes the new value, the
/// old value returned; a new key is appended last and `None` returned.
#[verifier::external_body]
fn flags_insert(m: &mut IndexMap<String, i8, RandomState>, key: String, value: i8) -> (r: Option<i8>)
    ensures
        flag_entries(*final(m)) == entries_insert(flag_entries(*old(m)), key@, value),
        key_index(flag_entries(*old(m)), key@) < 0 ==> r is None,
        key_index(flag_entries(*old(m)), key@) >= 0 ==> r == Some(
            flag_entries(*old(m))[key_index(flag_entries(*old(m)), key@)].1,
        ),
{
    m.insert(key, value)
}

/// `IndexMap::get`: the value stored under `key`, if any.
#[verifier::external_body]
fn flags_get(m: &IndexMap<String, i8, RandomState>, key: &str) -> (r: Option<i8>)
    ensures
        key_index(flag_entries(*m), key@) < 0 ==> r is None,
        key_index(flag_entries(*m), key@) >= 0 ==> r == Some(flag_entries(*m)[key_index(flag_entries(*m), key@)].1),
{
    m.get(key).copied()
}

/// `IndexMap::shift_remove`: removes the entry of `key`, the entries after it
/// keeping their order, and returns its value.
#[verifier::external_body]
fn flags_shift_remove(m: &mut IndexMap<String, i8, RandomState>, key: &str) -> (r: Option<i8>)
    ensures
        flag_entries(*final(m)) == entries_remove(flag_entries(*old(m)), key@),
        key_index(flag_entries(*old(m)), key@) < 0 ==> r is None,
        key_index(flag_entries(*old(m)), key@) >= 0 ==> r == Some(
            flag_entries(*old(m))[key_index(flag_entries(*old(m)), key@)].1,
        ),
{
    m.shift_remove(key)
}

/// `IndexMap::clone`: a map of the same entries, in the same order.
#[verifier::external_body]
fn flags_clone(m: &IndexMap<String, i8, RandomState>) -> (r: IndexMap<String, i8, RandomState>)
    ensures
        flag_entries(r) == flag_entries(*m),
{
    m.clone()
}

/// `IndexMap::len`: the number of entries.
#[verifier::external_body]
fn flags_len(m: &IndexMap<String, i8, RandomState>) -> (r: usize)
    ensures
        r == flag_entries(*m).len(),
{
    m.len()
}

/// `IndexMap::iter`: the entries in the map's order, each key copied.
#[verifier::external_body]
fn flags_pairs(m: &IndexMap<String, i8, RandomState>) -> (r: Vec<(String, i8)>)
    ensures
        pairs_view(r@) == flag_entries(*m),
{
    m.iter().map(|(key, value)| (key.clone(), *value)).collect()
}

/// The pairs with each key as its characters.
pub open spec fn pairs_view(ps: Seq<(String, i8)>) -> Seq<(Seq<char>, i8)> {
    Seq::new(ps.len(), |i: int| (ps[i].0@, ps[i].1))
}

// ---------------------------------------------------------------------------
// Experiments
// ---------------------------------------------------------------------------

/// The experiment toggles of a `level.dat`: byte flags by name, in their order.
/// Two of them are equal when they hold the same flags, in whatever order.
#[derive(Debug, PartialEq, Eq)]
pub struct Experiments {
    flags: IndexMap<String, i8, RandomState>,
}

impl Experiments {
    /// No two flags share a name.
    #[verifier::type_invariant]
    spec fn names_once(self) -> bool {
        crate::tag::keys_distinct(flag_entries(self.flags))
    }
}

impl Clone for Experiments {
    fn clone(&self) -> (r: Self)
        ensures
            r@ == self@,
    {
        proof {
            use_type_invariant(self);
        }
        Experiments { flags: flags_clone(&self.flags) }
    }
}

impl Default for Experiments {
    fn default() -> (r: Self)
        ensures
            r@ == Seq::<(Seq<char>, i8)>::empty(),
    {
        Experiments::new()
    }
}

impl View for Experiments {
    type V = Seq<(Seq<char>, i8)>;

    closed spec fn view(&self) -> Seq<(Seq<char>, i8)> {
        flag_entries(self.flags)
    }
}

/// The flags of compound entries from index `i` on, added to `acc` one by one;
/// each value must be a byte.
pub open spec fn flags_from(es: Seq<(Seq<char>, TagView)>, i: int, acc: Seq<(Seq<char>, i8)>) -> std::result::Result<Seq<(Seq<char>, i8)>, Error>
    decreases es.len() - i,
{
    if i < 0 || i >= es.len() {
        Ok(acc)
    } else {
        match es[i].1 {
            TagView::Byte(b) => flags_from(es, i + 1, entries_insert(acc, es[i].0, b)),
            v => Err(
                Error::UnexpectedType {
                    context: "level_dat_experiments_value_type",
                    expected_id: type_id(TagType::Byte),
                    actual_id: type_id(view_type(v)),
                },
            ),
        }
    }
}

/// The compound entries of flags from index `i` on, added to `acc` one by one.
pub open spec fn bytes_from(fs: Seq<(Seq<char>, i8)>, i: int, acc: Seq<(Seq<char>, TagView)>) -> Seq<(Seq<char>, TagView)>
    decreases fs.len() - i,
{
    if i < 0 || i >= fs.len() {
        acc
    } else {
        bytes_from(fs, i + 1, entries_insert(acc, fs[i].0, TagView::Byte(fs[i].1)))
    }
}

/// The entries whose keys the registry knows (`known`) or does not know.
pub open spec fn keyed(fs: Seq<(Seq<char>, i8)>, known: bool) -> Seq<(Seq<char>, i8)> {
    fs.filter(|p: (Seq<char>, i8)| known_key(p.0) == known)
}

impl Experiments {
    /// No experiments.
    pub fn new() -> (r: Self)
        ensures
            r@ == Seq::<(Seq<char>, i8)>::empty(),
    {
        let flags = flags_new();
        assert(crate::tag::keys_distinct(flag_entries(flags)));
        Experiments { flags }
    }

    /// The flags of a compound, in its order; every value must be a byte.
    pub fn from_compound(compound: &CompoundTag) -> (r: Result<Self>)
        ensures
            match flags_from(compound@, 0, Seq::empty()) {
                Ok(fs) => r matches Ok(x) && x@ == fs,
                Err(e) => r matches Err(e2) && e2 == e,
            },
    {
        let entries = compound.entries();
        let ghost es = compound@;
        proof {
            crate::tag::lemma_entries_view(entries@);
        }
        let mut flags = flags_new();
        let mut i: usize = 0;
        while i < entries.len()
            invariant
                i <= entries@.len(),
                es == compound@,
                es == crate::tag::entries_view(entries@),
                es.len() == entries@.len(),
                forall|k: int| 0 <= k < es.len() ==> #[trigger] es[k] == (entries@[k].key@, entries@[k].value@),
                flags_from(es, 0, Seq::empty()) == flags_from(es, i as int, flag_entries(flags)),
                crate::tag::keys_distinct(flag_entries(flags)),
            decreases entries@.len() - i,
        {
            let entry = &entries[i];
            let flag = match &entry.value {
                Tag::Byte(flag) => *flag,
                other => {
                    return Err(
                        Error::UnexpectedType {
                            context: "level_dat_experiments_value_type",
                            expected_id: TagType::Byte.id(),
                            actual_id: other.tag_type().id(),
                        },
                    );
                },
            };
            proof {
                crate::tag::lemma_insert_distinct(flag_entries(flags), entry.key@, flag);
            }
            flags_insert(&mut flags, entry.key.clone(), flag);
            i = i + 1;
        }
        Ok(Experiments { flags })
    }

    /// A compound holding each flag as a byte, in order.
    pub fn to_compound(&self) -> (r: CompoundTag)
        ensures
            r@ == bytes_from(self@, 0, Seq::empty()),
    {
        let pairs = flags_pairs(&self.flags);
        let ghost fs = self@;
        let mut out = CompoundTag::new();
        let mut i: usize = 0;
        while i < pairs.len()
            invariant
                i <= pairs@.len(),
                fs == self@,
                pairs_view(pairs@) == fs,
                bytes_from(fs, 0, Seq::empty()) == bytes_from(fs, i as int, out@),
            decreases pairs@.len() - i,
        {
            assert(fs[i as int] == (pairs@[i as int].0@, pairs@[i as int].1));
            let key = pairs[i].0.clone();
            out.insert(key, Tag::Byte(pairs[i].1));
            i = i + 1;
        }
        out
    }

    /// The value of the experiment named `key`, if any.
    pub fn get(&self, key: &str) -> (r: Option<i8>)
        ensures
            key_index(self@, key@) < 0 ==> r is None,
            key_index(self@, key@) >= 0 ==> r == Some(self@[key_index(self@, key@)].1),
    {
        flags_get(&self.flags, key)
    }

    /// Sets a flag: an existing key keeps its place; a new one comes last.
    pub fn set(&mut self, key: &str, value: i8) -> (r: Option<i8>)
        ensures
            final(self)@ == entries_insert(old(self)@, key@, value),
            key_index(old(self)@, key@) < 0 ==> r is None,
            key_index(old(self)@, key@) >= 0 ==> r == Some(old(self)@[key_index(old(self)@, key@)].1),
    {
        proof {
            use_type_invariant(&*self);
            crate::tag::lemma_insert_distinct(old(self)@, key@, value);
        }
        let mut flags = flags_new();
        std::mem::swap(&mut flags, &mut self.flags);
        let r = flags_insert(&mut flags, key.to_owned(), value);
        self.flags = flags;
        r
    }

    /// Removes a flag, the others keeping their order.
    pub fn remove(&mut self, key: &str) -> (r: Option<i8>)
        ensures
            final(self)@ == entries_remove(old(self)@, key@),
            key_index(old(self)@, key@) < 0 ==> r is None,
            key_index(old(self)@, key@) >= 0 ==> r == Some(old(self)@[key_index(old(self)@, key@)].1),
    {
        proof {
            use_type_invariant(&*self);
            crate::tag::lemma_remove_distinct(old(self)@, key@);
        }
        let mut flags = flags_new();
        std::mem::swap(&mut flags, &mut self.flags);
        let r = flags_shift_remove(&mut flags, key);
        self.flags = flags;
        r
    }

    /// How many experiments are set.
    pub fn len(&self) -> (r: usize)
        ensures
            r == self@.len(),
    {
        flags_len(&self.flags)
    }

    /// Whether no experiment is set.
    pub fn is_empty(&self) -> (r: bool)
        ensures
            r == (self@.len() == 0),
    {
        flags_len(&self.flags) == 0
    }

    /// The flags in order; no two of them share a name.
    pub fn iter(&self) -> (r: Vec<(String, i8)>)
        ensures
            pairs_view(r@) == self@,
            crate::tag::keys_distinct(self@),
    {
        proof {
            use_type_invariant(self);
        }
        flags_pairs(&self.flags)
    }

    /// The flags whose keys the registry knows, in order.
    pub fn iter_known(&self) -> (r: Vec<(String, i8)>)
        ensures
            pairs_view(r@) == keyed(self@, true),
    {
        select(flags_pairs(&self.flags), true)
    }

    /// The flags whose keys the registry does not know, in order.
    pub fn iter_unknown(&self) -> (r: Vec<(String, i8)>)
        ensures
            pairs_view(r@) == keyed(self@, false),
    {
        select(flags_pairs(&self.flags), false)
    }
}

/// The pairs whose keys are known to the registry (`known`) or not, in order.
fn select(pairs: Vec<(String, i8)>, known: bool) -> (r: Vec<(String, i8)>)
    ensures
        pairs_view(r@) == keyed(pairs_view(pairs@), known),
{
    let ghost all = pairs_view(pairs@);
    let mut out: Vec<(String, i8)> = Vec::new();
    let mut i: usize = 0;
    while i < pairs.len()
        invariant
            i <= pairs@.len(),
            all == pairs_view(pairs@),
            pairs_view(out@) == keyed(all.take(i as int), known),
        decreases pairs@.len() - i,
    {
        let ghost before = out@;
        let kind = classify_experiment_key(pairs[i].0.as_str());
        let wanted = if known {
            kind == ExperimentKeyKind::Known
        } else {
            kind == ExperimentKeyKind::Unknown
        };
        proof {
            assert(all.take(i + 1 as int).drop_last() =~= all.take(i as int));
            assert(all.take(i + 1 as int).last() == all[i as int]);
            assert(all[i as int] == (pairs@[i as int].0@, pairs@[i as int].1));
            reveal(Seq::filter);
        }
        if wanted {
            let key = pairs[i].0.clone();
            out.push((key, pairs[i].1));
            proof {
                assert(pairs_view(out@) =~= pairs_view(before).push(all[i as int]));
            }
        }
        i = i + 1;
    }
    proof {
        assert(all.take(pairs@.len() as int) =~= all);
    }
    out
}

/// The experiments compound of a `level.dat` root.
pub fn read_experiments_from_root(root: &RootTag) -> (r: Result<Experiments>)
    ensures
        match root.payload@ {
            TagView::Compound(top) => {
                let i = key_index(top, "experiments"@);
                if i < 0 {
                    r matches Err(e) && e == Error::InvalidStructureShape { detail: "level_dat_experiments_missing" }
                } else {
                    match top[i].1 {
                        TagView::Compound(es) => match flags_from(es, 0, Seq::empty()) {
                            Ok(fs) => r matches Ok(x) && x@ == fs,
                            Err(e) => r matches Err(e2) && e2 == e,
                        },
                        v => r matches Err(e) && e == (Error::UnexpectedType {
                            context: "level_dat_experiments_type",
                            expected_id: type_id(TagType::Compound),
                            actual_id: type_id(view_type(v)),
                        }),
                    }
                }
            },
            v => r matches Err(e) && e == (Error::UnexpectedType {
                context: "level_dat_root_payload_type",
                expected_id: type_id(TagType::Compound),
                actual_id: type_id(view_type(v)),
            }),
        },
{
    let top = match &root.payload {
        Tag::Compound(value) => value,
        other => {
            return Err(
                Error::UnexpectedType {
                    context: "level_dat_root_payload_type",
                    expected_id: TagType::Compound.id(),
                    actual_id: other.tag_type().id(),
                },
            );
        },
    };
    let experiments_tag = match top.get("experiments") {
        Some(t) => t,
        None => return Err(Error::InvalidStructureShape { detail: "level_dat_experiments_missing" }),
    };
    let experiments_compound = match experiments_tag {
        Tag::Compound(value) => value,
        other => {
            return Err(
                Error::UnexpectedType {
                    context: "level_dat_experiments_type",
                    expected_id: TagType::Compound.id(),
                    actual_id: other.tag_type().id(),
                },
            );
        },
    };
    Experiments::from_compound(experiments_compound)
}

/// Stores the experiments as the `experiments` compound of a `level.dat` root.
pub fn write_experiments_to_root(root: &mut RootTag, experiments: &Experiments) -> (r: Result<()>)
    ensures
        match old(root).payload@ {
            TagView::Compound(top) => r is Ok && final(root).name == old(root).name && final(root).payload@
                == TagView::Compound(
                entries_insert(top, "experiments"@, TagView::Compound(bytes_from(experiments@, 0, Seq::empty()))),
            ),
            v => r matches Err(e) && e == (Error::UnexpectedType {
                context: "level_dat_root_payload_type",
                expected_id: type_id(TagType::Compound),
                actual_id: type_id(view_type(v)),
            }) && *final(root) == *old(root),
        },
{
    match &mut root.payload {
        Tag::Compound(value) => {
            value.insert("experiments".to_owned(), Tag::Compound(experiments.to_compound()));
            Ok(())
        },
        other => Err(
            Error::UnexpectedType {
                context: "level_dat_root_payload_type",
                expected_id: TagType::Compound.id(),
                actual_id: other.tag_type().id(),
            },
        ),
    }
}

// ---------------------------------------------------------------------------
// Laws
// ---------------------------------------------------------------------------

/// The flags that compound entries of bytes hold.
pub open spec fn byte_flags(es: Seq<(Seq<char>, TagView)>) -> Seq<(Seq<char>, i8)> {
    Seq::new(
        es.len(),
        |j: int|
            (
                es[j].0,
                match es[j].1 {
                    TagView::Byte(b) => b,
                    _ => 0i8,
                },
            ),
    )
}

/// The compound entries of bytes that flags stand for.
pub open spec fn flag_bytes(fs: Seq<(Seq<char>, i8)>) -> Seq<(Seq<char>, TagView)> {
    Seq::new(fs.len(), |j: int| (fs[j].0, TagView::Byte(fs[j].1)))
}

proof fn lemma_insert_fresh<V>(acc: Seq<(Seq<char>, V)>, k: Seq<char>, v: V)
    requires
        forall|j: int| 0 <= j < acc.len() ==> acc[j].0 != k,
    ensures
        entries_insert(acc, k, v) == acc.push((k, v)),
{
    lemma_key_index(acc, k);
}

proof fn lemma_flags_from(es: Seq<(Seq<char>, TagView)>, i: int)
    requires
        crate::tag::keys_distinct(es),
        0 <= i <= es.len(),
        forall|j: int| 0 <= j < i ==> #[trigger] es[j].1 is Byte,
    ensures
        flags_from(es, i, byte_flags(es.take(i))) matches Ok(fs) ==> fs == byte_flags(es) && forall|j: int|
            0 <= j < es.len() ==> #[trigger] es[j].1 is Byte,
    decreases es.len() - i,
{
    if i < es.len() {
        if let TagView::Byte(b) = es[i].1 {
            let acc = byte_flags(es.take(i));
            assert forall|j: int| 0 <= j < acc.len() implies acc[j].0 != es[i].0 by {
                assert(acc[j].0 == es[j].0);
            }
            lemma_insert_fresh(acc, es[i].0, b);
            assert(acc.push((es[i].0, b)) =~= byte_flags(es.take(i + 1)));
            lemma_flags_from(es, i + 1);
        }
    } else {
        assert(es.take(i) =~= es);
    }
}

proof fn lemma_bytes_from(fs: Seq<(Seq<char>, i8)>, i: int)
    requires
        crate::tag::keys_distinct(fs),
        0 <= i <= fs.len(),
    ensures
        bytes_from(fs, i, flag_bytes(fs.take(i))) == flag_bytes(fs),
    decreases fs.len() - i,
{
    if i < fs.len() {
        let acc = flag_bytes(fs.take(i));
        assert forall|j: int| 0 <= j < acc.len() implies acc[j].0 != fs[i].0 by {
            assert(acc[j].0 == fs[j].0);
        }
        lemma_insert_fresh(acc, fs[i].0, TagView::Byte(fs[i].1));
        assert(acc.push((fs[i].0, TagView::Byte(fs[i].1))) =~= flag_bytes(fs.take(i + 1)));
        lemma_bytes_from(fs, i + 1);
    } else {
        assert(fs.take(i) =~= fs);
    }
}

/// Reading the experiments of a compound whose names are distinct and writing
/// them back gives the same compound: unknown keys, values and order are kept.
pub proof fn law_experiments_roundtrip(es: Seq<(Seq<char>, TagView)>)
    requires
        crate::tag::keys_distinct(es),
        flags_from(es, 0, Seq::empty()) is Ok,
    ensures
        bytes_from(flags_from(es, 0, Seq::empty())->Ok_0, 0, Seq::empty()) == es,
{
    assert(byte_flags(es.take(0)) =~= Seq::<(Seq<char>, i8)>::empty());
    lemma_flags_from(es, 0);
    let fs = flags_from(es, 0, Seq::empty())->Ok_0;
    assert(crate::tag::keys_distinct(fs));
    assert(flag_bytes(fs.take(0)) =~= Seq::<(Seq<char>, TagView)>::empty());
    lemma_bytes_from(fs, 0);
    assert forall|j: int| 0 <= j < es.len() implies #[trigger] flag_bytes(fs)[j] == es[j] by {
        assert(es[j].1 is Byte);
    }
    assert(flag_bytes(fs) =~= es);
}

proof fn lemma_flags_of_bytes(fs: Seq<(Seq<char>, i8)>, i: int)
    requires
        crate::tag::keys_distinct(fs),
        0 <= i <= fs.len(),
    ensures
        flags_from(flag_bytes(fs), i, fs.take(i)) == Ok::<Seq<(Seq<char>, i8)>, Error>(fs),
    decreases fs.len() - i,
{
    if i < fs.len() {
        let acc = fs.take(i);
        assert forall|j: int| 0 <= j < acc.len() implies acc[j].0 != fs[i].0 by {
            assert(acc[j] == fs[j]);
        }
        lemma_insert_fresh(acc, fs[i].0, fs[i].1);
        assert(acc.push((fs[i].0, fs[i].1)) =~= fs.take(i + 1));
        lemma_flags_of_bytes(fs, i + 1);
    } else {
        assert(fs.take(i) =~= fs);
    }
}

/// Writing experiments into the compound of a root and reading them back gives
/// the same experiments: the `experiments` entry holds their compound, from which
/// exactly the same flags, in the same order, are read.
pub proof fn law_experiments_write_read(top: Seq<(Seq<char>, TagView)>, fs: Seq<(Seq<char>, i8)>)
    requires
        crate::tag::keys_distinct(fs),
    ensures
        ({
            let c = TagView::Compound(bytes_from(fs, 0, Seq::empty()));
            let top2 = entries_insert(top, "experiments"@, c);
            let i = key_index(top2, "experiments"@);
            &&& i >= 0
            &&& top2[i].1 == c
            &&& flags_from(bytes_from(fs, 0, Seq::empty()), 0, Seq::empty()) == Ok::<
                Seq<(Seq<char>, i8)>,
                Error,
            >(fs)
        }),
{
    let k = "experiments"@;
    let c = TagView::Compound(bytes_from(fs, 0, Seq::empty()));
    let top2 = entries_insert(top, k, c);
    lemma_key_index(top, k);
    lemma_key_index(top2, k);
    let i0 = key_index(top, k);
    if i0 >= 0 {
        assert(top2[i0].0 == k);
        assert forall|j: int| 0 <= j < i0 implies top2[j].0 != k by {
            assert(top2[j] == top[j]);
        }
    } else {
        assert(top2[top.len() as int].0 == k);
        assert forall|j: int| 0 <= j < top.len() implies top2[j].0 != k by {
            assert(top2[j] == top[j]);
        }
    }
    assert(flag_bytes(fs.take(0)) =~= Seq::<(Seq<char>, TagView)>::empty());
    lemma_bytes_from(fs, 0);
    assert(fs.take(0) =~= Seq::<(Seq<char>, i8)>::empty());
    lemma_flags_of_bytes(fs, 0);
}

} // verus!
