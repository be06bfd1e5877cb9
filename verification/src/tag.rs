use crate::error::{Error, Result};
use crate::text::str_eq;
use vstd::prelude::*;

verus! {

broadcast use vstd::seq::group_seq_axioms;

/// The type of an NBT value, identified on the wire by a one-byte id.
#[derive(Debug, Clone, Copy, PartialEq, Eq, Hash, Structural)]
pub enum TagType {
    End,
    Byte,
    Short,
    Int,
    Long,
    Float,
    Double,
    ByteArray,
    String,
    List,
    Compound,
    IntArray,
    LongArray,
}

/// The wire id of a tag type.
pub open spec fn type_id(t: TagType) -> u8 {
    match t {
        TagType::End => 0,
        TagType::Byte => 1,
        TagType::Short => 2,
        TagType::Int => 3,
        TagType::Long => 4,
        TagType::Float => 5,
        TagType::Double => 6,
        TagType::ByteArray => 7,
        TagType::String => 8,
        TagType::List => 9,
        TagType::Compound => 10,
        TagType::IntArray => 11,
        TagType::LongArray => 12,
    }
}

/// The tag type with the given wire id, if there is one.
pub open spec fn type_of_id(id: u8) -> Option<TagType> {
    if id == 0 {
        Some(TagType::End)
    } else if id == 1 {
        Some(TagType::Byte)
    } else if id == 2 {
        Some(TagType::Short)
    } else if id == 3 {
        Some(TagType::Int)
    } else if id == 4 {
        Some(TagType::Long)
    } else if id == 5 {
        Some(TagType::Float)
    } else if id == 6 {
        Some(TagType::Double)
    } else if id == 7 {
        Some(TagType::ByteArray)
    } else if id == 8 {
        Some(TagType::String)
    } else if id == 9 {
        Some(TagType::List)
    } else if id == 10 {
        Some(TagType::Compound)
    } else if id == 11 {
        Some(TagType::IntArray)
    } else if id == 12 {
        Some(TagType::LongArray)
    } else {
        None
    }
}

/// Decoding an id gives back the type it came from, and the ids are exactly `0..=12`.
pub proof fn lemma_type_id_roundtrip(t: TagType, id: u8)
    ensures
        type_of_id(type_id(t)) == Some(t),
        type_of_id(id) matches Some(u) ==> type_id(u) == id,
        type_of_id(id) is Some <==> id <= 12,
{
}

/// The result of decoding a wire id.
pub open spec fn decode_type_id(id: u8) -> std::result::Result<TagType, Error> {
    match type_of_id(id) {
        Some(t) => Ok(t),
        None => Err(Error::UnknownTag { id }),
    }
}

impl TagType {
    /// The type id on the wire.
    pub fn id(self) -> (r: u8)
        ensures
            r == type_id(self),
    {
        match self {
            TagType::End => 0,
            TagType::Byte => 1,
            TagType::Short => 2,
            TagType::Int => 3,
            TagType::Long => 4,
            TagType::Float => 5,
            TagType::Double => 6,
            TagType::ByteArray => 7,
            TagType::String => 8,
            TagType::List => 9,
            TagType::Compound => 10,
            TagType::IntArray => 11,
            TagType::LongArray => 12,
        }
    }

    /// The tag type with the given wire id; `UnknownTag` for an id above 12.
    pub fn from_id(value: u8) -> (r: Result<TagType>)
        ensures
            r == decode_type_id(value),
    {
        match value {
            0 => Ok(TagType::End),
            1 => Ok(TagType::Byte),
            2 => Ok(TagType::Short),
            3 => Ok(TagType::Int),
            4 => Ok(TagType::Long),
            5 => Ok(TagType::Float),
            6 => Ok(TagType::Double),
            7 => Ok(TagType::ByteArray),
            8 => Ok(TagType::String),
            9 => Ok(TagType::List),
            10 => Ok(TagType::Compound),
            11 => Ok(TagType::IntArray),
            12 => Ok(TagType::LongArray),
            _ => Err(Error::UnknownTag { id: value }),
        }
    }
}

impl TryFrom<u8> for TagType {
    type Error = Error;

    fn try_from(value: u8) -> (r: Result<TagType>) {
        TagType::from_id(value)
    }
}

impl vstd::std_specs::convert::TryFromSpecImpl<u8> for TagType {
    open spec fn obeys_try_from_spec() -> bool {
        true
    }

    open spec fn try_from_spec(v: u8) -> Result<TagType> {
        decode_type_id(v)
    }
}

/// The mathematical value of a tag: sequences in place of vectors, characters in
/// place of strings, and compound entries in their order.
pub enum TagView {
    End,
    Byte(i8),
    Short(i16),
    Int(i32),
    Long(i64),
    Float(u32),
    Double(u64),
    ByteArray(Seq<u8>),
    String(Seq<char>),
    List(TagType, Seq<TagView>),
    Compound(Seq<(Seq<char>, TagView)>),
    IntArray(Seq<i32>),
    LongArray(Seq<i64>),
}

/// The type of a tag value.
pub open spec fn view_type(v: TagView) -> TagType {
    match v {
        TagView::End => TagType::End,
        TagView::Byte(_) => TagType::Byte,
        TagView::Short(_) => TagType::Short,
        TagView::Int(_) => TagType::Int,
        TagView::Long(_) => TagType::Long,
        TagView::Float(_) => TagType::Float,
        TagView::Double(_) => TagType::Double,
        TagView::ByteArray(_) => TagType::ByteArray,
        TagView::String(_) => TagType::String,
        TagView::List(..) => TagType::List,
        TagView::Compound(_) => TagType::Compound,
        TagView::IntArray(_) => TagType::IntArray,
        TagView::LongArray(_) => TagType::LongArray,
    }
}

/// The index of the first entry named `k`, or -1.
pub open spec fn key_index<V>(es: Seq<(Seq<char>, V)>, k: Seq<char>) -> int
    decreases es.len(),
{
    if es.len() == 0 {
        -1
    } else if es[0].0 == k {
        0
    } else {
        let r = key_index(es.subrange(1, es.len() as int), k);
        if r < 0 {
            -1
        } else {
            r + 1
        }
    }
}

/// Inserting into an ordered map: an existing entry keeps its position and takes
/// the new value; a new key goes at the end.
pub open spec fn entries_insert<V>(es: Seq<(Seq<char>, V)>, k: Seq<char>, v: V) -> Seq<(Seq<char>, V)> {
    let i = key_index(es, k);
    if i >= 0 {
        es.update(i, (k, v))
    } else {
        es.push((k, v))
    }
}

/// Removing a key from an ordered map, keeping the order of the others.
pub open spec fn entries_remove<V>(es: Seq<(Seq<char>, V)>, k: Seq<char>) -> Seq<(Seq<char>, V)> {
    let i = key_index(es, k);
    if i >= 0 {
        es.remove(i)
    } else {
        es
    }
}

/// No two entries share a key.
pub open spec fn keys_distinct<V>(es: Seq<(Seq<char>, V)>) -> bool {
    forall|i: int, j: int| 0 <= i < j < es.len() ==> es[i].0 != es[j].0
}

/// `key_index` finds exactly the entry whose key matches, and nothing before it.
pub proof fn lemma_key_index<V>(es: Seq<(Seq<char>, V)>, k: Seq<char>)
    ensures
        -1 <= key_index(es, k) < es.len(),
        key_index(es, k) >= 0 ==> es[key_index(es, k)].0 == k,
        key_index(es, k) >= 0 ==> forall|j: int| 0 <= j < key_index(es, k) ==> es[j].0 != k,
        key_index(es, k) < 0 ==> forall|j: int| 0 <= j < es.len() ==> es[j].0 != k,
    decreases es.len(),
{
    if es.len() > 0 && es[0].0 != k {
        let tail = es.subrange(1, es.len() as int);
        lemma_key_index(tail, k);
        assert forall|j: int| 1 <= j < es.len() implies es[j] == tail[j - 1] by {}
    }
}

/// Inserting a key keeps keys distinct.
pub proof fn lemma_insert_distinct<V>(es: Seq<(Seq<char>, V)>, k: Seq<char>, v: V)
    requires
        keys_distinct(es),
    ensures
        keys_distinct(entries_insert(es, k, v)),
{
    lemma_key_index(es, k);
}

/// Removing a key keeps keys distinct, and the key is gone afterwards.
pub proof fn lemma_remove_distinct<V>(es: Seq<(Seq<char>, V)>, k: Seq<char>)
    requires
        keys_distinct(es),
    ensures
        keys_distinct(entries_remove(es, k)),
        key_index(entries_remove(es, k), k) < 0,
{
    lemma_key_index(es, k);
    let r = entries_remove(es, k);
    let i = key_index(es, k);
    if i >= 0 {
        assert forall|a: int, b: int| 0 <= a < b < r.len() implies r[a].0 != r[b].0 by {
            let a2 = if a < i { a } else { a + 1 };
            let b2 = if b < i { b } else { b + 1 };
            assert(r[a] == es[a2]);
            assert(r[b] == es[b2]);
        }
        assert forall|j: int| 0 <= j < r.len() implies r[j].0 != k by {
            let j2 = if j < i { j } else { j + 1 };
            assert(r[j] == es[j2]);
        }
    }
    lemma_key_index(r, k);
}

/// Every compound, at any depth, names each of its entries once.
pub open spec fn wf_view(v: TagView) -> bool
    decreases v,
{
    match v {
        TagView::List(_, es) => forall|j: int| 0 <= j < es.len() ==> wf_view(#[trigger] es[j]),
        TagView::Compound(es) => keys_distinct(es) && forall|j: int|
            0 <= j < es.len() ==> wf_view(#[trigger] es[j].1),
        _ => true,
    }
}

/// A well-formed list holds well-formed elements.
pub proof fn lemma_wf_list(t: TagType, es: Seq<TagView>)
    requires
        wf_view(TagView::List(t, es)),
    ensures
        forall|j: int| 0 <= j < es.len() ==> #[trigger] wf_view(es[j]),
{
    let v = TagView::List(t, es);
    assert(v is List);
    assert(v->List_1 == es);
    assert(forall|j: int| 0 <= j < es.len() ==> wf_view(#[trigger] es[j])) by {
        assert(wf_view(v));
    }
}

/// A well-formed compound names each entry once and holds well-formed values.
pub proof fn lemma_wf_compound(es: Seq<(Seq<char>, TagView)>)
    requires
        wf_view(TagView::Compound(es)),
    ensures
        keys_distinct(es),
        forall|j: int| 0 <= j < es.len() ==> #[trigger] wf_view(es[j].1),
{
}

/// An NBT list: an element type and elements of that type.
#[derive(Debug, PartialEq)]
pub struct ListTag {
    pub element_type: TagType,
    pub elements: Vec<Tag>,
}

/// An NBT compound: named values in insertion order, each name at most once.
/// Two compounds are equal as maps, whatever the order of their entries.
#[derive(Debug)]
pub struct CompoundTag {
    pub(crate) entries: Vec<Entry>,
}

/// One named value of a compound.
#[derive(Debug, PartialEq)]
pub struct Entry {
    pub key: String,
    pub value: Tag,
}

/// An NBT value. `Float` and `Double` hold the IEEE-754 bit patterns of the value,
/// and compare as the numbers they stand for.
#[derive(Debug)]
pub enum Tag {
    /// Marker value for TAG_End (id=0); not a normal payload value.
    End,
    Byte(i8),
    Short(i16),
    Int(i32),
    Long(i64),
    Float(u32),
    Double(u64),
    ByteArray(Vec<u8>),
    String(String),
    List(ListTag),
    Compound(CompoundTag),
    IntArray(Vec<i32>),
    LongArray(Vec<i64>),
}

/// The mathematical value of a tag.
pub open spec fn tag_view(t: Tag) -> TagView
    decreases t,
{
    match t {
        Tag::End => TagView::End,
        Tag::Byte(v) => TagView::Byte(v),
        Tag::Short(v) => TagView::Short(v),
        Tag::Int(v) => TagView::Int(v),
        Tag::Long(v) => TagView::Long(v),
        Tag::Float(v) => TagView::Float(v),
        Tag::Double(v) => TagView::Double(v),
        Tag::ByteArray(v) => TagView::ByteArray(v@),
        Tag::String(v) => TagView::String(v@),
        Tag::List(l) => TagView::List(l.element_type, tags_view(l.elements@)),
        Tag::Compound(c) => TagView::Compound(compound_view(c)),
        Tag::IntArray(v) => TagView::IntArray(v@),
        Tag::LongArray(v) => TagView::LongArray(v@),
    }
}

/// The values of a sequence of tags.
pub open spec fn tags_view(s: Seq<Tag>) -> Seq<TagView>
    decreases s,
{
    if s.len() == 0 {
        Seq::empty()
    } else {
        tags_view(s.subrange(0, s.len() - 1)).push(tag_view(s[s.len() - 1]))
    }
}

/// The entries of a compound, in order.
pub closed spec fn compound_view(c: CompoundTag) -> Seq<(Seq<char>, TagView)>
    decreases c,
{
    entries_view(c.entries@)
}

/// The values of a sequence of entries.
pub open spec fn entries_view(s: Seq<Entry>) -> Seq<(Seq<char>, TagView)>
    decreases s,
{
    if s.len() == 0 {
        Seq::empty()
    } else {
        entries_view(s.subrange(0, s.len() - 1)).push((s[s.len() - 1].key@, tag_view(s[s.len() - 1].value)))
    }
}

/// A compound's view is the view of its entries.
pub(crate) proof fn lemma_compound_view(c: CompoundTag)
    ensures
        c@ == entries_view(c.entries@),
{
}

impl CompoundTag {
    /// No two entries of a compound share a name.
    #[verifier::type_invariant]
    pub(crate) open spec fn names_once(self) -> bool {
        keys_distinct(entries_view(self.entries@))
    }
}

impl View for Tag {
    type V = TagView;

    open spec fn view(&self) -> TagView {
        tag_view(*self)
    }
}

impl View for CompoundTag {
    type V = Seq<(Seq<char>, TagView)>;

    open spec fn view(&self) -> Seq<(Seq<char>, TagView)> {
        compound_view(*self)
    }
}

/// Viewing a sequence of tags views each tag in place.
pub proof fn lemma_tags_view(s: Seq<Tag>)
    ensures
        tags_view(s).len() == s.len(),
        forall|i: int| 0 <= i < s.len() ==> #[trigger] tags_view(s)[i] == tag_view(s[i]),
    decreases s.len(),
{
    if s.len() > 0 {
        lemma_tags_view(s.subrange(0, s.len() - 1));
    }
}

/// Viewing entries views each entry in place.
pub proof fn lemma_entries_view(s: Seq<Entry>)
    ensures
        entries_view(s).len() == s.len(),
        forall|i: int|
            0 <= i < s.len() ==> #[trigger] entries_view(s)[i] == (s[i].key@, tag_view(s[i].value)),
    decreases s.len(),
{
    if s.len() > 0 {
        lemma_entries_view(s.subrange(0, s.len() - 1));
    }
}

/// Pushing a tag pushes its view.
pub proof fn lemma_tags_view_push(s: Seq<Tag>, t: Tag)
    ensures
        tags_view(s.push(t)) == tags_view(s).push(tag_view(t)),
{
    assert(s.push(t).subrange(0, s.len() as int) =~= s);
}

/// The error of a list whose elements do not all have its element type, if any.
pub open spec fn list_type_error(element_type: TagType, elements: Seq<TagView>) -> Option<Error> {
    if element_type == TagType::End && elements.len() > 0 {
        Some(Error::InvalidListHeader { element_type_id: 0, length: elements.len() as usize })
    } else {
        first_mismatch(element_type, elements, 0)
    }
}

/// The error for the first element, from index `i` on, whose type is not `t`.
pub open spec fn first_mismatch(t: TagType, elements: Seq<TagView>, i: int) -> Option<Error>
    decreases elements.len() - i,
{
    if i < 0 || i >= elements.len() {
        None
    } else if view_type(elements[i]) != t {
        Some(
            Error::UnexpectedType {
                context: "list_element_type",
                expected_id: type_id(t),
                actual_id: type_id(view_type(elements[i])),
            },
        )
    } else {
        first_mismatch(t, elements, i + 1)
    }
}

/// No mismatch exists from `i` on exactly when every element from `i` has type `t`.
pub proof fn lemma_first_mismatch(t: TagType, elements: Seq<TagView>, i: int)
    requires
        0 <= i <= elements.len(),
    ensures
        first_mismatch(t, elements, i) is None <==> forall|j: int|
            i <= j < elements.len() ==> view_type(#[trigger] elements[j]) == t,
    decreases elements.len() - i,
{
    if i < elements.len() {
        lemma_first_mismatch(t, elements, i + 1);
    }
}

impl ListTag {
    /// A list of the given elements; refused unless every element has the element type,
    /// and unless an `End`-typed list is empty.
    pub fn new(element_type: TagType, elements: Vec<Tag>) -> (r: Result<Self>)
        ensures
            match list_type_error(element_type, tags_view(elements@)) {
                Some(e) => r == Err::<ListTag, Error>(e),
                None => r matches Ok(l) && l.element_type == element_type && l.elements@ == elements@,
            },
    {
        let list = Self { element_type, elements };
        match list.validate() {
            Ok(()) => Ok(list),
            Err(e) => Err(e),
        }
    }

    /// An empty list of the given element type.
    pub fn empty(element_type: TagType) -> (r: Self)
        ensures
            r.element_type == element_type,
            r.elements@ == Seq::<Tag>::empty(),
    {
        Self { element_type, elements: Vec::new() }
    }

    /// Checks that every element has the element type, and that a non-empty list is not of `End`.
    pub fn validate(&self) -> (r: Result<()>)
        ensures
            match list_type_error(self.element_type, tags_view(self.elements@)) {
                Some(e) => r == Err::<(), Error>(e),
                None => r is Ok,
            },
    {
        proof {
            lemma_tags_view(self.elements@);
        }
        if self.element_type == TagType::End && self.elements.len() > 0 {
            return Err(
                Error::InvalidListHeader {
                    element_type_id: self.element_type.id(),
                    length: self.elements.len(),
                },
            );
        }
        let mut i: usize = 0;
        while i < self.elements.len()
            invariant
                i <= self.elements@.len(),
                !(self.element_type == TagType::End && self.elements@.len() > 0),
                tags_view(self.elements@).len() == self.elements@.len(),
                forall|j: int|
                    0 <= j < self.elements@.len() ==> #[trigger] tags_view(self.elements@)[j]
                        == tag_view(self.elements@[j]),
                first_mismatch(self.element_type, tags_view(self.elements@), 0) == first_mismatch(
                    self.element_type,
                    tags_view(self.elements@),
                    i as int,
                ),
            decreases self.elements@.len() - i,
        {
            let actual = self.elements[i].tag_type();
            assert(tags_view(self.elements@)[i as int] == tag_view(self.elements@[i as int]));
            if actual != self.element_type {
                assert(view_type(tags_view(self.elements@)[i as int]) == actual);
                assert(first_mismatch(self.element_type, tags_view(self.elements@), i as int) == Some(
                    Error::UnexpectedType {
                        context: "list_element_type",
                        expected_id: type_id(self.element_type),
                        actual_id: type_id(actual),
                    },
                ));
                return Err(
                    Error::UnexpectedType {
                        context: "list_element_type",
                        expected_id: self.element_type.id(),
                        actual_id: actual.id(),
                    },
                );
            }
            i = i + 1;
        }
        Ok(())
    }
}

impl Tag {
    /// Establishes that the tag is well formed: every compound in it, at any
    /// depth, names each of its entries once, as the compound type keeps. It walks
    /// the tag and changes nothing; its use is to give callers `wf_view`, the
    /// premise of the round-trip laws, for a tag they hold.
    pub fn names_once(&self)
        ensures
            wf_view(self@),
        decreases self,
    {
        match self {
            Tag::List(l) => {
                proof {
                    lemma_tags_view(l.elements@);
                }
                let ghost es = tags_view(l.elements@);
                let mut i: usize = 0;
                while i < l.elements.len()
                    invariant
                        i <= l.elements@.len(),
                        *self == Tag::List(*l),
                        es == tags_view(l.elements@),
                        es.len() == l.elements@.len(),
                        forall|j: int| 0 <= j < es.len() ==> #[trigger] es[j] == tag_view(l.elements@[j]),
                        forall|j: int| 0 <= j < i ==> wf_view(#[trigger] es[j]),
                    decreases l.elements@.len() - i,
                {
                    assert(self@ == TagView::List(l.element_type, tags_view(l.elements@)));
                    assert(decreases_to!(*self => l.elements@[i as int]));
                    l.elements[i].names_once();
                    i = i + 1;
                }
                assert(self@ == TagView::List(l.element_type, es));
            },
            Tag::Compound(c) => {
                proof {
                    use_type_invariant(c);
                    lemma_compound_view(*c);
                    lemma_entries_view(c.entries@);
                }
                let ghost es = c@;
                let mut i: usize = 0;
                while i < c.entries.len()
                    invariant
                        i <= c.entries@.len(),
                        *self == Tag::Compound(*c),
                        es == c@,
                        keys_distinct(es),
                        es.len() == c.entries@.len(),
                        forall|j: int|
                            0 <= j < es.len() ==> #[trigger] es[j] == (
                                c.entries@[j].key@,
                                tag_view(c.entries@[j].value),
                            ),
                        forall|j: int| 0 <= j < i ==> wf_view(#[trigger] es[j].1),
                    decreases c.entries@.len() - i,
                {
                    assert(self@ == TagView::Compound(c@));
                    assert(decreases_to!(*self => c.entries@[i as int].value));
                    c.entries[i].value.names_once();
                    assert(es[i as int].1 == c.entries@[i as int].value@);
                    i = i + 1;
                }
                assert(self@ == TagView::Compound(es));
            },
            _ => {},
        }
    }

    /// The type of this tag.
    pub fn tag_type(&self) -> (r: TagType)
        ensures
            r == view_type(self@),
    {
        match self {
            Tag::End => TagType::End,
            Tag::Byte(_) => TagType::Byte,
            Tag::Short(_) => TagType::Short,
            Tag::Int(_) => TagType::Int,
            Tag::Long(_) => TagType::Long,
            Tag::Float(_) => TagType::Float,
            Tag::Double(_) => TagType::Double,
            Tag::ByteArray(_) => TagType::ByteArray,
            Tag::String(_) => TagType::String,
            Tag::List(_) => TagType::List,
            Tag::Compound(_) => TagType::Compound,
            Tag::IntArray(_) => TagType::IntArray,
            Tag::LongArray(_) => TagType::LongArray,
        }
    }
}

impl CompoundTag {
    /// An empty compound.
    pub fn new() -> (r: Self)
        ensures
            r@ == Seq::<(Seq<char>, TagView)>::empty(),
    {
        let r = CompoundTag { entries: Vec::new() };
        proof {
            reveal_with_fuel(entries_view, 1);
        }
        r
    }

    /// The number of entries.
    pub fn len(&self) -> (r: usize)
        ensures
            r == self@.len(),
    {
        proof {
            lemma_entries_view(self.entries@);
        }
        self.entries.len()
    }

    /// Whether the compound has no entries.
    pub fn is_empty(&self) -> (r: bool)
        ensures
            r == (self@.len() == 0),
    {
        self.len() == 0
    }

    /// The entries in order; no two of them share a name.
    pub fn entries(&self) -> (r: &Vec<Entry>)
        ensures
            entries_view(r@) == self@,
            keys_distinct(self@),
    {
        proof {
            use_type_invariant(self);
        }
        &self.entries
    }

    fn find(&self, key: &str) -> (r: Option<usize>)
        ensures
            match r {
                Some(i) => key_index(self@, key@) == i && i < self.entries@.len(),
                None => key_index(self@, key@) < 0,
            },
    {
        proof {
            lemma_entries_view(self.entries@);
            lemma_key_index(self@, key@);
        }
        let mut i: usize = 0;
        while i < self.entries.len()
            invariant
                i <= self.entries@.len(),
                entries_view(self.entries@) == self@,
                self@.len() == self.entries@.len(),
                forall|j: int|
                    0 <= j < self.entries@.len() ==> #[trigger] self@[j] == (
                        self.entries@[j].key@,
                        tag_view(self.entries@[j].value),
                    ),
                forall|j: int| 0 <= j < i ==> self@[j].0 != key@,
                -1 <= key_index(self@, key@) < self@.len(),
                key_index(self@, key@) >= 0 ==> self@[key_index(self@, key@)].0 == key@,
                key_index(self@, key@) >= 0 ==> forall|j: int|
                    0 <= j < key_index(self@, key@) ==> self@[j].0 != key@,
                key_index(self@, key@) < 0 ==> forall|j: int| 0 <= j < self@.len() ==> self@[j].0 != key@,
            decreases self.entries@.len() - i,
        {
            if str_eq(self.entries[i].key.as_str(), key) {
                assert(self@[i as int].0 == key@);
                return Some(i);
            }
            i = i + 1;
        }
        None
    }

    /// The value stored under `key`.
    pub fn get(&self, key: &str) -> (r: Option<&Tag>)
        ensures
            key_index(self@, key@) < 0 ==> r is None,
            key_index(self@, key@) >= 0 ==> (r matches Some(t) && t@ == self@[key_index(self@, key@)].1),
    {
        proof {
            lemma_entries_view(self.entries@);
        }
        match self.find(key) {
            Some(i) => Some(&self.entries[i].value),
            None => None,
        }
    }

    /// Whether an entry has this key.
    pub fn contains_key(&self, key: &str) -> (r: bool)
        ensures
            r == (key_index(self@, key@) >= 0),
    {
        self.find(key).is_some()
    }

    /// Stores `value` under `key`: an existing entry keeps its place and gets the new
    /// value (the old one is returned); a new key is appended.
    pub fn insert(&mut self, key: String, value: Tag) -> (r: Option<Tag>)
        ensures
            final(self)@ == entries_insert(old(self)@, key@, value@),
            key_index(old(self)@, key@) < 0 ==> r is None,
            key_index(old(self)@, key@) >= 0 ==> (r matches Some(t) && t@ == old(self)@[key_index(
                old(self)@,
                key@,
            )].1),
    {
        proof {
            use_type_invariant(&*self);
            lemma_entries_view(self.entries@);
            lemma_insert_distinct(old(self)@, key@, value@);
        }
        let found = self.find(key.as_str());
        let mut entries: Vec<Entry> = Vec::new();
        std::mem::swap(&mut entries, &mut self.entries);
        let ghost old_entries = entries@;
        assert(entries_view(old_entries) == old(self)@);
        match found {
            Some(i) => {
                let old_entry = entries.remove(i);
                entries.insert(i, Entry { key, value });
                proof {
                    lemma_entries_view(entries@);
                    lemma_entries_view(old_entries);
                    assert(entries@ =~= old_entries.update(i as int, Entry { key, value }));
                    assert(entries_view(entries@) =~= entries_insert(
                        entries_view(old_entries),
                        key@,
                        value@,
                    ));
                }
                self.entries = entries;
                Some(old_entry.value)
            },
            None => {
                entries.push(Entry { key, value });
                proof {
                    assert(entries@.subrange(0, old_entries.len() as int) =~= old_entries);
                    assert(entries_view(entries@) =~= entries_insert(
                        entries_view(old_entries),
                        key@,
                        value@,
                    ));
                }
                self.entries = entries;
                None
            },
        }
    }

    /// Removes `key`, keeping the order of the remaining entries.
    pub fn shift_remove(&mut self, key: &str) -> (r: Option<Tag>)
        ensures
            final(self)@ == entries_remove(old(self)@, key@),
            key_index(old(self)@, key@) < 0 ==> r is None,
            key_index(old(self)@, key@) >= 0 ==> (r matches Some(t) && t@ == old(self)@[key_index(
                old(self)@,
                key@,
            )].1),
    {
        proof {
            use_type_invariant(&*self);
            lemma_entries_view(self.entries@);
            lemma_remove_distinct(old(self)@, key@);
        }
        match self.find(key) {
            Some(i) => {
                let mut entries: Vec<Entry> = Vec::new();
                std::mem::swap(&mut entries, &mut self.entries);
                let ghost old_entries = entries@;
                assert(entries_view(old_entries) == old(self)@);
                let old_entry = entries.remove(i);
                proof {
                    lemma_entries_view(entries@);
                    lemma_entries_view(old_entries);
                    assert(entries_view(entries@) =~= entries_remove(
                        entries_view(old_entries),
                        key@,
                    ));
                }
                self.entries = entries;
                Some(old_entry.value)
            },
            None => None,
        }
    }
}

} // verus!
