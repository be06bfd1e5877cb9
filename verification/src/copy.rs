use crate::tag::{
    entries_view, lemma_compound_view, lemma_entries_view, lemma_tags_view, lemma_tags_view_push,
    tag_view, tags_view, CompoundTag, Entry, ListTag, Tag, TagType, TagView,
};
use vstd::prelude::*;

verus! {

broadcast use vstd::seq::group_seq_axioms;

// ---------------------------------------------------------------------------
// Copies
// ---------------------------------------------------------------------------

/// A copy of a tag with the same view.
fn clone_tag(t: &Tag) -> (r: Tag)
    ensures
        r@ == t@,
    decreases t, 1int,
{
    match t {
        Tag::End => Tag::End,
        Tag::Byte(v) => Tag::Byte(*v),
        Tag::Short(v) => Tag::Short(*v),
        Tag::Int(v) => Tag::Int(*v),
        Tag::Long(v) => Tag::Long(*v),
        Tag::Float(v) => Tag::Float(*v),
        Tag::Double(v) => Tag::Double(*v),
        Tag::ByteArray(v) => Tag::ByteArray(v.clone()),
        Tag::String(v) => Tag::String(v.clone()),
        Tag::List(_) => Tag::List(clone_list(t)),
        Tag::Compound(_) => Tag::Compound(clone_compound(t)),
        Tag::IntArray(v) => Tag::IntArray(v.clone()),
        Tag::LongArray(v) => Tag::LongArray(v.clone()),
    }
}

fn clone_list(t: &Tag) -> (r: ListTag)
    requires
        t is List,
    ensures
        t@ == TagView::List(r.element_type, tags_view(r.elements@)),
    decreases t, 0int,
{
    let list = match t {
        Tag::List(list) => list,
        _ => return ListTag::empty(TagType::End),
    };
    proof {
        lemma_tags_view(list.elements@);
    }
    let mut out: Vec<Tag> = Vec::new();
    let mut i: usize = 0;
    while i < list.elements.len()
        invariant
            i <= list.elements@.len(),
            *t == Tag::List(*list),
            tags_view(out@) == tags_view(list.elements@).take(i as int),
            tags_view(list.elements@).len() == list.elements@.len(),
            forall|k: int| 0 <= k < list.elements@.len() ==> #[trigger] tags_view(list.elements@)[k] == tag_view(list.elements@[k]),
        decreases list.elements@.len() - i,
    {
        assert(t@ == TagView::List(list.element_type, tags_view(list.elements@)));
        assert(decreases_to!(*t => list.elements@[i as int]));
        let c = clone_tag(&list.elements[i]);
        proof {
            lemma_tags_view_push(out@, c);
            assert(tags_view(list.elements@).take(i + 1 as int) =~= tags_view(list.elements@).take(i as int).push(c@));
        }
        out.push(c);
        i = i + 1;
    }
    proof {
        assert(tags_view(list.elements@).take(list.elements@.len() as int) =~= tags_view(list.elements@));
    }
    ListTag { element_type: list.element_type, elements: out }
}

fn clone_compound(t: &Tag) -> (r: CompoundTag)
    requires
        t is Compound,
    ensures
        t@ == TagView::Compound(r@),
    decreases t, 0int,
{
    let c = match t {
        Tag::Compound(c) => c,
        _ => return CompoundTag::new(),
    };
    proof {
        lemma_compound_view(*c);
        lemma_entries_view(c.entries@);
        use_type_invariant(c);
    }
    let mut out: Vec<Entry> = Vec::new();
    let mut i: usize = 0;
    while i < c.entries.len()
        invariant
            i <= c.entries@.len(),
            *t == Tag::Compound(*c),
            c@ == entries_view(c.entries@),
            entries_view(out@) == c@.take(i as int),
            c@.len() == c.entries@.len(),
            forall|k: int| 0 <= k < c.entries@.len() ==> #[trigger] c@[k] == (c.entries@[k].key@, tag_view(c.entries@[k].value)),
        decreases c.entries@.len() - i,
    {
        let entry = &c.entries[i];
        assert(*entry == c.entries@[i as int]);
        assert(t@ == TagView::Compound(c@));
        assert(decreases_to!(*t => c.entries@[i as int].value));
        let value = clone_tag(&entry.value);
        let e = Entry { key: entry.key.clone(), value };
        proof {
            assert(out@.push(e).subrange(0, out@.len() as int) =~= out@);
            assert(c@.take(i + 1 as int) =~= c@.take(i as int).push((e.key@, e.value@)));
        }
        out.push(e);
        i = i + 1;
    }
    proof {
        assert(c@.take(c.entries@.len() as int) =~= c@);
    }
    let r = CompoundTag { entries: out };
    proof {
        lemma_compound_view(r);
    }
    r
}

impl Clone for Tag {
    fn clone(&self) -> (r: Self)
        ensures
            r@ == self@,
    {
        clone_tag(self)
    }
}

impl Clone for ListTag {
    fn clone(&self) -> (r: Self)
        ensures
            r.element_type == self.element_type,
            tags_view(r.elements@) == tags_view(self.elements@),
    {
        let t = Tag::List(ListTag { element_type: self.element_type, elements: Vec::new() });
        proof {
            lemma_tags_view(self.elements@);
        }
        let mut out: Vec<Tag> = Vec::new();
        let mut i: usize = 0;
        while i < self.elements.len()
            invariant
                i <= self.elements@.len(),
                tags_view(out@) == tags_view(self.elements@).take(i as int),
                tags_view(self.elements@).len() == self.elements@.len(),
                forall|k: int| 0 <= k < self.elements@.len() ==> #[trigger] tags_view(self.elements@)[k] == tag_view(self.elements@[k]),
            decreases self.elements@.len() - i,
        {
            let c = clone_tag(&self.elements[i]);
            proof {
                lemma_tags_view_push(out@, c);
                assert(tags_view(self.elements@).take(i + 1 as int) =~= tags_view(self.elements@).take(i as int).push(c@));
            }
            out.push(c);
            i = i + 1;
        }
        proof {
            assert(tags_view(self.elements@).take(self.elements@.len() as int) =~= tags_view(self.elements@));
        }
        ListTag { element_type: self.element_type, elements: out }
    }
}

impl Clone for CompoundTag {
    fn clone(&self) -> (r: Self)
        ensures
            r@ == self@,
    {
        proof {
            lemma_compound_view(*self);
            lemma_entries_view(self.entries@);
            use_type_invariant(self);
        }
        let mut out: Vec<Entry> = Vec::new();
        let mut i: usize = 0;
        while i < self.entries.len()
            invariant
                i <= self.entries@.len(),
                self@ == entries_view(self.entries@),
                entries_view(out@) == self@.take(i as int),
                self@.len() == self.entries@.len(),
                forall|k: int| 0 <= k < self.entries@.len() ==> #[trigger] self@[k] == (self.entries@[k].key@, tag_view(self.entries@[k].value)),
            decreases self.entries@.len() - i,
        {
            let value = clone_tag(&self.entries[i].value);
            let e = Entry { key: self.entries[i].key.clone(), value };
            proof {
                assert(out@.push(e).subrange(0, out@.len() as int) =~= out@);
                assert(self@.take(i + 1 as int) =~= self@.take(i as int).push((e.key@, e.value@)));
            }
            out.push(e);
            i = i + 1;
        }
        proof {
            assert(self@.take(self.entries@.len() as int) =~= self@);
        }
        let r = CompoundTag { entries: out };
        proof {
            lemma_compound_view(r);
        }
        r
    }
}

} // verus!
