//! An entity collection: columns keyed by attribute name.

use vstd::prelude::*;

use crate::attribute::{AttrColumn, RawAttribute};

verus! {

pub open spec fn keys_unique(s: Seq<(String, RawAttribute)>) -> bool {
    forall|i: int, j: int|
        0 <= i < s.len() && 0 <= j < s.len() && i != j ==> (#[trigger] s[i]).0@ != (
        #[trigger] s[j]).0@
}

/// The map that a sequence of entries with distinct names stands for.
pub open spec fn entries_map(s: Seq<(String, RawAttribute)>) -> Map<Seq<char>, AttrColumn>
    decreases s.len(),
{
    if s.len() == 0 {
        Map::empty()
    } else {
        entries_map(s.drop_last()).insert(s.last().0@, s.last().1@)
    }
}

proof fn lemma_entries_dom(s: Seq<(String, RawAttribute)>)
    ensures
        forall|k: Seq<char>|
            #[trigger] entries_map(s).contains_key(k) <==> exists|i: int|
                0 <= i < s.len() && (#[trigger] s[i]).0@ == k,
    decreases s.len(),
{
    if s.len() > 0 {
        let init = s.drop_last();
        lemma_entries_dom(init);
        assert forall|k: Seq<char>| #[trigger]
            entries_map(s).contains_key(k) <==> exists|i: int|
                0 <= i < s.len() && (#[trigger] s[i]).0@ == k by {
            if entries_map(s).contains_key(k) && k != s.last().0@ {
                assert(entries_map(init).contains_key(k));
                let i = choose|i: int| 0 <= i < init.len() && (#[trigger] init[i]).0@ == k;
                assert(s[i] == init[i]);
            }
            if exists|i: int| 0 <= i < s.len() && (#[trigger] s[i]).0@ == k {
                let i = choose|i: int| 0 <= i < s.len() && (#[trigger] s[i]).0@ == k;
                if i < s.len() - 1 {
                    assert(init[i] == s[i]);
                    assert(entries_map(init).contains_key(k));
                }
            }
        }
    }
}

proof fn lemma_entries_at(s: Seq<(String, RawAttribute)>, i: int)
    requires
        keys_unique(s),
        0 <= i < s.len(),
    ensures
        entries_map(s).contains_key(s[i].0@),
        entries_map(s)[s[i].0@] == s[i].1@,
    decreases s.len(),
{
    if i < s.len() - 1 {
        let init = s.drop_last();
        assert(init[i] == s[i]);
        assert(s[i].0@ != s.last().0@);
        lemma_entries_at(init, i);
    }
}

proof fn lemma_entries_remove(s: Seq<(String, RawAttribute)>, i: int)
    requires
        keys_unique(s),
        0 <= i < s.len(),
    ensures
        keys_unique(s.remove(i)),
        entries_map(s.remove(i)) == entries_map(s).remove(s[i].0@),
    decreases s.len(),
{
    let init = s.drop_last();
    lemma_entries_dom(init);
    if i == s.len() - 1 {
        assert(s.remove(i) =~= init);
        assert(!entries_map(init).contains_key(s[i].0@));
        assert(entries_map(s.remove(i)) =~= entries_map(s).remove(s[i].0@));
    } else {
        assert(init[i] == s[i]);
        lemma_entries_remove(init, i);
        assert(s.remove(i) =~= init.remove(i).push(s.last()));
        assert(s.remove(i).drop_last() =~= init.remove(i));
        assert(s[i].0@ != s.last().0@);
        assert(entries_map(s.remove(i)) =~= entries_map(s).remove(s[i].0@));
    }
}

proof fn lemma_entries_push(s: Seq<(String, RawAttribute)>, e: (String, RawAttribute))
    requires
        keys_unique(s),
        !entries_map(s).contains_key(e.0@),
    ensures
        keys_unique(s.push(e)),
        entries_map(s.push(e)) == entries_map(s).insert(e.0@, e.1@),
{
    lemma_entries_dom(s);
    assert forall|i: int| 0 <= i < s.len() implies (#[trigger] s.push(e)[i]).0@ != e.0@ by {
        assert(s.push(e)[i] == s[i]);
    }
    assert(s.push(e).drop_last() =~= s);
}

/// Columns keyed by attribute name; names are unique and their order carries
/// no meaning.
#[derive(Debug, Clone)]
pub struct Attributes {
    entries: Vec<(String, RawAttribute)>,
}

impl View for Attributes {
    type V = Map<Seq<char>, AttrColumn>;

    closed spec fn view(&self) -> Map<Seq<char>, AttrColumn> {
        entries_map(self.entries@)
    }
}

impl Attributes {
    /// Names are unique.
    pub closed spec fn wf(&self) -> bool {
        keys_unique(self.entries@)
    }

    /// An empty collection.
    pub fn new() -> (r: Attributes)
        ensures
            r.wf(),
            r@ == Map::<Seq<char>, AttrColumn>::empty(),
    {
        Attributes { entries: Vec::new() }
    }

    /// The position of the entry named `name`, if any.
    fn find(&self, name: &String) -> (r: Option<usize>)
        requires
            self.wf(),
        ensures
            r is None <==> !self@.contains_key(name@),
            r matches Some(i) ==> i < self.entries@.len() && self.entries@[i as int].0@ == name@,
    {
        proof {
            lemma_entries_dom(self.entries@);
        }
        let mut i: usize = 0;
        while i < self.entries.len()
            invariant
                i <= self.entries@.len(),
                forall|j: int| 0 <= j < i ==> (#[trigger] self.entries@[j]).0@ != name@,
            decreases self.entries@.len() - i,
        {
            if self.entries[i].0 == *name {
                proof {
                    lemma_entries_dom(self.entries@);
                }
                assert(self.entries@[i as int].0@ == name@);
                return Some(i);
            }
            i = i + 1;
        }
        None
    }

    /// Whether a column is named `name`.
    pub fn contains_key(&self, name: &String) -> (r: bool)
        requires
            self.wf(),
        ensures
            r == self@.contains_key(name@),
    {
        self.find(name).is_some()
    }

    /// The column named `name`, if any.
    pub fn get(&self, name: &String) -> (r: Option<&RawAttribute>)
        requires
            self.wf(),
        ensures
            r is Some <==> self@.contains_key(name@),
            r matches Some(a) ==> a@ == self@[name@],
    {
        match self.find(name) {
            Some(i) => {
                proof {
                    lemma_entries_at(self.entries@, i as int);
                }
                Some(&self.entries[i].1)
            },
            None => None,
        }
    }

    /// Whether the collection holds no column.
    pub fn is_empty(&self) -> (r: bool)
        requires
            self.wf(),
        ensures
            r == (self@ == Map::<Seq<char>, AttrColumn>::empty()),
    {
        proof {
            lemma_entries_dom(self.entries@);
            if self.entries@.len() == 0 {
                assert(self@ =~= Map::<Seq<char>, AttrColumn>::empty());
            } else {
                let i = self.entries@.len() - 1;
                assert(self@.contains_key(self.entries@[i].0@));
                assert(!Map::<Seq<char>, AttrColumn>::empty().contains_key(self.entries@[i].0@));
            }
        }
        self.entries.len() == 0
    }

    /// Takes the column named `name` out of the collection.
    pub fn remove(&mut self, name: &String) -> (r: Option<RawAttribute>)
        requires
            old(self).wf(),
        ensures
            final(self).wf(),
            final(self)@ == old(self)@.remove(name@),
            r is Some <==> old(self)@.contains_key(name@),
            r matches Some(a) ==> a@ == old(self)@[name@],
    {
        match self.find(name) {
            Some(i) => {
                proof {
                    lemma_entries_at(self.entries@, i as int);
                    lemma_entries_remove(self.entries@, i as int);
                }
                let (_, a) = self.entries.remove(i);
                Some(a)
            },
            None => {
                assert(self@.remove(name@) =~= self@);
                None
            },
        }
    }

    /// Sets the column named `name`, and hands back the one it replaces.
    pub fn insert(&mut self, name: String, attr: RawAttribute) -> (r: Option<RawAttribute>)
        requires
            old(self).wf(),
        ensures
            final(self).wf(),
            final(self)@ == old(self)@.insert(name@, attr@),
            r is Some <==> old(self)@.contains_key(name@),
            r matches Some(a) ==> a@ == old(self)@[name@],
    {
        let replaced = self.remove(&name);
        proof {
            lemma_entries_push(self.entries@, (name, attr));
        }
        self.entries.push((name, attr));
        assert(self@ =~= old(self)@.insert(name@, attr@));
        replaced
    }

    /// The entries, in no particular order.
    pub fn into_entries(self) -> (r: Vec<(String, RawAttribute)>)
        requires
            self.wf(),
        ensures
            keys_unique(r@),
            entries_map(r@) == self@,
    {
        self.entries
    }
}

} // verus!
