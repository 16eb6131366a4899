//! The header map of a request or a response: header names with one value
//! each, kept in the order in which the names first came in.

use vstd::prelude::*;
use crate::http::{Header, HeaderName};

verus! {

/// One header in specifications: its name and its value.
pub type Field = (HeaderName, Seq<char>);

/// Index of the first field of `fields` at or after `start` whose name is
/// `key`, or `fields.len()` if there is none.
pub open spec fn position_from(fields: Seq<Field>, key: HeaderName, start: int) -> int
    decreases fields.len() - start,
{
    if start < 0 || start >= fields.len() {
        fields.len() as int
    } else if fields[start].0 == key {
        start
    } else {
        position_from(fields, key, start + 1)
    }
}

/// Index of the first field named `key`, or `fields.len()` if there is none.
pub open spec fn position(fields: Seq<Field>, key: HeaderName) -> int {
    position_from(fields, key, 0)
}

/// The value of the header `key`, if `fields` has that header.
pub open spec fn lookup(fields: Seq<Field>, key: HeaderName) -> Option<Seq<char>> {
    let i = position(fields, key);
    if 0 <= i < fields.len() {
        Some(fields[i].1)
    } else {
        None
    }
}

/// `fields` after `key` has been set to `value`: the header keeps its place if
/// it was there, and goes to the end if it was not.
pub open spec fn upsert(fields: Seq<Field>, key: HeaderName, value: Seq<char>) -> Seq<Field> {
    let i = position(fields, key);
    if 0 <= i < fields.len() {
        fields.update(i, (key, value))
    } else {
        fields.push((key, value))
    }
}

/// `base` after each field of `extra` has been set in it, first to last.
pub open spec fn merged(base: Seq<Field>, extra: Seq<Field>) -> Seq<Field>
    decreases extra.len(),
{
    if extra.len() == 0 {
        base
    } else {
        upsert(merged(base, extra.drop_last()), extra.last().0, extra.last().1)
    }
}

/// No header name occurs twice in `fields`.
pub open spec fn distinct_names(fields: Seq<Field>) -> bool {
    forall|i: int, j: int| 0 <= i < j < fields.len() ==> fields[i].0 != fields[j].0
}

/// `position_from` returns the least index at or after `start` that holds `key`.
pub proof fn lemma_position_from(fields: Seq<Field>, key: HeaderName, start: int)
    requires
        0 <= start <= fields.len(),
    ensures
        start <= position_from(fields, key, start) <= fields.len(),
        forall|j: int| start <= j < position_from(fields, key, start) ==> fields[j].0 != key,
        position_from(fields, key, start) < fields.len() ==> fields[position_from(
            fields,
            key,
            start,
        )].0 == key,
    decreases fields.len() - start,
{
    if start < fields.len() && fields[start].0 != key {
        lemma_position_from(fields, key, start + 1);
    }
}

/// Any index with the properties of `lemma_position_from` is the one that
/// `position_from` returns.
pub proof fn lemma_position_unique(fields: Seq<Field>, key: HeaderName, start: int, e: int)
    requires
        0 <= start <= e <= fields.len(),
        forall|j: int| start <= j < e ==> fields[j].0 != key,
        e < fields.len() ==> fields[e].0 == key,
    ensures
        position_from(fields, key, start) == e,
    decreases e - start,
{
    if start < e {
        lemma_position_unique(fields, key, start + 1, e);
    }
}

/// The last write wins: after `key` is set to `value`, looking `key` up gives
/// `value`, every other header is as it was, and no name has become a duplicate.
pub proof fn lemma_upsert(fields: Seq<Field>, key: HeaderName, value: Seq<char>, other: HeaderName)
    ensures
        lookup(upsert(fields, key, value), key) == Some(value),
        other != key ==> lookup(upsert(fields, key, value), other) == lookup(fields, other),
        distinct_names(fields) ==> distinct_names(upsert(fields, key, value)),
{
    let after = upsert(fields, key, value);
    let i = position(fields, key);
    lemma_position_from(fields, key, 0);
    lemma_position_unique(after, key, 0, i);
    if other != key {
        let j = position(fields, other);
        lemma_position_from(fields, other, 0);
        if j < fields.len() {
            lemma_position_unique(after, other, 0, j);
        } else {
            lemma_position_unique(after, other, 0, after.len() as int);
        }
    }
}

/// Merging keeps header names distinct.
pub proof fn lemma_merged_distinct(base: Seq<Field>, extra: Seq<Field>)
    requires
        distinct_names(base),
    ensures
        distinct_names(merged(base, extra)),
    decreases extra.len(),
{
    if extra.len() > 0 {
        lemma_merged_distinct(base, extra.drop_last());
        lemma_upsert(
            merged(base, extra.drop_last()),
            extra.last().0,
            extra.last().1,
            extra.last().0,
        );
    }
}

/// A header map. Setting a header that is already there replaces its value
/// where it stands; a new header goes to the end.
#[derive(Debug, PartialEq, Eq)]
pub struct Headers {
    entries: Vec<(Header, String)>,
}

impl View for Headers {
    type V = Seq<Field>;

    closed spec fn view(&self) -> Seq<Field> {
        Seq::new(self.entries@.len(), |i: int| (self.entries@[i].0@, self.entries@[i].1@))
    }
}

impl Headers {
    /// No header name occurs twice. Every map built with `new`, `insert` and
    /// `extend` is well-formed.
    pub open spec fn wf(&self) -> bool {
        distinct_names(self@)
    }

    /// The map without any header.
    pub fn new() -> (r: Self)
        ensures
            r@ == Seq::<Field>::empty(),
            r.wf(),
    {
        let r = Headers { entries: Vec::new() };
        r
    }

    /// The number of headers.
    pub fn len(&self) -> (r: usize)
        ensures
            r == self@.len(),
    {
        self.entries.len()
    }

    /// The name of the header at place `i`.
    pub fn name_at(&self, i: usize) -> (r: &Header)
        requires
            i < self@.len(),
        ensures
            r@ == self@[i as int].0,
    {
        &self.entries[i].0
    }

    /// The value of the header at place `i`.
    pub fn value_at(&self, i: usize) -> (r: &String)
        requires
            i < self@.len(),
        ensures
            r@ == self@[i as int].1,
    {
        &self.entries[i].1
    }

    /// The value of the header `key`, if the map has it.
    pub fn get(&self, key: &Header) -> (r: Option<&String>)
        ensures
            match r {
                Some(value) => lookup(self@, key@) == Some(value@),
                None => lookup(self@, key@) is None,
            },
    {
        let mut i: usize = 0;
        while i < self.entries.len()
            invariant
                i <= self@.len(),
                self@.len() == self.entries@.len(),
                position(self@, key@) == position_from(self@, key@, i as int),
            decreases self.entries.len() - i,
        {
            if self.entries[i].0.same(key) {
                return Some(&self.entries[i].1);
            }
            i += 1;
        }
        None
    }

    /// Sets the header `key` to `value`.
    pub fn insert(&mut self, key: Header, value: String)
        ensures
            final(self)@ == upsert(old(self)@, key@, value@),
            old(self).wf() ==> final(self).wf(),
    {
        proof {
            lemma_upsert(self@, key@, value@, key@);
        }
        let mut i: usize = 0;
        while i < self.entries.len()
            invariant
                i <= self@.len(),
                self@.len() == self.entries@.len(),
                *self == *old(self),
                position(self@, key@) == position_from(self@, key@, i as int),
            decreases self.entries.len() - i,
        {
            if self.entries[i].0.same(&key) {
                self.entries[i] = (key, value);
                return;
            }
            i += 1;
        }
        self.entries.push((key, value));
    }

    /// Sets each header of `other` in this map, in the order of `other`.
    pub fn extend(&mut self, other: &Headers)
        ensures
            final(self)@ == merged(old(self)@, other@),
            old(self).wf() ==> final(self).wf(),
    {
        proof {
            if self.wf() {
                lemma_merged_distinct(self@, other@);
            }
        }
        let mut i: usize = 0;
        while i < other.entries.len()
            invariant
                i <= other@.len(),
                other@.len() == other.entries@.len(),
                self@ == merged(old(self)@, other@.subrange(0, i as int)),
            decreases other.entries.len() - i,
        {
            let key = other.entries[i].0.clone();
            let value = other.entries[i].1.clone();
            proof {
                let longer = other@.subrange(0, i + 1);
                assert(longer.drop_last() =~= other@.subrange(0, i as int));
            }
            self.insert(key, value);
            i += 1;
        }
        assert(other@.subrange(0, i as int) =~= other@);
    }
}

impl Clone for Headers {
    fn clone(&self) -> (r: Self)
        ensures
            r@ == self@,
    {
        let mut entries: Vec<(Header, String)> = Vec::new();
        let mut i: usize = 0;
        while i < self.entries.len()
            invariant
                i <= self.entries@.len(),
                entries@.len() == i,
                forall|j: int|
                    0 <= j < i ==> entries@[j].0@ == self.entries@[j].0@ && entries@[j].1@
                        == self.entries@[j].1@,
            decreases self.entries.len() - i,
        {
            entries.push((self.entries[i].0.clone(), self.entries[i].1.clone()));
            i += 1;
        }
        let r = Headers { entries };
        r
    }
}

} // verus!
