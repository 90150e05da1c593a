//! An ordered attribute list with case-insensitive names.
use vstd::prelude::*;
use crate::encoding::Encoding;
use crate::name::{
    lower,
    to_lower,
    validate_attribute_name,
    attribute_name_verdict,
    AttributeNameError,
};

verus! {

/// One attribute: its name as last written, and its value. The normalised
/// name is kept alongside for matching.
pub struct Attribute {
    key: String,
    name: String,
    value: String,
}

impl View for Attribute {
    /// The name as written, and the value.
    type V = (Seq<char>, Seq<char>);

    closed spec fn view(&self) -> (Seq<char>, Seq<char>) {
        (self.name@, self.value@)
    }
}

impl Attribute {
    pub closed spec fn wf(&self) -> bool {
        self.key@ == lower(self.name@)
    }

    /// The normalised (lowercased) name.
    pub fn name(&self) -> (r: String)
        requires
            self.wf(),
        ensures
            r@ == lower(self@.0),
    {
        self.key.clone()
    }

    /// The name as it was last written.
    pub fn written_name(&self) -> (r: &str)
        ensures
            r@ == self@.0,
    {
        self.name.as_str()
    }

    pub fn value(&self) -> (r: &str)
        ensures
            r@ == self@.1,
    {
        self.value.as_str()
    }
}

/// An attribute as the store sees it: written name and value.
pub type Entry = (Seq<char>, Seq<char>);

pub open spec fn key_of(e: Entry) -> Seq<char> {
    lower(e.0)
}

/// Position of the first entry at or after `i` whose normalised name is `k`,
/// or -1.
pub open spec fn index_from(v: Seq<Entry>, k: Seq<char>, i: int) -> int
    decreases v.len() - i,
{
    if i < 0 || i >= v.len() {
        -1
    } else if key_of(v[i]) == k {
        i
    } else {
        index_from(v, k, i + 1)
    }
}

pub open spec fn index_of(v: Seq<Entry>, k: Seq<char>) -> int {
    index_from(v, k, 0)
}

/// The value stored under normalised name `k`.
pub open spec fn lookup(v: Seq<Entry>, k: Seq<char>) -> Option<Seq<char>> {
    if index_of(v, k) >= 0 {
        Some(v[index_of(v, k)].1)
    } else {
        None
    }
}

/// No two entries share a normalised name.
pub open spec fn keys_unique(v: Seq<Entry>) -> bool {
    forall|i: int, j: int|
        0 <= i < v.len() && 0 <= j < v.len() && i != j ==> key_of(#[trigger] v[i]) != key_of(
            #[trigger] v[j],
        )
}

/// The list after setting `name` to `value`: an entry with the same normalised
/// name is updated in place, otherwise a new entry goes at the end.
pub open spec fn with_attribute(v: Seq<Entry>, name: Seq<char>, value: Seq<char>) -> Seq<Entry> {
    let i = index_of(v, lower(name));
    if i >= 0 {
        v.update(i, (name, value))
    } else {
        v.push((name, value))
    }
}

/// The list after removing the entry with normalised name `k`, if any.
pub open spec fn without_attribute(v: Seq<Entry>, k: Seq<char>) -> Seq<Entry> {
    let i = index_of(v, k);
    if i >= 0 {
        v.remove(i)
    } else {
        v
    }
}

/// What `index_from` finds, or that nothing matches.
pub proof fn lemma_index_from(v: Seq<Entry>, k: Seq<char>, i: int)
    requires
        0 <= i,
    ensures
        index_from(v, k, i) == -1 || (i <= index_from(v, k, i) < v.len()),
        index_from(v, k, i) == -1 ==> forall|j: int| i <= j < v.len() ==> key_of(#[trigger] v[j]) != k,
        index_from(v, k, i) >= 0 ==> key_of(v[index_from(v, k, i)]) == k,
        forall|j: int| i <= j < index_from(v, k, i) ==> key_of(#[trigger] v[j]) != k,
    decreases v.len() - i,
{
    if i < v.len() && key_of(v[i]) != k {
        lemma_index_from(v, k, i + 1);
    }
}

/// With unique names, the entry found is the only one with that name.
pub proof fn lemma_index_of_unique(v: Seq<Entry>, k: Seq<char>, j: int)
    requires
        keys_unique(v),
        0 <= j < v.len(),
        key_of(v[j]) == k,
    ensures
        index_of(v, k) == j,
{
    lemma_index_from(v, k, 0);
}

/// Setting an attribute keeps names unique.
pub proof fn lemma_with_attribute_unique(v: Seq<Entry>, name: Seq<char>, value: Seq<char>)
    requires
        keys_unique(v),
    ensures
        keys_unique(with_attribute(v, name, value)),
{
    let w = with_attribute(v, name, value);
    lemma_index_from(v, lower(name), 0);
    let i = index_of(v, lower(name));
    if i >= 0 {
        assert forall|j: int| 0 <= j < w.len() implies key_of(#[trigger] w[j]) == key_of(v[j]) by {}
    } else {
        assert forall|j: int| 0 <= j < v.len() implies key_of(#[trigger] w[j]) != key_of(
            w[v.len() as int],
        ) by {
            assert(w[j] == v[j]);
        }
    }
}

/// Removing an attribute keeps names unique.
pub proof fn lemma_without_attribute_unique(v: Seq<Entry>, k: Seq<char>)
    requires
        keys_unique(v),
    ensures
        keys_unique(without_attribute(v, k)),
{
    let i = index_of(v, k);
    lemma_index_from(v, k, 0);
    if i >= 0 {
        let w = v.remove(i);
        assert forall|j: int| 0 <= j < w.len() implies #[trigger] w[j] == v[if j < i {
            j
        } else {
            j + 1
        }] by {}
    }
}

/// Lookup is case-insensitive: after setting `name` to `value`, a lookup
/// under any name that lowercases alike finds `value`.
pub proof fn lemma_lookup_after_set(
    v: Seq<Entry>,
    name: Seq<char>,
    value: Seq<char>,
    other: Seq<char>,
)
    requires
        keys_unique(v),
        lower(other) == lower(name),
    ensures
        lookup(with_attribute(v, name, value), lower(other)) == Some(value),
{
    let w = with_attribute(v, name, value);
    lemma_index_from(v, lower(name), 0);
    lemma_with_attribute_unique(v, name, value);
    let i = index_of(v, lower(name));
    let p = if i >= 0 {
        i
    } else {
        v.len() as int
    };
    assert(w[p] == (name, value));
    lemma_index_of_unique(w, lower(other), p);
}

/// Setting an attribute that is present under any case updates its value in
/// place: the list keeps its length and every other entry.
pub proof fn lemma_set_keeps_position(v: Seq<Entry>, name: Seq<char>, value: Seq<char>, i: int)
    requires
        keys_unique(v),
        0 <= i < v.len(),
        key_of(v[i]) == lower(name),
    ensures
        with_attribute(v, name, value).len() == v.len(),
        with_attribute(v, name, value)[i] == (name, value),
        forall|j: int|
            0 <= j < v.len() && j != i ==> #[trigger] with_attribute(v, name, value)[j] == v[j],
{
    lemma_index_of_unique(v, lower(name), i);
}

/// Removing an attribute present under any case drops exactly that entry,
/// keeps the others in order, and leaves no entry under any name that
/// lowercases alike.
pub proof fn lemma_remove_case_insensitive(v: Seq<Entry>, name: Seq<char>, other: Seq<char>, i: int)
    requires
        keys_unique(v),
        0 <= i < v.len(),
        key_of(v[i]) == lower(name),
        lower(other) == lower(name),
    ensures
        without_attribute(v, lower(name)) == v.remove(i),
        without_attribute(v, lower(name)).len() == v.len() - 1,
        lookup(without_attribute(v, lower(name)), lower(other)) is None,
{
    lemma_index_of_unique(v, lower(name), i);
    let w = v.remove(i);
    lemma_index_from(w, lower(other), 0);
    if index_of(w, lower(other)) >= 0 {
        let j = index_of(w, lower(other));
        let jj = if j < i {
            j
        } else {
            j + 1
        };
        assert(w[j] == v[jj]);
    }
}

/// The attributes of one element, in order.
pub struct Attributes {
    entries: Vec<Attribute>,
}

impl View for Attributes {
    type V = Seq<Entry>;

    closed spec fn view(&self) -> Seq<Entry> {
        self.entries@.map_values(|a: Attribute| a@)
    }
}

impl Attributes {
    pub closed spec fn wf(&self) -> bool {
        &&& forall|i: int| 0 <= i < self.entries@.len() ==> (#[trigger] self.entries@[i]).wf()
        &&& keys_unique(self@)
    }

    pub fn new() -> (r: Self)
        ensures
            r.wf(),
            r@ == Seq::<Entry>::empty(),
    {
        let r = Attributes { entries: Vec::new() };
        assert(r@ =~= Seq::<Entry>::empty());
        r
    }

    /// The attributes in order.
    pub fn as_vec(&self) -> (r: &Vec<Attribute>)
        requires
            self.wf(),
        ensures
            r@.map_values(|a: Attribute| a@) == self@,
            forall|i: int| 0 <= i < r@.len() ==> (#[trigger] r@[i]).wf(),
    {
        &self.entries
    }

    /// Position of the entry whose normalised name is `key`.
    fn find(&self, key: &String) -> (r: Option<usize>)
        requires
            self.wf(),
        ensures
            r is Some ==> r->0 as int == index_of(self@, key@),
            r is Some ==> r->0 < self.entries@.len(),
            r is None ==> index_of(self@, key@) < 0,
    {
        proof {
            lemma_index_from(self@, key@, 0);
        }
        let mut i: usize = 0;
        while i < self.entries.len()
            invariant
                self.wf(),
                i <= self.entries@.len(),
                index_of(self@, key@) == index_from(self@, key@, i as int),
            decreases self.entries@.len() - i,
        {
            assert(self@[i as int] == self.entries@[i as int]@);
            if self.entries[i].key == *key {
                return Some(i);
            }
            i += 1;
        }
        None
    }

    /// The value of the attribute named `name`, in any case.
    pub fn get(&self, name: &str) -> (r: Option<String>)
        requires
            self.wf(),
        ensures
            r is Some <==> lookup(self@, lower(name@)) is Some,
            r is Some ==> r->0@ == lookup(self@, lower(name@))->0,
    {
        let key = to_lower(name);
        match self.find(&key) {
            Some(i) => {
                assert(self@[i as int] == self.entries@[i as int]@);
                Some(self.entries[i].value.clone())
            },
            None => None,
        }
    }

    /// Whether an attribute named `name`, in any case, is present.
    pub fn has(&self, name: &str) -> (r: bool)
        requires
            self.wf(),
        ensures
            r == (lookup(self@, lower(name@)) is Some),
    {
        let key = to_lower(name);
        self.find(&key).is_some()
    }

    /// Sets `name` to `value` without checking the name: an existing entry
    /// with the same normalised name keeps its place.
    fn put(&mut self, name: &str, value: &str)
        requires
            old(self).wf(),
        ensures
            final(self).wf(),
            final(self)@ == with_attribute(old(self)@, name@, value@),
    {
        let key = to_lower(name);
        let a = Attribute { key: key.clone(), name: name.to_owned(), value: value.to_owned() };
        proof {
            lemma_with_attribute_unique(self@, name@, value@);
        }
        match self.find(&key) {
            Some(i) => {
                self.entries.set(i, a);
                assert(self@ =~= old(self)@.update(i as int, (name@, value@)));
            },
            None => {
                self.entries.push(a);
                assert(self@ =~= old(self)@.push((name@, value@)));
            },
        }
    }

    /// Sets `name` to `value` after checking the name under `enc`; a refused
    /// name leaves the list as it was.
    pub fn set(&mut self, name: &str, value: &str, enc: &Encoding) -> (r: Result<
        (),
        AttributeNameError,
    >)
        requires
            old(self).wf(),
        ensures
            final(self).wf(),
            r == attribute_name_verdict(name@, *enc),
            r is Ok ==> final(self)@ == with_attribute(old(self)@, name@, value@),
            r is Err ==> final(self)@ == old(self)@,
    {
        match validate_attribute_name(name, enc) {
            Ok(()) => {
                self.put(name, value);
                Ok(())
            },
            Err(e) => Err(e),
        }
    }

    /// Adds an attribute read from the source markup. As in HTML, a later
    /// attribute whose name repeats an earlier one is dropped.
    pub fn add_parsed(&mut self, name: &str, value: &str)
        requires
            old(self).wf(),
        ensures
            final(self).wf(),
            lookup(old(self)@, lower(name@)) is Some ==> final(self)@ == old(self)@,
            lookup(old(self)@, lower(name@)) is None ==> final(self)@ == old(self)@.push(
                (name@, value@),
            ),
    {
        if !self.has(name) {
            self.put(name, value);
        }
    }

    /// Removes the attribute named `name`, in any case, if present.
    pub fn remove(&mut self, name: &str)
        requires
            old(self).wf(),
        ensures
            final(self).wf(),
            final(self)@ == without_attribute(old(self)@, lower(name@)),
    {
        let key = to_lower(name);
        match self.find(&key) {
            Some(i) => {
                self.entries.remove(i);
                assert(self@ =~= old(self)@.remove(i as int));
                proof {
                    lemma_without_attribute_unique(old(self)@, key@);
                }
                assert forall|j: int| 0 <= j < self.entries@.len() implies (
                #[trigger] self.entries@[j]).wf() by {
                    assert(self.entries@[j] == old(self).entries@[if j < i {
                        j
                    } else {
                        j + 1
                    }]);
                }
            },
            None => {},
        }
    }
}

} // verus!
