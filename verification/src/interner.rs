//! Interning: one stored copy of every value, and a handle to it.
//!
//! An interner keeps the values it has seen in an arena, in the order in
//! which they came, and finds them again by their key. The handle of a
//! value is its place in that order together with a reference to the stored
//! copy. Two handles of one interner are equal exactly when they stand for
//! the same key, so comparing handles is comparing places.

use bumpalo::Bump;
use rustc_hash::FxBuildHasher;
use std::collections::HashMap;
use crate::lines::decode;
use vstd::prelude::*;
use vstd::std_specs::cmp::PartialEqSpecImpl;

verus! {

/// The arena of `bumpalo`. Nothing is known of it but what the functions
/// below say of what they store in it.
#[verifier::external_type_specification]
#[verifier::external_body]
pub struct ExBump<const MIN_ALIGN: usize>(Bump<MIN_ALIGN>);

/// The hasher of `rustc_hash`, of which nothing is known here.
#[verifier::external_type_specification]
#[verifier::external_body]
pub struct ExFxBuildHasher(FxBuildHasher);

/// A mark that only this module can make: a handle that carries it comes
/// from an interner.
#[derive(Debug, Clone, Copy)]
pub struct Zst {
    seal: (),
}

/// `Bump::alloc_str`: copies the string into the arena and returns the
/// copy, which holds the same text.
#[verifier::external_body]
pub(crate) fn arena_alloc_str<'a>(arena: &'a Bump, value: &str) -> (stored: &'a str)
    ensures
        stored@ == value@,
{
    arena.alloc_str(value)
}

/// `Bump::alloc`: moves the value into the arena and returns a reference to
/// it there.
#[verifier::external_body]
pub(crate) fn arena_alloc<'a, T>(arena: &'a Bump, value: T) -> (stored: &'a T)
    ensures
        *stored == value,
{
    arena.alloc(value)
}

/// What a map from keys to places holds: for each key, the place that was
/// inserted for it. The map has the hasher of `rustc_hash`, and is known by
/// this name alone.
pub uninterp spec fn key_places(index: HashMap<Vec<u64>, usize, FxBuildHasher>) -> Map<
    Seq<u64>,
    usize,
>;

/// `HashMap::default`: a map that holds nothing.
#[verifier::external_body]
pub(crate) fn key_index_new() -> (index: HashMap<Vec<u64>, usize, FxBuildHasher>)
    ensures
        key_places(index) == (Map::<Seq<u64>, usize>::empty()),
{
    HashMap::default()
}

/// `HashMap::get`: the place under `key`, if there is one. Vectors are keys
/// by their elements.
#[verifier::external_body]
pub(crate) fn key_index_get(index: &HashMap<Vec<u64>, usize, FxBuildHasher>, key: &Vec<u64>) -> (place:
    Option<usize>)
    ensures
        place == if key_places(*index).contains_key(key@) {
            Some(key_places(*index)[key@])
        } else {
            None
        },
{
    index.get(key).copied()
}

/// `HashMap::insert`: puts `place` under `key`.
#[verifier::external_body]
pub(crate) fn key_index_insert(
    index: &mut HashMap<Vec<u64>, usize, FxBuildHasher>,
    key: Vec<u64>,
    place: usize,
)
    ensures
        key_places(*final(index)) == key_places(*old(index)).insert(key@, place),
{
    index.insert(key, place);
}

/// The key of a text: its characters as numbers.
pub open spec fn chars_key(text: Seq<char>) -> Seq<u64> {
    text.map_values(|c: char| (c as u32) as u64)
}

/// Texts with the same key are the same text.
pub proof fn lemma_chars_key(a: Seq<char>, b: Seq<char>)
    requires
        chars_key(a) == chars_key(b),
    ensures
        a == b,
{
    assert(a.len() == chars_key(a).len());
    assert(b.len() == chars_key(b).len());
    assert forall|i: int| 0 <= i < a.len() implies a[i] == b[i] by {
        assert(chars_key(a)[i] == (a[i] as u32) as u64);
        assert(chars_key(b)[i] == (b[i] as u32) as u64);
        vstd::utf8::char_u32_cast(a[i], a[i] as u32);
        vstd::utf8::char_u32_cast(b[i], b[i] as u32);
    }
    assert(a =~= b);
}

/// The key of `text`.
pub fn text_key(text: &str) -> (key: Vec<u64>)
    ensures
        key@ == chars_key(text@),
{
    let chars = decode(text);
    let mut key: Vec<u64> = Vec::new();
    let mut index: usize = 0;
    while index < chars.len()
        invariant
            0 <= index <= chars.len(),
            chars@ == text@,
            key@ == chars_key(text@.take(index as int)),
        decreases chars.len() - index,
    {
        key.push(chars[index] as u32 as u64);
        proof {
            assert(key@ =~= chars_key(text@.take(index + 1)));
        }
        index += 1;
    }
    proof {
        assert(text@.take(chars@.len() as int) =~= text@);
    }
    key
}

/// The place at which `item` stands once it is interned among `items`: its
/// place among them, or the next place.
pub open spec fn place_of<A>(items: Seq<A>, item: A) -> int {
    if items.contains(item) {
        items.index_of(item)
    } else {
        items.len() as int
    }
}

/// What is stored once `item` is interned among `items`: one more, unless
/// it is among them.
pub open spec fn interned<A>(items: Seq<A>, item: A) -> Seq<A> {
    if items.contains(item) {
        items
    } else {
        items.push(item)
    }
}

/// Interning keeps what is stored, in its place, and stores nothing twice.
pub proof fn lemma_interned_grows<A>(items: Seq<A>, item: A)
    requires
        items.no_duplicates(),
    ensures
        interned(items, item).no_duplicates(),
        interned(items, item).len() >= items.len(),
        interned(items, item).take(items.len() as int) == items,
        interned(items, item).contains(item),
        0 <= place_of(items, item) < interned(items, item).len(),
        interned(items, item)[place_of(items, item)] == item,
{
    if !items.contains(item) {
        assert(items.push(item).take(items.len() as int) =~= items);
        assert(items.push(item)[items.len() as int] == item);
    } else {
        assert(items.take(items.len() as int) =~= items);
    }
}

/// Interning a second time changes nothing: what is stored stays as it is,
/// and the place is the one of the first time.
pub proof fn lemma_interned_twice<A>(items: Seq<A>, item: A)
    requires
        items.no_duplicates(),
    ensures
        interned(interned(items, item), item) == interned(items, item),
        place_of(interned(items, item), item) == place_of(items, item),
{
    lemma_interned_grows(items, item);
    let once = interned(items, item);
    let place = place_of(items, item);
    assert(once[once.index_of(item)] == item);
}

/// A handle to an interned string.
#[derive(Debug, Clone, Copy)]
pub struct InternedString<'a> {
    text: &'a str,
    place: usize,
    seal: Zst,
}

/// A handle to an interned string, by its other name.
pub type Symbol<'a> = InternedString<'a>;

impl<'a> InternedString<'a> {
    /// The text that the handle stands for.
    pub closed spec fn text(&self) -> Seq<char> {
        self.text@
    }

    /// The place of the text in its interner.
    pub closed spec fn place(&self) -> usize {
        self.place
    }

    fn new(text: &'a str, place: usize) -> (handle: InternedString<'a>)
        ensures
            handle.text() == text@,
            handle.place() == place,
    {
        InternedString { text, place, seal: Zst { seal: () } }
    }

    /// The text that the handle stands for.
    pub fn as_str(&self) -> (text: &'a str)
        ensures
            text@ == self.text(),
    {
        self.text
    }

    /// The place of the text in its interner.
    pub fn index(&self) -> (place: usize)
        ensures
            place == self.place(),
    {
        self.place
    }

    /// Whether two handles stand at the same place.
    pub fn same(&self, other: &InternedString<'a>) -> (r: bool)
        ensures
            r == (self.place() == other.place()),
    {
        self.place == other.place
    }
}

impl<'a> PartialEq for InternedString<'a> {
    fn eq(&self, other: &InternedString<'a>) -> (r: bool) {
        self.place == other.place
    }
}

impl<'a> PartialEqSpecImpl for InternedString<'a> {
    open spec fn obeys_eq_spec() -> bool {
        true
    }

    open spec fn eq_spec(&self, other: &InternedString<'a>) -> bool {
        self.place() == other.place()
    }
}

impl<'a> Eq for InternedString<'a> {

}

/// An interner of strings.
pub struct StringInterner<'a> {
    indices: HashMap<Vec<u64>, usize, FxBuildHasher>,
    entries: Vec<&'a str>,
    arena: &'a Bump,
}

/// The texts of the entries.
pub open spec fn texts(entries: Seq<&str>) -> Seq<Seq<char>> {
    entries.map_values(|entry: &str| entry@)
}

impl<'a> StringInterner<'a> {
    /// The texts that have been interned, in the order in which they came.
    pub closed spec fn view(&self) -> Seq<Seq<char>> {
        texts(self.entries@)
    }

    /// What holds of every interner: the index knows each text by its
    /// place, and nothing else. So no text is stored twice.
    pub closed spec fn wf(&self) -> bool {
        &&& forall|i: int|
            0 <= i < self.entries@.len() ==> key_places(self.indices).contains_key(
                chars_key((#[trigger] self.entries@[i])@),
            ) && key_places(self.indices)[chars_key(self.entries@[i]@)] == i
        &&& forall|key: Seq<u64>| #[trigger]
            key_places(self.indices).contains_key(key) ==> key_places(self.indices)[key]
                < self.entries@.len() && chars_key(
                self.entries@[key_places(self.indices)[key] as int]@,
            ) == key
    }

    /// Whether `handle` is one that this interner has handed out.
    pub open spec fn owns(&self, handle: InternedString<'a>) -> bool {
        handle.place() < self.view().len() && self.view()[handle.place() as int] == handle.text()
    }

    /// No text is stored twice.
    pub proof fn lemma_distinct(&self, i: int, j: int)
        requires
            self.wf(),
            0 <= i < self.view().len(),
            0 <= j < self.view().len(),
            self.view()[i] == self.view()[j],
        ensures
            i == j,
    {
        assert(self.entries@[i]@ == self.entries@[j]@);
    }

    /// No text is stored twice.
    pub proof fn lemma_no_duplicates(&self)
        requires
            self.wf(),
        ensures
            self.view().no_duplicates(),
    {
        assert forall|i: int, j: int|
            0 <= i < self.view().len() && 0 <= j < self.view().len() && i != j implies self.view()[i]
            != self.view()[j] by {
            if self.view()[i] == self.view()[j] {
                self.lemma_distinct(i, j);
            }
        }
    }

    /// Two handles of one interner are equal exactly when their texts are.
    pub proof fn lemma_equal_handles(&self, a: InternedString<'a>, b: InternedString<'a>)
        requires
            self.wf(),
            self.owns(a),
            self.owns(b),
        ensures
            (a.place() == b.place()) == (a.text() == b.text()),
    {
        if a.text() == b.text() {
            self.lemma_distinct(a.place() as int, b.place() as int);
        }
    }

    /// An interner that stores its strings in `arena`.
    pub fn new(arena: &'a Bump) -> (interner: StringInterner<'a>)
        ensures
            interner.wf(),
            interner.view() == Seq::<Seq<char>>::empty(),
    {
        let interner = StringInterner { indices: key_index_new(), entries: Vec::new(), arena };
        assert(interner.view() =~= Seq::<Seq<char>>::empty());
        interner
    }

    /// The number of strings stored.
    pub fn len(&self) -> (len: usize)
        ensures
            len == self.view().len(),
    {
        self.entries.len()
    }

    /// The handle of `value`. A text that has been interned before is found
    /// again, and nothing is stored; a new text is copied into the arena
    /// and stands last.
    pub fn intern(&mut self, value: &str) -> (handle: InternedString<'a>)
        requires
            old(self).wf(),
        ensures
            final(self).wf(),
            final(self).owns(handle),
            handle.text() == value@,
            handle.place() == place_of(old(self).view(), value@),
            final(self).view() == interned(old(self).view(), value@),
    {
        proof {
            self.lemma_no_duplicates();
        }
        let key = text_key(value);
        match key_index_get(&self.indices, &key) {
            Some(index) => {
                proof {
                    lemma_chars_key(self.entries@[index as int]@, value@);
                }
                assert(self.view()[index as int] == value@);
                assert(self.view()[self.view().index_of(value@)] == value@);
                InternedString::new(self.entries[index], index)
            },
            None => {
                proof {
                    if self.view().contains(value@) {
                        let i = choose|i: int| 0 <= i < self.view().len() && self.view()[i] == value@;
                        assert(self.entries@[i]@ == value@);
                    }
                }
                let stored = arena_alloc_str(self.arena, value);
                let index = self.entries.len();
                key_index_insert(&mut self.indices, key, index);
                self.entries.push(stored);
                proof {
                    assert(self.view() =~= old(self).view().push(value@));
                    assert forall|i: int| 0 <= i < self.entries@.len() implies key_places(
                        self.indices,
                    ).contains_key(chars_key((#[trigger] self.entries@[i])@)) && key_places(
                        self.indices,
                    )[chars_key(self.entries@[i]@)] == i by {
                        if i < index {
                            assert(self.entries@[i] == old(self).entries@[i]);
                            assert(chars_key(old(self).entries@[i]@) != chars_key(value@)) by {
                                assert(key_places(old(self).indices).contains_key(
                                    chars_key(old(self).entries@[i]@),
                                ));
                            }
                        }
                    }
                    assert forall|key: Seq<u64>| #[trigger]
                        key_places(self.indices).contains_key(key) implies key_places(
                        self.indices,
                    )[key] < self.entries@.len() && chars_key(
                        self.entries@[key_places(self.indices)[key] as int]@,
                    ) == key by {
                        if key != chars_key(value@) {
                            assert(key_places(old(self).indices).contains_key(key));
                            let place = key_places(old(self).indices)[key];
                            assert(self.entries@[place as int] == old(self).entries@[place as int]);
                        }
                    }
                }
                InternedString::new(stored, index)
            },
        }
    }
}

/// What an interner finds a value by: a sequence of numbers that says what
/// the value is made of.
pub trait Key {
    spec fn key_of(&self) -> Seq<u64>;

    fn key(&self) -> (key: Vec<u64>)
        ensures
            key@ == self.key_of(),
    ;
}

/// A handle to an interned value.
#[derive(Debug)]
pub struct Interned<'a, T> {
    value: &'a T,
    place: usize,
    seal: Zst,
}

impl<'a, T> Interned<'a, T> {
    /// The value that the handle stands for.
    pub closed spec fn value(&self) -> T {
        *self.value
    }

    /// The place of the value in its interner.
    pub closed spec fn place(&self) -> usize {
        self.place
    }

    /// The handle of the value stored at `place`.
    pub fn new(value: &'a T, place: usize) -> (handle: Interned<'a, T>)
        ensures
            handle.value() == *value,
            handle.place() == place,
    {
        Interned { value, place, seal: Zst { seal: () } }
    }

    /// The value that the handle stands for.
    pub fn get(&self) -> (value: &'a T)
        ensures
            *value == self.value(),
    {
        self.value
    }

    /// The place of the value in its interner.
    pub fn index(&self) -> (place: usize)
        ensures
            place == self.place(),
    {
        self.place
    }

    /// Whether two handles stand at the same place.
    pub fn same(&self, other: &Interned<'a, T>) -> (r: bool)
        ensures
            r == (self.place() == other.place()),
    {
        self.place == other.place
    }
}

impl<'a, T> Clone for Interned<'a, T> {
    fn clone(&self) -> (copy: Interned<'a, T>)
        ensures
            copy == *self,
    {
        Interned { value: self.value, place: self.place, seal: self.seal }
    }
}

impl<'a, T> Copy for Interned<'a, T> {

}

impl<'a, T> PartialEq for Interned<'a, T> {
    fn eq(&self, other: &Interned<'a, T>) -> (r: bool) {
        self.place == other.place
    }
}

impl<'a, T> PartialEqSpecImpl for Interned<'a, T> {
    open spec fn obeys_eq_spec() -> bool {
        true
    }

    open spec fn eq_spec(&self, other: &Interned<'a, T>) -> bool {
        self.place() == other.place()
    }
}

impl<'a, T> Eq for Interned<'a, T> {

}

/// An interner of values that have a key.
pub struct Interner<'a, T> {
    indices: HashMap<Vec<u64>, usize, FxBuildHasher>,
    entries: Vec<&'a T>,
    arena: &'a Bump,
}

impl<'a, T: Key> Interner<'a, T> {
    /// The values that have been interned, in the order in which they came.
    pub closed spec fn view(&self) -> Seq<T> {
        self.entries@.map_values(|entry: &T| *entry)
    }

    /// The keys of the values that have been interned.
    pub open spec fn keys(&self) -> Seq<Seq<u64>> {
        self.view().map_values(|value: T| value.key_of())
    }

    /// What holds of every interner: the index knows each key by the place
    /// of its value, and nothing else. So no key is stored twice.
    pub closed spec fn wf(&self) -> bool {
        &&& forall|i: int|
            0 <= i < self.entries@.len() ==> key_places(self.indices).contains_key(
                (#[trigger] self.entries@[i]).key_of(),
            ) && key_places(self.indices)[self.entries@[i].key_of()] == i
        &&& forall|key: Seq<u64>| #[trigger]
            key_places(self.indices).contains_key(key) ==> key_places(self.indices)[key]
                < self.entries@.len() && self.entries@[key_places(
                self.indices,
            )[key] as int].key_of() == key
    }

    /// Whether `handle` is one that this interner has handed out.
    pub open spec fn owns(&self, handle: Interned<'a, T>) -> bool {
        handle.place() < self.view().len() && self.view()[handle.place() as int] == handle.value()
    }

    /// No key is stored twice.
    pub proof fn lemma_distinct(&self, i: int, j: int)
        requires
            self.wf(),
            0 <= i < self.view().len(),
            0 <= j < self.view().len(),
            self.view()[i].key_of() == self.view()[j].key_of(),
        ensures
            i == j,
    {
        assert(self.entries@[i].key_of() == self.entries@[j].key_of());
    }

    /// No key is stored twice.
    pub proof fn lemma_no_duplicates(&self)
        requires
            self.wf(),
        ensures
            self.keys().no_duplicates(),
    {
        assert forall|i: int, j: int|
            0 <= i < self.keys().len() && 0 <= j < self.keys().len() && i != j implies self.keys()[i]
            != self.keys()[j] by {
            if self.keys()[i] == self.keys()[j] {
                self.lemma_distinct(i, j);
            }
        }
    }

    /// Two handles of one interner are equal exactly when the keys of their
    /// values are.
    pub proof fn lemma_equal_handles(&self, a: Interned<'a, T>, b: Interned<'a, T>)
        requires
            self.wf(),
            self.owns(a),
            self.owns(b),
        ensures
            (a.place() == b.place()) == (a.value().key_of() == b.value().key_of()),
    {
        if a.value().key_of() == b.value().key_of() {
            self.lemma_distinct(a.place() as int, b.place() as int);
        }
    }

    /// An interner that stores its values in `arena`.
    pub fn new(arena: &'a Bump) -> (interner: Interner<'a, T>)
        ensures
            interner.wf(),
            interner.view() == Seq::<T>::empty(),
    {
        let interner = Interner { indices: key_index_new(), entries: Vec::new(), arena };
        assert(interner.view() =~= Seq::<T>::empty());
        interner
    }

    /// The number of values stored.
    pub fn len(&self) -> (len: usize)
        ensures
            len == self.view().len(),
    {
        self.entries.len()
    }

    /// The handle of `value`. A value whose key has been interned before is
    /// found again, and nothing is stored; a new one is moved into the
    /// arena and stands last.
    pub fn intern(&mut self, value: T) -> (handle: Interned<'a, T>)
        requires
            old(self).wf(),
        ensures
            final(self).wf(),
            final(self).owns(handle),
            handle.value().key_of() == value.key_of(),
            handle.place() == place_of(old(self).keys(), value.key_of()),
            final(self).keys() == interned(old(self).keys(), value.key_of()),
            old(self).keys().contains(value.key_of()) ==> final(self).view() == old(self).view(),
            !old(self).keys().contains(value.key_of()) ==> final(self).view()
                == old(self).view().push(value) && handle.value() == value,
    {
        proof {
            self.lemma_no_duplicates();
        }
        let key = value.key();
        match key_index_get(&self.indices, &key) {
            Some(index) => {
                assert(self.view()[index as int] == *self.entries@[index as int]);
                assert(self.keys()[index as int] == value.key_of());
                assert(self.keys()[self.keys().index_of(value.key_of())] == value.key_of());
                Interned::new(self.entries[index], index)
            },
            None => {
                proof {
                    if self.keys().contains(value.key_of()) {
                        let i = choose|i: int|
                            0 <= i < self.keys().len() && self.keys()[i] == value.key_of();
                        assert(self.entries@[i].key_of() == value.key_of());
                    }
                }
                let stored = arena_alloc(self.arena, value);
                let index = self.entries.len();
                key_index_insert(&mut self.indices, key, index);
                self.entries.push(stored);
                proof {
                    assert(self.view() =~= old(self).view().push(value));
                    assert(self.keys() =~= old(self).keys().push(value.key_of()));
                    assert forall|i: int| 0 <= i < self.entries@.len() implies key_places(
                        self.indices,
                    ).contains_key((#[trigger] self.entries@[i]).key_of()) && key_places(
                        self.indices,
                    )[self.entries@[i].key_of()] == i by {
                        if i < index {
                            assert(self.entries@[i] == old(self).entries@[i]);
                            assert(old(self).entries@[i].key_of() != value.key_of()) by {
                                assert(key_places(old(self).indices).contains_key(
                                    old(self).entries@[i].key_of(),
                                ));
                            }
                        }
                    }
                    assert forall|key: Seq<u64>| #[trigger]
                        key_places(self.indices).contains_key(key) implies key_places(
                        self.indices,
                    )[key] < self.entries@.len() && self.entries@[key_places(
                        self.indices,
                    )[key] as int].key_of() == key by {
                        if key != value.key_of() {
                            assert(key_places(old(self).indices).contains_key(key));
                            let place = key_places(old(self).indices)[key];
                            assert(self.entries@[place as int] == old(self).entries@[place as int]);
                        }
                    }
                }
                Interned::new(stored, index)
            },
        }
    }
}

} // verus!
