//! The fixity table: from operator symbols to their fixity.

use crate::interner::{
    chars_key, key_index_get, key_index_insert, key_index_new, key_places, lemma_chars_key,
    text_key,
};
use crate::parser::types::{Fixity, FixityTree};
use rustc_hash::FxBuildHasher;
use std::collections::HashMap;
use vstd::prelude::*;

verus! {

/// A table of fixities, keyed by the operator's symbol. The fixities stand
/// in the order in which their operators came, and a hash map finds the
/// place of an operator by its text.
#[derive(Debug)]
pub struct FixityMap {
    places: HashMap<Vec<u64>, usize, FxBuildHasher>,
    operators: Vec<String>,
    fixities: Vec<Fixity>,
}

impl View for FixityMap {
    type V = Map<Seq<char>, FixityTree>;

    closed spec fn view(&self) -> Map<Seq<char>, FixityTree> {
        Map::new(
            |operator: Seq<char>| key_places(self.places).contains_key(chars_key(operator)),
            |operator: Seq<char>| self.fixities@[key_places(self.places)[chars_key(operator)] as int]@,
        )
    }
}

impl FixityMap {
    /// What holds of every table: the map knows each operator by its place
    /// and nothing else, and every power has a successor in `u8`.
    pub closed spec fn wf(&self) -> bool {
        &&& self.operators@.len() == self.fixities@.len()
        &&& forall|i: int|
            0 <= i < self.operators@.len() ==> key_places(self.places).contains_key(
                chars_key((#[trigger] self.operators@[i])@),
            ) && key_places(self.places)[chars_key(self.operators@[i]@)] == i
        &&& forall|key: Seq<u64>| #[trigger]
            key_places(self.places).contains_key(key) ==> key_places(self.places)[key]
                < self.operators@.len() && chars_key(
                self.operators@[key_places(self.places)[key] as int]@,
            ) == key
        &&& forall|i: int|
            0 <= i < self.fixities@.len() ==> (#[trigger] self.fixities@[i]).binding_power
                < u8::MAX
    }

    /// A table that holds nothing.
    pub fn new() -> (map: FixityMap)
        ensures
            map@ == Map::<Seq<char>, FixityTree>::empty(),
            map.wf(),
    {
        let map = FixityMap { places: key_index_new(), operators: Vec::new(), fixities: Vec::new() };
        assert(map@ =~= Map::<Seq<char>, FixityTree>::empty());
        map
    }

    /// Puts `fixity` under `operator`; a fixity that was there before is
    /// replaced and returned.
    pub fn insert(&mut self, operator: String, fixity: Fixity) -> (previous: Option<Fixity>)
        requires
            old(self).wf(),
            fixity.binding_power < u8::MAX,
        ensures
            final(self).wf(),
            final(self)@ == old(self)@.insert(operator@, fixity@),
            match previous {
                Some(replaced) => old(self)@.contains_key(operator@)
                    && replaced@ == old(self)@[operator@],
                None => !old(self)@.contains_key(operator@),
            },
    {
        let key = text_key(operator.as_str());
        match key_index_get(&self.places, &key) {
            Some(place) => {
                self.fixities.push(fixity);
                let replaced = self.fixities.swap_remove(place);
                proof {
                    assert(self.fixities@ =~= old(self).fixities@.update(place as int, fixity));
                    assert forall|text: Seq<char>| #[trigger]
                        self@.contains_key(text) implies self@[text] == old(self)@.insert(
                        operator@,
                        fixity@,
                    )[text] by {
                        if text != operator@ {
                            if chars_key(text) == chars_key(operator@) {
                                lemma_chars_key(text, operator@);
                            }
                        }
                    }
                    assert(self@ =~= old(self)@.insert(operator@, fixity@));
                }
                Some(replaced)
            },
            None => {
                let place = self.fixities.len();
                key_index_insert(&mut self.places, key, place);
                self.operators.push(operator);
                self.fixities.push(fixity);
                proof {
                    assert forall|i: int| 0 <= i < self.operators@.len() implies key_places(
                        self.places,
                    ).contains_key(chars_key((#[trigger] self.operators@[i])@)) && key_places(
                        self.places,
                    )[chars_key(self.operators@[i]@)] == i by {
                        if i < place {
                            assert(self.operators@[i] == old(self).operators@[i]);
                            assert(key_places(old(self).places).contains_key(
                                chars_key(old(self).operators@[i]@),
                            ));
                        }
                    }
                    assert forall|key: Seq<u64>| #[trigger]
                        key_places(self.places).contains_key(key) implies key_places(
                        self.places,
                    )[key] < self.operators@.len() && chars_key(
                        self.operators@[key_places(self.places)[key] as int]@,
                    ) == key by {
                        if key != chars_key(operator@) {
                            assert(key_places(old(self).places).contains_key(key));
                            let at = key_places(old(self).places)[key];
                            assert(self.operators@[at as int] == old(self).operators@[at as int]);
                        }
                    }
                    assert forall|text: Seq<char>|
                        self@.contains_key(text) == old(self)@.insert(
                            operator@,
                            fixity@,
                        ).contains_key(text) by {
                        if chars_key(text) == chars_key(operator@) {
                            lemma_chars_key(text, operator@);
                        }
                    }
                    assert forall|text: Seq<char>| #[trigger]
                        self@.contains_key(text) implies self@[text] == old(self)@.insert(
                        operator@,
                        fixity@,
                    )[text] by {
                        if chars_key(text) == chars_key(operator@) {
                            lemma_chars_key(text, operator@);
                        } else {
                            assert(key_places(old(self).places).contains_key(chars_key(text)));
                            let at = key_places(old(self).places)[chars_key(text)];
                            assert(self.fixities@[at as int] == old(self).fixities@[at as int]);
                        }
                    }
                    assert(self@ =~= old(self)@.insert(operator@, fixity@));
                }
                None
            },
        }
    }

    /// The fixity of `operator`, if the table has one.
    pub fn get(&self, operator: &str) -> (found: Option<&Fixity>)
        requires
            self.wf(),
        ensures
            match found {
                Some(fixity) => self@.contains_key(operator@) && fixity@ == self@[operator@]
                    && fixity.binding_power < u8::MAX,
                None => !self@.contains_key(operator@),
            },
    {
        let key = text_key(operator);
        match key_index_get(&self.places, &key) {
            Some(place) => Some(&self.fixities[place]),
            None => None,
        }
    }

    /// Whether the table holds no operator.
    pub fn is_empty(&self) -> (empty: bool)
        requires
            self.wf(),
        ensures
            empty == (self@ == Map::<Seq<char>, FixityTree>::empty()),
    {
        let empty = self.operators.len() == 0;
        proof {
            if empty {
                assert(self@ =~= Map::<Seq<char>, FixityTree>::empty());
            } else {
                assert(self@.contains_key(self.operators@[0]@));
            }
        }
        empty
    }

    /// The number of operators in the table.
    pub fn len(&self) -> (len: usize)
        requires
            self.wf(),
        ensures
            len == self.operators().len(),
    {
        self.operators.len()
    }

    /// The operators of the table, in the order in which they came.
    pub closed spec fn operators(&self) -> Seq<Seq<char>> {
        self.operators@.map_values(|operator: String| operator@)
    }
}

} // verus!
