//! Named settings.

use crate::textmap::{self, TextMap};
use vstd::prelude::*;

verus! {

/// Named settings: a map from names to texts, each name once, in the order of the names.
#[derive(PartialEq, Eq, Debug)]
pub struct Configuration {
    settings: TextMap<String>,
}

/// What entries say, in their order: each name with its text.
pub open spec fn pairs(entries: Seq<(String, String)>) -> Seq<(Seq<char>, Seq<char>)> {
    entries.map_values(|entry: (String, String)| (entry.0@, entry.1@))
}

impl View for Configuration {
    type V = Map<Seq<char>, Seq<char>>;

    closed spec fn view(&self) -> Map<Seq<char>, Seq<char>> {
        self.settings@.map_values(|value: String| value@)
    }
}

impl Configuration {
    /// The settings, in the order of their names.
    pub closed spec fn listing(self) -> Seq<(Seq<char>, Seq<char>)> {
        pairs(self.settings.listing())
    }

    /// No settings at all.
    pub fn new() -> (r: Self)
        ensures
            r@ == Map::<Seq<char>, Seq<char>>::empty(),
            r.listing() == Seq::<(Seq<char>, Seq<char>)>::empty(),
    {
        let r = Configuration { settings: TextMap::new() };
        assert(r@ =~= Map::<Seq<char>, Seq<char>>::empty());
        assert(r.listing() =~= Seq::<(Seq<char>, Seq<char>)>::empty());
        r
    }

    /// The settings, each name once, in the order of the names.
    pub fn entries(&self) -> (r: &Vec<(String, String)>)
        ensures
            textmap::rising(r@),
            pairs(r@) == self.listing(),
            self@ == textmap::map_of(r@).map_values(|value: String| value@),
    {
        self.settings.entries()
    }

    /// The value of a name, where it has one.
    pub fn get(&self, name: &str) -> (r: Option<&String>)
        ensures
            match r {
                Some(value) => self@.contains_key(name@) && self@[name@] == value@,
                None => !self@.contains_key(name@),
            },
    {
        self.settings.get(name)
    }

    /// Give a name a value, in place of the one it had.
    pub fn insert(&mut self, name: String, value: String)
        ensures
            final(self)@ == old(self)@.insert(name@, value@),
    {
        self.settings.insert(name, value);
        assert(self@ =~= old(self)@.insert(name@, value@));
    }
}

} // verus!
