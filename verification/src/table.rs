//! An exact-colour lookup table backed by a hash map with the FNV hasher.

use vstd::prelude::*;
use crate::color::Color;
use fnv::FnvHashMap;

verus! {

/// A table from colours to numbers. Inside it is an `fnv::FnvHashMap` keyed by
/// the four channel bytes of a colour.
#[verifier::external_body]
pub struct ColorTable {
    inner: FnvHashMap<[u8; 4], usize>,
}

/// What a table holds: the number stored for each colour that has one.
pub uninterp spec fn table_entries(t: ColorTable) -> Map<Color, usize>;

impl ColorTable {
    /// Calls `FnvHashMap::default`, which makes a hash map without entries.
    #[verifier::external_body]
    pub(crate) fn new() -> (table: ColorTable)
        ensures
            table_entries(table) =~= Map::empty(),
    {
        ColorTable { inner: FnvHashMap::default() }
    }

    /// Calls `HashMap::get` with the colour's four bytes as the key: the
    /// stored number if the colour has an entry, `None` otherwise.
    #[verifier::external_body]
    pub(crate) fn get(&self, c: Color) -> (r: Option<usize>)
        ensures
            r == (if table_entries(*self).contains_key(c) {
                Some(table_entries(*self)[c])
            } else {
                None
            }),
    {
        self.inner.get(&[c.r, c.g, c.b, c.a]).copied()
    }

    /// Calls `HashMap::insert` with the colour's four bytes as the key: the
    /// colour's entry becomes `v`, every other entry stays as it was.
    #[verifier::external_body]
    pub(crate) fn insert(&mut self, c: Color, v: usize)
        ensures
            table_entries(*final(self)) == table_entries(*old(self)).insert(c, v),
    {
        self.inner.insert([c.r, c.g, c.b, c.a], v);
    }
}

} // verus!
