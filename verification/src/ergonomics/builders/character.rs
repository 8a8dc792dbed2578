//! Building character tables.
use vstd::prelude::*;
use crate::ergonomics::{
    clone_pixmap_table_indexes, PixmapIndex, PixmapTableIndex, TableBuilder, TableBuilderIdentifier,
    TableBuilderResult,
};
use crate::format::roundtrip::flag;
use crate::format::{
    Character, CharacterModel, CharacterTable, CharacterTableConfigurationFlags,
    CharacterTableLinkFlags, CharacterTableModel, CharacterTableModifierFlags,
};

verus! {

/// Builds a [`Character`].
pub struct CharacterBuilder {
    pub advance_x: Option<u8>,
    /// Handle to the character's pixmap.
    pub pixmap_index: Option<PixmapIndex>,
    /// The code points the character stands for.
    pub grapheme_cluster: String,
}

/// Builds a [`CharacterTable`].
pub struct CharacterTableBuilder {
    /// Whether the characters carry an advance.
    pub use_advance_x: bool,
    /// Whether the characters carry a pixmap index.
    pub use_pixmap_index: bool,
    /// Number of code points shared by every character, when set.
    pub constant_cluster_codepoints: Option<u8>,
    /// Handles to the linked pixmap tables, when set.
    pub pixmap_table_indexes: Option<Vec<PixmapTableIndex>>,
    pub characters: Vec<CharacterBuilder>,
}

impl Default for CharacterBuilder {
    /// A character with no advance, no pixmap and no code points.
    fn default() -> (r: Self)
        ensures
            r.advance_x is None,
            r.pixmap_index is None,
            r.grapheme_cluster@ == Seq::<char>::empty(),
    {
        CharacterBuilder { advance_x: None, pixmap_index: None, grapheme_cluster: String::new() }
    }
}

impl Clone for CharacterBuilder {
    /// The same character, sharing its pixmap handle.
    fn clone(&self) -> (r: Self)
        ensures
            r == *self,
    {
        let pixmap_index = match &self.pixmap_index {
            Some(p) => Some(p.clone()),
            None => None,
        };
        CharacterBuilder {
            advance_x: self.advance_x,
            pixmap_index,
            grapheme_cluster: self.grapheme_cluster.clone(),
        }
    }
}

impl CharacterBuilder {
    /// A character standing for `grapheme_cluster`, with no advance and no
    /// pixmap.
    pub fn from(grapheme_cluster: &str) -> (r: Self)
        ensures
            r.advance_x is None,
            r.pixmap_index is None,
            r.grapheme_cluster@ == grapheme_cluster@,
    {
        CharacterBuilder {
            advance_x: None,
            pixmap_index: None,
            grapheme_cluster: grapheme_cluster.to_owned(),
        }
    }

    /// Sets the advance.
    pub fn advance_x(&mut self, advance_x: u8) -> (r: &mut Self)
        ensures
            *r == (CharacterBuilder { advance_x: Some(advance_x), ..*old(self) }),
            *final(self) == *final(r),
    {
        self.advance_x = Some(advance_x);
        self
    }

    /// Sets the pixmap, through a handle to it.
    pub fn pixmap_index(&mut self, pixmap_index: &PixmapIndex) -> (r: &mut Self)
        ensures
            *r == (CharacterBuilder { pixmap_index: Some(*pixmap_index), ..*old(self) }),
            *final(self) == *final(r),
    {
        self.pixmap_index = Some(pixmap_index.clone());
        self
    }

    /// Sets the code points.
    pub fn grapheme_cluster(&mut self, grapheme_cluster: String) -> (r: &mut Self)
        ensures
            *r == (CharacterBuilder { grapheme_cluster, ..*old(self) }),
            *final(self) == *final(r),
    {
        self.grapheme_cluster = grapheme_cluster;
        self
    }
}

/// The handles in `v`, or none when `v` is unset.
pub open spec fn index_handles<T>(v: Option<Vec<T>>) -> Seq<T> {
    match v {
        Some(v) => v@,
        None => Seq::empty(),
    }
}

/// `c` as resolving leaves it in a table with the given settings: the
/// fields the table does not use are cleared.
pub open spec fn resolved_character(c: CharacterBuilder, use_advance_x: bool, use_pixmap_index: bool) -> CharacterBuilder {
    CharacterBuilder {
        advance_x: if use_advance_x {
            c.advance_x
        } else {
            None
        },
        pixmap_index: if use_pixmap_index {
            c.pixmap_index
        } else {
            None
        },
        grapheme_cluster: c.grapheme_cluster,
    }
}

/// The modifier flag byte of a table with the given settings.
pub open spec fn character_modifier_byte(use_advance_x: bool, use_pixmap_index: bool) -> u8 {
    ((if use_advance_x { 1u8 } else { 0u8 }) | (if use_pixmap_index { 2u8 } else { 0u8 })) as u8
}

/// Whether `t` is the character table built from `b`. The link and pixmap
/// positions are what the shared handles held at build time; only their
/// presence and count follow from `b`.
pub open spec fn character_table_built(b: CharacterTableBuilder, t: CharacterTableModel) -> bool {
    &&& t.modifier_flags == character_modifier_byte(b.use_advance_x, b.use_pixmap_index)
    &&& t.configuration_flags == flag(b.constant_cluster_codepoints is Some)
    &&& t.constant_code_point_count == b.constant_cluster_codepoints
    &&& t.link_flags == flag(b.pixmap_table_indexes is Some)
    &&& (t.pixmap_table_indexes is Some) == (b.pixmap_table_indexes is Some)
    &&& t.pixmap_table_indexes matches Some(v) ==> v.len() == index_handles(b.pixmap_table_indexes).len()
    &&& t.characters.len() == b.characters@.len()
    &&& forall|k: int|
        0 <= k < t.characters.len() ==> {
            let c = #[trigger] b.characters@[k];
            let m = t.characters[k];
            &&& m.advance_x == c.advance_x
            &&& (m.pixmap_index is Some) == (c.pixmap_index is Some)
            &&& m.pixmap_table_index is None
            &&& m.code_points == c.grapheme_cluster@
        }
}

impl Default for CharacterTableBuilder {
    /// A table using no advance, no pixmap index, no constant code point
    /// count and no links, with no characters.
    fn default() -> (r: Self)
        ensures
            !r.use_advance_x,
            !r.use_pixmap_index,
            r.constant_cluster_codepoints is None,
            r.pixmap_table_indexes is None,
            r.characters@ == Seq::<CharacterBuilder>::empty(),
    {
        CharacterTableBuilder {
            use_advance_x: false,
            use_pixmap_index: false,
            constant_cluster_codepoints: None,
            pixmap_table_indexes: None,
            characters: Vec::new(),
        }
    }
}

impl CharacterTableBuilder {
    /// Sets whether the characters carry an advance.
    pub fn advance_x(&mut self, use_advance_x: bool) -> (r: &mut Self)
        ensures
            *r == (CharacterTableBuilder { use_advance_x, ..*old(self) }),
            *final(self) == *final(r),
    {
        self.use_advance_x = use_advance_x;
        self
    }

    /// Sets whether the characters carry a pixmap index.
    pub fn pixmap_index(&mut self, use_pixmap_index: bool) -> (r: &mut Self)
        ensures
            *r == (CharacterTableBuilder { use_pixmap_index, ..*old(self) }),
            *final(self) == *final(r),
    {
        self.use_pixmap_index = use_pixmap_index;
        self
    }

    /// Sets the number of code points shared by every character.
    pub fn constant_cluster_codepoints(&mut self, constant_cluster_codepoints: u8) -> (r: &mut Self)
        ensures
            *r == (CharacterTableBuilder {
                constant_cluster_codepoints: Some(constant_cluster_codepoints),
                ..*old(self)
            }),
            *final(self) == *final(r),
    {
        self.constant_cluster_codepoints = Some(constant_cluster_codepoints);
        self
    }

    /// Appends links to the pixmap tables behind `pixmap_table_indexes`.
    pub fn pixmap_table_indexes(&mut self, pixmap_table_indexes: &[PixmapTableIndex]) -> (r: &mut Self)
        ensures
            r.pixmap_table_indexes is Some,
            index_handles(r.pixmap_table_indexes) == index_handles(old(self).pixmap_table_indexes)
                + pixmap_table_indexes@,
            r.use_advance_x == old(self).use_advance_x,
            r.use_pixmap_index == old(self).use_pixmap_index,
            r.constant_cluster_codepoints == old(self).constant_cluster_codepoints,
            r.characters == old(self).characters,
            *final(self) == *final(r),
    {
        let mut added = clone_pixmap_table_indexes(pixmap_table_indexes);
        let mut list = match self.pixmap_table_indexes.take() {
            Some(v) => v,
            None => Vec::new(),
        };
        list.append(&mut added);
        self.pixmap_table_indexes = Some(list);
        self
    }

    /// Appends `character`.
    pub fn character(&mut self, character: CharacterBuilder) -> (r: &mut Self)
        ensures
            r.characters@ == old(self).characters@.push(character),
            r.use_advance_x == old(self).use_advance_x,
            r.use_pixmap_index == old(self).use_pixmap_index,
            r.constant_cluster_codepoints == old(self).constant_cluster_codepoints,
            r.pixmap_table_indexes == old(self).pixmap_table_indexes,
            *final(self) == *final(r),
    {
        self.characters.push(character);
        self
    }

    /// Appends what `process` makes of `character`.
    pub fn character_process<F: Fn(CharacterBuilder) -> CharacterBuilder>(
        &mut self,
        character: CharacterBuilder,
        process: F,
    ) -> (r: &mut Self)
        requires
            process.requires((character,)),
        ensures
            exists|c: CharacterBuilder|
                process.ensures((character,), c) && r.characters@ == old(self).characters@.push(c),
            r.use_advance_x == old(self).use_advance_x,
            r.use_pixmap_index == old(self).use_pixmap_index,
            r.constant_cluster_codepoints == old(self).constant_cluster_codepoints,
            r.pixmap_table_indexes == old(self).pixmap_table_indexes,
            *final(self) == *final(r),
    {
        let c = process(character);
        self.character(c)
    }
}

/// Reads the positions the handles `v` hold now.
fn read_pixmap_table_indexes(v: &Vec<PixmapTableIndex>) -> (r: Vec<u8>)
    ensures
        r@.len() == v@.len(),
{
    let mut r: Vec<u8> = Vec::new();
    let mut i: usize = 0;
    while i < v.len()
        invariant
            i <= v@.len(),
            r@.len() == i,
        decreases v@.len() - i,
    {
        r.push(v[i].get());
        i = i + 1;
    }
    r
}

impl TableBuilder for CharacterTableBuilder {
    open spec fn resolvable(&self) -> bool {
        forall|k: int|
            0 <= k < self.characters@.len() ==> {
                &&& self.use_advance_x ==> (#[trigger] self.characters@[k]).advance_x is Some
                &&& self.use_pixmap_index ==> self.characters@[k].pixmap_index is Some
            }
    }

    open spec fn resolves_to(&self, after: Self) -> bool {
        &&& after.use_advance_x == self.use_advance_x
        &&& after.use_pixmap_index == self.use_pixmap_index
        &&& after.constant_cluster_codepoints == self.constant_cluster_codepoints
        &&& after.pixmap_table_indexes == self.pixmap_table_indexes
        &&& after.characters@ == self.characters@.map_values(
            |c: CharacterBuilder| resolved_character(c, self.use_advance_x, self.use_pixmap_index),
        )
    }

    open spec fn builds(&self, r: TableBuilderResult) -> bool {
        r matches TableBuilderResult::Character(t) && character_table_built(*self, t@)
    }

    /// Clears the fields that the table does not use.
    fn resolve(&mut self) {
        let use_advance_x = self.use_advance_x;
        let use_pixmap_index = self.use_pixmap_index;
        let ghost before = self.characters@;
        let mut i: usize = 0;
        while i < self.characters.len()
            invariant
                use_advance_x == self.use_advance_x,
                use_pixmap_index == self.use_pixmap_index,
                self.use_advance_x == old(self).use_advance_x,
                self.use_pixmap_index == old(self).use_pixmap_index,
                self.constant_cluster_codepoints == old(self).constant_cluster_codepoints,
                self.pixmap_table_indexes == old(self).pixmap_table_indexes,
                before == old(self).characters@,
                self.characters@.len() == before.len(),
                i <= before.len(),
                forall|k: int|
                    0 <= k < i ==> self.characters@[k] == resolved_character(
                        before[k],
                        use_advance_x,
                        use_pixmap_index,
                    ),
                forall|k: int| i <= k < before.len() ==> self.characters@[k] == before[k],
            decreases before.len() - i,
        {
            let c = &mut self.characters[i];
            if !use_advance_x {
                c.advance_x = None;
            }
            if !use_pixmap_index {
                c.pixmap_index = None;
            }
            i = i + 1;
        }
        assert(self.characters@ =~= before.map_values(
            |c: CharacterBuilder| resolved_character(c, use_advance_x, use_pixmap_index),
        ));
    }

    /// The character table with this builder's settings and characters,
    /// reading the positions the handles hold now.
    /// The positions read from the handles sit in shared cells, which this
    /// contract does not describe.
    fn build(&mut self) -> (r: TableBuilderResult) {
        let advance_bit: u8 = if self.use_advance_x { 1 } else { 0 };
        let pixmap_bit: u8 = if self.use_pixmap_index { 2 } else { 0 };
        let configuration: u8 = if self.constant_cluster_codepoints.is_some() { 1 } else { 0 };
        let links: u8 = if self.pixmap_table_indexes.is_some() { 1 } else { 0 };
        let pixmap_table_indexes = match &self.pixmap_table_indexes {
            Some(v) => Some(read_pixmap_table_indexes(v)),
            None => None,
        };
        let mut characters: Vec<Character> = Vec::new();
        let mut i: usize = 0;
        while i < self.characters.len()
            invariant
                i <= self.characters@.len(),
                characters@.len() == i,
                forall|k: int|
                    0 <= k < i ==> {
                        let c = #[trigger] self.characters@[k];
                        let m = characters@[k]@;
                        &&& m.advance_x == c.advance_x
                        &&& (m.pixmap_index is Some) == (c.pixmap_index is Some)
                        &&& m.pixmap_table_index is None
                        &&& m.code_points == c.grapheme_cluster@
                    },
            decreases self.characters@.len() - i,
        {
            let c = &self.characters[i];
            let pixmap_index = match &c.pixmap_index {
                Some(p) => Some(p.get()),
                None => None,
            };
            characters.push(
                Character {
                    advance_x: c.advance_x,
                    pixmap_index,
                    pixmap_table_index: None,
                    code_points: c.grapheme_cluster.clone(),
                },
            );
            i = i + 1;
        }
        let table = CharacterTable {
            modifier_flags: CharacterTableModifierFlags::from_bits_retain(advance_bit | pixmap_bit),
            configuration_flags: CharacterTableConfigurationFlags::from_bits_retain(configuration),
            constant_code_point_count: self.constant_cluster_codepoints,
            link_flags: CharacterTableLinkFlags::from_bits_retain(links),
            pixmap_table_indexes,
            characters,
        };
        TableBuilderResult::Character(table)
    }
}

impl From<CharacterTableBuilder> for TableBuilderIdentifier {
    /// The builder, as a character table to add to a layout.
    fn from(character_table_builder: CharacterTableBuilder) -> (r: Self) {
        TableBuilderIdentifier::Character(character_table_builder)
    }
}

impl vstd::std_specs::convert::FromSpecImpl<CharacterTableBuilder> for TableBuilderIdentifier {
    open spec fn obeys_from_spec() -> bool {
        true
    }

    open spec fn from_spec(v: CharacterTableBuilder) -> Self {
        TableBuilderIdentifier::Character(v)
    }
}

} // verus!
