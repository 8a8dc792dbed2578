//! Builders that make a [`Layout`] without spelling out its nested structs.
//!
//! Tables refer to one another through shared index handles: a handle is
//! handed out by a table builder before the table's position in the layout
//! is known, and holds that position once the table is added to a
//! [`LayoutBuilder`]. Building reads the handles' values at that time.
use vstd::prelude::*;
use std::rc::Rc;
use vstd::cell::invcell::InvCell;
use vstd::predicate::Predicate;
use crate::format::{CharacterTable, ColorTable, Layout, PixmapTable, Version};

pub mod builders;

pub use builders::character::{
    character_table_built, resolved_character, CharacterBuilder, CharacterTableBuilder,
};
pub use builders::color::{color_table_built, resolved_color, ColorBuilder, ColorTableBuilder};
pub use builders::pixmap::{
    pixmap_table_built, resolved_pixmap, PixmapBuilder, PixmapTableBuilder,
};

verus! {

/// The signature that opens every `.spf` file: `0x7F`, then `fsF`.
pub const MAGIC_BYTES: [u8; 4] = [127, 102, 115, 70];

/// Any position fits an index handle.
pub struct AnyIndex;

impl Predicate<u8> for AnyIndex {
    open spec fn predicate(&self, v: u8) -> bool {
        true
    }
}

/// A fresh shared cell for a position, starting at `value`.
fn new_cell(value: u8) -> Rc<InvCell<u8, AnyIndex>> {
    Rc::new(InvCell::new(value, Ghost(AnyIndex)))
}

/// A shared handle to the position of a character table in a layout.
pub struct CharacterTableIndex(Rc<InvCell<u8, AnyIndex>>);

/// A shared handle to the position of a color table in a layout.
pub struct ColorTableIndex(Rc<InvCell<u8, AnyIndex>>);

/// A shared handle to the position of a pixmap table in a layout.
pub struct PixmapTableIndex(Rc<InvCell<u8, AnyIndex>>);

/// A shared handle to a pixmap: its table, and its position in that table.
pub struct PixmapIndex(PixmapTableIndex, Rc<InvCell<u8, AnyIndex>>);

impl CharacterTableIndex {
    /// A handle of its own, holding 0.
    pub fn new() -> Self {
        CharacterTableIndex(new_cell(0))
    }
}

impl Clone for CharacterTableIndex {
    /// Another handle to the same position.
    fn clone(&self) -> (r: Self)
        ensures
            r == *self,
    {
        CharacterTableIndex(Rc::clone(&self.0))
    }
}

impl ColorTableIndex {
    /// A handle of its own, holding 0.
    pub fn new() -> Self {
        ColorTableIndex(new_cell(0))
    }

    /// The position the handle holds now.
    pub fn get(&self) -> u8 {
        self.0.get()
    }

    /// Stores `position` in the handle, for every holder of it.
    pub(crate) fn set(&self, position: u8) {
        self.0.set(position)
    }
}

impl Clone for ColorTableIndex {
    /// Another handle to the same position.
    fn clone(&self) -> (r: Self)
        ensures
            r == *self,
    {
        ColorTableIndex(Rc::clone(&self.0))
    }
}

impl PixmapTableIndex {
    /// A handle of its own, holding 0.
    pub fn new() -> Self {
        PixmapTableIndex(new_cell(0))
    }

    /// The position the handle holds now.
    pub fn get(&self) -> u8 {
        self.0.get()
    }

    /// Stores `position` in the handle, for every holder of it.
    pub(crate) fn set(&self, position: u8) {
        self.0.set(position)
    }
}

impl Clone for PixmapTableIndex {
    /// Another handle to the same position.
    fn clone(&self) -> (r: Self)
        ensures
            r == *self,
    {
        PixmapTableIndex(Rc::clone(&self.0))
    }
}

impl PixmapIndex {
    /// A handle to the pixmap at `position` of the table `table`.
    pub(crate) fn new(table: PixmapTableIndex, position: u8) -> (r: Self)
        ensures
            r.table_handle() == table,
    {
        PixmapIndex(table, new_cell(position))
    }

    /// The handle to the pixmap's table.
    pub closed spec fn table_handle(&self) -> PixmapTableIndex {
        self.0
    }

    /// The handle to the pixmap's table.
    pub fn table(&self) -> (r: PixmapTableIndex)
        ensures
            r == self.table_handle(),
    {
        self.0.clone()
    }

    /// The pixmap's position in its table now.
    pub fn get(&self) -> u8 {
        self.1.get()
    }

    /// Stores the pixmap's position, for every holder of the handle.
    pub(crate) fn set(&self, position: u8) {
        self.1.set(position)
    }
}

impl Clone for PixmapIndex {
    /// Another handle to the same pixmap.
    fn clone(&self) -> (r: Self)
        ensures
            r == *self,
    {
        PixmapIndex(self.0.clone(), Rc::clone(&self.1))
    }
}

/// Copies the handles of `v`.
pub(crate) fn clone_pixmap_table_indexes(v: &[PixmapTableIndex]) -> (r: Vec<PixmapTableIndex>)
    ensures
        r@ == v@,
{
    let mut r: Vec<PixmapTableIndex> = Vec::new();
    let mut i: usize = 0;
    while i < v.len()
        invariant
            i <= v@.len(),
            r@ == v@.take(i as int),
        decreases v@.len() - i,
    {
        r.push(v[i].clone());
        assert(v@.take(i as int + 1) =~= v@.take(i as int).push(v@[i as int]));
        i = i + 1;
    }
    assert(v@.take(v@.len() as int) =~= v@);
    r
}

/// Copies the handles of `v`.
pub(crate) fn clone_color_table_indexes(v: &[ColorTableIndex]) -> (r: Vec<ColorTableIndex>)
    ensures
        r@ == v@,
{
    let mut r: Vec<ColorTableIndex> = Vec::new();
    let mut i: usize = 0;
    while i < v.len()
        invariant
            i <= v@.len(),
            r@ == v@.take(i as int),
        decreases v@.len() - i,
    {
        r.push(v[i].clone());
        assert(v@.take(i as int + 1) =~= v@.take(i as int).push(v@[i as int]));
        i = i + 1;
    }
    assert(v@.take(v@.len() as int) =~= v@);
    r
}

/// A table builder, tagged by its kind, to add to a [`LayoutBuilder`].
pub enum TableBuilderIdentifier {
    Character(CharacterTableBuilder),
    Color(ColorTableBuilder),
    Pixmap(PixmapTableBuilder),
}

/// A built table, tagged by its kind.
pub enum TableBuilderResult {
    Character(CharacterTable),
    Color(ColorTable),
    Pixmap(PixmapTable),
}

/// What a table builder does when it is added to a layout and when the
/// layout is built.
pub trait TableBuilder: Sized {
    /// Whether every record holds the values that the table's settings call
    /// for, so that resolving can proceed.
    spec fn resolvable(&self) -> bool;

    /// Whether `after` is this builder once resolved.
    spec fn resolves_to(&self, after: Self) -> bool;

    /// Whether `r` is the table this builder builds.
    spec fn builds(&self, r: TableBuilderResult) -> bool;

    /// Brings the records in line with the table's settings.
    fn resolve(&mut self)
        requires
            old(self).resolvable(),
        ensures
            old(self).resolves_to(*final(self)),
    ;

    /// The table this builder describes.
    fn build(&mut self) -> (r: TableBuilderResult)
        ensures
            *final(self) == *old(self),
            old(self).builds(r),
    ;
}

/// Lets you create a [`Layout`] without all the nested structs.
#[non_exhaustive]
pub struct LayoutBuilder {
    pub version: Version,
    pub compact: bool,
    pub character_table_builders: Vec<CharacterTableBuilder>,
    pub color_table_builders: Vec<ColorTableBuilder>,
    pub pixmap_table_builders: Vec<PixmapTableBuilder>,
}

impl Default for LayoutBuilder {
    /// A builder for a layout of the first version, not compact, with no
    /// tables.
    fn default() -> (r: Self)
        ensures
            r.version == Version::FV0,
            !r.compact,
            r.character_table_builders@ == Seq::<CharacterTableBuilder>::empty(),
            r.color_table_builders@ == Seq::<ColorTableBuilder>::empty(),
            r.pixmap_table_builders@ == Seq::<PixmapTableBuilder>::empty(),
    {
        LayoutBuilder {
            version: Version::FV0,
            compact: false,
            character_table_builders: Vec::new(),
            color_table_builders: Vec::new(),
            pixmap_table_builders: Vec::new(),
        }
    }
}

impl LayoutBuilder {
    /// Sets the [`Layout::compact`] field of the builder.
    pub fn compact(&mut self, compact: bool) -> (r: &mut Self)
        ensures
            r.compact == compact,
            r.version == old(self).version,
            r.character_table_builders == old(self).character_table_builders,
            r.color_table_builders == old(self).color_table_builders,
            r.pixmap_table_builders == old(self).pixmap_table_builders,
            *final(self) == *final(r),
    {
        self.compact = compact;
        self
    }

    /// Sets the [`Layout::version`] field of the builder.
    pub fn version(&mut self, version: Version) -> (r: &mut Self)
        ensures
            r.version == version,
            r.compact == old(self).compact,
            r.character_table_builders == old(self).character_table_builders,
            r.color_table_builders == old(self).color_table_builders,
            r.pixmap_table_builders == old(self).pixmap_table_builders,
            *final(self) == *final(r),
    {
        self.version = version;
        self
    }

    /// Resolves `table` and adds it after the tables of its kind; a color or
    /// pixmap table's handle then holds its position among them.
    /// The position stored in a handle sits in a shared cell, which this
    /// contract does not describe.
    pub fn table(&mut self, table: TableBuilderIdentifier) -> (r: &mut Self)
        requires
            match table {
                TableBuilderIdentifier::Character(t) => t.resolvable(),
                TableBuilderIdentifier::Color(t) => t.resolvable(),
                TableBuilderIdentifier::Pixmap(t) => t.resolvable(),
            },
        ensures
            r.version == old(self).version,
            r.compact == old(self).compact,
            match table {
                TableBuilderIdentifier::Character(t) => exists|after: CharacterTableBuilder|
                    {
                        &&& t.resolves_to(after)
                        &&& r.character_table_builders@ == old(
                            self,
                        ).character_table_builders@.push(after)
                        &&& r.color_table_builders == old(self).color_table_builders
                        &&& r.pixmap_table_builders == old(self).pixmap_table_builders
                    },
                TableBuilderIdentifier::Color(t) => exists|after: ColorTableBuilder|
                    {
                        &&& t.resolves_to(after)
                        &&& r.color_table_builders@ == old(self).color_table_builders@.push(after)
                        &&& r.character_table_builders == old(self).character_table_builders
                        &&& r.pixmap_table_builders == old(self).pixmap_table_builders
                    },
                TableBuilderIdentifier::Pixmap(t) => exists|after: PixmapTableBuilder|
                    {
                        &&& t.resolves_to(after)
                        &&& r.pixmap_table_builders@ == old(self).pixmap_table_builders@.push(after)
                        &&& r.character_table_builders == old(self).character_table_builders
                        &&& r.color_table_builders == old(self).color_table_builders
                    },
            },
            *final(self) == *final(r),
    {
        match table {
            TableBuilderIdentifier::Character(mut t) => {
                t.resolve();
                self.character_table_builders.push(t);
            },
            TableBuilderIdentifier::Color(mut t) => {
                t.resolve();
                t.set_position(self.color_table_builders.len() as u8);
                self.color_table_builders.push(t);
            },
            TableBuilderIdentifier::Pixmap(mut t) => {
                t.resolve();
                t.set_position(self.pixmap_table_builders.len() as u8);
                self.pixmap_table_builders.push(t);
            },
        }
        self
    }

    /// The layout: this builder's version and packing, and the table each
    /// table builder builds, in order; no font tables.
    /// The positions read from the handles sit in shared cells, which this
    /// contract does not describe.
    pub fn build(&mut self) -> (r: Layout)
        ensures
            final(self).character_table_builders@ == old(self).character_table_builders@,
            final(self).color_table_builders@ == old(self).color_table_builders@,
            final(self).pixmap_table_builders@ == old(self).pixmap_table_builders@,
            final(self).version == old(self).version,
            final(self).compact == old(self).compact,
            r@.version == old(self).version,
            r@.compact == old(self).compact,
            r@.character_tables.len() == old(self).character_table_builders@.len(),
            forall|k: int|
                0 <= k < r@.character_tables.len() ==> character_table_built(
                    #[trigger] old(self).character_table_builders@[k],
                    r@.character_tables[k],
                ),
            r@.color_tables.len() == old(self).color_table_builders@.len(),
            forall|k: int|
                0 <= k < r@.color_tables.len() ==> color_table_built(
                    #[trigger] old(self).color_table_builders@[k],
                    r@.color_tables[k],
                ),
            r@.pixmap_tables.len() == old(self).pixmap_table_builders@.len(),
            forall|k: int|
                0 <= k < r@.pixmap_tables.len() ==> pixmap_table_built(
                    #[trigger] old(self).pixmap_table_builders@[k],
                    r@.pixmap_tables[k],
                ),
            r@.font_tables.len() == 0,
    {
        let mut layout = Layout::empty();
        layout.version = self.version;
        layout.compact = self.compact;
        let ghost cs = self.character_table_builders@;
        let mut i: usize = 0;
        while i < self.character_table_builders.len()
            invariant
                self.character_table_builders@ == cs,
                cs == old(self).character_table_builders@,
                self.color_table_builders@ == old(self).color_table_builders@,
                self.pixmap_table_builders@ == old(self).pixmap_table_builders@,
                self.version == old(self).version,
                self.compact == old(self).compact,
                layout@.version == old(self).version,
                layout@.compact == old(self).compact,
                i <= cs.len(),
                layout@.character_tables.len() == i,
                forall|k: int| 0 <= k < i ==> character_table_built(#[trigger] cs[k], layout@.character_tables[k]),
                layout@.color_tables.len() == 0,
                layout@.pixmap_tables.len() == 0,
                layout@.font_tables.len() == 0,
            decreases cs.len() - i,
        {
            let b = &mut self.character_table_builders[i];
            match b.build() {
                TableBuilderResult::Character(t) => {
                    layout.character_tables.push(t);
                },
                _ => {
                    assert(false);
                },
            }
            i = i + 1;
        }
        let ghost os = self.color_table_builders@;
        let mut i: usize = 0;
        while i < self.color_table_builders.len()
            invariant
                self.character_table_builders@ == old(self).character_table_builders@,
                self.color_table_builders@ == os,
                os == old(self).color_table_builders@,
                self.pixmap_table_builders@ == old(self).pixmap_table_builders@,
                self.version == old(self).version,
                self.compact == old(self).compact,
                layout@.version == old(self).version,
                layout@.compact == old(self).compact,
                layout@.character_tables.len() == old(self).character_table_builders@.len(),
                forall|k: int|
                    0 <= k < layout@.character_tables.len() ==> character_table_built(
                        #[trigger] old(self).character_table_builders@[k],
                        layout@.character_tables[k],
                    ),
                i <= os.len(),
                layout@.color_tables.len() == i,
                forall|k: int| 0 <= k < i ==> color_table_built(#[trigger] os[k], layout@.color_tables[k]),
                layout@.pixmap_tables.len() == 0,
                layout@.font_tables.len() == 0,
            decreases os.len() - i,
        {
            let b = &mut self.color_table_builders[i];
            match b.build() {
                TableBuilderResult::Color(t) => {
                    layout.color_tables.push(t);
                },
                _ => {
                    assert(false);
                },
            }
            i = i + 1;
        }
        let ghost ps = self.pixmap_table_builders@;
        let mut i: usize = 0;
        while i < self.pixmap_table_builders.len()
            invariant
                self.character_table_builders@ == old(self).character_table_builders@,
                self.color_table_builders@ == old(self).color_table_builders@,
                self.pixmap_table_builders@ == ps,
                ps == old(self).pixmap_table_builders@,
                self.version == old(self).version,
                self.compact == old(self).compact,
                layout@.version == old(self).version,
                layout@.compact == old(self).compact,
                layout@.character_tables.len() == old(self).character_table_builders@.len(),
                forall|k: int|
                    0 <= k < layout@.character_tables.len() ==> character_table_built(
                        #[trigger] old(self).character_table_builders@[k],
                        layout@.character_tables[k],
                    ),
                layout@.color_tables.len() == old(self).color_table_builders@.len(),
                forall|k: int|
                    0 <= k < layout@.color_tables.len() ==> color_table_built(
                        #[trigger] old(self).color_table_builders@[k],
                        layout@.color_tables[k],
                    ),
                i <= ps.len(),
                layout@.pixmap_tables.len() == i,
                forall|k: int| 0 <= k < i ==> pixmap_table_built(#[trigger] ps[k], layout@.pixmap_tables[k]),
                layout@.font_tables.len() == 0,
            decreases ps.len() - i,
        {
            let b = &mut self.pixmap_table_builders[i];
            match b.build() {
                TableBuilderResult::Pixmap(t) => {
                    layout.pixmap_tables.push(t);
                },
                _ => {
                    assert(false);
                },
            }
            i = i + 1;
        }
        layout
    }
}

} // verus!
