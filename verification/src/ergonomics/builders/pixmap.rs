//! Building pixmap tables.
use vstd::prelude::*;
use vstd::slice::slice_to_vec;
use crate::ergonomics::{
    clone_color_table_indexes, ColorTableIndex, PixmapIndex, PixmapTableIndex, TableBuilder,
    TableBuilderIdentifier, TableBuilderResult,
};
use crate::ergonomics::builders::character::index_handles;
use crate::format::{
    Pixmap, PixmapTable, PixmapTableConfigurationFlags, PixmapTableLinkFlags, PixmapTableModel,
};

verus! {

/// Builds a [`Pixmap`].
pub struct PixmapBuilder {
    /// Width of the pixmap, when the table has no constant width.
    pub custom_width: Option<u8>,
    /// Height of the pixmap, when the table has no constant height.
    pub custom_height: Option<u8>,
    /// Bits per pixel of the pixmap, when the table has none constant.
    pub custom_bits_per_pixel: Option<u8>,
    /// The pixel data.
    pub data: Vec<u8>,
    /// Handle to this pixmap, once it is in a table.
    pub index: Option<PixmapIndex>,
}

/// Builds a [`PixmapTable`].
pub struct PixmapTableBuilder {
    /// Width shared by every pixmap, when set.
    pub constant_width: Option<u8>,
    /// Height shared by every pixmap, when set.
    pub constant_height: Option<u8>,
    /// Bits per pixel shared by every pixmap, when set.
    pub constant_bits_per_pixel: Option<u8>,
    /// Handles to the linked color tables, when set.
    pub color_table_indexes: Option<Vec<ColorTableIndex>>,
    pub pixmaps: Vec<PixmapBuilder>,
    /// Handle to this table's position in a layout.
    pub index: PixmapTableIndex,
}

impl PixmapBuilder {
    /// The handle to this pixmap, once it is in a table.
    pub open spec fn handle(&self) -> Option<PixmapIndex> {
        self.index
    }

    /// A pixmap holding `data`, with no dimensions of its own.
    pub fn from(data: &[u8]) -> (r: Self)
        ensures
            r.custom_width is None,
            r.custom_height is None,
            r.custom_bits_per_pixel is None,
            r.data@ == data@,
            r.handle() is None,
    {
        PixmapBuilder {
            custom_width: None,
            custom_height: None,
            custom_bits_per_pixel: None,
            data: slice_to_vec(data),
            index: None,
        }
    }

    /// Sets the pixmap's own width.
    pub fn custom_width(&mut self, custom_width: u8) -> (r: &mut Self)
        ensures
            r.custom_width == Some(custom_width),
            r.custom_height == old(self).custom_height,
            r.custom_bits_per_pixel == old(self).custom_bits_per_pixel,
            r.data == old(self).data,
            r.handle() == old(self).handle(),
            *final(self) == *final(r),
    {
        self.custom_width = Some(custom_width);
        self
    }

    /// Sets the pixmap's own height.
    pub fn custom_height(&mut self, custom_height: u8) -> (r: &mut Self)
        ensures
            r.custom_height == Some(custom_height),
            r.custom_width == old(self).custom_width,
            r.custom_bits_per_pixel == old(self).custom_bits_per_pixel,
            r.data == old(self).data,
            r.handle() == old(self).handle(),
            *final(self) == *final(r),
    {
        self.custom_height = Some(custom_height);
        self
    }

    /// Sets the pixmap's own bits per pixel.
    pub fn custom_bits_per_pixel(&mut self, custom_bits_per_pixel: u8) -> (r: &mut Self)
        ensures
            r.custom_bits_per_pixel == Some(custom_bits_per_pixel),
            r.custom_width == old(self).custom_width,
            r.custom_height == old(self).custom_height,
            r.data == old(self).data,
            r.handle() == old(self).handle(),
            *final(self) == *final(r),
    {
        self.custom_bits_per_pixel = Some(custom_bits_per_pixel);
        self
    }

    /// Sets the pixel data.
    pub fn data(&mut self, data: &[u8]) -> (r: &mut Self)
        ensures
            r.data@ == data@,
            r.custom_width == old(self).custom_width,
            r.custom_height == old(self).custom_height,
            r.custom_bits_per_pixel == old(self).custom_bits_per_pixel,
            r.handle() == old(self).handle(),
            *final(self) == *final(r),
    {
        self.data = slice_to_vec(data);
        self
    }
}

impl Default for PixmapBuilder {
    /// A pixmap with no dimensions of its own and no data.
    fn default() -> (r: Self)
        ensures
            r.custom_width is None,
            r.custom_height is None,
            r.custom_bits_per_pixel is None,
            r.data@ == Seq::<u8>::empty(),
            r.handle() is None,
    {
        PixmapBuilder {
            custom_width: None,
            custom_height: None,
            custom_bits_per_pixel: None,
            data: Vec::new(),
            index: None,
        }
    }
}

/// Whether `after` is `p` as resolving leaves it in a table with the given
/// constants: the dimensions the table sets are cleared, and so is the
/// handle (whose position resolving has stored).
pub open spec fn resolved_pixmap(
    p: PixmapBuilder,
    after: PixmapBuilder,
    constant_width: Option<u8>,
    constant_height: Option<u8>,
    constant_bits_per_pixel: Option<u8>,
) -> bool {
    &&& after.custom_width == (if constant_width is Some {
        None
    } else {
        p.custom_width
    })
    &&& after.custom_height == (if constant_height is Some {
        None
    } else {
        p.custom_height
    })
    &&& after.custom_bits_per_pixel == (if constant_bits_per_pixel is Some {
        None
    } else {
        p.custom_bits_per_pixel
    })
    &&& after.data == p.data
    &&& after.handle() is None
}

/// Whether `t` is the pixmap table built from `b`. The link positions are
/// what the shared handles held at build time; only their presence and
/// count follow from `b`.
pub open spec fn pixmap_table_built(b: PixmapTableBuilder, t: PixmapTableModel) -> bool {
    &&& t.constant_width == b.constant_width
    &&& t.constant_height == b.constant_height
    &&& t.constant_bits_per_pixel == b.constant_bits_per_pixel
    &&& t.configuration_flags == 0
    &&& t.link_flags == 0
    &&& (t.color_table_indexes is Some) == (b.color_table_indexes is Some)
    &&& t.color_table_indexes matches Some(v) ==> v.len() == index_handles(b.color_table_indexes).len()
    &&& t.pixmaps.len() == b.pixmaps@.len()
    &&& forall|k: int|
        0 <= k < t.pixmaps.len() ==> {
            let p = #[trigger] b.pixmaps@[k];
            let m = t.pixmaps[k];
            &&& m.custom_width == p.custom_width
            &&& m.custom_height == p.custom_height
            &&& m.custom_bits_per_pixel == p.custom_bits_per_pixel
            &&& m.data == p.data@
        }
}

impl Default for PixmapTableBuilder {
    /// A table with no constants, no links and no pixmaps, with a handle of
    /// its own.
    fn default() -> (r: Self)
        ensures
            r.constant_width is None,
            r.constant_height is None,
            r.constant_bits_per_pixel is None,
            r.color_table_indexes is None,
            r.pixmaps@ == Seq::<PixmapBuilder>::empty(),
    {
        PixmapTableBuilder {
            constant_width: None,
            constant_height: None,
            constant_bits_per_pixel: None,
            color_table_indexes: None,
            pixmaps: Vec::new(),
            index: PixmapTableIndex::new(),
        }
    }
}

impl PixmapTableBuilder {
    /// The handle to this table's position.
    pub open spec fn handle(&self) -> PixmapTableIndex {
        self.index
    }

    /// Sets the width shared by every pixmap.
    pub fn constant_width(&mut self, constant_width: u8) -> (r: &mut Self)
        ensures
            r.constant_width == Some(constant_width),
            r.constant_height == old(self).constant_height,
            r.constant_bits_per_pixel == old(self).constant_bits_per_pixel,
            r.color_table_indexes == old(self).color_table_indexes,
            r.pixmaps == old(self).pixmaps,
            r.handle() == old(self).handle(),
            *final(self) == *final(r),
    {
        self.constant_width = Some(constant_width);
        self
    }

    /// Sets the height shared by every pixmap.
    pub fn constant_height(&mut self, constant_height: u8) -> (r: &mut Self)
        ensures
            r.constant_height == Some(constant_height),
            r.constant_width == old(self).constant_width,
            r.constant_bits_per_pixel == old(self).constant_bits_per_pixel,
            r.color_table_indexes == old(self).color_table_indexes,
            r.pixmaps == old(self).pixmaps,
            r.handle() == old(self).handle(),
            *final(self) == *final(r),
    {
        self.constant_height = Some(constant_height);
        self
    }

    /// Sets the bits per pixel shared by every pixmap.
    pub fn constant_bits_per_pixel(&mut self, constant_bits_per_pixel: u8) -> (r: &mut Self)
        ensures
            r.constant_bits_per_pixel == Some(constant_bits_per_pixel),
            r.constant_width == old(self).constant_width,
            r.constant_height == old(self).constant_height,
            r.color_table_indexes == old(self).color_table_indexes,
            r.pixmaps == old(self).pixmaps,
            r.handle() == old(self).handle(),
            *final(self) == *final(r),
    {
        self.constant_bits_per_pixel = Some(constant_bits_per_pixel);
        self
    }

    /// Appends links to the color tables behind `color_table_indexes`.
    pub fn color_table_indexes(&mut self, color_table_indexes: &[ColorTableIndex]) -> (r: &mut Self)
        ensures
            r.color_table_indexes is Some,
            index_handles(r.color_table_indexes) == index_handles(old(self).color_table_indexes)
                + color_table_indexes@,
            r.constant_width == old(self).constant_width,
            r.constant_height == old(self).constant_height,
            r.constant_bits_per_pixel == old(self).constant_bits_per_pixel,
            r.pixmaps == old(self).pixmaps,
            r.handle() == old(self).handle(),
            *final(self) == *final(r),
    {
        let mut added = clone_color_table_indexes(color_table_indexes);
        let mut list = match self.color_table_indexes.take() {
            Some(v) => v,
            None => Vec::new(),
        };
        list.append(&mut added);
        self.color_table_indexes = Some(list);
        self
    }

    /// Appends `pixmap`, giving it a handle that names this table and the
    /// pixmap's position in it.
    /// The position stored in a handle sits in a shared cell, which this
    /// contract does not describe.
    pub fn pixmap(&mut self, pixmap: PixmapBuilder) -> (r: &mut Self)
        ensures
            r.pixmaps@.len() == old(self).pixmaps@.len() + 1,
            r.pixmaps@.drop_last() == old(self).pixmaps@,
            r.pixmaps@.last().custom_width == pixmap.custom_width,
            r.pixmaps@.last().custom_height == pixmap.custom_height,
            r.pixmaps@.last().custom_bits_per_pixel == pixmap.custom_bits_per_pixel,
            r.pixmaps@.last().data == pixmap.data,
            r.pixmaps@.last().handle() matches Some(h) && h.table_handle() == old(self).handle(),
            r.constant_width == old(self).constant_width,
            r.constant_height == old(self).constant_height,
            r.constant_bits_per_pixel == old(self).constant_bits_per_pixel,
            r.color_table_indexes == old(self).color_table_indexes,
            r.handle() == old(self).handle(),
            *final(self) == *final(r),
    {
        let mut pixmap = pixmap;
        let position = self.pixmaps.len() as u8;
        pixmap.index = Some(PixmapIndex::new(self.index.clone(), position));
        let ghost before = self.pixmaps@;
        self.pixmaps.push(pixmap);
        assert(self.pixmaps@.drop_last() =~= before);
        self
    }

    /// Appends `pixmap` and stores its handle in `pixmap_index`.
    pub fn pixmap_bind(&mut self, pixmap: PixmapBuilder, pixmap_index: &mut PixmapIndex) -> (r: &mut Self)
        ensures
            r.pixmaps@.len() == old(self).pixmaps@.len() + 1,
            r.pixmaps@.drop_last() == old(self).pixmaps@,
            r.pixmaps@.last().custom_width == pixmap.custom_width,
            r.pixmaps@.last().custom_height == pixmap.custom_height,
            r.pixmaps@.last().custom_bits_per_pixel == pixmap.custom_bits_per_pixel,
            r.pixmaps@.last().data == pixmap.data,
            r.pixmaps@.last().handle() == Some(*final(pixmap_index)),
            final(pixmap_index).table_handle() == old(self).handle(),
            r.constant_width == old(self).constant_width,
            r.constant_height == old(self).constant_height,
            r.constant_bits_per_pixel == old(self).constant_bits_per_pixel,
            r.color_table_indexes == old(self).color_table_indexes,
            r.handle() == old(self).handle(),
            *final(self) == *final(r),
    {
        *pixmap_index = self.bind_pixmap(pixmap);
        self
    }

    /// Appends what `process` makes of `pixmap`.
    pub fn pixmap_process<F: Fn(PixmapBuilder) -> PixmapBuilder>(
        &mut self,
        pixmap: PixmapBuilder,
        process: F,
    ) -> (r: &mut Self)
        requires
            process.requires((pixmap,)),
        ensures
            exists|p: PixmapBuilder|
                {
                    &&& process.ensures((pixmap,), p)
                    &&& r.pixmaps@.last().custom_width == p.custom_width
                    &&& r.pixmaps@.last().custom_height == p.custom_height
                    &&& r.pixmaps@.last().custom_bits_per_pixel == p.custom_bits_per_pixel
                    &&& r.pixmaps@.last().data == p.data
                },
            r.pixmaps@.len() == old(self).pixmaps@.len() + 1,
            r.pixmaps@.drop_last() == old(self).pixmaps@,
            r.pixmaps@.last().handle() matches Some(h) && h.table_handle() == old(self).handle(),
            r.constant_width == old(self).constant_width,
            r.constant_height == old(self).constant_height,
            r.constant_bits_per_pixel == old(self).constant_bits_per_pixel,
            r.color_table_indexes == old(self).color_table_indexes,
            r.handle() == old(self).handle(),
            *final(self) == *final(r),
    {
        let p = process(pixmap);
        self.pixmap(p)
    }

    /// Appends `pixmap` and returns its handle.
    pub fn bind_pixmap(&mut self, pixmap: PixmapBuilder) -> (r: PixmapIndex)
        ensures
            final(self).pixmaps@.len() == old(self).pixmaps@.len() + 1,
            final(self).pixmaps@.drop_last() == old(self).pixmaps@,
            final(self).pixmaps@.last().custom_width == pixmap.custom_width,
            final(self).pixmaps@.last().custom_height == pixmap.custom_height,
            final(self).pixmaps@.last().custom_bits_per_pixel == pixmap.custom_bits_per_pixel,
            final(self).pixmaps@.last().data == pixmap.data,
            final(self).pixmaps@.last().handle() == Some(r),
            r.table_handle() == old(self).handle(),
            final(self).constant_width == old(self).constant_width,
            final(self).constant_height == old(self).constant_height,
            final(self).constant_bits_per_pixel == old(self).constant_bits_per_pixel,
            final(self).color_table_indexes == old(self).color_table_indexes,
            final(self).handle() == old(self).handle(),
    {
        self.pixmap(pixmap);
        let n = self.pixmaps.len();
        match &self.pixmaps[n - 1].index {
            Some(p) => p.clone(),
            None => {
                assert(false);
                PixmapIndex::new(self.index.clone(), 0)
            },
        }
    }

    /// A handle to this table's position, for tables that link to it.
    pub fn link(&mut self) -> (r: PixmapTableIndex)
        ensures
            r == old(self).handle(),
            *final(self) == *old(self),
    {
        self.index.clone()
    }

    /// Stores this table's position in its handle.
    pub(crate) fn set_position(&self, position: u8) {
        self.index.set(position)
    }
}

/// Reads the positions the handles `v` hold now.
fn read_color_table_indexes(v: &Vec<ColorTableIndex>) -> (r: Vec<u8>)
    ensures
        r@.len() == v@.len(),
{
    let mut r: Vec<u8> = Vec::new();
    let mut i: usize = 0;
    while i < v.len()
        invariant
            i <= v@.len(),
            r@.len() == i,
        decreases v@.len() - i,
    {
        r.push(v[i].get());
        i = i + 1;
    }
    r
}

impl TableBuilder for PixmapTableBuilder {
    open spec fn resolvable(&self) -> bool {
        forall|k: int|
            0 <= k < self.pixmaps@.len() ==> {
                let p = #[trigger] self.pixmaps@[k];
                &&& self.constant_width is None ==> p.custom_width is Some
                &&& self.constant_height is None ==> p.custom_height is Some
                &&& self.constant_bits_per_pixel is None ==> p.custom_bits_per_pixel is Some
                &&& p.handle() is Some
            }
    }

    open spec fn resolves_to(&self, after: Self) -> bool {
        &&& after.constant_width == self.constant_width
        &&& after.constant_height == self.constant_height
        &&& after.constant_bits_per_pixel == self.constant_bits_per_pixel
        &&& after.color_table_indexes == self.color_table_indexes
        &&& after.handle() == self.handle()
        &&& after.pixmaps@.len() == self.pixmaps@.len()
        &&& forall|k: int|
            0 <= k < self.pixmaps@.len() ==> resolved_pixmap(
                #[trigger] self.pixmaps@[k],
                after.pixmaps@[k],
                self.constant_width,
                self.constant_height,
                self.constant_bits_per_pixel,
            )
    }

    open spec fn builds(&self, r: TableBuilderResult) -> bool {
        r matches TableBuilderResult::Pixmap(t) && pixmap_table_built(*self, t@)
    }

    /// Clears the dimensions the table sets, and stores each pixmap's
    /// position in its handle.
    /// The position stored in a handle sits in a shared cell, which this
    /// contract does not describe.
    fn resolve(&mut self) {
        let constant_width = self.constant_width;
        let constant_height = self.constant_height;
        let constant_bits_per_pixel = self.constant_bits_per_pixel;
        let ghost before = self.pixmaps@;
        let mut i: usize = 0;
        while i < self.pixmaps.len()
            invariant
                constant_width == self.constant_width,
                constant_height == self.constant_height,
                constant_bits_per_pixel == self.constant_bits_per_pixel,
                self.constant_width == old(self).constant_width,
                self.constant_height == old(self).constant_height,
                self.constant_bits_per_pixel == old(self).constant_bits_per_pixel,
                self.color_table_indexes == old(self).color_table_indexes,
                self.handle() == old(self).handle(),
                before == old(self).pixmaps@,
                self.pixmaps@.len() == before.len(),
                i <= before.len(),
                forall|k: int|
                    0 <= k < i ==> resolved_pixmap(
                        #[trigger] before[k],
                        self.pixmaps@[k],
                        constant_width,
                        constant_height,
                        constant_bits_per_pixel,
                    ),
                forall|k: int| i <= k < before.len() ==> self.pixmaps@[k] == before[k],
            decreases before.len() - i,
        {
            let p = &mut self.pixmaps[i];
            if constant_width.is_some() {
                p.custom_width = None;
            }
            if constant_height.is_some() {
                p.custom_height = None;
            }
            if constant_bits_per_pixel.is_some() {
                p.custom_bits_per_pixel = None;
            }
            if let Some(handle) = p.index.take() {
                handle.set(i as u8);
            }
            i = i + 1;
        }
    }

    /// The pixmap table with this builder's constants and pixmaps, reading
    /// the positions the link handles hold now.
    /// The positions read from the handles sit in shared cells, which this
    /// contract does not describe.
    fn build(&mut self) -> (r: TableBuilderResult) {
        let color_table_indexes = match &self.color_table_indexes {
            Some(v) => Some(read_color_table_indexes(v)),
            None => None,
        };
        let mut pixmaps: Vec<Pixmap> = Vec::new();
        let mut i: usize = 0;
        while i < self.pixmaps.len()
            invariant
                i <= self.pixmaps@.len(),
                pixmaps@.len() == i,
                forall|k: int|
                    0 <= k < i ==> {
                        let p = #[trigger] self.pixmaps@[k];
                        let m = pixmaps@[k]@;
                        &&& m.custom_width == p.custom_width
                        &&& m.custom_height == p.custom_height
                        &&& m.custom_bits_per_pixel == p.custom_bits_per_pixel
                        &&& m.data == p.data@
                    },
            decreases self.pixmaps@.len() - i,
        {
            let p = &self.pixmaps[i];
            pixmaps.push(
                Pixmap {
                    custom_width: p.custom_width,
                    custom_height: p.custom_height,
                    custom_bits_per_pixel: p.custom_bits_per_pixel,
                    data: slice_to_vec(p.data.as_slice()),
                },
            );
            i = i + 1;
        }
        let table = PixmapTable {
            configuration_flags: PixmapTableConfigurationFlags::empty(),
            constant_width: self.constant_width,
            constant_height: self.constant_height,
            constant_bits_per_pixel: self.constant_bits_per_pixel,
            link_flags: PixmapTableLinkFlags::empty(),
            color_table_indexes,
            pixmaps,
        };
        TableBuilderResult::Pixmap(table)
    }
}

impl From<PixmapTableBuilder> for TableBuilderIdentifier {
    /// The builder, as a pixmap table to add to a layout.
    fn from(pixmap_table_builder: PixmapTableBuilder) -> (r: Self) {
        TableBuilderIdentifier::Pixmap(pixmap_table_builder)
    }
}

impl vstd::std_specs::convert::FromSpecImpl<PixmapTableBuilder> for TableBuilderIdentifier {
    open spec fn obeys_from_spec() -> bool {
        true
    }

    open spec fn from_spec(v: PixmapTableBuilder) -> Self {
        TableBuilderIdentifier::Pixmap(v)
    }
}

} // verus!
