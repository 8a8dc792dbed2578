//! Building color tables.
use vstd::prelude::*;
use crate::ergonomics::{ColorTableIndex, TableBuilder, TableBuilderIdentifier, TableBuilderResult};
use crate::format::{
    Color, ColorTable, ColorTableConfigurationFlags, ColorTableModel, ColorTableModifierFlags,
};

verus! {

/// Builds a [`Color`].
#[derive(Debug, Clone, Copy)]
pub struct ColorBuilder {
    /// Alpha of the color, when the table has no constant alpha.
    pub custom_alpha: Option<u8>,
    pub r: u8,
    pub g: u8,
    pub b: u8,
}

/// Builds a [`ColorTable`].
pub struct ColorTableBuilder {
    /// Alpha shared by every color, when set.
    pub constant_alpha: Option<u8>,
    pub colors: Vec<ColorBuilder>,
    /// Handle to this table's position in a layout.
    pub index: ColorTableIndex,
}

impl Default for ColorBuilder {
    /// Black, with no alpha of its own.
    fn default() -> (r: Self)
        ensures
            r == (ColorBuilder { custom_alpha: None, r: 0, g: 0, b: 0 }),
    {
        ColorBuilder { custom_alpha: None, r: 0, g: 0, b: 0 }
    }
}

/// Byte `i` of `s`, or 0 past its end.
pub open spec fn byte_or_zero(s: Seq<u8>, i: int) -> u8 {
    if i < s.len() {
        s[i]
    } else {
        0
    }
}

/// Byte `i` of `s`, or 0 past its end.
fn get_or_zero(s: &[u8], i: usize) -> (r: u8)
    ensures
        r == byte_or_zero(s@, i as int),
{
    if i < s.len() {
        s[i]
    } else {
        0
    }
}

impl ColorBuilder {
    /// The color whose red, green, blue and alpha are the first four bytes
    /// of `rgba`; a missing byte counts as 0.
    pub fn from(rgba: &[u8]) -> (r: Self)
        ensures
            r == (ColorBuilder {
                custom_alpha: Some(byte_or_zero(rgba@, 3)),
                r: byte_or_zero(rgba@, 0),
                g: byte_or_zero(rgba@, 1),
                b: byte_or_zero(rgba@, 2),
            }),
    {
        ColorBuilder {
            custom_alpha: Some(get_or_zero(rgba, 3)),
            r: get_or_zero(rgba, 0),
            g: get_or_zero(rgba, 1),
            b: get_or_zero(rgba, 2),
        }
    }

    /// Sets all four channels.
    pub fn rgba(&mut self, r: u8, g: u8, b: u8, a: u8) -> (res: &mut Self)
        ensures
            *res == (ColorBuilder { custom_alpha: Some(a), r, g, b }),
            *final(self) == *final(res),
    {
        self.custom_alpha = Some(a);
        self.r = r;
        self.g = g;
        self.b = b;
        self
    }

    /// Sets the three color channels and clears the alpha.
    pub fn rgb(&mut self, r: u8, g: u8, b: u8) -> (res: &mut Self)
        ensures
            *res == (ColorBuilder { custom_alpha: None, r, g, b }),
            *final(self) == *final(res),
    {
        self.custom_alpha = None;
        self.r = r;
        self.g = g;
        self.b = b;
        self
    }

    /// Sets the alpha.
    pub fn a(&mut self, a: u8) -> (res: &mut Self)
        ensures
            *res == (ColorBuilder { custom_alpha: Some(a), ..*old(self) }),
            *final(self) == *final(res),
    {
        self.custom_alpha = Some(a);
        self
    }

    /// Sets the red channel.
    pub fn r(&mut self, r: u8) -> (res: &mut Self)
        ensures
            *res == (ColorBuilder { r, ..*old(self) }),
            *final(self) == *final(res),
    {
        self.r = r;
        self
    }

    /// Sets the green channel.
    pub fn g(&mut self, g: u8) -> (res: &mut Self)
        ensures
            *res == (ColorBuilder { g, ..*old(self) }),
            *final(self) == *final(res),
    {
        self.g = g;
        self
    }

    /// Sets the blue channel.
    pub fn b(&mut self, b: u8) -> (res: &mut Self)
        ensures
            *res == (ColorBuilder { b, ..*old(self) }),
            *final(self) == *final(res),
    {
        self.b = b;
        self
    }

    /// Opaque black.
    pub fn black() -> (res: Self)
        ensures
            res == (ColorBuilder { custom_alpha: Some(255), r: 0, g: 0, b: 0 }),
    {
        ColorBuilder { custom_alpha: Some(255), r: 0, g: 0, b: 0 }
    }

    /// Opaque white.
    pub fn white() -> (res: Self)
        ensures
            res == (ColorBuilder { custom_alpha: Some(255), r: 255, g: 255, b: 255 }),
    {
        ColorBuilder { custom_alpha: Some(255), r: 255, g: 255, b: 255 }
    }

    /// Fully transparent black.
    pub fn transparent() -> (res: Self)
        ensures
            res == (ColorBuilder { custom_alpha: Some(0), r: 0, g: 0, b: 0 }),
    {
        ColorBuilder { custom_alpha: Some(0), r: 0, g: 0, b: 0 }
    }
}

/// `c` as resolving leaves it in a table with the given constant alpha:
/// its own alpha is cleared when the table has one.
pub open spec fn resolved_color(c: ColorBuilder, constant_alpha: Option<u8>) -> ColorBuilder {
    if constant_alpha is Some {
        ColorBuilder { custom_alpha: None, ..c }
    } else {
        c
    }
}

/// Whether `t` is the color table built from `b`.
pub open spec fn color_table_built(b: ColorTableBuilder, t: ColorTableModel) -> bool {
    &&& t.modifier_flags == 0
    &&& t.configuration_flags == 0
    &&& t.constant_alpha == b.constant_alpha
    &&& t.colors.len() == b.colors@.len()
    &&& forall|k: int|
        0 <= k < t.colors.len() ==> {
            let c = #[trigger] b.colors@[k];
            let m = t.colors[k];
            &&& m.color_type is None
            &&& m.custom_alpha == c.custom_alpha
            &&& m.red == c.r
            &&& m.green == c.g
            &&& m.blue == c.b
        }
}

impl Default for ColorTableBuilder {
    /// A table with no constant alpha and no colors, with a handle of its
    /// own.
    fn default() -> (r: Self)
        ensures
            r.constant_alpha is None,
            r.colors@ == Seq::<ColorBuilder>::empty(),
    {
        ColorTableBuilder { constant_alpha: None, colors: Vec::new(), index: ColorTableIndex::new() }
    }
}

impl ColorTableBuilder {
    /// The handle to this table's position.
    pub open spec fn handle(&self) -> ColorTableIndex {
        self.index
    }

    /// Sets the alpha shared by every color.
    pub fn constant_alpha(&mut self, constant_alpha: u8) -> (r: &mut Self)
        ensures
            r.constant_alpha == Some(constant_alpha),
            r.colors == old(self).colors,
            r.handle() == old(self).handle(),
            *final(self) == *final(r),
    {
        self.constant_alpha = Some(constant_alpha);
        self
    }

    /// Appends `color`.
    pub fn color(&mut self, color: ColorBuilder) -> (r: &mut Self)
        ensures
            r.colors@ == old(self).colors@.push(color),
            r.constant_alpha == old(self).constant_alpha,
            r.handle() == old(self).handle(),
            *final(self) == *final(r),
    {
        self.colors.push(color);
        self
    }

    /// A handle to this table's position, for tables that link to it.
    pub fn link(&mut self) -> (r: ColorTableIndex)
        ensures
            r == old(self).handle(),
            *final(self) == *old(self),
    {
        self.index.clone()
    }

    /// Stores this table's position in its handle.
    pub(crate) fn set_position(&self, position: u8) {
        self.index.set(position)
    }
}

impl TableBuilder for ColorTableBuilder {
    open spec fn resolvable(&self) -> bool {
        self.constant_alpha is None ==> forall|k: int|
            0 <= k < self.colors@.len() ==> (#[trigger] self.colors@[k]).custom_alpha is Some
    }

    open spec fn resolves_to(&self, after: Self) -> bool {
        &&& after.constant_alpha == self.constant_alpha
        &&& after.handle() == self.handle()
        &&& after.colors@ == self.colors@.map_values(
            |c: ColorBuilder| resolved_color(c, self.constant_alpha),
        )
    }

    open spec fn builds(&self, r: TableBuilderResult) -> bool {
        r matches TableBuilderResult::Color(t) && color_table_built(*self, t@)
    }

    /// Clears the alphas of the colors when the table has a constant one.
    fn resolve(&mut self) {
        let constant_alpha = self.constant_alpha;
        let ghost before = self.colors@;
        let mut i: usize = 0;
        while i < self.colors.len()
            invariant
                constant_alpha == self.constant_alpha,
                self.constant_alpha == old(self).constant_alpha,
                self.handle() == old(self).handle(),
                before == old(self).colors@,
                self.colors@.len() == before.len(),
                i <= before.len(),
                forall|k: int| 0 <= k < i ==> self.colors@[k] == resolved_color(before[k], constant_alpha),
                forall|k: int| i <= k < before.len() ==> self.colors@[k] == before[k],
            decreases before.len() - i,
        {
            if constant_alpha.is_some() {
                let c = &mut self.colors[i];
                c.custom_alpha = None;
            }
            i = i + 1;
        }
        assert(self.colors@ =~= before.map_values(|c: ColorBuilder| resolved_color(c, constant_alpha)));
    }

    /// The color table with this builder's alpha and colors.
    fn build(&mut self) -> (r: TableBuilderResult) {
        let mut colors: Vec<Color> = Vec::new();
        let mut i: usize = 0;
        while i < self.colors.len()
            invariant
                i <= self.colors@.len(),
                colors@.len() == i,
                forall|k: int|
                    0 <= k < i ==> {
                        let c = #[trigger] self.colors@[k];
                        let m = colors@[k]@;
                        &&& m.color_type is None
                        &&& m.custom_alpha == c.custom_alpha
                        &&& m.red == c.r
                        &&& m.green == c.g
                        &&& m.blue == c.b
                    },
            decreases self.colors@.len() - i,
        {
            let c = self.colors[i];
            colors.push(
                Color { color_type: None, custom_alpha: c.custom_alpha, red: c.r, green: c.g, blue: c.b },
            );
            i = i + 1;
        }
        let table = ColorTable {
            modifier_flags: ColorTableModifierFlags::empty(),
            configuration_flags: ColorTableConfigurationFlags::empty(),
            constant_alpha: self.constant_alpha,
            colors,
        };
        TableBuilderResult::Color(table)
    }
}

impl From<ColorTableBuilder> for TableBuilderIdentifier {
    /// The builder, as a color table to add to a layout.
    fn from(color_table_builder: ColorTableBuilder) -> (r: Self) {
        TableBuilderIdentifier::Color(color_table_builder)
    }
}

impl vstd::std_specs::convert::FromSpecImpl<ColorTableBuilder> for TableBuilderIdentifier {
    open spec fn obeys_from_spec() -> bool {
        true
    }

    open spec fn from_spec(v: ColorTableBuilder) -> Self {
        TableBuilderIdentifier::Color(v)
    }
}

} // verus!
