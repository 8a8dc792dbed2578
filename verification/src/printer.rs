//! Rendering text onto a bitmap with a glyph font.
use vstd::prelude::*;
use vstd::slice::slice_to_vec;
use vstd::arithmetic::div_mod::{
    lemma_fundamental_div_mod, lemma_fundamental_div_mod_converse_div,
    lemma_fundamental_div_mod_converse_mod,
};
use vstd::string::StrSliceExecFns;
use crate::cache::{character_key, character_positions, mapping_entries, CharacterCache};
use crate::format::text::string_push;
use crate::glyphs::{Character, Layout};

verus! {

/// A one dimensional bitmap with blitting and manipulation methods.
///
/// Pixel (x, y), with (0, 0) the top-left corner, is entry
/// `y * width + x` of `data`.
#[derive(Debug)]
pub struct Surface {
    pub width: usize,
    pub height: usize,
    pub data: Vec<usize>,
}

/// The position of pixel (`col`, `row`) in a bitmap `w` pixels wide.
pub open spec fn pixel_index(w: int, col: int, row: int) -> int {
    row * w + col
}

/// Where pixel (`col`, `row`) of a `w`-wide bitmap lies, and that no other
/// pixel lies there.
pub proof fn lemma_pixel_index(w: int, col: int, row: int)
    requires
        0 <= col < w,
        0 <= row,
    ensures
        pixel_index(w, col, row) / w == row,
        pixel_index(w, col, row) % w == col,
        pixel_index(w, col, row) >= 0,
{
    lemma_fundamental_div_mod_converse_div(row * w + col, w, row, col);
    lemma_fundamental_div_mod_converse_mod(row * w + col, w, row, col);
    assert(row * w >= 0) by (nonlinear_arith)
        requires
            row >= 0,
            w > 0,
    ;
}

/// Entry `i` of a `w`-wide bitmap is pixel (`i % w`, `i / w`); below
/// `w * h` its row is below `h`.
pub proof fn lemma_index_pixel(w: int, h: int, i: int)
    requires
        w > 0,
        0 <= i,
    ensures
        i == pixel_index(w, i % w, i / w),
        0 <= i % w < w,
        0 <= i / w,
        i < w * h ==> i / w < h,
{
    lemma_fundamental_div_mod(i, w);
    assert((i / w) * w == w * (i / w)) by (nonlinear_arith);
    assert(0 <= i % w < w) by (nonlinear_arith)
        requires
            w > 0,
    ;
    assert(0 <= i / w) by (nonlinear_arith)
        requires
            w > 0,
            i >= 0,
    ;
    if i < w * h && i / w >= h {
        assert(w * (i / w) >= w * h) by (nonlinear_arith)
            requires
                i / w >= h,
                w > 0,
        ;
    }
}

/// The value a pixel has when it exists: inside the bitmap's width and
/// height, and inside its data.
pub open spec fn spec_get_pixel(s: Surface, x: int, y: int) -> Option<usize> {
    if 0 <= x < s.width && 0 <= y < s.height && pixel_index(s.width as int, x, y) < s.data@.len() {
        Some(s.data@[pixel_index(s.width as int, x, y)])
    } else {
        None
    }
}

/// The entries `values[d]` for the entries `d` of `data`, one after the other.
pub open spec fn flattened<T>(data: Seq<usize>, values: Seq<Vec<T>>) -> Seq<T>
    decreases data.len(),
{
    if data.len() == 0 {
        Seq::empty()
    } else {
        flattened(data.drop_last(), values) + values[data.last() as int]@
    }
}

impl Surface {
    /// A surface with the given dimensions and data.
    pub fn new(width: usize, height: usize, data: &[usize]) -> (r: Self)
        ensures
            r.width == width,
            r.height == height,
            r.data@ == data@,
    {
        Surface { data: slice_to_vec(data), width, height }
    }

    /// A surface with the given dimensions whose every pixel is 0.
    pub fn blank(width: usize, height: usize) -> (r: Self)
        requires
            width * height <= usize::MAX,
        ensures
            r.width == width,
            r.height == height,
            r.data@ == Seq::new((width * height) as nat, |i: int| 0usize),
    {
        let n = width * height;
        let mut data: Vec<usize> = Vec::new();
        let mut i: usize = 0;
        while i < n
            invariant
                i <= n,
                data@ == Seq::new(i as nat, |k: int| 0usize),
            decreases n - i,
        {
            data.push(0);
            i = i + 1;
            assert(data@ =~= Seq::new(i as nat, |k: int| 0usize));
        }
        Surface { width, height, data }
    }

    /// The value of pixel (`x`, `y`), or `None` when the surface has no such
    /// pixel.
    pub fn get_pixel(&self, x: usize, y: usize) -> (r: Option<usize>)
        ensures
            r == spec_get_pixel(*self, x as int, y as int),
    {
        let len = self.data.len();
        if x < self.width && y < self.height {
            match y.checked_mul(self.width) {
                Some(row_start) => match row_start.checked_add(x) {
                    Some(index) => {
                        if index < len {
                            return Some(self.data[index]);
                        }
                    },
                    None => {},
                },
                None => {
                    assert(pixel_index(self.width as int, x as int, y as int) >= y * self.width);
                },
            }
        }
        None
    }

    /// The entries `values[d]` for the entries `d` of the data.
    pub fn replace<T: Copy>(&self, values: &[T]) -> (r: Vec<T>)
        requires
            forall|i: int| 0 <= i < self.data@.len() ==> self.data@[i] < values@.len(),
        ensures
            r@ == self.data@.map_values(|d: usize| values@[d as int]),
    {
        let mut r: Vec<T> = Vec::new();
        let mut i: usize = 0;
        while i < self.data.len()
            invariant
                forall|k: int| 0 <= k < self.data@.len() ==> self.data@[k] < values@.len(),
                i <= self.data@.len(),
                r@ == self.data@.take(i as int).map_values(|d: usize| values@[d as int]),
            decreases self.data@.len() - i,
        {
            r.push(values[self.data[i]]);
            assert(self.data@.take(i as int + 1) =~= self.data@.take(i as int).push(self.data@[i as int]));
            i = i + 1;
            assert(r@ =~= self.data@.take(i as int).map_values(|d: usize| values@[d as int]));
        }
        assert(self.data@.take(self.data@.len() as int) =~= self.data@);
        r
    }

    /// The entries of `values[d]`, for the entries `d` of the data, one
    /// after the other.
    pub fn flatten_replace<T: Copy>(&self, values: &[Vec<T>]) -> (r: Vec<T>)
        requires
            forall|i: int| 0 <= i < self.data@.len() ==> self.data@[i] < values@.len(),
        ensures
            r@ == flattened(self.data@, values@),
    {
        let mut r: Vec<T> = Vec::new();
        let mut i: usize = 0;
        assert(self.data@.take(0) =~= Seq::<usize>::empty());
        while i < self.data.len()
            invariant
                forall|k: int| 0 <= k < self.data@.len() ==> self.data@[k] < values@.len(),
                i <= self.data@.len(),
                r@ == flattened(self.data@.take(i as int), values@),
            decreases self.data@.len() - i,
        {
            let part = &values[self.data[i]];
            let ghost before = r@;
            let mut j: usize = 0;
            while j < part.len()
                invariant
                    j <= part@.len(),
                    r@ == before + part@.take(j as int),
                decreases part@.len() - j,
            {
                r.push(part[j]);
                assert(part@.take(j as int + 1) =~= part@.take(j as int).push(part@[j as int]));
                j = j + 1;
                assert(r@ =~= before + part@.take(j as int));
            }
            assert(part@.take(part@.len() as int) =~= part@);
            assert(self.data@.take(i as int + 1).drop_last() =~= self.data@.take(i as int));
            i = i + 1;
        }
        assert(self.data@.take(self.data@.len() as int) =~= self.data@);
        r
    }
}

/// Which pixel of a `sw` by `sh` bitmap lands on entry `i` of a `w` by `h`
/// bitmap when blitted at (`x`, `y`): the one over that point, if the point
/// is a pixel covered by the blitted bitmap.
pub open spec fn blit_source(w: int, h: int, sw: int, sh: int, x: int, y: int, i: int) -> Option<int> {
    if w > 0 && 0 <= i < w * h {
        let col = i % w;
        let row = i / w;
        if x <= col < x + sw && y <= row < y + sh {
            Some(pixel_index(sw, col - x, row - y))
        } else {
            None
        }
    } else {
        None
    }
}

/// The data `data` of a `w` by `h` bitmap once the `sw` by `sh` bitmap
/// `sdata` is blitted onto it at (`x`, `y`): each pixel under the blitted
/// bitmap takes the value of the pixel over it.
pub open spec fn blitted(
    w: int,
    h: int,
    data: Seq<usize>,
    sw: int,
    sh: int,
    sdata: Seq<usize>,
    x: int,
    y: int,
) -> Seq<usize> {
    Seq::new(
        data.len(),
        |i: int|
            match blit_source(w, h, sw, sh, x, y, i) {
                Some(k) => sdata[k],
                None => data[i],
            },
    )
}

/// Whether blitting `s` onto `d` at (`x`, `y`) reads only entries that `s`
/// has: every pixel of `s` that lands on a pixel of `d` is in its data.
pub open spec fn blit_reads_in_bounds(d: Surface, s: Surface, x: int, y: int) -> bool {
    forall|ox: int, oy: int|
        #![trigger pixel_index(s.width as int, ox, oy)]
        0 <= ox < s.width && 0 <= oy < s.height && spec_get_pixel(d, x + ox, y + oy) is Some
            ==> pixel_index(s.width as int, ox, oy) < s.data@.len()
}

/// Pixel (`ox`, `oy`) of `s` lands on entry `i` of `d` only where it lands
/// on a pixel of `d`.
proof fn lemma_blit_source_unique(d: Surface, s: Surface, x: int, y: int, i: int, ox: int, oy: int)
    requires
        blit_source(d.width as int, d.height as int, s.width as int, s.height as int, x, y, i)
            == Some(pixel_index(s.width as int, ox, oy)),
        0 <= ox < s.width,
        0 <= oy < s.height,
        0 <= i < d.data@.len(),
    ensures
        x + ox < d.width,
        y + oy < d.height,
        i == pixel_index(d.width as int, x + ox, y + oy),
        spec_get_pixel(d, x + ox, y + oy) is Some,
{
    let w = d.width as int;
    let col = i % w;
    let row = i / w;
    lemma_index_pixel(w, d.height as int, i);
    lemma_pixel_index(s.width as int, col - x, row - y);
    lemma_pixel_index(s.width as int, ox, oy);
}

/// The pixel of a `w` by `h` bitmap at (`col`, `row`) lies below `w * h`.
proof fn lemma_pixel_in_bitmap(w: int, h: int, col: int, row: int)
    requires
        0 <= col < w,
        0 <= row < h,
    ensures
        pixel_index(w, col, row) < w * h,
{
    assert(row * w + col < w * h) by (nonlinear_arith)
        requires
            0 <= col < w,
            0 <= row < h,
    ;
}

/// A copy of `s`.
fn copy_surface(s: &Surface) -> (r: Surface)
    ensures
        r.width == s.width,
        r.height == s.height,
        r.data@ == s.data@,
{
    Surface { width: s.width, height: s.height, data: slice_to_vec(s.data.as_slice()) }
}

/// The data of `s` with its rows in reverse order.
pub open spec fn flipped_vertical(s: Surface) -> Seq<usize> {
    Seq::new(
        s.data@.len(),
        |i: int|
            {
                let w = s.width as int;
                if w > 0 && i < w * s.height {
                    s.data@[pixel_index(w, i % w, s.height - 1 - i / w)]
                } else {
                    s.data@[i]
                }
            },
    )
}

/// The data of `s` with each row in reverse order.
pub open spec fn flipped_horizontal(s: Surface) -> Seq<usize> {
    Seq::new(
        s.data@.len(),
        |i: int|
            {
                let w = s.width as int;
                if w > 0 && i < w * s.height {
                    s.data@[pixel_index(w, w - 1 - i % w, i / w)]
                } else {
                    s.data@[i]
                }
            },
    )
}

/// Flipping a surface whose data covers its width times its height upside
/// down twice gives back its pixels.
pub proof fn lemma_flip_vertical_twice(s: Surface, flipped: Surface)
    requires
        flipped.width == s.width,
        flipped.height == s.height,
        flipped.data@ == flipped_vertical(s),
        s.width * s.height <= s.data@.len(),
    ensures
        flipped_vertical(flipped) == s.data@,
{
    let w = s.width as int;
    let h = s.height as int;
    assert forall|i: int| 0 <= i < s.data@.len() implies #[trigger] flipped_vertical(flipped)[i]
        == s.data@[i] by {
        if w > 0 && i < w * h {
            lemma_index_pixel(w, h, i);
            let j = pixel_index(w, i % w, h - 1 - i / w);
            lemma_pixel_index(w, i % w, h - 1 - i / w);
            assert(j < w * h) by (nonlinear_arith)
                requires
                    j == (h - 1 - i / w) * w + i % w,
                    0 <= i % w < w,
                    0 <= i / w < h,
            ;
            assert(pixel_index(w, j % w, h - 1 - j / w) == i);
            assert(flipped.data@[j] == s.data@[pixel_index(w, j % w, h - 1 - j / w)]);
        }
    }
    assert(flipped_vertical(flipped) =~= s.data@);
}

/// Mirroring a surface whose data covers its width times its height left to
/// right twice gives back its pixels.
pub proof fn lemma_flip_horizontal_twice(s: Surface, flipped: Surface)
    requires
        flipped.width == s.width,
        flipped.height == s.height,
        flipped.data@ == flipped_horizontal(s),
        s.width * s.height <= s.data@.len(),
    ensures
        flipped_horizontal(flipped) == s.data@,
{
    let w = s.width as int;
    let h = s.height as int;
    assert forall|i: int| 0 <= i < s.data@.len() implies #[trigger] flipped_horizontal(flipped)[i]
        == s.data@[i] by {
        if w > 0 && i < w * h {
            lemma_index_pixel(w, h, i);
            let j = pixel_index(w, w - 1 - i % w, i / w);
            lemma_pixel_index(w, w - 1 - i % w, i / w);
            assert(j < w * h) by (nonlinear_arith)
                requires
                    j == (i / w) * w + (w - 1 - i % w),
                    0 <= i % w < w,
                    0 <= i / w < h,
            ;
            assert(pixel_index(w, w - 1 - j % w, j / w) == i);
            assert(flipped.data@[j] == s.data@[pixel_index(w, w - 1 - j % w, j / w)]);
        }
    }
    assert(flipped_horizontal(flipped) =~= s.data@);
}

impl Surface {
    /// Copies the pixels of `surface` onto this surface at (`x`, `y`); the
    /// pixels that fall outside this surface are ignored.
    pub fn blit(&mut self, surface: &Surface, x: usize, y: usize)
        requires
            surface.width * surface.height <= usize::MAX,
            blit_reads_in_bounds(*old(self), *surface, x as int, y as int),
        ensures
            final(self).width == old(self).width,
            final(self).height == old(self).height,
            final(self).data@ == blitted(
                old(self).width as int,
                old(self).height as int,
                old(self).data@,
                surface.width as int,
                surface.height as int,
                surface.data@,
                x as int,
                y as int,
            ),
    {
        let ghost d = *self;
        let total = surface.width * surface.height;
        let mut offset_x: usize = 0;
        let mut offset_y: usize = 0;
        let mut iter: usize = 0;
        while iter < total
            invariant
                d == *old(self),
                total == surface.width * surface.height,
                iter <= total,
                total > 0 ==> (iter == pixel_index(surface.width as int, offset_x as int, offset_y as int)
                    && offset_x < surface.width),
                blit_reads_in_bounds(d, *surface, x as int, y as int),
                self.width == d.width,
                self.height == d.height,
                self.data@.len() == d.data@.len(),
                forall|i: int|
                    0 <= i < d.data@.len() ==> self.data@[i] == (match blit_source(
                        d.width as int,
                        d.height as int,
                        surface.width as int,
                        surface.height as int,
                        x as int,
                        y as int,
                        i,
                    ) {
                        Some(k) => if k < iter {
                            surface.data@[k]
                        } else {
                            d.data@[i]
                        },
                        None => d.data@[i],
                    }),
            decreases total - iter,
        {
            let ghost before = self.data@;
            let ghost k = iter as int;
            if offset_y >= surface.height {
                proof {
                    assert(iter >= total) by (nonlinear_arith)
                        requires
                            iter == offset_y * surface.width + offset_x,
                            offset_y >= surface.height,
                            total == surface.width * surface.height,
                            offset_x >= 0,
                    ;
                }
            }
            let mut target: Option<usize> = None;
            match (x.checked_add(offset_x), y.checked_add(offset_y)) {
                (Some(tx), Some(ty)) => {
                    let len = self.data.len();
                    if self.get_pixel(tx, ty).is_some() {
                        proof {
                            assert(pixel_index(self.width as int, tx as int, ty as int) < len);
                        }
                        target = Some(ty * self.width + tx);
                    }
                },
                _ => {},
            }
            match target {
                Some(t) => {
                    proof {
                        assert(pixel_index(surface.width as int, offset_x as int, offset_y as int) < surface.data@.len());
                    }
                    self.data.set(t, surface.data[iter]);
                    proof {
                        let tx = x + offset_x;
                        let ty = y + offset_y;
                        lemma_pixel_index(d.width as int, tx, ty);
                        lemma_pixel_in_bitmap(d.width as int, d.height as int, tx, ty);
                        assert(blit_source(d.width as int, d.height as int, surface.width as int, surface.height as int, x as int, y as int, t as int) == Some(k));
                        assert forall|i: int| 0 <= i < d.data@.len() && i != t implies !(blit_source(
                            d.width as int,
                            d.height as int,
                            surface.width as int,
                            surface.height as int,
                            x as int,
                            y as int,
                            i,
                        ) == Some(k)) by {
                            if blit_source(d.width as int, d.height as int, surface.width as int, surface.height as int, x as int, y as int, i) == Some(k) {
                                lemma_blit_source_unique(d, *surface, x as int, y as int, i, offset_x as int, offset_y as int);
                            }
                        }
                    }
                },
                None => {
                    proof {
                        assert forall|i: int| 0 <= i < d.data@.len() implies !(blit_source(
                            d.width as int,
                            d.height as int,
                            surface.width as int,
                            surface.height as int,
                            x as int,
                            y as int,
                            i,
                        ) == Some(k)) by {
                            if blit_source(d.width as int, d.height as int, surface.width as int, surface.height as int, x as int, y as int, i) == Some(k) {
                                lemma_blit_source_unique(d, *surface, x as int, y as int, i, offset_x as int, offset_y as int);
                            }
                        }
                    }
                },
            }
            iter = iter + 1;
            offset_x = offset_x + 1;
            if offset_x >= surface.width {
                proof {
                    assert((offset_y + 1) * surface.width == offset_y * surface.width + surface.width)
                        by (nonlinear_arith);
                }
                offset_x = 0;
                offset_y = offset_y + 1;
            }
        }
        proof {
            assert forall|i: int| 0 <= i < d.data@.len() implies #[trigger] blit_source(d.width as int, d.height as int, surface.width as int, surface.height as int, x as int, y as int, i)
                matches Some(k) ==> k < total by {
                if let Some(k) = blit_source(d.width as int, d.height as int, surface.width as int, surface.height as int, x as int, y as int, i) {
                    let w = d.width as int;
                    lemma_index_pixel(w, d.height as int, i);
                    lemma_pixel_in_bitmap(surface.width as int, surface.height as int, i % w - x, i / w - y);
                }
            }
        }
        assert(self.data@ =~= blitted(
            d.width as int,
            d.height as int,
            d.data@,
            surface.width as int,
            surface.height as int,
            surface.data@,
            x as int,
            y as int,
        ));
    }
}

/// Whether entry `i` of a `w` by `h` bitmap has been swapped once the rows
/// before `cy`, and the first `cx` pixels of row `cy`, have been swapped with
/// their mirror rows.
pub open spec fn vertical_done(w: int, h: int, cy: int, cx: int, i: int) -> bool {
    let row = i / w;
    let col = i % w;
    ||| row < cy
    ||| h - 1 - row < cy
    ||| row == cy && col < cx
    ||| h - 1 - row == cy && col < cx
}

/// Whether entry `i` of a `w`-wide bitmap has been swapped once the rows
/// before `cy`, and the first `cx` pixels of row `cy` with their mirror
/// pixels, have been.
pub open spec fn horizontal_done(w: int, cy: int, cx: int, i: int) -> bool {
    let row = i / w;
    let col = i % w;
    ||| row < cy
    ||| row == cy && (col < cx || w - 1 - col < cx)
}

impl Surface {
    /// The surface with its rows in reverse order.
    pub fn flip_vertical(&self) -> (r: Self)
        requires
            self.height >= 2 ==> self.data@.len() >= self.width * self.height,
            self.height >= 2 && self.width == 0 ==> self.data@.len() >= 1,
        ensures
            r.width == self.width,
            r.height == self.height,
            r.data@ == flipped_vertical(*self),
    {
        let mut returner = copy_surface(self);
        if self.width == 0 || self.height < 2 {
            proof {
                assert forall|i: int| 0 <= i < self.data@.len() && self.width > 0 && i < self.width * self.height
                    implies self.data@[pixel_index(self.width as int, i % (self.width as int), self.height - 1 - i / (self.width as int))]
                    == #[trigger] self.data@[i] by {
                    lemma_index_pixel(self.width as int, self.height as int, i);
                }
            }
            assert(returner.data@ =~= flipped_vertical(*self));
            return returner;
        }
        let w = self.width;
        let h = self.height;
        let len = self.data.len();
        let ghost old_data = self.data@;
        proof {
            assert forall|i: int| 0 <= i < old_data.len() && i < w * h implies !#[trigger] vertical_done(
                w as int,
                h as int,
                0,
                0,
                i,
            ) by {
                lemma_index_pixel(w as int, h as int, i);
            }
        }
        let mut current_x: usize = 0;
        let mut current_y: usize = 0;
        while current_y < h / 2
            invariant
                len == old_data.len(),
                w == self.width,
                h == self.height,
                w > 0,
                h >= 2,
                old_data == self.data@,
                old_data.len() >= w * h,
                returner.width == w,
                returner.height == h,
                returner.data@.len() == old_data.len(),
                current_y <= h / 2,
                current_x < w,
                current_y == h / 2 ==> current_x == 0,
                forall|i: int|
                    0 <= i < old_data.len() ==> returner.data@[i] == (if i < w * h
                        && vertical_done(w as int, h as int, current_y as int, current_x as int, i) {
                        old_data[pixel_index(w as int, i % (w as int), h - 1 - i / (w as int))]
                    } else {
                        old_data[i]
                    }),
            decreases h / 2 - current_y, w - current_x,
        {
            let ghost cy = current_y as int;
            let ghost cx = current_x as int;
            proof {
                lemma_pixel_index(w as int, cx, cy);
                lemma_pixel_index(w as int, cx, h - 1 - cy);
                lemma_pixel_in_bitmap(w as int, h as int, cx, cy);
                lemma_pixel_in_bitmap(w as int, h as int, cx, h - 1 - cy);
            }
            let first_index = current_y * w + current_x;
            let second_index = (h - 1 - current_y) * w + current_x;
            let ghost before = returner.data@;
            returner.data.set(first_index, self.data[second_index]);
            returner.data.set(second_index, self.data[first_index]);
            proof {
                assert forall|i: int| 0 <= i < old_data.len() implies returner.data@[i] == (if i < w * h
                    && vertical_done(w as int, h as int, cy, cx + 1, i) {
                    old_data[pixel_index(w as int, i % (w as int), h - 1 - i / (w as int))]
                } else {
                    old_data[i]
                }) by {
                    if i < w * h {
                        lemma_index_pixel(w as int, h as int, i);
                    }
                }
            }
            current_x = current_x + 1;
            if current_x >= w {
                current_x = 0;
                current_y = current_y + 1;
                proof {
                    assert forall|i: int| 0 <= i < old_data.len() && i < w * h implies #[trigger] vertical_done(
                        w as int,
                        h as int,
                        cy,
                        cx + 1,
                        i,
                    ) == vertical_done(w as int, h as int, cy + 1, 0, i) by {
                        lemma_index_pixel(w as int, h as int, i);
                    }
                }
            }
        }
        proof {
            assert forall|i: int| 0 <= i < old_data.len() && i < w * h && !vertical_done(
                w as int,
                h as int,
                current_y as int,
                current_x as int,
                i,
            ) implies old_data[pixel_index(w as int, i % (w as int), h - 1 - i / (w as int))] == #[trigger] old_data[i] by {
                lemma_index_pixel(w as int, h as int, i);
            }
        }
        assert(returner.data@ =~= flipped_vertical(*self));
        returner
    }

    /// The surface with each row in reverse order.
    pub fn flip_horizontal(&self) -> (r: Self)
        requires
            self.height > 0 ==> self.width > 0 && self.data@.len() >= self.width * self.height,
        ensures
            r.width == self.width,
            r.height == self.height,
            r.data@ == flipped_horizontal(*self),
    {
        let mut returner = copy_surface(self);
        if self.width < 2 || self.height == 0 {
            proof {
                assert forall|i: int| 0 <= i < self.data@.len() && self.width > 0 && i < self.width * self.height
                    implies self.data@[pixel_index(self.width as int, self.width - 1 - i % (self.width as int), i / (self.width as int))]
                    == #[trigger] self.data@[i] by {
                    lemma_index_pixel(self.width as int, self.height as int, i);
                }
            }
            assert(returner.data@ =~= flipped_horizontal(*self));
            return returner;
        }
        let w = self.width;
        let h = self.height;
        let len = self.data.len();
        let ghost old_data = self.data@;
        proof {
            assert forall|i: int| 0 <= i < old_data.len() && i < w * h implies !#[trigger] horizontal_done(
                w as int,
                0,
                0,
                i,
            ) by {
                lemma_index_pixel(w as int, h as int, i);
            }
        }
        let mut current_x: usize = 0;
        let mut current_y: usize = 0;
        while current_y < h
            invariant
                len == old_data.len(),
                w == self.width,
                h == self.height,
                w >= 2,
                h > 0,
                old_data == self.data@,
                old_data.len() >= w * h,
                returner.width == w,
                returner.height == h,
                returner.data@.len() == old_data.len(),
                current_y <= h,
                current_x < w / 2,
                current_y == h ==> current_x == 0,
                forall|i: int|
                    0 <= i < old_data.len() ==> returner.data@[i] == (if i < w * h && horizontal_done(
                        w as int,
                        current_y as int,
                        current_x as int,
                        i,
                    ) {
                        old_data[pixel_index(w as int, w - 1 - i % (w as int), i / (w as int))]
                    } else {
                        old_data[i]
                    }),
            decreases h - current_y, w / 2 - current_x,
        {
            let ghost cy = current_y as int;
            let ghost cx = current_x as int;
            proof {
                lemma_pixel_index(w as int, cx, cy);
                lemma_pixel_index(w as int, w - 1 - cx, cy);
                lemma_pixel_in_bitmap(w as int, h as int, cx, cy);
                lemma_pixel_in_bitmap(w as int, h as int, w - 1 - cx, cy);
            }
            let first_index = current_y * w + current_x;
            let second_index = (current_y * w) + ((w - 1) - current_x);
            returner.data.set(first_index, self.data[second_index]);
            returner.data.set(second_index, self.data[first_index]);
            proof {
                assert forall|i: int| 0 <= i < old_data.len() implies returner.data@[i] == (if i < w * h
                    && horizontal_done(w as int, cy, cx + 1, i) {
                    old_data[pixel_index(w as int, w - 1 - i % (w as int), i / (w as int))]
                } else {
                    old_data[i]
                }) by {
                    if i < w * h {
                        lemma_index_pixel(w as int, h as int, i);
                    }
                }
            }
            current_x = current_x + 1;
            if current_x >= w / 2 {
                current_x = 0;
                current_y = current_y + 1;
                proof {
                    assert forall|i: int| 0 <= i < old_data.len() implies #[trigger] returner.data@[i] == (if i < w * h
                        && horizontal_done(w as int, cy + 1, 0, i) {
                        old_data[pixel_index(w as int, w - 1 - i % (w as int), i / (w as int))]
                    } else {
                        old_data[i]
                    }) by {
                        if i < w * h {
                            lemma_index_pixel(w as int, h as int, i);
                        }
                    }
                }
            }
        }
        proof {
            assert forall|i: int| 0 <= i < old_data.len() && i < w * h && !horizontal_done(
                w as int,
                current_y as int,
                current_x as int,
                i,
            ) implies old_data[pixel_index(w as int, w - 1 - i % (w as int), i / (w as int))] == #[trigger] old_data[i] by {
                lemma_index_pixel(w as int, h as int, i);
            }
        }
        assert(returner.data@ =~= flipped_horizontal(*self));
        returner
    }
}

/// Generates [`Surface`]s from text with a glyph font, placing the
/// characters' pixel maps next to each other.
pub struct Printer {
    /// The font whose characters are printed.
    pub font: Layout,
    /// Maps the text of each character of the font to its position.
    pub character_cache: CharacterCache,
    /// The number of blank columns between two characters.
    pub letter_spacing: usize,
}

/// Whether the printer can print every character of `text`: its cache maps
/// the character's text to a position in the font.
pub open spec fn printable(p: Printer, text: Seq<char>) -> bool {
    forall|k: int|
        0 <= k < text.len() ==> {
            let m = mapping_entries(p.character_cache.mappings);
            &&& m.dom().contains(character_key(#[trigger] text[k]))
            &&& m[character_key(text[k])] < p.font.body.characters@.len()
        }
}

/// The character of the font that prints `c`.
pub open spec fn glyph_of(p: Printer, c: char) -> Character {
    p.font.body.characters@[mapping_entries(p.character_cache.mappings)[character_key(c)] as int]
}

/// The total width of the characters that print `text`.
pub open spec fn glyph_widths(p: Printer, text: Seq<char>) -> int
    decreases text.len(),
{
    if text.len() == 0 {
        0
    } else {
        glyph_widths(p, text.drop_last()) + glyph_of(p, text.last()).custom_size
    }
}

/// The width of the surface that prints `text`: the characters' widths and
/// the spacing between them.
pub open spec fn print_width(p: Printer, text: Seq<char>) -> int {
    (text.len() - 1) * p.letter_spacing + glyph_widths(p, text)
}

/// The column where character `k` of `text` is printed.
pub open spec fn glyph_x(p: Printer, text: Seq<char>, k: int) -> int {
    k * p.letter_spacing + glyph_widths(p, text.take(k))
}

/// The pixels of a character's pixel map.
pub open spec fn glyph_pixels(g: Character) -> Seq<usize> {
    g.byte_map@.map_values(|b: u8| b as usize)
}

/// The surface data once the first `k` characters of `text` are printed.
pub open spec fn printed(p: Printer, text: Seq<char>, k: nat) -> Seq<usize>
    decreases k,
{
    let size = p.font.header.required_values.constant_size as int;
    let width = print_width(p, text);
    if k == 0 {
        Seq::new((width * size) as nat, |i: int| 0usize)
    } else {
        let g = glyph_of(p, text[k - 1]);
        blitted(
            width,
            size,
            printed(p, text, (k - 1) as nat),
            g.custom_size as int,
            size,
            glyph_pixels(g),
            glyph_x(p, text, k - 1),
            0,
        )
    }
}

/// The widths of a prefix of `text` add up to no more than those of all of
/// it.
proof fn lemma_glyph_widths_prefix(p: Printer, text: Seq<char>, k: int)
    requires
        0 <= k <= text.len(),
    ensures
        0 <= glyph_widths(p, text.take(k)) <= glyph_widths(p, text),
    decreases text.len(),
{
    if k == text.len() {
        assert(text.take(k) =~= text);
        if text.len() > 0 {
            lemma_glyph_widths_prefix(p, text.drop_last(), text.len() - 1);
            assert(text.drop_last().take(text.len() - 1) =~= text.drop_last());
        }
    } else {
        assert(text.drop_last().take(k) =~= text.take(k));
        lemma_glyph_widths_prefix(p, text.drop_last(), k);
    }
}

/// Blitting copies every pixel of the source that lands on the destination,
/// whatever its value: pixel (`x + ox`, `y + oy`) of the result is pixel
/// (`ox`, `oy`) of the source.
pub proof fn lemma_blit_copies(
    w: int,
    h: int,
    data: Seq<usize>,
    sw: int,
    sh: int,
    sdata: Seq<usize>,
    x: int,
    y: int,
    ox: int,
    oy: int,
)
    requires
        w * h <= data.len(),
        0 <= ox < sw,
        0 <= oy < sh,
        0 <= x + ox < w,
        0 <= y + oy < h,
    ensures
        blitted(w, h, data, sw, sh, sdata, x, y).len() == data.len(),
        blitted(w, h, data, sw, sh, sdata, x, y)[pixel_index(w, x + ox, y + oy)] == sdata[pixel_index(sw, ox, oy)],
{
    let i = pixel_index(w, x + ox, y + oy);
    lemma_pixel_index(w, x + ox, y + oy);
    lemma_pixel_in_bitmap(w, h, x + ox, y + oy);
    assert(i % w - x == ox && i / w - y == oy);
}

/// Blitting leaves every pixel of the destination that the source does not
/// cover as it was.
pub proof fn lemma_blit_keeps(
    w: int,
    h: int,
    data: Seq<usize>,
    sw: int,
    sh: int,
    sdata: Seq<usize>,
    x: int,
    y: int,
    col: int,
    row: int,
)
    requires
        w * h <= data.len(),
        0 <= col < w,
        0 <= row < h,
        !(x <= col < x + sw && y <= row < y + sh),
    ensures
        blitted(w, h, data, sw, sh, sdata, x, y)[pixel_index(w, col, row)] == data[pixel_index(w, col, row)],
{
    lemma_pixel_index(w, col, row);
    lemma_pixel_in_bitmap(w, h, col, row);
}

/// Printing a text keeps the surface `print_width` by the font's size.
proof fn lemma_printed_len(p: Printer, text: Seq<char>, m: nat)
    requires
        print_width(p, text) >= 0,
    ensures
        printed(p, text, m).len() == print_width(p, text) * p.font.header.required_values.constant_size,
    decreases m,
{
    let size = p.font.header.required_values.constant_size as int;
    let width = print_width(p, text);
    assert(width * size >= 0) by (nonlinear_arith)
        requires
            width >= 0,
            size >= 0,
    ;
    if m > 0 {
        lemma_printed_len(p, text, (m - 1) as nat);
    }
}

/// The first character of `text` starts at column 0; character `k + 1`
/// starts right after character `k` and the spacing; every character ends
/// no further right than the surface.
pub proof fn lemma_glyph_span(p: Printer, text: Seq<char>, k: int)
    requires
        0 <= k < text.len(),
    ensures
        glyph_x(p, text, 0) == 0,
        glyph_x(p, text, k + 1) == glyph_x(p, text, k) + glyph_of(p, text[k]).custom_size + p.letter_spacing,
        glyph_x(p, text, k) >= 0,
        glyph_x(p, text, k) + glyph_of(p, text[k]).custom_size <= print_width(p, text),
{
    assert(text.take(k + 1).drop_last() =~= text.take(k));
    assert(text.take(k + 1).last() == text[k]);
    assert(text.take(0).len() == 0);
    lemma_glyph_widths_prefix(p, text, k);
    lemma_glyph_widths_prefix(p, text, k + 1);
    let s = p.letter_spacing as int;
    assert(k * s <= (text.len() - 1) * s && k * s >= 0) by (nonlinear_arith)
        requires
            0 <= k <= text.len() - 1,
            s >= 0,
    ;
    assert((k + 1) * s == k * s + s) by (nonlinear_arith);
}

/// Characters further along `text` start further right.
proof fn lemma_glyph_x_grows(p: Printer, text: Seq<char>, k: int, j: int)
    requires
        0 <= k < j <= text.len(),
    ensures
        glyph_x(p, text, j) >= glyph_x(p, text, k) + glyph_of(p, text[k]).custom_size,
    decreases j - k,
{
    lemma_glyph_span(p, text, k);
    if j > k + 1 {
        lemma_glyph_x_grows(p, text, k + 1, j);
        lemma_glyph_span(p, text, k + 1);
    }
}

/// Once character `k` is printed, its pixel at (`x`, `y`) stays.
proof fn lemma_printed_stays(p: Printer, text: Seq<char>, k: int, x: int, y: int, m: nat)
    requires
        0 <= k < m <= text.len(),
        glyph_x(p, text, k) <= x < glyph_x(p, text, k) + glyph_of(p, text[k]).custom_size,
        0 <= y < p.font.header.required_values.constant_size,
    ensures
        printed(p, text, m)[pixel_index(print_width(p, text), x, y)] == printed(p, text, (k + 1) as nat)[pixel_index(
            print_width(p, text),
            x,
            y,
        )],
    decreases m,
{
    if m > k + 1 {
        let size = p.font.header.required_values.constant_size as int;
        let width = print_width(p, text);
        lemma_printed_stays(p, text, k, x, y, (m - 1) as nat);
        lemma_glyph_span(p, text, k);
        lemma_glyph_x_grows(p, text, k, m - 1);
        lemma_printed_len(p, text, (m - 1) as nat);
        let g = glyph_of(p, text[m - 1]);
        lemma_blit_keeps(
            width,
            size,
            printed(p, text, (m - 1) as nat),
            g.custom_size as int,
            size,
            glyph_pixels(g),
            glyph_x(p, text, m - 1),
            0,
            x,
            y,
        );
    }
}

/// Printing places each character's pixel map as it is at the character's
/// column: inside character `k`, pixel (`x`, `y`) of the printed surface is
/// the byte of the character's pixel map at (`x` less the character's
/// column, `y`).
pub proof fn lemma_printed_pixel(p: Printer, text: Seq<char>, k: int, x: int, y: int)
    requires
        0 <= k < text.len(),
        glyph_of(p, text[k]).byte_map@.len() >= glyph_of(p, text[k]).custom_size
            * p.font.header.required_values.constant_size,
        glyph_x(p, text, k) <= x < glyph_x(p, text, k) + glyph_of(p, text[k]).custom_size,
        0 <= y < p.font.header.required_values.constant_size,
    ensures
        printed(p, text, text.len())[pixel_index(print_width(p, text), x, y)] == glyph_of(p, text[k]).byte_map@[
            pixel_index(glyph_of(p, text[k]).custom_size as int, x - glyph_x(p, text, k), y)
        ] as usize,
{
    let size = p.font.header.required_values.constant_size as int;
    let width = print_width(p, text);
    let g = glyph_of(p, text[k]);
    let gx = glyph_x(p, text, k);
    lemma_glyph_span(p, text, k);
    lemma_printed_len(p, text, k as nat);
    lemma_blit_copies(
        width,
        size,
        printed(p, text, k as nat),
        g.custom_size as int,
        size,
        glyph_pixels(g),
        gx,
        0,
        x - gx,
        y,
    );
    lemma_pixel_in_bitmap(g.custom_size as int, size, x - gx, y);
    assert(((k + 1) as nat) - 1 == k);
    if k + 1 < text.len() {
        lemma_printed_stays(p, text, k, x, y, text.len());
    }
}

/// While only characters that do not cover (`x`, `y`) are printed, that
/// pixel stays 0.
proof fn lemma_printed_blank_upto(p: Printer, text: Seq<char>, x: int, y: int, m: nat)
    requires
        m <= text.len(),
        print_width(p, text) >= 0,
        0 <= x < print_width(p, text),
        0 <= y < p.font.header.required_values.constant_size,
        forall|j: int|
            0 <= j < m ==> !(#[trigger] glyph_x(p, text, j) <= x < glyph_x(p, text, j) + glyph_of(
                p,
                text[j],
            ).custom_size),
    ensures
        printed(p, text, m)[pixel_index(print_width(p, text), x, y)] == 0,
    decreases m,
{
    let size = p.font.header.required_values.constant_size as int;
    let width = print_width(p, text);
    lemma_pixel_index(width, x, y);
    lemma_pixel_in_bitmap(width, size, x, y);
    lemma_printed_len(p, text, m);
    if m > 0 {
        lemma_printed_blank_upto(p, text, x, y, (m - 1) as nat);
        lemma_printed_len(p, text, (m - 1) as nat);
        let g = glyph_of(p, text[m - 1]);
        assert(!(glyph_x(p, text, m - 1) <= x < glyph_x(p, text, m - 1) + g.custom_size));
        lemma_blit_keeps(
            width,
            size,
            printed(p, text, (m - 1) as nat),
            g.custom_size as int,
            size,
            glyph_pixels(g),
            glyph_x(p, text, m - 1),
            0,
            x,
            y,
        );
    }
}

/// Printing leaves blank every pixel that no character covers, such as the
/// spacing columns between characters: it is 0.
pub proof fn lemma_printed_blank(p: Printer, text: Seq<char>, x: int, y: int)
    requires
        text.len() >= 1,
        0 <= x < print_width(p, text),
        0 <= y < p.font.header.required_values.constant_size,
        forall|j: int|
            0 <= j < text.len() ==> !(#[trigger] glyph_x(p, text, j) <= x < glyph_x(p, text, j) + glyph_of(
                p,
                text[j],
            ).custom_size),
    ensures
        printed(p, text, text.len())[pixel_index(print_width(p, text), x, y)] == 0,
{
    lemma_printed_blank_upto(p, text, x, y, text.len());
}

/// The pixels of `bytes`, one per byte.
fn bytes_as_pixels(bytes: &Vec<u8>) -> (r: Vec<usize>)
    ensures
        r@ == bytes@.map_values(|b: u8| b as usize),
{
    let mut r: Vec<usize> = Vec::new();
    let mut i: usize = 0;
    while i < bytes.len()
        invariant
            i <= bytes@.len(),
            r@ == bytes@.take(i as int).map_values(|b: u8| b as usize),
        decreases bytes@.len() - i,
    {
        r.push(bytes[i] as usize);
        assert(bytes@.take(i as int + 1) =~= bytes@.take(i as int).push(bytes@[i as int]));
        i = i + 1;
        assert(r@ =~= bytes@.take(i as int).map_values(|b: u8| b as usize));
    }
    assert(bytes@.take(bytes@.len() as int) =~= bytes@);
    r
}

impl Printer {
    /// A printer for `font`, with one blank column between characters.
    pub fn from_font(font: Layout) -> (r: Self)
        ensures
            r.font == font,
            mapping_entries(r.character_cache.mappings) == character_positions(font.body.characters@),
            r.letter_spacing == 1,
    {
        let character_cache = CharacterCache::from_characters(font.body.characters.as_slice());
        Printer { font, character_cache, letter_spacing: 1 }
    }

    /// The surface that prints `text`: as tall as the font's size, with the
    /// pixel maps of its characters placed left to right, `letter_spacing`
    /// columns apart.
    pub fn print(&self, text: String) -> (r: Surface)
        requires
            text@.len() >= 1,
            printable(*self, text@),
            print_width(*self, text@) + self.letter_spacing <= usize::MAX,
            print_width(*self, text@) * self.font.header.required_values.constant_size <= usize::MAX,
            forall|k: int|
                0 <= k < text@.len() ==> glyph_of(*self, #[trigger] text@[k]).byte_map@.len()
                    >= glyph_of(*self, text@[k]).custom_size * self.font.header.required_values.constant_size,
        ensures
            r.width == print_width(*self, text@),
            r.height == self.font.header.required_values.constant_size,
            r.data@ == printed(*self, text@, text@.len()),
    {
        let ghost t = text@;
        let n = text.as_str().unicode_len();
        let spacing = self.letter_spacing;
        proof {
            lemma_glyph_widths_prefix(*self, t, 0);
            assert(t.take(0) =~= Seq::<char>::empty());
            assert((n - 1) * spacing <= print_width(*self, t));
        }
        let mut width: usize = (n - 1) * spacing;
        let mut indexes: Vec<usize> = Vec::new();
        let mut k: usize = 0;
        while k < n
            invariant
                t == text@,
                n == t.len(),
                n >= 1,
                spacing == self.letter_spacing,
                printable(*self, t),
                print_width(*self, t) + spacing <= usize::MAX,
                k <= n,
                width == (n - 1) * spacing + glyph_widths(*self, t.take(k as int)),
                indexes@.len() == k,
                forall|j: int|
                    0 <= j < k ==> indexes@[j] == mapping_entries(self.character_cache.mappings)[character_key(
                        #[trigger] t[j],
                    )],
            decreases n - k,
        {
            let c = text.as_str().get_char(k);
            let mut key = String::new();
            string_push(&mut key, c);
            assert(key@ == character_key(t[k as int]));
            let index = match self.character_cache.get(&key) {
                Some(index) => index,
                None => {
                    assert(false);
                    0
                },
            };
            proof {
                assert(t.take(k as int + 1).drop_last() =~= t.take(k as int));
                lemma_glyph_widths_prefix(*self, t, k as int + 1);
            }
            width = width + self.font.body.characters[index].custom_size as usize;
            indexes.push(index);
            k = k + 1;
        }
        proof {
            assert(t.take(n as int) =~= t);
        }
        let size = self.font.header.required_values.constant_size as usize;
        let mut surface = Surface::blank(width, size);
        proof {
            assert(surface.data@ =~= printed(*self, t, 0));
        }
        let mut current_x: usize = 0;
        let mut k: usize = 0;
        while k < n
            invariant
                t == text@,
                n == t.len(),
                spacing == self.letter_spacing,
                printable(*self, t),
                print_width(*self, t) + spacing <= usize::MAX,
                width == print_width(*self, t),
                size == self.font.header.required_values.constant_size,
                forall|j: int|
                    0 <= j < n ==> indexes@[j] == mapping_entries(self.character_cache.mappings)[character_key(
                        #[trigger] t[j],
                    )],
                indexes@.len() == n,
                forall|j: int|
                    0 <= j < t.len() ==> glyph_of(*self, #[trigger] t[j]).byte_map@.len()
                        >= glyph_of(*self, t[j]).custom_size * size,
                k <= n,
                current_x == glyph_x(*self, t, k as int),
                surface.width == width,
                surface.height == size,
                surface.data@ == printed(*self, t, k as nat),
            decreases n - k,
        {
            assert(mapping_entries(self.character_cache.mappings)[character_key(t[k as int])]
                < self.font.body.characters@.len());
            let g = &self.font.body.characters[indexes[k]];
            assert(*g == glyph_of(*self, t[k as int]));
            let glyph = Surface {
                data: bytes_as_pixels(&g.byte_map),
                height: size,
                width: g.custom_size as usize,
            };
            proof {
                assert(glyph.width * glyph.height <= 65025) by (nonlinear_arith)
                    requires
                        glyph.width <= 255,
                        glyph.height <= 255,
                ;
                assert forall|ox: int, oy: int|
                    0 <= ox < glyph.width && 0 <= oy < glyph.height implies #[trigger] pixel_index(
                        glyph.width as int,
                        ox,
                        oy,
                    ) < glyph.data@.len() by {
                    lemma_pixel_in_bitmap(glyph.width as int, glyph.height as int, ox, oy);
                }
                assert(t.take(k as int + 1).drop_last() =~= t.take(k as int));
                lemma_glyph_widths_prefix(*self, t, k as int + 1);
                assert((k + 1) * spacing == k * spacing + spacing) by (nonlinear_arith);
                assert(k * spacing <= (n - 1) * spacing) by (nonlinear_arith)
                    requires
                        k <= n - 1,
                ;
            }
            surface.blit(&glyph, current_x, 0);
            current_x = current_x + spacing + g.custom_size as usize;
            k = k + 1;
        }
        surface
    }
}

} // verus!
