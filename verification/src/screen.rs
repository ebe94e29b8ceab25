use vstd::prelude::*;
use crate::pixel::Pixel;

verus! {

/// A rectangle of pixels, row by row from the top left, with a depth value
/// of type `D` for each pixel.
pub struct Screen<D> {
    pub pixel_width: u32,
    pub pixel_height: u32,
    pub pixels: Vec<Pixel>,
    pub depth: Vec<D>,
}

/// The position in a row-major buffer of the pixel at column `x` and row `y`.
pub open spec fn cell_index(width: int, x: int, y: int) -> int {
    y * width + x
}

proof fn lemma_cell_in_range(width: int, height: int, x: int, y: int)
    requires
        0 <= x < width,
        0 <= y < height,
    ensures
        0 <= cell_index(width, x, y) < width * height,
        width * height <= u32::MAX ==> cell_index(width, x, y) <= u32::MAX,
{
    assert(y * width + x < width * height) by (nonlinear_arith)
        requires
            0 <= x < width,
            0 <= y < height,
    ;
    assert(0 <= y * width) by (nonlinear_arith)
        requires
            0 <= y,
            0 <= width,
    ;
}

impl<D: Copy> Screen<D> {
    /// The pixel and depth buffers hold one entry per pixel, and that count
    /// fits in a `u32`.
    pub open spec fn wf(&self) -> bool {
        &&& self.pixel_width * self.pixel_height <= u32::MAX
        &&& self.pixels@.len() == self.pixel_width * self.pixel_height
        &&& self.depth@.len() == self.pixel_width * self.pixel_height
    }

    /// A screen of `pixel_width` by `pixel_height` pixels, all black, with
    /// every depth set to `far`.
    pub fn new(pixel_width: u32, pixel_height: u32, far: D) -> (s: Self)
        requires
            pixel_width * pixel_height <= u32::MAX,
        ensures
            s.wf(),
            s.pixel_width == pixel_width,
            s.pixel_height == pixel_height,
            s.pixels@ == Seq::new(s.pixels@.len(), |i: int| Pixel::spec_black()),
            s.depth@ == Seq::new(s.depth@.len(), |i: int| far),
    {
        let n = (pixel_width * pixel_height) as usize;
        let mut pixels: Vec<Pixel> = Vec::new();
        let mut depth: Vec<D> = Vec::new();
        for i in 0..n
            invariant
                pixels@ == Seq::new(i as nat, |k: int| Pixel::spec_black()),
                depth@ == Seq::new(i as nat, |k: int| far),
        {
            pixels.push(Pixel::black());
            depth.push(far);
            assert(pixels@ =~= Seq::new((i + 1) as nat, |k: int| Pixel::spec_black()));
            assert(depth@ =~= Seq::new((i + 1) as nat, |k: int| far));
        }
        Screen { pixel_width, pixel_height, pixels, depth }
    }

    /// Paints every pixel black and sets every depth to `far`; the size does
    /// not change.
    pub fn clear(&mut self, far: D)
        requires
            old(self).wf(),
        ensures
            final(self).wf(),
            final(self).pixel_width == old(self).pixel_width,
            final(self).pixel_height == old(self).pixel_height,
            final(self).pixels@ == Seq::new(old(self).pixels@.len(), |i: int| Pixel::spec_black()),
            final(self).depth@ == Seq::new(old(self).depth@.len(), |i: int| far),
    {
        let n = self.pixels.len();
        for i in 0..n
            invariant
                n == self.pixels@.len(),
                self.pixels@.len() == old(self).pixels@.len(),
                self.depth@ == old(self).depth@,
                self.pixel_width == old(self).pixel_width,
                self.pixel_height == old(self).pixel_height,
                forall|k: int| 0 <= k < i ==> self.pixels@[k] == Pixel::spec_black(),
        {
            self.pixels.set(i, Pixel::black());
        }
        let m = self.depth.len();
        for i in 0..m
            invariant
                m == self.depth@.len(),
                self.depth@.len() == old(self).depth@.len(),
                self.pixels@.len() == old(self).pixels@.len(),
                self.pixel_width == old(self).pixel_width,
                self.pixel_height == old(self).pixel_height,
                forall|k: int| 0 <= k < n ==> self.pixels@[k] == Pixel::spec_black(),
                forall|k: int| 0 <= k < i ==> self.depth@[k] == far,
        {
            self.depth.set(i, far);
        }
        assert(self.pixels@ =~= Seq::new(old(self).pixels@.len(), |i: int| Pixel::spec_black()));
        assert(self.depth@ =~= Seq::new(old(self).depth@.len(), |i: int| far));
    }

    /// Paints the pixel at column `x`, row `y` with `color` when it is on the
    /// screen; otherwise changes nothing.
    pub fn draw_pixel(&mut self, x: u32, y: u32, color: Pixel)
        requires
            old(self).wf(),
        ensures
            final(self).wf(),
            final(self).pixel_width == old(self).pixel_width,
            final(self).pixel_height == old(self).pixel_height,
            final(self).depth@ == old(self).depth@,
            x < old(self).pixel_width && y < old(self).pixel_height ==> final(self).pixels@
                == old(self).pixels@.update(
                cell_index(old(self).pixel_width as int, x as int, y as int),
                color,
            ),
            !(x < old(self).pixel_width && y < old(self).pixel_height) ==> final(self).pixels@
                == old(self).pixels@,
    {
        if x < self.pixel_width && y < self.pixel_height {
            proof {
                lemma_cell_in_range(
                    self.pixel_width as int,
                    self.pixel_height as int,
                    x as int,
                    y as int,
                );
            }
            let index = (y * self.pixel_width + x) as usize;
            self.pixels.set(index, color);
        }
    }

    /// Paints pixel `i` grey at level `l` wherever `levels[i]` is `Some(l)`,
    /// and leaves the other pixels as they are.
    pub fn shade(&mut self, levels: &Vec<Option<u8>>)
        requires
            old(self).wf(),
            levels@.len() == old(self).pixels@.len(),
        ensures
            final(self).wf(),
            final(self).pixel_width == old(self).pixel_width,
            final(self).pixel_height == old(self).pixel_height,
            final(self).depth@ == old(self).depth@,
            final(self).pixels@.len() == old(self).pixels@.len(),
            forall|i: int|
                0 <= i < levels@.len() ==> final(self).pixels@[i] == match levels@[i] {
                    Some(l) => Pixel { r: l, g: l, b: l },
                    None => old(self).pixels@[i],
                },
    {
        let n = levels.len();
        for i in 0..n
            invariant
                n == levels@.len(),
                self.pixels@.len() == n,
                self.wf(),
                self.pixel_width == old(self).pixel_width,
                self.pixel_height == old(self).pixel_height,
                self.depth@ == old(self).depth@,
                forall|k: int|
                    0 <= k < i ==> self.pixels@[k] == match levels@[k] {
                        Some(l) => Pixel { r: l, g: l, b: l },
                        None => old(self).pixels@[k],
                    },
                forall|k: int| i <= k < n ==> self.pixels@[k] == old(self).pixels@[k],
        {
            match levels[i] {
                Some(l) => {
                    self.pixels.set(i, Pixel::new(l, l, l));
                },
                None => {},
            }
        }
    }
}

/// Pixels at different on-screen positions occupy different cells, so
/// painting one never changes another.
pub proof fn law_cells_distinct(width: int, height: int, x1: int, y1: int, x2: int, y2: int)
    requires
        0 <= x1 < width,
        0 <= x2 < width,
        0 <= y1 < height,
        0 <= y2 < height,
        x1 != x2 || y1 != y2,
    ensures
        cell_index(width, x1, y1) != cell_index(width, x2, y2),
        0 <= cell_index(width, x1, y1) < width * height,
{
    lemma_cell_in_range(width, height, x1, y1);
    if y1 < y2 {
        assert(y1 * width + width <= y2 * width) by (nonlinear_arith)
            requires
                y1 < y2,
                0 <= width,
        ;
    } else if y2 < y1 {
        assert(y2 * width + width <= y1 * width) by (nonlinear_arith)
            requires
                y2 < y1,
                0 <= width,
        ;
    }
}

/// Painting the same pixel twice leaves the second colour: the first paint
/// is fully overwritten.
pub proof fn law_last_paint_wins(pixels: Seq<Pixel>, i: int, first: Pixel, second: Pixel)
    requires
        0 <= i < pixels.len(),
    ensures
        pixels.update(i, first).update(i, second) == pixels.update(i, second),
{
    assert(pixels.update(i, first).update(i, second) =~= pixels.update(i, second));
}

/// A cleared screen holds the same pixels and depths as a new screen of the
/// same size: both are the blank pixel and depth buffers of that size.
pub proof fn law_clear_is_new<D>(width: u32, height: u32, far: D, cleared: Seq<Pixel>, fresh: Seq<Pixel>, cleared_depth: Seq<D>, fresh_depth: Seq<D>)
    requires
        cleared.len() == width * height,
        fresh.len() == width * height,
        cleared_depth.len() == width * height,
        fresh_depth.len() == width * height,
        cleared == Seq::new(cleared.len(), |i: int| Pixel::spec_black()),
        fresh == Seq::new(fresh.len(), |i: int| Pixel::spec_black()),
        cleared_depth == Seq::new(cleared_depth.len(), |i: int| far),
        fresh_depth == Seq::new(fresh_depth.len(), |i: int| far),
    ensures
        cleared == fresh,
        cleared_depth == fresh_depth,
{
    assert(cleared =~= fresh);
    assert(cleared_depth =~= fresh_depth);
}

} // verus!
