use vstd::prelude::*;
use crate::pixel::Pixel;
use crate::screen::{cell_index, Screen};

verus! {

/// The decimal digits of `n` in ASCII, most significant first, without
/// leading zeros.
pub open spec fn decimal(n: nat) -> Seq<u8>
    decreases n,
{
    if n < 10 {
        seq![(48 + n) as u8]
    } else {
        decimal(n / 10) + seq![(48 + n % 10) as u8]
    }
}

/// `ESC [ {row} ; 1 H`: moves the cursor to column 1 of terminal row `row`
/// (counting from 1).
pub open spec fn cursor_to(row: nat) -> Seq<u8> {
    seq![27u8, 91u8] + decimal(row) + seq![59u8, 49u8, 72u8]
}

/// `ESC [ {code} ; 2 ; {r} ; {g} ; {b} m`: sets a 24-bit colour; `code` is 48
/// for the background and 38 for the foreground.
pub open spec fn colour(code: nat, p: Pixel) -> Seq<u8> {
    seq![27u8, 91u8] + decimal(code) + seq![59u8, 50u8, 59u8] + decimal(p.r as nat) + seq![59u8]
        + decimal(p.g as nat) + seq![59u8] + decimal(p.b as nat) + seq![109u8]
}

/// The UTF-8 bytes of `▄` (U+2584, lower half block).
pub open spec fn half_block() -> Seq<u8> {
    seq![0xe2u8, 0x96u8, 0x84u8]
}

/// `ESC [ 0 m`: resets all attributes.
pub open spec fn reset() -> Seq<u8> {
    seq![27u8, 91u8, 48u8, 109u8]
}

/// One terminal cell showing `top` in its upper half and `bottom` in its
/// lower half: background `top`, foreground `bottom`, then a lower half block.
pub open spec fn cell(top: Pixel, bottom: Pixel) -> Seq<u8> {
    colour(48, top) + colour(38, bottom) + half_block()
}

/// The pixel at column `x`, row `y` of a `width`-wide row-major buffer.
pub open spec fn pixel_at(pixels: Seq<Pixel>, width: int, x: int, y: int) -> Pixel {
    pixels[cell_index(width, x, y)]
}

/// Terminal row `r` shows pixel rows `2r` (upper halves) and `2r + 1` (lower
/// halves); when the second is past the bottom the first is shown in both.
pub open spec fn cells(pixels: Seq<Pixel>, width: int, height: int, r: int, n: nat) -> Seq<u8>
    decreases n,
{
    if n == 0 {
        Seq::empty()
    } else {
        let x = n - 1;
        let top = pixel_at(pixels, width, x, 2 * r);
        let bottom = if 2 * r + 1 < height {
            pixel_at(pixels, width, x, 2 * r + 1)
        } else {
            top
        };
        cells(pixels, width, height, r, (n - 1) as nat) + cell(top, bottom)
    }
}

/// Terminal row `r`: the cursor moved to its start, its cells, and a reset.
pub open spec fn frame_row(pixels: Seq<Pixel>, width: int, height: int, r: nat) -> Seq<u8> {
    cursor_to(r + 1) + cells(pixels, width, height, r as int, width as nat) + reset()
}

/// The first `k` terminal rows of the frame.
pub open spec fn frame_rows(pixels: Seq<Pixel>, width: int, height: int, k: nat) -> Seq<u8>
    decreases k,
{
    if k == 0 {
        Seq::empty()
    } else {
        frame_rows(pixels, width, height, (k - 1) as nat) + frame_row(
            pixels,
            width,
            height,
            (k - 1) as nat,
        )
    }
}

/// The bytes that draw a `width` by `height` image on a terminal, two pixel
/// rows per terminal row.
pub open spec fn frame(pixels: Seq<Pixel>, width: int, height: int) -> Seq<u8> {
    frame_rows(pixels, width, height, ((height + 1) / 2) as nat)
}

/// Appends the decimal digits of `n` to `buf`.
fn push_decimal(buf: &mut Vec<u8>, n: u32)
    ensures
        final(buf)@ == old(buf)@ + decimal(n as nat),
    decreases n,
{
    if n >= 10 {
        push_decimal(buf, n / 10);
    }
    buf.push((48 + n % 10) as u8);
    assert(final(buf)@ =~= old(buf)@ + decimal(n as nat));
}

/// Appends `bytes` to `buf`.
fn push_bytes(buf: &mut Vec<u8>, bytes: &[u8])
    ensures
        final(buf)@ == old(buf)@ + bytes@,
{
    let n = bytes.len();
    for i in 0..n
        invariant
            n == bytes@.len(),
            buf@ == old(buf)@ + bytes@.take(i as int),
    {
        buf.push(bytes[i]);
        assert(bytes@.take(i + 1) =~= bytes@.take(i as int).push(bytes@[i as int]));
    }
    assert(bytes@.take(n as int) =~= bytes@);
}

/// Appends the escape that sets colour `p` (see [`colour`]).
fn push_colour(buf: &mut Vec<u8>, code: u32, p: Pixel)
    ensures
        final(buf)@ == old(buf)@ + colour(code as nat, p),
{
    push_bytes(buf, &[27u8, 91u8]);
    push_decimal(buf, code);
    push_bytes(buf, &[59u8, 50u8, 59u8]);
    push_decimal(buf, p.r as u32);
    push_bytes(buf, &[59u8]);
    push_decimal(buf, p.g as u32);
    push_bytes(buf, &[59u8]);
    push_decimal(buf, p.b as u32);
    push_bytes(buf, &[109u8]);
    assert(final(buf)@ =~= old(buf)@ + colour(code as nat, p));
}

impl<D: Copy> Screen<D> {
    /// The bytes that draw this screen on a terminal (see [`frame`]).
    pub fn render_frame(&self) -> (r: Vec<u8>)
        requires
            self.wf(),
        ensures
            r@ == frame(self.pixels@, self.pixel_width as int, self.pixel_height as int),
    {
        let w = self.pixel_width;
        let h = self.pixel_height;
        let ghost px = self.pixels@;
        let mut buf: Vec<u8> = Vec::new();
        let rows = h / 2 + h % 2;
        assert(rows == (h + 1) / 2);
        let mut r: u32 = 0;
        while r < rows
            invariant
                self.wf(),
                w == self.pixel_width,
                h == self.pixel_height,
                px == self.pixels@,
                rows == (h + 1) / 2,
                r <= rows,
                buf@ == frame_rows(px, w as int, h as int, r as nat),
            decreases rows - r,
        {
            let y = 2 * r;
            let ghost start = buf@;
            push_bytes(&mut buf, &[27u8, 91u8]);
            push_decimal(&mut buf, r + 1);
            push_bytes(&mut buf, &[59u8, 49u8, 72u8]);
            assert(buf@ =~= start + cursor_to((r + 1) as nat));
            let ghost row_start = buf@;
            let mut x: u32 = 0;
            while x < w
                invariant
                    self.wf(),
                    w == self.pixel_width,
                    h == self.pixel_height,
                    px == self.pixels@,
                    r < rows,
                    rows == (h + 1) / 2,
                    y == 2 * r,
                    y < h,
                    x <= w,
                    buf@ == row_start + cells(px, w as int, h as int, r as int, x as nat),
                decreases w - x,
            {
                proof {
                    lemma_cell_in_range_frame(w as int, h as int, x as int, y as int);
                }
                let top = self.pixels[(y * w + x) as usize];
                let bottom = if y + 1 < h {
                    proof {
                        lemma_cell_in_range_frame(w as int, h as int, x as int, y + 1);
                    }
                    self.pixels[((y + 1) * w + x) as usize]
                } else {
                    top
                };
                let ghost before = buf@;
                push_colour(&mut buf, 48, top);
                push_colour(&mut buf, 38, bottom);
                push_bytes(&mut buf, &[0xe2u8, 0x96u8, 0x84u8]);
                assert(buf@ =~= before + cell(top, bottom));
                x = x + 1;
            }
            let ghost before = buf@;
            push_bytes(&mut buf, &[27u8, 91u8, 48u8, 109u8]);
            assert(buf@ =~= before + reset());
            assert(buf@ =~= start + frame_row(px, w as int, h as int, r as nat));
            r = r + 1;
        }
        buf
    }
}

proof fn lemma_cell_in_range_frame(width: int, height: int, x: int, y: int)
    requires
        0 <= x < width,
        0 <= y < height,
        width * height <= u32::MAX,
    ensures
        0 <= y * width + x < width * height,
        0 <= y * width,
{
    assert(y * width + x < width * height) by (nonlinear_arith)
        requires
            0 <= x < width,
            0 <= y < height,
    ;
    assert(0 <= y * width) by (nonlinear_arith)
        requires
            0 <= y,
            0 <= width,
    ;
}

/// The number that a string of ASCII decimal digits spells.
pub open spec fn digits_value(s: Seq<u8>) -> int
    decreases s.len(),
{
    if s.len() == 0 {
        0
    } else {
        digits_value(s.drop_last()) * 10 + (s.last() - 48)
    }
}

/// The decimal text of `n` is made of ASCII digits, has no leading zero, and
/// spells `n`.
pub proof fn law_decimal_spells(n: nat)
    ensures
        decimal(n).len() >= 1,
        forall|i: int| 0 <= i < decimal(n).len() ==> 48 <= #[trigger] decimal(n)[i] <= 57,
        n > 0 ==> decimal(n)[0] != 48,
        digits_value(decimal(n)) == n,
    decreases n,
{
    if n >= 10 {
        law_decimal_spells(n / 10);
        let d = decimal(n);
        assert(d.drop_last() =~= decimal(n / 10));
        assert(d.last() == 48 + n % 10);
        assert(n == (n / 10) * 10 + n % 10);
        assert(digits_value(d) == digits_value(decimal(n / 10)) * 10 + (d.last() - 48));
        assert forall|i: int| 0 <= i < d.len() implies 48 <= #[trigger] d[i] <= 57 by {
            if i < d.len() - 1 {
                assert(d[i] == decimal(n / 10)[i]);
            }
        }
    } else {
        assert(decimal(n).drop_last() =~= Seq::<u8>::empty());
        assert(digits_value(Seq::<u8>::empty()) == 0);
        assert(decimal(n).last() == 48 + n);
    }
}

/// The first `k` terminal rows are a prefix of the first `n` rows.
proof fn lemma_frame_rows_prefix(pixels: Seq<Pixel>, width: int, height: int, k: nat, n: nat)
    requires
        k <= n,
    ensures
        frame_rows(pixels, width, height, k).len() <= frame_rows(pixels, width, height, n).len(),
        frame_rows(pixels, width, height, n).take(
            frame_rows(pixels, width, height, k).len() as int,
        ) == frame_rows(pixels, width, height, k),
    decreases n,
{
    let fk = frame_rows(pixels, width, height, k);
    if k == n {
        assert(fk.take(fk.len() as int) =~= fk);
    } else {
        lemma_frame_rows_prefix(pixels, width, height, k, (n - 1) as nat);
        let fm = frame_rows(pixels, width, height, (n - 1) as nat);
        let fn_ = frame_rows(pixels, width, height, n);
        assert(fn_ == fm + frame_row(pixels, width, height, (n - 1) as nat));
        assert(fn_.take(fk.len() as int) =~= fm.take(fk.len() as int));
    }
}

/// Every terminal row of a frame begins with a cursor move to that row:
/// `ESC [`, then ASCII digits with no leading zero that spell the row's
/// number counting from 1, then `;1H`. Row `r` starts right after the bytes
/// of the rows before it.
pub proof fn law_row_starts_with_cursor_move(pixels: Seq<Pixel>, width: int, height: int, r: nat)
    requires
        r < (height + 1) / 2,
    ensures
        exists|d: Seq<u8>|
            {
                let o = frame_rows(pixels, width, height, r).len() as int;
                &&& d.len() >= 1
                &&& forall|i: int| 0 <= i < d.len() ==> 48 <= #[trigger] d[i] <= 57
                &&& d[0] != 48
                &&& #[trigger] digits_value(d) == r + 1
                &&& o + d.len() + 5 <= frame(pixels, width, height).len()
                &&& frame(pixels, width, height).subrange(o, o + d.len() + 5) == seq![27u8, 91u8]
                    + d + seq![59u8, 49u8, 72u8]
            },
{
    let d = decimal((r + 1) as nat);
    law_decimal_spells((r + 1) as nat);
    let total = ((height + 1) / 2) as nat;
    lemma_frame_rows_prefix(pixels, width, height, (r + 1) as nat, total);
    let fr = frame_rows(pixels, width, height, r);
    let fr1 = frame_rows(pixels, width, height, (r + 1) as nat);
    let row = frame_row(pixels, width, height, r);
    let o = fr.len() as int;
    let pat = seq![27u8, 91u8] + d + seq![59u8, 49u8, 72u8];
    assert(fr1 == fr + row);
    assert(row =~= pat + (cells(pixels, width, height, r as int, width as nat) + reset()));
    let f = frame(pixels, width, height);
    assert(f.take(fr1.len() as int) == fr1);
    assert(f.subrange(o, o + d.len() + 5) =~= pat) by {
        assert forall|i: int| 0 <= i < d.len() + 5 implies f.subrange(o, o + d.len() + 5)[i]
            == pat[i] by {
            assert(f[o + i] == f.take(fr1.len() as int)[o + i]);
            assert(fr1[o + i] == row[i]);
        }
    }
}

} // verus!
