use vstd::prelude::*;

use vstd::arithmetic::div_mod::{lemma_fundamental_div_mod, lemma_fundamental_div_mod_converse};

use crate::direction::fold_x;
use crate::pixel::{pixels_to_bytes, rgb_bytes, Image32x64, Pixel, CANVAS_CELLS};

verus! {

/// Side of the mirrored full picture.
pub const FULL_SIDE: u64 = 64;

/// Side of one corner stamp: eight rows of eight bits.
pub const STAMP_SIDE: u64 = 8;

/// Row-major index `y * w + x` of a cell of a `w`-wide grid of height `h`, and back.
proof fn lemma_grid_index(x: int, y: int, w: int, h: int)
    requires
        0 <= x < w,
        0 <= y < h,
    ensures
        0 <= y * w + x < w * h,
        (y * w + x) % w == x,
        (y * w + x) / w == y,
{
    lemma_fundamental_div_mod_converse(y * w + x, w, y, x);
    assert(0 <= y * w + x < w * h) by (nonlinear_arith)
        requires
            0 <= x < w,
            0 <= y < h,
    ;
}

/// An index below `w * h` names the cell `(i % w, i / w)` of a `w`×`h` grid.
proof fn lemma_grid_decode(i: int, w: int, h: int)
    requires
        0 <= w,
        0 <= h,
        0 <= i < w * h,
    ensures
        w > 0,
        0 <= i % w < w,
        0 <= i / w < h,
        i == (i / w) * w + i % w,
{
    assert(w > 0) by (nonlinear_arith)
        requires
            0 <= w,
            0 <= h,
            0 <= i < w * h,
    ;
    lemma_fundamental_div_mod(i, w);
    assert((i / w) * w == w * (i / w)) by (nonlinear_arith);
    assert(0 <= i / w < h) by (nonlinear_arith)
        requires
            0 <= i < w * h,
            w > 0,
            i == w * (i / w) + i % w,
            0 <= i % w < w,
    ;
}

/// The colour a missing fill stands for: white.
pub open spec fn fill_colour(rgb: Option<Pixel>) -> Pixel {
    match rgb {
        Some(p) => p,
        None => Pixel { r: 255, g: 255, b: 255 },
    }
}

/// An RGB picture of any size, row-major.
#[derive(Clone, Debug, PartialEq, Eq)]
pub struct PixelImage {
    pub width: u64,
    pub height: u64,
    pub pixels: Vec<Pixel>,
}

impl PixelImage {
    /// The picture holds one pixel per cell.
    pub open spec fn wf(&self) -> bool {
        self.pixels@.len() == self.width * self.height
    }

    /// The pixel of cell `(x, y)`.
    pub open spec fn at(&self, x: int, y: int) -> Pixel {
        self.pixels@[y * self.width + x]
    }

    /// A `width`×`height` picture filled with `rgb`, white when it is `None`.
    pub fn new(width: u64, height: u64, rgb: Option<Pixel>) -> (r: Self)
        requires
            width * height <= usize::MAX,
        ensures
            r.wf(),
            r.width == width,
            r.height == height,
            r.pixels@ == Seq::new((width * height) as nat, |i: int| fill_colour(rgb)),
    {
        let pixel = match rgb {
            Some(p) => p,
            None => Pixel::new(255, 255, 255),
        };
        let count = (width * height) as usize;
        let mut pixels: Vec<Pixel> = Vec::new();
        while pixels.len() < count
            invariant
                pixels@.len() <= count,
                count == width * height,
                pixel == fill_colour(rgb),
                forall|i: int| 0 <= i < pixels@.len() ==> pixels@[i] == pixel,
            decreases count - pixels@.len(),
        {
            pixels.push(pixel);
        }
        assert(pixels@ =~= Seq::new((width * height) as nat, |i: int| fill_colour(rgb)));
        PixelImage { width, height, pixels }
    }

    /// The pixel of cell `(x, y)`, or `None` outside the picture.
    pub fn get_pixel(&self, x: u64, y: u64) -> (r: Option<Pixel>)
        requires
            self.wf(),
        ensures
            r == if x < self.width && y < self.height {
                Some(self.at(x as int, y as int))
            } else {
                None::<Pixel>
            },
    {
        let count = self.pixels.len();
        if x < self.width && y < self.height {
            proof {
                lemma_grid_index(x as int, y as int, self.width as int, self.height as int);
            }
            Some(self.pixels[(y * self.width + x) as usize])
        } else {
            None
        }
    }

    /// Paints cell `(x, y)`; a cell outside the picture is ignored.
    pub fn set_pixel(&mut self, x: u64, y: u64, pixel: Pixel)
        requires
            old(self).wf(),
        ensures
            final(self).width == old(self).width,
            final(self).height == old(self).height,
            final(self).pixels@ == if x < old(self).width && y < old(self).height {
                old(self).pixels@.update(y * old(self).width + x, pixel)
            } else {
                old(self).pixels@
            },
    {
        let count = self.pixels.len();
        if x < self.width && y < self.height {
            proof {
                lemma_grid_index(x as int, y as int, self.width as int, self.height as int);
            }
            let index = (y * self.width + x) as usize;
            self.pixels.set(index, pixel);
        }
    }

    /// The channels of every pixel, row-major, three bytes per pixel.
    pub fn to_bytes(&self) -> (r: Vec<u8>)
        ensures
            r@ == rgb_bytes(self.pixels@),
    {
        pixels_to_bytes(&self.pixels)
    }
}

/// The full picture of a half canvas: each row of the half followed by its mirror image.
pub open spec fn mirrored(half: Seq<Pixel>) -> Seq<Pixel> {
    Seq::new(
        (FULL_SIDE * FULL_SIDE) as nat,
        |i: int| half[(i / FULL_SIDE as int) * 32 + fold_x(i % FULL_SIDE as int)],
    )
}

/// Mirrors a 32×64 half canvas into a 64×64 picture.
pub fn mirror_half_to_full(half: &Image32x64, background: Pixel) -> (r: PixelImage)
    requires
        half.wf(),
    ensures
        r.wf(),
        r.width == FULL_SIDE,
        r.height == FULL_SIDE,
        r.pixels@ == mirrored(half.pixels@),
{
    let ghost target = mirrored(half.pixels@);
    let mut pixels: Vec<Pixel> = Vec::new();
    let mut y: u64 = 0;
    while y < FULL_SIDE
        invariant
            y <= FULL_SIDE,
            half.wf(),
            target == mirrored(half.pixels@),
            pixels@ == target.subrange(0, y * FULL_SIDE),
        decreases FULL_SIDE - y,
    {
        let mut x: u64 = 0;
        while x < FULL_SIDE
            invariant
                x <= FULL_SIDE,
                y < FULL_SIDE,
                half.wf(),
                target == mirrored(half.pixels@),
                pixels@ == target.subrange(0, y * FULL_SIDE + x),
            decreases FULL_SIDE - x,
        {
            let source_x = if x < 32 {
                x
            } else {
                FULL_SIDE - x - 1
            };
            let pixel = match half.get_pixel(source_x, y) {
                Some(p) => p,
                None => background,
            };
            proof {
                lemma_grid_index(x as int, y as int, 64, 64);
                assert(pixel == target[y * FULL_SIDE + x]);
            }
            pixels.push(pixel);
            x = x + 1;
            assert(pixels@ =~= target.subrange(0, y * FULL_SIDE + x));
        }
        y = y + 1;
    }
    assert(pixels@ =~= target);
    PixelImage { width: FULL_SIDE, height: FULL_SIDE, pixels }
}

/// Bit `col` of `byte`, most significant first.
pub open spec fn stamp_bit(byte: u8, col: int) -> bool {
    (byte >> ((7 - col) as u8)) & 1u8 == 1u8
}

/// Whether stamp cell `(row, col)` comes before the cursor `(done_row, done_col)`.
pub open spec fn stamp_done(done_row: int, done_col: int, row: int, col: int) -> bool {
    row < done_row || (row == done_row && col < done_col)
}

/// `pixels`, a `width`-wide grid, with the stamp cells before `(done_row, done_col)` painted:
/// `bytes` spelt as rows of eight bits from `(start_x, start_y)`, a one in `foreground` and a
/// zero in `background`.
pub open spec fn stamped_upto(
    pixels: Seq<Pixel>,
    width: int,
    bytes: Seq<u8>,
    start_x: int,
    start_y: int,
    foreground: Pixel,
    background: Pixel,
    done_row: int,
    done_col: int,
) -> Seq<Pixel> {
    Seq::new(
        pixels.len(),
        |i: int|
            {
                let row = i / width - start_y;
                let col = i % width - start_x;
                if 0 <= row < bytes.len() && 0 <= col < STAMP_SIDE && stamp_done(
                    done_row,
                    done_col,
                    row,
                    col,
                ) {
                    if stamp_bit(bytes[row], col) {
                        foreground
                    } else {
                        background
                    }
                } else {
                    pixels[i]
                }
            },
    )
}

/// `pixels`, a `width`-wide grid, with `bytes` stamped from `(start_x, start_y)`: row `k`
/// of the stamp spells byte `k`, most significant bit leftmost.
pub open spec fn stamped(
    pixels: Seq<Pixel>,
    width: int,
    bytes: Seq<u8>,
    start_x: int,
    start_y: int,
    foreground: Pixel,
    background: Pixel,
) -> Seq<Pixel> {
    stamped_upto(pixels, width, bytes, start_x, start_y, foreground, background, bytes.len() as int, 0)
}

/// Stamps `bytes` as an 8-wide grid of bits whose top-left cell is `(start_x, start_y)`.
pub fn stamp_corner(
    image: &mut PixelImage,
    bytes: &[u8],
    start_x: u64,
    start_y: u64,
    foreground: Pixel,
    background: Pixel,
)
    requires
        old(image).wf(),
        start_x + STAMP_SIDE <= old(image).width,
        start_y + bytes@.len() <= old(image).height,
    ensures
        final(image).wf(),
        final(image).width == old(image).width,
        final(image).height == old(image).height,
        final(image).pixels@ == stamped(
            old(image).pixels@,
            old(image).width as int,
            bytes@,
            start_x as int,
            start_y as int,
            foreground,
            background,
        ),
{
    let ghost unstamped = image.pixels@;
    let ghost w = image.width as int;
    let ghost h = image.height as int;
    let mut row: usize = 0;
    while row < bytes.len()
        invariant
            row <= bytes@.len(),
            image.wf(),
            image.width == w,
            image.height == h,
            unstamped.len() == w * h,
            start_x + STAMP_SIDE <= w,
            start_y + bytes@.len() <= h,
            image.pixels@ == stamped_upto(
                unstamped,
                w,
                bytes@,
                start_x as int,
                start_y as int,
                foreground,
                background,
                row as int,
                0,
            ),
        decreases bytes@.len() - row,
    {
        let byte = bytes[row];
        let mut col: u64 = 0;
        while col < STAMP_SIDE
            invariant
                col <= STAMP_SIDE,
                row < bytes@.len(),
                byte == bytes@[row as int],
                image.wf(),
                image.width == w,
                image.height == h,
                unstamped.len() == w * h,
                start_x + STAMP_SIDE <= w,
                start_y + bytes@.len() <= h,
                image.pixels@ == stamped_upto(
                    unstamped,
                    w,
                    bytes@,
                    start_x as int,
                    start_y as int,
                    foreground,
                    background,
                    row as int,
                    col as int,
                ),
            decreases STAMP_SIDE - col,
        {
            let bit = (byte >> (7 - col) as u8) & 1;
            let pixel = if bit == 1 {
                foreground
            } else {
                background
            };
            let x = start_x + col;
            let y = start_y + row as u64;
            let ghost before = image.pixels@;
            image.set_pixel(x, y, pixel);
            proof {
                let j = y * w + x;
                lemma_grid_index(x as int, y as int, w, h);
                let next = stamped_upto(
                    unstamped,
                    w,
                    bytes@,
                    start_x as int,
                    start_y as int,
                    foreground,
                    background,
                    row as int,
                    col + 1,
                );
                assert forall|i: int| 0 <= i < unstamped.len() implies #[trigger] image.pixels@[i]
                    == next[i] by {
                    lemma_grid_decode(i, w, h);
                    if i != j {
                        assert(i / w != y || i % w != x);
                    }
                }
                assert(image.pixels@ =~= next);
            }
            col = col + 1;
        }
        proof {
            let a = stamped_upto(
                unstamped,
                w,
                bytes@,
                start_x as int,
                start_y as int,
                foreground,
                background,
                row as int,
                STAMP_SIDE as int,
            );
            let b = stamped_upto(
                unstamped,
                w,
                bytes@,
                start_x as int,
                start_y as int,
                foreground,
                background,
                row + 1,
                0,
            );
            assert(a =~= b);
        }
        row = row + 1;
    }
}

/// `pixels`, a 64×64 picture, with the key's four 8-byte quarters stamped into its
/// corners `offset` cells in from the edges: top-left, top-right, bottom-left,
/// bottom-right, each over the last.
pub open spec fn corner_stamped(
    pixels: Seq<Pixel>,
    key: Seq<u8>,
    foreground: Pixel,
    background: Pixel,
    offset: int,
) -> Seq<Pixel> {
    let far = FULL_SIDE - STAMP_SIDE - offset;
    let w = FULL_SIDE as int;
    let top_left = stamped(pixels, w, key.subrange(0, 8), offset, offset, foreground, background);
    let top_right = stamped(top_left, w, key.subrange(8, 16), far, offset, foreground, background);
    let bottom_left = stamped(top_right, w, key.subrange(16, 24), offset, far, foreground, background);
    stamped(bottom_left, w, key.subrange(24, 32), far, far, foreground, background)
}

fn key_quarter(key: &[u8; 32], start: usize) -> (r: Vec<u8>)
    requires
        start + 8 <= 32,
    ensures
        r@ == key@.subrange(start as int, start + 8),
{
    let mut bytes: Vec<u8> = Vec::new();
    let mut i: usize = start;
    while i < start + 8
        invariant
            start <= i <= start + 8,
            start + 8 <= 32,
            bytes@ == key@.subrange(start as int, i as int),
        decreases start + 8 - i,
    {
        bytes.push(key[i]);
        i = i + 1;
        assert(bytes@ =~= key@.subrange(start as int, i as int));
    }
    bytes
}

/// Stamps the key into the four corners of a 64×64 picture, `offset` cells in from the edges.
pub fn add_corner_stamps(
    image: &mut PixelImage,
    private_key: &[u8; 32],
    foreground: Pixel,
    background: Pixel,
    offset: u64,
)
    requires
        old(image).wf(),
        old(image).width == FULL_SIDE,
        old(image).height == FULL_SIDE,
        offset + STAMP_SIDE <= FULL_SIDE,
    ensures
        final(image).wf(),
        final(image).width == FULL_SIDE,
        final(image).height == FULL_SIDE,
        final(image).pixels@ == corner_stamped(
            old(image).pixels@,
            private_key@,
            foreground,
            background,
            offset as int,
        ),
{
    let far = FULL_SIDE - STAMP_SIDE - offset;
    let top_left = key_quarter(private_key, 0);
    stamp_corner(image, top_left.as_slice(), offset, offset, foreground, background);
    let top_right = key_quarter(private_key, 8);
    stamp_corner(image, top_right.as_slice(), far, offset, foreground, background);
    let bottom_left = key_quarter(private_key, 16);
    stamp_corner(image, bottom_left.as_slice(), offset, far, foreground, background);
    let bottom_right = key_quarter(private_key, 24);
    stamp_corner(image, bottom_right.as_slice(), far, far, foreground, background);
}

/// `pixels`, a `width`-wide picture, blown up `factor` times into a `new_width`×`new_height`
/// picture: each pixel becomes a `factor`×`factor` block.
pub open spec fn upscaled(
    pixels: Seq<Pixel>,
    width: int,
    factor: int,
    new_width: int,
    new_height: int,
) -> Seq<Pixel> {
    Seq::new(
        (new_width * new_height) as nat,
        |i: int| pixels[((i / new_width) / factor) * width + (i % new_width) / factor],
    )
}

/// Blows a picture up `factor` times in each direction.
pub fn upscale(image: &PixelImage, factor: u64) -> (r: PixelImage)
    requires
        image.wf(),
        image.width * factor <= u64::MAX,
        image.height * factor <= u64::MAX,
        (image.width * factor) * (image.height * factor) <= usize::MAX,
    ensures
        r.wf(),
        r.width == image.width * factor,
        r.height == image.height * factor,
        r.pixels@ == upscaled(image.pixels@, image.width as int, factor as int, r.width as int, r.height as int),
{
    let width = image.width;
    let height = image.height;
    let new_width = width * factor;
    let new_height = height * factor;
    let count = image.pixels.len();
    let ghost target = upscaled(image.pixels@, width as int, factor as int, new_width as int, new_height as int);
    let mut pixels: Vec<Pixel> = Vec::new();
    let mut ty: u64 = 0;
    while ty < new_height
        invariant
            ty <= new_height,
            image.wf(),
            count == image.pixels@.len(),
            width == image.width,
            height == image.height,
            new_width == width * factor,
            new_height == height * factor,
            target == upscaled(image.pixels@, width as int, factor as int, new_width as int, new_height as int),
            ty * new_width <= new_width * new_height,
            pixels@ == target.subrange(0, ty * new_width),
        decreases new_height - ty,
    {
        let mut tx: u64 = 0;
        while tx < new_width
            invariant
                tx <= new_width,
                ty < new_height,
                image.wf(),
                count == image.pixels@.len(),
                width == image.width,
                height == image.height,
                new_width == width * factor,
                new_height == height * factor,
                target == upscaled(image.pixels@, width as int, factor as int, new_width as int, new_height as int),
                ty * new_width + tx <= new_width * new_height,
                pixels@ == target.subrange(0, ty * new_width + tx),
            decreases new_width - tx,
        {
            let source_x = tx / factor;
            let source_y = ty / factor;
            proof {
                lemma_grid_index(tx as int, ty as int, new_width as int, new_height as int);
                assert(factor > 0 && source_x < width && source_y < height) by (nonlinear_arith)
                    requires
                        tx < width * factor,
                        ty < height * factor,
                        source_x == tx / factor,
                        source_y == ty / factor,
                ;
                lemma_grid_index(source_x as int, source_y as int, width as int, height as int);
            }
            let pixel = image.pixels[(source_y * width + source_x) as usize];
            pixels.push(pixel);
            tx = tx + 1;
            assert(pixels@ =~= target.subrange(0, ty * new_width + tx));
        }
        proof {
            assert(ty * new_width + new_width == (ty + 1) * new_width) by (nonlinear_arith);
        }
        ty = ty + 1;
    }
    assert(new_height * new_width == new_width * new_height) by (nonlinear_arith);
    assert(pixels@ =~= target);
    PixelImage { width: new_width, height: new_height, pixels }
}

} // verus!
