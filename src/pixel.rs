use vstd::prelude::*;

use crate::canvas::{in_canvas, BinaryImage32x64, CANVAS_HEIGHT, CANVAS_WIDTH};

verus! {

/// Number of cells of the 32×64 half canvas.
pub const CANVAS_CELLS: usize = 2048;

/// The cell that row-major index `i` of a 32-wide canvas stands for.
pub open spec fn cell_of(i: int) -> (int, int) {
    (i % 32, i / 32)
}

/// Row-major indexing of a 32-wide canvas is a bijection onto its cells.
pub(crate) proof fn lemma_cell_index(x: int, y: int)
    requires
        in_canvas(x, y),
    ensures
        0 <= y * 32 + x < CANVAS_CELLS,
        cell_of(y * 32 + x) == (x, y),
{
    assert((y * 32 + x) % 32 == x && (y * 32 + x) / 32 == y) by (nonlinear_arith)
        requires
            0 <= x < 32,
            0 <= y < 64,
    ;
}

/// Simple RGB pixel.
#[derive(Clone, Copy, Debug, PartialEq, Eq, Structural)]
pub struct Pixel {
    pub r: u8,
    pub g: u8,
    pub b: u8,
}

impl Pixel {
    pub fn new(r: u8, g: u8, b: u8) -> (p: Self)
        ensures
            p == (Pixel { r, g, b }),
    {
        Pixel { r, g, b }
    }

    /// The three channels, red first.
    pub fn to_rgb_array(self) -> (a: [u8; 3])
        ensures
            a@ == seq![self.r, self.g, self.b],
    {
        let a = [self.r, self.g, self.b];
        assert(a@ =~= seq![self.r, self.g, self.b]);
        a
    }
}

/// The colours of a canvas whose foreground cells are `marks`, row-major.
pub open spec fn coloured(marks: Set<(int, int)>, foreground: Pixel, background: Pixel) -> Seq<
    Pixel,
> {
    Seq::new(
        CANVAS_CELLS as nat,
        |i: int|
            if marks.contains(cell_of(i)) {
                foreground
            } else {
                background
            },
    )
}

/// The channels of `pixels`, three bytes per pixel, red first.
pub open spec fn rgb_bytes(pixels: Seq<Pixel>) -> Seq<u8> {
    Seq::new(
        3 * pixels.len(),
        |i: int|
            {
                let p = pixels[i / 3];
                if i % 3 == 0 {
                    p.r
                } else if i % 3 == 1 {
                    p.g
                } else {
                    p.b
                }
            },
    )
}

/// A 32×64 half canvas of RGB pixels, row-major.
#[derive(Clone, Debug, PartialEq, Eq)]
pub struct Image32x64 {
    pub pixels: Vec<Pixel>,
}

impl Image32x64 {
    /// The image holds one pixel per cell.
    pub open spec fn wf(&self) -> bool {
        self.pixels@.len() == CANVAS_CELLS
    }

    /// An image of `background` only.
    pub fn new(background: Pixel) -> (r: Self)
        ensures
            r.wf(),
            r.pixels@ == Seq::new(CANVAS_CELLS as nat, |i: int| background),
    {
        let mut pixels: Vec<Pixel> = Vec::new();
        while pixels.len() < CANVAS_CELLS
            invariant
                pixels@.len() <= CANVAS_CELLS,
                forall|i: int| 0 <= i < pixels@.len() ==> pixels@[i] == background,
            decreases CANVAS_CELLS - pixels@.len(),
        {
            pixels.push(background);
        }
        assert(pixels@ =~= Seq::new(CANVAS_CELLS as nat, |i: int| background));
        Image32x64 { pixels }
    }

    /// The pixel of cell `(x, y)`, or `None` outside the canvas.
    pub fn get_pixel(&self, x: u64, y: u64) -> (r: Option<Pixel>)
        requires
            self.wf(),
        ensures
            r == if in_canvas(x as int, y as int) {
                Some(self.pixels@[y * 32 + x])
            } else {
                None::<Pixel>
            },
    {
        if x < CANVAS_WIDTH && y < CANVAS_HEIGHT {
            Some(self.pixels[(y * 32 + x) as usize])
        } else {
            None
        }
    }

    /// Paints cell `(x, y)`; a cell outside the canvas is ignored.
    pub fn set_pixel(&mut self, x: u64, y: u64, pixel: Pixel)
        requires
            old(self).wf(),
        ensures
            final(self).pixels@ == if in_canvas(x as int, y as int) {
                old(self).pixels@.update(y * 32 + x, pixel)
            } else {
                old(self).pixels@
            },
    {
        if x < CANVAS_WIDTH && y < CANVAS_HEIGHT {
            self.pixels.set((y * 32 + x) as usize, pixel);
        }
    }

    /// The channels of every pixel, row-major, three bytes per pixel.
    pub fn to_bytes(&self) -> (r: Vec<u8>)
        ensures
            r@ == rgb_bytes(self.pixels@),
    {
        pixels_to_bytes(&self.pixels)
    }
}

/// The channels of `pixels`, three bytes per pixel, red first.
pub fn pixels_to_bytes(pixels: &Vec<Pixel>) -> (r: Vec<u8>)
    ensures
        r@ == rgb_bytes(pixels@),
{
    let mut bytes: Vec<u8> = Vec::new();
    let mut i: usize = 0;
    while i < pixels.len()
        invariant
            i <= pixels@.len(),
            bytes@ == rgb_bytes(pixels@.subrange(0, i as int)),
        decreases pixels@.len() - i,
    {
        let pixel = pixels[i];
        bytes.push(pixel.r);
        bytes.push(pixel.g);
        bytes.push(pixel.b);
        i = i + 1;
        assert(bytes@ =~= rgb_bytes(pixels@.subrange(0, i as int)));
    }
    assert(pixels@.subrange(0, i as int) =~= pixels@);
    bytes
}

/// Colours a binary canvas: foreground cells in `foreground`, the rest in `background`.
pub fn binary_to_rgb(binary: &BinaryImage32x64, foreground: Pixel, background: Pixel) -> (r:
    Image32x64)
    requires
        binary.wf(),
    ensures
        r.wf(),
        r.pixels@ == coloured(binary.marks(), foreground, background),
{
    let ghost target = coloured(binary.marks(), foreground, background);
    let mut pixels: Vec<Pixel> = Vec::new();
    let mut y: u64 = 0;
    while y < CANVAS_HEIGHT
        invariant
            y <= CANVAS_HEIGHT,
            binary.wf(),
            target.len() == CANVAS_CELLS,
            target == coloured(binary.marks(), foreground, background),
            pixels@ == target.subrange(0, y * 32),
        decreases CANVAS_HEIGHT - y,
    {
        let mut x: u64 = 0;
        while x < CANVAS_WIDTH
            invariant
                x <= CANVAS_WIDTH,
                y < CANVAS_HEIGHT,
                binary.wf(),
                target.len() == CANVAS_CELLS,
                target == coloured(binary.marks(), foreground, background),
                pixels@ == target.subrange(0, y * 32 + x),
            decreases CANVAS_WIDTH - x,
        {
            let pixel = if binary.get_pixel(x, y) {
                foreground
            } else {
                background
            };
            proof {
                lemma_cell_index(x as int, y as int);
                assert(binary.marks().contains((x as int, y as int)) == binary.pixel(
                    x as int,
                    y as int,
                ));
                assert(pixel == target[y * 32 + x]);
            }
            pixels.push(pixel);
            x = x + 1;
            assert(pixels@ =~= target.subrange(0, y * 32 + x));
        }
        y = y + 1;
    }
    assert(pixels@ =~= target);
    Image32x64 { pixels }
}

} // verus!
