use vstd::prelude::*;

use crate::canvas::{in_canvas, lemma_marks_determine_bytes, BinaryImage32x64};
use crate::direction::{
    decide_direction_fixed, direction_of, fold_x, move_cursor, moved, physical_x, BOTTOM_BOUNDARY,
    LEFT_MARGIN, RIGHT_BOUNDARY, TOP_MARGIN, VIRTUAL_WIDTH,
};
use crate::keystream::{
    chacha8_gen_range, chacha8_next_u32, gen_range_at, next_u32_at, WORD_POS_LIMIT,
};
use crate::params::{derive_parameters, steps_of, walks_of};
use crate::pixel::{binary_to_rgb, coloured, lemma_cell_index, Image32x64, Pixel};

verus! {

/// The cursor lies in the centred region that walks never leave.
pub open spec fn in_region(x: int, y: int) -> bool {
    LEFT_MARGIN <= x < RIGHT_BOUNDARY && TOP_MARGIN <= y < BOTTOM_BOUNDARY
}

/// The half-canvas cell that a mark at virtual cursor `(x, y)` sets.
pub open spec fn mark_of(x: int, y: int) -> (int, int) {
    (fold_x(x), y)
}

/// `n` more steps from cursor `(x, y)` with the keystream of `key` at word `pos`,
/// adding each cell reached to `marks`: the cells marked and the word position after.
pub open spec fn walk_steps(
    key: Seq<u8>,
    x: int,
    y: int,
    pos: int,
    n: nat,
    marks: Set<(int, int)>,
) -> (Set<(int, int)>, int)
    decreases n,
{
    if n == 0 {
        (marks, pos)
    } else {
        let draw = chacha8_next_u32(key, pos);
        let next = moved(x, y, direction_of(draw.0, x, y));
        walk_steps(
            key,
            next.0,
            next.1,
            draw.1,
            (n - 1) as nat,
            marks.insert(mark_of(next.0, next.1)),
        )
    }
}

/// `n` more walks of `steps` steps each, from word `pos` of the keystream of `key`:
/// each starts at a cursor drawn from the region, marks it, then walks.
pub open spec fn walks_from(key: Seq<u8>, pos: int, n: nat, steps: nat, marks: Set<(int, int)>) -> Set<
    (int, int),
>
    decreases n,
{
    if n == 0 {
        marks
    } else {
        let start_x = chacha8_gen_range(key, pos, LEFT_MARGIN, RIGHT_BOUNDARY);
        let start_y = chacha8_gen_range(key, start_x.1, TOP_MARGIN, BOTTOM_BOUNDARY);
        let walked = walk_steps(
            key,
            start_x.0 as int,
            start_y.0 as int,
            start_y.1,
            steps,
            marks.insert(mark_of(start_x.0 as int, start_y.0 as int)),
        );
        walks_from(key, walked.1, (n - 1) as nat, steps, walked.0)
    }
}

/// The half-canvas cells that `walks` walks of `steps` steps mark, drawing from the
/// ChaCha8 keystream of `key` from its first word.
pub open spec fn rorschach_marks(key: Seq<u8>, walks: nat, steps: nat) -> Set<(int, int)> {
    walks_from(key, 0, walks, steps, Set::empty())
}

/// Cell `c` lies in the part of the half canvas that walks can reach: columns
/// `16..32` and rows `16..48`.
pub open spec fn in_centre(c: (int, int)) -> bool {
    LEFT_MARGIN <= c.0 < VIRTUAL_WIDTH / 2 && TOP_MARGIN <= c.1 < BOTTOM_BOUNDARY
}

/// Draws a binary Rorschach half canvas: `walks` random walks of `steps` steps over the
/// 64×64 virtual grid, each cell reached folded onto the 32-wide canvas.
pub fn generate_rorschach_binary(private_key: &[u8; 32], walks: u64, steps: u64) -> (r:
    BinaryImage32x64)
    ensures
        r.wf(),
        r.marks() == rorschach_marks(private_key@, walks as nat, steps as nat),
        forall|c: (int, int)| #[trigger] r.marks().contains(c) ==> in_centre(c),
        walks > 0 ==> exists|c: (int, int)| #[trigger] r.marks().contains(c),
{
    let ghost key = private_key@;
    let ghost mut seen: (int, int) = (0, 0);
    let mut image = BinaryImage32x64::new();
    let mut pos: u128 = 0;
    let mut walk: u64 = 0;
    while walk < walks
        invariant
            walk <= walks,
            image.wf(),
            pos < WORD_POS_LIMIT,
            key == private_key@,
            walks_from(key, pos as int, (walks - walk) as nat, steps as nat, image.marks())
                == rorschach_marks(key, walks as nat, steps as nat),
            forall|c: (int, int)| #[trigger] image.marks().contains(c) ==> in_centre(c),
            walk > 0 ==> image.marks().contains(seen),
        decreases walks - walk,
    {
        let (start_x, after_x) = gen_range_at(private_key, pos, LEFT_MARGIN, RIGHT_BOUNDARY);
        let (start_y, after_y) = gen_range_at(private_key, after_x, TOP_MARGIN, BOTTOM_BOUNDARY);
        let mut cursor_x = start_x;
        let mut cursor_y = start_y;
        image.set_pixel(physical_x(cursor_x), cursor_y, true);
        proof {
            seen = mark_of(start_x as int, start_y as int);
        }
        pos = after_y;
        let ghost walk_marks = image.marks();
        let mut step: u64 = 0;
        while step < steps
            invariant
                step <= steps,
                image.wf(),
                pos < WORD_POS_LIMIT,
                key == private_key@,
                in_region(cursor_x as int, cursor_y as int),
                walk_steps(
                    key,
                    cursor_x as int,
                    cursor_y as int,
                    pos as int,
                    (steps - step) as nat,
                    image.marks(),
                ) == walk_steps(
                    key,
                    start_x as int,
                    start_y as int,
                    after_y as int,
                    steps as nat,
                    walk_marks,
                ),
                forall|c: (int, int)| #[trigger] image.marks().contains(c) ==> in_centre(c),
                image.marks().contains(seen),
            decreases steps - step,
        {
            let (rand_val, next_pos) = next_u32_at(private_key, pos);
            let direction = decide_direction_fixed(rand_val, cursor_x, cursor_y);
            let (next_x, next_y) = move_cursor(cursor_x, cursor_y, direction);
            cursor_x = next_x;
            cursor_y = next_y;
            pos = next_pos;
            image.set_pixel(physical_x(cursor_x), cursor_y, true);
            step = step + 1;
        }
        walk = walk + 1;
    }
    image
}

/// Draws the Rorschach half canvas of a key with the walk counts that the key itself gives.
pub fn generate_rorschach(private_key: &[u8; 32]) -> (r: BinaryImage32x64)
    ensures
        r.wf(),
        r.marks() == rorschach_marks(
            private_key@,
            walks_of(private_key@) as nat,
            steps_of(private_key@) as nat,
        ),
        forall|c: (int, int)| #[trigger] r.marks().contains(c) ==> in_centre(c),
        exists|c: (int, int)| #[trigger] r.marks().contains(c),
{
    let (walks, steps) = derive_parameters(private_key);
    generate_rorschach_binary(private_key, walks, steps)
}

/// Draws the same pattern as `generate_rorschach_binary`, as an RGB half canvas.
pub fn generate_rorschach_half(
    private_key: &[u8; 32],
    walks: u64,
    steps: u64,
    foreground: Pixel,
    background: Pixel,
) -> (r: Image32x64)
    ensures
        r.wf(),
        r.pixels@ == coloured(
            rorschach_marks(private_key@, walks as nat, steps as nat),
            foreground,
            background,
        ),
{
    let binary = generate_rorschach_binary(private_key, walks, steps);
    binary_to_rgb(&binary, foreground, background)
}

/// Generation is a function of the key and the two counts alone: two canvases drawn
/// from the same inputs hold the same 256 bytes.
pub proof fn lemma_generation_deterministic(
    a: BinaryImage32x64,
    b: BinaryImage32x64,
    key: Seq<u8>,
    walks: nat,
    steps: nat,
)
    requires
        a.wf(),
        b.wf(),
        a.marks() == rorschach_marks(key, walks, steps),
        b.marks() == rorschach_marks(key, walks, steps),
    ensures
        a@ == b@,
{
    lemma_marks_determine_bytes(a, b);
}

/// The binary and the RGB generator, fed the same key and counts, mark the same cells:
/// colouring the binary canvas gives the RGB one, and where the two colours differ a
/// cell is foreground in one exactly when it is in the other.
pub proof fn lemma_binary_matches_rgb(
    key: Seq<u8>,
    walks: nat,
    steps: nat,
    foreground: Pixel,
    background: Pixel,
    binary: BinaryImage32x64,
    rgb: Image32x64,
)
    requires
        binary.marks() == rorschach_marks(key, walks, steps),
        rgb.pixels@ == coloured(rorschach_marks(key, walks, steps), foreground, background),
    ensures
        coloured(binary.marks(), foreground, background) == rgb.pixels@,
        foreground != background ==> forall|x: int, y: int|
            in_canvas(x, y) ==> (#[trigger] binary.pixel(x, y) <==> rgb.pixels@[y * 32 + x]
                == foreground),
{
    assert forall|x: int, y: int| in_canvas(x, y) && foreground != background implies (
    #[trigger] binary.pixel(x, y) <==> rgb.pixels@[y * 32 + x] == foreground) by {
        lemma_cell_index(x, y);
        assert(binary.marks().contains((x, y)) == binary.pixel(x, y));
    }
}

} // verus!
