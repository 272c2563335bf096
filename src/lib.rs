//! Deterministic Rorschach patterns derived from a 32-byte key.
//!
//! A key fixes two walk counts and seeds a ChaCha8 keystream; random walks over a
//! 64×64 virtual grid, folded onto a 32×64 half canvas, mark the pattern's cells.
//! The half canvas is stored one bit per cell; colouring, mirroring, corner stamps
//! and upscaling build the final picture from it.

mod canvas;
mod colour;
mod compose;
mod direction;
mod key;
mod keystream;
mod params;
mod pixel;
mod walker;

pub use canvas::{
    bit_at, in_canvas, lemma_bytes_round_trip, lemma_marks_determine_bytes, mask_of,
    BinaryImage32x64, CANVAS_BYTES, CANVAS_HEIGHT, CANVAS_WIDTH,
};
pub use colour::{
    comma_pieces, decimal_value, is_digit, parse_rgb, parse_u8, rgb_of, unsigned_digits,
    RgbParseError, COMMA, PLUS,
};
pub use compose::{
    add_corner_stamps, corner_stamped, fill_colour, mirror_half_to_full, mirrored, stamp_bit,
    stamp_corner, stamp_done, stamped, stamped_upto, upscale, upscaled, PixelImage, FULL_SIDE,
    STAMP_SIDE,
};
pub use direction::{
    decide_direction_fixed, direction_of, down_weight, fold_x, gap, lemma_weights_bounded,
    left_weight, move_cursor, moved, physical_x, pull_weight, right_weight, total_weight, up_weight,
    Direction, BOTTOM_BOUNDARY, HEIGHT, LEFT_MARGIN, QUARTER_SPAN, RIGHT_BOUNDARY, SCALE,
    TOP_MARGIN, VIRTUAL_WIDTH,
};
pub use key::{
    all_hex, hex_decode_result_ok, hex_decoded, hex_digit, parse_private_key, strip_hex_prefix,
    HexError, KeyError,
};
pub use keystream::{chacha8_gen_range, chacha8_next_u32, WORD_POS_LIMIT};
pub use params::{derive_parameters, le_u32, steps_of, walks_of};
pub use pixel::{
    binary_to_rgb, cell_of, coloured, pixels_to_bytes, rgb_bytes, Image32x64, Pixel, CANVAS_CELLS,
};
pub use walker::{
    generate_rorschach, generate_rorschach_binary, generate_rorschach_half, in_centre, in_region,
    lemma_binary_matches_rgb, lemma_generation_deterministic, mark_of, rorschach_marks,
    walk_steps, walks_from,
};
