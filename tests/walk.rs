use rand::{Rng, SeedableRng};
use rand_chacha::ChaCha8Rng;
use ror_core::{
    binary_to_rgb, decide_direction_fixed, derive_parameters, generate_rorschach,
    generate_rorschach_binary, generate_rorschach_half, mirror_half_to_full, move_cursor,
    physical_x, BinaryImage32x64, Direction, Pixel,
};

fn sample_key(n: u32) -> [u8; 32] {
    let mut seed = n.wrapping_mul(2_654_435_761).wrapping_add(1);
    let mut key = [0u8; 32];
    for byte in key.iter_mut() {
        seed ^= seed << 13;
        seed ^= seed >> 17;
        seed ^= seed << 5;
        *byte = (seed >> 8) as u8;
    }
    key
}

/// The walk as one live ChaCha8 generator draws it, step after step.
fn sequential_walk(key: &[u8; 32], walks: u64, steps: u64) -> BinaryImage32x64 {
    let mut rng = ChaCha8Rng::from_seed(*key);
    let mut image = BinaryImage32x64::new();
    for _ in 0..walks {
        let mut x: u64 = rng.gen_range(16..48);
        let mut y: u64 = rng.gen_range(16..48);
        image.set_pixel(if x >= 32 { 63 - x } else { x }, y, true);
        for _ in 0..steps {
            let draw: u32 = rng.gen();
            let (nx, ny) = move_cursor(x, y, decide_direction_fixed(draw, x, y));
            x = nx;
            y = ny;
            image.set_pixel(if x >= 32 { 63 - x } else { x }, y, true);
        }
    }
    image
}

fn foreground_count(c: &BinaryImage32x64) -> u32 {
    c.to_bytes().iter().map(|b| b.count_ones()).sum()
}

#[test]
fn direction_buckets_at_centre() {
    // every weight saturates at the centre: four buckets of 1_000_000
    assert_eq!(decide_direction_fixed(0, 32, 32), Direction::Left);
    assert_eq!(decide_direction_fixed(999_999, 32, 32), Direction::Left);
    assert_eq!(decide_direction_fixed(1_000_000, 32, 32), Direction::Right);
    assert_eq!(decide_direction_fixed(2_000_000, 32, 32), Direction::Up);
    assert_eq!(decide_direction_fixed(3_999_999, 32, 32), Direction::Down);
    assert_eq!(decide_direction_fixed(4_000_000, 32, 32), Direction::Left);
}

#[test]
fn direction_weights_ramp_near_margins() {
    // at (20, 30): left 4/16, right full, up 14/16, down full; total 3_125_000
    assert_eq!(decide_direction_fixed(249_999, 20, 30), Direction::Left);
    assert_eq!(decide_direction_fixed(250_000, 20, 30), Direction::Right);
    assert_eq!(decide_direction_fixed(1_249_999, 20, 30), Direction::Right);
    assert_eq!(decide_direction_fixed(1_250_000, 20, 30), Direction::Up);
    assert_eq!(decide_direction_fixed(2_124_999, 20, 30), Direction::Up);
    assert_eq!(decide_direction_fixed(2_125_000, 20, 30), Direction::Down);
    assert_eq!(decide_direction_fixed(3_125_000, 20, 30), Direction::Left);
}

#[test]
fn direction_never_pulls_past_a_margin() {
    // at the top-left corner of the region left and up weigh nothing
    for draw in [0u32, 1, 999_999, 1_000_000, 1_999_999, u32::MAX] {
        let d = decide_direction_fixed(draw, 16, 16);
        assert!(d == Direction::Right || d == Direction::Down);
    }
    assert_eq!(decide_direction_fixed(0, 16, 16), Direction::Right);
    assert_eq!(decide_direction_fixed(1_000_000, 16, 16), Direction::Down);
}

#[test]
fn moves_stay_in_region() {
    assert_eq!(move_cursor(20, 20, Direction::Left), (19, 20));
    assert_eq!(move_cursor(20, 20, Direction::Right), (21, 20));
    assert_eq!(move_cursor(20, 20, Direction::Up), (20, 19));
    assert_eq!(move_cursor(20, 20, Direction::Down), (20, 21));
    assert_eq!(move_cursor(16, 30, Direction::Left), (16, 30));
    assert_eq!(move_cursor(47, 30, Direction::Right), (47, 30));
    assert_eq!(move_cursor(30, 16, Direction::Up), (30, 16));
    assert_eq!(move_cursor(30, 47, Direction::Down), (30, 47));
}

#[test]
fn right_half_folds_onto_left() {
    assert_eq!(physical_x(0), 0);
    assert_eq!(physical_x(16), 16);
    assert_eq!(physical_x(31), 31);
    assert_eq!(physical_x(32), 31);
    assert_eq!(physical_x(47), 16);
    assert_eq!(physical_x(63), 0);
}

#[test]
fn generation_is_deterministic() {
    for n in 0..20 {
        let key = sample_key(n);
        let (walks, steps) = derive_parameters(&key);
        let a = generate_rorschach_binary(&key, walks, steps);
        let b = generate_rorschach_binary(&key, walks, steps);
        assert_eq!(a.to_bytes(), b.to_bytes());
        assert_eq!(generate_rorschach(&key), a);
    }
}

#[test]
fn positional_draws_match_a_live_generator() {
    for n in 0..30 {
        let key = sample_key(n);
        let (walks, steps) = derive_parameters(&key);
        assert_eq!(
            generate_rorschach_binary(&key, walks, steps),
            sequential_walk(&key, walks, steps)
        );
    }
    let key = [0xFFu8; 32];
    assert_eq!(generate_rorschach(&key), sequential_walk(&key, 10, 199));
}

#[test]
fn zero_key_golden_pattern() {
    let key = [0u8; 32];
    let c = generate_rorschach(&key);
    assert_eq!(c, generate_rorschach_binary(&key, 3, 100));
    assert_eq!(foreground_count(&c), 102);
}

#[test]
fn different_keys_give_different_patterns() {
    let a = generate_rorschach(&[0u8; 32]);
    let b = generate_rorschach(&[1u8; 32]);
    let c = generate_rorschach(&sample_key(7));
    assert_ne!(a, b);
    assert_ne!(a, c);
    assert_ne!(b, c);
}

#[test]
fn marks_stay_in_the_centre() {
    for n in 0..50 {
        let c = generate_rorschach(&sample_key(n));
        for y in 0..64 {
            for x in 0..32 {
                if c.get_pixel(x, y) {
                    assert!((16..32).contains(&x) && (16..48).contains(&y));
                }
            }
        }
    }
}

#[test]
fn mirrored_patterns_are_not_blank() {
    let fg = Pixel::new(255, 217, 102);
    let bg = Pixel::new(255, 0, 129);
    let mut non_blank = 0;
    for n in 0..100 {
        let key = sample_key(n);
        let half = binary_to_rgb(&generate_rorschach(&key), fg, bg);
        let full = mirror_half_to_full(&half, bg);
        let marked = full.pixels.iter().filter(|p| **p == fg).count();
        if marked > 0 {
            non_blank += 1;
        }
        // the two halves mirror each other
        for y in 0..64u64 {
            for x in 0..32u64 {
                assert_eq!(full.get_pixel(x, y), full.get_pixel(63 - x, y));
            }
        }
    }
    assert!(non_blank >= 95);
}

#[test]
fn zero_walks_leave_the_canvas_blank() {
    let c = generate_rorschach_binary(&sample_key(3), 0, 300);
    assert_eq!(c, BinaryImage32x64::new());
    let one = generate_rorschach_binary(&sample_key(3), 1, 0);
    assert_eq!(foreground_count(&one), 1);
}

#[test]
fn binary_and_rgb_generators_agree() {
    let fg = Pixel::new(255, 217, 102);
    let bg = Pixel::new(255, 0, 129);
    for n in 0..10 {
        let key = sample_key(n);
        let (walks, steps) = derive_parameters(&key);
        let binary = generate_rorschach_binary(&key, walks, steps);
        let rgb = generate_rorschach_half(&key, walks, steps, fg, bg);
        assert_eq!(binary_to_rgb(&binary, fg, bg), rgb);
        for y in 0..64 {
            for x in 0..32 {
                assert_eq!(binary.get_pixel(x, y), rgb.get_pixel(x, y) == Some(fg));
            }
        }
    }
}

/// Number of 4-connected foreground regions of a 64×64 mirrored picture.
fn regions(full: &ror_core::PixelImage, fg: Pixel) -> usize {
    let mut seen = vec![false; 64 * 64];
    let mut count = 0;
    for start in 0..64 * 64 {
        if seen[start] || full.pixels[start] != fg {
            continue;
        }
        count += 1;
        let mut stack = vec![start];
        seen[start] = true;
        while let Some(i) = stack.pop() {
            let (x, y) = (i % 64, i / 64);
            let mut next = Vec::new();
            if x > 0 {
                next.push(i - 1);
            }
            if x < 63 {
                next.push(i + 1);
            }
            if y > 0 {
                next.push(i - 64);
            }
            if y < 63 {
                next.push(i + 64);
            }
            for j in next {
                if !seen[j] && full.pixels[j] == fg {
                    seen[j] = true;
                    stack.push(j);
                }
            }
        }
    }
    count
}

#[test]
fn mirrored_patterns_are_mostly_connected() {
    let fg = Pixel::new(255, 217, 102);
    let bg = Pixel::new(255, 0, 129);
    let mut connected = 0;
    for n in 0..200 {
        let half = binary_to_rgb(&generate_rorschach(&sample_key(n)), fg, bg);
        let full = mirror_half_to_full(&half, bg);
        if regions(&full, fg) == 1 {
            connected += 1;
        }
    }
    assert!(connected * 100 >= 95 * 200);
}
