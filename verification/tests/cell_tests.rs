use kaku::blocks;
use kaku::blocks::{all_blocks, category_sizes};
use kaku::cell::{
    color256_to_rgb, is_half_block, is_horizontal_half, is_vertical_half, nearest_256,
    next_primary, next_shade, parse_hex_color, resolve_half_block, Cell, Rgb,
};

#[test]
fn test_color256_to_rgb_standard() {
    let c = color256_to_rgb(0);
    assert_eq!((c.r, c.g, c.b), (0, 0, 0));
    let c = color256_to_rgb(7);
    assert_eq!((c.r, c.g, c.b), (229, 229, 229));
    let c = color256_to_rgb(9);
    assert_eq!((c.r, c.g, c.b), (255, 0, 0));
}

#[test]
fn test_color256_to_rgb_cube() {
    let c = color256_to_rgb(16);
    assert_eq!((c.r, c.g, c.b), (0, 0, 0));
    let c = color256_to_rgb(196);
    assert_eq!((c.r, c.g, c.b), (255, 0, 0));
    let c = color256_to_rgb(21);
    assert_eq!((c.r, c.g, c.b), (0, 0, 255));
    let c = color256_to_rgb(46);
    assert_eq!((c.r, c.g, c.b), (0, 255, 0));
}

#[test]
fn test_color256_to_rgb_grayscale() {
    let c = color256_to_rgb(232);
    assert_eq!((c.r, c.g, c.b), (8, 8, 8));
    let c = color256_to_rgb(255);
    assert_eq!((c.r, c.g, c.b), (238, 238, 238));
}

#[test]
fn test_rgb_name() {
    assert_eq!(Rgb::new(255, 0, 0).name(), "#FF0000");
    assert_eq!(Rgb::black().name(), "#000000");
    assert_eq!(Rgb::white().name(), "#E5E5E5");
}

#[test]
fn test_nearest_256_pure_red() {
    let idx = nearest_256(&Rgb::new(255, 0, 0));
    assert!(idx == 196 || idx == 9, "Got {}", idx);
}

#[test]
fn test_nearest_256_black() {
    assert_eq!(nearest_256(&Rgb::black()), 0);
}

#[test]
fn test_nearest_256_white() {
    let idx = nearest_256(&Rgb::new(255, 255, 255));
    assert!(idx == 15 || idx == 231, "Got {}", idx);
}

// --- Block cycling tests ---

#[test]
fn test_next_primary_cycle() {
    assert_eq!(next_primary(blocks::FULL), blocks::UPPER_HALF);
    assert_eq!(next_primary(blocks::UPPER_HALF), blocks::LOWER_HALF);
    assert_eq!(next_primary(blocks::LOWER_HALF), blocks::LEFT_HALF);
    assert_eq!(next_primary(blocks::LEFT_HALF), blocks::RIGHT_HALF);
    assert_eq!(next_primary(blocks::RIGHT_HALF), blocks::FULL);
    // Non-primary char -> Full
    assert_eq!(next_primary(' '), blocks::FULL);
}

#[test]
fn test_next_shade_cycle() {
    assert_eq!(next_shade(blocks::SHADE_LIGHT), blocks::SHADE_MEDIUM);
    assert_eq!(next_shade(blocks::SHADE_MEDIUM), blocks::SHADE_DARK);
    assert_eq!(next_shade(blocks::SHADE_DARK), blocks::SHADE_LIGHT); // wraps
}

#[test]
fn test_next_shade_non_shade_input() {
    // Non-shade char -> first shade (LIGHT)
    assert_eq!(next_shade(blocks::FULL), blocks::SHADE_LIGHT);
    assert_eq!(next_shade(' '), blocks::SHADE_LIGHT);
}

#[test]
fn test_blocks_all_count() {
    assert_eq!(all_blocks().len(), 20);
}

#[test]
fn test_blocks_all_unique() {
    let mut seen = std::collections::HashSet::new();
    for &ch in all_blocks().iter() {
        assert!(seen.insert(ch), "Duplicate block character: {:?}", ch);
    }
}

#[test]
fn test_category_sizes_sum() {
    let total: usize = category_sizes().iter().sum();
    assert_eq!(total, all_blocks().len());
}

#[test]
fn test_classification_helpers() {
    assert!(is_vertical_half(blocks::UPPER_HALF));
    assert!(is_vertical_half(blocks::LOWER_HALF));
    assert!(!is_vertical_half(blocks::LEFT_HALF));
    assert!(!is_vertical_half(blocks::FULL));

    assert!(is_horizontal_half(blocks::LEFT_HALF));
    assert!(is_horizontal_half(blocks::RIGHT_HALF));
    assert!(!is_horizontal_half(blocks::UPPER_HALF));

    assert!(is_half_block(blocks::UPPER_HALF));
    assert!(is_half_block(blocks::LEFT_HALF));
    assert!(!is_half_block(blocks::FULL));
    assert!(!is_half_block(' '));
}

#[test]
fn test_cell_is_empty() {
    assert!(Cell::default().is_empty());
    assert!(!Cell { ch: blocks::FULL, fg: Some(Rgb::new(205, 0, 0)), bg: None }.is_empty());
}

// --- resolve_half_block tests ---

const RED: Rgb = Rgb { r: 205, g: 0, b: 0 };
const BLUE: Rgb = Rgb { r: 0, g: 0, b: 238 };

#[test]
fn resolve_non_half_block_returns_none() {
    let cell = Cell { ch: blocks::FULL, fg: Some(RED), bg: None };
    assert!(resolve_half_block(&cell).is_none());
    let cell = Cell { ch: ' ', fg: None, bg: None };
    assert!(resolve_half_block(&cell).is_none());
}

#[test]
fn resolve_upper_half_both_opaque() {
    let cell = Cell { ch: blocks::UPPER_HALF, fg: Some(RED), bg: Some(BLUE) };
    let r = resolve_half_block(&cell).unwrap();
    assert_eq!(r.ch, blocks::UPPER_HALF);
    assert_eq!(r.fg, Some(RED));
    assert_eq!(r.bg, Some(BLUE));
}

#[test]
fn resolve_upper_half_top_transparent_flips() {
    let cell = Cell { ch: blocks::UPPER_HALF, fg: None, bg: Some(BLUE) };
    let r = resolve_half_block(&cell).unwrap();
    assert_eq!(r.ch, blocks::LOWER_HALF);
    assert_eq!(r.fg, Some(BLUE));
    assert_eq!(r.bg, None);
}

#[test]
fn resolve_upper_half_bottom_transparent() {
    let cell = Cell { ch: blocks::UPPER_HALF, fg: Some(RED), bg: None };
    let r = resolve_half_block(&cell).unwrap();
    assert_eq!(r.ch, blocks::UPPER_HALF);
    assert_eq!(r.fg, Some(RED));
    assert_eq!(r.bg, None);
}

#[test]
fn resolve_upper_half_both_transparent() {
    let cell = Cell { ch: blocks::UPPER_HALF, fg: None, bg: None };
    let r = resolve_half_block(&cell).unwrap();
    assert_eq!(r.ch, ' ');
    assert_eq!(r.fg, None);
    assert_eq!(r.bg, None);
}

#[test]
fn resolve_lower_half_both_opaque() {
    // LOWER_HALF: fg=bottom, bg=top -- normalizes to UPPER_HALF with top=bg, bottom=fg
    let cell = Cell { ch: blocks::LOWER_HALF, fg: Some(RED), bg: Some(BLUE) };
    let r = resolve_half_block(&cell).unwrap();
    assert_eq!(r.ch, blocks::UPPER_HALF);
    assert_eq!(r.fg, Some(BLUE)); // top (bg) becomes primary
    assert_eq!(r.bg, Some(RED)); // bottom (fg) becomes secondary
}

#[test]
fn resolve_lower_half_top_transparent_flips() {
    // bg=top=None, fg=bottom=RED -> flipped to LOWER_HALF with fg=RED
    let cell = Cell { ch: blocks::LOWER_HALF, fg: Some(RED), bg: None };
    let r = resolve_half_block(&cell).unwrap();
    assert_eq!(r.ch, blocks::LOWER_HALF);
    assert_eq!(r.fg, Some(RED));
    assert_eq!(r.bg, None);
}

#[test]
fn resolve_left_half_both_opaque() {
    let cell = Cell { ch: blocks::LEFT_HALF, fg: Some(RED), bg: Some(BLUE) };
    let r = resolve_half_block(&cell).unwrap();
    assert_eq!(r.ch, blocks::LEFT_HALF);
    assert_eq!(r.fg, Some(RED));
    assert_eq!(r.bg, Some(BLUE));
}

#[test]
fn resolve_left_half_left_transparent_flips() {
    let cell = Cell { ch: blocks::LEFT_HALF, fg: None, bg: Some(BLUE) };
    let r = resolve_half_block(&cell).unwrap();
    assert_eq!(r.ch, blocks::RIGHT_HALF);
    assert_eq!(r.fg, Some(BLUE));
    assert_eq!(r.bg, None);
}

#[test]
fn resolve_right_half_both_opaque() {
    // RIGHT_HALF: fg=right, bg=left -- normalizes to LEFT_HALF with left=bg, right=fg
    let cell = Cell { ch: blocks::RIGHT_HALF, fg: Some(RED), bg: Some(BLUE) };
    let r = resolve_half_block(&cell).unwrap();
    assert_eq!(r.ch, blocks::LEFT_HALF);
    assert_eq!(r.fg, Some(BLUE)); // left (bg) becomes primary
    assert_eq!(r.bg, Some(RED)); // right (fg) becomes secondary
}

#[test]
fn resolve_right_half_left_transparent_flips() {
    // bg=left=None, fg=right=RED -> flipped to RIGHT_HALF with fg=RED
    let cell = Cell { ch: blocks::RIGHT_HALF, fg: Some(RED), bg: None };
    let r = resolve_half_block(&cell).unwrap();
    assert_eq!(r.ch, blocks::RIGHT_HALF);
    assert_eq!(r.fg, Some(RED));
    assert_eq!(r.bg, None);
}

// --- parse_hex_color tests ---

#[test]
fn parse_hex_with_hash() {
    assert_eq!(parse_hex_color("#FF0000"), Some(Rgb::new(255, 0, 0)));
}

#[test]
fn parse_hex_without_hash() {
    assert_eq!(parse_hex_color("00FF00"), Some(Rgb::new(0, 255, 0)));
}

#[test]
fn parse_hex_lowercase() {
    assert_eq!(parse_hex_color("#ff8700"), Some(Rgb::new(255, 135, 0)));
}

#[test]
fn parse_hex_mixed_case() {
    assert_eq!(parse_hex_color("#aAbBcC"), Some(Rgb::new(170, 187, 204)));
}

#[test]
fn parse_hex_too_short() {
    assert_eq!(parse_hex_color("#FFF"), None);
}

#[test]
fn parse_hex_invalid_chars() {
    assert_eq!(parse_hex_color("#GGHHII"), None);
}

#[test]
fn parse_hex_empty() {
    assert_eq!(parse_hex_color(""), None);
}

#[test]
fn parse_hex_too_long_fails() {
    assert_eq!(parse_hex_color("#FF000000"), None);
    assert_eq!(parse_hex_color("FF00001"), None);
}

#[test]
fn resolve_of_resolved_half_block_is_stable() {
    // Resolution is idempotent: resolving the cell built from a resolved
    // half block changes nothing further.
    let cell = Cell { ch: blocks::LOWER_HALF, fg: Some(RED), bg: Some(BLUE) };
    let once = resolve_half_block(&cell).unwrap();
    let again = resolve_half_block(&Cell { ch: once.ch, fg: once.fg, bg: once.bg }).unwrap();
    assert_eq!(once, again);
}

#[test]
fn block_categories_compose_all_blocks() {
    let mut combined = kaku::blocks::primary_blocks();
    combined.extend(kaku::blocks::shade_blocks());
    combined.extend(kaku::blocks::vertical_fill_blocks());
    combined.extend(kaku::blocks::horizontal_fill_blocks());
    assert_eq!(combined, kaku::blocks::all_blocks());
}
