use std::collections::HashSet;

use kaku::palette::{
    build_hue_groups, default_palette, hsl_to_rgb, nearest_color, rgb_hue, rgb_to_hsl,
};

#[test]
fn test_default_palette_unique_and_valid() {
    let palette = default_palette();
    let mut seen: HashSet<u8> = HashSet::new();
    for &idx in palette.iter() {
        assert!(seen.insert(idx), "Duplicate index {} in default palette", idx);
    }
    assert_eq!(palette.len(), 24);
}

#[test]
fn test_all_216_covered() {
    let groups = build_hue_groups();
    let mut seen: HashSet<u8> = HashSet::new();
    for group in &groups {
        for &c in &group.colors {
            assert!(c >= 16 && c <= 231, "Index {} out of cube range", c);
            assert!(seen.insert(c), "Duplicate index {}", c);
        }
    }
    assert_eq!(seen.len(), 216, "Expected 216 colors, got {}", seen.len());
}

#[test]
fn test_no_missing_indices() {
    let groups = build_hue_groups();
    let mut all: Vec<u8> = Vec::new();
    for group in &groups {
        all.extend(&group.colors);
    }
    all.sort();
    let expected: Vec<u8> = (16..=231).collect();
    assert_eq!(all, expected);
}

#[test]
fn test_eight_groups() {
    let groups = build_hue_groups();
    assert_eq!(groups.len(), 8);
    let names: Vec<&str> = groups.iter().map(|g| g.name.as_str()).collect();
    assert!(names.contains(&"Reds"));
    assert!(names.contains(&"Blues"));
    assert!(names.contains(&"Greens"));
}

#[test]
fn test_rgb_hue_pure_red() {
    // Pure red (255, 0, 0) should be hue ~0
    let h = rgb_hue(255, 0, 0);
    assert!(h.is_some());
    assert!(h.unwrap() <= 15 || h.unwrap() >= 345);
}

#[test]
fn test_rgb_hue_pure_green() {
    let h = rgb_hue(0, 255, 0);
    assert!(h.is_some());
    assert!(h.unwrap() >= 100 && h.unwrap() <= 140);
}

#[test]
fn test_rgb_hue_gray_is_none() {
    assert!(rgb_hue(128, 128, 128).is_none());
    assert!(rgb_hue(0, 0, 0).is_none());
}

#[test]
fn test_rgb_to_hsl_pure_red() {
    let (h, s, l) = rgb_to_hsl(255, 0, 0);
    assert_eq!(h, 0);
    assert_eq!(s, 100);
    assert_eq!(l, 50);
}

#[test]
fn test_rgb_to_hsl_pure_green() {
    let (h, s, l) = rgb_to_hsl(0, 255, 0);
    assert_eq!(h, 120);
    assert_eq!(s, 100);
    assert_eq!(l, 50);
}

#[test]
fn test_rgb_to_hsl_pure_blue() {
    let (h, s, l) = rgb_to_hsl(0, 0, 255);
    assert_eq!(h, 240);
    assert_eq!(s, 100);
    assert_eq!(l, 50);
}

#[test]
fn test_rgb_to_hsl_white() {
    let (h, s, l) = rgb_to_hsl(255, 255, 255);
    assert_eq!(h, 0);
    assert_eq!(s, 0);
    assert_eq!(l, 100);
}

#[test]
fn test_rgb_to_hsl_black() {
    let (h, s, l) = rgb_to_hsl(0, 0, 0);
    assert_eq!(h, 0);
    assert_eq!(s, 0);
    assert_eq!(l, 0);
}

#[test]
fn test_hsl_to_rgb_pure_red() {
    assert_eq!(hsl_to_rgb(0, 100, 50), (255, 0, 0));
}

#[test]
fn test_hsl_to_rgb_pure_green() {
    assert_eq!(hsl_to_rgb(120, 100, 50), (0, 255, 0));
}

#[test]
fn test_hsl_to_rgb_gray() {
    let (r, g, b) = hsl_to_rgb(0, 0, 50);
    assert_eq!(r, g);
    assert_eq!(g, b);
    assert!((r as i16 - 128).abs() <= 1);
}

#[test]
fn test_hsl_roundtrip_pure_colors() {
    for &(r, g, b) in &[(255u8, 0, 0), (0, 255, 0), (0, 0, 255), (255, 255, 0), (0, 255, 255)] {
        let (h, s, l) = rgb_to_hsl(r, g, b);
        let (r2, g2, b2) = hsl_to_rgb(h, s, l);
        assert!(
            (r as i16 - r2 as i16).abs() <= 1,
            "R mismatch for ({},{},{}): got ({},{},{})",
            r,
            g,
            b,
            r2,
            g2,
            b2
        );
        assert!(
            (g as i16 - g2 as i16).abs() <= 1,
            "G mismatch for ({},{},{}): got ({},{},{})",
            r,
            g,
            b,
            r2,
            g2,
            b2
        );
        assert!(
            (b as i16 - b2 as i16).abs() <= 1,
            "B mismatch for ({},{},{}): got ({},{},{})",
            r,
            g,
            b,
            r2,
            g2,
            b2
        );
    }
}

#[test]
fn test_nearest_color_pure_red() {
    // Pure red (255, 0, 0) should map to index 196 (cube) or 9 (bright red)
    let c = nearest_color(255, 0, 0);
    assert!(c == 196 || c == 9, "Got {:?}", c);
}

#[test]
fn test_nearest_color_pure_green() {
    let c = nearest_color(0, 255, 0);
    assert!(c == 46 || c == 10, "Got {:?}", c);
}

#[test]
fn test_nearest_color_pure_blue() {
    let c = nearest_color(0, 0, 255);
    assert!(c == 21 || c == 12, "Got {:?}", c);
}

#[test]
fn test_nearest_color_black() {
    assert_eq!(nearest_color(0, 0, 0), 0);
}

#[test]
fn test_nearest_color_white() {
    let c = nearest_color(255, 255, 255);
    assert!(c == 15 || c == 231, "Got {:?}", c);
}
