//! Color math and palette organization: RGB/HSL conversion in exact integer
//! arithmetic, hue classification of the 216-color cube, nearest-palette
//! quantization, and the curated default palette.

use vstd::prelude::*;

use crate::cell::{spec_color256, spec_color_dist2, color256_to_rgb, nearest_256, Rgb};

verus! {

/// An item in the flattened palette layout: a color swatch or a section
/// header.
#[derive(Clone, Copy, PartialEq, Eq, Structural, Debug)]
pub enum PaletteItem {
    Color(u8),
    SectionHeader(PaletteSection),
}

/// Collapsible palette sections below the curated palette.
#[derive(Clone, Copy, PartialEq, Eq, Structural, Debug)]
pub enum PaletteSection {
    Standard,
    HueGroups,
    Grayscale,
}

/// A named, user-managed list of palette color indices.
#[derive(Clone, Debug)]
pub struct CustomPalette {
    pub name: String,
    pub colors: Vec<u8>,
}

/// A named group of hue-related color indices.
#[derive(Clone, Debug)]
pub struct HueGroup {
    pub name: String,
    pub colors: Vec<u8>,
}

/// The curated 24-color default palette: six neutrals, six warm, six cool,
/// and six accent colors.
pub open spec fn spec_default_palette() -> Seq<u8> {
    seq![
        0u8, 236u8, 244u8, 250u8, 255u8, 15u8,
        1u8, 196u8, 208u8, 214u8, 226u8, 229u8,
        22u8, 46u8, 30u8, 39u8, 21u8, 54u8,
        200u8, 213u8, 93u8, 180u8, 137u8, 94u8,
    ]
}

/// The curated default palette as a vector.
pub fn default_palette() -> (r: Vec<u8>)
    ensures
        r@ == spec_default_palette(),
{
    let mut v: Vec<u8> = Vec::new();
    v.push(0);
    v.push(236);
    v.push(244);
    v.push(250);
    v.push(255);
    v.push(15);
    v.push(1);
    v.push(196);
    v.push(208);
    v.push(214);
    v.push(226);
    v.push(229);
    v.push(22);
    v.push(46);
    v.push(30);
    v.push(39);
    v.push(21);
    v.push(54);
    v.push(200);
    v.push(213);
    v.push(93);
    v.push(180);
    v.push(137);
    v.push(94);
    proof {
        assert(v@ =~= spec_default_palette());
    }
    v
}

/// Largest channel value.
pub open spec fn spec_rgb_max(r: int, g: int, b: int) -> int {
    if r >= g && r >= b {
        r
    } else if g >= b {
        g
    } else {
        b
    }
}

/// Smallest channel value.
pub open spec fn spec_rgb_min(r: int, g: int, b: int) -> int {
    if r <= g && r <= b {
        r
    } else if g <= b {
        g
    } else {
        b
    }
}

/// The hue angle of a color, in degrees 0..359, or nothing for grays (all
/// channels equal). Computed by the standard piecewise formula, truncated to
/// a whole degree.
pub open spec fn spec_rgb_hue(r: int, g: int, b: int) -> Option<int> {
    let mx = spec_rgb_max(r, g, b);
    let mn = spec_rgb_min(r, g, b);
    let d = mx - mn;
    if d == 0 {
        None
    } else {
        let t = if mx == r {
            let t0 = 60 * (g - b);
            if t0 < 0 {
                t0 + 360 * d
            } else {
                t0
            }
        } else if mx == g {
            60 * (b - r) + 120 * d
        } else {
            60 * (r - g) + 240 * d
        };
        Some((t / d) % 360)
    }
}

/// Compute the hue angle (0..359) of a color, or nothing for grays.
pub fn rgb_hue(r: u8, g: u8, b: u8) -> (h: Option<u16>)
    ensures
        h is Some <==> spec_rgb_hue(r as int, g as int, b as int) is Some,
        h matches Some(v) ==> Some(v as int) == spec_rgb_hue(r as int, g as int, b as int),
{
    let mx = if r >= g && r >= b {
        r
    } else if g >= b {
        g
    } else {
        b
    };
    let mn = if r <= g && r <= b {
        r
    } else if g <= b {
        g
    } else {
        b
    };
    let d = (mx - mn) as i32;
    if d == 0 {
        return None;
    }
    let t: i32 = if mx == r {
        let t0 = 60 * (g as i32 - b as i32);
        if t0 < 0 {
            t0 + 360 * d
        } else {
            t0
        }
    } else if mx == g {
        60 * (b as i32 - r as i32) + 120 * d
    } else {
        60 * (r as i32 - g as i32) + 240 * d
    };
    let tu = t as u32;
    let du = d as u32;
    Some(((tu / du) % 360) as u16)
}

/// The lightness of a color on the 0..100 scale, rounded to the nearest
/// whole step.
pub open spec fn spec_hsl_l(r: int, g: int, b: int) -> int {
    let sum = spec_rgb_max(r, g, b) + spec_rgb_min(r, g, b);
    (100 * sum + 255) / 510
}

/// The saturation of a color on the 0..100 scale, rounded; zero for grays.
pub open spec fn spec_hsl_s(r: int, g: int, b: int) -> int {
    let mx = spec_rgb_max(r, g, b);
    let mn = spec_rgb_min(r, g, b);
    let d = mx - mn;
    if d == 0 {
        0
    } else {
        let den = if mx + mn <= 255 {
            mx + mn
        } else {
            510 - mx - mn
        };
        (200 * d + den) / (2 * den)
    }
}

/// The hue of a color for HSL conversion, rounded to the nearest degree and
/// wrapped to 0..359; zero for grays.
pub open spec fn spec_hsl_h(r: int, g: int, b: int) -> int {
    let mx = spec_rgb_max(r, g, b);
    let mn = spec_rgb_min(r, g, b);
    let d = mx - mn;
    if d == 0 {
        0
    } else {
        let t = if mx == r {
            let t0 = 60 * (g - b);
            if t0 < 0 {
                t0 + 360 * d
            } else {
                t0
            }
        } else if mx == g {
            60 * (b - r) + 120 * d
        } else {
            60 * (r - g) + 240 * d
        };
        ((2 * t + d) / (2 * d)) % 360
    }
}

/// Convert a color to HSL: hue in 0..359, saturation and lightness in
/// 0..100. Grays yield hue 0 and saturation 0.
pub fn rgb_to_hsl(r: u8, g: u8, b: u8) -> (hsl: (u16, u8, u8))
    ensures
        hsl.0 as int == spec_hsl_h(r as int, g as int, b as int),
        hsl.1 as int == spec_hsl_s(r as int, g as int, b as int),
        hsl.2 as int == spec_hsl_l(r as int, g as int, b as int),
        hsl.0 < 360,
        hsl.1 <= 100,
        hsl.2 <= 100,
{
    let mx = if r >= g && r >= b {
        r
    } else if g >= b {
        g
    } else {
        b
    };
    let mn = if r <= g && r <= b {
        r
    } else if g <= b {
        g
    } else {
        b
    };
    let sum = mx as u32 + mn as u32;
    let l = ((100 * sum + 255) / 510) as u8;
    proof {
        assert((100 * (sum as int) + 255) / 510 <= 100) by (nonlinear_arith)
            requires
                sum <= 510,
        ;
    }
    let d = (mx - mn) as u32;
    if d == 0 {
        return (0, 0, l);
    }
    let den = if sum <= 255 {
        sum
    } else {
        510 - sum
    };
    proof {
        assert(d <= den);
        assert((200 * (d as int) + den as int) / (2 * (den as int)) <= 100) by (nonlinear_arith)
            requires
                1 <= d <= den,
        ;
    }
    let s = ((200 * d + den) / (2 * den)) as u8;
    let t: i32 = if mx == r {
        let t0 = 60 * (g as i32 - b as i32);
        if t0 < 0 {
            t0 + 360 * d as i32
        } else {
            t0
        }
    } else if mx == g {
        60 * (b as i32 - r as i32) + 120 * d as i32
    } else {
        60 * (r as i32 - g as i32) + 240 * d as i32
    };
    let tu = t as u32;
    let h = (((2 * tu + d) / (2 * d)) % 360) as u16;
    (h, s, l)
}

/// The chroma numerator of an HSL color, on a 0..10000 scale.
pub open spec fn spec_hsl_chroma(s: int, l: int) -> int {
    let spread = if 2 * l - 100 >= 0 {
        2 * l - 100
    } else {
        100 - 2 * l
    };
    (100 - spread) * s
}

/// The secondary-component numerator, on a 0..600000 scale.
pub open spec fn spec_hsl_x_num(h: int, s: int, l: int) -> int {
    let t = (h % 360) % 120;
    let fold = if t - 60 >= 0 {
        t - 60
    } else {
        60 - t
    };
    spec_hsl_chroma(s, l) * (60 - fold)
}

/// One output channel of HSL conversion: `v` is the channel's numerator on
/// the 0..600000 scale (the chroma, the secondary component, or zero).
pub open spec fn spec_hsl_channel(v: int, s: int, l: int) -> int {
    let m = 6000 * l - 30 * spec_hsl_chroma(s, l);
    (510 * (v + m) + 600000) / 1200000
}

/// The RGB triple an HSL color converts to: grays from the lightness alone,
/// chromatic colors by sextant.
pub open spec fn spec_hsl_to_rgb(h: int, s: int, l: int) -> (int, int, int) {
    let s1 = if s <= 100 {
        s
    } else {
        100
    };
    let l1 = if l <= 100 {
        l
    } else {
        100
    };
    if s1 == 0 {
        let v = (510 * l1 + 100) / 200;
        (v, v, v)
    } else {
        let hh = h % 360;
        let c = 60 * spec_hsl_chroma(s1, l1);
        let x = spec_hsl_x_num(h, s1, l1);
        let (rv, gv, bv) = if hh < 60 {
            (c, x, 0int)
        } else if hh < 120 {
            (x, c, 0int)
        } else if hh < 180 {
            (0int, c, x)
        } else if hh < 240 {
            (0int, x, c)
        } else if hh < 300 {
            (x, 0int, c)
        } else {
            (c, 0int, x)
        };
        (
            spec_hsl_channel(rv, s1, l1),
            spec_hsl_channel(gv, s1, l1),
            spec_hsl_channel(bv, s1, l1),
        )
    }
}

fn hsl_channel(v: u64, s: u8, l: u8) -> (r: u8)
    requires
        s <= 100,
        l <= 100,
        v as int <= 60 * spec_hsl_chroma(s as int, l as int),
    ensures
        r as int == spec_hsl_channel(v as int, s as int, l as int),
{
    let spread: u64 = if 2 * (l as u64) >= 100 {
        2 * (l as u64) - 100
    } else {
        100 - 2 * (l as u64)
    };
    proof {
        assert((100 - spread as int) * (s as int) <= 10000) by (nonlinear_arith)
            requires
                spread <= 100,
                s <= 100,
        ;
        assert((100 - spread as int) * (s as int) >= 0) by (nonlinear_arith)
            requires
                spread <= 100,
                s <= 100,
        ;
    }
    let chroma: u64 = (100 - spread) * (s as u64);
    proof {
        assert(chroma == spec_hsl_chroma(s as int, l as int));
        assert(30 * (chroma as int) <= 6000 * (l as int)) by (nonlinear_arith)
            requires
                chroma == (100 - spread as int) * (s as int),
                spread == if 2 * (l as int) - 100 >= 0 {
                    2 * (l as int) - 100
                } else {
                    100 - 2 * (l as int)
                },
                s <= 100,
                l <= 100,
        ;
    }
    let m: u64 = 6000 * (l as u64) - 30 * chroma;
    proof {
        assert(v + m <= 600000) by (nonlinear_arith)
            requires
                v as int <= 60 * (chroma as int),
                m == 6000 * (l as int) - 30 * (chroma as int),
                chroma == (100 - spread as int) * (s as int),
                spread == if 2 * (l as int) - 100 >= 0 {
                    2 * (l as int) - 100
                } else {
                    100 - 2 * (l as int)
                },
                0 <= s <= 100,
                0 <= l <= 100,
        ;
    }
    let out = (510 * (v + m) + 600000) / 1200000;
    proof {
        assert(out <= 255) by (nonlinear_arith)
            requires
                out == (510 * (v as int + m as int) + 600000) / 1200000,
                v + m <= 600000,
        ;
    }
    out as u8
}

/// Convert an HSL color (hue 0..359, saturation and lightness 0..100,
/// clamped) to RGB.
pub fn hsl_to_rgb(h: u16, s: u8, l: u8) -> (rgb: (u8, u8, u8))
    ensures
        (rgb.0 as int, rgb.1 as int, rgb.2 as int) == spec_hsl_to_rgb(
            h as int,
            s as int,
            l as int,
        ),
{
    let s1 = if s <= 100 {
        s
    } else {
        100
    };
    let l1 = if l <= 100 {
        l
    } else {
        100
    };
    if s1 == 0 {
        let v = ((510 * (l1 as u32) + 100) / 200) as u8;
        return (v, v, v);
    }
    let hh = h % 360;
    let spread: u64 = if 2 * (l1 as u64) >= 100 {
        2 * (l1 as u64) - 100
    } else {
        100 - 2 * (l1 as u64)
    };
    proof {
        assert(0 <= (100 - spread as int) * (s1 as int) <= 10000) by (nonlinear_arith)
            requires
                spread <= 100,
                0 <= s1 <= 100,
        ;
    }
    let chroma: u64 = (100 - spread) * (s1 as u64);
    proof {
        assert(chroma == spec_hsl_chroma(s1 as int, l1 as int));
    }
    let c: u64 = 60 * chroma;
    let t: u64 = (hh % 120) as u64;
    let fold: u64 = if t >= 60 {
        t - 60
    } else {
        60 - t
    };
    proof {
        assert(0 <= (chroma as int) * (60 - fold as int) <= 60 * (chroma as int))
            by (nonlinear_arith)
            requires
                chroma <= 10000,
                fold <= 60,
        ;
    }
    let x: u64 = chroma * (60 - fold);
    proof {
        assert(x == spec_hsl_x_num(h as int, s1 as int, l1 as int));
    }
    let (rv, gv, bv): (u64, u64, u64) = if hh < 60 {
        (c, x, 0)
    } else if hh < 120 {
        (x, c, 0)
    } else if hh < 180 {
        (0, c, x)
    } else if hh < 240 {
        (0, x, c)
    } else if hh < 300 {
        (x, 0, c)
    } else {
        (c, 0, x)
    };
    (hsl_channel(rv, s1, l1), hsl_channel(gv, s1, l1), hsl_channel(bv, s1, l1))
}

/// The hue group (0..7: reds, oranges, yellows, greens, cyans, blues,
/// purples, pinks) of a chromatic hue angle.
pub open spec fn spec_hue_group_of(h: int) -> int {
    if h <= 14 || h >= 346 {
        0
    } else if h <= 39 {
        1
    } else if h <= 69 {
        2
    } else if h <= 159 {
        3
    } else if h <= 199 {
        4
    } else if h <= 259 {
        5
    } else if h <= 299 {
        6
    } else {
        7
    }
}

/// Whether a cube index belongs to a hue group: grays collect separately
/// from the chromatic groups.
pub open spec fn spec_cube_in_group(idx: int, group: int, gray: bool) -> bool {
    let c = spec_color256(idx);
    match spec_rgb_hue(c.r as int, c.g as int, c.b as int) {
        Some(h) => !gray && spec_hue_group_of(h) == group,
        None => gray,
    }
}

/// The cube indices below `upto` that belong to a group, in ascending order.
pub open spec fn spec_cube_collect(upto: int, group: int, gray: bool) -> Seq<u8>
    decreases upto,
{
    if upto <= 16 {
        Seq::empty()
    } else {
        let prev = spec_cube_collect(upto - 1, group, gray);
        if spec_cube_in_group(upto - 1, group, gray) {
            prev.push((upto - 1) as u8)
        } else {
            prev
        }
    }
}

/// Organize the 216-entry color cube (indices 16 through 231) into eight hue
/// groups. Chromatic indices go to the group their hue angle selects; grays
/// within the cube are appended to the reds group, after its chromatic
/// members. Every cube index lands in exactly one group.
pub fn build_hue_groups() -> (r: Vec<HueGroup>)
    ensures
        r@.len() == 8,
        r@[0].name@ == "Reds"@,
        r@[1].name@ == "Oranges"@,
        r@[2].name@ == "Yellows"@,
        r@[3].name@ == "Greens"@,
        r@[4].name@ == "Cyans"@,
        r@[5].name@ == "Blues"@,
        r@[6].name@ == "Purples"@,
        r@[7].name@ == "Pinks"@,
        r@[0].colors@ == spec_cube_collect(232, 0, false) + spec_cube_collect(232, 0, true),
        forall|g: int| 1 <= g < 8 ==> (#[trigger] r@[g]).colors@ == spec_cube_collect(232, g, false),
{
    let mut reds: Vec<u8> = Vec::new();
    let mut oranges: Vec<u8> = Vec::new();
    let mut yellows: Vec<u8> = Vec::new();
    let mut greens: Vec<u8> = Vec::new();
    let mut cyans: Vec<u8> = Vec::new();
    let mut blues: Vec<u8> = Vec::new();
    let mut purples: Vec<u8> = Vec::new();
    let mut pinks: Vec<u8> = Vec::new();
    let mut neutrals: Vec<u8> = Vec::new();
    let mut idx: usize = 16;
    while idx < 232
        invariant
            16 <= idx <= 232,
            reds@ == spec_cube_collect(idx as int, 0, false),
            oranges@ == spec_cube_collect(idx as int, 1, false),
            yellows@ == spec_cube_collect(idx as int, 2, false),
            greens@ == spec_cube_collect(idx as int, 3, false),
            cyans@ == spec_cube_collect(idx as int, 4, false),
            blues@ == spec_cube_collect(idx as int, 5, false),
            purples@ == spec_cube_collect(idx as int, 6, false),
            pinks@ == spec_cube_collect(idx as int, 7, false),
            neutrals@ == spec_cube_collect(idx as int, 0, true),
        decreases 232 - idx,
    {
        let c = color256_to_rgb(idx as u8);
        match rgb_hue(c.r, c.g, c.b) {
            Some(h) => {
                if h <= 14 || h >= 346 {
                    reds.push(idx as u8);
                } else if h <= 39 {
                    oranges.push(idx as u8);
                } else if h <= 69 {
                    yellows.push(idx as u8);
                } else if h <= 159 {
                    greens.push(idx as u8);
                } else if h <= 199 {
                    cyans.push(idx as u8);
                } else if h <= 259 {
                    blues.push(idx as u8);
                } else if h <= 299 {
                    purples.push(idx as u8);
                } else {
                    pinks.push(idx as u8);
                }
            },
            None => {
                neutrals.push(idx as u8);
            },
        }
        idx += 1;
    }
    let mut red_all = reds;
    red_all.append(&mut neutrals);
    let mut r: Vec<HueGroup> = Vec::new();
    r.push(HueGroup { name: "Reds".to_owned(), colors: red_all });
    r.push(HueGroup { name: "Oranges".to_owned(), colors: oranges });
    r.push(HueGroup { name: "Yellows".to_owned(), colors: yellows });
    r.push(HueGroup { name: "Greens".to_owned(), colors: greens });
    r.push(HueGroup { name: "Cyans".to_owned(), colors: cyans });
    r.push(HueGroup { name: "Blues".to_owned(), colors: blues });
    r.push(HueGroup { name: "Purples".to_owned(), colors: purples });
    r.push(HueGroup { name: "Pinks".to_owned(), colors: pinks });
    r
}

/// Find the nearest xterm-256 palette index for an RGB triple by squared
/// Euclidean distance; ties go to the lowest index.
pub fn nearest_color(r: u8, g: u8, b: u8) -> (best: u8)
    ensures
        forall|j: int|
            0 <= j < 256 ==> spec_color_dist2(Rgb { r, g, b }, spec_color256(best as int))
                < spec_color_dist2(Rgb { r, g, b }, #[trigger] spec_color256(j)) || (
            spec_color_dist2(Rgb { r, g, b }, spec_color256(best as int)) == spec_color_dist2(
                Rgb { r, g, b },
                spec_color256(j),
            ) && best <= j),
{
    nearest_256(&Rgb { r, g, b })
}

} // verus!
