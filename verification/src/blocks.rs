//! The fixed, closed set of drawable block glyphs (U+2580..U+259F), plus the
//! empty glyph. Half blocks split a terminal cell into two colored halves.

use vstd::prelude::*;

verus! {

/// Full block.
pub const FULL: char = '\u{2588}';

/// Upper half block: canonical vertical form (fg = top half, bg = bottom half).
pub const UPPER_HALF: char = '\u{2580}';

/// Lower half block: non-canonical vertical form (fg = bottom, bg = top).
pub const LOWER_HALF: char = '\u{2584}';

/// Left half block: canonical horizontal form (fg = left, bg = right).
pub const LEFT_HALF: char = '\u{258C}';

/// Right half block: non-canonical horizontal form (fg = right, bg = left).
pub const RIGHT_HALF: char = '\u{2590}';

/// Lower fractional fills (one-eighth steps, bottom-up).
pub const LOWER_1_8: char = '\u{2581}';

pub const LOWER_1_4: char = '\u{2582}';

pub const LOWER_3_8: char = '\u{2583}';

pub const LOWER_5_8: char = '\u{2585}';

pub const LOWER_3_4: char = '\u{2586}';

pub const LOWER_7_8: char = '\u{2587}';

/// Left fractional fills (decreasing width).
pub const LEFT_7_8: char = '\u{2589}';

pub const LEFT_3_4: char = '\u{258A}';

pub const LEFT_5_8: char = '\u{258B}';

pub const LEFT_3_8: char = '\u{258D}';

pub const LEFT_1_4: char = '\u{258E}';

pub const LEFT_1_8: char = '\u{258F}';

/// Shade stipple glyphs.
pub const SHADE_LIGHT: char = '\u{2591}';

pub const SHADE_MEDIUM: char = '\u{2592}';

pub const SHADE_DARK: char = '\u{2593}';

/// The primary block cycle, in cycling order.
pub open spec fn spec_primary() -> Seq<char> {
    seq![FULL, UPPER_HALF, LOWER_HALF, LEFT_HALF, RIGHT_HALF]
}

/// The shade cycle, in cycling order.
pub open spec fn spec_shades() -> Seq<char> {
    seq![SHADE_LIGHT, SHADE_MEDIUM, SHADE_DARK]
}

/// The vertical fractional fills, bottom-up.
pub open spec fn spec_vertical_fills() -> Seq<char> {
    seq![LOWER_1_8, LOWER_1_4, LOWER_3_8, LOWER_5_8, LOWER_3_4, LOWER_7_8]
}

/// The horizontal fractional fills, decreasing width.
pub open spec fn spec_horizontal_fills() -> Seq<char> {
    seq![LEFT_7_8, LEFT_3_4, LEFT_5_8, LEFT_3_8, LEFT_1_4, LEFT_1_8]
}

/// Every drawable block in picker order: the five primary blocks, the three
/// shades, the six vertical fills, then the six horizontal fills.
pub open spec fn spec_all_blocks() -> Seq<char> {
    seq![
        FULL, UPPER_HALF, LOWER_HALF, LEFT_HALF, RIGHT_HALF,
        SHADE_LIGHT, SHADE_MEDIUM, SHADE_DARK,
        LOWER_1_8, LOWER_1_4, LOWER_3_8, LOWER_5_8, LOWER_3_4, LOWER_7_8,
        LEFT_7_8, LEFT_3_4, LEFT_5_8, LEFT_3_8, LEFT_1_4, LEFT_1_8,
    ]
}

/// Primary block cycle as a vector.
pub fn primary_blocks() -> (r: Vec<char>)
    ensures
        r@ == spec_primary(),
{
    let mut v: Vec<char> = Vec::new();
    v.push(FULL);
    v.push(UPPER_HALF);
    v.push(LOWER_HALF);
    v.push(LEFT_HALF);
    v.push(RIGHT_HALF);
    proof {
        assert(v@ =~= spec_primary());
    }
    v
}

/// Shade cycle as a vector.
pub fn shade_blocks() -> (r: Vec<char>)
    ensures
        r@ == spec_shades(),
{
    let mut v: Vec<char> = Vec::new();
    v.push(SHADE_LIGHT);
    v.push(SHADE_MEDIUM);
    v.push(SHADE_DARK);
    proof {
        assert(v@ =~= spec_shades());
    }
    v
}

/// All drawable blocks in picker order.
pub fn all_blocks() -> (r: Vec<char>)
    ensures
        r@ == spec_all_blocks(),
{
    let mut v: Vec<char> = Vec::new();
    v.push(FULL);
    v.push(UPPER_HALF);
    v.push(LOWER_HALF);
    v.push(LEFT_HALF);
    v.push(RIGHT_HALF);
    v.push(SHADE_LIGHT);
    v.push(SHADE_MEDIUM);
    v.push(SHADE_DARK);
    v.push(LOWER_1_8);
    v.push(LOWER_1_4);
    v.push(LOWER_3_8);
    v.push(LOWER_5_8);
    v.push(LOWER_3_4);
    v.push(LOWER_7_8);
    v.push(LEFT_7_8);
    v.push(LEFT_3_4);
    v.push(LEFT_5_8);
    v.push(LEFT_3_8);
    v.push(LEFT_1_4);
    v.push(LEFT_1_8);
    proof {
        assert(v@ =~= spec_all_blocks());
    }
    v
}

/// Vertical fractional fills as a vector.
pub fn vertical_fill_blocks() -> (r: Vec<char>)
    ensures
        r@ == spec_vertical_fills(),
{
    let mut v: Vec<char> = Vec::new();
    v.push(LOWER_1_8);
    v.push(LOWER_1_4);
    v.push(LOWER_3_8);
    v.push(LOWER_5_8);
    v.push(LOWER_3_4);
    v.push(LOWER_7_8);
    proof {
        assert(v@ =~= spec_vertical_fills());
    }
    v
}

/// Horizontal fractional fills as a vector.
pub fn horizontal_fill_blocks() -> (r: Vec<char>)
    ensures
        r@ == spec_horizontal_fills(),
{
    let mut v: Vec<char> = Vec::new();
    v.push(LEFT_7_8);
    v.push(LEFT_3_4);
    v.push(LEFT_5_8);
    v.push(LEFT_3_8);
    v.push(LEFT_1_4);
    v.push(LEFT_1_8);
    proof {
        assert(v@ =~= spec_horizontal_fills());
    }
    v
}

/// Sizes of the four picker categories: primary, shades, vertical fills,
/// horizontal fills.
pub fn category_sizes() -> (r: Vec<usize>)
    ensures
        r@ == seq![5usize, 3usize, 6usize, 6usize],
{
    let mut v: Vec<usize> = Vec::new();
    v.push(5);
    v.push(3);
    v.push(6);
    v.push(6);
    proof {
        assert(v@ =~= seq![5usize, 3usize, 6usize, 6usize]);
    }
    v
}

} // verus!
