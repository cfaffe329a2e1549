//! The per-position drawable unit: a glyph plus optional foreground and
//! background colors, half-block transparency resolution, hex color parsing,
//! and quantization to the 256-entry terminal palette.

use vstd::prelude::*;

use crate::blocks;
use crate::text::chars_to_string;

verus! {

/// True-color RGB value, 8 bits per channel.
#[derive(Clone, Copy, PartialEq, Eq, Structural, Debug)]
pub struct Rgb {
    pub r: u8,
    pub g: u8,
    pub b: u8,
}

/// The default foreground color: the conventional terminal white.
pub open spec fn spec_white() -> Rgb {
    Rgb { r: 229, g: 229, b: 229 }
}

impl Rgb {
    pub fn new(r: u8, g: u8, b: u8) -> (c: Self)
        ensures
            c == (Rgb { r, g, b }),
    {
        Rgb { r, g, b }
    }

    /// The default foreground color (conventional terminal white).
    pub fn white() -> (c: Self)
        ensures
            c == spec_white(),
    {
        Rgb { r: 229, g: 229, b: 229 }
    }

    /// Pure black.
    pub fn black() -> (c: Self)
        ensures
            c == (Rgb { r: 0, g: 0, b: 0 }),
    {
        Rgb { r: 0, g: 0, b: 0 }
    }

    /// Human-readable name: the hex form "#RRGGBB" in upper case.
    pub fn name(self) -> (s: String)
        ensures
            s@ == spec_rgb_name(self),
    {
        let mut chars: Vec<char> = Vec::new();
        chars.push('#');
        chars.push(hex_upper_char((self.r / 16) as usize));
        chars.push(hex_upper_char((self.r % 16) as usize));
        chars.push(hex_upper_char((self.g / 16) as usize));
        chars.push(hex_upper_char((self.g % 16) as usize));
        chars.push(hex_upper_char((self.b / 16) as usize));
        chars.push(hex_upper_char((self.b % 16) as usize));
        proof {
            assert(chars@ =~= spec_rgb_name(self));
        }
        chars_to_string(&chars)
    }
}

/// Upper-case hex digit for a value below 16.
pub open spec fn spec_hex_upper(v: int) -> char {
    if v == 0 { '0' } else if v == 1 { '1' } else if v == 2 { '2' } else if v == 3 { '3' }
    else if v == 4 { '4' } else if v == 5 { '5' } else if v == 6 { '6' } else if v == 7 { '7' }
    else if v == 8 { '8' } else if v == 9 { '9' } else if v == 10 { 'A' } else if v == 11 { 'B' }
    else if v == 12 { 'C' } else if v == 13 { 'D' } else if v == 14 { 'E' } else { 'F' }
}

/// Two upper-case hex digits of a byte.
pub open spec fn spec_hex_byte_chars(v: int) -> Seq<char> {
    seq![spec_hex_upper(v / 16), spec_hex_upper(v % 16)]
}

/// The name of a color: '#' followed by six upper-case hex digits.
pub open spec fn spec_rgb_name(c: Rgb) -> Seq<char> {
    seq!['#'] + spec_hex_byte_chars(c.r as int) + spec_hex_byte_chars(c.g as int)
        + spec_hex_byte_chars(c.b as int)
}

fn hex_upper_char(v: usize) -> (c: char)
    requires
        v < 16,
    ensures
        c == spec_hex_upper(v as int),
{
    match v {
        0 => '0',
        1 => '1',
        2 => '2',
        3 => '3',
        4 => '4',
        5 => '5',
        6 => '6',
        7 => '7',
        8 => '8',
        9 => '9',
        10 => 'A',
        11 => 'B',
        12 => 'C',
        13 => 'D',
        14 => 'E',
        _ => 'F',
    }
}

/// Conventional RGB value of one of the 16 standard terminal colors.
pub open spec fn spec_ansi16(i: int) -> Rgb {
    if i == 0 { Rgb { r: 0, g: 0, b: 0 } }
    else if i == 1 { Rgb { r: 205, g: 0, b: 0 } }
    else if i == 2 { Rgb { r: 0, g: 205, b: 0 } }
    else if i == 3 { Rgb { r: 205, g: 205, b: 0 } }
    else if i == 4 { Rgb { r: 0, g: 0, b: 238 } }
    else if i == 5 { Rgb { r: 205, g: 0, b: 205 } }
    else if i == 6 { Rgb { r: 0, g: 205, b: 205 } }
    else if i == 7 { Rgb { r: 229, g: 229, b: 229 } }
    else if i == 8 { Rgb { r: 127, g: 127, b: 127 } }
    else if i == 9 { Rgb { r: 255, g: 0, b: 0 } }
    else if i == 10 { Rgb { r: 0, g: 255, b: 0 } }
    else if i == 11 { Rgb { r: 255, g: 255, b: 0 } }
    else if i == 12 { Rgb { r: 92, g: 92, b: 255 } }
    else if i == 13 { Rgb { r: 255, g: 0, b: 255 } }
    else if i == 14 { Rgb { r: 0, g: 255, b: 255 } }
    else { Rgb { r: 255, g: 255, b: 255 } }
}

/// Channel value of a color-cube coordinate: 0 maps to 0, each further step
/// to 55 + 40 times the coordinate.
pub open spec fn spec_cube_channel(v: int) -> int {
    if v == 0 { 0 } else { 55 + 40 * v }
}

/// RGB value of an xterm-256 palette index: 16 standard colors, then the
/// 6x6x6 color cube, then the 24-step grayscale ramp.
pub open spec fn spec_color256(idx: int) -> Rgb {
    if idx < 16 {
        spec_ansi16(idx)
    } else if idx < 232 {
        let i = idx - 16;
        Rgb {
            r: spec_cube_channel(i / 36) as u8,
            g: spec_cube_channel((i % 36) / 6) as u8,
            b: spec_cube_channel(i % 6) as u8,
        }
    } else {
        let gray = 8 + 10 * (idx - 232);
        Rgb { r: gray as u8, g: gray as u8, b: gray as u8 }
    }
}

/// Convert one of the 16 standard color indices to its RGB value.
fn ansi16_rgb(i: u8) -> (c: Rgb)
    requires
        i < 16,
    ensures
        c == spec_ansi16(i as int),
{
    if i == 0 { Rgb { r: 0, g: 0, b: 0 } }
    else if i == 1 { Rgb { r: 205, g: 0, b: 0 } }
    else if i == 2 { Rgb { r: 0, g: 205, b: 0 } }
    else if i == 3 { Rgb { r: 205, g: 205, b: 0 } }
    else if i == 4 { Rgb { r: 0, g: 0, b: 238 } }
    else if i == 5 { Rgb { r: 205, g: 0, b: 205 } }
    else if i == 6 { Rgb { r: 0, g: 205, b: 205 } }
    else if i == 7 { Rgb { r: 229, g: 229, b: 229 } }
    else if i == 8 { Rgb { r: 127, g: 127, b: 127 } }
    else if i == 9 { Rgb { r: 255, g: 0, b: 0 } }
    else if i == 10 { Rgb { r: 0, g: 255, b: 0 } }
    else if i == 11 { Rgb { r: 255, g: 255, b: 0 } }
    else if i == 12 { Rgb { r: 92, g: 92, b: 255 } }
    else if i == 13 { Rgb { r: 255, g: 0, b: 255 } }
    else if i == 14 { Rgb { r: 0, g: 255, b: 255 } }
    else { Rgb { r: 255, g: 255, b: 255 } }
}

/// Convert an xterm-256 color index to its RGB value.
pub fn color256_to_rgb(idx: u8) -> (c: Rgb)
    ensures
        c == spec_color256(idx as int),
{
    if idx < 16 {
        ansi16_rgb(idx)
    } else if idx < 232 {
        let i = idx - 16;
        let rq = i / 36;
        let gq = (i % 36) / 6;
        let bq = i % 6;
        let r = if rq == 0 { 0 } else { 55 + 40 * rq };
        let g = if gq == 0 { 0 } else { 55 + 40 * gq };
        let b = if bq == 0 { 0 } else { 55 + 40 * bq };
        Rgb { r, g, b }
    } else {
        let gray = 8 + 10 * (idx - 232);
        Rgb { r: gray, g: gray, b: gray }
    }
}

/// Squared Euclidean distance between two colors.
pub open spec fn spec_color_dist2(a: Rgb, b: Rgb) -> int {
    (a.r - b.r) * (a.r - b.r) + (a.g - b.g) * (a.g - b.g) + (a.b - b.b) * (a.b - b.b)
}

fn color_dist2(a: &Rgb, b: &Rgb) -> (d: u32)
    ensures
        d == spec_color_dist2(*a, *b),
{
    let dr = a.r as i32 - b.r as i32;
    let dg = a.g as i32 - b.g as i32;
    let db = a.b as i32 - b.b as i32;
    proof {
        assert(0 <= dr * dr <= 65025 && 0 <= dg * dg <= 65025 && 0 <= db * db <= 65025)
            by (nonlinear_arith)
            requires
                -255 <= dr <= 255,
                -255 <= dg <= 255,
                -255 <= db <= 255,
        ;
    }
    (dr * dr + dg * dg + db * db) as u32
}

/// The best palette index among those below `upto`: smallest squared
/// distance, ties to the lowest index.
pub open spec fn spec_best256(c: Rgb, upto: int) -> int
    decreases upto,
{
    if upto <= 1 {
        0
    } else {
        let prev = spec_best256(c, upto - 1);
        if spec_color_dist2(c, spec_color256(upto - 1)) < spec_color_dist2(
            c,
            spec_color256(prev),
        ) {
            upto - 1
        } else {
            prev
        }
    }
}

/// The nearest xterm-256 palette index of a color.
pub open spec fn spec_nearest256(c: Rgb) -> int {
    spec_best256(c, 256)
}

/// Find the nearest xterm-256 color index by squared Euclidean distance.
/// Ties go to the lowest index.
pub fn nearest_256(color: &Rgb) -> (best: u8)
    ensures
        best as int == spec_nearest256(*color),
        forall|j: int|
            0 <= j < 256 ==> spec_color_dist2(*color, spec_color256(best as int))
                < spec_color_dist2(*color, #[trigger] spec_color256(j)) || (spec_color_dist2(
                *color,
                spec_color256(best as int),
            ) == spec_color_dist2(*color, spec_color256(j)) && best <= j),
{
    let mut best_idx: u8 = 0;
    let mut best_dist: u32 = color_dist2(color, &color256_to_rgb(0));
    let mut i: usize = 1;
    while i < 256
        invariant
            1 <= i <= 256,
            best_idx < i,
            best_idx as int == spec_best256(*color, i as int),
            best_dist == spec_color_dist2(*color, spec_color256(best_idx as int)),
            forall|j: int|
                0 <= j < i ==> best_dist < spec_color_dist2(*color, #[trigger] spec_color256(j))
                    || (best_dist == spec_color_dist2(*color, spec_color256(j)) && best_idx <= j),
        decreases 256 - i,
    {
        let c = color256_to_rgb(i as u8);
        let dist = color_dist2(color, &c);
        if dist < best_dist {
            best_dist = dist;
            best_idx = i as u8;
        }
        i += 1;
    }
    best_idx
}

/// A drawable cell: a glyph with optional foreground and background colors.
/// A cell is empty exactly when its glyph is the space character.
#[derive(Clone, Copy, PartialEq, Eq, Structural, Debug)]
pub struct Cell {
    pub ch: char,
    pub fg: Option<Rgb>,
    pub bg: Option<Rgb>,
}

/// The default cell: space glyph, white foreground, transparent background.
pub open spec fn spec_default_cell() -> Cell {
    Cell { ch: ' ', fg: Some(spec_white()), bg: None }
}

impl Cell {
    /// A cell is empty iff its glyph is the space character.
    pub fn is_empty(&self) -> (r: bool)
        ensures
            r == (self.ch == ' '),
    {
        self.ch == ' '
    }
}

impl Default for Cell {
    fn default() -> (c: Self)
        ensures
            c == spec_default_cell(),
    {
        Cell { ch: ' ', fg: Some(Rgb::white()), bg: None }
    }
}

/// Whether a glyph splits the cell into top and bottom halves.
pub open spec fn spec_is_vertical_half(ch: char) -> bool {
    ch == blocks::UPPER_HALF || ch == blocks::LOWER_HALF
}

/// Whether a glyph splits the cell into left and right halves.
pub open spec fn spec_is_horizontal_half(ch: char) -> bool {
    ch == blocks::LEFT_HALF || ch == blocks::RIGHT_HALF
}

/// Whether a glyph is one of the four half blocks.
pub open spec fn spec_is_half_block(ch: char) -> bool {
    spec_is_vertical_half(ch) || spec_is_horizontal_half(ch)
}

pub fn is_vertical_half(ch: char) -> (r: bool)
    ensures
        r == spec_is_vertical_half(ch),
{
    ch == blocks::UPPER_HALF || ch == blocks::LOWER_HALF
}

pub fn is_horizontal_half(ch: char) -> (r: bool)
    ensures
        r == spec_is_horizontal_half(ch),
{
    ch == blocks::LEFT_HALF || ch == blocks::RIGHT_HALF
}

pub fn is_half_block(ch: char) -> (r: bool)
    ensures
        r == spec_is_half_block(ch),
{
    is_vertical_half(ch) || is_horizontal_half(ch)
}

/// Result of resolving a half-block cell's transparency. `fg` and `bg` are
/// `None` where that half is transparent.
#[derive(Clone, Copy, PartialEq, Eq, Structural, Debug)]
pub struct ResolvedHalfBlock {
    pub ch: char,
    pub fg: Option<Rgb>,
    pub bg: Option<Rgb>,
}

/// Transparency resolution of a normalized (primary, secondary) color pair:
/// both opaque keeps the canonical glyph with both colors; a transparent
/// primary flips the glyph to show only the secondary; both transparent
/// yields the empty glyph.
pub open spec fn spec_resolve_pair(
    primary: Option<Rgb>,
    secondary: Option<Rgb>,
    normal_ch: char,
    flipped_ch: char,
) -> ResolvedHalfBlock {
    match (primary, secondary) {
        (Option::None, Option::None) => ResolvedHalfBlock { ch: ' ', fg: None, bg: None },
        (Option::Some(_), Option::None) => ResolvedHalfBlock {
            ch: normal_ch,
            fg: primary,
            bg: None,
        },
        (Option::None, Option::Some(_)) => ResolvedHalfBlock {
            ch: flipped_ch,
            fg: secondary,
            bg: None,
        },
        (Option::Some(_), Option::Some(_)) => ResolvedHalfBlock {
            ch: normal_ch,
            fg: primary,
            bg: secondary,
        },
    }
}

/// Canonical resolution of a cell: `None` for non-half-block glyphs; for half
/// blocks, the lower and right orientations are first normalized to the
/// upper/left canonical form by swapping which color is primary.
pub open spec fn spec_resolve_half_block(cell: Cell) -> Option<ResolvedHalfBlock> {
    if cell.ch == blocks::UPPER_HALF {
        Some(spec_resolve_pair(cell.fg, cell.bg, blocks::UPPER_HALF, blocks::LOWER_HALF))
    } else if cell.ch == blocks::LOWER_HALF {
        Some(spec_resolve_pair(cell.bg, cell.fg, blocks::UPPER_HALF, blocks::LOWER_HALF))
    } else if cell.ch == blocks::LEFT_HALF {
        Some(spec_resolve_pair(cell.fg, cell.bg, blocks::LEFT_HALF, blocks::RIGHT_HALF))
    } else if cell.ch == blocks::RIGHT_HALF {
        Some(spec_resolve_pair(cell.bg, cell.fg, blocks::LEFT_HALF, blocks::RIGHT_HALF))
    } else {
        None
    }
}

/// Resolve a half-block cell into its canonical (glyph, fg, bg) form,
/// flipping the glyph when the primary half is transparent. Returns `None`
/// if the cell's glyph is not a half block. Resolution is derived only; the
/// stored cell keeps its original orientation.
pub fn resolve_half_block(cell: &Cell) -> (r: Option<ResolvedHalfBlock>)
    ensures
        r == spec_resolve_half_block(*cell),
{
    if !is_half_block(cell.ch) {
        return None;
    }
    let (primary, secondary, normal_ch, flipped_ch) = if cell.ch == blocks::UPPER_HALF {
        (cell.fg, cell.bg, blocks::UPPER_HALF, blocks::LOWER_HALF)
    } else if cell.ch == blocks::LOWER_HALF {
        (cell.bg, cell.fg, blocks::UPPER_HALF, blocks::LOWER_HALF)
    } else if cell.ch == blocks::LEFT_HALF {
        (cell.fg, cell.bg, blocks::LEFT_HALF, blocks::RIGHT_HALF)
    } else {
        (cell.bg, cell.fg, blocks::LEFT_HALF, blocks::RIGHT_HALF)
    };
    let resolved = match (primary, secondary) {
        (None, None) => ResolvedHalfBlock { ch: ' ', fg: None, bg: None },
        (Some(_), None) => ResolvedHalfBlock { ch: normal_ch, fg: primary, bg: None },
        (None, Some(_)) => ResolvedHalfBlock { ch: flipped_ch, fg: secondary, bg: None },
        (Some(_), Some(_)) => ResolvedHalfBlock { ch: normal_ch, fg: primary, bg: secondary },
    };
    Some(resolved)
}

/// Resolution is idempotent: resolving the cell built from a resolved half
/// block yields that same resolution again.
pub proof fn lemma_resolve_idempotent(cell: Cell, res: ResolvedHalfBlock)
    requires
        spec_resolve_half_block(cell) == Some(res),
        spec_is_half_block(res.ch),
    ensures
        spec_resolve_half_block(Cell { ch: res.ch, fg: res.fg, bg: res.bg }) == Some(res),
{
}

/// Cycle to the next block in the primary set; any glyph outside the set
/// starts the cycle at the full block.
pub open spec fn spec_next_primary(ch: char) -> char {
    if ch == blocks::FULL {
        blocks::UPPER_HALF
    } else if ch == blocks::UPPER_HALF {
        blocks::LOWER_HALF
    } else if ch == blocks::LOWER_HALF {
        blocks::LEFT_HALF
    } else if ch == blocks::LEFT_HALF {
        blocks::RIGHT_HALF
    } else if ch == blocks::RIGHT_HALF {
        blocks::FULL
    } else {
        blocks::FULL
    }
}

pub fn next_primary(ch: char) -> (r: char)
    ensures
        r == spec_next_primary(ch),
{
    if ch == blocks::FULL {
        blocks::UPPER_HALF
    } else if ch == blocks::UPPER_HALF {
        blocks::LOWER_HALF
    } else if ch == blocks::LOWER_HALF {
        blocks::LEFT_HALF
    } else if ch == blocks::LEFT_HALF {
        blocks::RIGHT_HALF
    } else {
        blocks::FULL
    }
}

/// Cycle to the next shade glyph; any glyph outside the set starts the cycle
/// at the light shade.
pub open spec fn spec_next_shade(ch: char) -> char {
    if ch == blocks::SHADE_LIGHT {
        blocks::SHADE_MEDIUM
    } else if ch == blocks::SHADE_MEDIUM {
        blocks::SHADE_DARK
    } else if ch == blocks::SHADE_DARK {
        blocks::SHADE_LIGHT
    } else {
        blocks::SHADE_LIGHT
    }
}

pub fn next_shade(ch: char) -> (r: char)
    ensures
        r == spec_next_shade(ch),
{
    if ch == blocks::SHADE_LIGHT {
        blocks::SHADE_MEDIUM
    } else if ch == blocks::SHADE_MEDIUM {
        blocks::SHADE_DARK
    } else {
        blocks::SHADE_LIGHT
    }
}

/// Whether a character is a hex digit, either case.
pub open spec fn spec_is_hex_digit(c: char) -> bool {
    (48 <= c as u32 && c as u32 <= 57)  // '0'..'9'
    || (97 <= c as u32 && c as u32 <= 102)  // 'a'..'f'
    || (65 <= c as u32 && c as u32 <= 70)  // 'A'..'F'
}

/// Numeric value of a hex digit.
pub open spec fn spec_hex_value(c: char) -> int {
    if 48 <= c as u32 && c as u32 <= 57 {
        c as u32 - 48
    } else if 97 <= c as u32 && c as u32 <= 102 {
        c as u32 - 97 + 10
    } else {
        c as u32 - 65 + 10
    }
}

/// The digits of a hex color string: everything after one optional leading
/// '#'.
pub open spec fn spec_hex_body(s: Seq<char>) -> Seq<char> {
    if s.len() > 0 && s[0] == '#' {
        s.skip(1)
    } else {
        s
    }
}

/// Whether a string is a well-formed hex color: exactly six hex digits after
/// an optional leading '#'.
pub open spec fn spec_is_hex_color(s: Seq<char>) -> bool {
    &&& spec_hex_body(s).len() == 6
    &&& forall|i: int| 0 <= i < 6 ==> spec_is_hex_digit(#[trigger] spec_hex_body(s)[i])
}

/// The color a well-formed hex color string denotes.
pub open spec fn spec_hex_color_value(s: Seq<char>) -> Rgb {
    let b = spec_hex_body(s);
    Rgb {
        r: (16 * spec_hex_value(b[0]) + spec_hex_value(b[1])) as u8,
        g: (16 * spec_hex_value(b[2]) + spec_hex_value(b[3])) as u8,
        b: (16 * spec_hex_value(b[4]) + spec_hex_value(b[5])) as u8,
    }
}

fn hex_digit_value(c: char) -> (r: Option<u8>)
    ensures
        r is Some <==> spec_is_hex_digit(c),
        r is Some ==> r->0 == spec_hex_value(c),
{
    let u = c as u32;
    if 48 <= u && u <= 57 {
        Some((u - 48) as u8)
    } else if 97 <= u && u <= 102 {
        Some((u - 97 + 10) as u8)
    } else if 65 <= u && u <= 70 {
        Some((u - 65 + 10) as u8)
    } else {
        None
    }
}

/// Parse a hex color string: exactly six hex digits after an optional leading
/// '#', case-insensitive. Every other input yields `None`; nothing panics.
pub fn parse_hex_color(input: &str) -> (r: Option<Rgb>)
    ensures
        r is Some <==> spec_is_hex_color(input@),
        r is Some ==> r->0 == spec_hex_color_value(input@),
{
    let n = input.unicode_len();
    let offset: usize = if n > 0 && input.get_char(0) == '#' {
        1
    } else {
        0
    };
    proof {
        assert(spec_hex_body(input@) =~= input@.skip(offset as int));
    }
    if n - offset != 6 {
        return None;
    }
    let mut digits: Vec<u8> = Vec::new();
    let mut i: usize = 0;
    while i < 6
        invariant
            i <= 6,
            n == input@.len(),
            offset + 6 == n,
            spec_hex_body(input@) =~= input@.skip(offset as int),
            digits@.len() == i,
            forall|j: int| 0 <= j < i ==> spec_is_hex_digit(#[trigger] spec_hex_body(input@)[j]),
            forall|j: int|
                0 <= j < i ==> digits@[j] == spec_hex_value(#[trigger] spec_hex_body(input@)[j]),
        decreases 6 - i,
    {
        let c = input.get_char(offset + i);
        proof {
            assert(spec_hex_body(input@)[i as int] == c);
        }
        match hex_digit_value(c) {
            Some(v) => {
                digits.push(v);
            },
            None => {
                assert(!spec_is_hex_digit(spec_hex_body(input@)[i as int]));
                return None;
            },
        }
        i += 1;
    }
    proof {
        assert forall|j: int| 0 <= j < 6 implies digits@[j] < 16 by {
            assert(spec_is_hex_digit(spec_hex_body(input@)[j]));
        }
    }
    Some(
        Rgb {
            r: 16 * digits[0] + digits[1],
            g: 16 * digits[2] + digits[3],
            b: 16 * digits[4] + digits[5],
        },
    )
}

} // verus!
