//! Export of the canvas as text: plain Unicode block characters, or ANSI
//! art with color escape sequences at one of three quantization levels.
//! Both forms auto-crop to the bounding box of the non-empty cells.

use vstd::prelude::*;

use crate::canvas::Canvas;
use crate::cell::{
    spec_ansi16, spec_color_dist2, spec_hex_upper, spec_is_half_block, spec_nearest256,
    spec_resolve_half_block, color256_to_rgb, nearest_256, resolve_half_block, Cell, Rgb,
};
use crate::text::chars_to_string;

verus! {

/// ANSI color format for export.
#[derive(Clone, Copy, PartialEq, Eq, Structural, Debug)]
pub enum ColorFormat {
    /// 24-bit true color.
    TrueColor,
    /// xterm 256-color indices.
    Color256,
    /// The 16 standard color indices.
    Color16,
}

/// The best standard-16 index among those below `upto`: smallest squared
/// distance, ties to the lowest index.
pub open spec fn spec_best16(c: Rgb, upto: int) -> int
    decreases upto,
{
    if upto <= 1 {
        0
    } else {
        let prev = spec_best16(c, upto - 1);
        if spec_color_dist2(c, spec_ansi16(upto - 1)) < spec_color_dist2(c, spec_ansi16(prev)) {
            upto - 1
        } else {
            prev
        }
    }
}

/// The nearest standard-16 index of a color.
pub open spec fn spec_nearest16(c: Rgb) -> int {
    spec_best16(c, 16)
}

/// Find the nearest standard-16 color index by squared Euclidean distance.
/// Ties go to the lowest index.
pub fn nearest_16(color: &Rgb) -> (best: u8)
    ensures
        best as int == spec_nearest16(*color),
        forall|j: int|
            0 <= j < 16 ==> spec_color_dist2(*color, spec_ansi16(best as int)) < spec_color_dist2(
                *color,
                #[trigger] spec_ansi16(j),
            ) || (spec_color_dist2(*color, spec_ansi16(best as int)) == spec_color_dist2(
                *color,
                spec_ansi16(j),
            ) && best <= j),
{
    let mut best_idx: u8 = 0;
    let mut best_dist: u32 = rgb_dist2_16(color, 0);
    let mut i: usize = 1;
    while i < 16
        invariant
            1 <= i <= 16,
            best_idx < i,
            best_idx as int == spec_best16(*color, i as int),
            best_dist == spec_color_dist2(*color, spec_ansi16(best_idx as int)),
            forall|j: int|
                0 <= j < i ==> best_dist < spec_color_dist2(*color, #[trigger] spec_ansi16(j)) || (
                best_dist == spec_color_dist2(*color, spec_ansi16(j)) && best_idx <= j),
        decreases 16 - i,
    {
        let dist = rgb_dist2_16(color, i as u8);
        if dist < best_dist {
            best_dist = dist;
            best_idx = i as u8;
        }
        i += 1;
    }
    best_idx
}

fn rgb_dist2_16(color: &Rgb, i: u8) -> (d: u32)
    requires
        i < 16,
    ensures
        d == spec_color_dist2(*color, spec_ansi16(i as int)),
{
    let c = color256_to_rgb(i);
    let dr = color.r as i32 - c.r as i32;
    let dg = color.g as i32 - c.g as i32;
    let db = color.b as i32 - c.b as i32;
    proof {
        assert(0 <= dr * dr <= 65025 && 0 <= dg * dg <= 65025 && 0 <= db * db <= 65025)
            by (nonlinear_arith)
            requires
                -255 <= dr <= 255,
                -255 <= dg <= 255,
                -255 <= db <= 255,
        ;
    }
    (dr * dr + dg * dg + db * db) as u32
}

/// The decimal digits of a nonnegative number, most significant first.
pub open spec fn spec_decimal(n: int) -> Seq<char>
    decreases n,
{
    if n < 10 {
        seq![spec_hex_upper(n)]
    } else {
        spec_decimal(n / 10).push(spec_hex_upper(n % 10))
    }
}

fn digit_char(v: u8) -> (c: char)
    requires
        v < 10,
    ensures
        c == spec_hex_upper(v as int),
{
    match v {
        0 => '0',
        1 => '1',
        2 => '2',
        3 => '3',
        4 => '4',
        5 => '5',
        6 => '6',
        7 => '7',
        8 => '8',
        _ => '9',
    }
}

/// Append a byte's decimal digits.
fn push_decimal(out: &mut Vec<char>, n: u8)
    ensures
        final(out)@ == old(out)@ + spec_decimal(n as int),
{
    let ghost base = out@;
    proof {
        assert((n as int / 10) / 10 == n as int / 100) by (nonlinear_arith);
    }
    if n >= 100 {
        out.push(digit_char(n / 100));
        out.push(digit_char((n / 10) % 10));
        out.push(digit_char(n % 10));
    } else if n >= 10 {
        out.push(digit_char(n / 10));
        out.push(digit_char(n % 10));
    } else {
        out.push(digit_char(n));
    }
    proof {
        reveal_with_fuel(spec_decimal, 4);
        assert(out@ =~= base + spec_decimal(n as int));
    }
}

/// The foreground escape sequence of a color in a format.
pub open spec fn spec_fg_escape(c: Rgb, format: ColorFormat) -> Seq<char> {
    match format {
        ColorFormat::TrueColor => seq!['\u{1b}', '[', '3', '8', ';', '2', ';'] + spec_decimal(
            c.r as int,
        ) + seq![';'] + spec_decimal(c.g as int) + seq![';'] + spec_decimal(c.b as int)
            + seq!['m'],
        ColorFormat::Color256 => seq!['\u{1b}', '[', '3', '8', ';', '5', ';'] + spec_decimal(
            spec_nearest256(c),
        ) + seq!['m'],
        ColorFormat::Color16 => seq!['\u{1b}', '[', '3', '8', ';', '5', ';'] + spec_decimal(
            spec_nearest16(c),
        ) + seq!['m'],
    }
}

/// The background escape sequence of a color in a format.
pub open spec fn spec_bg_escape(c: Rgb, format: ColorFormat) -> Seq<char> {
    match format {
        ColorFormat::TrueColor => seq!['\u{1b}', '[', '4', '8', ';', '2', ';'] + spec_decimal(
            c.r as int,
        ) + seq![';'] + spec_decimal(c.g as int) + seq![';'] + spec_decimal(c.b as int)
            + seq!['m'],
        ColorFormat::Color256 => seq!['\u{1b}', '[', '4', '8', ';', '5', ';'] + spec_decimal(
            spec_nearest256(c),
        ) + seq!['m'],
        ColorFormat::Color16 => seq!['\u{1b}', '[', '4', '8', ';', '5', ';'] + spec_decimal(
            spec_nearest16(c),
        ) + seq!['m'],
    }
}

/// The combined foreground and background escape sequence.
pub open spec fn spec_fg_bg_escape(f: Rgb, b: Rgb, format: ColorFormat) -> Seq<char> {
    match format {
        ColorFormat::TrueColor => seq!['\u{1b}', '[', '3', '8', ';', '2', ';'] + spec_decimal(
            f.r as int,
        ) + seq![';'] + spec_decimal(f.g as int) + seq![';'] + spec_decimal(f.b as int) + seq![
            ';',
            '4',
            '8',
            ';',
            '2',
            ';',
        ] + spec_decimal(b.r as int) + seq![';'] + spec_decimal(b.g as int) + seq![';']
            + spec_decimal(b.b as int) + seq!['m'],
        ColorFormat::Color256 => seq!['\u{1b}', '[', '3', '8', ';', '5', ';'] + spec_decimal(
            spec_nearest256(f),
        ) + seq![';', '4', '8', ';', '5', ';'] + spec_decimal(spec_nearest256(b)) + seq!['m'],
        ColorFormat::Color16 => seq!['\u{1b}', '[', '3', '8', ';', '5', ';'] + spec_decimal(
            spec_nearest16(f),
        ) + seq![';', '4', '8', ';', '5', ';'] + spec_decimal(spec_nearest16(b)) + seq!['m'],
    }
}

/// Append the foreground escape code for a color.
fn emit_fg(out: &mut Vec<char>, color: &Rgb, format: ColorFormat)
    ensures
        final(out)@ == old(out)@ + spec_fg_escape(*color, format),
{
    let ghost base = out@;
    out.push('\u{1b}');
    out.push('[');
    out.push('3');
    out.push('8');
    out.push(';');
    match format {
        ColorFormat::TrueColor => {
            out.push('2');
            out.push(';');
            push_decimal(out, color.r);
            out.push(';');
            push_decimal(out, color.g);
            out.push(';');
            push_decimal(out, color.b);
        },
        ColorFormat::Color256 => {
            out.push('5');
            out.push(';');
            push_decimal(out, nearest_256(color));
        },
        ColorFormat::Color16 => {
            out.push('5');
            out.push(';');
            push_decimal(out, nearest_16(color));
        },
    }
    out.push('m');
    proof {
        assert(out@ =~= base + spec_fg_escape(*color, format));
    }
}

/// Append the background escape code for a color.
fn emit_bg(out: &mut Vec<char>, color: &Rgb, format: ColorFormat)
    ensures
        final(out)@ == old(out)@ + spec_bg_escape(*color, format),
{
    let ghost base = out@;
    out.push('\u{1b}');
    out.push('[');
    out.push('4');
    out.push('8');
    out.push(';');
    match format {
        ColorFormat::TrueColor => {
            out.push('2');
            out.push(';');
            push_decimal(out, color.r);
            out.push(';');
            push_decimal(out, color.g);
            out.push(';');
            push_decimal(out, color.b);
        },
        ColorFormat::Color256 => {
            out.push('5');
            out.push(';');
            push_decimal(out, nearest_256(color));
        },
        ColorFormat::Color16 => {
            out.push('5');
            out.push(';');
            push_decimal(out, nearest_16(color));
        },
    }
    out.push('m');
    proof {
        assert(out@ =~= base + spec_bg_escape(*color, format));
    }
}

/// Append the combined foreground and background escape code.
#[verifier::rlimit(100)]
fn emit_fg_bg(out: &mut Vec<char>, fg: &Rgb, bg: &Rgb, format: ColorFormat)
    ensures
        final(out)@ == old(out)@ + spec_fg_bg_escape(*fg, *bg, format),
{
    let ghost base = out@;
    out.push('\u{1b}');
    out.push('[');
    out.push('3');
    out.push('8');
    out.push(';');
    match format {
        ColorFormat::TrueColor => {
            out.push('2');
            out.push(';');
            push_decimal(out, fg.r);
            out.push(';');
            push_decimal(out, fg.g);
            out.push(';');
            push_decimal(out, fg.b);
            out.push(';');
            out.push('4');
            out.push('8');
            out.push(';');
            out.push('2');
            out.push(';');
            push_decimal(out, bg.r);
            out.push(';');
            push_decimal(out, bg.g);
            out.push(';');
            push_decimal(out, bg.b);
        },
        ColorFormat::Color256 => {
            out.push('5');
            out.push(';');
            push_decimal(out, nearest_256(fg));
            out.push(';');
            out.push('4');
            out.push('8');
            out.push(';');
            out.push('5');
            out.push(';');
            push_decimal(out, nearest_256(bg));
        },
        ColorFormat::Color16 => {
            out.push('5');
            out.push(';');
            push_decimal(out, nearest_16(fg));
            out.push(';');
            out.push('4');
            out.push('8');
            out.push(';');
            out.push('5');
            out.push(';');
            push_decimal(out, nearest_16(bg));
        },
    }
    out.push('m');
    proof {
        assert(out@ =~= base + spec_fg_bg_escape(*fg, *bg, format));
    }
}

/// What one cell's color change appends to the output: nothing when both
/// colors match the previous cell's; otherwise the escape for the present
/// colors, with a reset of the channel that was set before and is now
/// absent.
pub open spec fn spec_color_change(
    fg: Option<Rgb>,
    bg: Option<Rgb>,
    prev_fg: Option<Rgb>,
    prev_bg: Option<Rgb>,
    format: ColorFormat,
) -> Seq<char> {
    if prev_fg == fg && prev_bg == bg {
        Seq::empty()
    } else {
        match (fg, bg) {
            (Option::Some(f), Option::Some(b)) => spec_fg_bg_escape(f, b, format),
            (Option::Some(f), Option::None) => spec_fg_escape(f, format) + if prev_bg is Some {
                seq!['\u{1b}', '[', '4', '9', 'm']
            } else {
                Seq::empty()
            },
            (Option::None, Option::Some(b)) => spec_bg_escape(b, format) + if prev_fg is Some {
                seq!['\u{1b}', '[', '3', '9', 'm']
            } else {
                Seq::empty()
            },
            (Option::None, Option::None) => seq!['\u{1b}', '[', '0', 'm'],
        }
    }
}

/// Append the escape codes for a cell's colors, tracking the previous colors
/// to skip redundant output.
fn emit_cell_colors(
    out: &mut Vec<char>,
    fg: Option<Rgb>,
    bg: Option<Rgb>,
    prev_fg: &mut Option<Rgb>,
    prev_bg: &mut Option<Rgb>,
    format: ColorFormat,
)
    ensures
        final(out)@ == old(out)@ + spec_color_change(fg, bg, *old(prev_fg), *old(prev_bg), format),
        *final(prev_fg) == if *old(prev_fg) == fg && *old(prev_bg) == bg {
            *old(prev_fg)
        } else {
            fg
        },
        *final(prev_bg) == if *old(prev_fg) == fg && *old(prev_bg) == bg {
            *old(prev_bg)
        } else {
            bg
        },
{
    let fg_changed = *prev_fg != fg;
    let bg_changed = *prev_bg != bg;
    if !fg_changed && !bg_changed {
        proof {
            assert(out@ =~= old(out)@ + spec_color_change(
                fg,
                bg,
                *old(prev_fg),
                *old(prev_bg),
                format,
            ));
        }
        return;
    }
    match (fg, bg) {
        (Some(f), Some(b)) => {
            emit_fg_bg(out, &f, &b, format);
        },
        (Some(f), None) => {
            emit_fg(out, &f, format);
            if bg_changed && prev_bg.is_some() {
                out.push('\u{1b}');
                out.push('[');
                out.push('4');
                out.push('9');
                out.push('m');
            }
        },
        (None, Some(b)) => {
            emit_bg(out, &b, format);
            if fg_changed && prev_fg.is_some() {
                out.push('\u{1b}');
                out.push('[');
                out.push('3');
                out.push('9');
                out.push('m');
            }
        },
        (None, None) => {
            out.push('\u{1b}');
            out.push('[');
            out.push('0');
            out.push('m');
        },
    }
    *prev_fg = fg;
    *prev_bg = bg;
    proof {
        assert(out@ =~= old(out)@ + spec_color_change(
            fg,
            bg,
            *old(prev_fg),
            *old(prev_bg),
            format,
        ));
    }
}

/// Whether `bb = (min_x, min_y, max_x, max_y)` is the tight bounding box of
/// the grid's non-empty cells: every non-empty cell lies within it, and each
/// of its four bounds is attained.
pub open spec fn spec_is_bbox(canvas: Canvas, bb: (int, int, int, int)) -> bool {
    &&& 0 <= bb.0 <= bb.2 < canvas.width
    &&& 0 <= bb.1 <= bb.3 < canvas.height
    &&& forall|x: int, y: int|
        0 <= x < canvas.width && 0 <= y < canvas.height && (#[trigger] canvas.spec_at(x, y)).ch
            != ' ' ==> bb.0 <= x <= bb.2 && bb.1 <= y <= bb.3
    &&& exists|y: int| bb.1 <= y <= bb.3 && (#[trigger] canvas.spec_at(bb.0, y)).ch != ' '
    &&& exists|y: int| bb.1 <= y <= bb.3 && (#[trigger] canvas.spec_at(bb.2, y)).ch != ' '
    &&& exists|x: int| bb.0 <= x <= bb.2 && (#[trigger] canvas.spec_at(x, bb.1)).ch != ' '
    &&& exists|x: int| bb.0 <= x <= bb.2 && (#[trigger] canvas.spec_at(x, bb.3)).ch != ' '
}

/// Whether the grid holds a non-empty cell.
pub open spec fn spec_any_occupied(canvas: Canvas) -> bool {
    exists|x: int, y: int|
        0 <= x < canvas.width && 0 <= y < canvas.height && (#[trigger] canvas.spec_at(x, y)).ch
            != ' '
}

/// The bounding box of all non-empty cells as `(min_x, min_y, max_x,
/// max_y)`, or nothing when the grid is entirely empty. Each returned bound
/// is attained by some non-empty cell, and every non-empty cell lies within
/// the box.
pub fn bounding_box(canvas: &Canvas) -> (r: Option<(usize, usize, usize, usize)>)
    requires
        canvas.wf(),
    ensures
        r is Some <==> spec_any_occupied(*canvas),
        r matches Some(bb) ==> spec_is_bbox(
            *canvas,
            (bb.0 as int, bb.1 as int, bb.2 as int, bb.3 as int),
        ),
{
    let mut found = false;
    let mut min_x: usize = 0;
    let mut min_y: usize = 0;
    let mut max_x: usize = 0;
    let mut max_y: usize = 0;
    let mut y: usize = 0;
    while y < canvas.height
        invariant
            canvas.wf(),
            y <= canvas.height,
            found <==> exists|px: int, py: int|
                0 <= px < canvas.width && 0 <= py < y && (#[trigger] canvas.spec_at(px, py)).ch
                    != ' ',
            found ==> {
                &&& min_x <= max_x < canvas.width
                &&& min_y <= max_y < y
                &&& forall|px: int, py: int|
                    0 <= px < canvas.width && 0 <= py < y && (#[trigger] canvas.spec_at(
                        px,
                        py,
                    )).ch != ' ' ==> min_x <= px <= max_x && min_y <= py <= max_y
                &&& exists|py: int|
                    min_y <= py <= max_y && (#[trigger] canvas.spec_at(min_x as int, py)).ch != ' '
                &&& exists|py: int|
                    min_y <= py <= max_y && (#[trigger] canvas.spec_at(max_x as int, py)).ch != ' '
                &&& exists|px: int|
                    min_x <= px <= max_x && (#[trigger] canvas.spec_at(px, min_y as int)).ch != ' '
                &&& exists|px: int|
                    min_x <= px <= max_x && (#[trigger] canvas.spec_at(px, max_y as int)).ch != ' '
            },
        decreases canvas.height - y,
    {
        let mut x: usize = 0;
        while x < canvas.width
            invariant
                canvas.wf(),
                y < canvas.height,
                x <= canvas.width,
                found <==> exists|px: int, py: int|
                    0 <= px < canvas.width && (0 <= py < y || (py == y && 0 <= px < x)) && (
                    #[trigger] canvas.spec_at(px, py)).ch != ' ',
                found ==> {
                    &&& min_x <= max_x < canvas.width
                    &&& min_y <= max_y <= y
                    &&& forall|px: int, py: int|
                        0 <= px < canvas.width && (0 <= py < y || (py == y && 0 <= px < x)) && (
                        #[trigger] canvas.spec_at(px, py)).ch != ' ' ==> min_x <= px <= max_x
                            && min_y <= py <= max_y
                    &&& exists|py: int|
                        min_y <= py <= max_y && (#[trigger] canvas.spec_at(min_x as int, py)).ch
                            != ' '
                    &&& exists|py: int|
                        min_y <= py <= max_y && (#[trigger] canvas.spec_at(max_x as int, py)).ch
                            != ' '
                    &&& exists|px: int|
                        min_x <= px <= max_x && (#[trigger] canvas.spec_at(px, min_y as int)).ch
                            != ' '
                    &&& exists|px: int|
                        min_x <= px <= max_x && (#[trigger] canvas.spec_at(px, max_y as int)).ch
                            != ' '
                },
            decreases canvas.width - x,
        {
            let cell = match canvas.get(x, y) {
                Some(c) => c,
                None => {
                    proof {
                        assert(false);
                    }
                    return None;
                },
            };
            if cell.ch != ' ' {
                if !found {
                    found = true;
                    min_x = x;
                    max_x = x;
                    min_y = y;
                    max_y = y;
                } else {
                    if x < min_x {
                        min_x = x;
                    }
                    if x > max_x {
                        max_x = x;
                    }
                    if y > max_y {
                        max_y = y;
                    }
                }
            }
            x += 1;
        }
        y += 1;
    }
    if found {
        Some((min_x, min_y, max_x, max_y))
    } else {
        None
    }
}

/// One row of glyphs within the crop box, left to right.
pub open spec fn spec_row_glyphs(canvas: Canvas, y: int, min_x: int, max_x: int) -> Seq<char> {
    Seq::new((max_x + 1 - min_x) as nat, |i: int| canvas.spec_at(min_x + i, y).ch)
}

/// A character sequence with its trailing spaces removed.
pub open spec fn spec_trim_spaces(s: Seq<char>) -> Seq<char>
    decreases s.len(),
{
    if s.len() > 0 && s.last() == ' ' {
        spec_trim_spaces(s.drop_last())
    } else {
        s
    }
}

/// The plain-text export of the rows below `upto`: each cropped row with
/// trailing spaces stripped, rows separated by newlines.
pub open spec fn spec_plain_rows(
    canvas: Canvas,
    min_x: int,
    max_x: int,
    min_y: int,
    max_y: int,
    upto: int,
) -> Seq<char>
    decreases upto - min_y,
{
    if upto <= min_y {
        Seq::empty()
    } else {
        spec_plain_rows(canvas, min_x, max_x, min_y, max_y, upto - 1) + spec_trim_spaces(
            spec_row_glyphs(canvas, upto - 1, min_x, max_x),
        ) + if upto - 1 < max_y {
            seq!['\n']
        } else {
            Seq::empty()
        }
    }
}

/// Export the canvas as plain Unicode text: block characters only, no
/// color, auto-cropped to the bounding box of the non-empty cells, trailing
/// spaces stripped from each row. An entirely empty canvas exports as the
/// empty string.
pub fn to_plain_text(canvas: &Canvas) -> (s: String)
    requires
        canvas.wf(),
    ensures
        !spec_any_occupied(*canvas) ==> s@ == Seq::<char>::empty(),
        spec_any_occupied(*canvas) ==> exists|bb: (int, int, int, int)|
            #[trigger] spec_is_bbox(*canvas, bb) && s@ == spec_plain_rows(
                *canvas,
                bb.0,
                bb.2,
                bb.1,
                bb.3,
                bb.3 + 1,
            ),
{
    let (min_x, min_y, max_x, max_y) = match bounding_box(canvas) {
        Some(bb) => bb,
        None => {
            return chars_to_string(&Vec::new());
        },
    };
    let ghost bb = (min_x as int, min_y as int, max_x as int, max_y as int);
    let mut out: Vec<char> = Vec::new();
    let mut y = min_y;
    while y <= max_y
        invariant
            canvas.wf(),
            spec_is_bbox(*canvas, bb),
            bb == (min_x as int, min_y as int, max_x as int, max_y as int),
            min_y <= y <= max_y + 1,
            out@ == spec_plain_rows(*canvas, bb.0, bb.2, bb.1, bb.3, y as int),
        decreases max_y + 1 - y,
    {
        let mut row: Vec<char> = Vec::new();
        let mut x = min_x;
        while x <= max_x
            invariant
                canvas.wf(),
                spec_is_bbox(*canvas, bb),
                bb == (min_x as int, min_y as int, max_x as int, max_y as int),
                min_y <= y <= max_y,
                min_x <= x <= max_x + 1,
                row@ == spec_row_glyphs(*canvas, y as int, bb.0, bb.2).take(x - min_x),
            decreases max_x + 1 - x,
        {
            let cell = match canvas.get(x, y) {
                Some(c) => c,
                None => {
                    proof {
                        assert(false);
                    }
                    return chars_to_string(&Vec::new());
                },
            };
            row.push(cell.ch);
            proof {
                assert(row@ =~= spec_row_glyphs(*canvas, y as int, bb.0, bb.2).take(
                    x + 1 - min_x,
                ));
            }
            x += 1;
        }
        proof {
            assert(spec_row_glyphs(*canvas, y as int, bb.0, bb.2).take(
                max_x + 1 - min_x as int,
            ) =~= spec_row_glyphs(*canvas, y as int, bb.0, bb.2));
        }
        let ghost row_full = row@;
        while row.len() > 0 && row[row.len() - 1] == ' '
            invariant
                spec_trim_spaces(row@) == spec_trim_spaces(row_full),
            decreases row@.len(),
        {
            row.pop();
        }
        proof {
            assert(spec_trim_spaces(row@) == row@);
        }
        out.append(&mut row);
        if y < max_y {
            out.push('\n');
        }
        y += 1;
    }
    chars_to_string(&out)
}

/// The effective glyph and colors of a cell for export: half blocks are
/// resolved to their canonical form first, everything else passes through.
pub open spec fn spec_effective(cell: Cell) -> (char, Option<Rgb>, Option<Rgb>) {
    if spec_is_half_block(cell.ch) {
        let r = spec_resolve_half_block(cell)->0;
        (r.ch, r.fg, r.bg)
    } else {
        (cell.ch, cell.fg, cell.bg)
    }
}

/// What one cell appends to an ANSI row, and the color state that follows
/// it: empty cells and fully transparent half blocks emit a bare space (the
/// latter resetting the tracked colors), every other cell emits its color
/// change followed by its effective glyph.
pub open spec fn spec_ansi_cell(
    cell: Cell,
    pfg: Option<Rgb>,
    pbg: Option<Rgb>,
    format: ColorFormat,
) -> (Seq<char>, Option<Rgb>, Option<Rgb>) {
    if cell.ch == ' ' {
        (seq![' '], pfg, pbg)
    } else {
        let eff = spec_effective(cell);
        if eff.0 == ' ' {
            (seq![' '], Option::None, Option::None)
        } else {
            (spec_color_change(eff.1, eff.2, pfg, pbg, format).push(eff.0), eff.1, eff.2)
        }
    }
}

/// An ANSI row folded left to right from the crop box's left edge.
pub open spec fn spec_ansi_row(
    canvas: Canvas,
    y: int,
    min_x: int,
    upto: int,
    pfg: Option<Rgb>,
    pbg: Option<Rgb>,
    format: ColorFormat,
) -> (Seq<char>, Option<Rgb>, Option<Rgb>)
    decreases upto - min_x,
{
    if upto <= min_x {
        (Seq::empty(), pfg, pbg)
    } else {
        let prev = spec_ansi_row(canvas, y, min_x, upto - 1, pfg, pbg, format);
        let step = spec_ansi_cell(canvas.spec_at(upto - 1, y), prev.1, prev.2, format);
        (prev.0 + step.0, step.1, step.2)
    }
}

/// The ANSI export of the rows below `upto`: each row starts with fresh
/// color state, ends with a reset, and rows are separated by newlines.
pub open spec fn spec_ansi_rows(
    canvas: Canvas,
    min_x: int,
    max_x: int,
    min_y: int,
    max_y: int,
    upto: int,
    format: ColorFormat,
) -> Seq<char>
    decreases upto - min_y,
{
    if upto <= min_y {
        Seq::empty()
    } else {
        spec_ansi_rows(canvas, min_x, max_x, min_y, max_y, upto - 1, format) + spec_ansi_row(
            canvas,
            upto - 1,
            min_x,
            max_x + 1,
            Option::None,
            Option::None,
            format,
        ).0 + seq!['\u{1b}', '[', '0', 'm'] + if upto - 1 < max_y {
            seq!['\n']
        } else {
            Seq::empty()
        }
    }
}

/// Export the canvas as ANSI art: Unicode blocks with color escape codes in
/// the chosen format, auto-cropped to the bounding box of the non-empty
/// cells, half blocks resolved for export fidelity, each row ending in a
/// reset. An entirely empty canvas exports as the empty string.
pub fn to_ansi(canvas: &Canvas, format: ColorFormat) -> (s: String)
    requires
        canvas.wf(),
    ensures
        !spec_any_occupied(*canvas) ==> s@ == Seq::<char>::empty(),
        spec_any_occupied(*canvas) ==> exists|bb: (int, int, int, int)|
            #[trigger] spec_is_bbox(*canvas, bb) && s@ == spec_ansi_rows(
                *canvas,
                bb.0,
                bb.2,
                bb.1,
                bb.3,
                bb.3 + 1,
                format,
            ),
{
    let (min_x, min_y, max_x, max_y) = match bounding_box(canvas) {
        Some(bb) => bb,
        None => {
            return chars_to_string(&Vec::new());
        },
    };
    let ghost bb = (min_x as int, min_y as int, max_x as int, max_y as int);
    let mut out: Vec<char> = Vec::new();
    let mut y = min_y;
    while y <= max_y
        invariant
            canvas.wf(),
            spec_is_bbox(*canvas, bb),
            bb == (min_x as int, min_y as int, max_x as int, max_y as int),
            min_y <= y <= max_y + 1,
            out@ == spec_ansi_rows(*canvas, bb.0, bb.2, bb.1, bb.3, y as int, format),
        decreases max_y + 1 - y,
    {
        let mut prev_fg: Option<Rgb> = None;
        let mut prev_bg: Option<Rgb> = None;
        let mut x = min_x;
        while x <= max_x
            invariant
                canvas.wf(),
                spec_is_bbox(*canvas, bb),
                bb == (min_x as int, min_y as int, max_x as int, max_y as int),
                min_y <= y <= max_y,
                min_x <= x <= max_x + 1,
                ({
                    let st = spec_ansi_row(
                        *canvas,
                        y as int,
                        bb.0,
                        x as int,
                        Option::None,
                        Option::None,
                        format,
                    );
                    out@ == spec_ansi_rows(*canvas, bb.0, bb.2, bb.1, bb.3, y as int, format)
                        + st.0 && prev_fg == st.1 && prev_bg == st.2
                }),
            decreases max_x + 1 - x,
        {
            let cell = match canvas.get(x, y) {
                Some(c) => c,
                None => {
                    proof {
                        assert(false);
                    }
                    return chars_to_string(&Vec::new());
                },
            };
            let ghost out_before = out@;
            if cell.ch == ' ' {
                out.push(' ');
            } else {
                let (out_ch, fg, bg) = match resolve_half_block(&cell) {
                    Some(resolved) => (resolved.ch, resolved.fg, resolved.bg),
                    None => (cell.ch, cell.fg, cell.bg),
                };
                proof {
                    assert((out_ch, fg, bg) == spec_effective(cell));
                }
                if out_ch == ' ' {
                    out.push(' ');
                    prev_fg = None;
                    prev_bg = None;
                } else {
                    emit_cell_colors(&mut out, fg, bg, &mut prev_fg, &mut prev_bg, format);
                    out.push(out_ch);
                }
            }
            proof {
                let stp = spec_ansi_row(
                    *canvas,
                    y as int,
                    bb.0,
                    x as int + 1,
                    Option::None,
                    Option::None,
                    format,
                );
                assert(out@ =~= spec_ansi_rows(*canvas, bb.0, bb.2, bb.1, bb.3, y as int, format)
                    + stp.0);
            }
            x += 1;
        }
        out.push('\u{1b}');
        out.push('[');
        out.push('0');
        out.push('m');
        if y < max_y {
            out.push('\n');
        }
        proof {
            assert(out@ =~= spec_ansi_rows(
                *canvas,
                bb.0,
                bb.2,
                bb.1,
                bb.3,
                y as int + 1,
                format,
            ));
        }
        y += 1;
    }
    chars_to_string(&out)
}

} // verus!
