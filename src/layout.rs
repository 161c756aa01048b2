use vstd::prelude::*;
use crate::text::{chars_of, string_from_chars};

verus! {

/// Rows with a description are only drawn taller when rows are taller than this.
pub const MIN_ROW_HEIGHT_FOR_DESCRIPTION: u16 = 24;
/// Longest description shown whole, in characters.
pub const MAX_DESCRIPTION_CHARS: usize = 60;
/// Characters kept of a longer description, before the ellipsis.
pub const TRUNCATED_DESCRIPTION_CHARS: usize = 57;

/// Whether a row shows its item's description.
pub open spec fn description_shown(
    item_height: u16,
    show_descriptions: bool,
    has_description: bool,
) -> bool {
    show_descriptions && has_description && item_height > MIN_ROW_HEIGHT_FOR_DESCRIPTION
}

/// Whether a row shows its item's description.
pub fn shows_description(item_height: u16, show_descriptions: bool, has_description: bool) -> (r:
    bool)
    ensures
        r == description_shown(item_height, show_descriptions, has_description),
{
    show_descriptions && has_description && item_height > MIN_ROW_HEIGHT_FOR_DESCRIPTION
}

/// The height of a result row: taller by a line of text and half the
/// padding when it shows a description.
pub fn row_height(
    item_height: u16,
    font_size: u16,
    padding: u16,
    show_descriptions: bool,
    has_description: bool,
) -> (r: u32)
    ensures
        r == if description_shown(item_height, show_descriptions, has_description) {
            item_height + font_size + padding / 2
        } else {
            item_height as int
        },
{
    if shows_description(item_height, show_descriptions, has_description) {
        item_height as u32 + font_size as u32 + (padding / 2) as u32
    } else {
        item_height as u32
    }
}

/// The height left for result rows in a window of `height`, below the
/// query box (a row plus padding) and twice the padding; 0 when none is left.
pub fn list_budget(height: u16, item_height: u16, padding: u16) -> (r: u32)
    ensures
        r == if height >= item_height + 3 * padding {
            height - item_height - 3 * padding
        } else {
            0
        },
{
    let taken = item_height as u32 + padding as u32 + 2 * padding as u32;
    if height as u32 >= taken {
        height as u32 - taken
    } else {
        0
    }
}

/// The red, green and blue channels of `0xRRGGBB` colour `c`.
pub open spec fn channel(c: u32, shift: int) -> int {
    (c as int / shift) % 256
}

/// Colour `c` with each channel scaled by `num / den`, rounding down.
pub open spec fn scaled_color(c: u32, num: int, den: int) -> int {
    (channel(c, 65536) * num / den) * 65536 + (channel(c, 256) * num / den) * 256 + channel(c, 1)
        * num / den
}

/// Colour `c` with each channel scaled by `num / den` (`num <= den`).
pub fn scale_color(c: u32, num: u32, den: u32) -> (r: u32)
    requires
        0 < den,
        num <= den,
    ensures
        r == scaled_color(c, num as int, den as int),
{
    let red = (c / 65536) % 256;
    let green = (c / 256) % 256;
    let blue = c % 256;
    assert(red * num <= 255 * den) by (nonlinear_arith)
        requires
            red < 256,
            num <= den,
    ;
    assert(green * num <= 255 * den) by (nonlinear_arith)
        requires
            green < 256,
            num <= den,
    ;
    assert(blue * num <= 255 * den) by (nonlinear_arith)
        requires
            blue < 256,
            num <= den,
    ;
    assert((red * num) as int / (den as int) <= 255) by (nonlinear_arith)
        requires
            red * num <= 255 * den,
            0 < den,
    ;
    assert((green * num) as int / (den as int) <= 255) by (nonlinear_arith)
        requires
            green * num <= 255 * den,
            0 < den,
    ;
    assert((blue * num) as int / (den as int) <= 255) by (nonlinear_arith)
        requires
            blue * num <= 255 * den,
            0 < den,
    ;
    let r = ((red as u64 * num as u64) / den as u64) as u32;
    let g = ((green as u64 * num as u64) / den as u64) as u32;
    let b = ((blue as u64 * num as u64) / den as u64) as u32;
    r * 65536 + g * 256 + b
}

/// A description as shown: whole up to its limit, else its first
/// characters and an ellipsis.
pub open spec fn shown_description(d: Seq<char>) -> Seq<char> {
    if d.len() > MAX_DESCRIPTION_CHARS {
        d.take(TRUNCATED_DESCRIPTION_CHARS as int) + seq!['.', '.', '.']
    } else {
        d
    }
}

/// The description text to draw.
pub fn truncate_description(d: &str) -> (r: String)
    ensures
        r@ == shown_description(d@),
{
    let cs = chars_of(d);
    if cs.len() <= MAX_DESCRIPTION_CHARS {
        return string_from_chars(&cs);
    }
    let mut out: Vec<char> = Vec::new();
    let mut i: usize = 0;
    while i < TRUNCATED_DESCRIPTION_CHARS
        invariant
            i <= TRUNCATED_DESCRIPTION_CHARS < cs@.len(),
            out@ == cs@.take(i as int),
        decreases TRUNCATED_DESCRIPTION_CHARS - i,
    {
        out.push(cs[i]);
        i += 1;
    }
    out.push('.');
    out.push('.');
    out.push('.');
    assert(out@ =~= shown_description(d@));
    string_from_chars(&out)
}

/// Where a window of `width` by `height` goes on a screen of
/// `screen_width` by `screen_height`: centred across, a third of the
/// free space down.
pub fn window_origin(screen_width: u16, screen_height: u16, width: u16, height: u16) -> (r: (
    u16,
    u16,
))
    ensures
        r.0 == (if screen_width >= width { screen_width - width } else { 0 }) / 2,
        r.1 == (if screen_height >= height { screen_height - height } else { 0 }) / 3,
{
    let free_x: u16 = if screen_width >= width {
        screen_width - width
    } else {
        0
    };
    let free_y: u16 = if screen_height >= height {
        screen_height - height
    } else {
        0
    };
    (free_x / 2, free_y / 3)
}

/// A command line runs through the shell when it holds a space, `&` or `;`.
pub open spec fn needs_shell_spec(command: Seq<char>) -> bool {
    command.contains(' ') || command.contains('&') || command.contains(';')
}

/// Whether `command` must run through the shell.
pub fn needs_shell(command: &str) -> (r: bool)
    ensures
        r == needs_shell_spec(command@),
{
    let cs = chars_of(command);
    let mut i: usize = 0;
    while i < cs.len()
        invariant
            i <= cs@.len(),
            cs@ == command@,
            forall|j: int| 0 <= j < i ==> cs@[j] != ' ' && cs@[j] != '&' && cs@[j] != ';',
        decreases cs@.len() - i,
    {
        if cs[i] == ' ' || cs[i] == '&' || cs[i] == ';' {
            assert(cs@.contains(cs@[i as int]));
            return true;
        }
        i += 1;
    }
    false
}

} // verus!
