//! The one pure helper of the text renderer: everything else about drawing a
//! board is presentation and lives with the caller.

use vstd::prelude::*;

verus! {

/// Picks the border glyph for column `x` of a grid row with `size` columns:
/// the opening glyph at the left edge, the closing glyph at the right edge,
/// and the separator glyph everywhere between.
pub fn draw_intersection(x: usize, size: usize, chars: [char; 3]) -> (c: char)
    requires
        size >= 1,
    ensures
        x == 0 ==> c == chars[0],
        x != 0 && x + 1 == size ==> c == chars[1],
        x != 0 && x + 1 != size ==> c == chars[2],
{
    match x {
        0 => chars[0],
        _ if (x == size - 1) => chars[1],
        _ => chars[2],
    }
}

} // verus!
