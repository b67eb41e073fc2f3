//! What the editor's window shows of a document: which lines a repaint has
//! to draw, where each line goes, and the title of the window.
//!
//! Lines have a fixed height in pixels and line `n` starts at the pixel row
//! `n * line_height`. The functions only compute; drawing is the caller's.

use vstd::prelude::*;

verus! {

/// `a` divided by a positive `b`, rounded toward zero.
pub open spec fn quotient(a: int, b: int) -> int {
    if a >= 0 {
        a / b
    } else {
        -((-a) / b)
    }
}

/// The pixel row at which line `line` starts.
pub open spec fn line_row(line: int, line_height: int) -> int {
    line * line_height
}

/// True when a repaint of the pixel rows from `top` to `bottom` draws line
/// `line` of a document of `line_count` lines: the line exists, and it is
/// neither above the row of `top` nor below the row of `bottom`.
pub open spec fn is_painted(
    top: int,
    bottom: int,
    line_height: int,
    line_count: int,
    line: int,
) -> bool {
    &&& 0 <= line < line_count
    &&& quotient(top, line_height) <= line <= quotient(bottom, line_height)
}

/// The lines that a repaint of the pixel rows from `top` to `bottom` draws,
/// as the half-open range `first..end`; `(0, 0)` when it draws none. Every
/// line in the range starts at a pixel row that fits in an `i32`.
pub fn painted_lines(top: i32, bottom: i32, line_height: i32, line_count: usize) -> (range: (
    usize,
    usize,
))
    requires
        line_height > 0,
    ensures
        range.0 <= range.1 <= line_count,
        range.0 == range.1 ==> range == (0usize, 0usize),
        forall|line: int|
            range.0 <= line < range.1 <==> is_painted(
                top as int,
                bottom as int,
                line_height as int,
                line_count as int,
                line,
            ),
        forall|line: int|
            range.0 <= line < range.1 ==> #[trigger] line_row(line, line_height as int)
                <= i32::MAX,
{
    let first_row: i32 = top / line_height;
    let last_row: i32 = bottom / line_height;
    if last_row < 0 {
        return (0, 0);
    }
    let first: usize = if first_row < 0 {
        0
    } else {
        first_row as usize
    };
    let last: usize = last_row as usize;
    let end: usize = if last < line_count {
        last + 1
    } else {
        line_count
    };
    if first < end {
        assert forall|line: int| first <= line < end implies #[trigger] line_row(
            line,
            line_height as int,
        ) <= i32::MAX by {
            assert(line * line_height <= last_row * line_height) by (nonlinear_arith)
                requires
                    line <= last_row,
                    line_height > 0,
            ;
            if bottom >= 0 {
                assert(last_row * line_height <= bottom) by (nonlinear_arith)
                    requires
                        bottom >= 0,
                        line_height > 0,
                        last_row == bottom as int / line_height as int,
                ;
            } else {
                assert(line * line_height <= 0) by (nonlinear_arith)
                    requires
                        line <= 0,
                        line_height > 0,
                ;
            }
        }
        (first, end)
    } else {
        (0, 0)
    }
}

/// The pixel row at which line `line` starts, or `None` when that row does
/// not fit in an `i32`.
pub fn line_top(line: usize, line_height: i32) -> (top: Option<i32>)
    requires
        line_height > 0,
    ensures
        match top {
            Some(y) => y == line_row(line as int, line_height as int),
            None => line_row(line as int, line_height as int) > i32::MAX,
        },
{
    if line > 0x7fff_ffff {
        assert(line * line_height > i32::MAX) by (nonlinear_arith)
            requires
                line > 0x7fff_ffff,
                line_height >= 1,
        ;
        return None;
    }
    let wide: i64 = line as i64;
    assert(wide * line_height <= 0x7fff_ffff * 0x7fff_ffff) by (nonlinear_arith)
        requires
            0 <= wide <= 0x7fff_ffff,
            0 < line_height <= 0x7fff_ffff,
    ;
    assert(0 <= wide * line_height) by (nonlinear_arith)
        requires
            0 <= wide,
            0 < line_height,
    ;
    let y: i64 = wide * (line_height as i64);
    if y > 0x7fff_ffff {
        None
    } else {
        Some(y as i32)
    }
}

/// The title of the window for the file `file_name`: the file's name, then
/// `" - "`, then the name of the application.
pub fn window_title(file_name: &str, app_title: &str) -> (title: String)
    ensures
        title@ == file_name@ + " - "@ + app_title@,
{
    let mut title = file_name.to_owned();
    title.append(" - ");
    title.append(app_title);
    title
}

} // verus!
