//! A component drawn in a box over another one.
use vstd::prelude::*;
use vstd::string::*;
use vstd::utf8::encode_utf8;

use super::tabs::{dashes, goto_seq};
use crate::tui::{HandleInput, InputResult, Key};
use crate::utils::align::x::sat_sub;
use crate::utils::color::{fg_seq, reset_fg_seq, ColorEscape};
use crate::utils::term::goto;
use crate::utils::{push_char, write_str};

verus! {

/// The top-left corner of the box around a `dims.0` by `dims.1` layer, centered in the
/// `width` by `height` box at column `x_off` and row `y_off`.
pub open spec fn box_origin(width: u16, height: u16, dims: (u16, u16), x_off: u16, y_off: u16) -> (
    int,
    int,
) {
    (
        x_off + sat_sub(width / 2, (dims.0 / 2 + 1) as u16),
        y_off + sat_sub(height / 2, (dims.1 / 2 + 1) as u16),
    )
}

/// The sequences before and after each piece of the frame: the color and the default
/// foreground, or, without a color, black and the default foreground before and nothing
/// after.
pub open spec fn frame_colors(color: Option<Seq<char>>) -> (Seq<char>, Seq<char>) {
    match color {
        Some(c) => (c, reset_fg_seq()),
        None => (fg_seq(seq!['0']) + reset_fg_seq(), Seq::empty()),
    }
}

/// The top edge between the corners: lines, with the name in the middle where there is one
/// (the lines on its left are half the rest, rounded down as the byte length of the lines
/// halves).
pub open spec fn top_edge(width: u16, name: Option<Seq<char>>) -> Seq<char> {
    match name {
        None => dashes(width as nat),
        Some(n) => {
            let k = width - encode_utf8(n).len();
            let left = (3 * k / 2) / 3;
            dashes(left as nat) + n + dashes((k - left) as nat)
        },
    }
}

/// The sides of the frame from row `i` to row `rows` of the layer.
pub open spec fn frame_sides(
    x: u16,
    y: u16,
    width: u16,
    rows: u16,
    i: int,
    start: Seq<char>,
    end: Seq<char>,
) -> Seq<u8>
    decreases rows + 1 - i,
{
    if i > rows || i < 1 {
        Seq::empty()
    } else {
        encode_utf8(
            goto_seq(x, (y + i) as u16) + start + seq!['│'] + end + goto_seq(
                (x + 1 + width) as u16,
                (y + i) as u16,
            ) + start + seq!['│'] + end,
        ) + frame_sides(x, y, width, rows, i + 1, start, end)
    }
}

/// The frame around a `dims.0` by `dims.1` layer whose box starts at column `x`, row `y`.
pub open spec fn frame(
    x: u16,
    y: u16,
    dims: (u16, u16),
    color: Option<Seq<char>>,
    name: Option<Seq<char>>,
) -> Seq<u8> {
    let (start, end) = frame_colors(color);
    encode_utf8(goto_seq(x, y) + start + seq!['┌'] + top_edge(dims.0, name) + seq!['┐'] + end)
        + frame_sides(x, y, dims.0, dims.1, 1, start, end) + encode_utf8(
        goto_seq(x, (y + dims.1 + 1) as u16) + start + seq!['└'] + dashes(dims.0 as nat) + seq![
            '┘',
        ] + end,
    )
}

/// The frame can be drawn: every position fits 16 bits, the top-left corner is not 0, 0, and
/// the name is no longer in bytes than the layer is wide.
pub open spec fn frame_drawable(
    width: u16,
    height: u16,
    dims: (u16, u16),
    name: Option<Seq<char>>,
    x_off: u16,
    y_off: u16,
) -> bool {
    let (x, y) = box_origin(width, height, dims, x_off, y_off);
    &&& x + 1 + dims.0 <= u16::MAX
    &&& y + dims.1 + 1 <= u16::MAX
    &&& x != 0 || y != 0
    &&& name matches Some(n) ==> encode_utf8(n).len() <= dims.0
}

/// Whether the frame around a `dims.0` by `dims.1` layer can be drawn in the `width` by
/// `height` box at column `x_off`, row `y_off`, as `frame_drawable` says.
pub fn frame_fits(
    width: u16,
    height: u16,
    dims: (u16, u16),
    name: Option<&str>,
    x_off: u16,
    y_off: u16,
) -> (r: bool)
    ensures
        r == frame_drawable(width, height, dims, name_view(name), x_off, y_off),
{
    let x = x_off as u32 + (width / 2).saturating_sub(dims.0 / 2 + 1) as u32;
    let y = y_off as u32 + (height / 2).saturating_sub(dims.1 / 2 + 1) as u32;
    let name_fits = match name {
        Some(n) => n.as_bytes().len() <= dims.0 as usize,
        None => true,
    };
    x + 1 + dims.0 as u32 <= 0xffff && y + dims.1 as u32 + 1 <= 0xffff && (x != 0 || y != 0)
        && name_fits
}

/// Writes `n` lines.
fn push_dashes(s: &mut String, n: usize)
    ensures
        final(s)@ == old(s)@ + dashes(n as nat),
{
    let mut i: usize = 0;
    while i < n
        invariant
            i <= n,
            s@ == old(s)@ + dashes(i as nat),
        decreases n - i,
    {
        push_char(s, '─');
        proof {
            assert(s@ =~= old(s)@ + dashes((i + 1) as nat));
        }
        i = i + 1;
    }
}

/// The name's view, where there is one.
pub open spec fn name_view(name: Option<&str>) -> Option<Seq<char>> {
    match name {
        Some(n) => Some(n@),
        None => None,
    }
}

/// Writes the top edge of the frame.
fn draw_top(
    target: &mut Vec<u8>,
    x: u16,
    y: u16,
    w: u16,
    start: &str,
    end: &str,
    name: Option<&str>,
)
    requires
        x != 0 || y != 0,
        name matches Some(n) ==> encode_utf8(n@).len() <= w,
    ensures
        final(target)@ == old(target)@ + encode_utf8(
            goto_seq(x, y) + start@ + seq!['┌'] + top_edge(w, name_view(name)) + seq!['┐']
                + end@,
        ),
{
    let mut top = goto(x, y);
    top.append(start);
    push_char(&mut top, '┌');
    let ghost before_edge = top@;
    match name {
        None => push_dashes(&mut top, w as usize),
        Some(n) => {
            let k = w as usize - n.as_bytes().len();
            let left = (3 * k / 2) / 3;
            push_dashes(&mut top, left);
            top.append(n);
            push_dashes(&mut top, k - left);
        },
    }
    assert(top@ =~= before_edge + top_edge(w, name_view(name)));
    push_char(&mut top, '┐');
    top.append(end);
    write_str(target, top.as_str());
    proof {
        assert(top@ =~= goto_seq(x, y) + start@ + seq!['┌'] + top_edge(w, name_view(name))
            + seq!['┐'] + end@);
    }
}

/// Writes the sides of the frame, rows 1 to `rows`.
fn draw_sides(target: &mut Vec<u8>, x: u16, y: u16, w: u16, rows: u16, start: &str, end: &str)
    requires
        x + 1 + w <= u16::MAX,
        y + rows + 1 <= u16::MAX,
    ensures
        final(target)@ == old(target)@ + frame_sides(x, y, w, rows, 1, start@, end@),
{
    let mut i: u16 = 1;
    while i <= rows
        invariant
            1 <= i <= rows + 1,
            x + 1 + w <= u16::MAX,
            y + rows + 1 <= u16::MAX,
            old(target)@ + frame_sides(x, y, w, rows, 1, start@, end@) == target@ + frame_sides(
                x,
                y,
                w,
                rows,
                i as int,
                start@,
                end@,
            ),
        decreases rows + 1 - i,
    {
        let ghost t0 = target@;
        let mut side = goto(x, y + i);
        side.append(start);
        push_char(&mut side, '│');
        side.append(end);
        side.append(goto(x + 1 + w, y + i).as_str());
        side.append(start);
        push_char(&mut side, '│');
        side.append(end);
        write_str(target, side.as_str());
        proof {
            assert(side@ =~= goto_seq(x, (y + i) as u16) + start@ + seq!['│'] + end@ + goto_seq(
                (x + 1 + w) as u16,
                (y + i) as u16,
            ) + start@ + seq!['│'] + end@);
            assert(t0 + frame_sides(x, y, w, rows, i as int, start@, end@) =~= target@
                + frame_sides(x, y, w, rows, i + 1, start@, end@));
        }
        i = i + 1;
    }
    proof {
        assert(target@ =~= target@ + frame_sides(x, y, w, rows, i as int, start@, end@));
    }
}

/// Writes the bottom edge of the frame.
fn draw_bottom(target: &mut Vec<u8>, x: u16, row: u16, w: u16, start: &str, end: &str)
    requires
        row != 0,
    ensures
        final(target)@ == old(target)@ + encode_utf8(
            goto_seq(x, row) + start@ + seq!['└'] + dashes(w as nat) + seq!['┘'] + end@,
        ),
{
    let mut bottom = goto(x, row);
    bottom.append(start);
    push_char(&mut bottom, '└');
    push_dashes(&mut bottom, w as usize);
    push_char(&mut bottom, '┘');
    bottom.append(end);
    write_str(target, bottom.as_str());
    proof {
        assert(bottom@ =~= goto_seq(x, row) + start@ + seq!['└'] + dashes(w as nat) + seq!['┘']
            + end@);
    }
}

/// Draws the frame around a `dims.0` by `dims.1` layer centered in the `width` by `height`
/// box at column `x_off` and row `y_off`, and gives the column and row where the layer goes.
pub fn draw_frame(
    target: &mut Vec<u8>,
    width: u16,
    height: u16,
    dims: (u16, u16),
    color: Option<&ColorEscape>,
    name: Option<&str>,
    x_off: u16,
    y_off: u16,
) -> (r: (u16, u16))
    requires
        frame_drawable(width, height, dims, name_view(name), x_off, y_off),
    ensures
        ({
            let (x, y) = box_origin(width, height, dims, x_off, y_off);
            &&& r == ((x + 1) as u16, (y + 1) as u16)
            &&& final(target)@ == old(target)@ + frame(
                x as u16,
                y as u16,
                dims,
                match color {
                    Some(c) => Some(c.seq()),
                    None => None,
                },
                name_view(name),
            )
        }),
{
    let ghost color_seq = match color {
        Some(c) => Some(c.seq()),
        None => None,
    };
    let x = x_off + (width / 2).saturating_sub(dims.0 / 2 + 1);
    let y = y_off + (height / 2).saturating_sub(dims.1 / 2 + 1);
    let mut start = String::new();
    let mut end = String::new();
    match color {
        Some(c) => {
            start.append(c.inner());
            end.append(ColorEscape::reset().inner());
        },
        None => {
            start.append(ColorEscape::black().inner());
            start.append(ColorEscape::reset().inner());
        },
    }
    assert((start@, end@) == frame_colors(color_seq));
    let ghost t0 = target@;
    draw_top(target, x, y, dims.0, start.as_str(), end.as_str(), name);
    let ghost t1 = target@;
    draw_sides(target, x, y, dims.0, dims.1, start.as_str(), end.as_str());
    let ghost t2 = target@;
    draw_bottom(target, x, y + dims.1 + 1, dims.0, start.as_str(), end.as_str());
    proof {
        assert(target@ =~= t0 + frame(x, y, dims, color_seq, name_view(name)));
    }
    (x + 1, y + 1)
}


/// A layer drawn in a framed box over another; both are borrowed.
pub struct BorrowedOverlay<'a, T, B> {
    top: &'a mut T,
    below: &'a mut B,
    top_dimensions: (u16, u16),
    box_color: Option<&'a ColorEscape>,
    name: Option<&'a str>,
}

impl<'a, T, B> BorrowedOverlay<'a, T, B> {
    /// The width and height of the top layer.
    pub closed spec fn dims(&self) -> (u16, u16) {
        self.top_dimensions
    }

    /// The color of the frame, where it has one.
    pub closed spec fn color(&self) -> Option<Seq<char>> {
        match self.box_color {
            Some(c) => Some(c.seq()),
            None => None,
        }
    }

    /// The name in the top edge, where there is one.
    pub closed spec fn name(&self) -> Option<Seq<char>> {
        name_view(self.name)
    }

    /// `top`, `top_dimensions.0` by `top_dimensions.1`, framed over `below`.
    pub fn new(
        top: &'a mut T,
        below: &'a mut B,
        top_dimensions: (u16, u16),
        box_color: Option<&'a ColorEscape>,
        name: Option<&'a str>,
    ) -> (r: BorrowedOverlay<'a, T, B>)
        ensures
            r.dims() == top_dimensions,
            r.color() == match box_color {
                Some(c) => Some(c.seq()),
                None => None,
            },
            r.name() == name_view(name),
    {
        BorrowedOverlay { top, below, top_dimensions, box_color, name }
    }

    /// Whether the frame can be drawn in the `width` by `height` box at column `x_off`, row
    /// `y_off`.
    pub fn frame_fits(&self, width: u16, height: u16, x_off: u16, y_off: u16) -> (r: bool)
        ensures
            r == frame_drawable(width, height, self.dims(), self.name(), x_off, y_off),
    {
        frame_fits(width, height, self.top_dimensions, self.name, x_off, y_off)
    }

    /// Draws the frame, centered in the `width` by `height` box at column `x_off`, row
    /// `y_off`, over what the lower layer drew; gives the column and row where the top layer
    /// goes.
    pub fn render_frame(&self, target: &mut Vec<u8>, width: u16, height: u16, x_off: u16, y_off: u16) -> (r: (u16, u16))
        requires
            frame_drawable(width, height, self.dims(), self.name(), x_off, y_off),
        ensures
            ({
                let (x, y) = box_origin(width, height, self.dims(), x_off, y_off);
                &&& r == ((x + 1) as u16, (y + 1) as u16)
                &&& final(target)@ == old(target)@ + frame(
                    x as u16,
                    y as u16,
                    self.dims(),
                    self.color(),
                    self.name(),
                )
            }),
    {
        draw_frame(target, width, height, self.top_dimensions, self.box_color, self.name, x_off, y_off)
    }
}

/// A layer drawn in a framed box over another that it owns until it closes.
pub struct OwnedOverlay<T, B> {
    top: T,
    below: B,
    top_dimensions: (u16, u16),
    box_color: Option<ColorEscape>,
    name: Option<String>,
}

impl<T, B> OwnedOverlay<T, B> {
    /// The top layer.
    pub closed spec fn top(&self) -> T {
        self.top
    }

    /// The lower layer.
    pub closed spec fn below(&self) -> B {
        self.below
    }

    /// The width and height of the top layer.
    pub closed spec fn dims(&self) -> (u16, u16) {
        self.top_dimensions
    }

    /// The color of the frame, where it has one.
    pub closed spec fn color(&self) -> Option<Seq<char>> {
        match self.box_color {
            Some(c) => Some(c.seq()),
            None => None,
        }
    }

    /// The name in the top edge, where there is one.
    pub closed spec fn name(&self) -> Option<Seq<char>> {
        match self.name {
            Some(n) => Some(n@),
            None => None,
        }
    }

    /// `top`, `top_dimensions.0` by `top_dimensions.1`, framed over `below`; the top layer
    /// takes at least one column and one row.
    pub fn new(
        top: T,
        below: B,
        top_dimensions: (u16, u16),
        box_color: Option<ColorEscape>,
        name: Option<String>,
    ) -> (r: OwnedOverlay<T, B>)
        requires
            top_dimensions.0 > 0 && top_dimensions.1 > 0,
        ensures
            r.top() == top,
            r.below() == below,
            r.dims() == top_dimensions,
            r.color() == match box_color {
                Some(c) => Some(c.seq()),
                None => None,
            },
            r.name() == match name {
                Some(n) => Some(n@),
                None => None,
            },
    {
        OwnedOverlay { top, below, top_dimensions, box_color, name }
    }

    /// Whether the frame can be drawn in the `width` by `height` box at column `x_off`, row
    /// `y_off`.
    pub fn frame_fits(&self, width: u16, height: u16, x_off: u16, y_off: u16) -> (r: bool)
        ensures
            r == frame_drawable(width, height, self.dims(), self.name(), x_off, y_off),
    {
        let name = match &self.name {
            Some(n) => Some(n.as_str()),
            None => None,
        };
        frame_fits(width, height, self.top_dimensions, name, x_off, y_off)
    }

    /// Draws the frame, as `BorrowedOverlay::render_frame` does.
    pub fn render_frame(&self, target: &mut Vec<u8>, width: u16, height: u16, x_off: u16, y_off: u16) -> (r: (u16, u16))
        requires
            frame_drawable(width, height, self.dims(), self.name(), x_off, y_off),
        ensures
            ({
                let (x, y) = box_origin(width, height, self.dims(), x_off, y_off);
                &&& r == ((x + 1) as u16, (y + 1) as u16)
                &&& final(target)@ == old(target)@ + frame(
                    x as u16,
                    y as u16,
                    self.dims(),
                    self.color(),
                    self.name(),
                )
            }),
    {
        let color = match &self.box_color {
            Some(c) => Some(c),
            None => None,
        };
        let name = match &self.name {
            Some(n) => Some(n.as_str()),
            None => None,
        };
        draw_frame(target, width, height, self.top_dimensions, color, name, x_off, y_off)
    }

    /// The width and height of the top layer.
    pub fn dimensions(&self) -> (r: (u16, u16))
        ensures
            r == self.dims(),
    {
        self.top_dimensions
    }

    /// The top layer, to draw or to change.
    pub fn top_mut(&mut self) -> (r: &mut T)
        ensures
            *r == old(self).top(),
            final(self).top() == *final(r),
            final(self).below() == old(self).below(),
            final(self).dims() == old(self).dims(),
            final(self).color() == old(self).color(),
            final(self).name() == old(self).name(),
    {
        &mut self.top
    }

    /// The lower layer, to draw or to change.
    pub fn below_mut(&mut self) -> (r: &mut B)
        ensures
            *r == old(self).below(),
            final(self).below() == *final(r),
            final(self).top() == old(self).top(),
            final(self).dims() == old(self).dims(),
            final(self).color() == old(self).color(),
            final(self).name() == old(self).name(),
    {
        &mut self.below
    }

    /// The lower layer, which takes the place of the overlay when it closes.
    pub fn into_below(self) -> (r: B)
        ensures
            r == self.below(),
    {
        self.below
    }
}

impl<T: HandleInput, B> HandleInput for OwnedOverlay<T, B> {
    open spec fn accepts_input(&self, k: Key, width: u16, height: u16) -> bool {
        self.top().accepts_input(k, width, height)
    }

    /// The top layer handles the key and its answer is the overlay's; the lower layer, the
    /// frame and the top layer's size stay as they were.
    open spec fn handled(&self, next: &Self, k: Key, width: u16, height: u16, r: InputResult) -> bool {
        &&& self.top().handled(&next.top(), k, width, height, r)
        &&& next.below() == self.below()
        &&& next.dims() == self.dims()
        &&& next.color() == self.color()
        &&& next.name() == self.name()
    }

    /// The top layer handles the key; where it closes, the lower layer takes the overlay's
    /// place.
    fn input(&mut self, k: Key, width: u16, height: u16) -> (r: InputResult)
        ensures
            final(self).below() == old(self).below(),
    {
        self.top.input(k, width, height)
    }
}

} // verus!
