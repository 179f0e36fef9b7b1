//! Two components side by side or one above the other, with a divider between them.
use vstd::prelude::*;
use vstd::string::*;
use vstd::utf8::encode_utf8;

use super::tabs::goto_seq;
use crate::tui::Renderable;
use crate::utils::color::{fg_seq, reset_fg_seq, ColorEscape};
use crate::utils::term::goto;
use crate::utils::{push_char, write_str};

verus! {

/// Row `i` of a vertical divider `height` rows high is cyan: in the upper half where the left
/// component is active, in the lower half (below the middle row) where the right one is.
pub open spec fn vertical_lit(i: int, height: u16, left_active: Option<bool>) -> bool {
    (left_active == Some(true) && i < height / 2) || (left_active == Some(false) && i > height / 2)
}

/// The rows `i..height` of a vertical divider in column `x`, from row `y_off`.
pub open spec fn vertical_rows(x: u16, y_off: u16, height: u16, left_active: Option<bool>, i: int) -> Seq<u8>
    decreases height - i,
{
    if i >= height || i < 0 {
        Seq::empty()
    } else {
        encode_utf8(
            goto_seq(x, (y_off + i) as u16) + if vertical_lit(i, height, left_active) {
                fg_seq(seq!['6']) + seq!['│'] + reset_fg_seq()
            } else {
                seq!['│']
            },
        ) + vertical_rows(x, y_off, height, left_active, i + 1)
    }
}

/// The pieces `i..width` of a horizontal divider: cyan from its start to its middle where the
/// top component is active, from its middle on where the bottom one is.
pub open spec fn horizontal_pieces(width: u16, top_active: Option<bool>, i: int) -> Seq<char>
    decreases width - i,
{
    if i >= width || i < 0 {
        Seq::empty()
    } else {
        let piece = if (top_active == Some(true) && i == 0) || (top_active == Some(false) && i
            == width / 2) {
            fg_seq(seq!['6']) + seq!['─']
        } else if (top_active == Some(true) && i == width / 2) || (top_active == Some(false) && i
            == width) {
            seq!['─'] + reset_fg_seq()
        } else {
            seq!['─']
        };
        piece + horizontal_pieces(width, top_active, i + 1)
    }
}

/// Writes a vertical divider in column `x`, `height` rows from row `y_off`.
pub fn vertical_divider(target: &mut Vec<u8>, x: u16, y_off: u16, height: u16, left_active: Option<bool>)
    requires
        height == 0 || y_off + height - 1 <= u16::MAX,
        x != 0 || y_off != 0,
    ensures
        final(target)@ == old(target)@ + vertical_rows(x, y_off, height, left_active, 0),
{
    let mut i: u16 = 0;
    proof {
        assert(old(target)@ + vertical_rows(x, y_off, height, left_active, 0) =~= target@
            + vertical_rows(x, y_off, height, left_active, 0));
    }
    while i < height
        invariant
            i <= height,
            height == 0 || y_off + height - 1 <= u16::MAX,
            x != 0 || y_off != 0,
            old(target)@ + vertical_rows(x, y_off, height, left_active, 0) == target@
                + vertical_rows(x, y_off, height, left_active, i as int),
        decreases height - i,
    {
        let ghost t0 = target@;
        let mut s = goto(x, y_off + i);
        let lit = match left_active {
            Some(true) => i < height / 2,
            Some(false) => i > height / 2,
            None => false,
        };
        if lit {
            s.append(ColorEscape::cyan().inner());
            push_char(&mut s, '│');
            s.append(ColorEscape::reset().inner());
        } else {
            push_char(&mut s, '│');
        }
        write_str(target, s.as_str());
        proof {
            assert(s@ =~= goto_seq(x, (y_off + i) as u16) + if vertical_lit(
                i as int,
                height,
                left_active,
            ) {
                fg_seq(seq!['6']) + seq!['│'] + reset_fg_seq()
            } else {
                seq!['│']
            });
            assert(t0 + vertical_rows(x, y_off, height, left_active, i as int) =~= target@
                + vertical_rows(x, y_off, height, left_active, i + 1));
        }
        i = i + 1;
    }
    proof {
        assert(target@ =~= target@ + vertical_rows(x, y_off, height, left_active, i as int));
    }
}

/// Writes a horizontal divider `width` columns wide at column `x_off`, row `y`.
pub fn horizontal_divider(target: &mut Vec<u8>, x_off: u16, y: u16, width: u16, top_active: Option<bool>)
    requires
        x_off != 0 || y != 0,
    ensures
        final(target)@ == old(target)@ + encode_utf8(
            goto_seq(x_off, y) + horizontal_pieces(width, top_active, 0),
        ),
{
    let mut s = goto(x_off, y);
    let ghost start = s@;
    let mut i: u16 = 0;
    proof {
        assert(start + horizontal_pieces(width, top_active, 0) =~= s@ + horizontal_pieces(
            width,
            top_active,
            0,
        ));
    }
    while i < width
        invariant
            i <= width,
            start + horizontal_pieces(width, top_active, 0) == s@ + horizontal_pieces(
                width,
                top_active,
                i as int,
            ),
        decreases width - i,
    {
        let ghost s0 = s@;
        let (on, off) = match top_active {
            Some(true) => (i == 0, i == width / 2),
            Some(false) => (i == width / 2, false),
            None => (false, false),
        };
        if on {
            s.append(ColorEscape::cyan().inner());
            push_char(&mut s, '─');
        } else if off {
            push_char(&mut s, '─');
            s.append(ColorEscape::reset().inner());
        } else {
            push_char(&mut s, '─');
        }
        proof {
            assert(s0 + horizontal_pieces(width, top_active, i as int) =~= s@ + horizontal_pieces(
                width,
                top_active,
                i + 1,
            ));
        }
        i = i + 1;
    }
    proof {
        assert(s@ =~= s@ + horizontal_pieces(width, top_active, i as int));
    }
    write_str(target, s.as_str());
}

/// Two components side by side, the left one `left_size` columns wide.
pub struct VSplit<L, R> {
    left: L,
    right: R,
    left_active: Option<bool>,
    left_size: u16,
    draw_div: bool,
}

impl<L, R> VSplit<L, R> {
    /// The width of the left component.
    pub closed spec fn left_size(&self) -> u16 {
        self.left_size
    }

    /// Whether a divider is drawn between the components.
    pub closed spec fn divided(&self) -> bool {
        self.draw_div
    }

    /// Which component is active, where one is.
    pub closed spec fn left_active(&self) -> Option<bool> {
        self.left_active
    }

    /// The components.
    pub closed spec fn parts(&self) -> (L, R) {
        (self.left, self.right)
    }

    /// `left` in the first `left_size` columns and `right` in the rest, with a divider between
    /// them where `draw_div` holds.
    pub fn new(left: L, right: R, left_active: Option<bool>, left_size: u16, draw_div: bool) -> (r:
        VSplit<L, R>)
        ensures
            r.left_size() == left_size,
            r.divided() == draw_div,
            r.left_active() == left_active,
            r.parts() == (left, right),
    {
        VSplit { left, right, left_active, left_size, draw_div }
    }

    /// The columns the divider takes.
    pub open spec fn gap(&self) -> int {
        if self.divided() {
            1
        } else {
            0
        }
    }

    /// Draws the divider of the `width` by `height` box at column `x_off`, row `y_off`, and
    /// gives the width and the column of the right component's box.
    pub fn render_divider(&self, target: &mut Vec<u8>, width: u16, height: u16, x_off: u16, y_off: u16) -> (r: (u16, u16))
        requires
            self.left_size() + self.gap() <= width,
            x_off + self.left_size() + self.gap() <= u16::MAX,
            self.divided() ==> (height == 0 || y_off + height - 1 <= u16::MAX) && (x_off
                + self.left_size() != 0 || y_off != 0),
        ensures
            r == ((width - self.left_size() - self.gap()) as u16, (x_off + self.left_size()
                + self.gap()) as u16),
            final(target)@ == old(target)@ + if self.divided() {
                vertical_rows(
                    (x_off + self.left_size()) as u16,
                    y_off,
                    height,
                    self.left_active(),
                    0,
                )
            } else {
                Seq::empty()
            },
    {
        let comp: u16 = if self.draw_div {
            vertical_divider(target, x_off + self.left_size, y_off, height, self.left_active);
            1
        } else {
            proof {
                assert(target@ =~= old(target)@ + Seq::<u8>::empty());
            }
            0
        };
        (width - self.left_size - comp, x_off + self.left_size + comp)
    }

    /// The left component, to draw.
    pub fn left_mut(&mut self) -> (r: &mut L)
        ensures
            *r == old(self).parts().0,
            final(self).parts() == (*final(r), old(self).parts().1),
            final(self).left_size() == old(self).left_size(),
            final(self).divided() == old(self).divided(),
            final(self).left_active() == old(self).left_active(),
    {
        &mut self.left
    }

    /// The right component, to draw.
    pub fn right_mut(&mut self) -> (r: &mut R)
        ensures
            *r == old(self).parts().1,
            final(self).parts() == (old(self).parts().0, *final(r)),
            final(self).left_size() == old(self).left_size(),
            final(self).divided() == old(self).divided(),
            final(self).left_active() == old(self).left_active(),
    {
        &mut self.right
    }
}

/// Two components one above the other, the top one `top_size` rows high.
pub struct HSplit<T, B> {
    top: T,
    bot: B,
    top_active: Option<bool>,
    top_size: u16,
    draw_div: bool,
}

impl<T, B> HSplit<T, B> {
    /// The height of the top component.
    pub closed spec fn top_size(&self) -> u16 {
        self.top_size
    }

    /// Whether a divider is drawn between the components.
    pub closed spec fn divided(&self) -> bool {
        self.draw_div
    }

    /// Which component is active, where one is.
    pub closed spec fn top_active(&self) -> Option<bool> {
        self.top_active
    }

    /// The components.
    pub closed spec fn parts(&self) -> (T, B) {
        (self.top, self.bot)
    }

    /// `top` in the first `top_size` rows and `bot` below, with a divider between them where
    /// `draw_div` holds.
    pub fn new(top: T, bot: B, top_active: Option<bool>, top_size: u16, draw_div: bool) -> (r:
        HSplit<T, B>)
        ensures
            r.top_size() == top_size,
            r.divided() == draw_div,
            r.top_active() == top_active,
            r.parts() == (top, bot),
    {
        HSplit { top, bot, top_active, top_size, draw_div }
    }

    /// The rows the divider takes.
    pub open spec fn gap(&self) -> int {
        if self.divided() {
            1
        } else {
            0
        }
    }

    /// Draws the divider of the `width` by `height` box at column `x_off`, row `y_off`, and
    /// gives the height and the row of the bottom component's box.
    pub fn render_divider(&self, target: &mut Vec<u8>, width: u16, height: u16, x_off: u16, y_off: u16) -> (r: (u16, u16))
        requires
            self.top_size() + self.gap() <= height,
            y_off + self.top_size() + self.gap() <= u16::MAX,
            self.divided() ==> x_off != 0 || y_off + self.top_size() != 0,
        ensures
            r == ((height - self.top_size() - self.gap()) as u16, (y_off + self.top_size()
                + self.gap()) as u16),
            final(target)@ == old(target)@ + if self.divided() {
                encode_utf8(
                    goto_seq(x_off, (y_off + self.top_size()) as u16) + horizontal_pieces(
                        width,
                        self.top_active(),
                        0,
                    ),
                )
            } else {
                Seq::empty()
            },
    {
        let comp: u16 = if self.draw_div {
            horizontal_divider(target, x_off, y_off + self.top_size, width, self.top_active);
            1
        } else {
            proof {
                assert(target@ =~= old(target)@ + Seq::<u8>::empty());
            }
            0
        };
        (height - self.top_size - comp, y_off + self.top_size + comp)
    }

    /// The top component, to draw.
    pub fn top_mut(&mut self) -> (r: &mut T)
        ensures
            *r == old(self).parts().0,
            final(self).parts() == (*final(r), old(self).parts().1),
            final(self).top_size() == old(self).top_size(),
            final(self).divided() == old(self).divided(),
            final(self).top_active() == old(self).top_active(),
    {
        &mut self.top
    }

    /// The bottom component, to draw.
    pub fn bot_mut(&mut self) -> (r: &mut B)
        ensures
            *r == old(self).parts().1,
            final(self).parts() == (old(self).parts().0, *final(r)),
            final(self).top_size() == old(self).top_size(),
            final(self).divided() == old(self).divided(),
            final(self).top_active() == old(self).top_active(),
    {
        &mut self.bot
    }
}

impl<T: Renderable, B: Renderable> Renderable for HSplit<T, B> {
    /// The names of the components, in brackets, separated by a dashed line.
    open spec fn title(&self) -> Seq<char> {
        seq!['('] + self.parts().0.title() + seq![' ', '╏', ' '] + self.parts().1.title()
            + seq![')']
    }

    fn name(&self) -> (r: String) {
        let mut s = String::new();
        push_char(&mut s, '(');
        s.append(self.top.name().as_str());
        s.append(" ╏ ");
        s.append(self.bot.name().as_str());
        push_char(&mut s, ')');
        proof {
            reveal_strlit(" ╏ ");
            assert(s@ =~= self.title());
        }
        s
    }
}

} // verus!
