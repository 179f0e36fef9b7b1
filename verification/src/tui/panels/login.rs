//! The login form.
use vstd::prelude::*;

use crate::config::Config;
use crate::tui::widgets::{edit_accepts, edit_post, is_edit_key, Input, PasswordInput};
use crate::tui::{unnamed, HandleInput, InputResult, Key, Renderable};
use crate::utils::align::x::{
    all_measurable, left_aligned, lines_view, max_width, sat_sub, Align, Alignment,
    CenterLongestLeft, Left,
};
use crate::utils::color::{fg_seq, reset_fg_seq, ColorEscape};
use crate::utils::term::{csi, decimal, goto};
use crate::utils::write_str;

verus! {

/// The login form: the server's URL and the password.
pub struct Login {
    server: Input,
    pass: PasswordInput,
    srv_selected: bool,
}

/// The URL the form offers where the configuration names no server.
pub open spec fn default_server() -> Seq<char> {
    seq!['w', 's', ':', '/', '/', ':', '8', '4', '1', '2']
}

/// The text of a label, cyan where it is selected.
pub open spec fn label(name: Seq<char>, selected: bool) -> Seq<char> {
    if selected {
        fg_seq(seq!['6']) + name + reset_fg_seq() + seq![':', ' ']
    } else {
        name + seq![':', ' ']
    }
}

pub open spec fn server_word() -> Seq<char> {
    seq!['S', 'e', 'r', 'v', 'e', 'r']
}

pub open spec fn pass_word() -> Seq<char> {
    seq!['P', 'a', 's', 's']
}

pub open spec fn welcome_line() -> Seq<char> {
    seq![
        'W', 'e', 'l', 'c', 'o', 'm', 'e', ' ', 't', 'o', ' ', 'a', 'x', 'o', 'n', ',', ' ',
        't', 'h', 'e', ' ', 's', 'y', 'n', 'a', 'p', 's', 'e', ' ', 'T', 'U', 'I',
    ]
}

pub open spec fn prompt_line() -> Seq<char> {
    seq![
        'L', 'o', 'g', 'i', 'n', ' ', 't', 'o', ' ', 'a', ' ', 's', 'y', 'n', 'a', 'p', 's',
        'e', ' ', 'i', 'n', 's', 't', 'a', 'n', 'c', 'e', ':',
    ]
}

impl Login {
    /// The server input.
    pub closed spec fn server(&self) -> Input {
        self.server
    }

    /// The password input.
    pub closed spec fn pass(&self) -> Input {
        self.pass.input()
    }

    /// Whether the server input is selected.
    pub closed spec fn srv_selected(&self) -> bool {
        self.srv_selected
    }

    /// The four lines of the form.
    pub open spec fn lines(&self) -> Seq<Seq<char>> {
        let srv = if self.srv_selected() {
            label(server_word(), true) + Input::spec_format_active(
                self.server().clusters(),
                self.server().cursor(),
            )
        } else {
            label(server_word(), false) + self.server().text()
        };
        let pass = if self.srv_selected() {
            label(pass_word(), false) + crate::tui::widgets::stars(self.pass().clusters().len())
        } else {
            label(pass_word(), true) + PasswordInput::spec_format_active(
                self.pass().clusters().len(),
                self.pass().cursor(),
            )
        };
        seq![welcome_line(), prompt_line(), srv, pass]
    }

    /// The form, filled in from the configuration: its server with the cursor one past its
    /// length in bytes, or `ws://:8412` with the cursor after the colon; its password with the
    /// cursor one past its length in bytes, or none. The server is selected.
    pub fn new(config: &Config) -> (r: Login)
        requires
            config.server matches Some(s) ==> s@.len() < usize::MAX / 4,
            config.pass matches Some(s) ==> s@.len() < usize::MAX / 4,
        ensures
            r.srv_selected(),
            config.server matches Some(s) ==> r.server().text() == s@ && r.server().cursor()
                == vstd::utf8::encode_utf8(s@).len() + 1,
            config.server is None ==> r.server().text() == default_server() && r.server().cursor()
                == 6,
            config.pass matches Some(s) ==> r.pass().text() == s@ && r.pass().cursor()
                == vstd::utf8::encode_utf8(s@).len() + 1,
            config.pass is None ==> r.pass().text() == Seq::<char>::empty() && r.pass().cursor()
                == 1,
    {
        let server = match &config.server {
            Some(s) => {
                proof {
                    crate::tui::widgets::lemma_utf8_len_bound(s@);
                }
                let n = s.as_str().len();
                Input::from(s.clone(), Some(n + 1))
            },
            None => {
                proof {
                    reveal_strlit("ws://:8412");
                }
                Input::from(String::from_str("ws://:8412"), Some(6))
            },
        };
        let pass = match &config.pass {
            Some(s) => {
                proof {
                    crate::tui::widgets::lemma_utf8_len_bound(s@);
                }
                let n = s.as_str().len();
                PasswordInput::from(s.clone(), Some(n + 1))
            },
            None => PasswordInput::with_capacity(20),
        };
        Login { server, pass, srv_selected: true }
    }

    /// The server and password lines of the form.
    fn fields(&self) -> (r: (String, String))
        ensures
            r.0@ == self.lines()[2],
            r.1@ == self.lines()[3],
    {
        let mut srv = String::new();
        let mut pass = String::new();
        proof {
            reveal_strlit("Server");
            reveal_strlit("Pass");
            reveal_strlit(": ");
            reveal_strlit("Server: ");
            reveal_strlit("Pass: ");
        }
        if self.srv_selected {
            srv.append(ColorEscape::cyan().inner());
            srv.append("Server");
            srv.append(ColorEscape::reset().inner());
            srv.append(": ");
            srv.append(self.server.format_active().as_str());
            pass.append("Pass: ");
            pass.append(self.pass.format_inactive().as_str());
        } else {
            srv.append("Server: ");
            srv.append(self.server.format_inactive());
            pass.append(ColorEscape::cyan().inner());
            pass.append("Pass");
            pass.append(ColorEscape::reset().inner());
            pass.append(": ");
            pass.append(self.pass.format_active().as_str());
        }
        proof {
            let l = self.lines();
            assert(srv@ =~= l[2]);
            assert(pass@ =~= l[3]);
        }
        (srv, pass)
    }

    /// Whether the form can be drawn in a `width` by `height` screen, as `render` requires:
    /// its lines can be measured, and it does not start at column 0, row 0.
    pub fn can_render(&self, width: u16, height: u16) -> (r: bool)
        ensures
            r == (all_measurable(self.lines()) && (sat_sub(width / 2, max_width(self.lines()) / 2)
                != 0 || height / 3 != 0)),
    {
        let (srv, pass) = self.fields();
        proof {
            reveal_strlit("Welcome to axon, the synapse TUI");
            reveal_strlit("Login to a synapse instance:");
        }
        let lines: [&str; 4] = [
            "Welcome to axon, the synapse TUI",
            "Login to a synapse instance:",
            srv.as_str(),
            pass.as_str(),
        ];
        let ls = lines.as_slice();
        proof {
            let l = self.lines();
            assert(ls@[0]@ =~= l[0]);
            assert(ls@[1]@ =~= l[1]);
            assert(lines_view(ls@) =~= self.lines());
        }
        if !crate::utils::align::x::lines_measurable(ls) {
            return false;
        }
        let x = match CenterLongestLeft::align_offset(ls, width) {
            Alignment::Single(x) => x,
            Alignment::Each(_) => 0,
        };
        x != 0 || height / 3 != 0
    }

    /// Draws the form: its lines flush left, the block centered by its longest line, a third
    /// of the way down.
    pub fn render(&self, target: &mut Vec<u8>, width: u16, height: u16)
        requires
            all_measurable(self.lines()),
            sat_sub(width / 2, max_width(self.lines()) / 2) != 0 || height / 3 != 0,
        ensures
            final(target)@ == old(target)@ + vstd::utf8::encode_utf8(
                csi(
                    decimal((height / 3) as nat).push(';') + decimal(
                        sat_sub(width / 2, max_width(self.lines()) / 2) as nat,
                    ).push('H'),
                ),
            ) + left_aligned(self.lines()),
    {
        let (srv, pass) = self.fields();
        proof {
            reveal_strlit("Welcome to axon, the synapse TUI");
            reveal_strlit("Login to a synapse instance:");
        }
        let lines: [&str; 4] = [
            "Welcome to axon, the synapse TUI",
            "Login to a synapse instance:",
            srv.as_str(),
            pass.as_str(),
        ];
        let ls = lines.as_slice();
        proof {
            let l = self.lines();
            assert(srv@ =~= l[2]);
            assert(pass@ =~= l[3]);
            assert(ls@[0]@ =~= l[0]);
            assert(ls@[1]@ =~= l[1]);
            assert(ls@.len() == 4);
            assert(lines_view(ls@) =~= self.lines());
        }
        let x = match CenterLongestLeft::align_offset(ls, width) {
            Alignment::Single(x) => x,
            Alignment::Each(_) => 0,
        };
        let g = goto(x, height / 3);
        write_str(target, g.as_str());
        Left::align(target, ls);
    }
}

/// The login form as it stands before any configuration is read: `ws://:8412` with the
/// cursor after the colon, no password, the server selected.
pub struct LoginPanel {
    form: Login,
}

impl LoginPanel {
    /// The form.
    pub closed spec fn form(&self) -> Login {
        self.form
    }

    /// The form with the default server and no password.
    pub fn new() -> (r: LoginPanel)
        ensures
            r.form().srv_selected(),
            r.form().server().text() == default_server(),
            r.form().server().cursor() == 6,
            r.form().pass().text() == Seq::<char>::empty(),
            r.form().pass().cursor() == 1,
    {
        let config = Config { server: None, pass: None, autoconnect: false };
        LoginPanel { form: Login::new(&config) }
    }

    /// The form, to draw.
    pub fn inner(&self) -> (r: &Login)
        ensures
            *r == self.form(),
    {
        &self.form
    }

    /// The form, to edit.
    pub fn inner_mut(&mut self) -> (r: &mut Login)
        ensures
            *r == old(self).form(),
            final(self).form() == *final(r),
    {
        &mut self.form
    }
}

impl Renderable for LoginPanel {
    open spec fn title(&self) -> Seq<char> {
        seq!['l', 'o', 'g', 'i', 'n']
    }

    fn name(&self) -> (r: String) {
        proof {
            reveal_strlit("login");
        }
        String::from_str("login")
    }
}

impl Login {
    /// Whether the form can take the key `k`, as `accepts_input` says.
    pub fn accepts(&self, k: Key) -> (r: bool)
        ensures
            forall|w: u16, h: u16| r == self.accepts_input(k, w, h),
    {
        let edits = match k {
            Key::Home | Key::End | Key::Left | Key::Right | Key::Backspace | Key::Delete => true,
            Key::Char(c) => c != '\t' && c != '\n',
            _ => false,
        };
        if !edits {
            return true;
        }
        if self.srv_selected {
            crate::tui::widgets::edit_accepted(self.server.inner(), self.server.cursor_pos(), k)
        } else {
            crate::tui::widgets::edit_accepted(self.pass.inner(), self.pass.cursor_pos(), k)
        }
    }
}

impl Renderable for Login {
    open spec fn title(&self) -> Seq<char> {
        unnamed()
    }

    /// The form gives itself no name.
    fn name(&self) -> (r: String) {
        proof {
            reveal_strlit("unnamed");
        }
        String::from_str("unnamed")
    }
}

impl HandleInput for Login {
    /// Editing stays within the machine's limits.
    open spec fn accepts_input(&self, k: Key, width: u16, height: u16) -> bool {
        let sel = if self.srv_selected() {
            self.server()
        } else {
            self.pass()
        };
        is_edit_key(k) && k != Key::Char('\t') && k != Key::Char('\n') ==> edit_accepts(sel, k)
    }

    /// Tab and the arrows up and down switch between the inputs, Enter asks to connect with
    /// what they hold, the editing keys edit the selected input, and other keys are handed
    /// back.
    open spec fn handled(&self, next: &Self, k: Key, width: u16, height: u16, r: InputResult) -> bool {
        &&& (k == Key::Down || k == Key::Up || k == Key::Char('\t')) ==> next.srv_selected()
            == !self.srv_selected() && next.server() == self.server() && next.pass()
            == self.pass() && r is Rerender
        &&& k == Key::Char('\n') ==> *next == *self && (r matches InputResult::ConnectWith(s, p)
            && s@ == self.server().text() && p@ == self.pass().text())
        &&& (is_edit_key(k) && k != Key::Char('\t') && k != Key::Char('\n')) ==> {
            &&& next.srv_selected() == self.srv_selected()
            &&& r is Rerender
            &&& self.srv_selected() ==> edit_post(self.server(), next.server(), k) && next.pass()
                == self.pass()
            &&& !self.srv_selected() ==> edit_post(self.pass(), next.pass(), k) && next.server()
                == self.server()
        }
        &&& !(is_edit_key(k) || k == Key::Down || k == Key::Up) ==> *next == *self && r
            == InputResult::Key(k)
    }

    /// Tab and the arrows up and down switch between the inputs, Enter asks to connect with
    /// what they hold, and the editing keys edit the selected input; other keys are handed
    /// back.
    fn input(&mut self, k: Key, width: u16, height: u16) -> (r: InputResult)
        ensures
            (k == Key::Down || k == Key::Up || k == Key::Char('\t')) ==> final(self).srv_selected()
                == !old(self).srv_selected() && final(self).server() == old(self).server()
                && final(self).pass() == old(self).pass() && r is Rerender,
            k == Key::Char('\n') ==> *final(self) == *old(self) && (r matches InputResult::ConnectWith(
                s,
                p,
            ) && s@ == old(self).server().text() && p@ == old(self).pass().text()),
            (is_edit_key(k) && k != Key::Char('\t') && k != Key::Char('\n')) ==> {
                &&& final(self).srv_selected() == old(self).srv_selected()
                &&& r is Rerender
                &&& old(self).srv_selected() ==> edit_post(old(self).server(), final(self).server(), k)
                    && final(self).pass() == old(self).pass()
                &&& !old(self).srv_selected() ==> edit_post(old(self).pass(), final(self).pass(), k)
                    && final(self).server() == old(self).server()
            },
            !(is_edit_key(k) || k == Key::Down || k == Key::Up) ==> *final(self) == *old(self)
                && r == InputResult::Key(k),
    {
        if k == Key::Down || k == Key::Up || k == Key::Char('\t') {
            self.srv_selected = !self.srv_selected;
        } else if k == Key::Char('\n') {
            return InputResult::ConnectWith(
                String::from_str(self.server.inner()),
                String::from_str(self.pass.inner()),
            );
        } else if match k {
            Key::Home | Key::End | Key::Left | Key::Right | Key::Backspace | Key::Delete
            | Key::Char(_) => true,
            _ => false,
        } {
            if self.srv_selected {
                self.server.edit(k);
            } else {
                self.pass.edit(k);
            }
        } else {
            return InputResult::Key(k);
        }
        InputResult::Rerender
    }
}

} // verus!
