//! What the main panel shows: the styles and texts of its rows, and its layout decisions.
use vstd::prelude::*;
use vstd::string::*;

use super::{Focus, Main, MainView, Torrent, TorrentView, TrackerGroupView, TrackerRefView};
use crate::utils::align::x::sat_sub;
use crate::utils::color::{bg_seq, fg_seq, reset_bg_seq, reset_fg_seq, ColorEscape};
use crate::utils::term::decimal;
use crate::tui::{HandleInput, Key};
use crate::utils::{decimal_string, views};

verus! {

/// The panes of the main panel and the rows they get.
#[derive(PartialEq, Eq, Structural)]
pub struct PaneLayout {
    /// The tracker list shows, on the left, beside the torrents.
    pub trackers: bool,
    /// The detail tabs show, below the torrents.
    pub details: bool,
    /// The rows above the two-row footer.
    pub body_rows: u16,
    /// The rows of the torrent list: the body's, less six for the detail tabs where they show.
    pub list_rows: u16,
}

/// How the main panel `v` divides `height` rows.
pub open spec fn pane_layout(v: MainView, height: u16) -> PaneLayout {
    let details = v.details.len() > 0;
    PaneLayout {
        trackers: v.trackers_disp,
        details,
        body_rows: super::sat(height as int, 2) as u16,
        list_rows: (if details {
            super::sat(height as int, 8)
        } else {
            super::sat(height as int, 2)
        }) as u16,
    }
}

/// How many torrents of the panel `v` a list of `height` rows shows.
pub open spec fn rows_shown(v: MainView, height: u16) -> int {
    let left = super::sat(v.torrents.len() as int, v.lower);
    if height < left {
        height as int
    } else {
        left
    }
}

/// One of the entries `others` of a tracker reports an error for the torrent `id`.
pub open spec fn other_error_for(others: Seq<TrackerRefView>, id: Seq<char>) -> bool {
    exists|j: int|
        0 <= j < others.len() && #[trigger] others[j].torrent_id == id && others[j].error is Some
}

/// One of the trackers of torrent `t` (by host) reports an error: the tracker's own, for any
/// torrent, or one of its entries for `t`.
pub open spec fn tracker_error(t: TorrentView, groups: Seq<TrackerGroupView>) -> bool {
    exists|g: int|
        0 <= g < groups.len() && t.tracker_urls.contains(#[trigger] groups[g].base.host) && (
        groups[g].base.error is Some || other_error_for(groups[g].others, t.id))
}

/// The sequences before and after the row of the torrent at `i`: cyan on red for the selected
/// torrent with an error while the list has the focus, cyan for the selected one otherwise
/// while the list has the focus, red for one with an error, none otherwise.
pub open spec fn torrent_style(v: MainView, i: int) -> (Seq<char>, Seq<char>) {
    let t = v.torrents[i];
    let err = t.error is Some || tracker_error(t, v.trackers);
    let selected = v.focus == Focus::Torrents && i == v.sel;
    if selected && err {
        (fg_seq(seq!['6']) + bg_seq(seq!['1']), reset_fg_seq() + reset_bg_seq())
    } else if selected {
        (fg_seq(seq!['6']), reset_fg_seq())
    } else if err {
        (fg_seq(seq!['1']), reset_fg_seq())
    } else {
        (Seq::empty(), Seq::empty())
    }
}

/// The name shown for a torrent: its name, or its path where it has none.
pub open spec fn shown_name(t: TorrentView) -> Seq<char> {
    match t.name {
        Some(n) => n,
        None => t.path,
    }
}

/// The torrent whose trackers are highlighted: the selected torrent of the list, or the
/// selected detail tab while the tabs have the focus.
pub open spec fn highlighted(v: MainView) -> Option<TorrentView> {
    if v.focus == Focus::Details {
        if 0 <= v.detail_idx < v.details.len() {
            Some(v.details[v.detail_idx])
        } else {
            None
        }
    } else if 0 <= v.sel < v.torrents.len() {
        Some(v.torrents[v.sel])
    } else {
        None
    }
}

/// The row of tracker group `g`: the number of torrents it serves and its host, cyan where it
/// serves the highlighted torrent, red where it reports an error for that torrent, both as
/// cyan on red.
pub open spec fn tracker_row(v: MainView, g: int) -> Seq<char> {
    let grp = v.trackers[g];
    let sel = highlighted(v);
    let matches = sel matches Some(t) && t.tracker_urls.contains(grp.base.host);
    let sel_id = match sel {
        Some(t) => t.id,
        None => Seq::empty(),
    };
    let err = (grp.base.error is Some && grp.base.torrent_id == sel_id) || (sel is Some
        && other_error_for(grp.others, sel_id));
    let (on, off) = if matches && err {
        (fg_seq(seq!['6']) + bg_seq(seq!['1']), reset_fg_seq() + reset_bg_seq())
    } else if matches {
        (fg_seq(seq!['6']), reset_fg_seq())
    } else if err {
        (fg_seq(seq!['1']), reset_fg_seq())
    } else {
        (Seq::empty(), Seq::empty())
    };
    on + decimal((grp.others.len() + 1) as nat) + seq![' '] + grp.base.host + off
}

/// Whether the statistics columns are shown in a list `width` columns wide whose columns take
/// `all` columns, and the width left for the names: the statistics go where at least a third
/// of the width is left beside them.
pub open spec fn stats_layout(width: u16, all: int) -> (bool, u16) {
    let rest = sat_sub(width, ((all % 0x10000) + 1) as u16);
    if rest < width / 3 {
        (false, width)
    } else {
        (true, rest)
    }
}

/// Appends `t` to `s`.
fn push_str(s: &mut String, t: &str)
    ensures
        final(s)@ == old(s)@ + t@,
{
    s.append(t);
}

/// `others[j]` reports an error for the torrent `id`.
fn other_error_at(others: &Vec<super::TrackerRef>, id: &str) -> (r: bool)
    ensures
        r == other_error_for(others@.map_values(|o: super::TrackerRef| o@), id@),
{
    let ghost os = others@.map_values(|o: super::TrackerRef| o@);
    let mut j: usize = 0;
    while j < others.len()
        invariant
            os == others@.map_values(|o: super::TrackerRef| o@),
            j <= others@.len(),
            forall|k: int| 0 <= k < j ==> !(#[trigger] os[k].torrent_id == id@ && os[k].error is Some),
        decreases others.len() - j,
    {
        let o = &others[j];
        if o.error.is_some() && same(o.torrent_id.as_str(), id) {
            assert(os[j as int].torrent_id == id@ && os[j as int].error is Some);
            return true;
        }
        j = j + 1;
    }
    false
}

/// `a` and `b` are the same text.
fn same(a: &str, b: &str) -> (r: bool)
    ensures
        r == (a@ == b@),
{
    crate::tui::widgets::text::same_text(a, b)
}

/// `urls` holds `host`.
fn holds(urls: &Vec<String>, host: &str) -> (r: bool)
    ensures
        r == views(urls@).contains(host@),
{
    let ghost us = views(urls@);
    let mut j: usize = 0;
    while j < urls.len()
        invariant
            us == views(urls@),
            j <= urls@.len(),
            forall|k: int| 0 <= k < j ==> us[k] != host@,
        decreases urls.len() - j,
    {
        if same(urls[j].as_str(), host) {
            assert(us[j as int] == host@);
            return true;
        }
        j = j + 1;
    }
    false
}

impl Main {
    /// Whether one of the trackers of the torrent at `i` reports an error.
    pub fn has_tracker_error(&self, i: usize) -> (r: bool)
        requires
            i < self.state().torrents.len(),
        ensures
            r == tracker_error(self.state().torrents[i as int], self.state().trackers),
    {
        let ghost v = self.state();
        let t = &self.torrents.2[i];
        let mut g: usize = 0;
        while g < self.trackers.len()
            invariant
                v == self.state(),
                i < v.torrents.len(),
                *t == self.torrents.2@[i as int],
                g <= v.trackers.len(),
                forall|k: int|
                    0 <= k < g ==> !(v.torrents[i as int].tracker_urls.contains(
                        #[trigger] v.trackers[k].base.host,
                    ) && (v.trackers[k].base.error is Some || other_error_for(
                        v.trackers[k].others,
                        v.torrents[i as int].id,
                    ))),
            decreases self.trackers.len() - g,
        {
            let grp = &self.trackers[g];
            if holds(&t.tracker_urls, grp.base.host.as_str()) && (grp.base.error.is_some()
                || other_error_at(&grp.others, t.id.as_str())) {
                proof {
                    assert(v.trackers[g as int] == grp@);
                    assert(v.torrents[i as int] == t@);
                    assert(v.torrents[i as int].tracker_urls.contains(v.trackers[g as int].base.host));
                }
                return true;
            }
            g = g + 1;
        }
        false
    }

    /// The sequences before and after the row of the torrent at `i`.
    pub fn torrent_style(&self, i: usize) -> (r: (String, String))
        requires
            i < self.state().torrents.len(),
        ensures
            (r.0@, r.1@) == torrent_style(self.state(), i as int),
    {
        let t = &self.torrents.2[i];
        let err = t.error.is_some() || self.has_tracker_error(i);
        let selected = matches!(self.focus, Focus::Torrents) && i == self.torrents.1;
        let mut on = String::new();
        let mut off = String::new();
        if selected {
            push_str(&mut on, ColorEscape::cyan().inner());
            push_str(&mut off, ColorEscape::reset().inner());
            if err {
                push_str(&mut on, ColorEscape::red_bg().inner());
                push_str(&mut off, ColorEscape::reset_bg().inner());
            }
        } else if err {
            push_str(&mut on, ColorEscape::red().inner());
            push_str(&mut off, ColorEscape::reset().inner());
        }
        (on, off)
    }

    /// The name row of the torrent at `i`: its name, or its path, in its style.
    pub fn torrent_name_row(&self, i: usize) -> (r: String)
        requires
            i < self.state().torrents.len(),
        ensures
            r@ == torrent_style(self.state(), i as int).0 + shown_name(
                self.state().torrents[i as int],
            ) + torrent_style(self.state(), i as int).1,
    {
        let (mut on, off) = self.torrent_style(i);
        let t = &self.torrents.2[i];
        match &t.name {
            Some(n) => push_str(&mut on, n.as_str()),
            None => push_str(&mut on, t.path.as_str()),
        }
        push_str(&mut on, off.as_str());
        on
    }

    /// The row of tracker group `g`.
    pub fn tracker_row(&self, g: usize) -> (r: String)
        requires
            g < self.state().trackers.len(),
            self.state().trackers[g as int].others.len() < u64::MAX,
        ensures
            r@ == tracker_row(self.state(), g as int),
    {
        let ghost v = self.state();
        let grp = &self.trackers[g];
        let sel: Option<&Torrent> = if matches!(self.focus, Focus::Details) {
            if self.details.0 < self.details.1.len() {
                Some(self.details.1[self.details.0].inner())
            } else {
                None
            }
        } else if self.torrents.1 < self.torrents.2.len() {
            Some(&self.torrents.2[self.torrents.1])
        } else {
            None
        };
        assert(match sel {
            Some(t) => highlighted(v) == Some(t@),
            None => highlighted(v) is None,
        });
        let host = grp.base.host.as_str();
        let matched = match sel {
            Some(t) => holds(&t.tracker_urls, host),
            None => false,
        };
        let sel_id = match sel {
            Some(t) => t.id.as_str(),
            None => "",
        };
        proof {
            reveal_strlit("");
        }
        let err = (grp.base.error.is_some() && same(grp.base.torrent_id.as_str(), sel_id)) || (
        sel.is_some() && other_error_at(&grp.others, sel_id));
        proof {
            assert(grp@ == v.trackers[g as int]);
            assert(grp@.others =~= grp.others@.map_values(|o: super::TrackerRef| o@));
            let spec_sel = highlighted(v);
            let spec_id = match spec_sel {
                Some(t) => t.id,
                None => Seq::<char>::empty(),
            };
            assert(sel_id@ == spec_id);
            assert(matched == (spec_sel matches Some(t) && t.tracker_urls.contains(
                grp@.base.host,
            )));
            assert(err == ((grp@.base.error is Some && grp@.base.torrent_id == spec_id) || (
            spec_sel is Some && other_error_for(grp@.others, spec_id))));
        }
        let mut r = String::new();
        if matched {
            push_str(&mut r, ColorEscape::cyan().inner());
            if err {
                push_str(&mut r, ColorEscape::red_bg().inner());
            }
        } else if err {
            push_str(&mut r, ColorEscape::red().inner());
        }
        let n = decimal_string(grp.others.len() as u64 + 1);
        push_str(&mut r, n.as_str());
        push_str(&mut r, " ");
        push_str(&mut r, host);
        if matched {
            push_str(&mut r, ColorEscape::reset().inner());
            if err {
                push_str(&mut r, ColorEscape::reset_bg().inner());
            }
        } else if err {
            push_str(&mut r, ColorEscape::reset().inner());
        }
        proof {
            reveal_strlit(" ");
            assert(r@ =~= tracker_row(v, g as int));
        }
        r
    }

    /// Whether the statistics columns are shown in a list `width` columns wide, and the width
    /// left for the names.
    pub fn stats_layout(&self, width: u16) -> (r: (bool, u16))
        requires
            self.state().widths.4 % 0x10000 < 0xffff,
        ensures
            r == stats_layout(width, self.state().widths.4),
    {
        let w4 = self.torrent_widths.4;
        let all = w4 as u16;
        assert(all == w4 % 0x10000) by (bit_vector)
            requires
                all == w4 as u16,
        ;
        let rest = width.saturating_sub(all + 1);
        if rest < width / 3 {
            (false, width)
        } else {
            (true, rest)
        }
    }
}

impl Main {
    /// The part of the panel that has the focus.
    pub fn focus(&self) -> (r: Focus)
        ensures
            r == self.state().focus,
    {
        self.focus
    }

    /// The number of torrents in the list.
    pub fn torrent_count(&self) -> (r: usize)
        ensures
            r == self.state().torrents.len(),
    {
        self.torrents.2.len()
    }

    /// How the panel divides `height` rows: the panes it shows and the rows they get.
    pub fn layout(&self, height: u16) -> (r: PaneLayout)
        ensures
            r == pane_layout(self.state(), height),
    {
        let details = self.details.1.len() > 0;
        PaneLayout {
            trackers: self.trackers_disp,
            details,
            body_rows: height.saturating_sub(2),
            list_rows: if details {
                height.saturating_sub(8)
            } else {
                height.saturating_sub(2)
            },
        }
    }

    /// How many torrents a list of `height` rows shows: from the first shown on, as many as
    /// there are rows and torrents left.
    pub fn rows_shown(&self, height: u16) -> (r: usize)
        ensures
            r == rows_shown(self.state(), height),
    {
        let left = self.torrents.2.len().saturating_sub(self.torrents.0);
        if (height as usize) < left {
            height as usize
        } else {
            left
        }
    }

    /// The index of the first torrent shown.
    pub fn first_shown(&self) -> (r: usize)
        ensures
            r == self.state().lower,
    {
        self.torrents.0
    }

    /// The index of the selected torrent.
    pub fn selected(&self) -> (r: usize)
        ensures
            r == self.state().sel,
    {
        self.torrents.1
    }

    /// The torrent at `i`.
    pub fn torrent(&self, i: usize) -> (r: &Torrent)
        requires
            i < self.state().torrents.len(),
        ensures
            r@ == self.state().torrents[i as int],
    {
        &self.torrents.2[i]
    }

    /// The widths of the status, upload throttle, download throttle and ratio columns, and of
    /// all columns.
    pub fn column_widths(&self) -> (r: (usize, usize, usize, usize, usize))
        ensures
            (r.0 as int, r.1 as int, r.2 as int, r.3 as int, r.4 as int) == self.state().widths,
    {
        self.torrent_widths
    }

    /// The number of tracker groups.
    pub fn tracker_count(&self) -> (r: usize)
        ensures
            r == self.state().trackers.len(),
    {
        self.trackers.len()
    }

    /// Whether the filter line is shown.
    pub fn filter_shown(&self) -> (r: bool)
        ensures
            r == self.state().filter_disp,
    {
        self.filter_disp
    }

    /// Whether the tracker list is shown.
    pub fn trackers_shown(&self) -> (r: bool)
        ensures
            r == self.state().trackers_disp,
    {
        self.trackers_disp
    }

    /// The filter line, highlighted while the filter has the focus.
    pub fn filter_line(&self) -> (r: String)
        ensures
            r@ == if self.state().focus == Focus::Filter {
                fg_seq(seq!['6']) + crate::utils::filter::filter_label(self.filter().mode())
                    + reset_fg_seq() + crate::tui::widgets::Input::spec_format_active(
                    self.filter().entry().clusters(),
                    self.filter().entry().cursor(),
                )
            } else {
                crate::utils::filter::filter_label(self.filter().mode()) + self.filter().text()
            },
    {
        self.filter.format(matches!(self.focus, Focus::Filter))
    }

    /// The number of detail tabs.
    pub fn detail_count(&self) -> (r: usize)
        ensures
            r == self.state().details.len(),
    {
        self.details.1.len()
    }

    /// The index of the detail tab shown.
    pub fn detail_idx(&self) -> (r: usize)
        ensures
            r == self.state().detail_idx,
    {
        self.details.0
    }

    /// The detail tab at `i`.
    pub fn detail(&self, i: usize) -> (r: &super::TorrentDetails)
        requires
            i < self.state().details.len(),
        ensures
            r.torrent() == self.state().details[i as int],
    {
        &self.details.1[i]
    }

    /// The server's RPC version, `?.?` until it is known.
    pub fn server_version(&self) -> (r: &str)
        ensures
            r@ == self.state().server_version,
    {
        self.server_version.as_str()
    }
}

impl Main {
    /// Whether the panel can take the key `k`, as `accepts_input` says.
    pub fn accepts(&self, k: Key, width: u16, height: u16) -> (r: bool)
        ensures
            r == self.accepts_input(k, width, height),
    {
        let ghost v = self.state();
        let n = self.torrents.2.len();
        let nd = self.details.1.len();
        if !(self.torrents.0 <= self.torrents.1 && self.torrents.1 < usize::MAX / 2) {
            return false;
        }
        if !(self.details.0 < usize::MAX - 1) {
            return false;
        }
        if matches!(self.focus, Focus::Details) && nd == 0 {
            return false;
        }
        if !(n < usize::MAX / 2 && nd < usize::MAX / 2) {
            return false;
        }
        let mut i: usize = 0;
        while i < n
            invariant
                v == self.state(),
                n == v.torrents.len(),
                i <= n,
                forall|j: int| 0 <= j < i ==> #[trigger] v.torrents[j].ratio_width <= 64,
            decreases n - i,
        {
            if self.torrents.2[i].ratio_width > 64 {
                assert(v.torrents[i as int].ratio_width > 64);
                return false;
            }
            i = i + 1;
        }
        assert(super::ratios_bounded(v.torrents));
        let on_torrents = matches!(self.focus, Focus::Torrents);
        if on_torrents && k == Key::End && !(height > 2 || n == 0) {
            return false;
        }
        if on_torrents && k == Key::PageDown && height <= 2 && n > 0 && !(self.torrents.1 < n) {
            return false;
        }
        if k == Key::Char('d') && on_torrents && n > 0 && !(self.torrents.1 < n) {
            return false;
        }
        if k == Key::Char('q') && matches!(self.focus, Focus::Details) && !(self.details.0 < nd) {
            return false;
        }
        if matches!(self.focus, Focus::Filter) && k != Key::Ctrl('f') && k != Key::Esc {
            return self.filter.accepts(k, width, height);
        }
        true
    }
}

} // verus!
