//! The panels of the interface: the login form and the main torrent list.
use vstd::prelude::*;

pub mod drawing;
pub mod limits;
pub mod login;
pub mod properties;
pub mod torrent_details;

pub use self::limits::Limits;
pub use self::login::Login;
pub use self::torrent_details::TorrentDetails;

use crate::tui::Key;
use crate::utils::push_char;

verus! {

/// The state of a torrent.
#[derive(Clone, Copy, PartialEq, Eq, Structural)]
pub enum Status {
    Pending,
    Magnet,
    Paused,
    Leeching,
    Idle,
    Seeding,
    Hashing,
    Error,
}

impl Status {
    /// The name of the state.
    pub open spec fn spec_as_str(self) -> Seq<char> {
        match self {
            Status::Pending => seq!['p', 'e', 'n', 'd', 'i', 'n', 'g'],
            Status::Paused => seq!['p', 'a', 'u', 's', 'e', 'd'],
            Status::Leeching => seq!['l', 'e', 'e', 'c', 'h', 'i', 'n', 'g'],
            Status::Idle => seq!['i', 'd', 'l', 'e'],
            Status::Seeding => seq!['s', 'e', 'e', 'd', 'i', 'n', 'g'],
            Status::Hashing => seq!['h', 'a', 's', 'h', 'i', 'n', 'g'],
            Status::Magnet => seq!['m', 'a', 'g', 'n', 'e', 't'],
            Status::Error => seq!['e', 'r', 'r', 'o', 'r'],
        }
    }

    /// The length of the name of the state; the names are ASCII, so this is also their length
    /// in bytes.
    pub fn name_len(&self) -> (r: usize)
        ensures
            r == self.spec_as_str().len(),
    {
        match self {
            Status::Pending => 7,
            Status::Paused => 6,
            Status::Leeching => 8,
            Status::Idle => 4,
            Status::Seeding => 7,
            Status::Hashing => 7,
            Status::Magnet => 6,
            Status::Error => 5,
        }
    }

    /// The name of the state.
    pub fn as_str(&self) -> (r: &'static str)
        ensures
            r@ == self.spec_as_str(),
    {
        proof {
            reveal_strlit("pending");
            reveal_strlit("paused");
            reveal_strlit("leeching");
            reveal_strlit("idle");
            reveal_strlit("seeding");
            reveal_strlit("hashing");
            reveal_strlit("magnet");
            reveal_strlit("error");
        }
        match self {
            Status::Pending => "pending",
            Status::Paused => "paused",
            Status::Leeching => "leeching",
            Status::Idle => "idle",
            Status::Seeding => "seeding",
            Status::Hashing => "hashing",
            Status::Magnet => "magnet",
            Status::Error => "error",
        }
    }
}

/// What the panels read of a torrent.
pub struct Torrent {
    pub id: String,
    pub name: Option<String>,
    pub path: String,
    pub status: Status,
    pub error: Option<String>,
    pub throttle_up: Option<i64>,
    pub throttle_down: Option<i64>,
    pub tracker_urls: Vec<String>,
    /// The columns that the upload/download ratio takes up, three more than its digits.
    pub ratio_width: usize,
}

/// The plain-value form of a string option.
pub open spec fn opt_view(o: Option<String>) -> Option<Seq<char>> {
    match o {
        Some(s) => Some(s@),
        None => None,
    }
}

/// The plain-value form of a `Torrent`.
pub struct TorrentView {
    pub id: Seq<char>,
    pub name: Option<Seq<char>>,
    pub path: Seq<char>,
    pub status: Status,
    pub error: Option<Seq<char>>,
    pub throttle_up: Option<i64>,
    pub throttle_down: Option<i64>,
    pub tracker_urls: Seq<Seq<char>>,
    pub ratio_width: usize,
}

impl View for Torrent {
    type V = TorrentView;

    open spec fn view(&self) -> TorrentView {
        TorrentView {
            id: self.id@,
            name: opt_view(self.name),
            path: self.path@,
            status: self.status,
            error: opt_view(self.error),
            throttle_up: self.throttle_up,
            throttle_down: self.throttle_down,
            tracker_urls: crate::utils::views(self.tracker_urls@),
            ratio_width: self.ratio_width,
        }
    }
}

fn copy_opt(o: &Option<String>) -> (r: Option<String>)
    ensures
        opt_view(r) == opt_view(*o),
{
    match o {
        Some(s) => Some(s.clone()),
        None => None,
    }
}

fn copy_strings(v: &Vec<String>) -> (r: Vec<String>)
    ensures
        crate::utils::views(r@) == crate::utils::views(v@),
{
    let mut r: Vec<String> = Vec::new();
    let mut i: usize = 0;
    while i < v.len()
        invariant
            i <= v@.len(),
            crate::utils::views(r@) == crate::utils::views(v@).take(i as int),
        decreases v.len() - i,
    {
        let ghost before = r@;
        r.push(v[i].clone());
        proof {
            assert(r@ =~= before.push(v@[i as int]));
            assert(crate::utils::views(v@).take(i + 1).drop_last() =~= crate::utils::views(v@).take(i as int));
            assert(crate::utils::views(r@) =~= crate::utils::views(v@).take(i + 1));
        }
        i = i + 1;
    }
    proof {
        assert(crate::utils::views(v@).take(i as int) =~= crate::utils::views(v@));
    }
    r
}

impl Clone for Torrent {
    fn clone(&self) -> (r: Torrent)
        ensures
            r@ == self@,
    {
        Torrent {
            id: self.id.clone(),
            name: copy_opt(&self.name),
            path: self.path.clone(),
            status: self.status,
            error: copy_opt(&self.error),
            throttle_up: self.throttle_up,
            throttle_down: self.throttle_down,
            tracker_urls: copy_strings(&self.tracker_urls),
            ratio_width: self.ratio_width,
        }
    }
}

/// What the panels read of a tracker of a torrent.
pub struct Tracker {
    pub id: String,
    pub torrent_id: String,
    /// The tracker's URL, in the text form by which URLs are ordered.
    pub url: String,
    /// The host of the URL.
    pub host: String,
    pub error: Option<String>,
}

/// The plain-value form of a `Tracker`.
pub struct TrackerView {
    pub id: Seq<char>,
    pub torrent_id: Seq<char>,
    pub url: Seq<char>,
    pub host: Seq<char>,
    pub error: Option<Seq<char>>,
}

impl View for Tracker {
    type V = TrackerView;

    open spec fn view(&self) -> TrackerView {
        TrackerView {
            id: self.id@,
            torrent_id: self.torrent_id@,
            url: self.url@,
            host: self.host@,
            error: opt_view(self.error),
        }
    }
}

/// Another torrent's entry for a tracker already listed: tracker id, torrent id, error.
pub struct TrackerRef {
    pub id: String,
    pub torrent_id: String,
    pub error: Option<String>,
}

/// The plain-value form of a `TrackerRef`.
pub struct TrackerRefView {
    pub id: Seq<char>,
    pub torrent_id: Seq<char>,
    pub error: Option<Seq<char>>,
}

impl View for TrackerRef {
    type V = TrackerRefView;

    open spec fn view(&self) -> TrackerRefView {
        TrackerRefView { id: self.id@, torrent_id: self.torrent_id@, error: opt_view(self.error) }
    }
}

/// The trackers that share a URL: the first listed, and the others.
pub struct TrackerGroup {
    pub base: Tracker,
    pub others: Vec<TrackerRef>,
}

/// The plain-value form of a `TrackerGroup`.
pub struct TrackerGroupView {
    pub base: TrackerView,
    pub others: Seq<TrackerRefView>,
}

impl View for TrackerGroup {
    type V = TrackerGroupView;

    open spec fn view(&self) -> TrackerGroupView {
        TrackerGroupView {
            base: self.base@,
            others: self.others@.map_values(|r: TrackerRef| r@),
        }
    }
}

/// The views of a sequence of torrents.
pub open spec fn torrents_view(v: Seq<Torrent>) -> Seq<TorrentView> {
    v.map_values(|t: Torrent| t@)
}

/// The views of a sequence of detail tabs.
pub open spec fn details_view(v: Seq<TorrentDetails>) -> Seq<TorrentView> {
    v.map_values(|d: TorrentDetails| d.torrent())
}

/// The views of a sequence of tracker groups.
pub open spec fn groups_view(v: Seq<TrackerGroup>) -> Seq<TrackerGroupView> {
    v.map_values(|g: TrackerGroup| g@)
}

/// Which part of the main panel keys go to.
#[derive(Clone, Copy, PartialEq, Eq, Structural)]
pub enum Focus {
    Details,
    Filter,
    Torrents,
}

/// The larger of two numbers.
pub open spec fn max(a: int, b: int) -> int {
    if a >= b {
        a
    } else {
        b
    }
}

/// The columns that a throttle takes up: one for none or unlimited (-1), ten otherwise.
pub open spec fn throttle_width(t: Option<i64>) -> int {
    match t {
        Some(v) => if v == -1 {
            1
        } else {
            10
        },
        None => 1,
    }
}

/// The widest status, upload throttle, download throttle and ratio among the torrents.
pub open spec fn column_widths(ts: Seq<TorrentView>) -> (int, int, int, int)
    decreases ts.len(),
{
    if ts.len() == 0 {
        (0, 0, 0, 0)
    } else {
        let (a, b, c, d) = column_widths(ts.drop_last());
        let t = ts.last();
        (
            max(a, t.status.spec_as_str().len() as int),
            max(b, throttle_width(t.throttle_up)),
            max(c, throttle_width(t.throttle_down)),
            max(d, t.ratio_width as int),
        )
    }
}

/// The torrents shown in a list of `height` rows whose first row is torrent `lower`.
pub open spec fn visible(ts: Seq<TorrentView>, lower: int, height: int) -> Seq<TorrentView> {
    if lower >= ts.len() {
        Seq::empty()
    } else if height >= ts.len() - lower {
        ts.skip(lower)
    } else {
        ts.skip(lower).take(height)
    }
}

/// The column widths of the visible torrents, and the width of all their columns together
/// with the 62 columns of fixed text.
pub open spec fn torrent_bounds(ts: Seq<TorrentView>, lower: int, height: int) -> (
    int,
    int,
    int,
    int,
    int,
) {
    let (a, b, c, d) = column_widths(visible(ts, lower, height));
    (a, b, c, d, 62 + a + b + c + d)
}

/// A torrent's ratio takes up at most 64 columns.
pub open spec fn ratios_bounded(ts: Seq<TorrentView>) -> bool {
    forall|i: int| 0 <= i < ts.len() ==> #[trigger] ts[i].ratio_width <= 64
}

proof fn lemma_column_widths_bounded(ts: Seq<TorrentView>)
    requires
        ratios_bounded(ts),
    ensures
        0 <= column_widths(ts).0 <= 8,
        0 <= column_widths(ts).1 <= 10,
        0 <= column_widths(ts).2 <= 10,
        0 <= column_widths(ts).3 <= 64,
    decreases ts.len(),
{
    if ts.len() > 0 {
        assert(ratios_bounded(ts.drop_last()));
        lemma_column_widths_bounded(ts.drop_last());
        assert(ts.last() == ts[ts.len() - 1]);
    }
}

/// The main panel: the torrent list with its filter, the trackers, the detail tabs and the
/// server footer.
pub struct Main {
    last_height: u16,
    focus: Focus,
    filter: crate::utils::filter::Filter,
    filter_disp: bool,
    /// The first torrent shown, the selected torrent, all torrents sorted by name.
    torrents: (usize, usize, Vec<Torrent>),
    /// The widths of the status, upload throttle, download throttle and ratio columns, and of
    /// all columns.
    torrent_widths: (usize, usize, usize, usize, usize),
    trackers: Vec<TrackerGroup>,
    trackers_disp: bool,
    details: (usize, Vec<TorrentDetails>),
    server_version: String,
    outbox: Vec<crate::rpc::FilterRequest>,
}

/// The plain-value form of the main panel, but for its filter.
pub struct MainView {
    pub last_height: u16,
    pub focus: Focus,
    pub filter_disp: bool,
    pub lower: int,
    pub sel: int,
    pub torrents: Seq<TorrentView>,
    pub widths: (int, int, int, int, int),
    pub trackers: Seq<TrackerGroupView>,
    pub trackers_disp: bool,
    pub detail_idx: int,
    pub details: Seq<TorrentView>,
    pub server_version: Seq<char>,
}

/// `a - b`, or 0 where `b` is larger.
pub open spec fn sat(a: int, b: int) -> int {
    if a >= b {
        a - b
    } else {
        0
    }
}

/// `v` with the column widths recomputed for a list of `height` rows.
pub open spec fn rebound(v: MainView, height: int) -> MainView {
    MainView { widths: torrent_bounds(v.torrents, v.lower, height), ..v }
}

/// The bytes of `s` in UTF-8, counted in a `u16` as the panel does.
pub open spec fn len16(s: Seq<char>) -> u16 {
    ((vstd::utf8::encode_utf8(s).len() as usize) as u16)
}

/// The larger of two numbers.
pub open spec fn max16(a: u16, b: u16) -> u16 {
    if a >= b {
        a
    } else {
        b
    }
}

/// The errors that the entries `others` of a tracker report for the torrent `id`.
pub open spec fn other_errors(others: Seq<TrackerRefView>, id: Seq<char>) -> Seq<Seq<char>>
    decreases others.len(),
{
    if others.len() == 0 {
        Seq::empty()
    } else {
        let rest = other_errors(others.drop_last(), id);
        let o = others.last();
        if o.torrent_id == id && o.error is Some {
            rest.push(o.error->0)
        } else {
            rest
        }
    }
}

/// Each error indented by a blank.
pub open spec fn indented(errs: Seq<Seq<char>>) -> Seq<Seq<char>> {
    errs.map_values(|e: Seq<char>| seq![' '] + e)
}

/// `host: error`.
pub open spec fn host_line(host: Seq<char>, e: Seq<char>) -> Seq<char> {
    host + seq![':', ' '] + e
}

/// The lines that the tracker group `g` adds to the error list of torrent `t`.
pub open spec fn group_lines(g: TrackerGroupView, t: TorrentView) -> Seq<Seq<char>> {
    if !t.tracker_urls.contains(g.base.host) {
        Seq::empty()
    } else {
        let errs = other_errors(g.others, t.id);
        if g.base.error is Some && g.base.torrent_id == t.id {
            seq![host_line(g.base.host, g.base.error->0)] + indented(errs)
        } else if errs.len() > 0 {
            seq![host_line(g.base.host, errs[0])] + indented(errs.skip(1))
        } else {
            Seq::empty()
        }
    }
}

/// The error list of torrent `t`: its own error, then what each of its trackers reports.
pub open spec fn error_lines(t: TorrentView, groups: Seq<TrackerGroupView>) -> Seq<Seq<char>>
    decreases groups.len(),
{
    if groups.len() == 0 {
        match t.error {
            Some(e) => seq![e],
            None => Seq::empty(),
        }
    } else {
        error_lines(t, groups.drop_last()) + group_lines(groups.last(), t)
    }
}

/// The width of an error list: its longest line in bytes, and at least the 6 of its title.
pub open spec fn lines_width(lines: Seq<Seq<char>>) -> u16
    decreases lines.len(),
{
    if lines.len() == 0 {
        6
    } else {
        max16(lines_width(lines.drop_last()), len16(lines.last()))
    }
}

/// What a key press in the main panel comes to, but for the filter.
pub enum Outcome {
    Rerender,
    Key(Key),
    Errors(Seq<Seq<char>>, u16),
    /// The filter handles the key.
    Delegate,
    /// Open the directory at the path.
    Open(Seq<char>),
    /// Show the rate limits of the torrent.
    Limits(TorrentView),
}

/// The first detail tab showing the torrent `id`, or -1.
pub open spec fn find_detail(details: Seq<TorrentView>, id: Seq<char>) -> int
    decreases details.len(),
{
    if details.len() == 0 {
        -1
    } else {
        let i = find_detail(details.drop_last(), id);
        if i >= 0 {
            i
        } else if details.last().id == id {
            details.len() - 1
        } else {
            -1
        }
    }
}

/// The torrent whose errors `e` shows.
pub open spec fn error_subject(v: MainView) -> Option<TorrentView> {
    if v.focus == Focus::Torrents {
        if 0 <= v.sel < v.torrents.len() {
            Some(v.torrents[v.sel])
        } else {
            None
        }
    } else if 0 <= v.detail_idx < v.details.len() {
        Some(v.details[v.detail_idx])
    } else {
        None
    }
}

/// Where the keys that move through the torrent list take the panel `v`, whose list has
/// `th` rows of which `tlh` show torrents; `None` for other keys.
pub open spec fn torrent_move(v: MainView, k: Key, th: int, tlh: int) -> Option<MainView> {
    let len = v.torrents.len() as int;
    if k == Key::Home {
        Some(rebound(MainView { lower: 0, sel: 0, ..v }, tlh))
    } else if k == Key::End {
        Some(rebound(MainView { lower: sat(len, th), sel: sat(len, 1), ..v }, tlh))
    } else if k == Key::PageUp {
        if v.sel < th {
            Some(rebound(MainView { lower: 0, sel: 0, ..v }, tlh))
        } else {
            Some(
                rebound(
                    MainView {
                        lower: if v.lower < th {
                            0
                        } else {
                            v.lower - th
                        },
                        sel: v.sel - th,
                        ..v
                    },
                    tlh,
                ),
            )
        }
    } else if k == Key::PageDown {
        if v.sel + th >= len {
            Some(rebound(MainView { lower: sat(len, th), sel: sat(len, 1), ..v }, tlh))
        } else {
            Some(
                rebound(
                    MainView {
                        lower: if v.lower + 2 * th >= len {
                            sat(len, th)
                        } else {
                            v.lower + th
                        },
                        sel: v.sel + th,
                        ..v
                    },
                    tlh,
                ),
            )
        }
    } else if (k == Key::Up || k == Key::Char('k')) && v.sel > 0 {
        Some(
            rebound(
                MainView {
                    lower: if v.lower == v.sel {
                        v.lower - 1
                    } else {
                        v.lower
                    },
                    sel: v.sel - 1,
                    ..v
                },
                tlh,
            ),
        )
    } else if (k == Key::Down || k == Key::Char('j')) && v.sel + 1 < len {
        Some(
            rebound(
                MainView {
                    lower: if v.lower + sat(th, 1) == v.sel {
                        v.lower + 1
                    } else {
                        v.lower
                    },
                    sel: v.sel + 1,
                    ..v
                },
                tlh,
            ),
        )
    } else {
        None
    }
}

/// Where the keys that move through the detail tabs take the panel `v`; `None` for other keys.
pub open spec fn detail_move(v: MainView, k: Key) -> Option<MainView> {
    if k == Key::Home {
        Some(MainView { detail_idx: 0, ..v })
    } else if k == Key::End {
        Some(MainView { detail_idx: v.details.len() - 1, ..v })
    } else if (k == Key::Left || k == Key::Char('h')) && v.detail_idx > 0 {
        Some(MainView { detail_idx: v.detail_idx - 1, ..v })
    } else if (k == Key::Right || k == Key::Char('l')) && v.detail_idx + 1 != v.details.len() {
        Some(MainView { detail_idx: v.detail_idx + 1, ..v })
    } else {
        None
    }
}

/// What the key `k` does to the main panel `v` of `height` rows. The list of torrents has
/// `height - 2` rows, as the footer takes two; with detail tabs open, these take up 5 more.
pub open spec fn spec_input(v: MainView, k: Key, height: u16) -> (MainView, Outcome) {
    let th = sat(height as int, 2);
    let tlh = if v.details.len() == 0 {
        sat(th, 2)
    } else {
        sat(th, 7)
    };
    let len = v.torrents.len() as int;
    let on_torrents = v.focus == Focus::Torrents;
    let on_details = v.focus == Focus::Details;
    if k == Key::Ctrl('f') && v.focus == Focus::Filter {
        (rebound(MainView { focus: Focus::Torrents, filter_disp: false, ..v }, tlh), Outcome::Rerender)
    } else if k == Key::Esc && v.focus == Focus::Filter {
        (MainView { focus: Focus::Torrents, ..v }, Outcome::Rerender)
    } else if on_torrents && torrent_move(v, k, th, tlh) is Some {
        (torrent_move(v, k, th, tlh)->0, Outcome::Rerender)
    } else if on_details && detail_move(v, k) is Some {
        (detail_move(v, k)->0, Outcome::Rerender)
    } else if k == Key::Char('d') && on_torrents && len > 0 {
        let t = v.torrents[v.sel];
        let pos = find_detail(v.details, t.id);
        if pos >= 0 {
            (
                rebound(MainView { detail_idx: pos, focus: Focus::Details, ..v }, sat(tlh, 5)),
                Outcome::Rerender,
            )
        } else {
            (
                rebound(
                    MainView {
                        details: v.details.push(t),
                        detail_idx: v.details.len() as int,
                        focus: Focus::Details,
                        ..v
                    },
                    sat(tlh, 5),
                ),
                Outcome::Rerender,
            )
        }
    } else if k == Key::Char('\n') && on_torrents && 0 <= v.sel < len {
        (v, Outcome::Open(v.torrents[v.sel].path))
    } else if k == Key::Char('l') && on_torrents && 0 <= v.sel < len {
        (v, Outcome::Limits(v.torrents[v.sel]))
    } else if k == Key::Char('e') && (on_torrents || on_details) {
        match error_subject(v) {
            Some(t) => {
                let lines = error_lines(t, v.trackers);
                if lines.len() == 0 {
                    (v, Outcome::Key(k))
                } else {
                    (v, Outcome::Errors(lines, lines_width(lines)))
                }
            },
            None => (v, Outcome::Key(k)),
        }
    } else if k == Key::Char('f') && (on_torrents || on_details) {
        (MainView { focus: Focus::Filter, filter_disp: true, ..v }, Outcome::Rerender)
    } else if k == Key::Char('J') && on_torrents && v.details.len() > 0 {
        (MainView { focus: Focus::Details, ..v }, Outcome::Rerender)
    } else if k == Key::Char('K') && on_details {
        (MainView { focus: Focus::Torrents, ..v }, Outcome::Rerender)
    } else if k == Key::Char('q') && on_details {
        let nd = v.details.remove(v.detail_idx);
        if nd.len() == 0 {
            (
                rebound(MainView { details: nd, focus: Focus::Torrents, ..v }, sat(tlh, 5)),
                Outcome::Rerender,
            )
        } else if v.detail_idx == nd.len() {
            (MainView { details: nd, detail_idx: v.detail_idx - 1, ..v }, Outcome::Rerender)
        } else {
            (MainView { details: nd, ..v }, Outcome::Rerender)
        }
    } else if k == Key::Char('t') && (on_torrents || on_details) {
        (rebound(MainView { trackers_disp: !v.trackers_disp, ..v }, sat(tlh, 5)), Outcome::Rerender)
    } else if v.focus == Focus::Filter {
        (v, Outcome::Delegate)
    } else {
        (v, Outcome::Key(k))
    }
}

impl Main {
    /// The panel, but for its filter.
    pub closed spec fn state(&self) -> MainView {
        MainView {
            last_height: self.last_height,
            focus: self.focus,
            filter_disp: self.filter_disp,
            lower: self.torrents.0 as int,
            sel: self.torrents.1 as int,
            torrents: torrents_view(self.torrents.2@),
            widths: (
                self.torrent_widths.0 as int,
                self.torrent_widths.1 as int,
                self.torrent_widths.2 as int,
                self.torrent_widths.3 as int,
                self.torrent_widths.4 as int,
            ),
            trackers: groups_view(self.trackers@),
            trackers_disp: self.trackers_disp,
            detail_idx: self.details.0 as int,
            details: details_view(self.details.1@),
            server_version: self.server_version@,
        }
    }

    /// The filter of the torrent list.
    pub closed spec fn filter(&self) -> crate::utils::filter::Filter {
        self.filter
    }

    /// The requests not yet sent, oldest first.
    pub open spec fn requests(&self) -> Seq<crate::rpc::RequestView> {
        self.own_requests() + self.filter().requests()
    }

    /// The requests of the panel itself not yet sent, oldest first.
    pub closed spec fn own_requests(&self) -> Seq<crate::rpc::RequestView> {
        crate::rpc::requests_view(self.outbox@)
    }

    /// The first torrent shown comes no later than the selected one, which leaves room to move
    /// down; detail tabs have the focus only while there are some; ratios are at most 64 wide.
    pub closed spec fn wf(&self) -> bool {
        &&& self.torrents.0 <= self.torrents.1 < usize::MAX / 2
        &&& self.details.0 < usize::MAX
        &&& self.focus == Focus::Details ==> self.details.1@.len() > 0
        &&& ratios_bounded(torrents_view(self.torrents.2@))
    }

    /// A main panel of `height` rows that subscribes to the server (`server_serial`), the
    /// trackers (`tracker_serial`) and the torrents (`filter_serial`), in this order.
    pub fn new(server_serial: u64, tracker_serial: u64, filter_serial: u64, height: u16) -> (r:
        Main)
        ensures
            r.wf(),
            r.state() == (MainView {
                last_height: height,
                focus: Focus::Torrents,
                filter_disp: false,
                lower: 0,
                sel: 0,
                torrents: Seq::empty(),
                widths: (0, 0, 0, 0, 0),
                trackers: Seq::empty(),
                trackers_disp: false,
                detail_idx: 0,
                details: Seq::empty(),
                server_version: seq!['?', '.', '?'],
            }),
            r.filter().mode() == crate::utils::filter::FilterMode::Insensitive,
            r.filter().text() == Seq::<char>::empty(),
            r.requests() == seq![
                crate::rpc::RequestView {
                    serial: server_serial,
                    kind: crate::rpc::ResourceKind::Server,
                    terms: Seq::empty(),
                },
                crate::rpc::RequestView {
                    serial: tracker_serial,
                    kind: crate::rpc::ResourceKind::Tracker,
                    terms: Seq::empty(),
                },
                crate::rpc::RequestView {
                    serial: filter_serial,
                    kind: crate::rpc::ResourceKind::Torrent,
                    terms: Seq::empty(),
                },
            ],
    {
        let mut outbox: Vec<crate::rpc::FilterRequest> = Vec::new();
        let t1: Vec<crate::rpc::Term> = Vec::new();
        let t2: Vec<crate::rpc::Term> = Vec::new();
        assert(crate::rpc::terms_view(t1@) =~= Seq::<crate::rpc::TermView>::empty());
        assert(crate::rpc::terms_view(t2@) =~= Seq::<crate::rpc::TermView>::empty());
        outbox.push(
            crate::rpc::FilterRequest {
                serial: server_serial,
                kind: crate::rpc::ResourceKind::Server,
                terms: t1,
            },
        );
        outbox.push(
            crate::rpc::FilterRequest {
                serial: tracker_serial,
                kind: crate::rpc::ResourceKind::Tracker,
                terms: t2,
            },
        );
        proof {
            reveal_strlit("?.?");
        }
        let r = Main {
            last_height: height,
            focus: Focus::Torrents,
            filter: crate::utils::filter::Filter::new(filter_serial),
            filter_disp: false,
            torrents: (0, 0, Vec::new()),
            torrent_widths: (0, 0, 0, 0, 0),
            trackers: Vec::new(),
            trackers_disp: false,
            details: (0, Vec::new()),
            server_version: String::from_str("?.?"),
            outbox,
        };
        proof {
            assert(r.server_version@ =~= seq!['?', '.', '?']);
            assert(torrents_view(r.torrents.2@) =~= Seq::<TorrentView>::empty());
            assert(groups_view(r.trackers@) =~= Seq::<TrackerGroupView>::empty());
            assert(details_view(r.details.1@) =~= Seq::<TorrentView>::empty());
            assert(r.requests() =~= seq![
                crate::rpc::RequestView {
                    serial: server_serial,
                    kind: crate::rpc::ResourceKind::Server,
                    terms: Seq::empty(),
                },
                crate::rpc::RequestView {
                    serial: tracker_serial,
                    kind: crate::rpc::ResourceKind::Tracker,
                    terms: Seq::empty(),
                },
                crate::rpc::RequestView {
                    serial: filter_serial,
                    kind: crate::rpc::ResourceKind::Torrent,
                    terms: Seq::empty(),
                },
            ]);
        }
        r
    }

    /// Hands out the requests not yet sent, oldest first.
    pub fn take_requests(&mut self) -> (r: Vec<crate::rpc::FilterRequest>)
        requires
            old(self).wf(),
        ensures
            final(self).wf(),
            crate::rpc::requests_view(r@) == old(self).requests(),
            final(self).requests() == Seq::<crate::rpc::RequestView>::empty(),
            final(self).state() == old(self).state(),
            final(self).filter().mode() == old(self).filter().mode(),
            final(self).filter().entry() == old(self).filter().entry(),
            final(self).filter().serial() == old(self).filter().serial(),
    {
        let mut r: Vec<crate::rpc::FilterRequest> = Vec::new();
        std::mem::swap(&mut r, &mut self.outbox);
        let mut rest = self.filter.take_requests();
        r.append(&mut rest);
        proof {
            assert(crate::rpc::requests_view(r@) =~= old(self).requests());
            assert(final(self).requests() =~= Seq::<crate::rpc::RequestView>::empty());
        }
        r
    }

    /// Recomputes the column widths for a list of `height` rows.
    fn recompute_torrent_bounds(&mut self, height: u16)
        requires
            old(self).wf(),
        ensures
            final(self).wf(),
            final(self).state() == rebound(old(self).state(), height as int),
            final(self).filter() == old(self).filter(),
            final(self).own_requests() == old(self).own_requests(),
    {
        let ghost ts = torrents_view(self.torrents.2@);
        let lower = self.torrents.0;
        let n = self.torrents.2.len();
        let mut a: usize = 0;
        let mut b: usize = 0;
        let mut c: usize = 0;
        let mut d: usize = 0;
        let mut i: usize = lower;
        let ghost vis = visible(ts, lower as int, height as int);
        proof {
            assert(vis =~= if lower >= n {
                Seq::empty()
            } else {
                ts.subrange(lower as int, if height >= n - lower { n as int } else { lower + height })
            });
        }
        while i < n && i - lower < height as usize
            invariant
                ts == torrents_view(self.torrents.2@),
                n == ts.len(),
                lower == self.torrents.0,
                ratios_bounded(ts),
                lower <= i || lower >= n,
                lower < n ==> i <= n && i - lower <= height,
                lower >= n ==> i == lower,
                (a as int, b as int, c as int, d as int) == column_widths(
                    if lower >= n { Seq::empty() } else { ts.subrange(lower as int, i as int) },
                ),
            decreases n - i,
        {
            let t = &self.torrents.2[i];
            proof {
                assert(ts.subrange(lower as int, i + 1).drop_last() =~= ts.subrange(
                    lower as int,
                    i as int,
                ));
                assert(ts.subrange(lower as int, i + 1).last() == t@);
                lemma_column_widths_bounded(ts.subrange(lower as int, i as int));
                assert(ts[i as int].ratio_width <= 64);
            }
            let w0 = t.status.name_len();
            if w0 > a {
                a = w0;
            }
            let w1: usize = match t.throttle_up {
                Some(v) => if v == -1 { 1 } else { 10 },
                None => 1,
            };
            if w1 > b {
                b = w1;
            }
            let w2: usize = match t.throttle_down {
                Some(v) => if v == -1 { 1 } else { 10 },
                None => 1,
            };
            if w2 > c {
                c = w2;
            }
            if t.ratio_width > d {
                d = t.ratio_width;
            }
            i = i + 1;
        }
        proof {
            if lower < n {
                assert(vis =~= ts.subrange(lower as int, i as int));
            }
            lemma_column_widths_bounded(vis);
        }
        self.torrent_widths = (a, b, c, d, 62 + a + b + c + d);
    }
}

/// Whether `urls` holds `host`.
fn holds(urls: &Vec<String>, host: &String) -> (r: bool)
    ensures
        r == crate::utils::views(urls@).contains(host@),
{
    let ghost u = crate::utils::views(urls@);
    let mut i: usize = 0;
    while i < urls.len()
        invariant
            u == crate::utils::views(urls@),
            i <= urls@.len(),
            forall|j: int| 0 <= j < i ==> u[j] != host@,
        decreases urls.len() - i,
    {
        if urls[i] == *host {
            assert(u[i as int] == host@);
            return true;
        }
        i = i + 1;
    }
    false
}

/// The errors that the entries `others` report for the torrent `id`.
fn errors_for(others: &Vec<TrackerRef>, id: &String) -> (r: Vec<String>)
    ensures
        crate::utils::views(r@) == other_errors(others@.map_values(|o: TrackerRef| o@), id@),
{
    let ghost os = others@.map_values(|o: TrackerRef| o@);
    let mut r: Vec<String> = Vec::new();
    let mut i: usize = 0;
    while i < others.len()
        invariant
            os == others@.map_values(|o: TrackerRef| o@),
            i <= others@.len(),
            crate::utils::views(r@) == other_errors(os.take(i as int), id@),
        decreases others.len() - i,
    {
        proof {
            assert(os.take(i + 1).drop_last() =~= os.take(i as int));
        }
        let o = &others[i];
        let ghost before = crate::utils::views(r@);
        if o.torrent_id == *id {
            if let Some(e) = &o.error {
                r.push(e.clone());
                proof {
                    assert(crate::utils::views(r@) =~= before.push(e@));
                }
            }
        }
        i = i + 1;
    }
    proof {
        assert(os.take(i as int) =~= os);
    }
    r
}

/// The error list grows by `line`, its width along.
fn push_line(tree: &mut Vec<String>, width: &mut u16, line: String)
    requires
        *old(width) == lines_width(crate::utils::views(old(tree)@)),
    ensures
        crate::utils::views(final(tree)@) == crate::utils::views(old(tree)@).push(line@),
        *final(width) == lines_width(crate::utils::views(final(tree)@)),
{
    let l = line.as_str().len() as u16;
    let ghost before = crate::utils::views(tree@);
    if l > *width {
        *width = l;
    }
    tree.push(line);
    proof {
        assert(crate::utils::views(tree@) =~= before.push(line@));
        assert(crate::utils::views(tree@).drop_last() =~= before);
    }
}

/// The error list grows by the errors `errs[from..]`, each indented by a blank.
fn push_indented(tree: &mut Vec<String>, width: &mut u16, errs: &Vec<String>, from: usize)
    requires
        *old(width) == lines_width(crate::utils::views(old(tree)@)),
        from <= errs@.len(),
    ensures
        crate::utils::views(final(tree)@) == crate::utils::views(old(tree)@) + indented(
            crate::utils::views(errs@).skip(from as int),
        ),
        *final(width) == lines_width(crate::utils::views(final(tree)@)),
{
    let ghost es = crate::utils::views(errs@);
    let ghost start = crate::utils::views(tree@);
    let mut i = from;
    while i < errs.len()
        invariant
            es == crate::utils::views(errs@),
            from <= i <= errs@.len(),
            *width == lines_width(crate::utils::views(tree@)),
            crate::utils::views(tree@) == start + indented(es.subrange(from as int, i as int)),
        decreases errs.len() - i,
    {
        let mut line = String::new();
        push_char(&mut line, ' ');
        line.append(errs[i].as_str());
        push_line(tree, width, line);
        proof {
            assert(indented(es.subrange(from as int, i + 1)) =~= indented(
                es.subrange(from as int, i as int),
            ).push(seq![' '] + es[i as int]));
        }
        i = i + 1;
    }
    proof {
        assert(es.subrange(from as int, i as int) =~= es.skip(from as int));
    }
}

/// `host: e`.
fn make_host_line(host: &String, e: &String) -> (r: String)
    ensures
        r@ == host_line(host@, e@),
{
    let mut s = host.clone();
    proof {
        reveal_strlit(": ");
    }
    s.append(": ");
    s.append(e.as_str());
    s
}

impl Main {
    /// The error list of the torrent `t` and its width.
    fn error_tree(&self, t: &Torrent) -> (r: (Vec<String>, u16))
        ensures
            crate::utils::views(r.0@) == error_lines(t@, groups_view(self.trackers@)),
            r.1 == lines_width(crate::utils::views(r.0@)),
    {
        let ghost gs = groups_view(self.trackers@);
        let mut tree: Vec<String> = Vec::new();
        let mut width: u16 = 6;
        proof {
            assert(crate::utils::views(tree@) =~= Seq::<Seq<char>>::empty());
        }
        if let Some(e) = &t.error {
            push_line(&mut tree, &mut width, e.clone());
        }
        proof {
            assert(crate::utils::views(tree@) =~= error_lines(t@, gs.take(0)));
        }
        let mut i: usize = 0;
        while i < self.trackers.len()
            invariant
                gs == groups_view(self.trackers@),
                i <= gs.len(),
                crate::utils::views(tree@) == error_lines(t@, gs.take(i as int)),
                width == lines_width(crate::utils::views(tree@)),
            decreases self.trackers.len() - i,
        {
            proof {
                assert(gs.take(i + 1).drop_last() =~= gs.take(i as int));
            }
            let g = &self.trackers[i];
            let ghost before = crate::utils::views(tree@);
            if holds(&t.tracker_urls, &g.base.host) {
                let errs = errors_for(&g.others, &t.id);
                let base_err: Option<&String> = match &g.base.error {
                    Some(e) => if g.base.torrent_id == t.id {
                        Some(e)
                    } else {
                        None
                    },
                    None => None,
                };
                if let Some(e) = base_err {
                    push_line(&mut tree, &mut width, make_host_line(&g.base.host, e));
                    push_indented(&mut tree, &mut width, &errs, 0);
                    proof {
                        assert(crate::utils::views(errs@).skip(0) =~= crate::utils::views(errs@));
                        assert(crate::utils::views(tree@) =~= before + group_lines(g@, t@));
                    }
                } else if errs.len() > 0 {
                    push_line(&mut tree, &mut width, make_host_line(&g.base.host, &errs[0]));
                    push_indented(&mut tree, &mut width, &errs, 1);
                    proof {
                        assert(crate::utils::views(tree@) =~= before + group_lines(g@, t@));
                    }
                } else {
                    proof {
                        assert(crate::utils::views(tree@) =~= before + group_lines(g@, t@));
                    }
                }
            } else {
                proof {
                    assert(crate::utils::views(tree@) =~= before + group_lines(g@, t@));
                }
            }
            i = i + 1;
        }
        proof {
            assert(gs.take(i as int) =~= gs);
        }
        (tree, width)
    }
}

/// The detail tab showing the torrent `id`, if any.
fn position_of(details: &Vec<TorrentDetails>, id: &String) -> (r: Option<usize>)
    ensures
        r matches Some(p) ==> p as int == find_detail(details_view(details@), id@) && p
            < details@.len(),
        r is None ==> find_detail(details_view(details@), id@) == -1,
{
    let ghost dv = details_view(details@);
    let mut i: usize = 0;
    while i < details.len()
        invariant
            dv == details_view(details@),
            i <= dv.len(),
            find_detail(dv.take(i as int), id@) == -1,
        decreases details.len() - i,
    {
        proof {
            assert(dv.take(i + 1).drop_last() =~= dv.take(i as int));
        }
        if details[i].inner().id == *id {
            proof {
                lemma_find_detail_prefix(dv, i + 1);
            }
            return Some(i);
        }
        i = i + 1;
    }
    proof {
        assert(dv.take(i as int) =~= dv);
    }
    None
}

/// A tab found in a prefix is the tab found in the whole.
proof fn lemma_find_detail_prefix(dv: Seq<TorrentView>, n: int)
    requires
        0 <= n <= dv.len(),
    ensures
        find_detail(dv.take(n), dv[n - 1].id) >= 0 || n == 0 ==> true,
        forall|id: Seq<char>| find_detail(dv.take(n), id) >= 0 ==> find_detail(dv, id) == find_detail(dv.take(n), id),
    decreases dv.len() - n,
{
    if n < dv.len() {
        lemma_find_detail_prefix(dv, n + 1);
        assert forall|id: Seq<char>| find_detail(dv.take(n), id) >= 0 implies find_detail(dv.take(n + 1), id) == find_detail(dv.take(n), id) by {
            assert(dv.take(n + 1).drop_last() =~= dv.take(n));
        }
    } else {
        assert(dv.take(n) =~= dv);
    }
}

impl Main {
    /// What Enter (`\n`) and `l` do on the selected torrent: open its directory, or show its
    /// rate limits.
    fn torrent_action(&self, k: Key) -> (r: crate::tui::InputResult)
        requires
            self.torrents.1 < self.torrents.2.len(),
            k == Key::Char('\n') || k == Key::Char('l'),
        ensures
            k == Key::Char('\n') ==> (r matches crate::tui::InputResult::Open(s) && s@
                == self.state().torrents[self.state().sel].path),
            k == Key::Char('l') ==> (r matches crate::tui::InputResult::EditLimits(l)
                && limits::limits_of(l, self.state().torrents[self.state().sel])),
    {
        let t = &self.torrents.2[self.torrents.1];
        assert(t@ == self.state().torrents[self.state().sel]);
        if k == Key::Char('\n') {
            crate::tui::InputResult::Open(t.path.clone())
        } else {
            crate::tui::InputResult::EditLimits(
                Limits::new(t.id.clone(), t.throttle_up, t.throttle_down),
            )
        }
    }

    /// Handles the keys that move through the torrent list (`torrent_move`); tells whether `k`
    /// is one of them.
    fn torrent_move(&mut self, k: Key, th: usize, tlh: u16, Ghost(height): Ghost<u16>) -> (r: bool)
        requires
            old(self).wf(),
            old(self).state().focus == Focus::Torrents,
            th == sat(height as int, 2),
            tlh as int == (if old(self).state().details.len() == 0 {
                sat(th as int, 2)
            } else {
                sat(th as int, 7)
            }),
            old(self).state().torrents.len() < usize::MAX / 2,
            k == Key::End ==> (height > 2 || old(self).state().torrents.len() == 0),
            (k == Key::PageDown && height <= 2 && old(self).state().torrents.len() > 0) ==> old(self).state().sel
                < old(self).state().torrents.len(),
        ensures
            final(self).wf(),
            r == torrent_move(old(self).state(), k, th as int, tlh as int) is Some,
            r ==> final(self).state() == torrent_move(old(self).state(), k, th as int, tlh as int)->0,
            !r ==> *final(self) == *old(self),
            final(self).filter() == old(self).filter(),
            final(self).own_requests() == old(self).own_requests(),
    {
        let len = self.torrents.2.len();
        if k == Key::Home {
            self.torrents.0 = 0;
            self.torrents.1 = 0;
        } else if k == Key::End {
            self.torrents.0 = len.saturating_sub(th);
            self.torrents.1 = len.saturating_sub(1);
        } else if k == Key::PageUp {
            if self.torrents.1 < th {
                self.torrents.0 = 0;
                self.torrents.1 = 0;
            } else {
                if self.torrents.0 < th {
                    self.torrents.0 = 0;
                } else {
                    self.torrents.0 = self.torrents.0 - th;
                }
                self.torrents.1 = self.torrents.1 - th;
            }
        } else if k == Key::PageDown {
            if self.torrents.1 + th >= len {
                self.torrents.0 = len.saturating_sub(th);
                self.torrents.1 = len.saturating_sub(1);
            } else {
                if self.torrents.0 + 2 * th >= len {
                    self.torrents.0 = len.saturating_sub(th);
                } else {
                    self.torrents.0 = self.torrents.0 + th;
                }
                self.torrents.1 = self.torrents.1 + th;
            }
        } else if (k == Key::Up || k == Key::Char('k')) && self.torrents.1 > 0 {
            if self.torrents.0 == self.torrents.1 {
                self.torrents.0 = self.torrents.0 - 1;
            }
            self.torrents.1 = self.torrents.1 - 1;
        } else if (k == Key::Down || k == Key::Char('j')) && self.torrents.1 + 1 < len {
            if self.torrents.0 + th.saturating_sub(1) == self.torrents.1 {
                self.torrents.0 = self.torrents.0 + 1;
            }
            self.torrents.1 = self.torrents.1 + 1;
        } else {
            return false;
        }
        self.recompute_torrent_bounds(tlh);
        true
    }

    /// Handles the keys that move through the detail tabs (`detail_move`); tells whether `k` is
    /// one of them.
    fn detail_move(&mut self, k: Key) -> (r: bool)
        requires
            old(self).wf(),
            old(self).state().focus == Focus::Details,
            old(self).state().detail_idx < usize::MAX - 1,
        ensures
            final(self).wf(),
            r == detail_move(old(self).state(), k) is Some,
            r ==> final(self).state() == detail_move(old(self).state(), k)->0,
            !r ==> *final(self) == *old(self),
            final(self).filter() == old(self).filter(),
            final(self).own_requests() == old(self).own_requests(),
    {
        let n = self.details.1.len();
        if k == Key::Home {
            self.details.0 = 0;
        } else if k == Key::End {
            self.details.0 = n - 1;
        } else if (k == Key::Left || k == Key::Char('h')) && self.details.0 > 0 {
            self.details.0 = self.details.0 - 1;
        } else if (k == Key::Right || k == Key::Char('l')) && self.details.0 != n - 1 {
            self.details.0 = self.details.0 + 1;
        } else {
            return false;
        }
        true
    }
}

impl crate::tui::Renderable for Main {
    open spec fn title(&self) -> Seq<char> {
        crate::tui::unnamed()
    }

    /// The panel gives itself no name.
    fn name(&self) -> (r: String) {
        proof {
            reveal_strlit("unnamed");
        }
        String::from_str("unnamed")
    }
}

impl crate::tui::HandleInput for Main {
    /// The keys that the panel can handle in its state: those whose handling stays within
    /// the list, its tabs and the filter, on a list of fewer than `usize::MAX / 2` torrents.
    open spec fn accepts_input(&self, k: Key, width: u16, height: u16) -> bool {
        let v = self.state();
        &&& self.wf()
        &&& v.torrents.len() < usize::MAX / 2
        &&& v.details.len() < usize::MAX / 2
        &&& v.detail_idx < usize::MAX - 1
        &&& (v.focus == Focus::Torrents && k == Key::End) ==> (height > 2 || v.torrents.len() == 0)
        &&& (v.focus == Focus::Torrents && k == Key::PageDown && height <= 2 && v.torrents.len() > 0)
            ==> v.sel < v.torrents.len()
        &&& (k == Key::Char('d') && v.focus == Focus::Torrents && v.torrents.len() > 0) ==> v.sel
            < v.torrents.len()
        &&& (k == Key::Char('q') && v.focus == Focus::Details) ==> v.detail_idx < v.details.len()
        &&& spec_input(v, k, height).1 is Delegate ==> self.filter().accepts_input(k, width, height)
    }

    /// The panel after the key is the one that `spec_input` gives, with its own requests
    /// unchanged; the answer is the outcome's, and a key that goes to the filter changes the
    /// filter as the filter's handling does.
    open spec fn handled(&self, next: &Self, k: Key, width: u16, height: u16, r: crate::tui::InputResult) -> bool {
        let out = spec_input(self.state(), k, height).1;
        &&& next.wf()
        &&& next.state() == spec_input(self.state(), k, height).0
        &&& next.own_requests() == self.own_requests()
        &&& out is Rerender ==> r is Rerender
        &&& out matches Outcome::Key(kk) ==> r == crate::tui::InputResult::Key(kk)
        &&& out matches Outcome::Errors(lines, w) ==> (r matches crate::tui::InputResult::ShowErrors(
            v,
            w2,
        ) && crate::utils::views(v@) == lines && w2 == w)
        &&& out matches Outcome::Open(p) ==> (r matches crate::tui::InputResult::Open(s) && s@ == p)
        &&& out matches Outcome::Limits(t) ==> (r matches crate::tui::InputResult::EditLimits(l)
            && limits::limits_of(l, t))
        &&& out is Delegate ==> crate::utils::filter::input_post(self.filter(), next.filter(), k, r)
        &&& !(out is Delegate) ==> if k == Key::Ctrl('f') && self.state().focus == Focus::Filter {
            crate::utils::filter::reset_post(self.filter(), next.filter())
        } else {
            next.filter() == self.filter()
        }
    }

    /// Moves through the torrent list and the detail tabs, opens and closes tabs, shows a
    /// torrent's errors, and hands keys to the filter while it has the focus. In the list:
    /// `j`/`k` and the arrows move, `<Home>`/`<End>` jump, `<PgUp>`/`<PgDown>` scroll by the
    /// list's height, `d` opens the selected torrent's details, `<ENTER>` asks to open its
    /// directory, `l` shows its rate limits, `J` goes to the tabs; in the
    /// tabs: `h`/`l` and the arrows move, `q` closes the tab, `K` goes back to the list; in
    /// both: `e` shows the errors, `f` focuses the filter, `t` toggles the tracker list; in the
    /// filter: `<ESC>` leaves it and `C-f` removes it.
    #[verifier::rlimit(100)]
    fn input(&mut self, k: Key, width: u16, height: u16) -> (r: crate::tui::InputResult)
        ensures
            final(self).wf(),
            final(self).state() == spec_input(old(self).state(), k, height).0,
            final(self).own_requests() == old(self).own_requests(),
            spec_input(old(self).state(), k, height).1 is Rerender ==> r is Rerender,
            spec_input(old(self).state(), k, height).1 matches Outcome::Key(kk) ==> r
                == crate::tui::InputResult::Key(kk),
            spec_input(old(self).state(), k, height).1 matches Outcome::Errors(lines, w) ==> (r
                matches crate::tui::InputResult::ShowErrors(v, w2) && crate::utils::views(v@)
                == lines && w2 == w),
            spec_input(old(self).state(), k, height).1 matches Outcome::Open(p) ==> (r
                matches crate::tui::InputResult::Open(s) && s@ == p),
            spec_input(old(self).state(), k, height).1 matches Outcome::Limits(t) ==> (r
                matches crate::tui::InputResult::EditLimits(l) && limits::limits_of(l, t)),
            spec_input(old(self).state(), k, height).1 is Delegate ==> crate::utils::filter::input_post(
                old(self).filter(),
                final(self).filter(),
                k,
                r,
            ),
            !(spec_input(old(self).state(), k, height).1 is Delegate) ==> if k == Key::Ctrl('f')
                && old(self).state().focus == Focus::Filter {
                crate::utils::filter::reset_post(old(self).filter(), final(self).filter())
            } else {
                final(self).filter() == old(self).filter()
            },
    {
        let ghost v = self.state();
        assert(self.wf());
        assert(k == Key::Char('d') && v.focus == Focus::Torrents && v.torrents.len() > 0 ==> v.sel < v.torrents.len());
        let th: usize = height.saturating_sub(2) as usize;
        let tlh: u16 = if self.details.1.len() == 0 {
            (th as u16).saturating_sub(2)
        } else {
            (th as u16).saturating_sub(2 + 5)
        };
        let len = self.torrents.2.len();
        let focus = self.focus;
        if focus == Focus::Torrents && (k == Key::Char('\n') || k == Key::Char('l'))
            && self.torrents.1 < len {
            return self.torrent_action(k);
        }
        if k == Key::Ctrl('f') && focus == Focus::Filter {
            self.focus = Focus::Torrents;
            self.filter.reset();
            self.filter_disp = false;
            self.recompute_torrent_bounds(tlh);
        } else if k == Key::Esc && focus == Focus::Filter {
            self.focus = Focus::Torrents;
        } else if focus == Focus::Torrents && self.torrent_move(k, th, tlh, Ghost(height)) {
        } else if focus == Focus::Details && self.detail_move(k) {
        } else if k == Key::Char('d') && focus == Focus::Torrents && len > 0 {
            let sel = self.torrents.1;
            match position_of(&self.details.1, &self.torrents.2[sel].id) {
                Some(pos) => {
                    self.details.0 = pos;
                },
                None => {
                    let t = self.torrents.2[sel].clone();
                    let ghost before = details_view(self.details.1@);
                    self.details.1.push(TorrentDetails::new(t));
                    self.details.0 = self.details.1.len() - 1;
                    proof {
                        assert(details_view(self.details.1@) =~= before.push(v.torrents[sel as int]));
                    }
                },
            }
            self.focus = Focus::Details;
            self.recompute_torrent_bounds(tlh.saturating_sub(5));
        } else if k == Key::Char('e') && (focus == Focus::Torrents || focus == Focus::Details) {
            let subject: Option<&Torrent> = if focus == Focus::Torrents {
                if self.torrents.1 < len {
                    Some(&self.torrents.2[self.torrents.1])
                } else {
                    None
                }
            } else if self.details.0 < self.details.1.len() {
                Some(self.details.1[self.details.0].inner())
            } else {
                None
            };
            return match subject {
                Some(t) => {
                    let (tree, w) = self.error_tree(t);
                    if tree.len() == 0 {
                        crate::tui::InputResult::Key(k)
                    } else {
                        crate::tui::InputResult::ShowErrors(tree, w)
                    }
                },
                None => crate::tui::InputResult::Key(k),
            };
        } else if k == Key::Char('f') && (focus == Focus::Torrents || focus == Focus::Details) {
            self.focus = Focus::Filter;
            self.filter_disp = true;
        } else if k == Key::Char('J') && focus == Focus::Torrents && self.details.1.len() > 0 {
            self.focus = Focus::Details;
        } else if k == Key::Char('K') && focus == Focus::Details {
            self.focus = Focus::Torrents;
        } else if k == Key::Char('q') && focus == Focus::Details {
            let ghost before = details_view(self.details.1@);
            assert(before.len() == v.details.len());
            assert(v.detail_idx < before.len());
            self.details.1.remove(self.details.0);
            proof {
                assert(details_view(self.details.1@) =~= before.remove(v.detail_idx));
            }
            if self.details.1.len() == 0 {
                self.focus = Focus::Torrents;
                self.recompute_torrent_bounds(tlh.saturating_sub(5));
            } else if self.details.0 == self.details.1.len() {
                self.details.0 = self.details.0 - 1;
            }
        } else if k == Key::Char('t') && (focus == Focus::Torrents || focus == Focus::Details) {
            self.trackers_disp = !self.trackers_disp;
            self.recompute_torrent_bounds(tlh.saturating_sub(5));
        } else if focus == Focus::Filter {
            return self.filter.input(k, width, height);
        } else {
            return crate::tui::InputResult::Key(k);
        }
        crate::tui::InputResult::Rerender
    }
}

/// What fitting the panel `v` to `height` rows does: the selection moves up into the rows
/// that the list now has, and the column widths are recomputed where the height changed.
pub open spec fn spec_fit(v: MainView, height: u16) -> MainView {
    let d = v.sel - v.lower;
    let sub: int = if v.details.len() == 0 {
        0
    } else {
        6
    };
    let th = sat(height as int, 3 + sub);
    let v1 = if d > th {
        MainView { sel: v.sel - (d - th), ..v }
    } else {
        v
    };
    if height != v.last_height {
        rebound(MainView { last_height: height, ..v1 }, height as int)
    } else {
        v1
    }
}

/// Removing the torrents whose ids are in `ids` from the list `ts` (selection `sel`, first row
/// `lower`, `h` rows): the torrents kept, how far the selection moves up (by one for each
/// torrent removed above it), and whether the column widths need recomputing. Torrents count
/// from 1 here, so the one at `i` stands above the selection where `i <= sel`.
pub open spec fn removal(
    ts: Seq<TorrentView>,
    ids: Seq<Seq<char>>,
    sel: int,
    lower: int,
    h: int,
) -> (Seq<TorrentView>, int, bool)
    decreases ts.len(),
{
    if ts.len() == 0 {
        (Seq::empty(), 0, false)
    } else {
        let (kept, dec, rc) = removal(ts.drop_last(), ids, sel, lower, h);
        let i = ts.len() as int;
        let t = ts.last();
        if ids.contains(t.id) {
            if i <= sel {
                (kept, dec + 1, true)
            } else if i >= lower && i - lower <= h {
                (kept, dec, true)
            } else {
                (kept, dec, rc)
            }
        } else {
            (kept.push(t), dec, rc)
        }
    }
}

/// Removing the tabs of the torrents in `ids` from the tabs `ds` (selected `sel`): the tabs
/// kept and how far the selection moves left. Tabs count from 1.
pub open spec fn tab_removal(ds: Seq<TorrentView>, ids: Seq<Seq<char>>, sel: int) -> (Seq<
    TorrentView,
>, int)
    decreases ds.len(),
{
    if ds.len() == 0 {
        (Seq::empty(), 0)
    } else {
        let (kept, dec) = tab_removal(ds.drop_last(), ids, sel);
        let i = ds.len() as int;
        let t = ds.last();
        if ids.contains(t.id) {
            if i <= sel && sel - dec != 0 {
                (kept, dec + 1)
            } else {
                (kept, dec)
            }
        } else {
            (kept.push(t), dec)
        }
    }
}

/// The entries of `os` whose tracker ids are not in `ids`.
pub open spec fn refs_kept(os: Seq<TrackerRefView>, ids: Seq<Seq<char>>) -> Seq<TrackerRefView>
    decreases os.len(),
{
    if os.len() == 0 {
        Seq::empty()
    } else {
        let rest = refs_kept(os.drop_last(), ids);
        if ids.contains(os.last().id) {
            rest
        } else {
            rest.push(os.last())
        }
    }
}

/// The tracker groups `gs` once the trackers in `ids` are gone: a group whose first tracker
/// is gone takes its last remaining entry as the first, and goes where none remain.
pub open spec fn groups_after_removal(gs: Seq<TrackerGroupView>, ids: Seq<Seq<char>>) -> Seq<
    TrackerGroupView,
>
    decreases gs.len(),
{
    if gs.len() == 0 {
        Seq::empty()
    } else {
        let rest = groups_after_removal(gs.drop_last(), ids);
        let g = gs.last();
        let os = refs_kept(g.others, ids);
        if ids.contains(g.base.id) {
            if os.len() == 0 {
                rest
            } else {
                let l = os.last();
                rest.push(
                    TrackerGroupView {
                        base: TrackerView {
                            id: l.id,
                            torrent_id: l.torrent_id,
                            error: l.error,
                            ..g.base
                        },
                        others: os.drop_last(),
                    },
                )
            }
        } else {
            rest.push(TrackerGroupView { base: g.base, others: os })
        }
    }
}

/// What removing the resources `ids` does to the panel `v`.
pub open spec fn spec_remove(v: MainView, ids: Seq<Seq<char>>) -> MainView {
    let (kept, dec, rc) = removal(v.torrents, ids, v.sel, v.lower, v.last_height as int);
    let (tabs, tdec) = tab_removal(v.details, ids, v.detail_idx);
    let v1 = MainView {
        torrents: kept,
        lower: sat(v.lower, dec),
        sel: v.sel - dec,
        details: tabs,
        detail_idx: v.detail_idx - tdec,
        focus: if tabs.len() == 0 && v.focus == Focus::Details {
            Focus::Torrents
        } else {
            v.focus
        },
        trackers: groups_after_removal(v.trackers, ids),
        ..v
    };
    if rc {
        rebound(v1, v.last_height as int)
    } else {
        v1
    }
}

proof fn lemma_removal_bounds(ts: Seq<TorrentView>, ids: Seq<Seq<char>>, sel: int, lower: int, h: int)
    requires
        sel >= 0,
        ratios_bounded(ts),
    ensures
        0 <= removal(ts, ids, sel, lower, h).1 <= sel,
        removal(ts, ids, sel, lower, h).1 <= ts.len(),
        ratios_bounded(removal(ts, ids, sel, lower, h).0),
        removal(ts, ids, sel, lower, h).0.len() <= ts.len(),
    decreases ts.len(),
{
    if ts.len() > 0 {
        assert(ratios_bounded(ts.drop_last()));
        lemma_removal_bounds(ts.drop_last(), ids, sel, lower, h);
        let kept = removal(ts.drop_last(), ids, sel, lower, h).0;
        assert(ts.last() == ts[ts.len() - 1]);
        assert(ratios_bounded(kept.push(ts.last())));
    }
}

/// Removing torrents keeps the selected one under the selection, where it stays: before the
/// selection, each torrent is kept or counted as removed above it.
proof fn lemma_removal_selected(ts: Seq<TorrentView>, ids: Seq<Seq<char>>, sel: int, lower: int, h: int)
    requires
        sel >= 0,
    ensures
        ts.len() <= sel ==> removal(ts, ids, sel, lower, h).0.len() + removal(ts, ids, sel, lower, h).1
            == ts.len(),
        sel < ts.len() && !ids.contains(ts[sel].id) ==> {
            let (kept, dec, _) = removal(ts, ids, sel, lower, h);
            0 <= sel - dec < kept.len() && kept[sel - dec] == ts[sel]
        },
    decreases ts.len(),
{
    if ts.len() > 0 {
        let r = ts.drop_last();
        lemma_removal_selected(r, ids, sel, lower, h);
        lemma_removal_bounds_plain(r, ids, sel, lower, h);
        if sel < r.len() {
            assert(r[sel] == ts[sel]);
        }
        if ts.len() == sel + 1 {
            assert(ts.last() == ts[sel]);
        }
    }
}

/// How far the selection moves stays within the selection and the torrents seen.
proof fn lemma_removal_bounds_plain(ts: Seq<TorrentView>, ids: Seq<Seq<char>>, sel: int, lower: int, h: int)
    requires
        sel >= 0,
    ensures
        0 <= removal(ts, ids, sel, lower, h).1 <= sel,
        removal(ts, ids, sel, lower, h).1 <= ts.len(),
    decreases ts.len(),
{
    if ts.len() > 0 {
        lemma_removal_bounds_plain(ts.drop_last(), ids, sel, lower, h);
    }
}

proof fn lemma_tab_removal_bounds(ds: Seq<TorrentView>, ids: Seq<Seq<char>>, sel: int)
    requires
        sel >= 0,
    ensures
        0 <= tab_removal(ds, ids, sel).1 <= sel,
    decreases ds.len(),
{
    if ds.len() > 0 {
        lemma_tab_removal_bounds(ds.drop_last(), ids, sel);
    }
}

impl Main {
    /// Fits the panel to `height` rows before it is drawn: the selection moves up into the
    /// rows that the list has, and the column widths are recomputed where the height changed.
    pub fn fit_to_height(&mut self, height: u16)
        requires
            old(self).wf(),
        ensures
            final(self).wf(),
            final(self).state() == spec_fit(old(self).state(), height),
            final(self).filter() == old(self).filter(),
            final(self).own_requests() == old(self).own_requests(),
    {
        let d = self.torrents.1 - self.torrents.0;
        let sub: u16 = if self.details.1.len() == 0 {
            0
        } else {
            6
        };
        let th = height.saturating_sub(3 + sub) as usize;
        if d > th {
            self.torrents.1 = self.torrents.1 - (d - th);
        }
        if height != self.last_height {
            self.last_height = height;
            self.recompute_torrent_bounds(height);
        }
    }

    /// Takes note of the server's RPC version, `major.minor`.
    pub fn rpc_version(&mut self, major: u16, minor: u16) -> (r: bool)
        requires
            old(self).wf(),
        ensures
            r,
            final(self).wf(),
            final(self).state() == (MainView {
                server_version: crate::utils::term::decimal(major as nat).push('.')
                    + crate::utils::term::decimal(minor as nat),
                ..old(self).state()
            }),
            final(self).filter() == old(self).filter(),
            final(self).own_requests() == old(self).own_requests(),
    {
        let mut s = crate::utils::decimal_string(major as u64);
        push_char(&mut s, '.');
        s.append(crate::utils::decimal_string(minor as u64).as_str());
        self.server_version = s;
        true
    }

    /// Removes the resources `ids`: the torrents, their tabs and the trackers with these ids.
    /// The selection in the list moves up by the torrents removed above it, so that it stays
    /// on its torrent where that one remains; the first row shown moves up as far, but not past
    /// the top; the tab selection moves left by the tabs removed before it.
    pub fn remove_resources(&mut self, ids: &Vec<String>) -> (r: bool)
        requires
            old(self).wf(),
        ensures
            r,
            final(self).wf(),
            final(self).state() == spec_remove(old(self).state(), crate::utils::views(ids@)),
            ({
                let v = old(self).state();
                v.sel < v.torrents.len() && !crate::utils::views(ids@).contains(v.torrents[v.sel].id)
                    ==> final(self).state().sel < final(self).state().torrents.len()
                    && final(self).state().torrents[final(self).state().sel] == v.torrents[v.sel]
            }),
            final(self).filter() == old(self).filter(),
            final(self).own_requests() == old(self).own_requests(),
    {
        let ghost v = self.state();
        let ghost iv = crate::utils::views(ids@);
        let sel = self.torrents.1;
        let lower = self.torrents.0;
        let h = self.last_height as usize;
        // The torrents.
        let mut old_ts: Vec<Torrent> = Vec::new();
        std::mem::swap(&mut old_ts, &mut self.torrents.2);
        let ghost ts = torrents_view(old_ts@);
        let total_ts = old_ts.len();
        let mut kept: Vec<Torrent> = Vec::new();
        let mut dec: usize = 0;
        let mut rc = false;
        let mut i: usize = 0;
        proof {
            lemma_removal_bounds(ts, iv, sel as int, lower as int, h as int);
        }
        while old_ts.len() > 0
            invariant
                ts == v.torrents,
                iv == crate::utils::views(ids@),
                sel == v.sel,
                lower == v.lower,
                h == v.last_height,
                ratios_bounded(ts),
                sel < usize::MAX / 2,
                i + old_ts@.len() == ts.len(),
                ts.len() <= usize::MAX,
                torrents_view(old_ts@) == ts.skip(i as int),
                (torrents_view(kept@), dec as int, rc) == removal(
                    ts.take(i as int),
                    iv,
                    sel as int,
                    lower as int,
                    h as int,
                ),
                dec <= sel,
                dec <= i,
            decreases old_ts.len(),
        {
            proof {
                assert(ts.take(i + 1).drop_last() =~= ts.take(i as int));
                assert(ts.skip(i as int)[0] == ts[i as int]);
                assert(ts.take(i + 1).last() == ts[i as int]);
                lemma_removal_bounds(ts.take(i as int), iv, sel as int, lower as int, h as int);
            }
            let ghost pre = old_ts@;
            let t = old_ts.remove(0);
            proof {
                assert(old_ts@ =~= pre.subrange(1, pre.len() as int));
                assert(torrents_view(old_ts@) =~= torrents_view(pre).subrange(1, pre.len() as int));
            }
            let ghost before = torrents_view(kept@);
            let n = i + 1;
            if holds(ids, &t.id) {
                if n <= sel {
                    dec = dec + 1;
                    rc = true;
                } else if n >= lower && n - lower <= h {
                    rc = true;
                }
            } else {
                kept.push(t);
                proof {
                    assert(torrents_view(kept@) =~= before.push(ts[i as int]));
                }
            }
            proof {
                assert(torrents_view(old_ts@) =~= ts.skip(i + 1));
            }
            i = i + 1;
        }
        proof {
            assert(ts.take(i as int) =~= ts);
            lemma_removal_bounds(ts, iv, sel as int, lower as int, h as int);
            lemma_removal_selected(ts, iv, sel as int, lower as int, h as int);
        }
        self.torrents.2 = kept;
        self.torrents.0 = lower.saturating_sub(dec);
        self.torrents.1 = sel - dec;
        // The tabs.
        let tsel = self.details.0;
        let mut old_ds: Vec<TorrentDetails> = Vec::new();
        std::mem::swap(&mut old_ds, &mut self.details.1);
        let ghost ds = details_view(old_ds@);
        let total_ds = old_ds.len();
        let mut tabs: Vec<TorrentDetails> = Vec::new();
        let mut tdec: usize = 0;
        let mut j: usize = 0;
        while old_ds.len() > 0
            invariant
                ds == v.details,
                iv == crate::utils::views(ids@),
                tsel == v.detail_idx,
                j + old_ds@.len() == ds.len(),
                ds.len() <= usize::MAX,
                details_view(old_ds@) == ds.skip(j as int),
                (details_view(tabs@), tdec as int) == tab_removal(ds.take(j as int), iv, tsel as int),
                tdec <= tsel,
            decreases old_ds.len(),
        {
            proof {
                assert(ds.take(j + 1).drop_last() =~= ds.take(j as int));
                assert(ds.skip(j as int)[0] == ds[j as int]);
                lemma_tab_removal_bounds(ds.take(j as int), iv, tsel as int);
            }
            let ghost pre = old_ds@;
            let t = old_ds.remove(0);
            proof {
                assert(old_ds@ =~= pre.subrange(1, pre.len() as int));
                assert(details_view(old_ds@) =~= details_view(pre).subrange(1, pre.len() as int));
            }
            let ghost before = details_view(tabs@);
            let n = j + 1;
            if holds(ids, &t.inner().id) {
                if n <= tsel && tsel - tdec != 0 {
                    tdec = tdec + 1;
                }
            } else {
                tabs.push(t);
                proof {
                    assert(details_view(tabs@) =~= before.push(ds[j as int]));
                }
            }
            proof {
                assert(details_view(old_ds@) =~= ds.skip(j + 1));
            }
            j = j + 1;
        }
        proof {
            assert(ds.take(j as int) =~= ds);
        }
        self.details.1 = tabs;
        self.details.0 = tsel - tdec;
        if self.details.1.len() == 0 && self.focus == Focus::Details {
            self.focus = Focus::Torrents;
        }
        // The trackers.
        self.remove_trackers(ids);
        if rc {
            let height = self.last_height;
            self.recompute_torrent_bounds(height);
        }
        true
    }

    /// Removes the trackers `ids` from the tracker groups.
    fn remove_trackers(&mut self, ids: &Vec<String>)
        requires
            old(self).wf(),
        ensures
            final(self).wf(),
            final(self).state() == (MainView {
                trackers: groups_after_removal(old(self).state().trackers, crate::utils::views(ids@)),
                ..old(self).state()
            }),
            final(self).filter() == old(self).filter(),
            final(self).own_requests() == old(self).own_requests(),
    {
        let ghost iv = crate::utils::views(ids@);
        let mut old_gs: Vec<TrackerGroup> = Vec::new();
        std::mem::swap(&mut old_gs, &mut self.trackers);
        let ghost gs = groups_view(old_gs@);
        let total = old_gs.len();
        let mut out: Vec<TrackerGroup> = Vec::new();
        let mut i: usize = 0;
        while old_gs.len() > 0
            invariant
                iv == crate::utils::views(ids@),
                i + old_gs@.len() == gs.len(),
                gs.len() <= usize::MAX,
                groups_view(old_gs@) == gs.skip(i as int),
                groups_view(out@) == groups_after_removal(gs.take(i as int), iv),
            decreases old_gs.len(),
        {
            proof {
                assert(gs.take(i + 1).drop_last() =~= gs.take(i as int));
                assert(gs.skip(i as int)[0] == gs[i as int]);
            }
            let ghost pre = old_gs@;
            let g = old_gs.remove(0);
            proof {
                assert(old_gs@ =~= pre.subrange(1, pre.len() as int));
                assert(groups_view(old_gs@) =~= groups_view(pre).subrange(1, pre.len() as int));
            }
            let ghost gv = g@;
            let ghost before = groups_view(out@);
            let TrackerGroup { base, others } = g;
            let mut kept = keep_refs(others, ids);
            if holds(ids, &base.id) {
                if kept.len() > 0 {
                    let ghost kv = kept@.map_values(|o: TrackerRef| o@);
                    let l = kept.pop().unwrap();
                    proof {
                        assert(kept@.map_values(|o: TrackerRef| o@) =~= kv.drop_last());
                        assert(l@ == kv.last());
                    }
                    let nb = Tracker {
                        id: l.id,
                        torrent_id: l.torrent_id,
                        url: base.url,
                        host: base.host,
                        error: l.error,
                    };
                    out.push(TrackerGroup { base: nb, others: kept });
                    proof {
                        assert(groups_view(out@) =~= groups_after_removal(gs.take(i + 1), iv));
                    }
                } else {
                    proof {
                        assert(groups_view(out@) =~= groups_after_removal(gs.take(i + 1), iv));
                    }
                }
            } else {
                out.push(TrackerGroup { base, others: kept });
                proof {
                    assert(groups_view(out@) =~= groups_after_removal(gs.take(i + 1), iv));
                }
            }
            proof {
                assert(groups_view(old_gs@) =~= gs.skip(i + 1));
            }
            i = i + 1;
        }
        proof {
            assert(gs.take(i as int) =~= gs);
        }
        self.trackers = out;
    }
}

/// The entries of `os` whose tracker ids are not in `ids`.
fn keep_refs(os: Vec<TrackerRef>, ids: &Vec<String>) -> (r: Vec<TrackerRef>)
    ensures
        r@.map_values(|o: TrackerRef| o@) == refs_kept(
            os@.map_values(|o: TrackerRef| o@),
            crate::utils::views(ids@),
        ),
{
    let ghost ov = os@.map_values(|o: TrackerRef| o@);
    let ghost iv = crate::utils::views(ids@);
    let mut os = os;
    let total = os.len();
    let mut r: Vec<TrackerRef> = Vec::new();
    let mut i: usize = 0;
    while os.len() > 0
        invariant
            iv == crate::utils::views(ids@),
            i + os@.len() == ov.len(),
            ov.len() <= usize::MAX,
            os@.map_values(|o: TrackerRef| o@) == ov.skip(i as int),
            r@.map_values(|o: TrackerRef| o@) == refs_kept(ov.take(i as int), iv),
        decreases os.len(),
    {
        proof {
            assert(ov.take(i + 1).drop_last() =~= ov.take(i as int));
            assert(ov.skip(i as int)[0] == ov[i as int]);
        }
        let ghost pre = os@;
        let o = os.remove(0);
        proof {
            assert(os@ =~= pre.subrange(1, pre.len() as int));
            assert(os@.map_values(|o: TrackerRef| o@) =~= pre.map_values(|o: TrackerRef| o@).subrange(1, pre.len() as int));
        }
        let ghost before = r@.map_values(|o: TrackerRef| o@);
        if !holds(ids, &o.id) {
            r.push(o);
            proof {
                assert(r@.map_values(|o: TrackerRef| o@) =~= before.push(ov[i as int]));
            }
        }
        proof {
            assert(os@.map_values(|o: TrackerRef| o@) =~= ov.skip(i + 1));
        }
        i = i + 1;
    }
    proof {
        assert(ov.take(i as int) =~= ov);
    }
    r
}

/// The natural order of two names ignoring case, as `natord` compares them: -1, 0 or 1.
pub uninterp spec fn natural_order(a: Seq<char>, b: Seq<char>) -> i8;

/// Compares two names in natural order ignoring case (`natord::compare_ignore_case`):
/// -1 where `a` comes first, 0 where they are equal, 1 where `b` comes first. `compare_iter`
/// treats its two sides alike in every branch (the same lowering, skipping and digit reading,
/// `Ord::cmp` of the one side against the other, `Greater` where only the left goes on and
/// `Less` where only the right does), so swapping the names turns the result around.
#[verifier::external_body]
fn compare_names(a: &str, b: &str) -> (r: i8)
    ensures
        r == natural_order(a@, b@),
        natural_order(b@, a@) == -r,
{
    match natord::compare_ignore_case(a, b) {
        std::cmp::Ordering::Less => -1,
        std::cmp::Ordering::Equal => 0,
        std::cmp::Ordering::Greater => 1,
    }
}

/// The name a torrent is sorted by: its name, or nothing.
pub open spec fn sort_key(t: TorrentView) -> Seq<char> {
    match t.name {
        Some(n) => n,
        None => Seq::empty(),
    }
}

/// Where a torrent sorted by `key` goes in `ts`: before the first torrent that does not come
/// before it.
pub open spec fn insert_pos(ts: Seq<TorrentView>, key: Seq<char>) -> int
    decreases ts.len(),
{
    if ts.len() == 0 {
        0
    } else {
        let p = insert_pos(ts.drop_last(), key);
        if p < ts.len() - 1 {
            p
        } else if natural_order(sort_key(ts.last()), key) == -1 {
            ts.len() as int
        } else {
            ts.len() - 1
        }
    }
}

/// Where an entry with tracker id `id` goes in `os`: before the first entry whose id does not
/// come before it.
pub open spec fn ref_pos(os: Seq<TrackerRefView>, id: Seq<char>) -> int
    decreases os.len(),
{
    if os.len() == 0 {
        0
    } else {
        let p = ref_pos(os.drop_last(), id);
        if p < os.len() - 1 {
            p
        } else if crate::utils::text_order(os.last().id, id) == -1 {
            os.len() as int
        } else {
            os.len() - 1
        }
    }
}

/// The group for the tracker URL `url` in `gs`: the first group whose URL does not come before
/// it, and whether its URL is `url`; past the end where there is none.
pub open spec fn tracker_slot(gs: Seq<TrackerGroupView>, url: Seq<char>) -> (int, bool)
    decreases gs.len(),
{
    if gs.len() == 0 {
        (0, false)
    } else {
        let (p, eq) = tracker_slot(gs.drop_last(), url);
        if p < gs.len() - 1 {
            (p, eq)
        } else {
            let o = crate::utils::text_order(url, gs.last().base.url);
            if o == 1 {
                (gs.len() as int, false)
            } else {
                (gs.len() - 1, o == 0)
            }
        }
    }
}

/// The first group that has a tracker with id `id`, or -1.
pub open spec fn tracker_group_of(gs: Seq<TrackerGroupView>, id: Seq<char>) -> int
    decreases gs.len(),
{
    if gs.len() == 0 {
        -1
    } else {
        let p = tracker_group_of(gs.drop_last(), id);
        if p >= 0 {
            p
        } else if gs.last().base.id == id || exists|j: int|
            0 <= j < gs.last().others.len() && #[trigger] gs.last().others[j].id == id {
            gs.len() - 1
        } else {
            -1
        }
    }
}

/// The first entry with tracker id `id`, or -1.
pub open spec fn ref_index(os: Seq<TrackerRefView>, id: Seq<char>) -> int
    decreases os.len(),
{
    if os.len() == 0 {
        -1
    } else {
        let p = ref_index(os.drop_last(), id);
        if p >= 0 {
            p
        } else if os.last().id == id {
            os.len() - 1
        } else {
            -1
        }
    }
}

/// The first torrent with id `id`, or -1.
pub open spec fn torrent_index(ts: Seq<TorrentView>, id: Seq<char>) -> int
    decreases ts.len(),
{
    if ts.len() == 0 {
        -1
    } else {
        let p = torrent_index(ts.drop_last(), id);
        if p >= 0 {
            p
        } else if ts.last().id == id {
            ts.len() - 1
        } else {
            -1
        }
    }
}

/// An update of the resources the panel shows.
pub enum ResourceUpdate {
    /// A torrent appeared.
    Torrent(Torrent),
    /// A tracker appeared.
    Tracker(Tracker),
    /// A tracker reported, with this error or none.
    TrackerStatus { id: String, error: Option<String> },
    /// A torrent changed; this is what it is now.
    TorrentChanged(Torrent),
    /// An update that the panel does not show.
    Other,
}

/// The plain-value form of a `ResourceUpdate`.
pub enum UpdateView {
    Torrent(TorrentView),
    Tracker(TrackerView),
    TrackerStatus { id: Seq<char>, error: Option<Seq<char>> },
    TorrentChanged(TorrentView),
    Other,
}

impl View for ResourceUpdate {
    type V = UpdateView;

    open spec fn view(&self) -> UpdateView {
        match self {
            ResourceUpdate::Torrent(t) => UpdateView::Torrent(t@),
            ResourceUpdate::Tracker(t) => UpdateView::Tracker(t@),
            ResourceUpdate::TrackerStatus { id, error } => UpdateView::TrackerStatus {
                id: id@,
                error: opt_view(*error),
            },
            ResourceUpdate::TorrentChanged(t) => UpdateView::TorrentChanged(t@),
            ResourceUpdate::Other => UpdateView::Other,
        }
    }
}

/// What the update `u` does to the panel `v`, and whether the column widths need recomputing
/// afterwards (`rc` tells whether they did before).
pub open spec fn spec_update(v: MainView, u: UpdateView, rc: bool) -> (MainView, bool) {
    match u {
        UpdateView::Torrent(t) => {
            let idx = insert_pos(v.torrents, sort_key(t));
            (
                MainView { torrents: v.torrents.insert(idx, t), ..v },
                rc || (idx >= v.lower && idx - v.lower <= v.last_height),
            )
        },
        UpdateView::Tracker(t) => {
            let (p, eq) = tracker_slot(v.trackers, t.url);
            if eq {
                let g = v.trackers[p];
                let r = TrackerRefView { id: t.id, torrent_id: t.torrent_id, error: t.error };
                let g2 = TrackerGroupView { others: g.others.insert(ref_pos(g.others, t.id), r), ..g };
                (MainView { trackers: v.trackers.update(p, g2), ..v }, rc)
            } else {
                (
                    MainView {
                        trackers: v.trackers.insert(p, TrackerGroupView { base: t, others: Seq::empty() }),
                        ..v
                    },
                    rc,
                )
            }
        },
        UpdateView::TrackerStatus { id, error } => {
            let p = tracker_group_of(v.trackers, id);
            if p < 0 {
                (v, rc)
            } else {
                let g = v.trackers[p];
                let g2 = if g.base.id == id {
                    TrackerGroupView { base: TrackerView { error, ..g.base }, ..g }
                } else {
                    let q = ref_index(g.others, id);
                    TrackerGroupView {
                        others: g.others.update(q, TrackerRefView { error, ..g.others[q] }),
                        ..g
                    }
                };
                (MainView { trackers: v.trackers.update(p, g2), ..v }, rc)
            }
        },
        UpdateView::TorrentChanged(t) => {
            let d = torrent_index(v.details, t.id);
            let k = torrent_index(v.torrents, t.id);
            (
                MainView {
                    details: if d >= 0 {
                        v.details.update(d, t)
                    } else {
                        v.details
                    },
                    torrents: if k >= 0 {
                        v.torrents.update(k, t)
                    } else {
                        v.torrents
                    },
                    ..v
                },
                rc,
            )
        },
        UpdateView::Other => (v, rc),
    }
}

/// The name a torrent is sorted by.
fn key_of(t: &Torrent) -> (r: &str)
    ensures
        r@ == sort_key(t@),
{
    match &t.name {
        Some(n) => n.as_str(),
        None => {
            proof {
                reveal_strlit("");
            }
            ""
        },
    }
}

/// Where a torrent sorted by `key` goes in `ts` (see `insert_pos`).
fn find_insert_pos(ts: &Vec<Torrent>, key: &str) -> (r: usize)
    ensures
        r as int == insert_pos(torrents_view(ts@), key@),
        r < ts@.len() ==> natural_order(key@, sort_key(ts@[r as int]@)) != 1,
{
    let ghost tv = torrents_view(ts@);
    let mut i: usize = 0;
    while i < ts.len()
        invariant
            tv == torrents_view(ts@),
            i <= tv.len(),
            insert_pos(tv.take(i as int), key@) == i,
        decreases ts.len() - i,
    {
        proof {
            assert(tv.take(i + 1).drop_last() =~= tv.take(i as int));
        }
        if compare_names(key_of(&ts[i]), key) != -1 {
            proof {
                lemma_insert_pos_found(tv, key@, i as int);
                assert(tv[i as int] == ts@[i as int]@);
            }
            return i;
        }
        i = i + 1;
    }
    proof {
        assert(tv.take(i as int) =~= tv);
    }
    i
}

/// Once a prefix ends before the position, the position is that of the prefix.
proof fn lemma_insert_pos_found(tv: Seq<TorrentView>, key: Seq<char>, i: int)
    requires
        0 <= i < tv.len(),
        insert_pos(tv.take(i + 1), key) == i,
    ensures
        insert_pos(tv, key) == i,
    decreases tv.len(),
{
    if tv.len() > i + 1 {
        assert(tv.drop_last().take(i + 1) =~= tv.take(i + 1));
        lemma_insert_pos_found(tv.drop_last(), key, i);
    } else {
        assert(tv.take(i + 1) =~= tv);
    }
}

/// Where an entry with tracker id `id` goes in `os` (see `ref_pos`).
fn find_ref_pos(os: &Vec<TrackerRef>, id: &String) -> (r: usize)
    ensures
        r as int == ref_pos(os@.map_values(|o: TrackerRef| o@), id@),
{
    let ghost ov = os@.map_values(|o: TrackerRef| o@);
    let mut i: usize = 0;
    while i < os.len()
        invariant
            ov == os@.map_values(|o: TrackerRef| o@),
            i <= ov.len(),
            ref_pos(ov.take(i as int), id@) == i,
        decreases os.len() - i,
    {
        proof {
            assert(ov.take(i + 1).drop_last() =~= ov.take(i as int));
        }
        if crate::utils::compare_text(os[i].id.as_str(), id.as_str()) != -1 {
            proof {
                lemma_ref_pos_found(ov, id@, i as int);
            }
            return i;
        }
        i = i + 1;
    }
    proof {
        assert(ov.take(i as int) =~= ov);
    }
    i
}

proof fn lemma_ref_pos_found(ov: Seq<TrackerRefView>, id: Seq<char>, i: int)
    requires
        0 <= i < ov.len(),
        ref_pos(ov.take(i + 1), id) == i,
    ensures
        ref_pos(ov, id) == i,
    decreases ov.len(),
{
    if ov.len() > i + 1 {
        assert(ov.drop_last().take(i + 1) =~= ov.take(i + 1));
        lemma_ref_pos_found(ov.drop_last(), id, i);
    } else {
        assert(ov.take(i + 1) =~= ov);
    }
}

/// The group for the tracker URL `url` (see `tracker_slot`).
fn find_tracker_slot(gs: &Vec<TrackerGroup>, url: &String) -> (r: (usize, bool))
    ensures
        (r.0 as int, r.1) == tracker_slot(groups_view(gs@), url@),
{
    let ghost gv = groups_view(gs@);
    let mut i: usize = 0;
    while i < gs.len()
        invariant
            gv == groups_view(gs@),
            i <= gv.len(),
            tracker_slot(gv.take(i as int), url@) == (i as int, false),
        decreases gs.len() - i,
    {
        proof {
            assert(gv.take(i + 1).drop_last() =~= gv.take(i as int));
        }
        let o = crate::utils::compare_text(url.as_str(), gs[i].base.url.as_str());
        if o != 1 {
            proof {
                lemma_tracker_slot_found(gv, url@, i as int);
            }
            return (i, o == 0);
        }
        i = i + 1;
    }
    proof {
        assert(gv.take(i as int) =~= gv);
    }
    (i, false)
}

proof fn lemma_tracker_slot_found(gv: Seq<TrackerGroupView>, url: Seq<char>, i: int)
    requires
        0 <= i < gv.len(),
        tracker_slot(gv.take(i + 1), url).0 == i,
    ensures
        tracker_slot(gv, url) == tracker_slot(gv.take(i + 1), url),
    decreases gv.len(),
{
    if gv.len() > i + 1 {
        assert(gv.drop_last().take(i + 1) =~= gv.take(i + 1));
        lemma_tracker_slot_found(gv.drop_last(), url, i);
    } else {
        assert(gv.take(i + 1) =~= gv);
    }
}

/// The first entry with tracker id `id` (see `ref_index`).
fn find_ref(os: &Vec<TrackerRef>, id: &String) -> (r: Option<usize>)
    ensures
        r matches Some(q) ==> q as int == ref_index(os@.map_values(|o: TrackerRef| o@), id@) && q
            < os@.len() && os@[q as int]@.id == id@,
        r is None ==> ref_index(os@.map_values(|o: TrackerRef| o@), id@) == -1,
        r is None <==> forall|j: int| 0 <= j < os@.len() ==> #[trigger] os@[j]@.id != id@,
{
    let ghost ov = os@.map_values(|o: TrackerRef| o@);
    let mut i: usize = 0;
    while i < os.len()
        invariant
            ov == os@.map_values(|o: TrackerRef| o@),
            i <= ov.len(),
            ref_index(ov.take(i as int), id@) == -1,
            forall|j: int| 0 <= j < i ==> #[trigger] os@[j]@.id != id@,
        decreases os.len() - i,
    {
        proof {
            assert(ov.take(i + 1).drop_last() =~= ov.take(i as int));
        }
        if os[i].id == *id {
            proof {
                assert(os@[i as int]@.id == id@);
                lemma_ref_index_found(ov, id@, i as int);
            }
            return Some(i);
        }
        i = i + 1;
    }
    proof {
        assert(ov.take(i as int) =~= ov);
    }
    None
}

proof fn lemma_ref_index_found(ov: Seq<TrackerRefView>, id: Seq<char>, i: int)
    requires
        0 <= i < ov.len(),
        ref_index(ov.take(i), id) == -1,
        ov[i].id == id,
    ensures
        ref_index(ov, id) == i,
    decreases ov.len(),
{
    if ov.len() > i + 1 {
        assert(ov.drop_last().take(i) =~= ov.take(i));
        assert(ov.drop_last()[i] == ov[i]);
        lemma_ref_index_found(ov.drop_last(), id, i);
    } else {
        assert(ov.drop_last() =~= ov.take(i));
    }
}

/// The first torrent with id `id` (see `torrent_index`).
fn find_torrent(ts: &Vec<Torrent>, id: &String) -> (r: Option<usize>)
    ensures
        r matches Some(q) ==> q as int == torrent_index(torrents_view(ts@), id@) && q < ts@.len(),
        r is None ==> torrent_index(torrents_view(ts@), id@) == -1,
{
    let ghost tv = torrents_view(ts@);
    let mut i: usize = 0;
    while i < ts.len()
        invariant
            tv == torrents_view(ts@),
            i <= tv.len(),
            torrent_index(tv.take(i as int), id@) == -1,
        decreases ts.len() - i,
    {
        proof {
            assert(tv.take(i + 1).drop_last() =~= tv.take(i as int));
        }
        if ts[i].id == *id {
            proof {
                lemma_torrent_index_found(tv, id@, i as int);
            }
            return Some(i);
        }
        i = i + 1;
    }
    proof {
        assert(tv.take(i as int) =~= tv);
    }
    None
}

proof fn lemma_torrent_index_found(tv: Seq<TorrentView>, id: Seq<char>, i: int)
    requires
        0 <= i < tv.len(),
        torrent_index(tv.take(i), id) == -1,
        tv[i].id == id,
    ensures
        torrent_index(tv, id) == i,
    decreases tv.len(),
{
    if tv.len() > i + 1 {
        assert(tv.drop_last().take(i) =~= tv.take(i));
        assert(tv.drop_last()[i] == tv[i]);
        lemma_torrent_index_found(tv.drop_last(), id, i);
    } else {
        assert(tv.drop_last() =~= tv.take(i));
    }
}

/// The first tab showing the torrent `id` (see `torrent_index`).
fn find_tab(ds: &Vec<TorrentDetails>, id: &String) -> (r: Option<usize>)
    ensures
        r matches Some(q) ==> q as int == torrent_index(details_view(ds@), id@) && q < ds@.len(),
        r is None ==> torrent_index(details_view(ds@), id@) == -1,
{
    let ghost tv = details_view(ds@);
    let mut i: usize = 0;
    while i < ds.len()
        invariant
            tv == details_view(ds@),
            i <= tv.len(),
            torrent_index(tv.take(i as int), id@) == -1,
        decreases ds.len() - i,
    {
        proof {
            assert(tv.take(i + 1).drop_last() =~= tv.take(i as int));
        }
        if ds[i].inner().id == *id {
            proof {
                lemma_torrent_index_found(tv, id@, i as int);
            }
            return Some(i);
        }
        i = i + 1;
    }
    proof {
        assert(tv.take(i as int) =~= tv);
    }
    None
}

/// The first group with a tracker of id `id` (see `tracker_group_of`).
fn find_tracker_group(gs: &Vec<TrackerGroup>, id: &String) -> (r: Option<usize>)
    ensures
        r matches Some(q) ==> q as int == tracker_group_of(groups_view(gs@), id@) && q < gs@.len(),
        r is None ==> tracker_group_of(groups_view(gs@), id@) == -1,
{
    let ghost gv = groups_view(gs@);
    let mut i: usize = 0;
    while i < gs.len()
        invariant
            gv == groups_view(gs@),
            i <= gv.len(),
            tracker_group_of(gv.take(i as int), id@) == -1,
        decreases gs.len() - i,
    {
        proof {
            assert(gv.take(i + 1).drop_last() =~= gv.take(i as int));
            assert(gv.take(i + 1).last() == gv[i as int]);
        }
        let g = &gs[i];
        let hit = if g.base.id == *id {
            true
        } else {
            match find_ref(&g.others, id) {
                Some(q) => {
                    proof {
                        assert(gv[i as int].others[q as int].id == id@);
                    }
                    true
                },
                None => false,
            }
        };
        if hit {
            proof {
                lemma_tracker_group_found(gv, id@, i as int);
            }
            return Some(i);
        }
        i = i + 1;
    }
    proof {
        assert(gv.take(i as int) =~= gv);
    }
    None
}

/// The group found for a tracker id holds a tracker with that id.
proof fn lemma_tracker_group_of(gv: Seq<TrackerGroupView>, id: Seq<char>)
    requires
        tracker_group_of(gv, id) >= 0,
    ensures
        tracker_group_of(gv, id) < gv.len(),
        gv[tracker_group_of(gv, id)].base.id == id || exists|j: int|
            0 <= j < gv[tracker_group_of(gv, id)].others.len()
                && #[trigger] gv[tracker_group_of(gv, id)].others[j].id == id,
    decreases gv.len(),
{
    if tracker_group_of(gv.drop_last(), id) >= 0 {
        lemma_tracker_group_of(gv.drop_last(), id);
    }
}

proof fn lemma_tracker_group_found(gv: Seq<TrackerGroupView>, id: Seq<char>, i: int)
    requires
        0 <= i < gv.len(),
        tracker_group_of(gv.take(i + 1), id) == i,
    ensures
        tracker_group_of(gv, id) == i,
    decreases gv.len(),
{
    if gv.len() > i + 1 {
        assert(gv.drop_last().take(i + 1) =~= gv.take(i + 1));
        lemma_tracker_group_found(gv.drop_last(), id, i);
    } else {
        assert(gv.take(i + 1) =~= gv);
    }
}

/// Whether the update `u` carries a torrent whose ratio is wider than 64 columns.
pub open spec fn update_bounded(u: UpdateView) -> bool {
    match u {
        UpdateView::Torrent(t) => t.ratio_width <= 64,
        UpdateView::TorrentChanged(t) => t.ratio_width <= 64,
        _ => true,
    }
}

/// What the updates `us` do to the panel `v`, and whether the column widths need recomputing.
pub open spec fn updates_applied(v: MainView, us: Seq<UpdateView>) -> (MainView, bool)
    decreases us.len(),
{
    if us.len() == 0 {
        (v, false)
    } else {
        let (v1, rc) = updates_applied(v, us.drop_last());
        spec_update(v1, us.last(), rc)
    }
}

/// What updating the resources with `us` does to the panel `v`: each update in turn, then the
/// column widths recomputed where a torrent appeared in or just below the rows shown.
pub open spec fn spec_update_resources(v: MainView, us: Seq<UpdateView>) -> MainView {
    let (v1, rc) = updates_applied(v, us);
    if rc {
        rebound(v1, v1.last_height as int)
    } else {
        v1
    }
}

impl Main {
    /// Applies one update; tells whether the column widths need recomputing (`rc` tells
    /// whether they did before).
    fn apply_update(&mut self, u: ResourceUpdate, rc: bool) -> (r: bool)
        requires
            old(self).wf(),
            update_bounded(u@),
        ensures
            final(self).wf(),
            (final(self).state(), r) == spec_update(old(self).state(), u@, rc),
            final(self).filter() == old(self).filter(),
            final(self).own_requests() == old(self).own_requests(),
            u@ matches UpdateView::Torrent(t) ==> properties::fits_before_next(old(self).state().torrents, t),
    {
        match u {
            ResourceUpdate::Torrent(t) => self.add_torrent(t, rc),
            ResourceUpdate::Tracker(t) => {
                self.add_tracker(t);
                rc
            },
            ResourceUpdate::TrackerStatus { id, error } => {
                self.tracker_reported(id, error);
                rc
            },
            ResourceUpdate::TorrentChanged(t) => {
                self.torrent_changed(t);
                rc
            },
            ResourceUpdate::Other => rc,
        }
    }

    fn add_torrent(&mut self, t: Torrent, rc: bool) -> (r: bool)
        requires
            old(self).wf(),
            t@.ratio_width <= 64,
        ensures
            final(self).wf(),
            (final(self).state(), r) == spec_update(old(self).state(), UpdateView::Torrent(t@), rc),
            final(self).filter() == old(self).filter(),
            final(self).own_requests() == old(self).own_requests(),
            properties::fits_before_next(old(self).state().torrents, t@),
    {
        let idx = find_insert_pos(&self.torrents.2, key_of(&t));
        proof {
            let ts = old(self).state().torrents;
            if (idx as int) < ts.len() {
                assert(ts[idx as int] == self.torrents.2@[idx as int]@);
            }
        }
        let ghost tv = t@;
        let ghost before = torrents_view(self.torrents.2@);
        self.torrents.2.insert(idx, t);
        proof {
            assert(torrents_view(self.torrents.2@) =~= before.insert(idx as int, tv));
            assert forall|i: int| 0 <= i < self.state().torrents.len() implies #[trigger] self.state().torrents[i].ratio_width <= 64 by {
                if i < idx {
                    assert(self.state().torrents[i] == before[i]);
                } else if i > idx {
                    assert(self.state().torrents[i] == before[i - 1]);
                }
            }
        }
        rc || (idx >= self.torrents.0 && idx - self.torrents.0 <= self.last_height as usize)
    }

    fn add_tracker(&mut self, t: Tracker)
        requires
            old(self).wf(),
        ensures
            final(self).wf(),
            final(self).state() == spec_update(old(self).state(), UpdateView::Tracker(t@), false).0,
            final(self).filter() == old(self).filter(),
            final(self).own_requests() == old(self).own_requests(),
    {
        let (p, eq) = find_tracker_slot(&self.trackers, &t.url);
        let ghost before = groups_view(self.trackers@);
        if eq {
            let mut g = self.trackers.remove(p);
            let q = find_ref_pos(&g.others, &t.id);
            let ghost ob = g.others@.map_values(|o: TrackerRef| o@);
            let r = TrackerRef { id: t.id, torrent_id: t.torrent_id, error: t.error };
            let ghost rv = r@;
            g.others.insert(q, r);
            proof {
                assert(g.others@.map_values(|o: TrackerRef| o@) =~= ob.insert(q as int, rv));
            }
            self.trackers.insert(p, g);
            proof {
                assert(groups_view(self.trackers@) =~= before.update(p as int, g@));
            }
        } else {
            let ng = TrackerGroup { base: t, others: Vec::new() };
            proof {
                assert(ng@.others =~= Seq::<TrackerRefView>::empty());
            }
            self.trackers.insert(p, ng);
            proof {
                assert(groups_view(self.trackers@) =~= before.insert(p as int, ng@));
            }
        }
    }

    fn tracker_reported(&mut self, id: String, error: Option<String>)
        requires
            old(self).wf(),
        ensures
            final(self).wf(),
            final(self).state() == spec_update(
                old(self).state(),
                UpdateView::TrackerStatus { id: id@, error: opt_view(error) },
                false,
            ).0,
            final(self).filter() == old(self).filter(),
            final(self).own_requests() == old(self).own_requests(),
    {
        match find_tracker_group(&self.trackers, &id) {
            Some(p) => {
                let ghost before = groups_view(self.trackers@);
                proof {
                    lemma_tracker_group_of(before, id@);
                }
                let mut g = self.trackers.remove(p);
                if g.base.id == id {
                    g.base.error = error;
                } else {
                    let ghost ob = g.others@.map_values(|o: TrackerRef| o@);
                    match find_ref(&g.others, &id) {
                        Some(q) => {
                            let mut o = g.others.remove(q);
                            o.error = error;
                            let ghost ov = o@;
                            g.others.insert(q, o);
                            proof {
                                assert(g.others@.map_values(|o: TrackerRef| o@) =~= ob.update(
                                    q as int,
                                    ov,
                                ));
                            }
                        },
                        None => {
                            proof {
                                let j = choose|j: int|
                                    0 <= j < before[p as int].others.len()
                                        && #[trigger] before[p as int].others[j].id == id@;
                                assert(g.others@[j]@.id == id@);
                            }
                        },
                    }
                }
                self.trackers.insert(p, g);
                proof {
                    assert(groups_view(self.trackers@) =~= before.update(p as int, g@));
                }
            },
            None => {},
        }
    }

    fn torrent_changed(&mut self, t: Torrent)
        requires
            old(self).wf(),
            t@.ratio_width <= 64,
        ensures
            final(self).wf(),
            final(self).state() == spec_update(
                old(self).state(),
                UpdateView::TorrentChanged(t@),
                false,
            ).0,
            final(self).filter() == old(self).filter(),
            final(self).own_requests() == old(self).own_requests(),
    {
        let ghost tv = t@;
        match find_tab(&self.details.1, &t.id) {
            Some(d) => {
                let ghost before = details_view(self.details.1@);
                let mut tab = self.details.1.remove(d);
                tab.set_inner(t.clone());
                self.details.1.insert(d, tab);
                proof {
                    assert(details_view(self.details.1@) =~= before.update(d as int, tv));
                }
            },
            None => {},
        }
        match find_torrent(&self.torrents.2, &t.id) {
            Some(k) => {
                let ghost before = torrents_view(self.torrents.2@);
                self.torrents.2.remove(k);
                self.torrents.2.insert(k, t);
                proof {
                    assert(torrents_view(self.torrents.2@) =~= before.update(k as int, tv));
                    assert forall|i: int| 0 <= i < self.state().torrents.len() implies #[trigger] self.state().torrents[i].ratio_width <= 64 by {
                        if i != k {
                            assert(self.state().torrents[i] == before[i]);
                        }
                    }
                }
            },
            None => {},
        }
    }

    /// Updates the resources the panel shows with `updates`, in order: torrents go where their
    /// name sorts in natural order, trackers into the group of their URL (groups sorted by
    /// URL), tracker reports and torrent changes where they belong. A list in natural order of
    /// names stays so, where no change renames a listed torrent in place.
    pub fn update_resources(&mut self, updates: Vec<ResourceUpdate>) -> (r: bool)
        requires
            old(self).wf(),
            forall|i: int| 0 <= i < updates@.len() ==> update_bounded(#[trigger] updates@[i]@),
        ensures
            r,
            final(self).wf(),
            final(self).state() == spec_update_resources(
                old(self).state(),
                updates@.map_values(|u: ResourceUpdate| u@),
            ),
            properties::in_order(old(self).state().torrents) && properties::keep_names(
                old(self).state(),
                updates@.map_values(|u: ResourceUpdate| u@),
            ) ==> properties::in_order(final(self).state().torrents),
            final(self).filter() == old(self).filter(),
            final(self).own_requests() == old(self).own_requests(),
    {
        let ghost v0 = self.state();
        let ghost us = updates@.map_values(|u: ResourceUpdate| u@);
        let mut updates = updates;
        let total = updates.len();
        let mut rc = false;
        let mut i: usize = 0;
        while updates.len() > 0
            invariant
                self.wf(),
                i + updates@.len() == us.len(),
                us.len() <= usize::MAX,
                updates@.map_values(|u: ResourceUpdate| u@) == us.skip(i as int),
                forall|j: int| 0 <= j < updates@.len() ==> update_bounded(#[trigger] updates@[j]@),
                (self.state(), rc) == updates_applied(v0, us.take(i as int)),
                self.filter() == old(self).filter(),
                self.own_requests() == old(self).own_requests(),
                properties::in_order(v0.torrents) && properties::keep_names(v0, us.take(i as int))
                    ==> properties::in_order(self.state().torrents),
            decreases updates.len(),
        {
            proof {
                assert(us.take(i + 1).drop_last() =~= us.take(i as int));
                assert(us.skip(i as int)[0] == us[i as int]);
                assert(updates@[0]@ == us[i as int]);
                assert(update_bounded(updates@[0]@));
            }
            let ghost pre = updates@;
            let u = updates.remove(0);
            proof {
                assert(updates@ =~= pre.subrange(1, pre.len() as int));
                assert(pre.map_values(|u: ResourceUpdate| u@) == us.skip(i as int));
                assert(updates@.map_values(|u: ResourceUpdate| u@) =~= pre.map_values(|u: ResourceUpdate| u@).subrange(1, pre.len() as int));
                assert(updates@.map_values(|u: ResourceUpdate| u@) =~= us.skip(i + 1));
                assert forall|j: int| 0 <= j < updates@.len() implies update_bounded(#[trigger] updates@[j]@) by {
                    assert(updates@[j] == pre[j + 1]);
                }
            }
            let ghost mid = self.state();
            let ghost rc0 = rc;
            let ghost uv = u@;
            rc = self.apply_update(u, rc);
            proof {
                if properties::in_order(v0.torrents) && properties::keep_names(v0, us.take(i + 1)) {
                    assert(properties::keep_names(v0, us.take(i as int)));
                    assert(us.take(i + 1).last() == uv);
                    properties::lemma_update_in_order(mid, uv, rc0);
                }
            }
            i = i + 1;
        }
        proof {
            assert(us.take(i as int) =~= us);
        }
        if rc {
            let h = self.last_height;
            self.recompute_torrent_bounds(h);
        }
        true
    }
}

} // verus!
