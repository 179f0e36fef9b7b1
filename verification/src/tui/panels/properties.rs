//! What key presses in the main panel undo of each other. `Main::input` makes the panel's
//! state what `spec_input` says, so these hold of the panel itself.
use vstd::prelude::*;

use super::{
    find_detail, rebound, removal, sat, spec_input, spec_remove, tab_removal, Focus, MainView,
    Outcome, TorrentView, insert_pos, natural_order, sort_key, spec_update, UpdateView,
    torrent_index, updates_applied, spec_update_resources, error_lines, host_line,
    other_errors, TrackerGroupView, TrackerRefView,
};
use super::drawing::{highlighted, other_error_for, tracker_row};
use crate::utils::color::{bg_seq, fg_seq};
use crate::tui::Key;

verus! {

/// The rows of the list of torrents in a panel `height` rows high.
pub open spec fn list_rows(v: MainView, height: u16) -> int {
    let th = sat(height as int, 2);
    if v.details.len() == 0 {
        sat(th, 2)
    } else {
        sat(th, 7)
    }
}

/// Toggling the tracker list (`t`) twice leaves the panel as it was, but for its column
/// widths, which are measured again over the rows shown.
pub proof fn lemma_trackers_toggle_twice(v: MainView, height: u16)
    requires
        v.focus == Focus::Torrents || v.focus == Focus::Details,
    ensures
        spec_input(spec_input(v, Key::Char('t'), height).0, Key::Char('t'), height).0 == rebound(
            v,
            sat(list_rows(v, height), 5),
        ),
        spec_input(v, Key::Char('t'), height).1 is Rerender,
{
}

/// Moving down (`j`) and back up (`k`) in the torrent list selects the torrent selected
/// before, where there was one below it.
pub proof fn lemma_down_then_up(v: MainView, height: u16)
    requires
        v.focus == Focus::Torrents,
        0 <= v.sel,
        v.sel + 1 < v.torrents.len(),
    ensures
        spec_input(spec_input(v, Key::Char('j'), height).0, Key::Char('k'), height).0.sel
            == v.sel,
        spec_input(spec_input(v, Key::Char('j'), height).0, Key::Char('k'), height).0.torrents
            == v.torrents,
{
}

/// A page down and a page up (`<PgDown>`, `<PgUp>`) select the torrent selected before,
/// where the page down stays short of the end of the list: each scrolls by the height of the
/// list, the panel's height less its two-row footer.
pub proof fn lemma_page_down_then_up(v: MainView, height: u16)
    requires
        v.focus == Focus::Torrents,
        0 <= v.lower <= v.sel,
        v.sel + sat(height as int, 2) < v.torrents.len(),
    ensures
        spec_input(v, Key::PageDown, height).0.sel == v.sel + sat(height as int, 2),
        spec_input(spec_input(v, Key::PageDown, height).0, Key::PageUp, height).0.sel == v.sel,
{
}

/// Opening the details of the selected torrent (`d`) where it has no tab yet, and closing the
/// tab (`q`), leaves the tabs as they were.
pub proof fn lemma_details_open_then_close(v: MainView, height: u16)
    requires
        v.focus == Focus::Torrents,
        0 <= v.sel < v.torrents.len(),
        find_detail(v.details, v.torrents[v.sel].id) < 0,
    ensures
        spec_input(v, Key::Char('d'), height).0.details == v.details.push(v.torrents[v.sel]),
        spec_input(v, Key::Char('d'), height).0.focus == Focus::Details,
        spec_input(spec_input(v, Key::Char('d'), height).0, Key::Char('q'), height).0.details
            == v.details,
{
    let v1 = spec_input(v, Key::Char('d'), height).0;
    assert(v1.details.remove(v1.detail_idx) =~= v.details);
}

/// Focusing the filter (`f`) and leaving it (`<ESC>`) gives the focus back to the torrent
/// list and leaves the filter line shown.
pub proof fn lemma_filter_focus_then_leave(v: MainView, height: u16)
    requires
        v.focus == Focus::Torrents,
    ensures
        spec_input(v, Key::Char('f'), height).0.focus == Focus::Filter,
        spec_input(spec_input(v, Key::Char('f'), height).0, Key::Esc, height).0 == (MainView {
            filter_disp: true,
            ..v
        }),
{
}

/// The torrents that `removal` keeps: those whose ids are not removed, in order.
proof fn lemma_removal_kept(ts: Seq<TorrentView>, ids: Seq<Seq<char>>, sel: int, lower: int, h: int)
    ensures
        forall|i: int|
            0 <= i < removal(ts, ids, sel, lower, h).0.len() ==> !ids.contains(
                #[trigger] removal(ts, ids, sel, lower, h).0[i].id,
            ),
        forall|i: int|
            0 <= i < ts.len() && !ids.contains(#[trigger] ts[i].id) ==> removal(
                ts,
                ids,
                sel,
                lower,
                h,
            ).0.contains(ts[i]),
    decreases ts.len(),
{
    if ts.len() > 0 {
        let rest = ts.drop_last();
        lemma_removal_kept(rest, ids, sel, lower, h);
        let kept = removal(rest, ids, sel, lower, h).0;
        let all = removal(ts, ids, sel, lower, h).0;
        assert forall|i: int| 0 <= i < ts.len() && !ids.contains(#[trigger] ts[i].id) implies all.contains(
            ts[i],
        ) by {
            if i < ts.len() - 1 {
                assert(rest[i] == ts[i]);
                let j = choose|j: int| 0 <= j < kept.len() && kept[j] == rest[i];
                assert(all[j] == ts[i]);
            } else {
                assert(all[all.len() - 1] == ts[i]);
            }
        }
        assert forall|i: int| 0 <= i < all.len() implies !ids.contains(#[trigger] all[i].id) by {
            if i < kept.len() {
                assert(all[i] == kept[i]);
            }
        }
    }
}

/// The tabs that `tab_removal` keeps: those whose torrents are not removed.
proof fn lemma_tab_removal_kept(ds: Seq<TorrentView>, ids: Seq<Seq<char>>, sel: int)
    ensures
        forall|i: int|
            0 <= i < tab_removal(ds, ids, sel).0.len() ==> !ids.contains(
                #[trigger] tab_removal(ds, ids, sel).0[i].id,
            ),
    decreases ds.len(),
{
    if ds.len() > 0 {
        lemma_tab_removal_kept(ds.drop_last(), ids, sel);
        let kept = tab_removal(ds.drop_last(), ids, sel).0;
        let all = tab_removal(ds, ids, sel).0;
        assert forall|i: int| 0 <= i < all.len() implies !ids.contains(#[trigger] all[i].id) by {
            if i < kept.len() {
                assert(all[i] == kept[i]);
            }
        }
    }
}

/// Once the server reports resources removed, no torrent and no detail tab of one of them is
/// left, and every other torrent still is in the list.
pub proof fn lemma_removed_are_gone(v: MainView, ids: Seq<Seq<char>>)
    ensures
        forall|i: int|
            0 <= i < spec_remove(v, ids).torrents.len() ==> !ids.contains(
                #[trigger] spec_remove(v, ids).torrents[i].id,
            ),
        forall|i: int|
            0 <= i < spec_remove(v, ids).details.len() ==> !ids.contains(
                #[trigger] spec_remove(v, ids).details[i].id,
            ),
        forall|i: int|
            0 <= i < v.torrents.len() && !ids.contains(#[trigger] v.torrents[i].id) ==> spec_remove(
                v,
                ids,
            ).torrents.contains(v.torrents[i]),
{
    lemma_removal_kept(v.torrents, ids, v.sel, v.lower, v.last_height as int);
    lemma_tab_removal_kept(v.details, ids, v.detail_idx);
}

/// Where a torrent goes in the list: after every torrent whose name comes before its own, and
/// before the first one whose name does not.
pub proof fn lemma_insert_pos_place(ts: Seq<TorrentView>, key: Seq<char>)
    ensures
        0 <= insert_pos(ts, key) <= ts.len(),
        forall|j: int|
            0 <= j < insert_pos(ts, key) ==> natural_order(sort_key(#[trigger] ts[j]), key) == -1,
        insert_pos(ts, key) < ts.len() ==> natural_order(sort_key(ts[insert_pos(ts, key)]), key)
            != -1,
    decreases ts.len(),
{
    if ts.len() > 0 {
        let rest = ts.drop_last();
        lemma_insert_pos_place(rest, key);
        assert forall|j: int| 0 <= j < insert_pos(ts, key) implies natural_order(
            sort_key(#[trigger] ts[j]),
            key,
        ) == -1 by {
            if j < rest.len() {
                assert(ts[j] == rest[j]);
            }
        }
        if insert_pos(rest, key) < rest.len() {
            assert(ts[insert_pos(rest, key)] == rest[insert_pos(rest, key)]);
        }
    }
}

/// A torrent that the server reports joins the list at its place by name, and every torrent
/// listed before stays listed.
pub proof fn lemma_new_torrent_listed(v: MainView, t: TorrentView, rc: bool)
    ensures
        spec_update(v, UpdateView::Torrent(t), rc).0.torrents.contains(t),
        spec_update(v, UpdateView::Torrent(t), rc).0.torrents.len() == v.torrents.len() + 1,
        forall|i: int|
            0 <= i < v.torrents.len() ==> spec_update(v, UpdateView::Torrent(t), rc).0.torrents.contains(
                #[trigger] v.torrents[i],
            ),
{
    let p = insert_pos(v.torrents, sort_key(t));
    lemma_insert_pos_place(v.torrents, sort_key(t));
    let ts = v.torrents.insert(p, t);
    assert(ts[p] == t);
    assert forall|i: int| 0 <= i < v.torrents.len() implies ts.contains(#[trigger] v.torrents[i]) by {
        if i < p {
            assert(ts[i] == v.torrents[i]);
        } else {
            assert(ts[i + 1] == v.torrents[i]);
        }
    }
}

/// Whether the torrent at `i` in `ts` does not come after the next one by natural order of
/// their names.
pub open spec fn in_order_at(ts: Seq<TorrentView>, i: int) -> bool {
    natural_order(sort_key(ts[i]), sort_key(ts[i + 1])) != 1
}

/// Whether the torrents `ts` are in natural order of their names: none comes after the next.
pub open spec fn in_order(ts: Seq<TorrentView>) -> bool {
    forall|i: int| 0 <= i && i + 1 < ts.len() ==> #[trigger] in_order_at(ts, i)
}

/// Whether the torrent `t` does not come after the one it is inserted before in `ts`.
pub open spec fn fits_before_next(ts: Seq<TorrentView>, t: TorrentView) -> bool {
    insert_pos(ts, sort_key(t)) < ts.len() ==> natural_order(
        sort_key(t),
        sort_key(ts[insert_pos(ts, sort_key(t))]),
    ) != 1
}

/// The ids of the torrents `ts`, in order.
pub open spec fn ids(ts: Seq<TorrentView>) -> Seq<Seq<char>> {
    ts.map_values(|t: TorrentView| t.id)
}

/// The torrents that the updates `us` add, in order.
pub open spec fn added(us: Seq<UpdateView>) -> Seq<TorrentView>
    decreases us.len(),
{
    if us.len() == 0 {
        Seq::empty()
    } else {
        match us.last() {
            UpdateView::Torrent(t) => added(us.drop_last()).push(t),
            _ => added(us.drop_last()),
        }
    }
}

/// Whether the update `u` to the panel `v` keeps the name of any listed torrent it changes.
pub open spec fn keeps_name(v: MainView, u: UpdateView) -> bool {
    u matches UpdateView::TorrentChanged(t) ==> (torrent_index(v.torrents, t.id) >= 0 ==> sort_key(
        v.torrents[torrent_index(v.torrents, t.id)],
    ) == sort_key(t))
}

/// Whether each of the updates `us` keeps the names of the torrents it changes, in the panel
/// as the updates before it leave it.
pub open spec fn keep_names(v: MainView, us: Seq<UpdateView>) -> bool
    decreases us.len(),
{
    if us.len() == 0 {
        true
    } else {
        keep_names(v, us.drop_last()) && keeps_name(updates_applied(v, us.drop_last()).0, us.last())
    }
}

proof fn lemma_torrent_index_in(ts: Seq<TorrentView>, id: Seq<char>)
    ensures
        torrent_index(ts, id) >= 0 ==> torrent_index(ts, id) < ts.len() && ts[torrent_index(
            ts,
            id,
        )].id == id,
        torrent_index(ts, id) >= -1,
    decreases ts.len(),
{
    if ts.len() > 0 {
        lemma_torrent_index_in(ts.drop_last(), id);
        let p = torrent_index(ts.drop_last(), id);
        if p >= 0 {
            assert(ts[p] == ts.drop_last()[p]);
        }
    }
}

/// One update keeps the list in name order, where a torrent it adds does not come after the
/// one it goes before and a change keeps the name.
pub proof fn lemma_update_in_order(v: MainView, u: UpdateView, rc: bool)
    requires
        in_order(v.torrents),
        keeps_name(v, u),
        u matches UpdateView::Torrent(t) ==> fits_before_next(v.torrents, t),
    ensures
        in_order(spec_update(v, u, rc).0.torrents),
{
    let ts = v.torrents;
    match u {
        UpdateView::Torrent(t) => {
            let key = sort_key(t);
            let p = insert_pos(ts, key);
            lemma_insert_pos_place(ts, key);
            let nt = ts.insert(p, t);
            assert forall|i: int| 0 <= i && i + 1 < nt.len() implies #[trigger] in_order_at(nt, i) by {
                if i + 1 < p {
                    assert(nt[i] == ts[i] && nt[i + 1] == ts[i + 1]);
                    assert(in_order_at(ts, i));
                } else if i + 1 == p {
                    assert(nt[i] == ts[i] && nt[i + 1] == t);
                } else if i == p {
                    assert(nt[i] == t && nt[i + 1] == ts[p]);
                } else {
                    assert(nt[i] == ts[i - 1] && nt[i + 1] == ts[i]);
                    assert(in_order_at(ts, i - 1));
                }
            }
        },
        UpdateView::TorrentChanged(t) => {
            lemma_torrent_index_in(ts, t.id);
            let k = torrent_index(ts, t.id);
            if k >= 0 {
                let nt = ts.update(k, t);
                assert forall|i: int| 0 <= i && i + 1 < nt.len() implies #[trigger] in_order_at(nt, i) by {
                    assert(sort_key(nt[i]) == sort_key(ts[i]));
                    assert(sort_key(nt[i + 1]) == sort_key(ts[i + 1]));
                    assert(in_order_at(ts, i));
                }
            }
        },
        _ => {},
    }
}

/// One update keeps the ids listed, and adds that of a torrent it adds.
proof fn lemma_update_ids(v: MainView, u: UpdateView, rc: bool)
    ensures
        ids(spec_update(v, u, rc).0.torrents).to_multiset() == (match u {
            UpdateView::Torrent(t) => ids(v.torrents).to_multiset().insert(t.id),
            _ => ids(v.torrents).to_multiset(),
        }),
{
    let ts = v.torrents;
    match u {
        UpdateView::Torrent(t) => {
            let p = insert_pos(ts, sort_key(t));
            lemma_insert_pos_place(ts, sort_key(t));
            assert(ids(ts.insert(p, t)) =~= ids(ts).insert(p, t.id));
            vstd::seq_lib::to_multiset_insert(ids(ts), p, t.id);
        },
        UpdateView::TorrentChanged(t) => {
            lemma_torrent_index_in(ts, t.id);
            let k = torrent_index(ts, t.id);
            if k >= 0 {
                assert(ids(ts.update(k, t)) =~= ids(ts));
            }
        },
        _ => {},
    }
}

proof fn lemma_updates_ids(v: MainView, us: Seq<UpdateView>)
    ensures
        ids(updates_applied(v, us).0.torrents).to_multiset() == ids(v.torrents).to_multiset().add(
            ids(added(us)).to_multiset(),
        ),
    decreases us.len(),
{
    broadcast use vstd::seq_lib::group_to_multiset_ensures;
    broadcast use vstd::multiset::group_multiset_axioms;
    if us.len() == 0 {
        assert(ids(added(us)) =~= Seq::<Seq<char>>::empty());
        assert(ids(v.torrents).to_multiset().add(ids(added(us)).to_multiset()) =~= ids(
            v.torrents,
        ).to_multiset());
    } else {
        let rest = us.drop_last();
        lemma_updates_ids(v, rest);
        let (v1, rc) = updates_applied(v, rest);
        lemma_update_ids(v1, us.last(), rc);
        match us.last() {
            UpdateView::Torrent(t) => {
                assert(ids(added(us)) =~= ids(added(rest)).push(t.id));
                assert(ids(v.torrents).to_multiset().add(ids(added(rest)).to_multiset()).insert(
                    t.id,
                ) =~= ids(v.torrents).to_multiset().add(ids(added(us)).to_multiset()));
            },
            _ => {
                assert(added(us) == added(rest));
            },
        }
    }
}

/// Updating the resources keeps every torrent listed and adds those reported: the ids listed
/// afterwards are those listed before and those of the torrents added, each as often.
pub proof fn lemma_update_keeps_ids(v: MainView, us: Seq<UpdateView>)
    ensures
        ids(spec_update_resources(v, us).torrents).to_multiset() == ids(v.torrents).to_multiset().add(
            ids(added(us)).to_multiset(),
        ),
{
    lemma_updates_ids(v, us);
}

/// On the detail tabs, `<Right>` or `l` selects the next tab where there is one, and `<Left>`
/// or `h` the one before where there is one; nothing else changes.
pub proof fn lemma_tab_moves(v: MainView, k: Key, height: u16)
    requires
        v.focus == Focus::Details,
        0 <= v.detail_idx < v.details.len(),
    ensures
        (k == Key::Right || k == Key::Char('l')) && v.detail_idx + 1 < v.details.len() ==> spec_input(
            v,
            k,
            height,
        ) == (MainView { detail_idx: v.detail_idx + 1, ..v }, Outcome::Rerender),
        (k == Key::Left || k == Key::Char('h')) && v.detail_idx > 0 ==> spec_input(v, k, height) == (
        MainView { detail_idx: v.detail_idx - 1, ..v }, Outcome::Rerender),
{
}

/// Moving to the next tab and back (`l`, then `h`) selects the tab selected before.
pub proof fn lemma_next_tab_and_back(v: MainView, height: u16)
    requires
        v.focus == Focus::Details,
        0 <= v.detail_idx,
        v.detail_idx + 1 < v.details.len(),
    ensures
        spec_input(spec_input(v, Key::Char('l'), height).0, Key::Char('h'), height).0 == v,
{
    lemma_tab_moves(v, Key::Char('l'), height);
    let w = spec_input(v, Key::Char('l'), height).0;
    lemma_tab_moves(w, Key::Char('h'), height);
    assert(spec_input(w, Key::Char('h'), height).0 =~= v);
}

/// An error that an entry `o` of `others` reports for torrent `id` is among the entries'
/// errors for it.
proof fn lemma_other_errors_has(others: Seq<TrackerRefView>, id: Seq<char>, j: int)
    requires
        0 <= j < others.len(),
        others[j].torrent_id == id,
        others[j].error is Some,
    ensures
        other_errors(others, id).contains(others[j].error->0),
    decreases others.len(),
{
    let rest = others.drop_last();
    if j < others.len() - 1 {
        assert(rest[j] == others[j]);
        lemma_other_errors_has(rest, id, j);
        let r = other_errors(rest, id);
        let k = choose|k: int| 0 <= k < r.len() && r[k] == others[j].error->0;
        if others.last().torrent_id == id && others.last().error is Some {
            assert(r.push(others.last().error->0)[k] == r[k]);
        }
    } else {
        assert(others.last() == others[j]);
        let r = other_errors(rest, id);
        assert(r.push(others[j].error->0)[r.len() as int] == others[j].error->0);
    }
}

/// What a tracker group that the torrent uses reports for it shows in the torrent's error
/// list: the group's own error for the torrent as a line `host: error`, and each error that
/// one of the group's other entries reports for the torrent, as that line or indented.
proof fn lemma_group_errors_shown(g: TrackerGroupView, t: TorrentView)
    requires
        t.tracker_urls.contains(g.base.host),
    ensures
        g.base.error is Some && g.base.torrent_id == t.id ==> super::group_lines(g, t).contains(
            host_line(g.base.host, g.base.error->0),
        ),
        forall|j: int|
            0 <= j < g.others.len() && (#[trigger] g.others[j]).torrent_id == t.id
                && g.others[j].error is Some ==> super::group_lines(g, t).contains(
                host_line(g.base.host, g.others[j].error->0),
            ) || super::group_lines(g, t).contains(seq![' '] + g.others[j].error->0),
{
    let errs = other_errors(g.others, t.id);
    let lines = super::group_lines(g, t);
    if g.base.error is Some && g.base.torrent_id == t.id {
        assert(lines[0] == host_line(g.base.host, g.base.error->0));
    }
    assert forall|j: int|
        0 <= j < g.others.len() && (#[trigger] g.others[j]).torrent_id == t.id
            && g.others[j].error is Some implies lines.contains(
            host_line(g.base.host, g.others[j].error->0),
        ) || lines.contains(seq![' '] + g.others[j].error->0) by {
        let e = g.others[j].error->0;
        lemma_other_errors_has(g.others, t.id, j);
        let k = choose|k: int| 0 <= k < errs.len() && errs[k] == e;
        if g.base.error is Some && g.base.torrent_id == t.id {
            assert(lines[k + 1] == seq![' '] + e);
        } else if k == 0 {
            assert(lines[0] == host_line(g.base.host, e));
        } else {
            assert(lines[k] == seq![' '] + errs.skip(1)[k - 1]);
        }
    }
}

/// The lines of an error list before the last groups stay in it.
proof fn lemma_error_lines_grow(t: TorrentView, groups: Seq<TrackerGroupView>, n: int, x: Seq<char>)
    requires
        0 <= n <= groups.len(),
        error_lines(t, groups.take(n)).contains(x),
    ensures
        error_lines(t, groups).contains(x),
    decreases groups.len(),
{
    if n == groups.len() {
        assert(groups.take(n) =~= groups);
    } else {
        assert(groups.drop_last().take(n) =~= groups.take(n));
        lemma_error_lines_grow(t, groups.drop_last(), n, x);
        let a = error_lines(t, groups.drop_last());
        let i = choose|i: int| 0 <= i < a.len() && a[i] == x;
        assert((a + super::group_lines(groups.last(), t))[i] == x);
    }
}

/// The error list of a torrent (`e`) shows every error that its trackers report for it: for
/// each tracker group whose host the torrent uses, the group's own error for the torrent as
/// `host: error`, and each error that another entry of the group reports for the torrent, as
/// that line or indented by a blank.
pub proof fn lemma_errors_listed(t: TorrentView, groups: Seq<TrackerGroupView>, gi: int)
    requires
        0 <= gi < groups.len(),
        t.tracker_urls.contains(groups[gi].base.host),
    ensures
        groups[gi].base.error is Some && groups[gi].base.torrent_id == t.id ==> error_lines(
            t,
            groups,
        ).contains(host_line(groups[gi].base.host, groups[gi].base.error->0)),
        forall|j: int|
            0 <= j < groups[gi].others.len() && (#[trigger] groups[gi].others[j]).torrent_id
                == t.id && groups[gi].others[j].error is Some ==> error_lines(t, groups).contains(
                host_line(groups[gi].base.host, groups[gi].others[j].error->0),
            ) || error_lines(t, groups).contains(seq![' '] + groups[gi].others[j].error->0),
{
    let g = groups[gi];
    lemma_group_errors_shown(g, t);
    let pre = groups.take(gi + 1);
    assert(pre.drop_last() =~= groups.take(gi));
    assert(pre.last() == g);
    let a = error_lines(t, groups.take(gi));
    let gl = super::group_lines(g, t);
    assert(error_lines(t, pre) == a + gl);
    assert forall|x: Seq<char>| gl.contains(x) implies error_lines(t, groups).contains(x) by {
        let i = choose|i: int| 0 <= i < gl.len() && gl[i] == x;
        assert((a + gl)[a.len() + i] == x);
        lemma_error_lines_grow(t, groups, gi + 1, x);
    }
}

/// Where a torrent id first appears in `ts`, and that it appears nowhere before.
proof fn lemma_torrent_index_first(ts: Seq<TorrentView>, id: Seq<char>, i: int)
    requires
        0 <= i < ts.len(),
        ts[i].id == id,
        forall|j: int| 0 <= j < i ==> (#[trigger] ts[j]).id != id,
    ensures
        torrent_index(ts, id) == i,
    decreases ts.len(),
{
    if i < ts.len() - 1 {
        let r = ts.drop_last();
        assert forall|j: int| 0 <= j < i implies (#[trigger] r[j]).id != id by {
            assert(r[j] == ts[j]);
        }
        assert(r[i] == ts[i]);
        lemma_torrent_index_first(r, id, i);
    } else {
        lemma_torrent_index_none(ts.drop_last(), id);
    }
}

/// An id that appears nowhere in `ts` has no index.
proof fn lemma_torrent_index_none(ts: Seq<TorrentView>, id: Seq<char>)
    requires
        forall|j: int| 0 <= j < ts.len() ==> (#[trigger] ts[j]).id != id,
    ensures
        torrent_index(ts, id) == -1,
    decreases ts.len(),
{
    if ts.len() > 0 {
        let r = ts.drop_last();
        assert forall|j: int| 0 <= j < r.len() implies (#[trigger] r[j]).id != id by {
            assert(r[j] == ts[j]);
        }
        lemma_torrent_index_none(r, id);
        assert(ts.last() == ts[ts.len() - 1]);
    }
}

/// A change that the server reports of torrent `t` reaches both the list and the open detail
/// tabs: the first tab and the first list entry with its id hold the changed torrent, and
/// every tab and entry of another torrent stays as it was.
pub proof fn lemma_change_reaches_tabs(v: MainView, t: TorrentView, rc: bool)
    ensures
        spec_update(v, UpdateView::TorrentChanged(t), rc).0.details.len() == v.details.len(),
        spec_update(v, UpdateView::TorrentChanged(t), rc).0.torrents.len() == v.torrents.len(),
        forall|i: int|
            0 <= i < v.details.len() && (#[trigger] v.details[i]).id == t.id && (forall|j: int|
                0 <= j < i ==> v.details[j].id != t.id) ==> spec_update(
                v,
                UpdateView::TorrentChanged(t),
                rc,
            ).0.details[i] == t,
        forall|i: int|
            0 <= i < v.details.len() && (#[trigger] v.details[i]).id != t.id ==> spec_update(
                v,
                UpdateView::TorrentChanged(t),
                rc,
            ).0.details[i] == v.details[i],
        forall|i: int|
            0 <= i < v.torrents.len() && (#[trigger] v.torrents[i]).id == t.id && (forall|j: int|
                0 <= j < i ==> v.torrents[j].id != t.id) ==> spec_update(
                v,
                UpdateView::TorrentChanged(t),
                rc,
            ).0.torrents[i] == t,
        forall|i: int|
            0 <= i < v.torrents.len() && (#[trigger] v.torrents[i]).id != t.id ==> spec_update(
                v,
                UpdateView::TorrentChanged(t),
                rc,
            ).0.torrents[i] == v.torrents[i],
{
    let nv = spec_update(v, UpdateView::TorrentChanged(t), rc).0;
    lemma_torrent_index_in(v.details, t.id);
    lemma_torrent_index_in(v.torrents, t.id);
    assert forall|i: int|
        0 <= i < v.details.len() && (#[trigger] v.details[i]).id == t.id && (forall|j: int|
            0 <= j < i ==> v.details[j].id != t.id) implies nv.details[i] == t by {
        lemma_torrent_index_first(v.details, t.id, i);
    }
    assert forall|i: int|
        0 <= i < v.torrents.len() && (#[trigger] v.torrents[i]).id == t.id && (forall|j: int|
            0 <= j < i ==> v.torrents[j].id != t.id) implies nv.torrents[i] == t by {
        lemma_torrent_index_first(v.torrents, t.id, i);
    }
}

/// A tracker row is shown in the error colour (red, or cyan on red) wherever its group
/// reports an error for the highlighted torrent, through its own entry or another one.
pub proof fn lemma_tracker_error_red(v: MainView, g: int)
    requires
        0 <= g < v.trackers.len(),
        highlighted(v) is Some,
        (v.trackers[g].base.error is Some && v.trackers[g].base.torrent_id == highlighted(v)->0.id)
            || other_error_for(v.trackers[g].others, highlighted(v)->0.id),
    ensures
        tracker_row(v, g).take(fg_seq(seq!['1']).len() as int) == fg_seq(seq!['1'])
            || tracker_row(v, g).take((fg_seq(seq!['6']) + bg_seq(seq!['1'])).len() as int) == fg_seq(
            seq!['6'],
        ) + bg_seq(seq!['1']),
{
    let row = tracker_row(v, g);
    let red = fg_seq(seq!['1']);
    let both = fg_seq(seq!['6']) + bg_seq(seq!['1']);
    let t = highlighted(v)->0;
    let grp = v.trackers[g];
    let rest = crate::utils::term::decimal((grp.others.len() + 1) as nat) + seq![' '] + grp.base.host;
    if t.tracker_urls.contains(grp.base.host) {
        assert(row.take(both.len() as int) =~= both);
    } else {
        assert(row.take(red.len() as int) =~= red);
    }
}

} // verus!
