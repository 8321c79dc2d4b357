//! Decisions of the desktop window: where newly found icons go, how a box
//! lays out its icons, which box an icon was dropped on, when a click on
//! the blank desktop organizes, and the identifiers of new boxes.
//! The window itself (widgets, events, animation) is the program around
//! this library.
use vstd::prelude::*;
use vstd::relations::{sorted_by, total_ordering};
use crate::domain::config::{BoxState, IconState};
use crate::domain::layout::{abs_int, cell, cell_of, div_trunc, fits, icon_total_of, max_int, row_height_of, trunc_div, DESKTOP_MARGIN_X, DESKTOP_MARGIN_Y, ICON_ROW_H};
use crate::domain::organize::{clone_strings, strings_view};
use crate::paths::{last_segment, last_segment_of};
use crate::ui::desktop_icon::{short_name, short_name_of};
use crate::text::{lemma_seq_lt_irreflexive, lemma_seq_lt_total, lemma_seq_lt_transitive, seq_lt, seq_starts_with, starts_with, str_eq, str_less, u64_to_decimal, decimal_digits};

verus! {

/// Padding inside a box.
pub const BOX_PADDING: i32 = 8;

/// Height of a box's title bar.
pub const BOX_TITLE_H: i32 = 34;

/// Smallest box width.
pub const BOX_MIN_W: i32 = 96;

/// Smallest box height.
pub const BOX_MIN_H: i32 = 96;

/// Distance under which a dragged icon snaps to the grid.
pub const SNAP: i32 = 6;

/// Longest delay between the two clicks of a double click, in milliseconds.
pub const DOUBLE_CLICK_MS: u64 = 320;

/// A desktop entry as plain values: its path and whether it is a directory.
pub type EntryView = (Seq<char>, bool);

/// The entries as plain values.
pub open spec fn entries_view(v: Seq<(String, bool)>) -> Seq<EntryView> {
    v.map_values(|e: (String, bool)| (e.0@, e.1))
}

/// Scan order: directories first, then by path in code point order.
pub open spec fn entry_leq(a: EntryView, b: EntryView) -> bool {
    (a.1 && !b.1) || (a.1 == b.1 && !seq_lt(b.0, a.0))
}

/// Scan order, strictly.
pub open spec fn entry_lt(a: EntryView, b: EntryView) -> bool {
    (a.1 && !b.1) || (a.1 == b.1 && seq_lt(a.0, b.0))
}

/// The scan order is a total order.
pub proof fn lemma_entry_order_total()
    ensures
        total_ordering(|a: EntryView, b: EntryView| entry_leq(a, b)),
{
    let leq = |a: EntryView, b: EntryView| entry_leq(a, b);
    assert forall|a: EntryView| #[trigger] leq(a, a) by {
        lemma_seq_lt_irreflexive(a.0);
    }
    assert forall|a: EntryView, b: EntryView| #[trigger] leq(a, b) && #[trigger] leq(b, a) implies a == b by {
        lemma_seq_lt_total(a.0, b.0);
    }
    assert forall|a: EntryView, b: EntryView, c: EntryView|
        #[trigger] leq(a, b) && #[trigger] leq(b, c) implies leq(a, c) by {
        lemma_seq_lt_total(a.0, b.0);
        lemma_seq_lt_total(b.0, c.0);
        lemma_seq_lt_total(a.0, c.0);
        if a.1 == b.1 && b.1 == c.1 && seq_lt(c.0, a.0) {
            if a.0 != b.0 && b.0 != c.0 {
                lemma_seq_lt_transitive(a.0, b.0, c.0);
            }
        }
    }
    assert forall|a: EntryView, b: EntryView| #[trigger] leq(a, b) || #[trigger] leq(b, a) by {
        lemma_seq_lt_total(a.0, b.0);
    }
}

/// A hidden entry: its name starts with a dot.
pub open spec fn is_hidden_path(p: Seq<char>) -> bool {
    seq_starts_with(last_segment(p), "."@)
}

/// The first `n` entries that are neither hidden nor already known, in order.
pub open spec fn scan_candidates(entries: Seq<EntryView>, known: Seq<Seq<char>>, n: int) -> Seq<EntryView>
    decreases n,
{
    if n <= 0 {
        seq![]
    } else {
        let prev = scan_candidates(entries, known, n - 1);
        let e = entries[n - 1];
        if !is_hidden_path(e.0) && !known.contains(e.0) {
            prev.push(e)
        } else {
            prev
        }
    }
}

/// Icons per desktop row when scanning: the desktop width less 80 pixels
/// of margins, in cells, never below one.
pub open spec fn scan_max_per_row_of(desktop_w: int, icon_size: int, gap: int) -> int {
    max_int(trunc_div(desktop_w - 80, cell_of(icon_size, gap)), 1)
}

/// Desktop position of the `k`-th new icon: row-major on the grid.
pub open spec fn scan_pos(k: int, mpr: int, icon_size: int, gap: int) -> (int, int) {
    (DESKTOP_MARGIN_X + (k % mpr) * cell_of(icon_size, gap), DESKTOP_MARGIN_Y + (k / mpr) * row_height_of(icon_size))
}

/// Requirements of `place_new_icons`: the grid computation and every
/// position stay inside `i32`.
pub open spec fn scan_fits(count: int, desktop_w: int, icon_size: int, gap: int) -> bool {
    let mpr = scan_max_per_row_of(desktop_w, icon_size, gap);
    &&& fits(desktop_w - 80)
    &&& fits(icon_total_of(icon_size))
    &&& fits(cell_of(icon_size, gap))
    &&& fits(row_height_of(icon_size))
    &&& cell_of(icon_size, gap) != 0
    &&& fits(trunc_div(desktop_w - 80, cell_of(icon_size, gap)))
    &&& forall|k: int|
        0 <= k < count ==> fits((k % mpr) * cell_of(icon_size, gap)) && fits(
            #[trigger] scan_pos(k, mpr, icon_size, gap).0,
        ) && fits((k / mpr) * row_height_of(icon_size)) && fits(scan_pos(k, mpr, icon_size, gap).1)
}

/// An icon state as plain values.
pub open spec fn icon_view(i: IconState) -> (Seq<char>, int, int) {
    (i.path@, i.x as int, i.y as int)
}

/// The scan order of entries.
pub open spec fn scan_order(cands: Seq<EntryView>) -> Seq<EntryView> {
    cands.sort_by(|a: EntryView, b: EntryView| entry_leq(a, b))
}

/// Whether entry `a` goes strictly before `b` in scan order.
fn entry_less(a: &(String, bool), b: &(String, bool)) -> (r: bool)
    ensures
        r == entry_lt((a.0@, a.1), (b.0@, b.1)),
{
    (a.1 && !b.1) || (a.1 == b.1 && str_less(a.0.as_str(), b.0.as_str()))
}

/// Whether `p` is one of `known`.
pub fn path_known(p: &str, known: &[String]) -> (r: bool)
    ensures
        r == known@.map_values(|s: String| s@).contains(p@),
{
    let ghost kv = known@.map_values(|s: String| s@);
    let mut i: usize = 0;
    while i < known.len()
        invariant
            kv == known@.map_values(|s: String| s@),
            i <= known@.len(),
            forall|j: int| 0 <= j < i ==> kv[j] != p@,
        decreases known.len() - i,
    {
        if str_eq(known[i].as_str(), p) {
            assert(kv[i as int] == p@);
            return true;
        }
        i += 1;
    }
    false
}

/// Whether the path's name starts with a dot.
pub fn is_hidden(p: &str) -> (r: bool)
    ensures
        r == is_hidden_path(p@),
{
    let name = last_segment_of(p);
    starts_with(name.as_str(), ".")
}

/// The entries that are neither hidden nor already known, in order.
fn new_entries(entries: &[(String, bool)], known: &[String]) -> (r: Vec<(String, bool)>)
    ensures
        entries_view(r@) == scan_candidates(entries_view(entries@), known@.map_values(|s: String| s@), entries@.len() as int),
{
    let ghost ev = entries_view(entries@);
    let ghost kv = known@.map_values(|s: String| s@);
    let mut r: Vec<(String, bool)> = Vec::new();
    let mut i: usize = 0;
    while i < entries.len()
        invariant
            ev == entries_view(entries@),
            kv == known@.map_values(|s: String| s@),
            i <= entries@.len(),
            entries_view(r@) == scan_candidates(ev, kv, i as int),
        decreases entries.len() - i,
    {
        let p = entries[i].0.as_str();
        assert(ev[i as int] == (p@, entries@[i as int].1));
        if !is_hidden(p) && !path_known(p, known) {
            r.push((entries[i].0.clone(), entries[i].1));
            assert(entries_view(r@) =~= scan_candidates(ev, kv, i as int).push(ev[i as int]));
        }
        i += 1;
    }
    r
}

/// The entries sorted into scan order (stable insertion sort).
fn sort_entries(c: &Vec<(String, bool)>) -> (r: Vec<(String, bool)>)
    ensures
        entries_view(r@).to_multiset() == entries_view(c@).to_multiset(),
        sorted_by(entries_view(r@), |a: EntryView, b: EntryView| entry_leq(a, b)),
{
    let ghost cv = entries_view(c@);
    let ghost leq = |a: EntryView, b: EntryView| entry_leq(a, b);
    proof {
        lemma_entry_order_total();
    }
    let mut out: Vec<(String, bool)> = Vec::new();
    let mut i: usize = 0;
    assert(cv.take(0) =~= Seq::<EntryView>::empty());
    assert(entries_view(out@) =~= Seq::<EntryView>::empty());
    while i < c.len()
        invariant
            cv == entries_view(c@),
            leq == (|a: EntryView, b: EntryView| entry_leq(a, b)),
            total_ordering(leq),
            i <= c@.len(),
            entries_view(out@).to_multiset() == cv.take(i as int).to_multiset(),
            sorted_by(entries_view(out@), leq),
        decreases c.len() - i,
    {
        let e = (c[i].0.clone(), c[i].1);
        let ghost ov = entries_view(out@);
        let ghost ee = (e.0@, e.1);
        assert(ee == cv[i as int]);
        let mut p: usize = 0;
        while p < out.len() && !entry_less(&e, &out[p])
            invariant
                ov == entries_view(out@),
                ee == (e.0@, e.1),
                p <= out@.len(),
                forall|k: int| 0 <= k < p ==> !entry_lt(ee, #[trigger] ov[k]),
            decreases out.len() - p,
        {
            assert(ov[p as int] == (out@[p as int].0@, out@[p as int].1));
            p += 1;
        }
        proof {
            assert forall|k: int| 0 <= k < p implies #[trigger] leq(ov[k], ee) by {
                assert(!entry_lt(ee, ov[k]));
                lemma_seq_lt_total(ee.0, ov[k].0);
            }
            if p < ov.len() {
                assert(ov[p as int] == (out@[p as int].0@, out@[p as int].1));
                assert(entry_lt(ee, ov[p as int]));
                lemma_seq_lt_total(ee.0, ov[p as int].0);
                assert(leq(ee, ov[p as int]));
                assert forall|k: int| p <= k < ov.len() implies #[trigger] leq(ee, ov[k]) by {
                    if k > p {
                        assert(leq(ov[p as int], ov[k]));
                    }
                }
            }
        }
        out.insert(p, e);
        proof {
            let nv = entries_view(out@);
            assert(nv =~= ov.insert(p as int, ee));
            vstd::seq_lib::to_multiset_insert(ov, p as int, ee);
            assert(cv.take(i + 1) =~= cv.take(i as int).push(ee));
            vstd::seq_lib::to_multiset_build(cv.take(i as int), ee);
            assert forall|a: int, b: int| 0 <= a < b < nv.len() implies #[trigger] leq(nv[a], nv[b]) by {
                if a < p && b < p {
                    assert(nv[a] == ov[a] && nv[b] == ov[b]);
                } else if a < p && b == p {
                    assert(nv[a] == ov[a]);
                } else if a < p && b > p {
                    assert(nv[a] == ov[a] && nv[b] == ov[b - 1]);
                } else if a == p {
                    assert(nv[b] == ov[b - 1]);
                } else {
                    assert(nv[a] == ov[a - 1] && nv[b] == ov[b - 1]);
                }
            }
        }
        i += 1;
    }
    assert(cv.take(c@.len() as int) =~= cv);
    out
}

/// The grid requirements at one position.
proof fn lemma_scan_fits_at(count: int, desktop_w: int, icon_size: int, gap: int, k: int)
    requires
        scan_fits(count, desktop_w, icon_size, gap),
        0 <= k < count,
    ensures
        ({
            let mpr = scan_max_per_row_of(desktop_w, icon_size, gap);
            &&& fits((k % mpr) * cell_of(icon_size, gap))
            &&& fits(scan_pos(k, mpr, icon_size, gap).0)
            &&& fits((k / mpr) * row_height_of(icon_size))
            &&& fits(scan_pos(k, mpr, icon_size, gap).1)
        }),
{
    let mpr = scan_max_per_row_of(desktop_w, icon_size, gap);
    assert(fits(scan_pos(k, mpr, icon_size, gap).0));
}

/// Places the desktop entries not shown yet: hidden entries (names that
/// start with a dot) and `known` paths are skipped; the rest, directories
/// first and then by path, fill the desktop grid row by row, with as many
/// icons per row as fit in the desktop width less 80 pixels (at least one).
pub fn place_new_icons(
    entries: &[(String, bool)],
    known: &[String],
    desktop_w: i32,
    icon_size: i32,
    gap: i32,
) -> (r: Vec<IconState>)
    requires
        scan_fits(
            scan_candidates(entries_view(entries@), known@.map_values(|s: String| s@), entries@.len() as int).len() as int,
            desktop_w as int,
            icon_size as int,
            gap as int,
        ),
    ensures
        ({
            let order = scan_order(scan_candidates(entries_view(entries@), known@.map_values(|s: String| s@), entries@.len() as int));
            let mpr = scan_max_per_row_of(desktop_w as int, icon_size as int, gap as int);
            &&& r@.len() == order.len()
            &&& forall|k: int|
                0 <= k < r@.len() ==> (#[trigger] r@[k]).path@ == order[k].0 && r@[k].x == scan_pos(
                    k,
                    mpr,
                    icon_size as int,
                    gap as int,
                ).0 && r@[k].y == scan_pos(k, mpr, icon_size as int, gap as int).1
        }),
{
    let ghost cands = scan_candidates(entries_view(entries@), known@.map_values(|s: String| s@), entries@.len() as int);
    let fresh = new_entries(entries, known);
    let ordered = sort_entries(&fresh);
    proof {
        lemma_entry_order_total();
        cands.lemma_sort_by_ensures(|a: EntryView, b: EntryView| entry_leq(a, b));
        vstd::seq_lib::lemma_sorted_unique(
            entries_view(ordered@),
            scan_order(cands),
            |a: EntryView, b: EntryView| entry_leq(a, b),
        );
        vstd::seq_lib::to_multiset_len(cands);
        vstd::seq_lib::to_multiset_len(scan_order(cands));
    }
    let ghost order = scan_order(cands);
    let c = cell(icon_size, gap) as i128;
    let row_h = (icon_size as i128) + 16 + (ICON_ROW_H as i128);
    let q = div_trunc(desktop_w - 80, cell(icon_size, gap));
    let mpr: i128 = if q >= 1 {
        q as i128
    } else {
        1
    };
    let ghost gmpr = scan_max_per_row_of(desktop_w as int, icon_size as int, gap as int);
    assert(mpr == gmpr);
    let mut r: Vec<IconState> = Vec::new();
    let mut k: usize = 0;
    while k < ordered.len()
        invariant
            entries_view(ordered@) == order,
            order.len() == cands.len(),
            scan_fits(cands.len() as int, desktop_w as int, icon_size as int, gap as int),
            gmpr == scan_max_per_row_of(desktop_w as int, icon_size as int, gap as int),
            mpr == gmpr,
            mpr >= 1,
            c == cell_of(icon_size as int, gap as int),
            row_h == row_height_of(icon_size as int),
            k <= ordered@.len(),
            r@.len() == k,
            forall|j: int|
                0 <= j < k ==> (#[trigger] r@[j]).path@ == order[j].0 && r@[j].x == scan_pos(
                    j,
                    gmpr,
                    icon_size as int,
                    gap as int,
                ).0 && r@[j].y == scan_pos(j, gmpr, icon_size as int, gap as int).1,
        decreases ordered.len() - k,
    {
        let kk = k as i128;
        let col = kk % mpr;
        let row = kk / mpr;
        let ghost pos = scan_pos(k as int, gmpr, icon_size as int, gap as int);
        assert(ordered@.len() == order.len());
        assert(0 <= k < cands.len());
        proof {
            lemma_scan_fits_at(cands.len() as int, desktop_w as int, icon_size as int, gap as int, k as int);
        }
        let x = (DESKTOP_MARGIN_X as i128) + col * c;
        let y = (DESKTOP_MARGIN_Y as i128) + row * row_h;
        assert(ordered@[k as int].0@ == order[k as int].0);
        r.push(IconState { path: ordered[k].0.clone(), x: x as i32, y: y as i32 });
        k += 1;
    }
    r
}

/// Where the icons of a box go and how tall the box must become.
#[derive(Clone, Debug, PartialEq, Eq)]
pub struct ReflowPlan {
    pub positions: Vec<(i32, i32)>,
    pub target_h: i32,
}

/// Icons per row inside a box of width `box_w` (at least one).
pub open spec fn box_max_per_row_of(box_w: int, icon_size: int, gap: int) -> int {
    max_int(trunc_div(box_w - BOX_PADDING * 2, cell_of(icon_size, gap)), 1)
}

/// Position of the `k`-th icon inside a box.
pub open spec fn reflow_pos(k: int, mpr: int, icon_size: int, gap: int) -> (int, int) {
    (BOX_PADDING + (k % mpr) * cell_of(icon_size, gap), BOX_PADDING + (k / mpr) * row_height_of(icon_size))
}

/// Icon rows a reflow reserves: one for an empty box, else one more than
/// the rows completely filled before the last icon's successor.
pub open spec fn reflow_rows(count: int, mpr: int) -> int {
    if count == 0 {
        1
    } else {
        count / mpr + 1
    }
}

/// Height a reflowed box needs: title bar, padding, rows and a border line.
pub open spec fn reflow_need_h(count: int, mpr: int, icon_size: int) -> int {
    BOX_TITLE_H + BOX_PADDING * 2 + reflow_rows(count, mpr) * row_height_of(icon_size) + 4
}

/// Requirements of `reflow_box_plan`: all values stay inside `i32`.
pub open spec fn reflow_fits(count: int, box_w: int, icon_size: int, gap: int) -> bool {
    let mpr = box_max_per_row_of(box_w, icon_size, gap);
    &&& fits(box_w - BOX_PADDING * 2)
    &&& fits(icon_total_of(icon_size))
    &&& fits(cell_of(icon_size, gap))
    &&& fits(row_height_of(icon_size))
    &&& cell_of(icon_size, gap) != 0
    &&& fits(trunc_div(box_w - BOX_PADDING * 2, cell_of(icon_size, gap)))
    &&& fits(reflow_need_h(count, mpr, icon_size))
    &&& forall|k: int|
        0 <= k < count ==> fits(#[trigger] reflow_pos(k, mpr, icon_size, gap).0) && fits(
            reflow_pos(k, mpr, icon_size, gap).1,
        )
}

proof fn lemma_reflow_fits_at(count: int, box_w: int, icon_size: int, gap: int, k: int)
    requires
        reflow_fits(count, box_w, icon_size, gap),
        0 <= k < count,
    ensures
        ({
            let mpr = box_max_per_row_of(box_w, icon_size, gap);
            fits(reflow_pos(k, mpr, icon_size, gap).0) && fits(reflow_pos(k, mpr, icon_size, gap).1)
        }),
{
    let mpr = box_max_per_row_of(box_w, icon_size, gap);
    assert(fits(reflow_pos(k, mpr, icon_size, gap).0));
}

/// Lays `count` icons out row by row inside a box of width `box_w` and
/// raises the box's target height when the rows need more room (it never
/// shrinks it).
pub fn reflow_box_plan(count: usize, box_w: i32, icon_size: i32, gap: i32, target_h: i32) -> (r: ReflowPlan)
    requires
        reflow_fits(count as int, box_w as int, icon_size as int, gap as int),
    ensures
        ({
            let mpr = box_max_per_row_of(box_w as int, icon_size as int, gap as int);
            let need = reflow_need_h(count as int, mpr, icon_size as int);
            &&& r.positions@.len() == count
            &&& forall|k: int|
                0 <= k < count ==> (#[trigger] r.positions@[k]).0 == reflow_pos(k, mpr, icon_size as int, gap as int).0
                    && r.positions@[k].1 == reflow_pos(k, mpr, icon_size as int, gap as int).1
            &&& r.target_h == max_int(target_h as int, need)
        }),
{
    let ghost gmpr = box_max_per_row_of(box_w as int, icon_size as int, gap as int);
    let c = cell(icon_size, gap) as i128;
    let row_h = (icon_size as i128) + 16 + (ICON_ROW_H as i128);
    let q = div_trunc(box_w - BOX_PADDING * 2, cell(icon_size, gap));
    let mpr: i128 = if q >= 1 {
        q as i128
    } else {
        1
    };
    let mut positions: Vec<(i32, i32)> = Vec::new();
    let mut k: usize = 0;
    while k < count
        invariant
            reflow_fits(count as int, box_w as int, icon_size as int, gap as int),
            gmpr == box_max_per_row_of(box_w as int, icon_size as int, gap as int),
            mpr == gmpr,
            mpr >= 1,
            c == cell_of(icon_size as int, gap as int),
            row_h == row_height_of(icon_size as int),
            k <= count,
            positions@.len() == k,
            forall|j: int|
                0 <= j < k ==> (#[trigger] positions@[j]).0 == reflow_pos(j, gmpr, icon_size as int, gap as int).0
                    && positions@[j].1 == reflow_pos(j, gmpr, icon_size as int, gap as int).1,
        decreases count - k,
    {
        proof {
            lemma_reflow_fits_at(count as int, box_w as int, icon_size as int, gap as int, k as int);
        }
        let kk = k as i128;
        let x = (BOX_PADDING as i128) + (kk % mpr) * c;
        let y = (BOX_PADDING as i128) + (kk / mpr) * row_h;
        positions.push((x as i32, y as i32));
        k += 1;
    }
    let rows: i128 = if count == 0 {
        1
    } else {
        (count as i128) / mpr + 1
    };
    let need = (BOX_TITLE_H as i128) + (BOX_PADDING as i128) * 2 + rows * row_h + 4;
    let new_h = if need > target_h as i128 {
        need as i32
    } else {
        target_h
    };
    ReflowPlan { positions, target_h: new_h }
}

/// A box on screen: its rectangle and whether it is open (neither collapsed
/// nor minimized).
#[derive(Clone, Copy, Debug, PartialEq, Eq)]
pub struct BoxRect {
    pub x: i32,
    pub y: i32,
    pub w: i32,
    pub h: i32,
    pub open: bool,
}

/// The point lies in the rectangle, edges included.
pub open spec fn in_rect(px: int, py: int, b: BoxRect) -> bool {
    px >= b.x && px <= b.x + b.w && py >= b.y && py <= b.y + b.h
}

/// The rectangles' far edges stay inside `i32`.
pub open spec fn rects_fit(rects: Seq<BoxRect>) -> bool {
    forall|j: int| 0 <= j < rects.len() ==> fits((#[trigger] rects[j]).x + rects[j].w) && fits(rects[j].y + rects[j].h)
}

/// The icon's centre lies in the open box.
pub open spec fn icon_in_box(icon_x: int, icon_y: int, icon_size: int, b: BoxRect) -> bool {
    let half = trunc_div(icon_total_of(icon_size), 2);
    b.open && in_rect(icon_x + half, icon_y + half, b)
}

/// Whether the point lies in the rectangle, edges included.
fn point_in_box(px: i32, py: i32, b: &BoxRect) -> (r: bool)
    requires
        fits(b.x + b.w),
        fits(b.y + b.h),
    ensures
        r == in_rect(px as int, py as int, *b),
{
    px >= b.x && px <= b.x + b.w && py >= b.y && py <= b.y + b.h
}

/// The first open box holding the centre of the icon at (`icon_x`, `icon_y`).
pub fn box_containing(icon_x: i32, icon_y: i32, icon_size: i32, boxes: &[BoxRect]) -> (r: Option<usize>)
    requires
        rects_fit(boxes@),
        fits(icon_total_of(icon_size as int)),
        fits(icon_x + trunc_div(icon_total_of(icon_size as int), 2)),
        fits(icon_y + trunc_div(icon_total_of(icon_size as int), 2)),
    ensures
        match r {
            Some(j) => j < boxes@.len() && icon_in_box(icon_x as int, icon_y as int, icon_size as int, boxes@[j as int])
                && forall|i: int| 0 <= i < j ==> !icon_in_box(icon_x as int, icon_y as int, icon_size as int, #[trigger] boxes@[i]),
            None => forall|i: int| 0 <= i < boxes@.len() ==> !icon_in_box(icon_x as int, icon_y as int, icon_size as int, #[trigger] boxes@[i]),
        },
{
    let half = (icon_size + 16) / 2;
    let cx = icon_x + half;
    let cy = icon_y + half;
    let mut j: usize = 0;
    while j < boxes.len()
        invariant
            rects_fit(boxes@),
            j <= boxes@.len(),
            half == trunc_div(icon_total_of(icon_size as int), 2),
            cx == icon_x + half,
            cy == icon_y + half,
            forall|i: int| 0 <= i < j ==> !icon_in_box(icon_x as int, icon_y as int, icon_size as int, #[trigger] boxes@[i]),
        decreases boxes.len() - j,
    {
        let b = &boxes[j];
        assert(fits(boxes@[j as int].x + boxes@[j as int].w));
        if b.open && point_in_box(cx, cy, b) {
            return Some(j);
        }
        j += 1;
    }
    None
}

/// A click at (`px`, `py`) on the blank desktop organizes when double-click
/// organizing is on and the click is outside every box.
pub fn blank_click_organizes(px: i32, py: i32, boxes: &[BoxRect], double_click_organize: bool) -> (r: bool)
    requires
        rects_fit(boxes@),
    ensures
        r == (double_click_organize && forall|i: int| 0 <= i < boxes@.len() ==> !in_rect(px as int, py as int, #[trigger] boxes@[i])),
{
    let mut j: usize = 0;
    while j < boxes.len()
        invariant
            rects_fit(boxes@),
            j <= boxes@.len(),
            forall|i: int| 0 <= i < j ==> !in_rect(px as int, py as int, #[trigger] boxes@[i]),
        decreases boxes.len() - j,
    {
        assert(fits(boxes@[j as int].x + boxes@[j as int].w));
        if point_in_box(px, py, &boxes[j]) {
            return false;
        }
        j += 1;
    }
    double_click_organize
}

/// Whether a click on the blank desktop completes a double click: the
/// previous one (at `last_ms`, 0 meaning none) came less than
/// `DOUBLE_CLICK_MS` earlier and less than 8 pixels away on both axes.
pub fn is_blank_double_click(now_ms: u64, last_ms: u64, x: i32, y: i32, last_x: i32, last_y: i32) -> (r: bool)
    requires
        last_ms != 0 ==> now_ms >= last_ms,
        i32::MIN < x - last_x <= i32::MAX,
        i32::MIN < y - last_y <= i32::MAX,
    ensures
        r == (last_ms != 0 && now_ms - last_ms < DOUBLE_CLICK_MS && -8 < x - last_x < 8 && -8 < y - last_y < 8),
{
    if last_ms == 0 || now_ms - last_ms >= DOUBLE_CLICK_MS {
        return false;
    }
    let dx = x - last_x;
    let dy = y - last_y;
    let adx = if dx >= 0 { dx } else { -dx };
    let ady = if dy >= 0 { dy } else { -dy };
    adx < 8 && ady < 8
}

/// Whether a press on an icon repeats the previous press on the same icon
/// within `DOUBLE_CLICK_MS` (the previous press at `last_ms`, 0 meaning none).
pub fn is_repeat_press(now_ms: u64, last_ms: u64, path: &str, last_path: &str) -> (r: bool)
    requires
        last_ms != 0 ==> now_ms >= last_ms,
    ensures
        r == (last_ms != 0 && now_ms - last_ms < DOUBLE_CLICK_MS && path@ == last_path@),
{
    last_ms != 0 && now_ms - last_ms < DOUBLE_CLICK_MS && str_eq(path, last_path)
}

/// Whether the pointer, pressed at (`press_x`, `press_y`) and now at
/// (`x`, `y`), moved far enough to drag: 4 pixels or more, the horizontal
/// and vertical distances added.
pub fn is_drag_move(press_x: i32, press_y: i32, x: i32, y: i32) -> (r: bool)
    ensures
        r == (abs_int(x - press_x) + abs_int(y - press_y) >= 4),
{
    let dx = (x as i64) - (press_x as i64);
    let dy = (y as i64) - (press_y as i64);
    let adx = if dx >= 0 { dx } else { -dx };
    let ady = if dy >= 0 { dy } else { -dy };
    adx + ady >= 4
}

/// Where an item at (`cx`, `cy`) goes when the pointer moves from
/// (`press_x`, `press_y`) to (`x`, `y`): moved along, but never left of or
/// above the origin.
pub fn drag_target(cx: i32, cy: i32, press_x: i32, press_y: i32, x: i32, y: i32) -> (r: (i32, i32))
    requires
        fits(cx + x - press_x),
        fits(cy + y - press_y),
    ensures
        r.0 == max_int(cx + x - press_x, 0),
        r.1 == max_int(cy + y - press_y, 0),
{
    let nx = (cx as i64) + (x as i64) - (press_x as i64);
    let ny = (cy as i64) + (y as i64) - (press_y as i64);
    let rx: i32 = if nx >= 0 { nx as i32 } else { 0 };
    let ry: i32 = if ny >= 0 { ny as i32 } else { 0 };
    (rx, ry)
}

/// The boxes an organize run uses: the ids of its boxes in plan order
/// (existing boxes are reused in order, further ones are created), which of
/// them are new, the existing boxes left over (to be closed) and the next
/// box sequence number.
#[derive(Clone, Debug, PartialEq, Eq)]
pub struct BoxAssignment {
    pub ids: Vec<String>,
    pub created: Vec<bool>,
    pub closed: Vec<String>,
    pub box_seq: u64,
}

/// The id of the automatically created box numbered `seq`.
pub open spec fn auto_box_id(seq: nat) -> Seq<char> {
    "auto-"@ + decimal_digits(seq)
}

/// The id of the box created by hand numbered `seq`.
pub open spec fn manual_box_id(seq: nat) -> Seq<char> {
    "box-"@ + decimal_digits(seq)
}

/// Slot `k` of an assignment reuses the `k`-th existing box, or is a new
/// box numbered on from `box_seq`.
pub open spec fn slot_assigned(existing: Seq<String>, box_seq: int, ids: Seq<String>, created: Seq<bool>, k: int) -> bool {
    if k < existing.len() {
        ids[k]@ == existing[k]@ && !created[k]
    } else {
        ids[k]@ == auto_box_id((box_seq + (k - existing.len()) + 1) as nat) && created[k]
    }
}

/// Assigns box ids to the `count` boxes of an organize plan: the `k`-th box
/// reuses the `k`-th existing box; each further box is created with the id
/// `auto-<n>`, numbering on from `box_seq`; existing boxes beyond `count`
/// are closed.
pub fn assign_box_ids(existing: &[String], count: usize, box_seq: u64) -> (r: BoxAssignment)
    requires
        box_seq + count <= u64::MAX,
    ensures
        r.ids@.len() == count,
        r.created@.len() == count,
        forall|k: int| 0 <= k < count ==> #[trigger] slot_assigned(existing@, box_seq as int, r.ids@, r.created@, k),
        r.closed@.len() == (if count < existing@.len() { existing@.len() - count } else { 0 }),
        forall|k: int| 0 <= k < r.closed@.len() ==> (#[trigger] r.closed@[k])@ == existing@[count + k]@,
        r.box_seq == box_seq + (if count > existing@.len() { count - existing@.len() } else { 0 }),
{
    let closed = strings_from(existing, count);
    let mut ids: Vec<String> = Vec::new();
    let mut created: Vec<bool> = Vec::new();
    let mut seq = box_seq;
    let mut k: usize = 0;
    while k < count
        invariant
            box_seq + count <= u64::MAX,
            k <= count,
            ids@.len() == k,
            created@.len() == k,
            seq == box_seq + (if k > existing@.len() { k - existing@.len() } else { 0 }),
            forall|j: int| 0 <= j < k ==> #[trigger] slot_assigned(existing@, box_seq as int, ids@, created@, j),
        decreases count - k,
    {
        let ghost (old_ids, old_created) = (ids@, created@);
        if k < existing.len() {
            let e = existing[k].clone();
            assert(e@ == existing@[k as int]@);
            ids.push(e);
            created.push(false);
        } else {
            seq = seq + 1;
            let mut id = String::from_str("auto-");
            let digits = u64_to_decimal(seq);
            id.append(digits.as_str());
            assert(id@ == auto_box_id((box_seq + (k - existing@.len()) + 1) as nat));
            ids.push(id);
            created.push(true);
        }
        proof {
            assert forall|j: int| 0 <= j < k + 1 implies #[trigger] slot_assigned(existing@, box_seq as int, ids@, created@, j) by {
                if j < k {
                    assert(ids@[j] == old_ids[j]);
                    assert(created@[j] == old_created[j]);
                    assert(slot_assigned(existing@, box_seq as int, old_ids, old_created, j));
                }
            }
        }
        k += 1;
    }
    BoxAssignment { ids, created, closed, box_seq: seq }
}

/// The strings of `v` from index `from` on.
fn strings_from(v: &[String], from: usize) -> (r: Vec<String>)
    ensures
        r@.len() == (if from < v@.len() { v@.len() - from } else { 0 }),
        forall|j: int| 0 <= j < r@.len() ==> (#[trigger] r@[j])@ == v@[from + j]@,
{
    let mut r: Vec<String> = Vec::new();
    if from >= v.len() {
        return r;
    }
    let mut m: usize = from;
    while m < v.len()
        invariant
            from <= m <= v@.len(),
            r@.len() == m - from,
            forall|j: int| 0 <= j < r@.len() ==> (#[trigger] r@[j])@ == v@[from + j]@,
        decreases v.len() - m,
    {
        let e = v[m].clone();
        assert(e@ == v@[m as int]@);
        r.push(e);
        assert(r@[m - from] == e);
        m += 1;
    }
    r
}

/// A new empty box made by hand, titled `title`: id `box-<n>` with the next
/// sequence number, at (40, 40), 320 by 240, open, without color; and the
/// next sequence number.
pub fn new_box_state(title: &str, box_seq: u64) -> (r: (BoxState, u64))
    requires
        box_seq < u64::MAX,
    ensures
        r.1 == box_seq + 1,
        r.0.id@ == manual_box_id((box_seq + 1) as nat),
        r.0.title@ == title@,
        r.0.x == 40 && r.0.y == 40 && r.0.w == 320 && r.0.h == 240,
        !r.0.collapsed,
        r.0.color is None,
        r.0.icons@.len() == 0,
{
    let seq = box_seq + 1;
    let mut id = String::from_str("box-");
    let digits = u64_to_decimal(seq);
    id.append(digits.as_str());
    let bs = BoxState {
        id,
        title: String::from_str(title),
        x: 40,
        y: 40,
        w: 320,
        h: 240,
        collapsed: false,
        color: None,
        icons: Vec::new(),
    };
    (bs, seq)
}

/// The size a restored box asks for: at least the smallest box size; a
/// collapsed box shows only its title bar.
pub fn box_size_request(w: i32, h: i32, collapsed: bool) -> (r: (i32, i32))
    ensures
        r.0 == max_int(w as int, BOX_MIN_W as int),
        r.1 == (if collapsed { BOX_TITLE_H + 4 } else { max_int(h as int, BOX_MIN_H as int) }),
{
    let tw = if w >= BOX_MIN_W { w } else { BOX_MIN_W };
    let th = if collapsed {
        BOX_TITLE_H + 4
    } else if h >= BOX_MIN_H {
        h
    } else {
        BOX_MIN_H
    };
    (tw, th)
}

/// The height a box asks for after its collapsed state became `collapsed`.
pub fn collapse_height(collapsed: bool, target_h: i32) -> (r: i32)
    ensures
        r == (if collapsed { BOX_TITLE_H + 6 } else { max_int(target_h as int, BOX_MIN_H as int) }),
{
    if collapsed {
        BOX_TITLE_H + 6
    } else if target_h >= BOX_MIN_H {
        target_h
    } else {
        BOX_MIN_H
    }
}

/// The label of a box's collapse button: restore when collapsed, else
/// collapse.
pub fn collapse_label(collapsed: bool) -> (r: &'static str)
    ensures
        r@ == (if collapsed { "▢"@ } else { "─"@ }),
{
    if collapsed {
        "▢"
    } else {
        "─"
    }
}

/// Where copying an entry puts the copy: its path with `.copy` appended.
pub fn copy_destination(path: &str) -> (r: String)
    ensures
        r@ == path@ + ".copy"@,
{
    let mut r = String::from_str(path);
    r.append(".copy");
    r
}

/// The question asked before deleting an entry.
pub fn delete_prompt(path: &str) -> (r: String)
    ensures
        r@ == "确定删除「"@ + short_name_of(path@) + "」？"@,
{
    let mut r = String::from_str("确定删除「");
    let name = short_name(path);
    r.append(name.as_str());
    r.append("」？");
    r
}

/// Whether a rename dialog's answer renames the entry: confirmed, with a
/// non-empty name that differs from the old one.
pub fn rename_accepted(old_name: &str, new_name: &str, confirmed: bool) -> (r: bool)
    ensures
        r == (confirmed && new_name@.len() > 0 && new_name@ != old_name@),
{
    confirmed && !new_name.is_empty() && !str_eq(new_name, old_name)
}

/// Whether a box rename dialog's answer renames the box: confirmed, with a
/// non-empty title.
pub fn box_rename_accepted(title: &str, confirmed: bool) -> (r: bool)
    ensures
        r == (confirmed && title@.len() > 0),
{
    confirmed && !title.is_empty()
}

/// `s` without its first occurrence of `p` (unchanged when `p` is absent).
pub open spec fn without_first(s: Seq<Seq<char>>, p: Seq<char>) -> Seq<Seq<char>> {
    if s.contains(p) {
        let i = choose|i: int| 0 <= i < s.len() && s[i] == p && forall|k: int| 0 <= k < i ==> s[k] != p;
        s.remove(i)
    } else {
        s
    }
}

/// Takes `path` out of a box's icon list: its first occurrence is removed.
/// Returns whether the list held it.
pub fn remove_box_icon(icons: &mut Vec<String>, path: &str) -> (r: bool)
    ensures
        r == strings_view(old(icons)@).contains(path@),
        strings_view(final(icons)@) == without_first(strings_view(old(icons)@), path@),
{
    let ghost sv = strings_view(icons@);
    let mut i: usize = 0;
    while i < icons.len()
        invariant
            sv == strings_view(icons@),
            icons@ == old(icons)@,
            i <= icons@.len(),
            forall|k: int| 0 <= k < i ==> sv[k] != path@,
        decreases icons.len() - i,
    {
        if str_eq(icons[i].as_str(), path) {
            proof {
                assert(sv[i as int] == path@);
                assert(sv.contains(path@));
                let c = choose|c: int| 0 <= c < sv.len() && sv[c] == path@ && forall|k: int| 0 <= k < c ==> sv[k] != path@;
                if c < i {
                    assert(sv[c] != path@);
                }
                if c > i {
                    assert(sv[i as int] != path@);
                }
                assert(c == i);
            }
            icons.remove(i);
            assert(strings_view(icons@) =~= sv.remove(i as int));
            return true;
        }
        i += 1;
    }
    proof {
        if sv.contains(path@) {
            let c = choose|c: int| 0 <= c < sv.len() && sv[c] == path@;
            assert(sv[c] != path@);
        }
    }
    false
}

/// Moves `path` into box `target` of the boxes' icon lists: every other box
/// loses its first occurrence of `path`, and `path` is appended to the
/// target's list.
pub fn move_icon_into_box(lists: &mut Vec<Vec<String>>, target: usize, path: &str)
    requires
        target < old(lists)@.len(),
    ensures
        final(lists)@.len() == old(lists)@.len(),
        forall|j: int|
            0 <= j < old(lists)@.len() && j != target ==> strings_view(#[trigger] final(lists)@[j]@) == without_first(
                strings_view(old(lists)@[j]@),
                path@,
            ),
        strings_view(final(lists)@[target as int]@) == strings_view(old(lists)@[target as int]@).push(path@),
{
    let ghost start = lists@;
    let mut j: usize = 0;
    while j < lists.len()
        invariant
            lists@.len() == start.len(),
            target < start.len(),
            j <= lists@.len(),
            forall|k: int|
                0 <= k < j && k != target ==> strings_view(#[trigger] lists@[k]@) == without_first(
                    strings_view(start[k]@),
                    path@,
                ),
            forall|k: int| (j <= k < start.len() || k == target) ==> #[trigger] lists@[k] == start[k],
        decreases lists.len() - j,
    {
        if j != target {
            let mut cur = clone_strings(&lists[j]);
            remove_box_icon(&mut cur, path);
            lists.set(j, cur);
        }
        j += 1;
    }
    let mut t = clone_strings(&lists[target]);
    t.push(String::from_str(path));
    assert(strings_view(t@) =~= strings_view(start[target as int]@).push(path@));
    lists.set(target, t);
}

/// Law: the desktop grid holds as many icons per row as whole cells fit in
/// the desktop width less 80 pixels (at least one): for a positive cell,
/// either it is 1 or that many cells fit, and one more cell never fits.
/// The `k`-th new icon goes to column `k % per_row` and row `k / per_row`,
/// one cell (icon + 16 + gap) per column from x = 20 and one row
/// (icon + 46) per row from y = 16.
pub proof fn lemma_scan_grid(desktop_w: int, icon_size: int, gap: int, k: int)
    requires
        icon_size + 16 + gap > 0,
    ensures
        ({
            let mpr = scan_max_per_row_of(desktop_w, icon_size, gap);
            let c = icon_size + 16 + gap;
            &&& mpr >= 1
            &&& mpr == 1 || mpr * c <= desktop_w - 80
            &&& (mpr + 1) * c > desktop_w - 80
            &&& scan_pos(k, mpr, icon_size, gap) == (20 + (k % mpr) * c, 16 + (k / mpr) * (icon_size + 46))
        }),
{
    let c = icon_size + 16 + gap;
    let a = desktop_w - 80;
    if a >= 0 {
        let q = a / c;
        vstd::arithmetic::div_mod::lemma_fundamental_div_mod(a, c);
        assert(trunc_div(a, c) == q);
        assert(q * c <= a && (q + 1) * c > a) by (nonlinear_arith)
            requires
                a == c * q + a % c,
                0 <= a % c < c,
        ;
        if q < 1 {
            assert(2 * c > a) by (nonlinear_arith)
                requires
                    (q + 1) * c > a,
                    q < 1,
                    c > 0,
            ;
        }
    } else {
        assert(trunc_div(a, c) <= 0) by (nonlinear_arith)
            requires
                a < 0,
                c > 0,
                trunc_div(a, c) == -(abs_int(a) / abs_int(c)),
                abs_int(a) > 0,
                abs_int(c) == c,
        ;
    }
}

} // verus!
