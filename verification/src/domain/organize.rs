//! One-click organize planning: grouping desktop entries by category and
//! laying one box per category out from left to right, wrapping rows.
use vstd::prelude::*;
use crate::domain::categorize::is_empty_folder;
use crate::domain::layout::{abs_int, box_height_of, box_width_of, cell, cell_of, div_trunc, fits, icon_total_of, max_int, trunc_div, BOX_GAP_X, BOX_GAP_Y, DESKTOP_MARGIN_X, DESKTOP_MARGIN_Y};
use crate::text::{ends_with, lemma_seq_lt_irreflexive, lemma_seq_lt_total, lemma_seq_lt_transitive, seq_ends_with, seq_lt, str_eq, str_less};

verus! {

/// A category together with its entries, as plain sequences.
pub type GroupView = (Seq<char>, Seq<Seq<char>>);

/// The characters of each string.
pub open spec fn strings_view(v: Seq<String>) -> Seq<Seq<char>> {
    v.map_values(|s: String| s@)
}

/// A list of groups as plain sequences.
pub open spec fn groups_view(g: Seq<(String, Vec<String>)>) -> Seq<GroupView> {
    g.map_values(|e: (String, Vec<String>)| (e.0@, strings_view(e.1@)))
}

/// Categories of file-like entries, hidden when files are not shown.
pub open spec fn is_file_kind(c: Seq<char>) -> bool {
    c == "文件"@ || c == "图片视频"@ || c == "压缩包"@ || c == "文件夹"@
}

/// Whether an entry of category `c` takes part in organizing.
pub open spec fn kept(show_files: bool, c: Seq<char>) -> bool {
    show_files || !is_file_kind(c)
}

/// The entries among the first `n` whose category is `k`, in input order.
pub open spec fn group_items(
    paths: Seq<Seq<char>>,
    cats: Seq<Seq<char>>,
    show_files: bool,
    k: Seq<char>,
    n: int,
) -> Seq<Seq<char>>
    decreases n,
{
    if n <= 0 {
        seq![]
    } else {
        let prev = group_items(paths, cats, show_files, k, n - 1);
        if kept(show_files, cats[n - 1]) && cats[n - 1] == k {
            prev.push(paths[n - 1])
        } else {
            prev
        }
    }
}

/// A launcher entry (`.desktop` file).
pub open spec fn is_launcher_path(p: Seq<char>) -> bool {
    seq_ends_with(p, ".desktop"@)
}

/// A folder (or "other") group that holds no real folder: only launchers.
pub open spec fn dropped_group(k: Seq<char>, items: Seq<Seq<char>>) -> bool {
    &&& (k == "文件夹"@ || k == "其他"@)
    &&& forall|i: int| 0 <= i < items.len() ==> is_launcher_path(#[trigger] items[i])
}

/// Position of a category in the box order; unknown categories come last.
pub open spec fn category_rank(k: Seq<char>) -> int {
    if k == "我的电脑"@ {
        0
    } else if k == "回收站"@ {
        1
    } else if k == "应用"@ {
        2
    } else if k == "文件夹"@ {
        3
    } else if k == "文件"@ {
        4
    } else if k == "图片视频"@ {
        5
    } else if k == "压缩包"@ {
        6
    } else if k == "其他"@ {
        7
    } else {
        8
    }
}

/// Box order of categories: by rank, unknown categories by code point order.
pub open spec fn key_lt(a: Seq<char>, b: Seq<char>) -> bool {
    category_rank(a) < category_rank(b) || (category_rank(a) == category_rank(b) && seq_lt(a, b))
}

/// `key_lt` is a strict total order.
pub proof fn lemma_key_lt_order(a: Seq<char>, b: Seq<char>, c: Seq<char>)
    ensures
        !key_lt(a, a),
        a != b ==> key_lt(a, b) || key_lt(b, a),
        !(key_lt(a, b) && key_lt(b, a)),
        key_lt(a, b) && key_lt(b, c) ==> key_lt(a, c),
{
    lemma_seq_lt_irreflexive(a);
    lemma_seq_lt_total(a, b);
    if seq_lt(a, b) && seq_lt(b, c) {
        lemma_seq_lt_transitive(a, b, c);
    }
}

/// What grouping entries with categories `cats` yields: one group per kept
/// category, holding its entries in input order, sorted by `key_lt`, without
/// folder groups that hold only launchers.
#[verifier::opaque]
pub open spec fn is_grouping(
    paths: Seq<Seq<char>>,
    cats: Seq<Seq<char>>,
    show_files: bool,
    r: Seq<GroupView>,
) -> bool {
    &&& forall|j: int|
        0 <= j < r.len() ==> {
            &&& (#[trigger] r[j]).1 == group_items(paths, cats, show_files, r[j].0, paths.len() as int)
            &&& exists|i: int| 0 <= i < paths.len() && kept(show_files, cats[i]) && cats[i] == r[j].0
            &&& !dropped_group(r[j].0, r[j].1)
        }
    &&& forall|i: int|
        0 <= i < paths.len() && kept(show_files, #[trigger] cats[i]) && !dropped_group(
            cats[i],
            group_items(paths, cats, show_files, cats[i], paths.len() as int),
        ) ==> exists|j: int| 0 <= j < r.len() && (#[trigger] r[j]).0 == cats[i]
    &&& forall|j1: int, j2: int| 0 <= j1 < j2 < r.len() ==> key_lt(r[j1].0, r[j2].0)
}

/// Whether a category is a file-like one (hidden when files are not shown).
pub fn is_file_category(c: &str) -> (r: bool)
    ensures
        r == is_file_kind(c@),
{
    str_eq(c, "文件") || str_eq(c, "图片视频") || str_eq(c, "压缩包") || str_eq(c, "文件夹")
}

/// Position of a category in the box order (8 for unknown categories).
pub fn rank_of(k: &str) -> (r: u32)
    ensures
        r == category_rank(k@),
{
    if str_eq(k, "我的电脑") {
        0
    } else if str_eq(k, "回收站") {
        1
    } else if str_eq(k, "应用") {
        2
    } else if str_eq(k, "文件夹") {
        3
    } else if str_eq(k, "文件") {
        4
    } else if str_eq(k, "图片视频") {
        5
    } else if str_eq(k, "压缩包") {
        6
    } else if str_eq(k, "其他") {
        7
    } else {
        8
    }
}

/// Whether category `a` goes before category `b` in box order.
pub fn key_less(a: &str, b: &str) -> (r: bool)
    ensures
        r == key_lt(a@, b@),
{
    let ra = rank_of(a);
    let rb = rank_of(b);
    ra < rb || (ra == rb && str_less(a, b))
}

/// The entries whose category is `key` (among kept ones), in input order.
pub fn collect_group(paths: &[String], cats: &[String], show_files: bool, key: &str) -> (r: Vec<String>)
    requires
        paths@.len() == cats@.len(),
    ensures
        strings_view(r@) == group_items(strings_view(paths@), strings_view(cats@), show_files, key@, paths@.len() as int),
{
    let ghost ps = strings_view(paths@);
    let ghost cs = strings_view(cats@);
    let mut r: Vec<String> = Vec::new();
    let mut i: usize = 0;
    while i < paths.len()
        invariant
            paths@.len() == cats@.len(),
            ps == strings_view(paths@),
            cs == strings_view(cats@),
            i <= paths@.len(),
            strings_view(r@) == group_items(ps, cs, show_files, key@, i as int),
        decreases paths.len() - i,
    {
        let c = cats[i].as_str();
        assert(cs[i as int] == c@);
        if (show_files || !is_file_category(c)) && str_eq(c, key) {
            let p = paths[i].clone();
            assert(ps[i as int] == p@);
            r.push(p);
            assert(strings_view(r@) =~= group_items(ps, cs, show_files, key@, i as int).push(p@));
        }
        i += 1;
    }
    r
}

/// Whether every entry is a launcher (`.desktop` file).
pub fn all_launchers(items: &Vec<String>) -> (r: bool)
    ensures
        r == forall|i: int| 0 <= i < items@.len() ==> is_launcher_path(#[trigger] strings_view(items@)[i]),
{
    let mut i: usize = 0;
    while i < items.len()
        invariant
            i <= items@.len(),
            forall|k: int| 0 <= k < i ==> is_launcher_path(#[trigger] strings_view(items@)[k]),
        decreases items.len() - i,
    {
        if !ends_with(items[i].as_str(), ".desktop") {
            assert(!is_launcher_path(strings_view(items@)[i as int]));
            return false;
        }
        i += 1;
    }
    true
}

/// Some kept entry among the first `n` has category `k`.
pub open spec fn key_occurs(cats: Seq<Seq<char>>, show_files: bool, k: Seq<char>, n: int) -> bool {
    exists|t: int| 0 <= t < n && kept(show_files, cats[t]) && #[trigger] cats[t] == k
}

/// `k` is one of `keys`.
pub open spec fn key_listed(keys: Seq<Seq<char>>, k: Seq<char>) -> bool {
    exists|a: int| 0 <= a < keys.len() && #[trigger] keys[a] == k
}

/// The keys are strictly increasing in box order.
pub open spec fn keys_sorted(keys: Seq<Seq<char>>) -> bool {
    forall|a: int, b: int| 0 <= a < b < keys.len() ==> key_lt(keys[a], keys[b])
}

/// The distinct kept categories, sorted by box order.
fn sorted_keys(cats: &[String], show_files: bool) -> (keys: Vec<String>)
    ensures
        keys_sorted(strings_view(keys@)),
        forall|a: int|
            0 <= a < keys@.len() ==> key_occurs(
                strings_view(cats@),
                show_files,
                #[trigger] strings_view(keys@)[a],
                cats@.len() as int,
            ),
        forall|t: int|
            0 <= t < cats@.len() && kept(show_files, #[trigger] strings_view(cats@)[t]) ==> key_listed(
                strings_view(keys@),
                strings_view(cats@)[t],
            ),
{
    let ghost cs = strings_view(cats@);
    let mut keys: Vec<String> = Vec::new();
    let mut i: usize = 0;
    while i < cats.len()
        invariant
            cs == strings_view(cats@),
            i <= cats@.len(),
            keys_sorted(strings_view(keys@)),
            forall|a: int|
                0 <= a < keys@.len() ==> key_occurs(cs, show_files, #[trigger] strings_view(keys@)[a], i as int),
            forall|t: int|
                0 <= t < i && kept(show_files, #[trigger] cs[t]) ==> key_listed(strings_view(keys@), cs[t]),
        decreases cats.len() - i,
    {
        let c = cats[i].as_str();
        assert(cs[i as int] == c@);
        let ghost ks = strings_view(keys@);
        if show_files || !is_file_category(c) {
            // find the first key that is not before `c`
            let mut p: usize = 0;
            while p < keys.len() && key_less(keys[p].as_str(), c)
                invariant
                    ks == strings_view(keys@),
                    p <= keys@.len(),
                    forall|a: int| 0 <= a < p ==> key_lt(ks[a], c@),
                decreases keys.len() - p,
            {
                p += 1;
            }
            if p < keys.len() && str_eq(keys[p].as_str(), c) {
                proof {
                    assert(ks[p as int] == c@);
                    assert forall|a: int|
                        0 <= a < keys@.len() implies key_occurs(cs, show_files, #[trigger] ks[a], i + 1) by {
                        let t = choose|t: int| 0 <= t < i && kept(show_files, cs[t]) && #[trigger] cs[t] == ks[a];
                        assert(0 <= t < i + 1 && kept(show_files, cs[t]) && cs[t] == ks[a]);
                    }
                    assert forall|t: int|
                        0 <= t < i + 1 && kept(show_files, #[trigger] cs[t]) implies key_listed(ks, cs[t]) by {
                        if t == i {
                            assert(0 <= p < ks.len() && ks[p as int] == cs[t]);
                        }
                    }
                }
            } else {
                proof {
                    if p < keys@.len() {
                        lemma_key_lt_order(ks[p as int], c@, c@);
                        assert(key_lt(c@, ks[p as int]));
                    }
                    assert forall|a: int| p <= a < ks.len() implies key_lt(c@, ks[a]) by {
                        if a > p {
                            lemma_key_lt_order(c@, ks[p as int], ks[a]);
                        }
                    }
                }
                keys.insert(p, String::from_str(c));
                proof {
                    let nk = strings_view(keys@);
                    assert(nk =~= ks.insert(p as int, c@));
                    assert forall|a: int, b: int| 0 <= a < b < nk.len() implies key_lt(nk[a], nk[b]) by {
                        if a < p && b > p {
                            assert(nk[a] == ks[a]);
                            assert(nk[b] == ks[b - 1]);
                            lemma_key_lt_order(ks[a], c@, ks[b - 1]);
                        } else if a < p && b < p {
                            assert(nk[a] == ks[a]);
                            assert(nk[b] == ks[b]);
                        } else if a > p {
                            assert(nk[a] == ks[a - 1]);
                            assert(nk[b] == ks[b - 1]);
                        } else if a == p {
                            assert(nk[b] == ks[b - 1]);
                        } else {
                            assert(nk[a] == ks[a]);
                        }
                    }
                    assert forall|a: int|
                        0 <= a < nk.len() implies key_occurs(cs, show_files, #[trigger] nk[a], i + 1) by {
                        if a == p {
                            assert(0 <= i < i + 1 && kept(show_files, cs[i as int]) && cs[i as int] == nk[a]);
                        } else {
                            let a0 = if a < p { a } else { a - 1 };
                            assert(nk[a] == ks[a0]);
                            assert(key_occurs(cs, show_files, ks[a0], i as int));
                            let t = choose|t: int| 0 <= t < i && kept(show_files, cs[t]) && #[trigger] cs[t] == ks[a0];
                            assert(0 <= t < i + 1 && kept(show_files, cs[t]) && cs[t] == nk[a]);
                        }
                    }
                    assert forall|t: int|
                        0 <= t < i + 1 && kept(show_files, #[trigger] cs[t]) implies key_listed(nk, cs[t]) by {
                        if t < i {
                            assert(key_listed(ks, cs[t]));
                            let a0 = choose|a0: int| 0 <= a0 < ks.len() && #[trigger] ks[a0] == cs[t];
                            if a0 < p {
                                assert(nk[a0] == ks[a0]);
                            } else {
                                assert(nk[a0 + 1] == ks[a0]);
                            }
                        } else {
                            assert(nk[p as int] == cs[t]);
                        }
                    }
                }
            }
        } else {
            proof {
                assert forall|a: int|
                    0 <= a < keys@.len() implies key_occurs(cs, show_files, #[trigger] ks[a], i + 1) by {
                    let t = choose|t: int| 0 <= t < i && kept(show_files, cs[t]) && #[trigger] cs[t] == ks[a];
                    assert(0 <= t < i + 1 && kept(show_files, cs[t]) && cs[t] == ks[a]);
                }
            }
        }
        i += 1;
    }
    keys
}

/// Groups the entries by their categories `cats[i]`: one group per kept
/// category in box order, each holding its entries in input order; a
/// folder group holding only launchers is left out.
pub fn group_by_category(paths: &[String], cats: &[String], show_files: bool) -> (r: Vec<
    (String, Vec<String>),
>)
    requires
        paths@.len() == cats@.len(),
    ensures
        is_grouping(strings_view(paths@), strings_view(cats@), show_files, groups_view(r@)),
{
    let ghost ps = strings_view(paths@);
    let ghost cs = strings_view(cats@);
    let keys = sorted_keys(cats, show_files);
    let ghost ks = strings_view(keys@);
    let mut r: Vec<(String, Vec<String>)> = Vec::new();
    let ghost mut idx: Seq<int> = seq![];
    let mut a: usize = 0;
    while a < keys.len()
        invariant
            paths@.len() == cats@.len(),
            ps == strings_view(paths@),
            cs == strings_view(cats@),
            ks == strings_view(keys@),
            a <= keys@.len(),
            idx.len() == r@.len(),
            forall|j: int| 0 <= j < idx.len() ==> 0 <= #[trigger] idx[j] < a,
            forall|j1: int, j2: int| 0 <= j1 < j2 < idx.len() ==> idx[j1] < idx[j2],
            forall|j: int|
                0 <= j < r@.len() ==> {
                    &&& (#[trigger] groups_view(r@)[j]).0 == ks[idx[j]]
                    &&& groups_view(r@)[j].1 == group_items(ps, cs, show_files, ks[idx[j]], ps.len() as int)
                    &&& !dropped_group(groups_view(r@)[j].0, groups_view(r@)[j].1)
                },
            forall|x: int|
                0 <= x < a && !dropped_group(
                    #[trigger] ks[x],
                    group_items(ps, cs, show_files, ks[x], ps.len() as int),
                ) ==> exists|j: int| 0 <= j < r@.len() && idx[j] == x,
        decreases keys.len() - a,
    {
        let key = keys[a].as_str();
        assert(ks[a as int] == key@);
        let items = collect_group(paths, cats, show_files, key);
        let drop = is_empty_folder(key) && all_launchers(&items);
        let ghost old_r = groups_view(r@);
        let ghost old_idx = idx;
        if !drop {
            r.push((String::from_str(key), items));
            proof {
                idx = idx.push(a as int);
                let nr = groups_view(r@);
                assert(nr =~= old_r.push((key@, strings_view(items@))));
                assert forall|x: int|
                    0 <= x < a + 1 && !dropped_group(
                        #[trigger] ks[x],
                        group_items(ps, cs, show_files, ks[x], ps.len() as int),
                    ) implies exists|j: int| 0 <= j < r@.len() && idx[j] == x by {
                    if x < a {
                        let j = choose|j: int| 0 <= j < old_idx.len() && old_idx[j] == x;
                        assert(idx[j] == x);
                    } else {
                        assert(idx[old_idx.len() as int] == x);
                    }
                }
            }
        } else {
            proof {
                assert(dropped_group(ks[a as int], strings_view(items@)));
            }
        }
        a += 1;
    }
    proof {
        lemma_grouping_from_keys(ps, cs, show_files, ks, idx, groups_view(r@));
    }
    r
}

/// The groups picked out of the sorted keys form the grouping of the entries.
proof fn lemma_grouping_from_keys(
    ps: Seq<Seq<char>>,
    cs: Seq<Seq<char>>,
    show_files: bool,
    ks: Seq<Seq<char>>,
    idx: Seq<int>,
    rv: Seq<GroupView>,
)
    requires
        ps.len() == cs.len(),
        keys_sorted(ks),
        forall|a: int| 0 <= a < ks.len() ==> key_occurs(cs, show_files, #[trigger] ks[a], cs.len() as int),
        forall|t: int| 0 <= t < cs.len() && kept(show_files, #[trigger] cs[t]) ==> key_listed(ks, cs[t]),
        idx.len() == rv.len(),
        forall|j: int| 0 <= j < idx.len() ==> 0 <= #[trigger] idx[j] < ks.len(),
        forall|j1: int, j2: int| 0 <= j1 < j2 < idx.len() ==> idx[j1] < idx[j2],
        forall|j: int|
            0 <= j < rv.len() ==> {
                &&& (#[trigger] rv[j]).0 == ks[idx[j]]
                &&& rv[j].1 == group_items(ps, cs, show_files, ks[idx[j]], ps.len() as int)
                &&& !dropped_group(rv[j].0, rv[j].1)
            },
        forall|x: int|
            0 <= x < ks.len() && !dropped_group(
                #[trigger] ks[x],
                group_items(ps, cs, show_files, ks[x], ps.len() as int),
            ) ==> exists|j: int| 0 <= j < rv.len() && idx[j] == x,
    ensures
        is_grouping(ps, cs, show_files, rv),
{
    reveal(is_grouping);
    assert forall|j: int| 0 <= j < rv.len() implies {
        &&& (#[trigger] rv[j]).1 == group_items(ps, cs, show_files, rv[j].0, ps.len() as int)
        &&& exists|i: int| 0 <= i < ps.len() && kept(show_files, cs[i]) && cs[i] == rv[j].0
        &&& !dropped_group(rv[j].0, rv[j].1)
    } by {
        let x = idx[j];
        assert(key_occurs(cs, show_files, ks[x], cs.len() as int));
        let t = choose|t: int| 0 <= t < cs.len() && kept(show_files, cs[t]) && #[trigger] cs[t] == ks[x];
        assert(0 <= t < ps.len() && kept(show_files, cs[t]) && cs[t] == rv[j].0);
    }
    assert forall|i: int|
        0 <= i < ps.len() && kept(show_files, #[trigger] cs[i]) && !dropped_group(
            cs[i],
            group_items(ps, cs, show_files, cs[i], ps.len() as int),
        ) implies exists|j: int| 0 <= j < rv.len() && (#[trigger] rv[j]).0 == cs[i] by {
        assert(key_listed(ks, cs[i]));
        let x = choose|x: int| 0 <= x < ks.len() && #[trigger] ks[x] == cs[i];
        assert(!dropped_group(ks[x], group_items(ps, cs, show_files, ks[x], ps.len() as int)));
        let j = choose|j: int| 0 <= j < rv.len() && idx[j] == x;
        assert(rv[j].0 == cs[i]);
    }
    assert forall|j1: int, j2: int| 0 <= j1 < j2 < rv.len() implies key_lt(rv[j1].0, rv[j2].0) by {
        assert(rv[j1].0 == ks[idx[j1]]);
        assert(rv[j2].0 == ks[idx[j2]]);
    }
}

/// `category` is a possible result of calling `classify` on a string with
/// the characters `path`.
pub open spec fn classified<F: Fn(&str) -> String>(classify: F, path: Seq<char>, category: String) -> bool {
    exists|s: &str| s@ == path && #[trigger] call_ensures(classify, (s,), category)
}

/// Groups the paths by the category `classify` gives each: one group per
/// kept category in box order (`我的电脑`, `回收站`, `应用`, `文件夹`, `文件`,
/// `图片视频`, `压缩包`, `其他`, then unknown categories in code point order),
/// each holding its paths in input order. With `show_files == false` the
/// file-like categories are skipped; a folder group that holds only
/// launchers is left out.
pub fn build_groups<F: Fn(&str) -> String>(paths: &[String], show_files: bool, classify: F) -> (r: Vec<
    (String, Vec<String>),
>)
    requires
        forall|s: &str| call_requires(classify, (s,)),
    ensures
        exists|cats: Seq<String>|
            {
                &&& cats.len() == paths@.len()
                &&& forall|i: int| 0 <= i < cats.len() ==> classified(classify, paths@[i]@, #[trigger] cats[i])
                &&& is_grouping(strings_view(paths@), strings_view(cats), show_files, groups_view(r@))
            },
{
    let mut cats: Vec<String> = Vec::new();
    let mut i: usize = 0;
    while i < paths.len()
        invariant
            i <= paths@.len(),
            cats@.len() == i,
            forall|s: &str| call_requires(classify, (s,)),
            forall|j: int| 0 <= j < i ==> classified(classify, paths@[j]@, #[trigger] cats@[j]),
        decreases paths.len() - i,
    {
        let s = paths[i].as_str();
        let c = classify(s);
        assert(call_ensures(classify, (s,), c));
        assert(classified(classify, paths@[i as int]@, c));
        cats.push(c);
        i += 1;
    }
    let cs = cats.as_slice();
    assert(cs@ == cats@);
    group_by_category(paths, cs, show_files)
}

/// The plan of one category box.
#[derive(Clone, Debug, PartialEq, Eq)]
pub struct CategoryPlan {
    pub title: String,
    pub x: i32,
    pub y: i32,
    pub w: i32,
    pub h: i32,
    pub icons: Vec<String>,
}

/// The complete layout of one organize run.
#[derive(Clone, Debug, Default, PartialEq, Eq)]
pub struct OrganizePlan {
    pub boxes: Vec<CategoryPlan>,
}

/// A box plan as plain values: title, x, y, width, height, icons.
pub type BoxView = (Seq<char>, int, int, int, int, Seq<Seq<char>>);

/// The layout cursor: next x, row y, height of the box placed last,
/// whether a box has been placed yet, and the boxes placed so far.
pub type PlanState = (int, int, int, bool, Seq<BoxView>);

/// A box plan as plain values.
pub open spec fn box_view(b: CategoryPlan) -> BoxView {
    (b.title@, b.x as int, b.y as int, b.w as int, b.h as int, strings_view(b.icons@))
}

/// The box plans as plain values.
pub open spec fn boxes_view(v: Seq<CategoryPlan>) -> Seq<BoxView> {
    v.map_values(|b: CategoryPlan| box_view(b))
}

/// Icons per box row when organizing: the desktop width less 80 pixels of
/// margins, in cells, and never fewer than two.
pub open spec fn organize_max_per_row_of(desktop_w: int, icon_size: int, gap: int) -> int {
    max_int(trunc_div(desktop_w - 80, cell_of(icon_size, gap)), 2)
}

/// Requirements of `organize_max_per_row` that keep it inside `i32`.
pub open spec fn organize_mpr_fits(desktop_w: int, icon_size: int, gap: int) -> bool {
    &&& fits(desktop_w - 80)
    &&& fits(icon_total_of(icon_size))
    &&& fits(cell_of(icon_size, gap))
    &&& cell_of(icon_size, gap) != 0
    &&& fits(trunc_div(desktop_w - 80, cell_of(icon_size, gap)))
}

/// The cursor before any box is placed.
pub open spec fn plan_start() -> PlanState {
    (DESKTOP_MARGIN_X as int, DESKTOP_MARGIN_Y as int, 0, false, seq![])
}

/// Places the box of one group: an empty group gets no box. A box starts a
/// new row, at the left margin below the box placed before it, when the
/// box before it holds more icons than fit in one of its rows (such a box
/// ends its row) or when it would cross the right edge of the desktop.
pub open spec fn plan_step(
    st: PlanState,
    g: GroupView,
    mpr: int,
    desktop_w: int,
    icon_size: int,
    gap: int,
    title_h: int,
    padding: int,
) -> PlanState {
    if g.1.len() == 0 {
        st
    } else {
        let n = g.1.len() as int;
        let w = box_width_of(n, mpr, icon_size, gap, padding);
        let h = box_height_of(n, mpr, icon_size, title_h, padding);
        let wrap = st.3 && (st.4.last().5.len() > mpr || st.0 + w > desktop_w);
        let bx = if wrap { DESKTOP_MARGIN_X as int } else { st.0 };
        let by = if wrap { st.1 + st.2 + BOX_GAP_Y } else { st.1 };
        (bx + w + BOX_GAP_X, by, h, true, st.4.push((g.0, bx, by, w, h, g.1)))
    }
}

/// The cursor after placing the first `k` groups.
pub open spec fn plan_state(
    groups: Seq<GroupView>,
    k: int,
    desktop_w: int,
    icon_size: int,
    gap: int,
    title_h: int,
    padding: int,
) -> PlanState
    decreases k,
{
    if k <= 0 {
        plan_start()
    } else {
        plan_step(
            plan_state(groups, k - 1, desktop_w, icon_size, gap, title_h, padding),
            groups[k - 1],
            organize_max_per_row_of(desktop_w, icon_size, gap),
            desktop_w,
            icon_size,
            gap,
            title_h,
            padding,
        )
    }
}

/// The boxes of the organize layout of `groups`.
pub open spec fn plan_boxes(
    groups: Seq<GroupView>,
    desktop_w: int,
    icon_size: int,
    gap: int,
    title_h: int,
    padding: int,
) -> Seq<BoxView> {
    plan_state(groups, groups.len() as int, desktop_w, icon_size, gap, title_h, padding).4
}

/// Requirements of `plan_organize`: the icons-per-row computation and every
/// coordinate and size of the resulting boxes stay inside `i32`.
pub open spec fn plan_fits(
    groups: Seq<GroupView>,
    desktop_w: int,
    icon_size: int,
    gap: int,
    title_h: int,
    padding: int,
) -> bool {
    let mpr = organize_max_per_row_of(desktop_w, icon_size, gap);
    let boxes = plan_boxes(groups, desktop_w, icon_size, gap, title_h, padding);
    &&& organize_mpr_fits(desktop_w, icon_size, gap)
    &&& fits(padding * 2)
    &&& forall|i: int| 0 <= i < groups.len() ==> (#[trigger] groups[i]).1.len() + mpr - 1 <= i32::MAX
    &&& forall|j: int|
        0 <= j < boxes.len() ==> fits((#[trigger] boxes[j]).1) && fits(boxes[j].2) && fits(
            boxes[j].3,
        ) && fits(boxes[j].4)
}

/// Icons per box row when organizing (at least two).
pub fn organize_max_per_row(desktop_w: i32, icon_size: i32, gap: i32) -> (r: i32)
    requires
        organize_mpr_fits(desktop_w as int, icon_size as int, gap as int),
    ensures
        r == organize_max_per_row_of(desktop_w as int, icon_size as int, gap as int),
        r >= 2,
{
    let q = div_trunc(desktop_w - 80, cell(icon_size, gap));
    if q >= 2 {
        q
    } else {
        2
    }
}

/// The boxes placed after `k` groups are a prefix of those placed after `m`.
pub proof fn lemma_plan_prefix(
    groups: Seq<GroupView>,
    k: int,
    m: int,
    desktop_w: int,
    icon_size: int,
    gap: int,
    title_h: int,
    padding: int,
)
    requires
        0 <= k <= m <= groups.len(),
    ensures
        plan_state(groups, k, desktop_w, icon_size, gap, title_h, padding).4.len() <= plan_state(
            groups,
            m,
            desktop_w,
            icon_size,
            gap,
            title_h,
            padding,
        ).4.len(),
        forall|j: int|
            0 <= j < plan_state(groups, k, desktop_w, icon_size, gap, title_h, padding).4.len()
                ==> #[trigger] plan_state(groups, k, desktop_w, icon_size, gap, title_h, padding).4[j]
                == plan_state(groups, m, desktop_w, icon_size, gap, title_h, padding).4[j],
    decreases m - k,
{
    if k < m {
        lemma_plan_prefix(groups, k, m - 1, desktop_w, icon_size, gap, title_h, padding);
    }
}

/// Shape of the cursor: once a box is placed, the cursor sits right of
/// the last box, on its row, and remembers the last box's height.
pub proof fn lemma_plan_cursor(
    groups: Seq<GroupView>,
    k: int,
    desktop_w: int,
    icon_size: int,
    gap: int,
    title_h: int,
    padding: int,
)
    requires
        0 <= k <= groups.len(),
    ensures
        ({
            let st = plan_state(groups, k, desktop_w, icon_size, gap, title_h, padding);
            if st.3 {
                &&& st.4.len() > 0
                &&& st.0 == st.4.last().1 + st.4.last().3 + BOX_GAP_X
                &&& st.1 == st.4.last().2
                &&& st.2 == st.4.last().4
            } else {
                st == plan_start()
            }
        }),
    decreases k,
{
    if k > 0 {
        lemma_plan_cursor(groups, k - 1, desktop_w, icon_size, gap, title_h, padding);
    }
}

/// A copy of the strings.
pub fn clone_strings(v: &Vec<String>) -> (r: Vec<String>)
    ensures
        r@ == v@,
{
    let mut r: Vec<String> = Vec::new();
    let mut i: usize = 0;
    while i < v.len()
        invariant
            i <= v@.len(),
            r@ == v@.take(i as int),
        decreases v.len() - i,
    {
        r.push(v[i].clone());
        assert(r@ =~= v@.take(i + 1));
        i += 1;
    }
    assert(v@.take(v@.len() as int) =~= v@);
    r
}

/// Lays the (already sorted) groups out as boxes, one per non-empty group,
/// from left to right starting at the desktop margins. A box starts a new
/// row, below the box before it, when that box holds more than one row of
/// icons or when it would itself cross the right edge of the desktop. Each
/// box is sized for its icons with the organize icons-per-row limit.
pub fn plan_organize(
    groups: &[(String, Vec<String>)],
    desktop_w: i32,
    icon_size: i32,
    gap: i32,
    title_h: i32,
    padding: i32,
) -> (r: OrganizePlan)
    requires
        plan_fits(
            groups_view(groups@),
            desktop_w as int,
            icon_size as int,
            gap as int,
            title_h as int,
            padding as int,
        ),
    ensures
        boxes_view(r.boxes@) == plan_boxes(
            groups_view(groups@),
            desktop_w as int,
            icon_size as int,
            gap as int,
            title_h as int,
            padding as int,
        ),
{
    let ghost gv = groups_view(groups@);
    let ghost (dw, isz, gp, th, pd) = (desktop_w as int, icon_size as int, gap as int, title_h as int, padding as int);
    let mpr = organize_max_per_row(desktop_w, icon_size, gap);
    let c: i64 = cell(icon_size, gap) as i64;
    let row_h: i64 = icon_size as i64 + 16 + 30;
    let mut plans: Vec<CategoryPlan> = Vec::new();
    let mut x: i64 = DESKTOP_MARGIN_X as i64;
    let mut y: i64 = DESKTOP_MARGIN_Y as i64;
    let mut prev_h: i64 = 0;
    let mut prev_multi = false;
    let mut started = false;
    let mut i: usize = 0;
    while i < groups.len()
        invariant
            gv == groups_view(groups@),
            plan_fits(gv, dw, isz, gp, th, pd),
            dw == desktop_w, isz == icon_size, gp == gap, th == title_h, pd == padding,
            mpr == organize_max_per_row_of(dw, isz, gp),
            mpr >= 2,
            c == cell_of(isz, gp),
            row_h == icon_size + 16 + 30,
            i <= groups@.len(),
            (x as int, y as int, prev_h as int, started, boxes_view(plans@)) == plan_state(gv, i as int, dw, isz, gp, th, pd),
            started ==> prev_multi == (plan_state(gv, i as int, dw, isz, gp, th, pd).4.last().5.len() > mpr),
        decreases groups.len() - i,
    {
        let ghost st = plan_state(gv, i as int, dw, isz, gp, th, pd);
        proof {
            lemma_plan_cursor(gv, i as int, dw, isz, gp, th, pd);
            lemma_plan_prefix(gv, i as int, gv.len() as int, dw, isz, gp, th, pd);
            if started {
                let last = st.4.len() - 1;
                assert(st.4[last] == st.4.last());
                let fin = plan_boxes(gv, dw, isz, gp, th, pd);
                assert(fin[last] == st.4[last]);
            }
        }
        let title = &groups[i].0;
        let items = &groups[i].1;
        assert(gv[i as int] == (title@, strings_view(items@)));
        if items.len() > 0 {
            let n: i64 = items.len() as i64;
            assert(n + mpr - 1 <= i32::MAX);
            let cols: i64 = if n <= mpr as i64 {
                n
            } else {
                mpr as i64
            };
            let rows: i64 = (n + mpr as i64 - 1) / (mpr as i64);
            proof {
                assert(1 <= rows <= n) by (nonlinear_arith)
                    requires
                        rows == (n + mpr - 1) / (mpr as int),
                        1 <= n <= 0x7fff_ffff,
                        mpr >= 2,
                ;
                assert(-0x8000_0000 * 0x7fff_ffff <= cols * c <= 0x7fff_ffff * 0x7fff_ffff) by (nonlinear_arith)
                    requires
                        1 <= cols <= 0x7fff_ffff,
                        -0x8000_0000 <= c <= 0x7fff_ffff,
                ;
                assert(-0x8000_0000 * 0x8000_002e <= rows * row_h <= 0x7fff_ffff * 0x8000_002e) by (nonlinear_arith)
                    requires
                        1 <= rows <= 0x7fff_ffff,
                        -0x8000_0000 + 46 <= row_h <= 0x7fff_ffff + 46,
                ;
            }
            let w: i64 = cols * c + 2 * (padding as i64);
            let h: i64 = (title_h as i64) + 2 * (padding as i64) + rows * row_h + 4;
            assert(w == box_width_of(n as int, mpr as int, isz, gp, pd));
            assert(h == box_height_of(n as int, mpr as int, isz, th, pd));
            let wrap = started && (prev_multi || x + w > desktop_w as i64);
            if wrap {
                x = DESKTOP_MARGIN_X as i64;
                y = y + prev_h + BOX_GAP_Y as i64;
            }
            prev_h = h;
            let ghost nst = plan_state(gv, i + 1, dw, isz, gp, th, pd);
            proof {
                let fin = plan_boxes(gv, dw, isz, gp, th, pd);
                lemma_plan_prefix(gv, i + 1, gv.len() as int, dw, isz, gp, th, pd);
                let k = st.4.len() as int;
                assert(nst.4[k] == fin[k]);
                assert(fin[k] == (title@, x as int, y as int, w as int, h as int, strings_view(items@)));
            }
            let plan = CategoryPlan {
                title: title.clone(),
                x: x as i32,
                y: y as i32,
                w: w as i32,
                h: h as i32,
                icons: clone_strings(items),
            };
            plans.push(plan);
            assert(boxes_view(plans@) =~= nst.4);
            x = x + w + BOX_GAP_X as i64;
            started = true;
            prev_multi = n > mpr as i64;
        }
        i += 1;
    }
    OrganizePlan { boxes: plans }
}

/// The non-empty groups among the first `k`, in order.
pub open spec fn nonempty_groups(groups: Seq<GroupView>, k: int) -> Seq<GroupView>
    decreases k,
{
    if k <= 0 {
        seq![]
    } else if groups[k - 1].1.len() > 0 {
        nonempty_groups(groups, k - 1).push(groups[k - 1])
    } else {
        nonempty_groups(groups, k - 1)
    }
}

/// Law: organizing keeps every icon. The boxes are exactly the non-empty
/// groups, in order, each titled by its category and holding its icons in
/// order; each box is sized for its icon count.
pub proof fn lemma_plan_keeps_groups(
    groups: Seq<GroupView>,
    desktop_w: int,
    icon_size: int,
    gap: int,
    title_h: int,
    padding: int,
)
    ensures
        ({
            let boxes = plan_boxes(groups, desktop_w, icon_size, gap, title_h, padding);
            let ne = nonempty_groups(groups, groups.len() as int);
            let mpr = organize_max_per_row_of(desktop_w, icon_size, gap);
            &&& boxes.len() == ne.len()
            &&& forall|j: int|
                0 <= j < boxes.len() ==> {
                    &&& (#[trigger] boxes[j]).0 == ne[j].0
                    &&& boxes[j].5 == ne[j].1
                    &&& boxes[j].3 == box_width_of(ne[j].1.len() as int, mpr, icon_size, gap, padding)
                    &&& boxes[j].4 == box_height_of(ne[j].1.len() as int, mpr, icon_size, title_h, padding)
                }
        }),
{
    lemma_plan_keeps_groups_upto(groups, groups.len() as int, desktop_w, icon_size, gap, title_h, padding);
}

proof fn lemma_plan_keeps_groups_upto(
    groups: Seq<GroupView>,
    k: int,
    desktop_w: int,
    icon_size: int,
    gap: int,
    title_h: int,
    padding: int,
)
    requires
        0 <= k <= groups.len(),
    ensures
        ({
            let boxes = plan_state(groups, k, desktop_w, icon_size, gap, title_h, padding).4;
            let ne = nonempty_groups(groups, k);
            let mpr = organize_max_per_row_of(desktop_w, icon_size, gap);
            &&& boxes.len() == ne.len()
            &&& forall|j: int|
                0 <= j < boxes.len() ==> {
                    &&& (#[trigger] boxes[j]).0 == ne[j].0
                    &&& boxes[j].5 == ne[j].1
                    &&& boxes[j].3 == box_width_of(ne[j].1.len() as int, mpr, icon_size, gap, padding)
                    &&& boxes[j].4 == box_height_of(ne[j].1.len() as int, mpr, icon_size, title_h, padding)
                }
        }),
    decreases k,
{
    if k > 0 {
        lemma_plan_keeps_groups_upto(groups, k - 1, desktop_w, icon_size, gap, title_h, padding);
    }
}

/// The boxes follow each other row by row (see `lemma_plan_rows`).
pub open spec fn rows_in_order(b: Seq<BoxView>, mpr: int) -> bool {
    &&& b.len() > 0 ==> b[0].1 == DESKTOP_MARGIN_X && b[0].2 == DESKTOP_MARGIN_Y
    &&& forall|i: int|
        0 < i < b.len() ==> {
            ||| (#[trigger] b[i]).2 == b[i - 1].2 && b[i].1 == b[i - 1].1 + b[i - 1].3 + BOX_GAP_X
                && b[i - 1].5.len() <= mpr
            ||| b[i].1 == DESKTOP_MARGIN_X && b[i].2 == b[i - 1].2 + b[i - 1].4 + BOX_GAP_Y
        }
}

/// Law: the organize boxes are laid out row by row. The first box sits at
/// the desktop margins; every further box sits either on the same row as
/// the box before it, right of it with a gap of `BOX_GAP_X`, or at the left
/// margin of a new row, `BOX_GAP_Y` below the box before it. A box holding
/// more than one row of icons always ends its row.
pub proof fn lemma_plan_rows(
    groups: Seq<GroupView>,
    desktop_w: int,
    icon_size: int,
    gap: int,
    title_h: int,
    padding: int,
)
    ensures
        rows_in_order(
            plan_boxes(groups, desktop_w, icon_size, gap, title_h, padding),
            organize_max_per_row_of(desktop_w, icon_size, gap),
        ),
{
    lemma_plan_rows_upto(groups, groups.len() as int, desktop_w, icon_size, gap, title_h, padding);
}

proof fn lemma_plan_rows_upto(
    groups: Seq<GroupView>,
    k: int,
    desktop_w: int,
    icon_size: int,
    gap: int,
    title_h: int,
    padding: int,
)
    requires
        0 <= k <= groups.len(),
    ensures
        rows_in_order(
            plan_state(groups, k, desktop_w, icon_size, gap, title_h, padding).4,
            organize_max_per_row_of(desktop_w, icon_size, gap),
        ),
    decreases k,
{
    if k > 0 {
        lemma_plan_rows_upto(groups, k - 1, desktop_w, icon_size, gap, title_h, padding);
        lemma_plan_cursor(groups, k - 1, desktop_w, icon_size, gap, title_h, padding);
        let st = plan_state(groups, k - 1, desktop_w, icon_size, gap, title_h, padding);
        let nst = plan_state(groups, k, desktop_w, icon_size, gap, title_h, padding);
        let mpr = organize_max_per_row_of(desktop_w, icon_size, gap);
        if groups[k - 1].1.len() > 0 {
            let b = nst.4;
            let m = st.4.len() as int;
            assert(b.len() == m + 1);
            if m > 0 {
                assert(b[0] == st.4[0]);
                assert(st.4[m - 1] == st.4.last());
                assert(b[m - 1] == st.4[m - 1]);
            }
            assert forall|i: int| 0 < i < b.len() implies {
                ||| (#[trigger] b[i]).2 == b[i - 1].2 && b[i].1 == b[i - 1].1 + b[i - 1].3 + BOX_GAP_X
                    && b[i - 1].5.len() <= mpr
                ||| b[i].1 == DESKTOP_MARGIN_X && b[i].2 == b[i - 1].2 + b[i - 1].4 + BOX_GAP_Y
            } by {
                if i < m {
                    assert(b[i] == st.4[i]);
                    assert(b[i - 1] == st.4[i - 1]);
                    assert(st.4[i] == st.4[i]);
                }
            }
        }
    }
}

/// Law: a box starts a new row only when it must. When the box before it
/// holds at most one row of icons and the new box fits after it on the
/// desktop (previous x + previous width + 16 + width <= desktop width), the
/// box sits on the same row, 16 pixels right of it; otherwise it starts a
/// new row at x = 20, 20 pixels below the box before it.
pub proof fn lemma_plan_wraps_only_when_needed(
    groups: Seq<GroupView>,
    desktop_w: int,
    icon_size: int,
    gap: int,
    title_h: int,
    padding: int,
)
    ensures
        ({
            let b = plan_boxes(groups, desktop_w, icon_size, gap, title_h, padding);
            let mpr = organize_max_per_row_of(desktop_w, icon_size, gap);
            forall|i: int|
                0 < i < b.len() ==> if b[i - 1].5.len() <= mpr && b[i - 1].1 + b[i - 1].3 + 16 + (#[trigger] b[i]).3
                    <= desktop_w {
                    b[i].1 == b[i - 1].1 + b[i - 1].3 + 16 && b[i].2 == b[i - 1].2
                } else {
                    b[i].1 == 20 && b[i].2 == b[i - 1].2 + b[i - 1].4 + 20
                }
        }),
{
    lemma_plan_wraps_upto(groups, groups.len() as int, desktop_w, icon_size, gap, title_h, padding);
}

proof fn lemma_plan_wraps_upto(
    groups: Seq<GroupView>,
    k: int,
    desktop_w: int,
    icon_size: int,
    gap: int,
    title_h: int,
    padding: int,
)
    requires
        0 <= k <= groups.len(),
    ensures
        ({
            let b = plan_state(groups, k, desktop_w, icon_size, gap, title_h, padding).4;
            let mpr = organize_max_per_row_of(desktop_w, icon_size, gap);
            forall|i: int|
                0 < i < b.len() ==> if b[i - 1].5.len() <= mpr && b[i - 1].1 + b[i - 1].3 + 16 + (#[trigger] b[i]).3
                    <= desktop_w {
                    b[i].1 == b[i - 1].1 + b[i - 1].3 + 16 && b[i].2 == b[i - 1].2
                } else {
                    b[i].1 == 20 && b[i].2 == b[i - 1].2 + b[i - 1].4 + 20
                }
        }),
    decreases k,
{
    if k > 0 {
        lemma_plan_wraps_upto(groups, k - 1, desktop_w, icon_size, gap, title_h, padding);
        lemma_plan_cursor(groups, k - 1, desktop_w, icon_size, gap, title_h, padding);
        let st = plan_state(groups, k - 1, desktop_w, icon_size, gap, title_h, padding);
        let nst = plan_state(groups, k, desktop_w, icon_size, gap, title_h, padding);
        let mpr = organize_max_per_row_of(desktop_w, icon_size, gap);
        if groups[k - 1].1.len() > 0 {
            let b = nst.4;
            let m = st.4.len() as int;
            assert(b.len() == m + 1);
            if m > 0 {
                assert(st.4[m - 1] == st.4.last());
                assert(b[m - 1] == st.4[m - 1]);
            }
            assert forall|i: int| 0 < i < b.len() implies if b[i - 1].5.len() <= mpr && b[i - 1].1 + b[i - 1].3 + 16
                + (#[trigger] b[i]).3 <= desktop_w {
                b[i].1 == b[i - 1].1 + b[i - 1].3 + 16 && b[i].2 == b[i - 1].2
            } else {
                b[i].1 == 20 && b[i].2 == b[i - 1].2 + b[i - 1].4 + 20
            } by {
                if i < m {
                    assert(b[i] == st.4[i]);
                    assert(b[i - 1] == st.4[i - 1]);
                    assert(st.4[i] == st.4[i]);
                }
            }
        }
    }
}

/// Law: the icons per box row when organizing is the largest number of
/// cells that fits in the desktop width less 80 pixels, but never fewer
/// than two: for a positive cell, either it is 2 or that many cells fit,
/// and one more cell never fits.
pub proof fn lemma_organize_max_per_row_fits(desktop_w: int, icon_size: int, gap: int)
    requires
        icon_size + 16 + gap > 0,
    ensures
        ({
            let mpr = organize_max_per_row_of(desktop_w, icon_size, gap);
            let c = icon_size + 16 + gap;
            &&& mpr >= 2
            &&& mpr == 2 || mpr * c <= desktop_w - 80
            &&& (mpr + 1) * c > desktop_w - 80
        }),
{
    let c = icon_size + 16 + gap;
    let a = desktop_w - 80;
    if a >= 0 {
        let q = a / c;
        vstd::arithmetic::div_mod::lemma_fundamental_div_mod(a, c);
        assert(trunc_div(a, c) == q);
        assert(q * c <= a && (q + 1) * c > a) by (nonlinear_arith)
            requires
                a == c * q + a % c,
                0 <= a % c < c,
        ;
        if q < 2 {
            assert(3 * c > a) by (nonlinear_arith)
                requires
                    (q + 1) * c > a,
                    q < 2,
                    c > 0,
            ;
        }
    } else {
        assert(trunc_div(a, c) <= 0) by (nonlinear_arith)
            requires
                a < 0,
                c > 0,
                trunc_div(a, c) == -(abs_int(a) / abs_int(c)),
                abs_int(a) > 0,
                abs_int(c) == c,
        ;
    }
}

/// Law: the known categories are ranked by their place in the box order
/// 我的电脑, 回收站, 应用, 文件夹, 文件, 图片视频, 压缩包, 其他; every other
/// category comes after all of them.
pub proof fn lemma_category_order_ranks()
    ensures
        ({
            let order = seq!["我的电脑"@, "回收站"@, "应用"@, "文件夹"@, "文件"@, "图片视频"@, "压缩包"@, "其他"@];
            &&& forall|i: int| 0 <= i < 8 ==> category_rank(#[trigger] order[i]) == i
            &&& forall|k: Seq<char>| !order.contains(k) ==> category_rank(k) == 8
        }),
{
    let order = seq!["我的电脑"@, "回收站"@, "应用"@, "文件夹"@, "文件"@, "图片视频"@, "压缩包"@, "其他"@];
    reveal_strlit("我的电脑");
    reveal_strlit("回收站");
    reveal_strlit("应用");
    reveal_strlit("文件夹");
    reveal_strlit("文件");
    reveal_strlit("图片视频");
    reveal_strlit("压缩包");
    reveal_strlit("其他");
    assert forall|i: int| 0 <= i < 8 implies category_rank(#[trigger] order[i]) == i by {
        assert(order[0] != order[1] && order[0] != order[2] && order[0] != order[3]) by {
            assert(order[0].len() != order[1].len() && order[0].len() != order[2].len() && order[0].len() != order[3].len());
        }
        assert(order[1][0] != order[2][0] && order[1][0] != order[3][0] && order[2][0] != order[3][0]);
        assert(order[4] != order[0] && order[4] != order[1] && order[4] != order[2] && order[4] != order[3]) by {
            assert(order[4].len() == 2 && order[0].len() == 4 && order[1].len() == 3 && order[3].len() == 3);
            assert(order[4][0] != order[2][0]);
        }
        assert(order[5] != order[0] && order[5] != order[1] && order[5] != order[2] && order[5] != order[3] && order[5] != order[4]) by {
            assert(order[5][0] != order[0][0] && order[5].len() == 4);
        }
        assert(order[6] != order[0] && order[6] != order[1] && order[6] != order[2] && order[6] != order[3] && order[6] != order[4] && order[6] != order[5]) by {
            assert(order[6].len() == 3 && order[6][0] != order[1][0] && order[6][0] != order[3][0]);
        }
        assert(order[7] != order[0] && order[7] != order[1] && order[7] != order[2] && order[7] != order[3] && order[7] != order[4] && order[7] != order[5] && order[7] != order[6]) by {
            assert(order[7].len() == 2 && order[7][0] != order[2][0] && order[7][0] != order[4][0]);
        }
    }
    assert forall|k: Seq<char>| !order.contains(k) implies category_rank(k) == 8 by {
        if k == order[0] || k == order[1] || k == order[2] || k == order[3] || k == order[4] || k == order[5] || k == order[6] || k == order[7] {
            let i = if k == order[0] { 0int } else if k == order[1] { 1int } else if k == order[2] { 2int } else if k == order[3] { 3int }
                else if k == order[4] { 4int } else if k == order[5] { 5int } else if k == order[6] { 6int } else { 7int };
            assert(order[i] == k);
        }
    }
}

/// Groups of a grouping are in strictly increasing box order.
proof fn lemma_grouping_sorted(
    paths: Seq<Seq<char>>,
    cats: Seq<Seq<char>>,
    show_files: bool,
    r: Seq<GroupView>,
    j1: int,
    j2: int,
)
    requires
        is_grouping(paths, cats, show_files, r),
        0 <= j1 < j2 < r.len(),
    ensures
        key_lt(r[j1].0, r[j2].0),
{
    reveal(is_grouping);
}

/// Law: grouping lays the groups out in box order: of two known categories
/// the one earlier in 我的电脑, 回收站, 应用, 文件夹, 文件, 图片视频, 压缩包,
/// 其他 comes first, and every unknown category comes after every known one.
pub proof fn lemma_grouping_in_box_order(
    paths: Seq<Seq<char>>,
    cats: Seq<Seq<char>>,
    show_files: bool,
    r: Seq<GroupView>,
)
    requires
        is_grouping(paths, cats, show_files, r),
    ensures
        ({
            let order = seq!["我的电脑"@, "回收站"@, "应用"@, "文件夹"@, "文件"@, "图片视频"@, "压缩包"@, "其他"@];
            &&& forall|j1: int, j2: int, a: int, b: int|
                #![trigger r[j1], r[j2], order[a], order[b]]
                0 <= j1 < j2 < r.len() && 0 <= a < 8 && 0 <= b < 8 && r[j1].0 == order[a]
                    && r[j2].0 == order[b] ==> a < b
            &&& forall|j1: int, j2: int|
                0 <= j1 < j2 < r.len() && !order.contains(#[trigger] r[j1].0) ==> !order.contains(#[trigger] r[j2].0)
        }),
{
    lemma_category_order_ranks();
    let order = seq!["我的电脑"@, "回收站"@, "应用"@, "文件夹"@, "文件"@, "图片视频"@, "压缩包"@, "其他"@];
    assert forall|j1: int, j2: int, a: int, b: int|
        #![trigger r[j1], r[j2], order[a], order[b]]
        0 <= j1 < j2 < r.len() && 0 <= a < 8 && 0 <= b < 8 && r[j1].0 == order[a] && r[j2].0 == order[b]
        implies a < b by {
        lemma_grouping_sorted(paths, cats, show_files, r, j1, j2);
        assert(category_rank(order[a]) == a);
        assert(category_rank(order[b]) == b);
        if a == b {
            lemma_key_lt_order(r[j1].0, r[j2].0, r[j2].0);
        }
    }
    assert forall|j1: int, j2: int|
        0 <= j1 < j2 < r.len() && !order.contains(#[trigger] r[j1].0) implies !order.contains(#[trigger] r[j2].0) by {
        lemma_grouping_sorted(paths, cats, show_files, r, j1, j2);
        assert(category_rank(r[j1].0) == 8);
        if order.contains(r[j2].0) {
            let b = choose|b: int| 0 <= b < order.len() && order[b] == r[j2].0;
            assert(category_rank(order[b]) == b);
        }
    }
}

/// Two boxes are apart: a strict gap separates them horizontally or
/// vertically.
pub open spec fn boxes_apart(a: BoxView, b: BoxView) -> bool {
    a.1 + a.3 < b.1 || b.1 + b.3 < a.1 || a.2 + a.4 < b.2 || b.2 + b.4 < a.2
}

/// Every box is inside the desktop's right edge, unless it is the first of
/// its row (a box wider than the desktop still gets a row of its own).
pub open spec fn boxes_within_width(boxes: Seq<BoxView>, desktop_w: int) -> bool {
    forall|j: int|
        0 <= j < boxes.len() ==> (#[trigger] boxes[j]).1 == DESKTOP_MARGIN_X || boxes[j].1 + boxes[j].3
            <= desktop_w
}

/// Sizes are not negative: cells, padding and title bar.
pub open spec fn sizes_nonnegative(icon_size: int, gap: int, title_h: int, padding: int) -> bool {
    &&& cell_of(icon_size, gap) >= 0
    &&& icon_size + 46 >= 0
    &&& title_h >= 0
    &&& padding >= 0
}

/// What holds of the boxes placed so far, relative to the cursor.
pub open spec fn plan_invariant(st: PlanState, desktop_w: int) -> bool {
    &&& forall|a: int, b: int| 0 <= a < b < st.4.len() ==> boxes_apart(st.4[a], st.4[b])
    &&& boxes_within_width(st.4, desktop_w)
    &&& st.2 >= 0
    &&& forall|j: int|
        0 <= j < st.4.len() ==> ((#[trigger] st.4[j]).2 == st.1 && st.4[j].4 <= st.2 && st.4[j].1
            + st.4[j].3 < st.0) || (st.4[j].2 + st.4[j].4 < st.1)
    &&& forall|j: int| 0 <= j < st.4.len() ==> (#[trigger] st.4[j]).3 >= 0 && st.4[j].4 >= 0
}

/// Law: the organize boxes never overlap (a gap always separates two
/// boxes) and none crosses the desktop's right edge unless it starts a row.
pub proof fn lemma_plan_boxes_apart(
    groups: Seq<GroupView>,
    desktop_w: int,
    icon_size: int,
    gap: int,
    title_h: int,
    padding: int,
)
    requires
        sizes_nonnegative(icon_size, gap, title_h, padding),
    ensures
        ({
            let boxes = plan_boxes(groups, desktop_w, icon_size, gap, title_h, padding);
            &&& forall|a: int, b: int| 0 <= a < b < boxes.len() ==> boxes_apart(boxes[a], boxes[b])
            &&& boxes_within_width(boxes, desktop_w)
        }),
{
    lemma_plan_invariant(groups, groups.len() as int, desktop_w, icon_size, gap, title_h, padding);
}

proof fn lemma_plan_invariant(
    groups: Seq<GroupView>,
    k: int,
    desktop_w: int,
    icon_size: int,
    gap: int,
    title_h: int,
    padding: int,
)
    requires
        0 <= k <= groups.len(),
        sizes_nonnegative(icon_size, gap, title_h, padding),
    ensures
        plan_invariant(plan_state(groups, k, desktop_w, icon_size, gap, title_h, padding), desktop_w),
    decreases k,
{
    if k > 0 {
        lemma_plan_invariant(groups, k - 1, desktop_w, icon_size, gap, title_h, padding);
        let st = plan_state(groups, k - 1, desktop_w, icon_size, gap, title_h, padding);
        let g = groups[k - 1];
        if g.1.len() > 0 {
            let mpr = organize_max_per_row_of(desktop_w, icon_size, gap);
            let n = g.1.len() as int;
            let w = box_width_of(n, mpr, icon_size, gap, padding);
            let h = box_height_of(n, mpr, icon_size, title_h, padding);
            lemma_box_size_nonnegative(n, mpr, icon_size, gap, title_h, padding);
            lemma_plan_cursor(groups, k - 1, desktop_w, icon_size, gap, title_h, padding);
            if st.3 && st.4.last().5.len() <= mpr {
                lemma_plan_keeps_groups_upto(groups, k - 1, desktop_w, icon_size, gap, title_h, padding);
                let last = st.4.len() - 1;
                assert(st.4[last] == st.4.last());
                lemma_one_row_is_lowest(mpr, st.4.last().5.len() as int, n, icon_size, title_h, padding);
                assert(st.2 <= h);
            }
            let nst = plan_state(groups, k, desktop_w, icon_size, gap, title_h, padding);
            let nb = nst.4.last();
            assert(nst.4.len() == st.4.len() + 1);
            assert forall|j: int| 0 <= j < st.4.len() implies boxes_apart(#[trigger] nst.4[j], nb) by {
                assert(nst.4[j] == st.4[j]);
            }
            assert forall|a: int, b: int| 0 <= a < b < nst.4.len() implies boxes_apart(
                nst.4[a],
                nst.4[b],
            ) by {
                if b < st.4.len() {
                    assert(nst.4[a] == st.4[a]);
                    assert(nst.4[b] == st.4[b]);
                } else {
                    assert(nst.4[b] == nb);
                }
            }
            assert forall|j: int| 0 <= j < nst.4.len() implies (#[trigger] nst.4[j]).1 == DESKTOP_MARGIN_X
                || nst.4[j].1 + nst.4[j].3 <= desktop_w by {
                if j < st.4.len() {
                    assert(nst.4[j] == st.4[j]);
                }
            }
            assert forall|j: int| 0 <= j < nst.4.len() implies ((#[trigger] nst.4[j]).2 == nst.1
                && nst.4[j].4 <= nst.2 && nst.4[j].1 + nst.4[j].3 < nst.0) || (nst.4[j].2 + nst.4[j].4
                < nst.1) by {
                if j < st.4.len() {
                    assert(nst.4[j] == st.4[j]);
                }
            }
            assert forall|j: int| 0 <= j < nst.4.len() implies (#[trigger] nst.4[j]).3 >= 0 && nst.4[j].4
                >= 0 by {
                if j < st.4.len() {
                    assert(nst.4[j] == st.4[j]);
                }
            }
        }
    }
}

/// A box whose icons fit in one row is no taller than any other box.
proof fn lemma_one_row_is_lowest(m: int, n1: int, n: int, icon_size: int, title_h: int, padding: int)
    requires
        m >= 1,
        0 <= n1 <= m,
        icon_size + 46 >= 0,
    ensures
        box_height_of(n1, m, icon_size, title_h, padding) <= box_height_of(n, m, icon_size, title_h, padding),
{
    if n1 > 0 {
        assert((n1 + m - 1) / m == 1) by (nonlinear_arith)
            requires
                1 <= n1 <= m,
        ;
    }
    assert(max_int(m, 1) == m);
    assert(crate::domain::layout::box_rows_of(n1, m) == 1);
    let rows = crate::domain::layout::box_rows_of(n, m);
    assert(rows >= 1);
    assert(rows * crate::domain::layout::row_height_of(icon_size) >= crate::domain::layout::row_height_of(icon_size)) by (nonlinear_arith)
        requires
            rows >= 1,
            crate::domain::layout::row_height_of(icon_size) >= 0,
    ;
}

/// Boxes of non-negative sizes have non-negative width and height.
proof fn lemma_box_size_nonnegative(n: int, mpr: int, icon_size: int, gap: int, title_h: int, padding: int)
    requires
        n >= 1,
        mpr >= 1,
        sizes_nonnegative(icon_size, gap, title_h, padding),
    ensures
        box_width_of(n, mpr, icon_size, gap, padding) >= 0,
        box_height_of(n, mpr, icon_size, title_h, padding) >= 0,
{
    let cols = crate::domain::layout::box_cols_of(n, mpr);
    let rows = crate::domain::layout::box_rows_of(n, mpr);
    assert(cols * cell_of(icon_size, gap) >= 0) by (nonlinear_arith)
        requires
            cols >= 1,
            cell_of(icon_size, gap) >= 0,
    ;
    assert(rows * crate::domain::layout::row_height_of(icon_size) >= 0) by (nonlinear_arith)
        requires
            rows >= 1,
            crate::domain::layout::row_height_of(icon_size) >= 0,
    ;
}

/// An entry kept among the first `n` lands in the items of its category.
proof fn lemma_group_items_has(
    paths: Seq<Seq<char>>,
    cats: Seq<Seq<char>>,
    show_files: bool,
    n: int,
    i: int,
)
    requires
        0 <= i < n <= paths.len(),
        paths.len() == cats.len(),
        kept(show_files, cats[i]),
    ensures
        group_items(paths, cats, show_files, cats[i], n).contains(paths[i]),
    decreases n,
{
    if i < n - 1 {
        lemma_group_items_has(paths, cats, show_files, n - 1, i);
        let prev = group_items(paths, cats, show_files, cats[i], n - 1);
        let j = choose|j: int| 0 <= j < prev.len() && prev[j] == paths[i];
        if kept(show_files, cats[n - 1]) && cats[n - 1] == cats[i] {
            assert(prev.push(paths[n - 1])[j] == paths[i]);
        }
    } else {
        let prev = group_items(paths, cats, show_files, cats[i], n - 1);
        assert(prev.push(paths[i])[prev.len() as int] == paths[i]);
    }
}

/// Every item of a category's group is a kept entry of that category.
proof fn lemma_group_items_from(
    paths: Seq<Seq<char>>,
    cats: Seq<Seq<char>>,
    show_files: bool,
    k: Seq<char>,
    n: int,
    m: int,
)
    requires
        0 <= n <= paths.len(),
        paths.len() == cats.len(),
        0 <= m < group_items(paths, cats, show_files, k, n).len(),
    ensures
        exists|i: int|
            0 <= i < n && kept(show_files, cats[i]) && cats[i] == k && #[trigger] paths[i]
                == group_items(paths, cats, show_files, k, n)[m],
    decreases n,
{
    let prev = group_items(paths, cats, show_files, k, n - 1);
    if m < prev.len() {
        lemma_group_items_from(paths, cats, show_files, k, n - 1, m);
        let i = choose|i: int|
            0 <= i < n - 1 && kept(show_files, cats[i]) && cats[i] == k && #[trigger] paths[i]
                == prev[m];
        assert(group_items(paths, cats, show_files, k, n)[m] == prev[m]);
        assert(paths[i] == group_items(paths, cats, show_files, k, n)[m]);
    } else {
        assert(paths[n - 1] == group_items(paths, cats, show_files, k, n)[m]);
    }
}

/// Law: grouping puts each kept entry (outside a dropped launcher-only
/// folder group) into exactly one group, the one titled by its category,
/// and a group holds only kept entries of its own category.
pub proof fn lemma_grouping_places_entries(
    paths: Seq<Seq<char>>,
    cats: Seq<Seq<char>>,
    show_files: bool,
    r: Seq<GroupView>,
)
    requires
        paths.len() == cats.len(),
        is_grouping(paths, cats, show_files, r),
    ensures
        forall|i: int|
            0 <= i < paths.len() && kept(show_files, #[trigger] cats[i]) && !dropped_group(
                cats[i],
                group_items(paths, cats, show_files, cats[i], paths.len() as int),
            ) ==> exists|j: int| 0 <= j < r.len() && r[j].0 == cats[i] && r[j].1.contains(paths[i]),
        forall|j1: int, j2: int| 0 <= j1 < r.len() && 0 <= j2 < r.len() && r[j1].0 == r[j2].0 ==> j1 == j2,
        forall|j: int, m: int|
            0 <= j < r.len() && 0 <= m < r[j].1.len() ==> exists|i: int|
                0 <= i < paths.len() && kept(show_files, cats[i]) && cats[i] == r[j].0 && #[trigger] paths[i]
                    == #[trigger] r[j].1[m],
{
    reveal(is_grouping);
    assert forall|i: int|
        0 <= i < paths.len() && kept(show_files, #[trigger] cats[i]) && !dropped_group(
            cats[i],
            group_items(paths, cats, show_files, cats[i], paths.len() as int),
        ) implies exists|j: int| 0 <= j < r.len() && r[j].0 == cats[i] && r[j].1.contains(paths[i]) by {
        let j = choose|j: int| 0 <= j < r.len() && (#[trigger] r[j]).0 == cats[i];
        lemma_group_items_has(paths, cats, show_files, paths.len() as int, i);
    }
    assert forall|j1: int, j2: int| 0 <= j1 < r.len() && 0 <= j2 < r.len() && r[j1].0 == r[j2].0 implies j1
        == j2 by {
        lemma_key_lt_order(r[j1].0, r[j2].0, r[j2].0);
        if j1 < j2 {
            assert(key_lt(r[j1].0, r[j2].0));
        } else if j2 < j1 {
            assert(key_lt(r[j2].0, r[j1].0));
        }
    }
    assert forall|j: int, m: int| 0 <= j < r.len() && 0 <= m < r[j].1.len() implies exists|i: int|
        0 <= i < paths.len() && kept(show_files, cats[i]) && cats[i] == r[j].0 && #[trigger] paths[i]
            == #[trigger] r[j].1[m] by {
        assert(r[j].1 == group_items(paths, cats, show_files, r[j].0, paths.len() as int));
        lemma_group_items_from(paths, cats, show_files, r[j].0, paths.len() as int, m);
    }
}

/// Law: with files hidden, no group is titled by a file-like category.
pub proof fn lemma_grouping_hides_files(paths: Seq<Seq<char>>, cats: Seq<Seq<char>>, r: Seq<GroupView>)
    requires
        is_grouping(paths, cats, false, r),
    ensures
        forall|j: int| 0 <= j < r.len() ==> !is_file_kind(#[trigger] r[j].0),
{
    reveal(is_grouping);
    assert forall|j: int| 0 <= j < r.len() implies !is_file_kind(#[trigger] r[j].0) by {
        let i = choose|i: int| 0 <= i < paths.len() && kept(false, cats[i]) && cats[i] == r[j].0;
    }
}

/// The titles of the groups, in order.
pub open spec fn titles_of(r: Seq<GroupView>) -> Seq<Seq<char>> {
    r.map_values(|g: GroupView| g.0)
}

/// The categories that get a group: kept ones whose group is not dropped.
pub open spec fn titled(paths: Seq<Seq<char>>, cats: Seq<Seq<char>>, show_files: bool, k: Seq<char>) -> bool {
    key_occurs(cats, show_files, k, cats.len() as int) && !dropped_group(
        k,
        group_items(paths, cats, show_files, k, paths.len() as int),
    )
}

/// The titles of a grouping are sorted and are exactly the titled categories.
proof fn lemma_grouping_titles(
    paths: Seq<Seq<char>>,
    cats: Seq<Seq<char>>,
    show_files: bool,
    r: Seq<GroupView>,
)
    requires
        paths.len() == cats.len(),
        is_grouping(paths, cats, show_files, r),
    ensures
        keys_sorted(titles_of(r)),
        forall|j: int|
            0 <= j < r.len() ==> titled(paths, cats, show_files, #[trigger] titles_of(r)[j]),
        forall|k: Seq<char>|
            titled(paths, cats, show_files, k) ==> #[trigger] titles_of(r).contains(k),
        forall|j: int|
            0 <= j < r.len() ==> (#[trigger] r[j]).1 == group_items(paths, cats, show_files, r[j].0, paths.len() as int),
{
    reveal(is_grouping);
    let t = titles_of(r);
    assert forall|j: int| 0 <= j < r.len() implies titled(paths, cats, show_files, #[trigger] t[j]) by {
        assert(t[j] == r[j].0);
        let i = choose|i: int| 0 <= i < paths.len() && kept(show_files, cats[i]) && cats[i] == r[j].0;
        assert(0 <= i < cats.len() && kept(show_files, cats[i]) && cats[i] == t[j]);
    }
    assert forall|k: Seq<char>| titled(paths, cats, show_files, k) implies #[trigger] t.contains(k) by {
        let i = choose|i: int| 0 <= i < cats.len() && kept(show_files, cats[i]) && #[trigger] cats[i] == k;
        let j = choose|j: int| 0 <= j < r.len() && (#[trigger] r[j]).0 == cats[i];
        assert(t[j] == k);
    }
    assert forall|a: int, b: int| 0 <= a < b < t.len() implies key_lt(t[a], t[b]) by {
        assert(t[a] == r[a].0 && t[b] == r[b].0);
    }
}

/// Law: the grouping is determined by the entries and their categories:
/// two groupings of the same input are equal.
pub proof fn lemma_grouping_unique(
    paths: Seq<Seq<char>>,
    cats: Seq<Seq<char>>,
    show_files: bool,
    r1: Seq<GroupView>,
    r2: Seq<GroupView>,
)
    requires
        paths.len() == cats.len(),
        is_grouping(paths, cats, show_files, r1),
        is_grouping(paths, cats, show_files, r2),
    ensures
        r1 == r2,
{
    lemma_grouping_titles(paths, cats, show_files, r1);
    lemma_grouping_titles(paths, cats, show_files, r2);
    let t1 = titles_of(r1);
    let t2 = titles_of(r2);
    assert forall|j: int| 0 <= j < t1.len() implies t2.contains(#[trigger] t1[j]) by {
        assert(titled(paths, cats, show_files, t1[j]));
    }
    assert forall|j: int| 0 <= j < t2.len() implies t1.contains(#[trigger] t2[j]) by {
        assert(titled(paths, cats, show_files, t2[j]));
    }
    lemma_sorted_same_elements(t1, t2);
    assert forall|j: int| 0 <= j < r1.len() implies r1[j] == r2[j] by {
        assert(t1[j] == t2[j]);
        assert(r1[j].0 == t1[j]);
        assert(r2[j].0 == t2[j]);
    }
    assert(r1 =~= r2);
}

/// Two sequences sorted strictly by `key_lt` with the same elements are equal.
proof fn lemma_sorted_same_elements(a: Seq<Seq<char>>, b: Seq<Seq<char>>)
    requires
        keys_sorted(a),
        keys_sorted(b),
        forall|j: int| 0 <= j < a.len() ==> b.contains(#[trigger] a[j]),
        forall|j: int| 0 <= j < b.len() ==> a.contains(#[trigger] b[j]),
    ensures
        a == b,
    decreases a.len(),
{
    if a.len() == 0 {
        if b.len() > 0 {
            assert(a.contains(b[0]));
        }
        assert(a =~= b);
    } else if b.len() == 0 {
        assert(b.contains(a[0]));
    } else {
        // the first elements are both the least element
        assert(b.contains(a[0]));
        assert(a.contains(b[0]));
        let ib = choose|ib: int| 0 <= ib < b.len() && b[ib] == a[0];
        let ia = choose|ia: int| 0 <= ia < a.len() && a[ia] == b[0];
        if a[0] != b[0] {
            lemma_key_lt_order(a[0], b[0], a[0]);
            assert(ib > 0 && ia > 0);
            assert(key_lt(b[0], b[ib]));
            assert(key_lt(a[0], a[ia]));
        }
        let a1 = a.drop_first();
        let b1 = b.drop_first();
        assert forall|j: int| 0 <= j < a1.len() implies b1.contains(#[trigger] a1[j]) by {
            assert(a1[j] == a[j + 1]);
            assert(b.contains(a[j + 1]));
            let k = choose|k: int| 0 <= k < b.len() && b[k] == a[j + 1];
            assert(key_lt(a[0], a[j + 1]));
            lemma_key_lt_order(a[0], a[j + 1], a[0]);
            assert(k != 0);
            assert(b1[k - 1] == a1[j]);
        }
        assert forall|j: int| 0 <= j < b1.len() implies a1.contains(#[trigger] b1[j]) by {
            assert(b1[j] == b[j + 1]);
            assert(a.contains(b[j + 1]));
            let k = choose|k: int| 0 <= k < a.len() && a[k] == b[j + 1];
            assert(key_lt(b[0], b[j + 1]));
            lemma_key_lt_order(b[0], b[j + 1], b[0]);
            assert(k != 0);
            assert(a1[k - 1] == b1[j]);
        }
        lemma_sorted_same_elements(a1, b1);
        assert(a =~= seq![a[0]] + a1);
        assert(b =~= seq![b[0]] + b1);
    }
}

} // verus!
