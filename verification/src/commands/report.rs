//! Reports over recorded activity: merging adjacent segments of the same
//! category, per-category totals, HTML escaping, the HTML and Markdown
//! renderings, the date ranges of daily, weekly and monthly reports and the
//! summary records that are stored for them.

use vstd::prelude::*;
use crate::db::models::{ActivitySegment, SegmentView, seg_views, DailySummary, PeriodSummary};
use crate::text::{str_or_empty, opt_str, push_char};
use crate::fmt::{int_dec, push_int};
use crate::image::hex_digit_char;
use crate::datetime::{
    Date, MIN_YEAR, day_number, valid_ymd, days_in_month, date_text, ymd_parse, parse_ymd, date_sub_days, date_from_ymd,
    date_pred, format_date, utc_now, format_datetime, datetime_text, DateTime,
};
use crate::text::{str_eq, clone_opt, opt_str_ref};
use crate::screen::new_frame_id;

verus! {

// ---------------------------------------------------------------------------
// Merging adjacent segments
// ---------------------------------------------------------------------------

/// `cur` extended by the following segment `s` of the same category: it
/// ends where `s` ends, lasts both durations, joins the summaries with
/// `"; "` and the frame-id lists with `","` (an empty side adds nothing).
pub open spec fn absorb(cur: SegmentView, s: SegmentView) -> SegmentView {
    let summary = match s.llm_summary {
        Some(add) => {
            let prev = str_or_empty(cur.llm_summary);
            Some(if prev.len() == 0 { add } else { prev + "; "@ + add })
        },
        None => cur.llm_summary,
    };
    let existing = str_or_empty(cur.source_frame_ids);
    let add = str_or_empty(s.source_frame_ids);
    let ids = if existing.len() == 0 {
        add
    } else if add.len() == 0 {
        existing
    } else {
        existing + ","@ + add
    };
    SegmentView {
        end_time: s.end_time,
        duration_secs: (cur.duration_secs + s.duration_secs) as i64,
        llm_summary: summary,
        source_frame_ids: Some(ids),
        ..cur
    }
}

/// The timeline with every run of consecutive same-category segments
/// merged into its first segment.
pub open spec fn merged(vs: Seq<SegmentView>) -> Seq<SegmentView>
    decreases vs.len(),
{
    if vs.len() <= 1 {
        vs
    } else {
        let m = merged(vs.drop_last());
        let s = vs.last();
        if m.last().category == s.category {
            m.update(m.len() - 1, absorb(m.last(), s))
        } else {
            m.push(s)
        }
    }
}

/// Sum of the durations of the trailing run of same-category segments.
pub open spec fn run_total(vs: Seq<SegmentView>) -> int
    decreases vs.len(),
{
    if vs.len() == 0 {
        0
    } else if vs.len() >= 2 && vs[vs.len() - 2].category == vs.last().category {
        run_total(vs.drop_last()) + vs.last().duration_secs
    } else {
        vs.last().duration_secs as int
    }
}

/// Every partial run total fits in an `i64`: merging never overflows.
pub open spec fn run_totals_fit(vs: Seq<SegmentView>) -> bool {
    forall|i: int| 1 <= i <= vs.len() ==> i64::MIN <= #[trigger] run_total(vs.take(i)) <= i64::MAX
}

/// Sum of the durations of a timeline.
pub open spec fn total_duration(vs: Seq<SegmentView>) -> int
    decreases vs.len(),
{
    if vs.len() == 0 { 0 } else { total_duration(vs.drop_last()) + vs.last().duration_secs }
}

/// No two neighbours have the same category.
pub open spec fn adjacent_distinct(vs: Seq<SegmentView>) -> bool {
    forall|j: int| 0 <= j < vs.len() - 1 ==> #[trigger] vs[j].category != vs[j + 1].category
}

proof fn lemma_merged_basics(vs: Seq<SegmentView>)
    ensures
        vs.len() >= 1 ==> merged(vs).len() >= 1,
        vs.len() >= 1 ==> merged(vs).last().category == vs.last().category,
        merged(vs).len() <= vs.len(),
    decreases vs.len(),
{
    if vs.len() > 1 {
        lemma_merged_basics(vs.drop_last());
    }
}

proof fn lemma_fit_prefix(vs: Seq<SegmentView>, k: int)
    requires
        run_totals_fit(vs),
        0 <= k <= vs.len(),
    ensures
        run_totals_fit(vs.take(k)),
{
    assert forall|i: int| 1 <= i <= vs.take(k).len() implies i64::MIN <= #[trigger] run_total(vs.take(k).take(i)) <= i64::MAX by {
        assert(vs.take(k).take(i) =~= vs.take(i));
    }
}

/// The last merged segment lasts the trailing run's total.
proof fn lemma_merged_last_duration(vs: Seq<SegmentView>)
    requires
        vs.len() >= 1,
        run_totals_fit(vs),
    ensures
        merged(vs).last().duration_secs == run_total(vs),
    decreases vs.len(),
{
    assert(vs.take(vs.len() as int) =~= vs);
    if vs.len() > 1 {
        lemma_fit_prefix(vs, vs.len() - 1);
        assert(vs.take(vs.len() - 1) =~= vs.drop_last());
        lemma_merged_last_duration(vs.drop_last());
        lemma_merged_basics(vs.drop_last());
        assert(vs.drop_last().last() == vs[vs.len() - 2]);
    }
}

/// Merging keeps the total time of a timeline.
pub proof fn lemma_merge_keeps_total(vs: Seq<SegmentView>)
    requires
        run_totals_fit(vs),
    ensures
        total_duration(merged(vs)) == total_duration(vs),
    decreases vs.len(),
{
    if vs.len() > 1 {
        let m = merged(vs.drop_last());
        lemma_fit_prefix(vs, vs.len() - 1);
        assert(vs.take(vs.len() - 1) =~= vs.drop_last());
        lemma_merge_keeps_total(vs.drop_last());
        lemma_merged_basics(vs.drop_last());
        let s = vs.last();
        if m.last().category == s.category {
            let u = m.update(m.len() - 1, absorb(m.last(), s));
            assert(u.drop_last() =~= m.drop_last());
            lemma_merged_last_duration(vs.drop_last());
            lemma_merged_last_duration(vs);
            assert(vs.take(vs.len() as int) =~= vs);
        } else {
            assert(m.push(s).drop_last() =~= m);
        }
    }
}

/// After merging, no two neighbouring segments share a category.
pub proof fn lemma_merge_separates_categories(vs: Seq<SegmentView>)
    ensures
        adjacent_distinct(merged(vs)),
    decreases vs.len(),
{
    if vs.len() > 1 {
        let m = merged(vs.drop_last());
        lemma_merge_separates_categories(vs.drop_last());
        lemma_merged_basics(vs.drop_last());
        let s = vs.last();
        if m.last().category == s.category {
            let u = m.update(m.len() - 1, absorb(m.last(), s));
            assert forall|j: int| 0 <= j < u.len() - 1 implies #[trigger] u[j].category != u[j + 1].category by {
                assert(m[j].category != m[j + 1].category);
            }
        } else {
            let u = m.push(s);
            assert forall|j: int| 0 <= j < u.len() - 1 implies #[trigger] u[j].category != u[j + 1].category by {
                if j < m.len() - 1 {
                    assert(m[j].category != m[j + 1].category);
                }
            }
        }
    }
}

/// A timeline without neighbouring segments of one category is left as it
/// is; so merging twice gives what merging once gives.
pub proof fn lemma_merge_idempotent(vs: Seq<SegmentView>)
    ensures
        adjacent_distinct(vs) ==> merged(vs) == vs,
        merged(merged(vs)) == merged(vs),
    decreases vs.len(),
{
    if adjacent_distinct(vs) && vs.len() > 1 {
        let d = vs.drop_last();
        assert forall|j: int| 0 <= j < d.len() - 1 implies #[trigger] d[j].category != d[j + 1].category by {
            assert(vs[j].category != vs[j + 1].category);
        }
        lemma_merge_idempotent(d);
        assert(vs[vs.len() - 2].category != vs[vs.len() - 1].category);
        assert(d.push(vs.last()) =~= vs);
    }
    lemma_merge_separates_categories(vs);
    let m = merged(vs);
    if m.len() > 1 {
        let d = m.drop_last();
        assert forall|j: int| 0 <= j < d.len() - 1 implies #[trigger] d[j].category != d[j + 1].category by {
            assert(m[j].category != m[j + 1].category);
        }
    }
    lemma_merge_idempotent_distinct(m);
}

/// The positions where a run of one category starts: the first segment,
/// and every segment whose category differs from the one before it.
pub open spec fn run_starts(vs: Seq<SegmentView>) -> Seq<int>
    decreases vs.len(),
{
    if vs.len() == 0 {
        Seq::empty()
    } else if vs.len() == 1 {
        seq![0int]
    } else {
        let r = run_starts(vs.drop_last());
        if vs[vs.len() - 1].category == vs[vs.len() - 2].category { r } else { r.push(vs.len() - 1) }
    }
}

/// Merging leaves one segment per run of consecutive segments of one
/// category, in order; each keeps the id, start, category and the other
/// identifying fields of the first segment of its run.
pub proof fn lemma_merge_one_per_run(vs: Seq<SegmentView>)
    ensures
        merged(vs).len() == run_starts(vs).len(),
        forall|j: int| 0 <= j < merged(vs).len() ==> {
            let first = vs[run_starts(vs)[j]];
            &&& 0 <= run_starts(vs)[j] < vs.len()
            &&& (#[trigger] merged(vs)[j]).id == first.id
            &&& merged(vs)[j].start_time == first.start_time
            &&& merged(vs)[j].category == first.category
            &&& merged(vs)[j].app_name == first.app_name
            &&& merged(vs)[j].window_title == first.window_title
            &&& merged(vs)[j].created_at == first.created_at
        },
    decreases vs.len(),
{
    if vs.len() > 1 {
        let d = vs.drop_last();
        lemma_merge_one_per_run(d);
        lemma_merged_basics(d);
        let m = merged(d);
        let s = vs.last();
        assert(d.last() == vs[vs.len() - 2]);
        assert forall|j: int| 0 <= j < run_starts(d).len() implies 0 <= #[trigger] run_starts(d)[j] < d.len()
            && vs[run_starts(d)[j]] == d[run_starts(d)[j]] by {
            assert(0 <= run_starts(d)[j] < d.len() ==> vs[run_starts(d)[j]] == d[run_starts(d)[j]]);
            assert(m[j].id == d[run_starts(d)[j]].id);
        }
        if m.last().category == s.category {
            let u = m.update(m.len() - 1, absorb(m.last(), s));
            assert forall|j: int| 0 <= j < u.len() implies {
                let first = vs[run_starts(vs)[j]];
                &&& 0 <= run_starts(vs)[j] < vs.len()
                &&& (#[trigger] u[j]).id == first.id
                &&& u[j].start_time == first.start_time
                &&& u[j].category == first.category
                &&& u[j].app_name == first.app_name
                &&& u[j].window_title == first.window_title
                &&& u[j].created_at == first.created_at
            } by {
                assert(m[j].id == d[run_starts(d)[j]].id);
            }
        } else {
            let u = m.push(s);
            assert forall|j: int| 0 <= j < u.len() implies {
                let first = vs[run_starts(vs)[j]];
                &&& 0 <= run_starts(vs)[j] < vs.len()
                &&& (#[trigger] u[j]).id == first.id
                &&& u[j].start_time == first.start_time
                &&& u[j].category == first.category
                &&& u[j].app_name == first.app_name
                &&& u[j].window_title == first.window_title
                &&& u[j].created_at == first.created_at
            } by {
                if j < m.len() {
                    assert(m[j].id == d[run_starts(d)[j]].id);
                }
            }
        }
    }
}

proof fn lemma_merge_idempotent_distinct(vs: Seq<SegmentView>)
    requires
        adjacent_distinct(vs),
    ensures
        merged(vs) == vs,
    decreases vs.len(),
{
    if vs.len() > 1 {
        let d = vs.drop_last();
        assert forall|j: int| 0 <= j < d.len() - 1 implies #[trigger] d[j].category != d[j + 1].category by {
            assert(vs[j].category != vs[j + 1].category);
        }
        lemma_merge_idempotent_distinct(d);
        assert(vs[vs.len() - 2].category != vs[vs.len() - 1].category);
        assert(d.push(vs.last()) =~= vs);
    }
}

/// `cur` extended by `s` (see `absorb`).
fn absorb_segment(cur: ActivitySegment, s: &ActivitySegment) -> (r: ActivitySegment)
    requires
        i64::MIN <= cur.duration_secs + s.duration_secs <= i64::MAX,
    ensures
        r@ == absorb(cur@, s@),
{
    let mut cur = cur;
    let ghost c0 = cur@;
    cur.end_time = s.end_time.clone();
    cur.duration_secs = cur.duration_secs + s.duration_secs;
    match &s.llm_summary {
        Some(add) => {
            let prev = match &cur.llm_summary {
                Some(p) => p.clone(),
                None => String::new(),
            };
            let joined = if prev.as_str().unicode_len() == 0 {
                add.clone()
            } else {
                prev.concat("; ").concat(add.as_str())
            };
            cur.llm_summary = Some(joined);
        },
        None => {},
    }
    let existing = match &cur.source_frame_ids {
        Some(p) => p.clone(),
        None => String::new(),
    };
    let add = match &s.source_frame_ids {
        Some(p) => p.clone(),
        None => String::new(),
    };
    let ids = if existing.as_str().unicode_len() == 0 {
        add
    } else if add.as_str().unicode_len() == 0 {
        existing
    } else {
        existing.concat(",").concat(add.as_str())
    };
    cur.source_frame_ids = Some(ids);
    proof {
        assert(cur@ =~= absorb(c0, s@));
    }
    cur
}

/// Merges runs of consecutive segments of the same category into one
/// segment each (see `merged`).
pub fn merge_adjacent(segments: &Vec<ActivitySegment>) -> (res: Vec<ActivitySegment>)
    requires
        run_totals_fit(seg_views(segments@)),
    ensures
        seg_views(res@) == merged(seg_views(segments@)),
{
    let ghost vs = seg_views(segments@);
    if segments.len() == 0 {
        proof {
            assert(seg_views(Seq::<ActivitySegment>::empty()) =~= vs);
        }
        return Vec::new();
    }
    let mut out: Vec<ActivitySegment> = Vec::new();
    let mut cur = segments[0].copy();
    let mut i: usize = 1;
    proof {
        assert(vs.take(1) =~= seq![vs[0]]);
        assert(seg_views(out@).push(cur@) =~= merged(vs.take(1)));
    }
    while i < segments.len()
        invariant
            1 <= i <= segments.len(),
            vs == seg_views(segments@),
            run_totals_fit(vs),
            seg_views(out@).push(cur@) == merged(vs.take(i as int)),
        decreases segments.len() - i,
    {
        let s = &segments[i];
        let ghost pre = seg_views(out@).push(cur@);
        proof {
            let t = vs.take(i + 1);
            assert(t.drop_last() =~= vs.take(i as int));
            assert(t.last() == s@);
            lemma_merged_basics(vs.take(i as int));
            lemma_fit_prefix(vs, i as int);
            lemma_fit_prefix(vs, i + 1);
            lemma_merged_last_duration(vs.take(i as int));
            lemma_merged_last_duration(t);
            assert(t.take(t.len() as int) =~= t);
            assert(pre.last() == cur@);
        }
        if s.category == cur.category {
            cur = absorb_segment(cur, s);
            proof {
                assert(seg_views(out@).push(cur@) =~= pre.update(pre.len() - 1, absorb(pre.last(), s@)));
            }
        } else {
            let next = s.copy();
            out.push(cur);
            cur = next;
            proof {
                assert(seg_views(out@) =~= pre);
            }
        }
        i = i + 1;
    }
    let ghost pre = seg_views(out@).push(cur@);
    out.push(cur);
    proof {
        assert(seg_views(out@) =~= pre);
        assert(vs.take(vs.len() as int) =~= vs);
    }
    out
}

// ---------------------------------------------------------------------------
// Per-category totals
// ---------------------------------------------------------------------------

/// Total duration of the segments of category `c`.
pub open spec fn cat_total(vs: Seq<SegmentView>, c: Seq<char>) -> int
    decreases vs.len(),
{
    if vs.len() == 0 {
        0
    } else {
        cat_total(vs.drop_last(), c) + if vs.last().category == c { vs.last().duration_secs as int } else { 0 }
    }
}

/// The total time of a timeline in two parts is the sum of the parts'
/// totals.
pub proof fn lemma_total_duration_concat(a: Seq<SegmentView>, b: Seq<SegmentView>)
    ensures
        total_duration(a + b) == total_duration(a) + total_duration(b),
    decreases b.len(),
{
    if b.len() == 0 {
        assert(a + b =~= a);
    } else {
        assert((a + b).drop_last() =~= a + b.drop_last());
        assert((a + b).last() == b.last());
        lemma_total_duration_concat(a, b.drop_last());
    }
}

/// The total of category `c` over a timeline in two parts is the sum over
/// the parts; a single segment counts its duration exactly when it is of
/// category `c`.
pub proof fn lemma_cat_total_concat(a: Seq<SegmentView>, b: Seq<SegmentView>, c: Seq<char>)
    ensures
        cat_total(a + b, c) == cat_total(a, c) + cat_total(b, c),
    decreases b.len(),
{
    if b.len() == 0 {
        assert(a + b =~= a);
    } else {
        assert((a + b).drop_last() =~= a + b.drop_last());
        assert((a + b).last() == b.last());
        lemma_cat_total_concat(a, b.drop_last(), c);
    }
}

/// A single segment counts its own duration in the total time, and
/// towards its own category only.
pub proof fn lemma_single_segment_totals(s: SegmentView, c: Seq<char>)
    ensures
        total_duration(seq![s]) == s.duration_secs,
        cat_total(seq![s], c) == (if s.category == c { s.duration_secs as int } else { 0 }),
{
    let q = seq![s];
    assert(q.drop_last() =~= Seq::<SegmentView>::empty());
    assert(q.last() == s);
    assert(total_duration(q.drop_last()) == 0);
    assert(cat_total(q.drop_last(), c) == 0);
}

/// Every running per-category total fits in an `i64`.
pub open spec fn cat_totals_fit(vs: Seq<SegmentView>) -> bool {
    forall|k: int| 1 <= k <= vs.len() ==> i64::MIN <= #[trigger] cat_total(vs.take(k), vs[k - 1].category)
        <= i64::MAX
}

/// The views of `(category, seconds)` pairs.
pub open spec fn pair_views(v: Seq<(String, i64)>) -> Seq<(Seq<char>, i64)> {
    v.map_values(|p: (String, i64)| (p.0@, p.1))
}

/// Some pair of `b` names category `c`.
#[verifier::opaque]
pub open spec fn names_cat(b: Seq<(Seq<char>, i64)>, c: Seq<char>) -> bool {
    exists|j: int| 0 <= j < b.len() && b[j].0 == c
}

/// Some segment of `vs` has category `c`.
#[verifier::opaque]
pub open spec fn has_cat(vs: Seq<SegmentView>, c: Seq<char>) -> bool {
    exists|i: int| 0 <= i < vs.len() && vs[i].category == c
}

/// `x` is one of the pairs of `b`.
#[verifier::opaque]
pub open spec fn has_entry(b: Seq<(Seq<char>, i64)>, x: (Seq<char>, i64)) -> bool {
    exists|k: int| 0 <= k < b.len() && b[k] == x
}

/// Pairwise distinct categories.
pub open spec fn distinct_names(b: Seq<(Seq<char>, i64)>) -> bool {
    forall|j: int, k: int| 0 <= j < k < b.len() ==> #[trigger] b[j].0 != #[trigger] b[k].0
}

/// `b` lists each category of `vs` exactly once, with its total duration.
pub open spec fn is_breakdown_of(b: Seq<(Seq<char>, i64)>, vs: Seq<SegmentView>) -> bool {
    &&& distinct_names(b)
    &&& forall|j: int| 0 <= j < b.len() ==> #[trigger] b[j].1 == cat_total(vs, b[j].0)
    &&& forall|i: int| 0 <= i < vs.len() ==> names_cat(b, #[trigger] vs[i].category)
    &&& forall|j: int| 0 <= j < b.len() ==> has_cat(vs, #[trigger] b[j].0)
}

/// `a` and `b` hold the same pairs, in any order.
pub open spec fn same_entries(a: Seq<(Seq<char>, i64)>, b: Seq<(Seq<char>, i64)>) -> bool {
    &&& forall|j: int| 0 <= j < a.len() ==> has_entry(b, #[trigger] a[j])
    &&& forall|k: int| 0 <= k < b.len() ==> has_entry(a, #[trigger] b[k])
}

/// Largest totals first.
pub open spec fn sorted_desc(b: Seq<(Seq<char>, i64)>) -> bool {
    forall|j: int, k: int| 0 <= j < k < b.len() ==> #[trigger] b[j].1 >= #[trigger] b[k].1
}

proof fn lemma_cat_total_push(vs: Seq<SegmentView>, s: SegmentView, c: Seq<char>)
    ensures
        cat_total(vs.push(s), c) == cat_total(vs, c) + if s.category == c { s.duration_secs as int } else { 0 },
{
    assert(vs.push(s).drop_last() =~= vs);
}

/// No segment of `vs` has category `c`: it has no time.
proof fn lemma_cat_total_absent(vs: Seq<SegmentView>, c: Seq<char>)
    requires
        forall|i: int| 0 <= i < vs.len() ==> #[trigger] vs[i].category != c,
    ensures
        cat_total(vs, c) == 0,
    decreases vs.len(),
{
    if vs.len() > 0 {
        lemma_cat_total_absent(vs.drop_last(), c);
    }
}

proof fn lemma_names_update(b: Seq<(Seq<char>, i64)>, j: int, x: (Seq<char>, i64), c: Seq<char>)
    requires
        0 <= j < b.len(),
        x.0 == b[j].0,
        names_cat(b, c),
    ensures
        names_cat(b.update(j, x), c),
{
    reveal(names_cat);
    let k = choose|k: int| 0 <= k < b.len() && b[k].0 == c;
    assert(b.update(j, x)[k].0 == c);
}

proof fn lemma_names_push(b: Seq<(Seq<char>, i64)>, x: (Seq<char>, i64), c: Seq<char>)
    ensures
        names_cat(b, c) ==> names_cat(b.push(x), c),
        names_cat(b.push(x), x.0),
{
    reveal(names_cat);
    if names_cat(b, c) {
        let k = choose|k: int| 0 <= k < b.len() && b[k].0 == c;
        assert(b.push(x)[k].0 == c);
    }
    assert(b.push(x)[b.len() as int].0 == x.0);
}

proof fn lemma_has_cat_push(t: Seq<SegmentView>, s: SegmentView, c: Seq<char>)
    ensures
        has_cat(t, c) ==> has_cat(t.push(s), c),
        has_cat(t.push(s), s.category),
{
    reveal(has_cat);
    if has_cat(t, c) {
        let i = choose|i: int| 0 <= i < t.len() && t[i].category == c;
        assert(t.push(s)[i].category == c);
    }
    assert(t.push(s)[t.len() as int].category == s.category);
}

proof fn lemma_not_named(b: Seq<(Seq<char>, i64)>, c: Seq<char>)
    requires
        forall|k: int| 0 <= k < b.len() ==> #[trigger] b[k].0 != c,
    ensures
        !names_cat(b, c),
{
    reveal(names_cat);
}

proof fn lemma_breakdown_update(pre: Seq<(Seq<char>, i64)>, t: Seq<SegmentView>, s: SegmentView, j: int)
    requires
        is_breakdown_of(pre, t),
        0 <= j < pre.len(),
        pre[j].0 == s.category,
    ensures
        pre[j].1 + s.duration_secs == cat_total(t.push(s), s.category),
        i64::MIN <= cat_total(t.push(s), s.category) <= i64::MAX ==> is_breakdown_of(
            pre.update(j, (pre[j].0, (pre[j].1 + s.duration_secs) as i64)),
            t.push(s),
        ),
{
    let b = pre.update(j, (pre[j].0, (pre[j].1 + s.duration_secs) as i64));
    let t1 = t.push(s);
    lemma_cat_total_push(t, s, s.category);
    assert forall|i2: int| 0 <= i2 < t1.len() implies names_cat(b, #[trigger] t1[i2].category) by {
        if i2 < t.len() {
            assert(t1[i2] == t[i2]);
            lemma_names_update(pre, j, (pre[j].0, (pre[j].1 + s.duration_secs) as i64), t[i2].category);
        } else {
            assert(names_cat(pre, s.category)) by {
                reveal(names_cat);
                assert(pre[j].0 == s.category);
            }
            lemma_names_update(pre, j, (pre[j].0, (pre[j].1 + s.duration_secs) as i64), s.category);
        }
    }
    assert forall|k: int| 0 <= k < b.len() implies has_cat(t1, #[trigger] b[k].0) by {
        assert(has_cat(t, pre[k].0));
        lemma_has_cat_push(t, s, pre[k].0);
    }
    if i64::MIN <= cat_total(t1, s.category) <= i64::MAX {
        assert forall|k: int| 0 <= k < b.len() implies #[trigger] b[k].1 == cat_total(t1, b[k].0) by {
            lemma_cat_total_push(t, s, b[k].0);
            if k != j {
                assert(b[k] == pre[k]);
                if k < j {
                    assert(pre[k].0 != pre[j].0);
                } else {
                    assert(pre[j].0 != pre[k].0);
                }
            }
        }
    }
    assert forall|k1: int, k2: int| 0 <= k1 < k2 < b.len() implies #[trigger] b[k1].0 != #[trigger] b[k2].0 by {
        assert(pre[k1].0 != pre[k2].0);
    }
}

proof fn lemma_breakdown_push(pre: Seq<(Seq<char>, i64)>, t: Seq<SegmentView>, s: SegmentView)
    requires
        is_breakdown_of(pre, t),
        !names_cat(pre, s.category),
    ensures
        is_breakdown_of(pre.push((s.category, s.duration_secs)), t.push(s)),
{
    let x = (s.category, s.duration_secs);
    let b = pre.push(x);
    let t1 = t.push(s);
    assert forall|i2: int| 0 <= i2 < t.len() implies #[trigger] t[i2].category != s.category by {
        assert(names_cat(pre, t[i2].category));
    }
    lemma_cat_total_absent(t, s.category);
    assert forall|i2: int| 0 <= i2 < t1.len() implies names_cat(b, #[trigger] t1[i2].category) by {
        lemma_names_push(pre, x, t1[i2].category);
        if i2 < t.len() {
            assert(t1[i2] == t[i2]);
        }
    }
    assert forall|k: int| 0 <= k < b.len() implies has_cat(t1, #[trigger] b[k].0) by {
        lemma_has_cat_push(t, s, b[k].0);
        if k < pre.len() {
            assert(b[k] == pre[k]);
        }
    }
    assert forall|k: int| 0 <= k < pre.len() implies #[trigger] pre[k].0 != s.category by {
        if pre[k].0 == s.category {
            reveal(names_cat);
            assert(names_cat(pre, s.category));
        }
    }
    assert forall|k: int| 0 <= k < b.len() implies #[trigger] b[k].1 == cat_total(t1, b[k].0) by {
        lemma_cat_total_push(t, s, b[k].0);
        if k < pre.len() {
            assert(b[k] == pre[k]);
            assert(pre[k].0 != s.category);
        }
    }
    assert forall|k1: int, k2: int| 0 <= k1 < k2 < b.len() implies #[trigger] b[k1].0 != #[trigger] b[k2].0 by {
        if k2 < pre.len() {
            assert(pre[k1].0 != pre[k2].0);
        } else {
            assert(b[k1] == pre[k1]);
            assert(pre[k1].0 != s.category);
        }
    }
}

/// Total time per category, longest first (the order of equal totals is
/// not fixed).
pub fn category_breakdown(segments: &Vec<ActivitySegment>) -> (res: Vec<(String, i64)>)
    requires
        cat_totals_fit(seg_views(segments@)),
    ensures
        is_breakdown_of(pair_views(res@), seg_views(segments@)),
        sorted_desc(pair_views(res@)),
{
    let ghost vs = seg_views(segments@);
    let mut acc: Vec<(String, i64)> = Vec::new();
    let mut i: usize = 0;
    proof {
        assert(pair_views(acc@) =~= Seq::<(Seq<char>, i64)>::empty());
    }
    while i < segments.len()
        invariant
            i <= segments.len(),
            vs == seg_views(segments@),
            cat_totals_fit(vs),
            is_breakdown_of(pair_views(acc@), vs.take(i as int)),
        decreases segments.len() - i,
    {
        let seg = &segments[i];
        let ghost pre = pair_views(acc@);
        let ghost t = vs.take(i as int);
        proof {
            assert(vs.take(i + 1) =~= t.push(seg@));
            assert(i64::MIN <= cat_total(vs.take(i + 1), vs[i as int].category) <= i64::MAX);
        }
        let mut j: usize = 0;
        let mut found = false;
        while j < acc.len() && !found
            invariant
                j <= acc.len(),
                pre == pair_views(acc@),
                !found ==> forall|k: int| 0 <= k < j ==> #[trigger] pre[k].0 != seg.category@,
                found ==> j < acc.len() && pre[j as int].0 == seg.category@,
            decreases acc.len() - j + (if found { 0int } else { 1int }),
        {
            if acc[j].0 == seg.category {
                found = true;
            } else {
                j = j + 1;
            }
        }
        if found {
            let name = acc[j].0.clone();
            let v = acc[j].1;
            proof {
                lemma_breakdown_update(pre, t, seg@, j as int);
            }
            acc.set(j, (name, v + seg.duration_secs));
            proof {
                assert(pair_views(acc@) =~= pre.update(j as int, (pre[j as int].0, (pre[j as int].1 + seg.duration_secs) as i64)));
            }
        } else {
            proof {
                lemma_not_named(pre, seg.category@);
                lemma_breakdown_push(pre, t, seg@);
            }
            acc.push((seg.category.clone(), seg.duration_secs));
            proof {
                assert(pair_views(acc@) =~= pre.push((seg.category@, seg.duration_secs)));
            }
        }
        i = i + 1;
    }
    proof {
        assert(vs.take(vs.len() as int) =~= vs);
    }
    let ghost b = pair_views(acc@);
    let res = sort_desc(acc);
    proof {
        lemma_breakdown_reordered(b, pair_views(res@), vs);
    }
    res
}

/// Sum of the totals of a breakdown.
pub open spec fn breakdown_sum(b: Seq<(Seq<char>, i64)>) -> int
    decreases b.len(),
{
    if b.len() == 0 { 0 } else { breakdown_sum(b.drop_last()) + b.last().1 }
}

/// The segments of `vs` of another category than `c`.
pub open spec fn without_cat(vs: Seq<SegmentView>, c: Seq<char>) -> Seq<SegmentView>
    decreases vs.len(),
{
    if vs.len() == 0 {
        Seq::empty()
    } else {
        let w = without_cat(vs.drop_last(), c);
        if vs.last().category == c { w } else { w.push(vs.last()) }
    }
}

proof fn lemma_without_totals(vs: Seq<SegmentView>, c: Seq<char>)
    ensures
        total_duration(vs) == total_duration(without_cat(vs, c)) + cat_total(vs, c),
        forall|d: Seq<char>| d != c ==> #[trigger] cat_total(without_cat(vs, c), d) == cat_total(vs, d),
    decreases vs.len(),
{
    if vs.len() > 0 {
        let d0 = vs.drop_last();
        lemma_without_totals(d0, c);
        let w = without_cat(d0, c);
        if vs.last().category != c {
            assert(w.push(vs.last()).drop_last() =~= w);
            assert forall|d: Seq<char>| d != c implies #[trigger] cat_total(without_cat(vs, c), d) == cat_total(vs, d) by {
                assert(cat_total(d0, d) == cat_total(w, d));
            }
        } else {
            assert forall|d: Seq<char>| d != c implies #[trigger] cat_total(without_cat(vs, c), d) == cat_total(vs, d) by {
                assert(cat_total(d0, d) == cat_total(w, d));
            }
        }
    }
}

proof fn lemma_without_members(vs: Seq<SegmentView>, c: Seq<char>)
    ensures
        forall|i: int| 0 <= i < without_cat(vs, c).len() ==> (#[trigger] without_cat(vs, c)[i]).category != c
            && has_cat(vs, without_cat(vs, c)[i].category),
        forall|d: Seq<char>| has_cat(vs, d) && d != c ==> #[trigger] has_cat(without_cat(vs, c), d),
    decreases vs.len(),
{
    reveal(has_cat);
    if vs.len() > 0 {
        let d0 = vs.drop_last();
        lemma_without_members(d0, c);
        let w0 = without_cat(d0, c);
        let w = without_cat(vs, c);
        assert forall|i: int| 0 <= i < w.len() implies (#[trigger] w[i]).category != c && has_cat(vs, w[i].category) by {
            if i < w0.len() {
                assert(w[i] == w0[i]);
                let k = choose|k: int| 0 <= k < d0.len() && d0[k].category == w0[i].category;
                assert(vs[k] == d0[k]);
            } else {
                assert(w[i] == vs.last());
                assert(vs[vs.len() - 1].category == w[i].category);
            }
        }
        assert forall|d: Seq<char>| has_cat(vs, d) && d != c implies #[trigger] has_cat(w, d) by {
            let k = choose|k: int| 0 <= k < vs.len() && vs[k].category == d;
            if k < d0.len() {
                assert(d0[k] == vs[k]);
                assert(has_cat(d0, d));
                assert(has_cat(w0, d));
                let j = choose|j: int| 0 <= j < w0.len() && w0[j].category == d;
                if vs.last().category != c {
                    assert(w[j] == w0[j]);
                }
            } else {
                assert(w[w.len() - 1] == vs.last());
            }
        }
    }
}

/// The totals of a breakdown add up to the total time of the timeline.
pub proof fn lemma_breakdown_sums_to_total(b: Seq<(Seq<char>, i64)>, vs: Seq<SegmentView>)
    requires
        is_breakdown_of(b, vs),
    ensures
        breakdown_sum(b) == total_duration(vs),
    decreases b.len(),
{
    if b.len() == 0 {
        if vs.len() > 0 {
            assert(names_cat(b, vs[0].category));
            reveal(names_cat);
        }
    } else {
        let c = b.last().0;
        let w = without_cat(vs, c);
        let b0 = b.drop_last();
        lemma_without_totals(vs, c);
        lemma_without_members(vs, c);
        assert(b.last() == b[b.len() - 1]);
        assert forall|j: int| 0 <= j < b0.len() implies #[trigger] b0[j].1 == cat_total(w, b0[j].0) && has_cat(w, b0[j].0) by {
            assert(b0[j] == b[j]);
            assert(b[j].0 != b[b.len() - 1].0);
            assert(has_cat(vs, b[j].0));
        }
        assert forall|j: int| 0 <= j < b0.len() implies has_cat(w, #[trigger] b0[j].0) by {
            assert(b0[j] == b[j]);
            assert(b[j].0 != b[b.len() - 1].0);
            assert(has_cat(vs, b[j].0));
        }
        assert forall|k1: int, k2: int| 0 <= k1 < k2 < b0.len() implies #[trigger] b0[k1].0 != #[trigger] b0[k2].0 by {
            assert(b0[k1] == b[k1] && b0[k2] == b[k2]);
        }
        assert forall|i: int| 0 <= i < w.len() implies names_cat(b0, #[trigger] w[i].category) by {
            let d = w[i].category;
            assert(has_cat(vs, d) && d != c);
            reveal(has_cat);
            let k = choose|k: int| 0 <= k < vs.len() && vs[k].category == d;
            assert(names_cat(b, vs[k].category));
            reveal(names_cat);
            let j = choose|j: int| 0 <= j < b.len() && b[j].0 == d;
            assert(j != b.len() - 1);
            assert(b0[j] == b[j]);
        }
        lemma_breakdown_sums_to_total(b0, w);
    }
}

/// The same pairs in another order, still with distinct categories, are
/// still a breakdown.
proof fn lemma_breakdown_reordered(b: Seq<(Seq<char>, i64)>, r: Seq<(Seq<char>, i64)>, vs: Seq<SegmentView>)
    requires
        is_breakdown_of(b, vs),
        distinct_names(r),
        same_entries(r, b),
    ensures
        is_breakdown_of(r, vs),
{
    assert forall|j: int| 0 <= j < r.len() implies #[trigger] r[j].1 == cat_total(vs, r[j].0) by {
        assert(has_entry(b, r[j]));
        reveal(has_entry);
        let k = choose|k: int| 0 <= k < b.len() && b[k] == r[j];
        assert(b[k].1 == cat_total(vs, b[k].0));
    }
    assert forall|j: int| 0 <= j < r.len() implies has_cat(vs, #[trigger] r[j].0) by {
        assert(has_entry(b, r[j]));
        reveal(has_entry);
        let k = choose|k: int| 0 <= k < b.len() && b[k] == r[j];
        assert(has_cat(vs, b[k].0));
    }
    assert forall|i2: int| 0 <= i2 < vs.len() implies names_cat(r, #[trigger] vs[i2].category) by {
        let c = vs[i2].category;
        assert(names_cat(b, c));
        reveal(names_cat);
        let k = choose|k: int| 0 <= k < b.len() && b[k].0 == c;
        assert(has_entry(r, b[k]));
        reveal(has_entry);
        let j = choose|j: int| 0 <= j < r.len() && r[j] == b[k];
        assert(r[j].0 == c);
    }
}

/// The pairs of `v`, which name distinct categories, reordered by
/// descending total (insertion sort).
fn sort_desc(v: Vec<(String, i64)>) -> (res: Vec<(String, i64)>)
    requires
        distinct_names(pair_views(v@)),
    ensures
        sorted_desc(pair_views(res@)),
        distinct_names(pair_views(res@)),
        same_entries(pair_views(res@), pair_views(v@)),
{
    let ghost orig = pair_views(v@);
    let ghost n = orig.len();
    let mut src = v;
    let mut out: Vec<(String, i64)> = Vec::new();
    proof {
        assert(pair_views(src@) =~= orig.take(n as int));
        assert(pair_views(out@) =~= Seq::<(Seq<char>, i64)>::empty());
    }
    while src.len() > 0
        invariant
            n == orig.len(),
            distinct_names(orig),
            src@.len() <= n,
            pair_views(src@) == orig.take(src@.len() as int),
            sorted_desc(pair_views(out@)),
            distinct_names(pair_views(out@)),
            same_entries(pair_views(out@), orig.subrange(src@.len() as int, n as int)),
        decreases src.len(),
    {
        let ghost m = src@.len() as int;
        let e = src.pop().unwrap();
        let ghost ev = (e.0@, e.1);
        proof {
            assert(pair_views(src@) =~= orig.take(m - 1));
            assert(orig.take(m)[m - 1] == ev);
        }
        let mut p: usize = 0;
        while p < out.len() && out[p].1 >= e.1
            invariant
                p <= out.len(),
                forall|k: int| 0 <= k < p ==> #[trigger] pair_views(out@)[k].1 >= e.1,
            decreases out.len() - p,
        {
            p = p + 1;
        }
        let ghost before = pair_views(out@);
        out.insert(p, e);
        proof {
            assert(pair_views(out@) =~= before.insert(p as int, ev));
            lemma_insert_sorted(before, p as int, ev);
            lemma_insert_fresh(before, orig, m, ev);
            lemma_insert_distinct(before, p as int, ev);
            lemma_insert_entries(before, orig, m, p as int, ev);
        }
    }
    proof {
        assert(orig.subrange(0, n as int) =~= orig);
    }
    out
}

proof fn lemma_insert_sorted(before: Seq<(Seq<char>, i64)>, p: int, ev: (Seq<char>, i64))
    requires
        sorted_desc(before),
        0 <= p <= before.len(),
        forall|k: int| 0 <= k < p ==> #[trigger] before[k].1 >= ev.1,
        p < before.len() ==> before[p].1 < ev.1,
    ensures
        sorted_desc(before.insert(p, ev)),
{
    let after = before.insert(p, ev);
    assert forall|j: int, k: int| 0 <= j < k < after.len() implies #[trigger] after[j].1 >= #[trigger] after[k].1 by {
        if k < p {
            assert(after[j] == before[j] && after[k] == before[k]);
        } else if k == p {
            assert(after[j] == before[j]);
        } else if j < p {
            assert(after[j] == before[j] && after[k] == before[k - 1]);
            assert(before[j].1 >= before[k - 1].1);
        } else if j == p {
            assert(after[k] == before[k - 1]);
            assert(before[p].1 >= before[k - 1].1);
        } else {
            assert(after[j] == before[j - 1] && after[k] == before[k - 1]);
            assert(before[j - 1].1 >= before[k - 1].1);
        }
    }
}

proof fn lemma_insert_fresh(before: Seq<(Seq<char>, i64)>, orig: Seq<(Seq<char>, i64)>, m: int, ev: (Seq<char>, i64))
    requires
        1 <= m <= orig.len(),
        orig[m - 1] == ev,
        distinct_names(orig),
        same_entries(before, orig.subrange(m, orig.len() as int)),
    ensures
        forall|j: int| 0 <= j < before.len() ==> #[trigger] before[j].0 != ev.0,
{
    let hi = orig.subrange(m, orig.len() as int);
    assert forall|j: int| 0 <= j < before.len() implies #[trigger] before[j].0 != ev.0 by {
        assert(has_entry(hi, before[j]));
        reveal(has_entry);
        let k = choose|k: int| 0 <= k < hi.len() && hi[k] == before[j];
        assert(hi[k] == orig[m + k]);
        assert(orig[m - 1].0 != orig[m + k].0);
    }
}

proof fn lemma_insert_distinct(before: Seq<(Seq<char>, i64)>, p: int, ev: (Seq<char>, i64))
    requires
        distinct_names(before),
        0 <= p <= before.len(),
        forall|j: int| 0 <= j < before.len() ==> #[trigger] before[j].0 != ev.0,
    ensures
        distinct_names(before.insert(p, ev)),
{
    let after = before.insert(p, ev);
    assert forall|j: int, k: int| 0 <= j < k < after.len() implies #[trigger] after[j].0 != #[trigger] after[k].0 by {
        if k < p {
            assert(after[j] == before[j] && after[k] == before[k]);
            assert(before[j].0 != before[k].0);
        } else if k == p {
            assert(after[j] == before[j]);
            assert(before[j].0 != ev.0);
        } else if j < p {
            assert(after[j] == before[j] && after[k] == before[k - 1]);
            assert(before[j].0 != before[k - 1].0);
        } else if j == p {
            assert(after[k] == before[k - 1]);
            assert(before[k - 1].0 != ev.0);
        } else {
            assert(after[j] == before[j - 1] && after[k] == before[k - 1]);
            assert(before[j - 1].0 != before[k - 1].0);
        }
    }
}

proof fn lemma_insert_entries(before: Seq<(Seq<char>, i64)>, orig: Seq<(Seq<char>, i64)>, m: int, p: int, ev: (Seq<char>, i64))
    requires
        1 <= m <= orig.len(),
        orig[m - 1] == ev,
        same_entries(before, orig.subrange(m, orig.len() as int)),
        0 <= p <= before.len(),
    ensures
        same_entries(before.insert(p, ev), orig.subrange(m - 1, orig.len() as int)),
{
    let n = orig.len() as int;
    let after = before.insert(p, ev);
    let hi = orig.subrange(m, n);
    let lo = orig.subrange(m - 1, n);
    assert forall|j: int| 0 <= j < after.len() implies has_entry(lo, #[trigger] after[j]) by {
        reveal(has_entry);
        if j < p {
            assert(has_entry(hi, before[j]));
            let k = choose|k: int| 0 <= k < hi.len() && hi[k] == before[j];
            assert(after[j] == lo[k + 1]);
        } else if j == p {
            assert(after[j] == lo[0]);
        } else {
            assert(has_entry(hi, before[j - 1]));
            let k = choose|k: int| 0 <= k < hi.len() && hi[k] == before[j - 1];
            assert(after[j] == lo[k + 1]);
        }
    }
    assert forall|k: int| 0 <= k < lo.len() implies has_entry(after, #[trigger] lo[k]) by {
        reveal(has_entry);
        if k == 0 {
            assert(after[p] == lo[k]);
        } else {
            assert(lo[k] == hi[k - 1]);
            assert(has_entry(before, hi[k - 1]));
            let j = choose|j: int| 0 <= j < before.len() && before[j] == hi[k - 1];
            if j < p {
                assert(after[j] == lo[k]);
            } else {
                assert(after[j + 1] == lo[k]);
            }
        }
    }
}

// ---------------------------------------------------------------------------
// HTML escaping
// ---------------------------------------------------------------------------

/// The escape of one character: `&`, `<`, `>`, `"` and `'` become entities,
/// any other character stays.
pub open spec fn escape_char(c: char) -> Seq<char> {
    if c == '&' {
        "&amp;"@
    } else if c == '<' {
        "&lt;"@
    } else if c == '>' {
        "&gt;"@
    } else if c == '"' {
        "&quot;"@
    } else if c == '\'' {
        "&#x27;"@
    } else {
        seq![c]
    }
}

/// A text with every character escaped.
pub open spec fn escaped(s: Seq<char>) -> Seq<char>
    decreases s.len(),
{
    if s.len() == 0 {
        Seq::empty()
    } else {
        escaped(s.drop_last()) + escape_char(s.last())
    }
}

/// Appends the escape of `s`.
pub fn push_escaped(out: &mut String, s: &str)
    ensures
        final(out)@ == old(out)@ + escaped(s@),
{
    let cs = crate::text::chars_of(s);
    let mut i: usize = 0;
    while i < cs.len()
        invariant
            i <= cs.len(),
            cs@ == s@,
            out@ == old(out)@ + escaped(s@.take(i as int)),
        decreases cs.len() - i,
    {
        let c = cs[i];
        if c == '&' {
            out.append("&amp;");
        } else if c == '<' {
            out.append("&lt;");
        } else if c == '>' {
            out.append("&gt;");
        } else if c == '"' {
            out.append("&quot;");
        } else if c == '\'' {
            out.append("&#x27;");
        } else {
            push_char(out, c);
        }
        proof {
            let t = s@.take(i + 1);
            assert(t.drop_last() =~= s@.take(i as int));
            assert(t.last() == c);
            assert(out@ =~= old(out)@ + escaped(t));
        }
        i = i + 1;
    }
    proof {
        assert(s@.take(s@.len() as int) =~= s@);
    }
}

/// Escapes the HTML special characters `&`, `<`, `>`, `"` and `'`.
pub fn html_escape(s: &str) -> (r: String)
    ensures
        r@ == escaped(s@),
{
    let mut out = String::new();
    push_escaped(&mut out, s);
    proof {
        assert(out@ =~= escaped(s@));
    }
    out
}

/// Escaping a text in two parts gives the escapes of the parts one after
/// the other: each character is escaped on its own.
pub proof fn lemma_escaped_concat(a: Seq<char>, b: Seq<char>)
    ensures
        escaped(a + b) == escaped(a) + escaped(b),
    decreases b.len(),
{
    if b.len() == 0 {
        assert(a + b =~= a);
        assert(escaped(a) + escaped(b) =~= escaped(a));
    } else {
        assert((a + b).drop_last() =~= a + b.drop_last());
        assert((a + b).last() == b.last());
        lemma_escaped_concat(a, b.drop_last());
        assert(escaped(a + b) =~= escaped(a) + escaped(b));
    }
}

/// A single character escapes to its own escape.
pub proof fn lemma_escaped_single(c: char)
    ensures
        escaped(seq![c]) == escape_char(c),
{
    let q = seq![c];
    assert(q.drop_last() =~= Seq::<char>::empty());
    assert(q.last() == c);
    assert(escaped(q.drop_last()) =~= Seq::<char>::empty());
    assert(escaped(q) =~= escape_char(c));
}

/// Escaped text holds no `<`, `>`, `"` or `'`, so it cannot open or close a
/// tag or leave a quoted attribute.
pub proof fn lemma_escaped_is_inert(s: Seq<char>)
    ensures
        forall|i: int| 0 <= i < escaped(s).len() ==> {
            let c = #[trigger] escaped(s)[i];
            c != '<' && c != '>' && c != '"' && c != '\''
        },
    decreases s.len(),
{
    reveal_strlit("&amp;");
    reveal_strlit("&lt;");
    reveal_strlit("&gt;");
    reveal_strlit("&quot;");
    reveal_strlit("&#x27;");
    if s.len() > 0 {
        lemma_escaped_is_inert(s.drop_last());
        let a = escaped(s.drop_last());
        let b = escape_char(s.last());
        assert forall|i: int| 0 <= i < (a + b).len() implies {
            let c = #[trigger] (a + b)[i];
            c != '<' && c != '>' && c != '"' && c != '\''
        } by {
            if i < a.len() {
                assert((a + b)[i] == a[i]);
            } else {
                assert((a + b)[i] == b[i - a.len()]);
            }
        }
    }
}

// ---------------------------------------------------------------------------
// HTML and Markdown reports
// ---------------------------------------------------------------------------

/// `a / b` as Rust divides integers (towards zero).
pub open spec fn tdiv(a: int, b: int) -> int {
    if a >= 0 { a / b } else { -((-a) / b) }
}

/// `a % b` as Rust takes remainders (sign of `a`).
pub open spec fn trem(a: int, b: int) -> int {
    a - b * tdiv(a, b)
}

/// Whole hours of a number of seconds.
pub open spec fn hours_of(secs: int) -> int {
    tdiv(secs, 3600)
}

/// Remaining whole minutes of a number of seconds.
pub open spec fn minutes_of(secs: int) -> int {
    tdiv(trem(secs, 3600), 60)
}

/// Every running total of the durations fits in an `i64`.
pub open spec fn totals_fit(vs: Seq<SegmentView>) -> bool {
    forall|k: int| 0 <= k <= vs.len() ==> i64::MIN <= #[trigger] total_duration(vs.take(k)) <= i64::MAX
}

/// The summary shown for a segment: its text, or a dash without one.
pub open spec fn shown_summary(s: SegmentView) -> Seq<char> {
    match s.llm_summary {
        Some(t) => t,
        None => "—"@,
    }
}

/// Sum of the durations of the segments.
pub fn total_secs_of(segments: &Vec<ActivitySegment>) -> (t: i64)
    requires
        totals_fit(seg_views(segments@)),
    ensures
        t == total_duration(seg_views(segments@)),
{
    total_secs(segments)
}

/// Sum of the durations of the segments.
fn total_secs(segments: &Vec<ActivitySegment>) -> (t: i64)
    requires
        totals_fit(seg_views(segments@)),
    ensures
        t == total_duration(seg_views(segments@)),
{
    let ghost vs = seg_views(segments@);
    let mut t: i64 = 0;
    let mut i: usize = 0;
    while i < segments.len()
        invariant
            i <= segments.len(),
            vs == seg_views(segments@),
            totals_fit(vs),
            t == total_duration(vs.take(i as int)),
        decreases segments.len() - i,
    {
        proof {
            assert(vs.take(i + 1).drop_last() =~= vs.take(i as int));
            assert(i64::MIN <= total_duration(vs.take(i + 1)) <= i64::MAX);
        }
        t = t + segments[i].duration_secs;
        i = i + 1;
    }
    proof {
        assert(vs.take(vs.len() as int) =~= vs);
    }
    t
}

/// Appends `{h}小时{m}分钟` of a number of seconds.
fn push_hours_minutes(out: &mut String, secs: i64)
    ensures
        final(out)@ == old(out)@ + int_dec(hours_of(secs as int)) + "小时"@ + int_dec(minutes_of(secs as int)) + "分钟"@,
{
    let h = secs / 3600;
    let m = (secs % 3600) / 60;
    push_int(out, h);
    out.append("小时");
    push_int(out, m);
    out.append("分钟");
}

/// The head of the HTML report.
pub open spec fn html_head(title: Seq<char>, label: Seq<char>, total: int) -> Seq<char> {
    "<h2>"@ + escaped(title) + "</h2>\n<p><strong>"@ + escaped(label) + "</strong> — 总耗时: "@
        + int_dec(hours_of(total)) + "小时"@ + int_dec(minutes_of(total)) + "分钟"@
        + "</p>\n<h3>活动分类统计</h3>\n<ul>"@
}

/// One list item per category.
pub open spec fn html_items(b: Seq<(Seq<char>, i64)>) -> Seq<char>
    decreases b.len(),
{
    if b.len() == 0 {
        Seq::empty()
    } else {
        html_items(b.drop_last()) + "<li><strong>"@ + escaped(b.last().0) + "</strong>: "@
            + int_dec(hours_of(b.last().1 as int)) + "小时"@ + int_dec(minutes_of(b.last().1 as int)) + "分钟"@
            + "</li>"@
    }
}

/// The table row of a segment: start, summary, category, minutes.
pub open spec fn html_row(s: SegmentView) -> Seq<char> {
    "<tr><td>"@ + escaped(s.start_time) + "</td><td>"@ + escaped(shown_summary(s)) + "</td><td>"@
        + escaped(s.category) + "</td><td>"@ + int_dec(tdiv(s.duration_secs as int, 60)) + "分钟</td></tr>"@
}

/// One table row per segment.
pub open spec fn html_rows(vs: Seq<SegmentView>) -> Seq<char>
    decreases vs.len(),
{
    if vs.len() == 0 {
        Seq::empty()
    } else {
        html_rows(vs.drop_last()) + html_row(vs.last())
    }
}

/// Appends the table row of a segment.
fn push_html_row(html: &mut String, s: &ActivitySegment)
    ensures
        final(html)@ == old(html)@ + html_row(s@),
{
    html.append("<tr><td>");
    push_escaped(html, s.start_time.as_str());
    html.append("</td><td>");
    match &s.llm_summary {
        Some(t) => push_escaped(html, t.as_str()),
        None => push_escaped(html, "—"),
    }
    html.append("</td><td>");
    push_escaped(html, s.category.as_str());
    html.append("</td><td>");
    push_int(html, s.duration_secs / 60);
    html.append("分钟</td></tr>");
    proof {
        assert(html@ =~= old(html)@ + html_row(s@));
    }
}

/// The table header of the timeline.
pub open spec fn html_table_head() -> Seq<char> {
    "</ul><h3>时间线</h3><table border='1' cellpadding='4' cellspacing='0' style='border-collapse:collapse;width:100%'><tr><th>时间</th><th>活动</th><th>分类</th><th>时长</th></tr>"@
}

/// The AI summary section, when there is a summary.
pub open spec fn html_summary(summary: Option<Seq<char>>) -> Seq<char> {
    match summary {
        Some(t) => "\n<h3>AI 总结</h3>\n<div style='background:#f5f5f5;padding:12px;border-radius:8px;'>"@
            + escaped(t) + "</div>"@,
        None => Seq::empty(),
    }
}

/// The HTML report: title, date label and total time, the per-category
/// list, the timeline table and, when given, the AI summary; every text
/// from the data escaped.
pub open spec fn report_html(
    title: Seq<char>,
    label: Seq<char>,
    vs: Seq<SegmentView>,
    b: Seq<(Seq<char>, i64)>,
    summary: Option<Seq<char>>,
) -> Seq<char> {
    html_head(title, label, total_duration(vs)) + html_items(b) + html_table_head() + html_rows(vs)
        + "</table>"@ + html_summary(summary)
}

/// The hours and minutes shown for a duration are its whole hours and the
/// whole minutes left over, truncated towards zero as Rust divides: what
/// they leave out is under a minute, and the minutes stay below an hour.
pub proof fn lemma_hours_minutes_of(secs: int)
    ensures
        secs >= 0 ==> {
            &&& 0 <= minutes_of(secs) < 60
            &&& 0 <= secs - 3600 * hours_of(secs) - 60 * minutes_of(secs) < 60
        },
        secs < 0 ==> {
            &&& -60 < minutes_of(secs) <= 0
            &&& -60 < secs - 3600 * hours_of(secs) - 60 * minutes_of(secs) <= 0
        },
{
    if secs >= 0 {
        assert(0 <= secs % 3600 < 3600);
        assert(secs == 3600 * (secs / 3600) + secs % 3600);
        assert(0 <= (secs % 3600) % 60 < 60);
        assert(secs % 3600 == 60 * ((secs % 3600) / 60) + (secs % 3600) % 60);
        assert(trem(secs, 3600) == secs % 3600);
    } else {
        let a = -secs;
        assert(0 <= a % 3600 < 3600);
        assert(a == 3600 * (a / 3600) + a % 3600);
        assert(0 <= (a % 3600) % 60 < 60);
        assert(a % 3600 == 60 * ((a % 3600) / 60) + (a % 3600) % 60);
        assert(trem(secs, 3600) == -(a % 3600));
        assert(tdiv(-(a % 3600), 60) == -((a % 3600) / 60));
    }
}

/// The category list of a breakdown made of two parts is the list of the
/// first part followed by the list of the second: each category's line
/// depends on that category alone.
pub proof fn lemma_html_items_concat(b1: Seq<(Seq<char>, i64)>, b2: Seq<(Seq<char>, i64)>)
    ensures
        html_items(b1 + b2) == html_items(b1) + html_items(b2),
    decreases b2.len(),
{
    if b2.len() == 0 {
        assert(b1 + b2 =~= b1);
        assert(html_items(b2) =~= Seq::<char>::empty());
        assert(html_items(b1) + html_items(b2) =~= html_items(b1));
    } else {
        assert((b1 + b2).drop_last() =~= b1 + b2.drop_last());
        assert((b1 + b2).last() == b2.last());
        lemma_html_items_concat(b1, b2.drop_last());
        assert(html_items(b1 + b2) =~= html_items(b1) + html_items(b2));
    }
}

/// The line of a single category `c` with total `t`: its escaped name and
/// the hours and minutes of `t`.
pub proof fn lemma_html_item_single(c: Seq<char>, t: i64)
    ensures
        html_items(seq![(c, t)]) == "<li><strong>"@ + escaped(c) + "</strong>: "@ + int_dec(hours_of(t as int))
            + "小时"@ + int_dec(minutes_of(t as int)) + "分钟"@ + "</li>"@,
{
    let b = seq![(c, t)];
    assert(b.drop_last() =~= Seq::<(Seq<char>, i64)>::empty());
    assert(html_items(b.drop_last()) =~= Seq::<char>::empty());
    assert(html_items(b) =~= "<li><strong>"@ + escaped(c) + "</strong>: "@ + int_dec(hours_of(t as int))
        + "小时"@ + int_dec(minutes_of(t as int)) + "分钟"@ + "</li>"@);
}

/// Adding a category after the others adds its own line, shown with its
/// own total, and leaves the lines before it as they were.
pub proof fn lemma_html_items_push(b: Seq<(Seq<char>, i64)>, c: Seq<char>, t: i64)
    ensures
        html_items(b.push((c, t))) == html_items(b) + "<li><strong>"@ + escaped(c) + "</strong>: "@
            + int_dec(hours_of(t as int)) + "小时"@ + int_dec(minutes_of(t as int)) + "分钟"@ + "</li>"@,
{
    assert(b.push((c, t)) =~= b + seq![(c, t)]);
    lemma_html_items_concat(b, seq![(c, t)]);
    lemma_html_item_single(c, t);
    assert(html_items(b.push((c, t))) =~= html_items(b) + "<li><strong>"@ + escaped(c) + "</strong>: "@
        + int_dec(hours_of(t as int)) + "小时"@ + int_dec(minutes_of(t as int)) + "分钟"@ + "</li>"@);
}

/// The timeline rows of two runs of segments are the rows of the first
/// followed by those of the second: each row depends on its segment alone.
pub proof fn lemma_html_rows_concat(v1: Seq<SegmentView>, v2: Seq<SegmentView>)
    ensures
        html_rows(v1 + v2) == html_rows(v1) + html_rows(v2),
    decreases v2.len(),
{
    if v2.len() == 0 {
        assert(v1 + v2 =~= v1);
        assert(html_rows(v2) =~= Seq::<char>::empty());
        assert(html_rows(v1) + html_rows(v2) =~= html_rows(v1));
    } else {
        assert((v1 + v2).drop_last() =~= v1 + v2.drop_last());
        assert((v1 + v2).last() == v2.last());
        lemma_html_rows_concat(v1, v2.drop_last());
        assert(html_rows(v1 + v2) =~= html_rows(v1) + html_rows(v2));
    }
}

/// The row of a single segment: its start, its summary (or a dash), its
/// category and its whole minutes, each escaped.
pub proof fn lemma_html_row_single(s: SegmentView)
    ensures
        html_rows(seq![s]) == "<tr><td>"@ + escaped(s.start_time) + "</td><td>"@ + escaped(shown_summary(s))
            + "</td><td>"@ + escaped(s.category) + "</td><td>"@ + int_dec(tdiv(s.duration_secs as int, 60))
            + "分钟</td></tr>"@,
{
    let v = seq![s];
    assert(v.drop_last() =~= Seq::<SegmentView>::empty());
    assert(html_rows(v.drop_last()) =~= Seq::<char>::empty());
    assert(html_rows(v) =~= html_row(s));
}

/// Renders a report as HTML (see `report_html`).
pub fn build_report_html(
    title: &str,
    date_label: &str,
    segments: &Vec<ActivitySegment>,
    breakdown: &Vec<(String, i64)>,
    llm_summary: Option<&str>,
) -> (html: String)
    requires
        totals_fit(seg_views(segments@)),
    ensures
        html@ == report_html(title@, date_label@, seg_views(segments@), pair_views(breakdown@), crate::text::opt_str_ref(llm_summary)),
{
    let ghost vs = seg_views(segments@);
    let ghost b = pair_views(breakdown@);
    let total = total_secs(segments);
    let mut html = String::from_str("<h2>");
    push_escaped(&mut html, title);
    html.append("</h2>\n<p><strong>");
    push_escaped(&mut html, date_label);
    html.append("</strong> — 总耗时: ");
    push_hours_minutes(&mut html, total);
    html.append("</p>\n<h3>活动分类统计</h3>\n<ul>");
    proof {
        assert(html@ =~= html_head(title@, date_label@, total_duration(vs)));
    }
    let ghost head = html@;
    let mut i: usize = 0;
    while i < breakdown.len()
        invariant
            i <= breakdown.len(),
            b == pair_views(breakdown@),
            html@ == head + html_items(b.take(i as int)),
        decreases breakdown.len() - i,
    {
        let ghost before = html@;
        html.append("<li><strong>");
        push_escaped(&mut html, breakdown[i].0.as_str());
        html.append("</strong>: ");
        push_hours_minutes(&mut html, breakdown[i].1);
        html.append("</li>");
        proof {
            let t = b.take(i + 1);
            assert(t.drop_last() =~= b.take(i as int));
            assert(t.last() == b[i as int]);
            assert(html@ =~= head + html_items(t));
        }
        i = i + 1;
    }
    proof {
        assert(b.take(b.len() as int) =~= b);
    }
    html.append("</ul><h3>时间线</h3><table border='1' cellpadding='4' cellspacing='0' style='border-collapse:collapse;width:100%'><tr><th>时间</th><th>活动</th><th>分类</th><th>时长</th></tr>");
    let ghost mid = html@;
    let mut j: usize = 0;
    while j < segments.len()
        invariant
            j <= segments.len(),
            vs == seg_views(segments@),
            html@ == mid + html_rows(vs.take(j as int)),
        decreases segments.len() - j,
    {
        let s = &segments[j];
        push_html_row(&mut html, s);
        proof {
            let t = vs.take(j + 1);
            assert(t.drop_last() =~= vs.take(j as int));
            assert(t.last() == s@);
            assert(html@ =~= mid + html_rows(t));
        }
        j = j + 1;
    }
    proof {
        assert(vs.take(vs.len() as int) =~= vs);
    }
    html.append("</table>");
    match llm_summary {
        Some(t) => {
            html.append("\n<h3>AI 总结</h3>\n<div style='background:#f5f5f5;padding:12px;border-radius:8px;'>");
            push_escaped(&mut html, t);
            html.append("</div>");
        },
        None => {},
    }
    proof {
        assert(html@ =~= report_html(title@, date_label@, vs, b, crate::text::opt_str_ref(llm_summary)));
    }
    html
}

/// The head of the Markdown report.
pub open spec fn md_head(title: Seq<char>, label: Seq<char>, total: int) -> Seq<char> {
    "# "@ + escaped(title) + "\n\n**"@ + escaped(label) + "** — 总耗时: "@
        + int_dec(hours_of(total)) + "小时"@ + int_dec(minutes_of(total)) + "分钟"@
        + "\n\n## 活动分类统计\n\n"@
}

/// The list line of a category.
pub open spec fn md_item(p: (Seq<char>, i64)) -> Seq<char> {
    "- **"@ + escaped(p.0) + "**: "@ + int_dec(hours_of(p.1 as int)) + "小时"@
        + int_dec(minutes_of(p.1 as int)) + "分钟"@ + "\n"@
}

/// One list line per category.
pub open spec fn md_items(b: Seq<(Seq<char>, i64)>) -> Seq<char>
    decreases b.len(),
{
    if b.len() == 0 { Seq::empty() } else { md_items(b.drop_last()) + md_item(b.last()) }
}

/// The table line of a segment.
pub open spec fn md_row(s: SegmentView) -> Seq<char> {
    "| "@ + escaped(s.start_time) + " | "@ + escaped(shown_summary(s)) + " | "@ + escaped(s.category)
        + " | "@ + int_dec(tdiv(s.duration_secs as int, 60)) + "分钟 |\n"@
}

/// One table line per segment.
pub open spec fn md_rows(vs: Seq<SegmentView>) -> Seq<char>
    decreases vs.len(),
{
    if vs.len() == 0 { Seq::empty() } else { md_rows(vs.drop_last()) + md_row(vs.last()) }
}

/// The AI summary section of the Markdown report.
pub open spec fn md_summary(summary: Option<Seq<char>>) -> Seq<char> {
    match summary {
        Some(t) => "\n## AI 总结\n\n"@ + escaped(t) + "\n"@,
        None => Seq::empty(),
    }
}

/// The Markdown report, with the same parts as the HTML one.
pub open spec fn report_markdown(
    title: Seq<char>,
    label: Seq<char>,
    vs: Seq<SegmentView>,
    b: Seq<(Seq<char>, i64)>,
    summary: Option<Seq<char>>,
) -> Seq<char> {
    md_head(title, label, total_duration(vs)) + md_items(b)
        + "\n## 时间线\n\n| 时间 | 活动 | 分类 | 时长 |\n|------|------|------|------|\n"@ + md_rows(vs)
        + md_summary(summary)
}

/// The Markdown category list of two parts is the list of the first part
/// followed by the list of the second.
pub proof fn lemma_md_items_concat(b1: Seq<(Seq<char>, i64)>, b2: Seq<(Seq<char>, i64)>)
    ensures
        md_items(b1 + b2) == md_items(b1) + md_items(b2),
    decreases b2.len(),
{
    if b2.len() == 0 {
        assert(b1 + b2 =~= b1);
        assert(md_items(b2) =~= Seq::<char>::empty());
        assert(md_items(b1) + md_items(b2) =~= md_items(b1));
    } else {
        assert((b1 + b2).drop_last() =~= b1 + b2.drop_last());
        assert((b1 + b2).last() == b2.last());
        lemma_md_items_concat(b1, b2.drop_last());
        assert(md_items(b1 + b2) =~= md_items(b1) + md_items(b2));
    }
}

/// The Markdown line of a single category `c` with total `t`.
pub proof fn lemma_md_item_single(c: Seq<char>, t: i64)
    ensures
        md_items(seq![(c, t)]) == "- **"@ + escaped(c) + "**: "@ + int_dec(hours_of(t as int)) + "小时"@
            + int_dec(minutes_of(t as int)) + "分钟"@ + "\n"@,
{
    let b = seq![(c, t)];
    assert(b.drop_last() =~= Seq::<(Seq<char>, i64)>::empty());
    assert(md_items(b.drop_last()) =~= Seq::<char>::empty());
    assert(md_items(b) =~= md_item((c, t)));
}

/// The Markdown timeline of two runs of segments is the timeline of the
/// first followed by that of the second.
pub proof fn lemma_md_rows_concat(v1: Seq<SegmentView>, v2: Seq<SegmentView>)
    ensures
        md_rows(v1 + v2) == md_rows(v1) + md_rows(v2),
    decreases v2.len(),
{
    if v2.len() == 0 {
        assert(v1 + v2 =~= v1);
        assert(md_rows(v2) =~= Seq::<char>::empty());
        assert(md_rows(v1) + md_rows(v2) =~= md_rows(v1));
    } else {
        assert((v1 + v2).drop_last() =~= v1 + v2.drop_last());
        assert((v1 + v2).last() == v2.last());
        lemma_md_rows_concat(v1, v2.drop_last());
        assert(md_rows(v1 + v2) =~= md_rows(v1) + md_rows(v2));
    }
}

/// The Markdown row of a single segment.
pub proof fn lemma_md_row_single(s: SegmentView)
    ensures
        md_rows(seq![s]) == "| "@ + escaped(s.start_time) + " | "@ + escaped(shown_summary(s)) + " | "@
            + escaped(s.category) + " | "@ + int_dec(tdiv(s.duration_secs as int, 60)) + "分钟 |\n"@,
{
    let v = seq![s];
    assert(v.drop_last() =~= Seq::<SegmentView>::empty());
    assert(md_rows(v.drop_last()) =~= Seq::<char>::empty());
    assert(md_rows(v) =~= md_row(s));
}

fn push_md_item(md: &mut String, p: &(String, i64))
    ensures
        final(md)@ == old(md)@ + md_item((p.0@, p.1)),
{
    md.append("- **");
    push_escaped(md, p.0.as_str());
    md.append("**: ");
    push_hours_minutes(md, p.1);
    md.append("\n");
    proof {
        assert(md@ =~= old(md)@ + md_item((p.0@, p.1)));
    }
}

fn push_md_row(md: &mut String, s: &ActivitySegment)
    ensures
        final(md)@ == old(md)@ + md_row(s@),
{
    md.append("| ");
    push_escaped(md, s.start_time.as_str());
    md.append(" | ");
    match &s.llm_summary {
        Some(t) => push_escaped(md, t.as_str()),
        None => push_escaped(md, "—"),
    }
    md.append(" | ");
    push_escaped(md, s.category.as_str());
    md.append(" | ");
    push_int(md, s.duration_secs / 60);
    md.append("分钟 |\n");
    proof {
        assert(md@ =~= old(md)@ + md_row(s@));
    }
}

/// Renders a report as Markdown (see `report_markdown`).
pub fn build_markdown_report(
    title: &str,
    date_label: &str,
    segments: &Vec<ActivitySegment>,
    breakdown: &Vec<(String, i64)>,
    llm_summary: Option<&str>,
) -> (md: String)
    requires
        totals_fit(seg_views(segments@)),
    ensures
        md@ == report_markdown(title@, date_label@, seg_views(segments@), pair_views(breakdown@), crate::text::opt_str_ref(llm_summary)),
{
    let ghost vs = seg_views(segments@);
    let ghost b = pair_views(breakdown@);
    let total = total_secs(segments);
    let mut md = String::from_str("# ");
    push_escaped(&mut md, title);
    md.append("\n\n**");
    push_escaped(&mut md, date_label);
    md.append("** — 总耗时: ");
    push_hours_minutes(&mut md, total);
    md.append("\n\n## 活动分类统计\n\n");
    proof {
        assert(md@ =~= md_head(title@, date_label@, total_duration(vs)));
    }
    let ghost head = md@;
    let mut i: usize = 0;
    while i < breakdown.len()
        invariant
            i <= breakdown.len(),
            b == pair_views(breakdown@),
            md@ == head + md_items(b.take(i as int)),
        decreases breakdown.len() - i,
    {
        push_md_item(&mut md, &breakdown[i]);
        proof {
            let t = b.take(i + 1);
            assert(t.drop_last() =~= b.take(i as int));
            assert(t.last() == b[i as int]);
            assert(md@ =~= head + md_items(t));
        }
        i = i + 1;
    }
    proof {
        assert(b.take(b.len() as int) =~= b);
    }
    md.append("\n## 时间线\n\n| 时间 | 活动 | 分类 | 时长 |\n|------|------|------|------|\n");
    let ghost mid = md@;
    let mut j: usize = 0;
    while j < segments.len()
        invariant
            j <= segments.len(),
            vs == seg_views(segments@),
            md@ == mid + md_rows(vs.take(j as int)),
        decreases segments.len() - j,
    {
        push_md_row(&mut md, &segments[j]);
        proof {
            let t = vs.take(j + 1);
            assert(t.drop_last() =~= vs.take(j as int));
            assert(t.last() == segments@[j as int]@);
            assert(md@ =~= mid + md_rows(t));
        }
        j = j + 1;
    }
    proof {
        assert(vs.take(vs.len() as int) =~= vs);
    }
    match llm_summary {
        Some(t) => {
            md.append("\n## AI 总结\n\n");
            push_escaped(&mut md, t);
            md.append("\n");
        },
        None => {},
    }
    proof {
        assert(md@ =~= report_markdown(title@, date_label@, vs, b, crate::text::opt_str_ref(llm_summary)));
    }
    md
}

// ---------------------------------------------------------------------------
// Date ranges of reports
// ---------------------------------------------------------------------------

/// Day number of the first day of a week that ends on `end`: six days
/// earlier, or `end` itself when that is out of range.
pub open spec fn week_start_days(end: Date) -> int {
    if end.days() - 6 >= day_number(MIN_YEAR as int, 1, 1) { end.days() - 6 } else { end.days() }
}

/// Day number of the last day of month `m` of year `y`: the day before the
/// first of the next month, or the first of the month when the next month
/// is out of range (and the next month's first day when it has no
/// predecessor in range).
pub open spec fn month_end_days(y: int, m: int) -> int {
    let (ny, nm) = if m == 12 { (y + 1, 1int) } else { (y, m + 1) };
    if valid_ymd(ny, nm, 1) {
        let n = day_number(ny, nm, 1);
        if n - 1 >= day_number(MIN_YEAR as int, 1, 1) { n - 1 } else { n }
    } else {
        day_number(y, m, 1)
    }
}

/// A month's range ends on its last day: whenever the next month can be
/// represented, the end is the day numbered like day `days_in_month` of
/// the month, a valid date of that month.  A week's range starts six days
/// before its end whenever that day can be represented.
pub proof fn lemma_range_ends(y: int, m: int, end: Date)
    requires
        valid_ymd(y, m, 1),
        valid_ymd(if m == 12 { y + 1 } else { y }, if m == 12 { 1 } else { m + 1 }, 1),
    ensures
        month_end_days(y, m) == day_number(y, m, days_in_month(y, m)),
        valid_ymd(y, m, days_in_month(y, m)),
        28 <= days_in_month(y, m) <= 31,
        end.days() - 6 >= day_number(MIN_YEAR as int, 1, 1) ==> end.days() - week_start_days(end) == 6,
{
    crate::datetime::lemma_next_day(y, m, days_in_month(y, m));
    crate::datetime::lemma_day_number_monotone(MIN_YEAR as int, 1, 1, y, m, days_in_month(y, m));
}

/// The texts of a weekly range ending on the date written `end`.
pub open spec fn week_range_ok(end: Seq<char>, from: Seq<char>, to: Seq<char>, label: Seq<char>) -> bool {
    match ymd_parse(end) {
        Ok(t) => exists|st: Date| {
            &&& st.wf()
            &&& st.days() == week_start_days(Date { year: t.0, month: t.1, day: t.2 })
            &&& from == #[trigger] date_text(st)
            &&& to == end + " 23:59:59"@
            &&& label == from + " ~ "@ + end
        },
        Err(_) => false,
    }
}

/// The texts of the range of month `m` of year `y`.
pub open spec fn month_range_ok(y: i32, m: u32, from: Seq<char>, to: Seq<char>, label: Seq<char>) -> bool {
    &&& from == date_text(Date { year: y, month: m, day: 1 })
    &&& exists|e: Date| e.wf() && e.days() == month_end_days(y as int, m as int) && to == #[trigger] date_text(e) + " 23:59:59"@
    &&& label == int_dec(y as int) + "年"@ + int_dec(m as int) + "月"@
}

/// The week ending on the date `end` (`%Y-%m-%d`): its first day, the end
/// of its last day (`"{end} 23:59:59"`) and its label `"{from} ~ {end}"`.
pub fn week_range(end: &str) -> (res: Result<(String, String, String), String>)
    ensures
        match res {
            Ok((from, to, label)) => week_range_ok(end@, from@, to@, label@),
            Err(e) => ymd_parse(end@) matches Err(m) && e@ == "Invalid end_date format: "@ + m,
        },
        res is Ok <==> ymd_parse(end@) is Ok,
{
    let end_dt = match parse_ymd(end) {
        Ok(d) => d,
        Err(m) => {
            return Err(String::from_str("Invalid end_date format: ").concat(m.as_str()));
        },
    };
    let start = match date_sub_days(end_dt, 6) {
        Some(d) => d,
        None => end_dt,
    };
    let from = format_date(&start);
    let to = String::from_str(end).concat(" 23:59:59");
    let label = from.clone().concat(" ~ ").concat(end);
    proof {
        assert(from@ == date_text(start));
    }
    Ok((from, to, label))
}

/// The month `m` of year `y`: its first day, the end of its last day and
/// its label `"{y}年{m}月"`; an error when the month does not exist.
pub fn month_range(y: i32, m: u32) -> (res: Result<(String, String, String), String>)
    ensures
        match res {
            Ok((from, to, label)) => month_range_ok(y, m, from@, to@, label@),
            Err(e) => e@ == "Invalid year/month: "@ + int_dec(y as int) + "-"@ + int_dec(m as int),
        },
        res is Ok <==> valid_ymd(y as int, m as int, 1),
{
    let start = match date_from_ymd(y, m, 1) {
        Some(d) => d,
        None => {
            let mut e = String::from_str("Invalid year/month: ");
            push_int(&mut e, y as i64);
            e.append("-");
            push_int(&mut e, m as i64);
            return Err(e);
        },
    };
    let next = if m == 12 { date_from_ymd(y + 1, 1, 1) } else { date_from_ymd(y, m + 1, 1) };
    let end = match next {
        Some(d) => match date_pred(d) {
            Some(p) => p,
            None => d,
        },
        None => start,
    };
    let from = format_date(&start);
    let to = format_date(&end).concat(" 23:59:59");
    let mut label = String::new();
    push_int(&mut label, y as i64);
    label.append("年");
    push_int(&mut label, m as i64);
    label.append("月");
    proof {
        assert(label@ =~= int_dec(y as int) + "年"@ + int_dec(m as int) + "月"@);
        assert(to@ == date_text(end) + " 23:59:59"@);
    }
    Ok((from, to, label))
}


// ---------------------------------------------------------------------------
// Report requests
// ---------------------------------------------------------------------------

/// The three kinds of report.
#[derive(Clone, Copy, Debug, PartialEq, Eq, Structural)]
pub enum ReportKind {
    Daily,
    Weekly,
    Monthly,
}

/// What a request is for, which its error messages name.
#[derive(Clone, Copy, Debug, PartialEq, Eq, Structural)]
pub enum QueryFor {
    Report,
    Summary,
}

/// The word of a request's purpose.
pub open spec fn purpose_word(p: QueryFor) -> Seq<char> {
    match p {
        QueryFor::Report => "report"@,
        QueryFor::Summary => "summary"@,
    }
}

/// Which segments a report covers: those of one date (`YYYY-MM-DD`), or
/// those that start in a range of timestamps.
#[derive(Clone, Debug)]
pub enum SegmentQuery {
    ByDate(String),
    InRange(String, String),
}

/// A checked report request.
#[derive(Clone, Debug)]
pub struct ReportQuery {
    pub kind: ReportKind,
    pub title: String,
    pub date_label: String,
    pub query: SegmentQuery,
}

/// The message for an unknown report type.
pub open spec fn unknown_type_text(t: Seq<char>) -> Seq<char> {
    "Unknown report_type: "@ + t + ", expected 'daily', 'weekly', or 'monthly'"@
}

/// What `report_query` answers for each input.
pub open spec fn query_answer(
    t: Seq<char>,
    date: Option<Seq<char>>,
    end_date: Option<Seq<char>>,
    year: Option<i32>,
    month: Option<u32>,
    p: QueryFor,
    res: Result<ReportQuery, String>,
) -> bool {
    if t == "daily"@ {
        match date {
            None => res matches Err(e) && e@ == "date is required for daily "@ + purpose_word(p),
            Some(d) => res matches Ok(q) && (q.kind == ReportKind::Daily && q.title@ == "日报"@
                && q.date_label@ == d && (q.query matches SegmentQuery::ByDate(x) && x@ == d)),
        }
    } else if t == "weekly"@ {
        match end_date {
            None => res matches Err(e) && e@ == "end_date is required for weekly "@ + purpose_word(p),
            Some(end) => match res {
                Ok(q) => q.kind == ReportKind::Weekly && q.title@ == "周报"@ && ymd_parse(end) is Ok
                    && (q.query matches SegmentQuery::InRange(f, to) && week_range_ok(end, f@, to@, q.date_label@)),
                Err(e) => ymd_parse(end) matches Err(m) && e@ == "Invalid end_date format: "@ + m,
            },
        }
    } else if t == "monthly"@ {
        match (year, month) {
            (None, _) => res matches Err(e) && e@ == "year is required for monthly "@ + purpose_word(p),
            (Some(_), None) => res matches Err(e) && e@ == "month is required for monthly "@ + purpose_word(p),
            (Some(y), Some(m)) => match res {
                Ok(q) => q.kind == ReportKind::Monthly && q.title@ == "月报"@ && valid_ymd(y as int, m as int, 1)
                    && (q.query matches SegmentQuery::InRange(f, to) && month_range_ok(y, m, f@, to@, q.date_label@)),
                Err(e) => !valid_ymd(y as int, m as int, 1)
                    && e@ == "Invalid year/month: "@ + int_dec(y as int) + "-"@ + int_dec(m as int),
            },
        }
    } else {
        res matches Err(e) && e@ == unknown_type_text(t)
    }
}

/// Checks a report request and works out its title, date label and the
/// segments it covers: one date for a daily report, the seven days ending
/// on `end_date` for a weekly one, a calendar month for a monthly one.
pub fn report_query(
    report_type: &str,
    date: Option<&str>,
    end_date: Option<&str>,
    year: Option<i32>,
    month: Option<u32>,
    purpose: QueryFor,
) -> (res: Result<ReportQuery, String>)
    ensures
        query_answer(report_type@, opt_str_ref(date), opt_str_ref(end_date), year, month, purpose, res),
{
    let word = match purpose {
        QueryFor::Report => "report",
        QueryFor::Summary => "summary",
    };
    if str_eq(report_type, "daily") {
        match date {
            None => Err(String::from_str("date is required for daily ").concat(word)),
            Some(d) => Ok(ReportQuery {
                kind: ReportKind::Daily,
                title: String::from_str("日报"),
                date_label: String::from_str(d),
                query: SegmentQuery::ByDate(String::from_str(d)),
            }),
        }
    } else if str_eq(report_type, "weekly") {
        match end_date {
            None => Err(String::from_str("end_date is required for weekly ").concat(word)),
            Some(end) => match week_range(end) {
                Ok((from, to, label)) => Ok(ReportQuery {
                    kind: ReportKind::Weekly,
                    title: String::from_str("周报"),
                    date_label: label,
                    query: SegmentQuery::InRange(from, to),
                }),
                Err(e) => Err(e),
            },
        }
    } else if str_eq(report_type, "monthly") {
        match year {
            None => Err(String::from_str("year is required for monthly ").concat(word)),
            Some(y) => match month {
                None => Err(String::from_str("month is required for monthly ").concat(word)),
                Some(m) => match month_range(y, m) {
                    Ok((from, to, label)) => Ok(ReportQuery {
                        kind: ReportKind::Monthly,
                        title: String::from_str("月报"),
                        date_label: label,
                        query: SegmentQuery::InRange(from, to),
                    }),
                    Err(e) => Err(e),
                },
            },
        }
    } else {
        Err(String::from_str("Unknown report_type: ").concat(report_type).concat(
            ", expected 'daily', 'weekly', or 'monthly'",
        ))
    }
}

/// The title of a kind of report.
pub open spec fn kind_title(kind: ReportKind) -> Seq<char> {
    match kind {
        ReportKind::Daily => "日报"@,
        ReportKind::Weekly => "周报"@,
        ReportKind::Monthly => "月报"@,
    }
}

/// The text returned for a period without any recorded activity.
pub open spec fn empty_report_spec(kind: ReportKind, label: Seq<char>) -> Seq<char> {
    match kind {
        ReportKind::Daily => "# "@ + label + " 日报\n\n当天没有记录到活动。"@,
        ReportKind::Weekly => "# "@ + label + " 周报\n\n该周期内没有记录到活动。"@,
        ReportKind::Monthly => "# "@ + label + " 月报\n\n该月没有记录到活动。"@,
    }
}

/// The report of a period without any recorded activity.
pub fn empty_report_text(kind: ReportKind, label: &str) -> (s: String)
    ensures
        s@ == empty_report_spec(kind, label@),
{
    let head = String::from_str("# ").concat(label);
    match kind {
        ReportKind::Daily => head.concat(" 日报\n\n当天没有记录到活动。"),
        ReportKind::Weekly => head.concat(" 周报\n\n该周期内没有记录到活动。"),
        ReportKind::Monthly => head.concat(" 月报\n\n该月没有记录到活动。"),
    }
}

/// The summary prompt of a kind of report in a locale.
pub fn summary_prompt(kind: ReportKind, locale: &str) -> (p: &'static str)
    ensures
        p@ == match kind {
            ReportKind::Daily => if crate::config::is_english(locale@) { crate::config::DAILY_SUMMARY_PROMPT_EN@ } else { crate::config::DAILY_SUMMARY_PROMPT@ },
            ReportKind::Weekly => if crate::config::is_english(locale@) { crate::config::WEEKLY_SUMMARY_PROMPT_EN@ } else { crate::config::WEEKLY_SUMMARY_PROMPT_ZH@ },
            ReportKind::Monthly => if crate::config::is_english(locale@) { crate::config::MONTHLY_SUMMARY_PROMPT_EN@ } else { crate::config::MONTHLY_SUMMARY_PROMPT_ZH@ },
        },
{
    match kind {
        ReportKind::Daily => crate::config::get_daily_summary_prompt(locale),
        ReportKind::Weekly => crate::config::get_weekly_summary_prompt(locale),
        ReportKind::Monthly => crate::config::get_monthly_summary_prompt(locale),
    }
}

// ---------------------------------------------------------------------------
// Report data
// ---------------------------------------------------------------------------

/// A report without an AI summary.
#[derive(Clone, Debug)]
pub struct ReportData {
    pub title: String,
    pub date_label: String,
    pub total_seconds: i64,
    pub segments: Vec<ActivitySegment>,
    pub breakdown: Vec<(String, i64)>,
    pub html: String,
    pub markdown: String,
    pub has_existing_summary: bool,
}

/// Builds a report from the segments of its period (in start order): the
/// timeline is merged, the per-category totals and both renderings are
/// taken of the merged timeline, the total of the segments as given.
/// `existing_summary` is the AI summary already stored for the period.
pub fn assemble_report_data(
    title: &str,
    date_label: String,
    segments: Vec<ActivitySegment>,
    existing_summary: Option<String>,
) -> (r: ReportData)
    requires
        run_totals_fit(seg_views(segments@)),
        totals_fit(seg_views(segments@)),
        totals_fit(merged(seg_views(segments@))),
        cat_totals_fit(merged(seg_views(segments@))),
    ensures
        r.title@ == title@,
        r.date_label@ == date_label@,
        r.total_seconds == total_duration(seg_views(segments@)),
        seg_views(r.segments@) == merged(seg_views(segments@)),
        is_breakdown_of(pair_views(r.breakdown@), merged(seg_views(segments@))),
        sorted_desc(pair_views(r.breakdown@)),
        r.html@ == report_html(title@, date_label@, merged(seg_views(segments@)), pair_views(r.breakdown@), None),
        r.markdown@ == report_markdown(title@, date_label@, merged(seg_views(segments@)), pair_views(r.breakdown@), None),
        r.has_existing_summary == (existing_summary matches Some(t) && t@.len() > 0),
{
    let m = merge_adjacent(&segments);
    let total = total_secs(&segments);
    let breakdown = category_breakdown(&m);
    let html = build_report_html(title, date_label.as_str(), &m, &breakdown, None);
    let markdown = build_markdown_report(title, date_label.as_str(), &m, &breakdown, None);
    let has = match &existing_summary {
        Some(t) => t.as_str().unicode_len() > 0,
        None => false,
    };
    ReportData {
        title: String::from_str(title),
        date_label,
        total_seconds: total,
        segments: m,
        breakdown,
        html,
        markdown,
        has_existing_summary: has,
    }
}

// ---------------------------------------------------------------------------
// Stored summaries
// ---------------------------------------------------------------------------

/// One character inside a JSON string: `"` and `\` take a backslash, the
/// control characters below U+0020 take their short form (`\b \t \n \f \r`)
/// or `\u00XX` with lowercase hex digits, and every other character stands
/// as it is.
pub open spec fn json_escape_char(c: char) -> Seq<char> {
    if c == '"' {
        seq!['\\', '"']
    } else if c == '\\' {
        seq!['\\', '\\']
    } else if c == '\u{8}' {
        seq!['\\', 'b']
    } else if c == '\t' {
        seq!['\\', 't']
    } else if c == '\n' {
        seq!['\\', 'n']
    } else if c == '\u{c}' {
        seq!['\\', 'f']
    } else if c == '\r' {
        seq!['\\', 'r']
    } else if (c as u64) < 32 {
        seq!['\\', 'u', '0', '0', hex_digit_char((c as u64) / 16), hex_digit_char((c as u64) % 16)]
    } else {
        seq![c]
    }
}

/// The characters of `s`, each escaped for a JSON string.
pub open spec fn json_escaped(s: Seq<char>) -> Seq<char>
    decreases s.len(),
{
    if s.len() == 0 {
        Seq::empty()
    } else {
        json_escaped(s.drop_last()) + json_escape_char(s.last())
    }
}

/// One pair as a JSON array: `["text",number]`.
pub open spec fn pair_json(p: (Seq<char>, i64)) -> Seq<char> {
    seq!['[', '"'] + json_escaped(p.0) + seq!['"', ','] + int_dec(p.1 as int) + seq![']']
}

/// The pairs of `b`, each as JSON, with commas between them.
pub open spec fn pairs_json_items(b: Seq<(Seq<char>, i64)>) -> Seq<char>
    decreases b.len(),
{
    if b.len() == 0 {
        Seq::empty()
    } else if b.len() == 1 {
        pair_json(b[0])
    } else {
        pairs_json_items(b.drop_last()) + seq![','] + pair_json(b.last())
    }
}

/// A list of `(text, number)` pairs as compact JSON: an array of
/// two-element arrays, `[["a",1],["b",-2]]`, and `[]` for no pairs.
pub open spec fn pairs_json(b: Seq<(Seq<char>, i64)>) -> Seq<char> {
    seq!['['] + pairs_json_items(b) + seq![']']
}

/// Escaping a text for JSON in two parts gives the escapes of the parts one
/// after the other, and a single character escapes on its own.
pub proof fn lemma_json_escaped_concat(a: Seq<char>, b: Seq<char>)
    ensures
        json_escaped(a + b) == json_escaped(a) + json_escaped(b),
    decreases b.len(),
{
    if b.len() == 0 {
        assert(a + b =~= a);
        assert(json_escaped(a) + json_escaped(b) =~= json_escaped(a));
    } else {
        assert((a + b).drop_last() =~= a + b.drop_last());
        assert((a + b).last() == b.last());
        lemma_json_escaped_concat(a, b.drop_last());
        assert(json_escaped(a + b) =~= json_escaped(a) + json_escaped(b));
    }
}

/// A single character escapes for JSON to its own escape.
pub proof fn lemma_json_escaped_single(c: char)
    ensures
        json_escaped(seq![c]) == json_escape_char(c),
{
    let q = seq![c];
    assert(q.drop_last() =~= Seq::<char>::empty());
    assert(q.last() == c);
    assert(json_escaped(q.drop_last()) =~= Seq::<char>::empty());
    assert(json_escaped(q) =~= json_escape_char(c));
}

/// Adding a pair after the others adds, after a comma when there were
/// others, that pair's own JSON: its escaped text and its own number.
pub proof fn lemma_pairs_json_push(b: Seq<(Seq<char>, i64)>, c: Seq<char>, t: i64)
    ensures
        pairs_json_items(b.push((c, t))) == pairs_json_items(b) + (if b.len() > 0 { seq![','] } else { Seq::empty() })
            + seq!['[', '"'] + json_escaped(c) + seq!['"', ','] + int_dec(t as int) + seq![']'],
{
    let q = b.push((c, t));
    assert(q.drop_last() =~= b);
    if b.len() == 0 {
        assert(pairs_json_items(q) =~= pairs_json_items(b) + Seq::<char>::empty()
            + seq!['[', '"'] + json_escaped(c) + seq!['"', ','] + int_dec(t as int) + seq![']']);
    } else {
        assert(pairs_json_items(q) =~= pairs_json_items(b) + seq![',']
            + seq!['[', '"'] + json_escaped(c) + seq!['"', ','] + int_dec(t as int) + seq![']']);
    }
}

/// `serde_json::to_string(&pairs).unwrap_or_default()`.  Its compact
/// formatter writes a `Vec` of tuples as nested arrays with no spaces, a
/// string between quotes with the escapes of `json_escape_char`, and an
/// `i64` in decimal; serialising strings and integers cannot fail.
#[verifier::external_body]
pub(crate) fn to_json_pairs(b: &Vec<(String, i64)>) -> (s: String)
    ensures
        s@ == pairs_json(pair_views(b@)),
{
    serde_json::to_string(b).unwrap_or_default()
}

/// The stored summary of a day with an AI summary: a new record, or the
/// existing one for the date updated (keeping its id, creation time and
/// notes).  Totals, counts, breakdown and HTML are those of `segments`.
pub fn daily_summary_record(
    date: &str,
    segments: &Vec<ActivitySegment>,
    summary: &str,
    existing: Option<&DailySummary>,
) -> (r: DailySummary)
    requires
        totals_fit(seg_views(segments@)),
        cat_totals_fit(seg_views(segments@)),
        segments@.len() <= i64::MAX,
    ensures
        r.date@ == date@,
        r.total_seconds == total_duration(seg_views(segments@)),
        r.segment_count == segments@.len(),
        r.llm_summary matches Some(t) && t@ == summary@,
        exists|b: Seq<(Seq<char>, i64)>| {
            &&& is_breakdown_of(b, seg_views(segments@))
            &&& sorted_desc(b)
            &&& r.activity_breakdown matches Some(j) && j@ == pairs_json(b)
            &&& r.report_html matches Some(h) && h@ == #[trigger] report_html("日报"@, date@, seg_views(segments@), b, Some(summary@))
        },
        exists|now: DateTime| now.wf() && r.updated_at@ == #[trigger] datetime_text(now),
        match existing {
            Some(e) => r.id@ == e.id@ && r.created_at@ == e.created_at@ && opt_str(r.user_notes) == opt_str(e.user_notes),
            None => r.id@.len() == 36 && r.created_at@ == r.updated_at@ && r.user_notes is None,
        },
{
    let total = total_secs(segments);
    let breakdown = category_breakdown(segments);
    let json = to_json_pairs(&breakdown);
    let now = format_datetime(&utc_now());
    let html = build_report_html("日报", date, segments, &breakdown, Some(summary));
    let (id, created_at, user_notes) = match existing {
        Some(e) => (e.id.clone(), e.created_at.clone(), clone_opt(&e.user_notes)),
        None => (new_frame_id(), now.clone(), None),
    };
    proof {
        assert(html@ == report_html("日报"@, date@, seg_views(segments@), pair_views(breakdown@), Some(summary@)));
    }
    DailySummary {
        id,
        date: String::from_str(date),
        total_seconds: total,
        segment_count: segments.len() as i64,
        activity_breakdown: Some(json),
        llm_summary: Some(String::from_str(summary)),
        user_notes,
        report_html: Some(html),
        created_at,
        updated_at: now,
    }
}

/// The stored summary of a week or a month with an AI summary, for the
/// dates `from` to `to`; `daily_trend` is the per-day time of the period.
pub fn period_summary_record(
    kind: ReportKind,
    from: String,
    to: String,
    date_label: &str,
    segments: &Vec<ActivitySegment>,
    summary: &str,
    daily_trend: &Vec<(String, i64)>,
) -> (r: PeriodSummary)
    requires
        kind != ReportKind::Daily,
        totals_fit(seg_views(segments@)),
        cat_totals_fit(seg_views(segments@)),
    ensures
        r.id@.len() == 36,
        r.period_type@ == (if kind == ReportKind::Weekly { "weekly"@ } else { "monthly"@ }),
        r.start_date@ == from@,
        r.end_date@ == to@,
        r.total_seconds == total_duration(seg_views(segments@)),
        r.daily_trend matches Some(j) && j@ == pairs_json(pair_views(daily_trend@)),
        r.llm_summary matches Some(t) && t@ == summary@,
        r.user_notes is None,
        exists|b: Seq<(Seq<char>, i64)>| {
            &&& is_breakdown_of(b, seg_views(segments@))
            &&& sorted_desc(b)
            &&& r.activity_breakdown matches Some(j) && j@ == pairs_json(b)
            &&& r.report_html matches Some(h) && h@ == #[trigger] report_html(
                kind_title(kind),
                date_label@,
                seg_views(segments@),
                b,
                Some(summary@),
            )
        },
        exists|now: DateTime| now.wf() && r.created_at@ == #[trigger] datetime_text(now),
{
    let total = total_secs(segments);
    let breakdown = category_breakdown(segments);
    let json = to_json_pairs(&breakdown);
    let trend = to_json_pairs(daily_trend);
    let title = if kind == ReportKind::Weekly { "周报" } else { "月报" };
    let html = build_report_html(title, date_label, segments, &breakdown, Some(summary));
    let period_type = if kind == ReportKind::Weekly { String::from_str("weekly") } else { String::from_str("monthly") };
    let created = format_datetime(&utc_now());
    proof {
        assert(title@ == kind_title(kind));
        assert(html@ == report_html(kind_title(kind), date_label@, seg_views(segments@), pair_views(breakdown@), Some(summary@)));
    }
    PeriodSummary {
        id: new_frame_id(),
        period_type,
        start_date: from,
        end_date: to,
        total_seconds: total,
        daily_trend: Some(trend),
        activity_breakdown: Some(json),
        llm_summary: Some(String::from_str(summary)),
        user_notes: None,
        report_html: Some(html),
        created_at: created,
    }
}

/// 1970-01-01, chrono's default date.
pub open spec fn epoch_date() -> Date {
    Date { year: 1970, month: 1, day: 1 }
}

/// The dates under which a weekly or monthly AI summary is stored: for a
/// week, the day six days before `end_date` (1970-01-01 when that cannot be
/// worked out) to `end_date` as given; for a month, its first and last
/// days (with year 0 and month 1 standing in for missing ones, and
/// 1970-01-01 for a month that does not exist).
pub fn summary_period_bounds(kind: ReportKind, end_date: Option<&str>, year: Option<i32>, month: Option<u32>) -> (res: (
    String,
    String,
))
    requires
        kind != ReportKind::Daily,
    ensures
        kind == ReportKind::Weekly ==> {
            let end = match end_date { Some(e) => e@, None => Seq::<char>::empty() };
            &&& res.1@ == end
            &&& match ymd_parse(end) {
                Ok(t) => {
                    let d = Date { year: t.0, month: t.1, day: t.2 };
                    if d.days() - 6 >= day_number(MIN_YEAR as int, 1, 1) {
                        exists|st: Date| st.wf() && st.days() == d.days() - 6 && res.0@ == #[trigger] date_text(st)
                    } else {
                        res.0@ == date_text(epoch_date())
                    }
                },
                Err(_) => res.0@ == date_text(epoch_date()),
            }
        },
        kind == ReportKind::Monthly ==> {
            let y = match year { Some(y) => y, None => 0i32 };
            let m = match month { Some(m) => m, None => 1u32 };
            if valid_ymd(y as int, m as int, 1) {
                month_range_ok(y, m, res.0@, res.1@ + " 23:59:59"@, int_dec(y as int) + "年"@ + int_dec(m as int) + "月"@)
            } else {
                res.0@ == date_text(epoch_date()) && res.1@ == date_text(epoch_date())
            }
        },
{
    if kind == ReportKind::Weekly {
        let end = match end_date {
            Some(e) => e,
            None => "",
        };
        proof {
            reveal_strlit("");
        }
        let start = match parse_ymd(end) {
            Ok(d) => match date_sub_days(d, 6) {
                Some(s) => s,
                None => Date { year: 1970, month: 1, day: 1 },
            },
            Err(_) => Date { year: 1970, month: 1, day: 1 },
        };
        let from = format_date(&start);
        let to = String::from_str(end);
        proof {
            let e2 = match end_date { Some(e) => e@, None => Seq::<char>::empty() };
            assert(end@ == e2);
            assert(from@ == date_text(start));
        }
        (from, to)
    } else {
        let y = match year {
            Some(y) => y,
            None => 0,
        };
        let m = match month {
            Some(m) => m,
            None => 1,
        };
        match month_range(y, m) {
            Ok((from, to, _)) => {
                let last = match date_from_ymd(y, m, 1) {
                    Some(start) => {
                        let next = if m == 12 { date_from_ymd(y + 1, 1, 1) } else { date_from_ymd(y, m + 1, 1) };
                        match next {
                            Some(d) => match date_pred(d) {
                                Some(p) => p,
                                None => d,
                            },
                            None => start,
                        }
                    },
                    None => Date { year: 1970, month: 1, day: 1 },
                };
                let _ = to;
                (from, format_date(&last))
            },
            Err(_) => {
                let d = Date { year: 1970, month: 1, day: 1 };
                (format_date(&d), format_date(&d))
            },
        }
    }
}


// ---------------------------------------------------------------------------
// Whether a timeline's durations can be added up
// ---------------------------------------------------------------------------

/// The size of a duration.
pub open spec fn abs_secs(d: i64) -> int {
    if d < 0 { -d } else { d as int }
}

/// Sum of the sizes of the durations of a timeline.
pub open spec fn abs_total(vs: Seq<SegmentView>) -> int
    decreases vs.len(),
{
    if vs.len() == 0 { 0 } else { abs_total(vs.drop_last()) + abs_secs(vs.last().duration_secs) }
}

proof fn lemma_abs_take(vs: Seq<SegmentView>, k: int)
    requires
        0 <= k <= vs.len(),
    ensures
        0 <= abs_total(vs.take(k)) <= abs_total(vs),
    decreases vs.len(),
{
    if k == vs.len() {
        assert(vs.take(k) =~= vs);
        lemma_abs_nonneg(vs);
    } else {
        assert(vs.take(k) =~= vs.drop_last().take(k));
        lemma_abs_take(vs.drop_last(), k);
    }
}

proof fn lemma_abs_nonneg(vs: Seq<SegmentView>)
    ensures
        0 <= abs_total(vs),
    decreases vs.len(),
{
    if vs.len() > 0 {
        lemma_abs_nonneg(vs.drop_last());
    }
}

proof fn lemma_sums_within_abs(vs: Seq<SegmentView>, c: Seq<char>)
    ensures
        -abs_total(vs) <= total_duration(vs) <= abs_total(vs),
        -abs_total(vs) <= run_total(vs) <= abs_total(vs),
        -abs_total(vs) <= cat_total(vs, c) <= abs_total(vs),
    decreases vs.len(),
{
    if vs.len() > 0 {
        lemma_sums_within_abs(vs.drop_last(), c);
        lemma_abs_nonneg(vs.drop_last());
    }
}

proof fn lemma_fits_from_abs(vs: Seq<SegmentView>)
    requires
        abs_total(vs) <= i64::MAX,
    ensures
        totals_fit(vs),
        run_totals_fit(vs),
        cat_totals_fit(vs),
{
    assert forall|k: int| 0 <= k <= vs.len() implies i64::MIN <= #[trigger] total_duration(vs.take(k)) <= i64::MAX by {
        lemma_abs_take(vs, k);
        lemma_sums_within_abs(vs.take(k), Seq::empty());
    }
    assert forall|i: int| 1 <= i <= vs.len() implies i64::MIN <= #[trigger] run_total(vs.take(i)) <= i64::MAX by {
        lemma_abs_take(vs, i);
        lemma_sums_within_abs(vs.take(i), Seq::empty());
    }
    assert forall|k: int| 1 <= k <= vs.len() implies i64::MIN <= #[trigger] cat_total(vs.take(k), vs[k - 1].category)
        <= i64::MAX by {
        lemma_abs_take(vs, k);
        lemma_sums_within_abs(vs.take(k), vs[k - 1].category);
    }
}

proof fn lemma_merged_abs(vs: Seq<SegmentView>)
    requires
        abs_total(vs) <= i64::MAX,
    ensures
        abs_total(merged(vs)) <= abs_total(vs),
    decreases vs.len(),
{
    if vs.len() > 1 {
        let d = vs.drop_last();
        let m = merged(d);
        let s = vs.last();
        lemma_abs_nonneg(d);
        lemma_merged_abs(d);
        lemma_merged_basics(d);
        lemma_abs_nonneg(m.drop_last());
        if m.last().category == s.category {
            let a = absorb(m.last(), s);
            let u = m.update(m.len() - 1, a);
            assert(u.drop_last() =~= m.drop_last());
            assert(a.duration_secs == m.last().duration_secs + s.duration_secs);
        } else {
            assert(m.push(s).drop_last() =~= m);
        }
    }
}

proof fn lemma_filter_abs(vs: Seq<SegmentView>, p: spec_fn(SegmentView) -> bool)
    ensures
        abs_total(vs.filter(p)) <= abs_total(vs),
    decreases vs.len(),
{
    reveal(Seq::filter);
    if vs.len() > 0 {
        lemma_filter_abs(vs.drop_last(), p);
        if p(vs.last()) {
            assert(vs.drop_last().filter(p).push(vs.last()).drop_last() =~= vs.drop_last().filter(p));
        }
    }
}

/// Durations whose sizes add up within an `i64` can be added up in any
/// grouping the reports use: in order, by run, by category, after merging,
/// and over any selection of the segments.
pub proof fn lemma_bounded_durations_fit(vs: Seq<SegmentView>)
    requires
        abs_total(vs) <= i64::MAX,
    ensures
        totals_fit(vs),
        run_totals_fit(vs),
        cat_totals_fit(vs),
        totals_fit(merged(vs)),
        cat_totals_fit(merged(vs)),
        forall|p: spec_fn(SegmentView) -> bool| #[trigger] totals_fit(vs.filter(p)),
{
    lemma_fits_from_abs(vs);
    lemma_merged_abs(vs);
    lemma_fits_from_abs(merged(vs));
    assert forall|p: spec_fn(SegmentView) -> bool| #[trigger] totals_fit(vs.filter(p)) by {
        lemma_filter_abs(vs, p);
        lemma_fits_from_abs(vs.filter(p));
    }
}

/// Whether the sizes of the segments' durations add up within an `i64`;
/// when they do, every total the reports and merges take fits.
pub fn durations_fit(segments: &Vec<ActivitySegment>) -> (r: bool)
    ensures
        r == (abs_total(seg_views(segments@)) <= i64::MAX),
        r ==> {
            let vs = seg_views(segments@);
            &&& totals_fit(vs)
            &&& run_totals_fit(vs)
            &&& cat_totals_fit(vs)
            &&& totals_fit(merged(vs))
            &&& cat_totals_fit(merged(vs))
            &&& forall|p: spec_fn(SegmentView) -> bool| #[trigger] totals_fit(vs.filter(p))
        },
{
    let ghost vs = seg_views(segments@);
    let mut acc: i128 = 0;
    let mut i: usize = 0;
    while i < segments.len()
        invariant
            vs == seg_views(segments@),
            i <= segments.len(),
            acc == abs_total(vs.take(i as int)),
            acc <= i64::MAX,
        decreases segments.len() - i,
    {
        let d = segments[i].duration_secs;
        let a: i128 = if d < 0 { -(d as i128) } else { d as i128 };
        proof {
            assert(vs.take(i + 1).drop_last() =~= vs.take(i as int));
            assert(vs.take(i + 1).last() == segments@[i as int]@);
        }
        if acc + a > i64::MAX as i128 {
            proof {
                lemma_abs_take(vs, i + 1);
            }
            return false;
        }
        acc = acc + a;
        i = i + 1;
    }
    proof {
        assert(vs.take(segments.len() as int) =~= vs);
        lemma_bounded_durations_fit(vs);
    }
    true
}

} // verus!
