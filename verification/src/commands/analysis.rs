//! The decisions behind the analysis commands: the recording status, the
//! merging of segments chosen by the user, a one-shot analysis's segment,
//! and manual segments.

use vstd::prelude::*;
use crate::db::models::{ActivitySegment, SegmentView, seg_views};
use crate::commands::report::{total_duration, totals_fit};
use crate::datetime::{DateTime, datetime_text, date_text, format_datetime, format_date, utc_now, local_now};
use crate::llm::adapter::AnalysisResult;
use crate::screen::new_frame_id;
use crate::scheduler::join_ids;
use crate::text::{opt_str, clone_opt, str_eq};

verus! {

/// The state of the recording engine for the front end.
#[derive(Clone, Copy, Debug)]
pub struct RecordingStatusV2 {
    pub is_recording: bool,
    pub is_paused: bool,
    pub segment_count: i64,
    pub total_seconds: i64,
}

/// The recording status with today's segments.
pub fn recording_status(is_recording: bool, is_paused: bool, today: &Vec<ActivitySegment>) -> (s: RecordingStatusV2)
    requires
        totals_fit(seg_views(today@)),
        today@.len() <= i64::MAX,
    ensures
        s.is_recording == is_recording,
        s.is_paused == is_paused,
        s.segment_count == today@.len(),
        s.total_seconds == total_duration(seg_views(today@)),
{
    let ghost vs = seg_views(today@);
    let mut t: i64 = 0;
    let mut i: usize = 0;
    while i < today.len()
        invariant
            i <= today.len(),
            vs == seg_views(today@),
            totals_fit(vs),
            t == total_duration(vs.take(i as int)),
        decreases today.len() - i,
    {
        proof {
            assert(vs.take(i + 1).drop_last() =~= vs.take(i as int));
            assert(i64::MIN <= total_duration(vs.take(i + 1)) <= i64::MAX);
        }
        t = t + today[i].duration_secs;
        i = i + 1;
    }
    proof {
        assert(vs.take(vs.len() as int) =~= vs);
    }
    RecordingStatusV2 { is_recording, is_paused, segment_count: today.len() as i64, total_seconds: t }
}

/// Today's date, `%Y-%m-%d` of the local clock.
pub fn today_text() -> (s: String)
    ensures
        exists|t: DateTime| t.wf() && s@ == #[trigger] date_text(t.date),
{
    let now = local_now();
    format_date(&now.date)
}

// ---------------------------------------------------------------------------
// Merging segments
// ---------------------------------------------------------------------------

/// `a` sorts before or with `b`, character by character (the order of
/// `String`'s comparison: UTF-8 bytes order as code points do).
pub open spec fn text_le(a: Seq<char>, b: Seq<char>) -> bool
    decreases a.len(),
{
    if a.len() == 0 {
        true
    } else if b.len() == 0 {
        false
    } else if a[0] != b[0] {
        a[0] < b[0]
    } else {
        text_le(a.drop_first(), b.drop_first())
    }
}

/// Whether `a` sorts before or with `b` (see `text_le`).
pub fn str_le(a: &str, b: &str) -> (res: bool)
    ensures
        res == text_le(a@, b@),
{
    let x = crate::text::chars_of(a);
    let y = crate::text::chars_of(b);
    let mut i: usize = 0;
    proof {
        assert(a@.skip(0) =~= a@);
        assert(b@.skip(0) =~= b@);
    }
    while i < x.len() && i < y.len() && x[i] == y[i]
        invariant
            i <= x.len(),
            i <= y.len(),
            x@ == a@,
            y@ == b@,
            forall|k: int| 0 <= k < i ==> x@[k] == y@[k],
            text_le(a@, b@) == text_le(a@.skip(i as int), b@.skip(i as int)),
        decreases x.len() - i,
    {
        proof {
            assert(a@.skip(i as int).drop_first() =~= a@.skip(i + 1));
            assert(b@.skip(i as int).drop_first() =~= b@.skip(i + 1));
        }
        i = i + 1;
    }
    if i == x.len() {
        true
    } else if i == y.len() {
        false
    } else {
        proof {
            assert(a@.skip(i as int)[0] == x@[i as int]);
            assert(b@.skip(i as int)[0] == y@[i as int]);
        }
        x[i] < y[i]
    }
}

/// The stored segments chosen for a merge: those of `today` whose id is
/// one of `ids`, in their order.
pub open spec fn chosen(today: Seq<ActivitySegment>, ids: Seq<Seq<char>>) -> Seq<ActivitySegment> {
    today.filter(|s: ActivitySegment| ids.contains(s.id@))
}

/// Number of segments of `vs` with category `c`.
pub open spec fn cat_count(vs: Seq<SegmentView>, c: Seq<char>) -> nat
    decreases vs.len(),
{
    if vs.len() == 0 {
        0
    } else {
        cat_count(vs.drop_last(), c) + if vs.last().category == c { 1nat } else { 0nat }
    }
}

/// The frame-id lists of the segments that have one.
pub open spec fn frame_id_lists(vs: Seq<SegmentView>) -> Seq<Seq<char>>
    decreases vs.len(),
{
    if vs.len() == 0 {
        Seq::empty()
    } else {
        match vs.last().source_frame_ids {
            Some(f) => frame_id_lists(vs.drop_last()).push(f),
            None => frame_id_lists(vs.drop_last()),
        }
    }
}

/// The bits of the `f64` 1.0, the confidence of a manual merge.
pub const CONFIDENCE_ONE_BITS: u64 = 0x3FF0_0000_0000_0000;

/// A merge request names at least two segments.
pub fn check_merge_request(ids: &Vec<String>) -> (r: Result<(), String>)
    ensures
        r is Ok <==> ids@.len() >= 2,
        r matches Err(e) ==> e@ == "Need at least 2 segments to merge"@,
{
    if ids.len() < 2 {
        Err(String::from_str("Need at least 2 segments to merge"))
    } else {
        Ok(())
    }
}

/// The views of a list of ids.
pub open spec fn id_views(ids: Seq<String>) -> Seq<Seq<char>> {
    ids.map_values(|s: String| s@)
}

/// What the merged segment is made of: it spans from the earliest start to
/// the latest end of the chosen segments, lasts their total time, takes the
/// category that most of them have, joins their frame-id lists, and
/// carries the user's label as summary and label.
pub open spec fn merged_from(m: SegmentView, vs: Seq<SegmentView>, label: Seq<char>) -> bool {
    &&& exists|i: int| 0 <= i < vs.len() && m.start_time == #[trigger] vs[i].start_time
    &&& forall|i: int| 0 <= i < vs.len() ==> text_le(m.start_time, #[trigger] vs[i].start_time)
    &&& exists|i: int| 0 <= i < vs.len() && m.end_time == #[trigger] vs[i].end_time
    &&& forall|i: int| 0 <= i < vs.len() ==> text_le(#[trigger] vs[i].end_time, m.end_time)
    &&& m.duration_secs == total_duration(vs)
    &&& exists|i: int| 0 <= i < vs.len() && m.category == #[trigger] vs[i].category
    &&& forall|i: int| 0 <= i < vs.len() ==> cat_count(vs, #[trigger] vs[i].category) <= cat_count(vs, m.category)
    &&& m.source_frame_ids == Some(join_ids(frame_id_lists(vs)))
    &&& m.llm_summary == Some(label)
    &&& m.user_label == Some(label)
    &&& m.app_name is None && m.window_title is None
    &&& m.confidence_bits == CONFIDENCE_ONE_BITS
    &&& m.is_manual
    &&& m.llm_cost_bits is None && m.llm_tokens is None
}

/// Any two texts are ordered one way or the other, and every text sorts
/// with itself.
pub proof fn lemma_text_le_total(a: Seq<char>, b: Seq<char>)
    ensures
        text_le(a, b) || text_le(b, a),
        text_le(a, a),
    decreases a.len(),
{
    if a.len() > 0 && b.len() > 0 && a[0] == b[0] {
        lemma_text_le_total(a.drop_first(), b.drop_first());
    }
    if a.len() > 0 {
        lemma_text_le_total(a.drop_first(), a.drop_first());
    }
}

/// The order of texts is transitive.
pub proof fn lemma_text_le_trans(a: Seq<char>, b: Seq<char>, c: Seq<char>)
    requires
        text_le(a, b),
        text_le(b, c),
    ensures
        text_le(a, c),
    decreases a.len(),
{
    if a.len() > 0 && b.len() > 0 && c.len() > 0 && a[0] == b[0] && b[0] == c[0] {
        lemma_text_le_trans(a.drop_first(), b.drop_first(), c.drop_first());
    }
}

/// Two texts that sort each before the other are equal.
pub proof fn lemma_text_le_antisymmetric(a: Seq<char>, b: Seq<char>)
    requires
        text_le(a, b),
        text_le(b, a),
    ensures
        a == b,
    decreases a.len(),
{
    if a.len() > 0 && b.len() > 0 {
        lemma_text_le_antisymmetric(a.drop_first(), b.drop_first());
        assert(a =~= seq![a[0]] + a.drop_first());
        assert(b =~= seq![b[0]] + b.drop_first());
    } else {
        assert(a.len() == 0 && b.len() == 0);
        assert(a =~= b);
    }
}

/// Texts are ordered by their first differing character, and a text sorts
/// before every text that extends it: a one-character text sorts before
/// another exactly when its character is not greater, and the empty text
/// sorts first.
pub proof fn lemma_text_le_by_chars(x: char, y: char, a: Seq<char>, b: Seq<char>)
    ensures
        text_le(seq![x], seq![y]) <==> x <= y,
        text_le(a, a + b),
        text_le(Seq::empty(), a),
        x != y ==> (text_le(seq![x] + a, seq![y] + b) <==> x < y),
    decreases a.len(),
{
    assert(seq![x].drop_first() =~= Seq::<char>::empty());
    assert(seq![y].drop_first() =~= Seq::<char>::empty());
    assert(text_le(Seq::<char>::empty(), Seq::<char>::empty()));
    assert((seq![x] + a)[0] == x);
    assert((seq![y] + b)[0] == y);
    if a.len() > 0 {
        assert((a + b).drop_first() =~= a.drop_first() + b);
        lemma_text_le_by_chars(x, y, a.drop_first(), b);
    }
}

/// The number of segments of a category in a timeline of two parts is the
/// sum over the parts; a single segment counts once for its own category.
pub proof fn lemma_cat_count_concat(a: Seq<SegmentView>, b: Seq<SegmentView>, c: Seq<char>)
    ensures
        cat_count(a + b, c) == cat_count(a, c) + cat_count(b, c),
    decreases b.len(),
{
    if b.len() == 0 {
        assert(a + b =~= a);
    } else {
        assert((a + b).drop_last() =~= a + b.drop_last());
        assert((a + b).last() == b.last());
        lemma_cat_count_concat(a, b.drop_last(), c);
    }
}

/// A single segment counts once, for its own category only.
pub proof fn lemma_cat_count_single(s: SegmentView, c: Seq<char>)
    ensures
        cat_count(seq![s], c) == (if s.category == c { 1nat } else { 0nat }),
{
    let q = seq![s];
    assert(q.drop_last() =~= Seq::<SegmentView>::empty());
    assert(q.last() == s);
    assert(cat_count(q.drop_last(), c) == 0);
}

/// The frame-id lists of two runs of segments are those of the first run
/// followed by those of the second; a segment adds its list when it has
/// one.
pub proof fn lemma_frame_id_lists_concat(a: Seq<SegmentView>, b: Seq<SegmentView>)
    ensures
        frame_id_lists(a + b) == frame_id_lists(a) + frame_id_lists(b),
    decreases b.len(),
{
    if b.len() == 0 {
        assert(a + b =~= a);
        assert(frame_id_lists(a) + frame_id_lists(b) =~= frame_id_lists(a));
    } else {
        assert((a + b).drop_last() =~= a + b.drop_last());
        assert((a + b).last() == b.last());
        lemma_frame_id_lists_concat(a, b.drop_last());
        assert(frame_id_lists(a + b) =~= frame_id_lists(a) + frame_id_lists(b));
    }
}

/// A single segment contributes its frame-id list when it has one.
pub proof fn lemma_frame_id_lists_single(s: SegmentView)
    ensures
        frame_id_lists(seq![s]) == match s.source_frame_ids {
            Some(f) => seq![f],
            None => Seq::<Seq<char>>::empty(),
        },
{
    let q = seq![s];
    assert(q.drop_last() =~= Seq::<SegmentView>::empty());
    assert(q.last() == s);
    assert(frame_id_lists(q.drop_last()) =~= Seq::<Seq<char>>::empty());
    match s.source_frame_ids {
        Some(f) => assert(frame_id_lists(q) =~= seq![f]),
        None => {},
    }
}

/// Index of a segment with the earliest start.
fn earliest_start(vs: &Vec<ActivitySegment>) -> (k: usize)
    requires
        vs@.len() >= 1,
    ensures
        k < vs@.len(),
        forall|i: int| 0 <= i < vs@.len() ==> text_le(vs@[k as int].start_time@, #[trigger] vs@[i].start_time@),
{
    let mut k: usize = 0;
    let mut i: usize = 1;
    proof {
        lemma_text_le_total(vs@[0].start_time@, vs@[0].start_time@);
    }
    while i < vs.len()
        invariant
            1 <= i <= vs.len(),
            k < i,
            forall|j: int| 0 <= j < i ==> text_le(vs@[k as int].start_time@, #[trigger] vs@[j].start_time@),
        decreases vs.len() - i,
    {
        if !str_le(vs[k].start_time.as_str(), vs[i].start_time.as_str()) {
            proof {
                lemma_text_le_total(vs@[k as int].start_time@, vs@[i as int].start_time@);
                lemma_text_le_total(vs@[i as int].start_time@, vs@[i as int].start_time@);
                assert forall|j: int| 0 <= j <= i implies text_le(vs@[i as int].start_time@, #[trigger] vs@[j].start_time@) by {
                    if j < i {
                        lemma_text_le_trans(vs@[i as int].start_time@, vs@[k as int].start_time@, vs@[j].start_time@);
                    }
                }
            }
            k = i;
        } else {
        }
        i = i + 1;
    }
    k
}

/// Index of a segment with the latest end.
fn latest_end(vs: &Vec<ActivitySegment>) -> (k: usize)
    requires
        vs@.len() >= 1,
    ensures
        k < vs@.len(),
        forall|i: int| 0 <= i < vs@.len() ==> text_le(#[trigger] vs@[i].end_time@, vs@[k as int].end_time@),
{
    let mut k: usize = 0;
    let mut i: usize = 1;
    proof {
        lemma_text_le_total(vs@[0].end_time@, vs@[0].end_time@);
    }
    while i < vs.len()
        invariant
            1 <= i <= vs.len(),
            k < i,
            forall|j: int| 0 <= j < i ==> text_le(#[trigger] vs@[j].end_time@, vs@[k as int].end_time@),
        decreases vs.len() - i,
    {
        if str_le(vs[k].end_time.as_str(), vs[i].end_time.as_str()) {
            proof {
                lemma_text_le_total(vs@[i as int].end_time@, vs@[i as int].end_time@);
                assert forall|j: int| 0 <= j <= i implies text_le(#[trigger] vs@[j].end_time@, vs@[i as int].end_time@) by {
                    if j < i {
                        lemma_text_le_trans(vs@[j].end_time@, vs@[k as int].end_time@, vs@[i as int].end_time@);
                    }
                }
            }
            k = i;
        } else {
            proof {
                lemma_text_le_total(vs@[k as int].end_time@, vs@[i as int].end_time@);
            }
        }
        i = i + 1;
    }
    k
}

/// Number of segments with category `c`.
fn count_category(vs: &Vec<ActivitySegment>, c: &str) -> (n: usize)
    ensures
        n == cat_count(seg_views(vs@), c@),
{
    let ghost v = seg_views(vs@);
    let mut n: usize = 0;
    let mut i: usize = 0;
    while i < vs.len()
        invariant
            i <= vs.len(),
            v == seg_views(vs@),
            n == cat_count(v.take(i as int), c@),
            n <= i,
        decreases vs.len() - i,
    {
        proof {
            assert(v.take(i + 1).drop_last() =~= v.take(i as int));
        }
        if str_eq(vs[i].category.as_str(), c) {
            n = n + 1;
        }
        i = i + 1;
    }
    proof {
        assert(v.take(v.len() as int) =~= v);
    }
    n
}

/// Index of a segment whose category most segments have.
fn majority_index(vs: &Vec<ActivitySegment>) -> (k: usize)
    requires
        vs@.len() >= 1,
    ensures
        k < vs@.len(),
        forall|i: int| 0 <= i < vs@.len() ==> cat_count(seg_views(vs@), #[trigger] vs@[i].category@)
            <= cat_count(seg_views(vs@), vs@[k as int].category@),
{
    let mut k: usize = 0;
    let mut best = count_category(vs, vs[0].category.as_str());
    let mut i: usize = 1;
    while i < vs.len()
        invariant
            1 <= i <= vs.len(),
            k < i,
            best == cat_count(seg_views(vs@), vs@[k as int].category@),
            forall|j: int| 0 <= j < i ==> cat_count(seg_views(vs@), #[trigger] vs@[j].category@) <= best,
        decreases vs.len() - i,
    {
        let n = count_category(vs, vs[i].category.as_str());
        if n > best {
            best = n;
            k = i;
        }
        i = i + 1;
    }
    k
}

proof fn lemma_join_push(list: Seq<Seq<char>>, x: Seq<char>)
    ensures
        join_ids(list.push(x)) == if list.len() == 0 { x } else { join_ids(list) + ","@ + x },
{
    assert(list.push(x).drop_last() =~= list);
}

proof fn lemma_lists_step(v: Seq<SegmentView>, i: int)
    requires
        0 <= i < v.len(),
    ensures
        frame_id_lists(v.take(i + 1)) == match v[i].source_frame_ids {
            Some(f) => frame_id_lists(v.take(i)).push(f),
            None => frame_id_lists(v.take(i)),
        },
{
    assert(v.take(i + 1).drop_last() =~= v.take(i));
    assert(v.take(i + 1).last() == v[i]);
}

/// The frame-id lists of the segments that have one, joined with `","`.
fn joined_frame_ids(vs: &Vec<ActivitySegment>) -> (r: String)
    ensures
        r@ == join_ids(frame_id_lists(seg_views(vs@))),
{
    let ghost v = seg_views(vs@);
    let mut r = String::new();
    let mut count: usize = 0;
    let mut i: usize = 0;
    while i < vs.len()
        invariant
            i <= vs.len(),
            v == seg_views(vs@),
            count == frame_id_lists(v.take(i as int)).len(),
            count <= i,
            r@ == join_ids(frame_id_lists(v.take(i as int))),
        decreases vs.len() - i,
    {
        proof {
            lemma_lists_step(v, i as int);
            assert(v[i as int] == vs@[i as int]@);
        }
        match &vs[i].source_frame_ids {
            Some(f) => {
                proof {
                    lemma_join_push(frame_id_lists(v.take(i as int)), f@);
                }
                if count > 0 {
                    r.append(",");
                }
                r.append(f.as_str());
                count = count + 1;
            },
            None => {},
        }
        i = i + 1;
    }
    proof {
        assert(v.take(v.len() as int) =~= v);
    }
    r
}

/// The segments of `today` whose id is one of `ids`, in their order.
fn choose_segments(ids: &Vec<String>, today: &Vec<ActivitySegment>) -> (r: Vec<ActivitySegment>)
    ensures
        seg_views(r@) == seg_views(today@).filter(|v: SegmentView| id_views(ids@).contains(v.id)),
{
    let ghost idv = id_views(ids@);
    let ghost tv = seg_views(today@);
    let mut r: Vec<ActivitySegment> = Vec::new();
    let mut i: usize = 0;
    while i < today.len()
        invariant
            i <= today.len(),
            idv == id_views(ids@),
            tv == seg_views(today@),
            seg_views(r@) == tv.take(i as int).filter(|v: SegmentView| idv.contains(v.id)),
        decreases today.len() - i,
    {
        let s = &today[i];
        let mut j: usize = 0;
        let mut found = false;
        while j < ids.len() && !found
            invariant
                j <= ids.len(),
                idv == id_views(ids@),
                !found ==> forall|q: int| 0 <= q < j ==> #[trigger] ids@[q]@ != s.id@,
                found ==> idv.contains(s.id@),
            decreases ids.len() - j + (if found { 0int } else { 1int }),
        {
            if str_eq(ids[j].as_str(), s.id.as_str()) {
                found = true;
                proof {
                    assert(idv[j as int] == s.id@);
                }
            } else {
                j = j + 1;
            }
        }
        proof {
            if !found {
                assert forall|q: int| 0 <= q < idv.len() implies idv[q] != s.id@ by {
                    assert(idv[q] == ids@[q]@);
                }
            }
            let t = tv.take(i + 1);
            assert(t.drop_last() =~= tv.take(i as int));
            assert(t.last() == s@);
            reveal(Seq::filter);
        }
        let ghost before = seg_views(r@);
        if found {
            r.push(s.copy());
            proof {
                assert(seg_views(r@) =~= before.push(s@));
            }
        }
        i = i + 1;
    }
    proof {
        assert(tv.take(tv.len() as int) =~= tv);
    }
    r
}

/// The merged segment replacing the segments `ids` of today (they and the
/// new segment are then swapped in one transaction): see `merged_from`.
/// Fewer than two ids, or fewer than two of them found among today's
/// segments, is an error.
pub fn plan_merge(ids: &Vec<String>, merged_label: &str, today: &Vec<ActivitySegment>) -> (r: Result<ActivitySegment, String>)
    requires
        totals_fit(seg_views(today@).filter(|v: SegmentView| id_views(ids@).contains(v.id))),
    ensures
        ({
            let vs = seg_views(today@).filter(|v: SegmentView| id_views(ids@).contains(v.id));
            if ids@.len() < 2 {
                r matches Err(e) && e@ == "Need at least 2 segments to merge"@
            } else if vs.len() < 2 {
                r matches Err(e) && e@ == "Could not find all specified segments"@
            } else {
                r matches Ok(m) && merged_from(m@, vs, merged_label@) && m.id@.len() == 36
                    && exists|t: DateTime| t.wf() && m.created_at@ == #[trigger] datetime_text(t)
            }
        }),
{
    if ids.len() < 2 {
        return Err(String::from_str("Need at least 2 segments to merge"));
    }
    let segs = choose_segments(ids, today);
    let ghost vs = seg_views(segs@);
    if segs.len() < 2 {
        return Err(String::from_str("Could not find all specified segments"));
    }
    let a = earliest_start(&segs);
    let b = latest_end(&segs);
    let total = crate::commands::report::total_secs_of(&segs);
    let c = majority_index(&segs);
    let frames = joined_frame_ids(&segs);
    let now = utc_now();
    let created = format_datetime(&now);
    let m = ActivitySegment {
        id: new_frame_id(),
        start_time: segs[a].start_time.clone(),
        end_time: segs[b].end_time.clone(),
        duration_secs: total,
        app_name: None,
        window_title: None,
        llm_summary: Some(String::from_str(merged_label)),
        category: segs[c].category.clone(),
        user_label: Some(String::from_str(merged_label)),
        confidence_bits: CONFIDENCE_ONE_BITS,
        source_frame_ids: Some(frames),
        is_manual: true,
        created_at: created,
        llm_cost_bits: None,
        llm_tokens: None,
    };
    proof {
        assert(vs[a as int] == segs@[a as int]@);
        assert(vs[b as int] == segs@[b as int]@);
        assert(vs[c as int] == segs@[c as int]@);
        assert(m@.start_time == vs[a as int].start_time);
        assert(m@.end_time == vs[b as int].end_time);
        assert(m@.category == vs[c as int].category);
        assert(m.created_at@ == datetime_text(now));
        assert forall|i: int| 0 <= i < vs.len() implies text_le(m@.start_time, #[trigger] vs[i].start_time) by {
            assert(vs[i] == segs@[i]@);
        }
        assert forall|i: int| 0 <= i < vs.len() implies text_le(#[trigger] vs[i].end_time, m@.end_time) by {
            assert(vs[i] == segs@[i]@);
        }
        assert forall|i: int| 0 <= i < vs.len() implies cat_count(vs, #[trigger] vs[i].category) <= cat_count(vs, m@.category) by {
            assert(vs[i] == segs@[i]@);
        }
    }
    Ok(m)
}

/// The segment of a one-shot analysis: an instant at `now` (no duration),
/// with the analysis's application, window, activity and category, and the
/// analysed frame.
pub fn single_analysis_segment(id: String, now: &str, analysis: &AnalysisResult, frame_id: &str, confidence_bits: u64) -> (r: ActivitySegment)
    ensures
        r.id == id,
        r.start_time@ == now@,
        r.end_time@ == now@,
        r.created_at@ == now@,
        r.duration_secs == 0,
        opt_str(r.app_name) == opt_str(analysis.app_name),
        opt_str(r.window_title) == opt_str(analysis.window_title),
        opt_str(r.llm_summary) == Some(analysis.activity@),
        r.category@ == analysis.category@,
        r.user_label is None,
        r.confidence_bits == confidence_bits,
        opt_str(r.source_frame_ids) == Some(frame_id@),
        !r.is_manual,
        r.llm_cost_bits is None,
        r.llm_tokens is None,
{
    ActivitySegment {
        id,
        start_time: String::from_str(now),
        end_time: String::from_str(now),
        duration_secs: 0,
        app_name: clone_opt(&analysis.app_name),
        window_title: clone_opt(&analysis.window_title),
        llm_summary: Some(analysis.activity.clone()),
        category: analysis.category.clone(),
        user_label: None,
        confidence_bits,
        source_frame_ids: Some(String::from_str(frame_id)),
        is_manual: false,
        created_at: String::from_str(now),
        llm_cost_bits: None,
        llm_tokens: None,
    }
}

/// The refusal of a one-shot analysis of a frame that repeats the last one.
pub fn no_change_error() -> (e: String)
    ensures
        e@ == "No significant change detected since last capture"@,
{
    String::from_str("No significant change detected since last capture")
}

/// The refusal of a one-shot analysis without a model configuration.
pub fn no_config_error() -> (e: String)
    ensures
        e@ == "No active LLM configuration"@,
{
    String::from_str("No active LLM configuration")
}

/// A segment added by the user: the same segment, marked manual.
pub fn as_manual(seg: ActivitySegment) -> (r: ActivitySegment)
    ensures
        r@ == (SegmentView { is_manual: true, ..seg@ }),
{
    let mut s = seg;
    s.is_manual = true;
    s
}

} // verus!
