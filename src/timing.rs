//! Partitioning of the timeline into intervals of uniform overlap, and the
//! timing model that maps merged transcription audio back onto the timeline.

use vstd::prelude::*;

use crate::timeline::{timeline_end, ClipData};

verus! {

/// `t` is where some clip starts or ends on the timeline.
pub open spec fn is_boundary(clips: Seq<ClipData>, t: int) -> bool {
    exists|i: int|
        0 <= i < clips.len() && (clips[i].start_time == t || #[trigger] timeline_end(clips[i]) == t)
}

pub open spec fn strictly_increasing(s: Seq<i64>) -> bool {
    forall|i: int, j: int| 0 <= i < j < s.len() ==> s[i] < s[j]
}

/// Both ends of clip `c` are among `pts`.
pub open spec fn holds_ends(pts: Seq<i64>, c: ClipData) -> bool {
    pts.contains(c.start_time as i64) && pts.contains(timeline_end(c) as i64)
}

/// `pts` are the distinct boundary times of `clips`, in increasing order.
pub open spec fn boundary_points_of(clips: Seq<ClipData>, pts: Seq<i64>) -> bool {
    &&& strictly_increasing(pts)
    &&& forall|k: int| 0 <= k < pts.len() ==> is_boundary(clips, #[trigger] pts[k] as int)
    &&& forall|i: int| 0 <= i < clips.len() ==> #[trigger] holds_ends(pts, clips[i])
}

/// Adds `x` to the increasing sequence `pts`, keeping it free of repeats.
pub fn insert_sorted(pts: &mut Vec<i64>, x: i64)
    requires
        strictly_increasing(old(pts)@),
    ensures
        strictly_increasing(final(pts)@),
        forall|y: i64| final(pts)@.contains(y) <==> (old(pts)@.contains(y) || y == x),
{
    let n = pts.len();
    let mut pos: usize = 0;
    while pos < n && pts[pos] < x
        invariant
            n == pts@.len(),
            pos <= n,
            forall|k: int| 0 <= k < pos ==> pts@[k] < x,
        decreases n - pos,
    {
        pos = pos + 1;
    }
    if pos < n && pts[pos] == x {
        return;
    }
    let ghost before = pts@;
    pts.insert(pos, x);
    proof {
        before.insert_ensures(pos as int, x);
        let after = pts@;
        assert forall|i: int, j: int| 0 <= i < j < after.len() implies after[i] < after[j] by {
            if j < pos {
            } else if j == pos {
            } else if i < pos {
                assert(after[j] == before[j - 1]);
                assert(before[pos as int] > x);
            } else if i == pos {
                assert(after[j] == before[j - 1]);
                assert(before[pos as int] > x);
            } else {
                assert(after[j] == before[j - 1]);
                assert(after[i] == before[i - 1]);
            }
        }
        assert forall|y: i64| after.contains(y) <==> (before.contains(y) || y == x) by {
            if after.contains(y) {
                let k = choose|k: int| 0 <= k < after.len() && after[k] == y;
                if k < pos {
                    assert(before[k] == y);
                } else if k > pos {
                    assert(before[k - 1] == y);
                }
            }
            if before.contains(y) {
                let k = choose|k: int| 0 <= k < before.len() && before[k] == y;
                if k < pos {
                    assert(after[k] == y);
                } else {
                    assert(after[k + 1] == y);
                }
            }
            if y == x {
                assert(after[pos as int] == y);
            }
        }
    }
}

/// The distinct times at which clips start or end, in increasing order.
pub fn boundary_points(clips: &Vec<ClipData>) -> (r: Vec<i64>)
    ensures
        boundary_points_of(clips@, r@),
{
    let n = clips.len();
    let mut pts: Vec<i64> = Vec::new();
    let mut i: usize = 0;
    while i < n
        invariant
            n == clips@.len(),
            i <= n,
            strictly_increasing(pts@),
            forall|k: int| 0 <= k < pts@.len() ==> is_boundary(clips@, #[trigger] pts@[k] as int),
            forall|j: int| 0 <= j < i ==> #[trigger] holds_ends(pts@, clips@[j]),
        decreases n - i,
    {
        let c = &clips[i];
        let s: i64 = c.start_time as i64;
        let e: i64 = c.start_time as i64 + c.out_point as i64 - c.in_point as i64;
        let ghost p0 = pts@;
        insert_sorted(&mut pts, s);
        let ghost p1 = pts@;
        insert_sorted(&mut pts, e);
        proof {
            assert(p1.contains(s));
            assert(pts@.contains(s));
            assert(pts@.contains(e));
            assert forall|k: int| 0 <= k < pts@.len() implies is_boundary(
                clips@,
                #[trigger] pts@[k] as int,
            ) by {
                let y = pts@[k];
                assert(pts@.contains(y));
                if y != s && y != e {
                    assert(p0.contains(y));
                    let k0 = choose|k0: int| 0 <= k0 < p0.len() && p0[k0] == y;
                    assert(is_boundary(clips@, p0[k0] as int));
                } else if y == s {
                    assert(clips@[i as int].start_time == y);
                    assert(timeline_end(clips@[i as int]) == e);
                } else {
                    assert(timeline_end(clips@[i as int]) == y);
                }
            }
            assert forall|j: int| 0 <= j < i + 1 implies #[trigger] holds_ends(pts@, clips@[j]) by {
                if j < i {
                    assert(holds_ends(p0, clips@[j]));
                    assert(p0.contains(timeline_end(clips@[j]) as i64));
                    assert(p0.contains(clips@[j].start_time as i64));
                } else {
                    assert(timeline_end(clips@[j]) == e as int);
                    assert(clips@[j].start_time == s as int);
                }
            }
        }
        i = i + 1;
    }
    pts
}

/// A stretch of the timeline between neighbouring boundaries, with the
/// positions of the clips that sound during it.
#[derive(Debug, Clone)]
pub struct AudioInterval {
    pub start: i64,
    pub end: i64,
    pub clips: Vec<usize>,
}

/// The ends of an interval lie within `±2^48` ms.
pub open spec fn interval_bounded(iv: AudioInterval) -> bool {
    -0x1_0000_0000_0000 <= iv.start <= 0x1_0000_0000_0000 && -0x1_0000_0000_0000 <= iv.end
        <= 0x1_0000_0000_0000
}

/// An interval has contributors, and all of them are clips of `clips`.
pub open spec fn contributors_in_range(clips: Seq<ClipData>, iv: AudioInterval) -> bool {
    iv.clips@.len() > 0 && forall|j: int| 0 <= j < iv.clips@.len() ==> #[trigger] iv.clips@[j] < clips.len()
}

/// Clip `c` covers the midpoint of `[s, e)`.
pub open spec fn covers_midpoint(c: ClipData, s: int, e: int) -> bool {
    2 * c.start_time <= s + e && s + e < 2 * timeline_end(c)
}

/// `idx` are, in increasing order, the positions of the clips covering the
/// midpoint of `[s, e)`.
pub open spec fn contributors_of(clips: Seq<ClipData>, s: int, e: int, idx: Seq<usize>) -> bool {
    &&& forall|a: int, b: int| 0 <= a < b < idx.len() ==> idx[a] < idx[b]
    &&& forall|a: int| 0 <= a < idx.len() ==> #[trigger] idx[a] < clips.len()
    &&& forall|a: int| 0 <= a < idx.len() ==> covers_midpoint(clips[#[trigger] idx[a] as int], s, e)
    &&& forall|c: int| 0 <= c < clips.len() && covers_midpoint(clips[c], s, e) ==> idx.contains(c as usize)
}

/// The positions of the clips covering the midpoint of `[s, e)`.
pub fn contributing_clips(clips: &Vec<ClipData>, s: i64, e: i64) -> (r: Vec<usize>)
    requires
        -0x1_0000_0000_0000 <= s <= 0x1_0000_0000_0000,
        -0x1_0000_0000_0000 <= e <= 0x1_0000_0000_0000,
    ensures
        contributors_of(clips@, s as int, e as int, r@),
{
    let n = clips.len();
    let mut r: Vec<usize> = Vec::new();
    let mut i: usize = 0;
    while i < n
        invariant
            n == clips@.len(),
            i <= n,
            -0x1_0000_0000_0000 <= s <= 0x1_0000_0000_0000,
            -0x1_0000_0000_0000 <= e <= 0x1_0000_0000_0000,
            forall|a: int, b: int| 0 <= a < b < r@.len() ==> r@[a] < r@[b],
            forall|a: int| 0 <= a < r@.len() ==> #[trigger] r@[a] < i,
            forall|a: int| 0 <= a < r@.len() ==> covers_midpoint(clips@[#[trigger] r@[a] as int], s as int, e as int),
            forall|c: int| 0 <= c < i && covers_midpoint(clips@[c], s as int, e as int) ==> r@.contains(c as usize),
        decreases n - i,
    {
        let c = &clips[i];
        let start2: i64 = 2 * c.start_time as i64;
        let end2: i64 = 2 * (c.start_time as i64 + c.out_point as i64 - c.in_point as i64);
        if start2 <= s + e && s + e < end2 {
            let ghost old_r = r@;
            r.push(i);
            proof {
                assert forall|c2: int| 0 <= c2 < i + 1 && covers_midpoint(clips@[c2], s as int, e as int) implies r@.contains(c2 as usize) by {
                    if c2 < i {
                        let k = choose|k: int| 0 <= k < old_r.len() && old_r[k] == c2 as usize;
                        assert(r@[k] == c2 as usize);
                    } else {
                        assert(r@[old_r.len() as int] == c2 as usize);
                    }
                }
            }
        }
        i = i + 1;
    }
    r
}

/// `iv` is the stretch between the boundary points `k` and `k + 1`, with
/// the clips sounding in it, of which there is at least one.
pub open spec fn interval_at(clips: Seq<ClipData>, pts: Seq<i64>, iv: AudioInterval, k: int) -> bool {
    &&& 0 <= k && k + 1 < pts.len()
    &&& iv.start == pts[k]
    &&& iv.end == pts[k + 1]
    &&& iv.clips@.len() > 0
    &&& contributors_of(clips, iv.start as int, iv.end as int, iv.clips@)
}

/// Some clip sounds between the boundary points `k` and `k + 1`.
pub open spec fn sounds_in(clips: Seq<ClipData>, pts: Seq<i64>, k: int) -> bool {
    exists|c: int|
        0 <= c < clips.len() && #[trigger] covers_midpoint(clips[c], pts[k] as int, pts[k + 1] as int)
}

/// `iv` are the intervals between neighbouring boundary points `pts` that
/// some clip sounds in, in order, each with its contributors.
pub open spec fn intervals_of(clips: Seq<ClipData>, pts: Seq<i64>, iv: Seq<AudioInterval>) -> bool {
    exists|ks: Seq<int>|
        {
            &&& ks.len() == iv.len()
            &&& forall|a: int, b: int| 0 <= a < b < ks.len() ==> ks[a] < ks[b]
            &&& forall|a: int| 0 <= a < ks.len() ==> #[trigger] interval_at(clips, pts, iv[a], ks[a])
            &&& forall|k: int|
                0 <= k && k + 1 < pts.len() && #[trigger] sounds_in(clips, pts, k)
                    ==> exists|a: int| 0 <= a < ks.len() && #[trigger] ks[a] == k
        }
}

/// Partitions the timeline into the stretches between neighbouring clip
/// boundaries that some clip sounds in, each with the clips sounding there.
#[verifier::rlimit(50)]
pub fn partition_timeline(clips: &Vec<ClipData>) -> (r: Vec<AudioInterval>)
    ensures
        exists|pts: Seq<i64>| boundary_points_of(clips@, pts) && intervals_of(clips@, pts, r@),
        forall|a: int| 0 <= a < r@.len() ==> r@[a].start < r@[a].end,
        forall|a: int, b: int| 0 <= a < b < r@.len() ==> r@[a].end <= r@[b].start,
        forall|a: int| 0 <= a < r@.len() ==> #[trigger] interval_bounded(r@[a]),
        forall|a: int| 0 <= a < r@.len() ==> #[trigger] contributors_in_range(clips@, r@[a]),
{
    let pts = boundary_points(clips);
    let m = pts.len();
    let mut r: Vec<AudioInterval> = Vec::new();
    let ghost mut ks: Seq<int> = Seq::empty();
    let mut k: usize = 0;
    proof {
        assert forall|q: int| 0 <= q < m implies -0x1_0000_0000_0000 <= #[trigger] pts@[q] <= 0x1_0000_0000_0000 by {
            assert(is_boundary(clips@, pts@[q] as int));
        }
    }
    while k + 1 < m
        invariant
            m == pts@.len(),
            boundary_points_of(clips@, pts@),
            forall|q: int| 0 <= q < m ==> -0x1_0000_0000_0000 <= #[trigger] pts@[q] <= 0x1_0000_0000_0000,
            k <= m,
            m > 0 ==> k < m,
            ks.len() == r@.len(),
            forall|a: int, b: int| 0 <= a < b < ks.len() ==> ks[a] < ks[b],
            forall|a: int| 0 <= a < ks.len() ==> 0 <= #[trigger] ks[a] < k,
            forall|a: int| 0 <= a < ks.len() ==> #[trigger] interval_at(clips@, pts@, r@[a], ks[a]),
            forall|q: int|
                0 <= q < k && q + 1 < pts@.len() && #[trigger] sounds_in(clips@, pts@, q)
                    ==> exists|a: int| 0 <= a < ks.len() && #[trigger] ks[a] == q,
        decreases m - k,
    {
        let s = pts[k];
        let e = pts[k + 1];
        let idx = contributing_clips(clips, s, e);
        if idx.len() > 0 {
            let ghost old_ks = ks;
            let ghost old_r = r@;
            proof {
                ks = ks.push(k as int);
            }
            r.push(AudioInterval { start: s, end: e, clips: idx });
            proof {
                assert(interval_at(clips@, pts@, r@[old_ks.len() as int], k as int));
                assert forall|a: int| 0 <= a < ks.len() implies #[trigger] interval_at(clips@, pts@, r@[a], ks[a]) by {
                    if a < old_ks.len() {
                        assert(r@[a] == old_r[a]);
                    }
                }
                assert forall|q: int|
                    0 <= q < k + 1 && q + 1 < pts@.len() && #[trigger] sounds_in(clips@, pts@, q)
                    implies exists|a: int| 0 <= a < ks.len() && #[trigger] ks[a] == q by {
                    if q < k {
                        let a = choose|a: int| 0 <= a < old_ks.len() && #[trigger] old_ks[a] == q;
                        assert(ks[a] == q);
                    } else {
                        assert(ks[old_ks.len() as int] == q);
                    }
                }
            }
        } else {
            proof {
                assert forall|q: int|
                    0 <= q < k + 1 && q + 1 < pts@.len() && #[trigger] sounds_in(clips@, pts@, q)
                    implies exists|a: int| 0 <= a < ks.len() && #[trigger] ks[a] == q by {
                    if q == k {
                        let c = choose|c: int| 0 <= c < clips@.len() && #[trigger] covers_midpoint(clips@[c], pts@[q] as int, pts@[q + 1] as int);
                        assert(idx@.contains(c as usize));
                    }
                }
            }
        }
        k = k + 1;
    }
    assert(intervals_of(clips@, pts@, r@));
    proof {
        assert forall|a: int| 0 <= a < r@.len() implies r@[a].start < r@[a].end by {
            assert(interval_at(clips@, pts@, r@[a], ks[a]));
            assert(pts@[ks[a]] < pts@[ks[a] + 1]);
        }
        assert forall|a: int| 0 <= a < r@.len() implies #[trigger] contributors_in_range(clips@, r@[a]) by {
            assert(interval_at(clips@, pts@, r@[a], ks[a]));
        }
        assert forall|a: int| 0 <= a < r@.len() implies #[trigger] interval_bounded(r@[a]) by {
            assert(interval_at(clips@, pts@, r@[a], ks[a]));
            assert(pts@[ks[a]] < pts@[ks[a] + 1]);
            assert(-0x1_0000_0000_0000 <= pts@[ks[a]] <= 0x1_0000_0000_0000);
            assert(-0x1_0000_0000_0000 <= pts@[ks[a] + 1] <= 0x1_0000_0000_0000);
        }
        assert forall|a: int, b: int| 0 <= a < b < r@.len() implies r@[a].end <= r@[b].start by {
            assert(interval_at(clips@, pts@, r@[a], ks[a]));
            assert(interval_at(clips@, pts@, r@[b], ks[b]));
            assert(ks[a] < ks[b]);
            if ks[a] + 1 < ks[b] {
                assert(pts@[ks[a] + 1] < pts@[ks[b]]);
            }
        }
    }
    r
}

/// A piece of the timing model: merged audio `[audio_start, audio_end)`
/// comes from the timeline from `timeline_start` on.
#[derive(Debug, Clone, Copy)]
pub struct TimeMapping {
    pub audio_start: i64,
    pub audio_end: i64,
    pub timeline_start: i64,
}

/// The audio pieces are non-empty and follow each other without gap, and the
/// timeline pieces follow each other in the same order without overlap.
pub open spec fn well_formed_model(m: Seq<TimeMapping>) -> bool {
    &&& forall|k: int| 0 <= k < m.len() ==> #[trigger] m[k].audio_start < m[k].audio_end
    &&& forall|k: int|
        0 <= k && k + 1 < m.len() ==> #[trigger] m[k].audio_end == m[k + 1].audio_start
    &&& forall|k: int|
        0 <= k && k + 1 < m.len() ==> #[trigger] m[k].timeline_start + (m[k].audio_end
            - m[k].audio_start) <= m[k + 1].timeline_start
}

/// Total length of the intervals `iv`.
pub open spec fn total_length(iv: Seq<AudioInterval>) -> int
    decreases iv.len(),
{
    if iv.len() == 0 {
        0
    } else {
        total_length(iv.drop_last()) + (iv.last().end - iv.last().start)
    }
}

/// `m` is the timing model of the intervals `iv` merged in order: piece `k`
/// has the length of interval `k`, starts on the timeline where it does,
/// and starts in the audio where the previous pieces end.
pub open spec fn model_of(iv: Seq<AudioInterval>, m: Seq<TimeMapping>) -> bool {
    &&& m.len() == iv.len()
    &&& forall|k: int|
        0 <= k < m.len() ==> #[trigger] m[k].timeline_start == iv[k].start && m[k].audio_start
            == total_length(iv.subrange(0, k)) && m[k].audio_end == total_length(iv.subrange(0, k + 1))
}

/// Where audio time `a` lies on the timeline: found in the first piece that
/// holds it.
pub open spec fn remap_spec(m: Seq<TimeMapping>, a: int) -> Option<int>
    decreases m.len(),
{
    if m.len() == 0 {
        None
    } else if m[0].audio_start <= a < m[0].audio_end {
        Some(m[0].timeline_start + (a - m[0].audio_start))
    } else {
        remap_spec(m.drop_first(), a)
    }
}

/// Where timeline time `t` lies in the merged audio: found in the first
/// piece whose timeline stretch holds it.
pub open spec fn forward_spec(m: Seq<TimeMapping>, t: int) -> Option<int>
    decreases m.len(),
{
    if m.len() == 0 {
        None
    } else if m[0].timeline_start <= t < m[0].timeline_start + (m[0].audio_end - m[0].audio_start) {
        Some(m[0].audio_start + (t - m[0].timeline_start))
    } else {
        forward_spec(m.drop_first(), t)
    }
}

proof fn lemma_well_formed_suffix(m: Seq<TimeMapping>)
    requires
        well_formed_model(m),
        m.len() > 0,
    ensures
        well_formed_model(m.drop_first()),
{
    let d = m.drop_first();
    assert forall|k: int| 0 <= k < d.len() implies #[trigger] d[k].audio_start < d[k].audio_end by {
        assert(d[k] == m[k + 1]);
    }
    assert forall|k: int| 0 <= k && k + 1 < d.len() implies #[trigger] d[k].audio_end
        == d[k + 1].audio_start by {
        assert(d[k] == m[k + 1]);
        assert(d[k + 1] == m[k + 2]);
    }
    assert forall|k: int| 0 <= k && k + 1 < d.len() implies #[trigger] d[k].timeline_start + (
    d[k].audio_end - d[k].audio_start) <= d[k + 1].timeline_start by {
        assert(d[k] == m[k + 1]);
        assert(d[k + 1] == m[k + 2]);
    }
}

/// Remapping an audio time inside the merged audio and looking the result
/// up again gives back the audio time: the model is a bijection on every
/// point it covers.
pub proof fn lemma_timing_round_trip(m: Seq<TimeMapping>, a: int)
    requires
        well_formed_model(m),
        m.len() > 0,
        m[0].audio_start <= a < m.last().audio_end,
    ensures
        remap_spec(m, a) matches Some(t) && forward_spec(m, t) == Some(a) && t >= m[0].timeline_start,
    decreases m.len(),
{
    if !(m[0].audio_start <= a < m[0].audio_end) {
        assert(m[0].audio_start < m[0].audio_end);
        if m.len() == 1 {
            assert(m.last() == m[0]);
        }
        assert(m.len() > 1);
        let d = m.drop_first();
        lemma_well_formed_suffix(m);
        assert(m[0].audio_end == m[1].audio_start);
        assert(d[0] == m[1]);
        assert(d.last() == m.last());
        lemma_timing_round_trip(d, a);
        assert(m[0].timeline_start + (m[0].audio_end - m[0].audio_start) <= m[1].timeline_start);
    }
}

/// Remapping is strictly increasing on the merged audio: later audio lies
/// later on the timeline.
pub proof fn lemma_remap_increasing(m: Seq<TimeMapping>, a1: int, a2: int)
    requires
        well_formed_model(m),
        m.len() > 0,
        m[0].audio_start <= a1 < a2 < m.last().audio_end,
    ensures
        remap_spec(m, a1) matches Some(t1) && (remap_spec(m, a2) matches Some(t2) && t1 < t2),
    decreases m.len(),
{
    lemma_timing_round_trip(m, a1);
    lemma_timing_round_trip(m, a2);
    if m[0].audio_start <= a1 < m[0].audio_end {
        if !(m[0].audio_start <= a2 < m[0].audio_end) {
            if m.len() == 1 {
                assert(m.last() == m[0]);
            }
            let d = m.drop_first();
            lemma_well_formed_suffix(m);
            assert(m[0].audio_end == m[1].audio_start);
            assert(d[0] == m[1]);
            assert(d.last() == m.last());
            lemma_timing_round_trip(d, a2);
            assert(m[0].timeline_start + (m[0].audio_end - m[0].audio_start) <= m[1].timeline_start);
        }
    } else {
        if m.len() == 1 {
            assert(m.last() == m[0]);
        }
        let d = m.drop_first();
        lemma_well_formed_suffix(m);
        assert(m[0].audio_end == m[1].audio_start);
        assert(d[0] == m[1]);
        assert(d.last() == m.last());
        lemma_remap_increasing(d, a1, a2);
    }
}

proof fn lemma_audio_order(m: Seq<TimeMapping>, k: int, j: int)
    requires
        well_formed_model(m),
        0 <= k < j < m.len(),
    ensures
        m[k].audio_end <= m[j].audio_start,
    decreases j - k,
{
    if j > k + 1 {
        lemma_audio_order(m, k, j - 1);
        assert(m[j - 1].audio_start < m[j - 1].audio_end);
        assert(m[j - 1].audio_end == m[j].audio_start);
    } else {
        assert(m[k].audio_end == m[k + 1].audio_start);
    }
}

proof fn lemma_audio_cover(m: Seq<TimeMapping>, a: int)
    requires
        well_formed_model(m),
        m.len() > 0,
        m[0].audio_start <= a < m.last().audio_end,
    ensures
        exists|k: int| 0 <= k < m.len() && m[k].audio_start <= a < #[trigger] m[k].audio_end,
    decreases m.len(),
{
    if !(m[0].audio_start <= a < m[0].audio_end) {
        if m.len() == 1 {
            assert(m.last() == m[0]);
        }
        let d = m.drop_first();
        lemma_well_formed_suffix(m);
        assert(m[0].audio_end == m[1].audio_start);
        assert(d[0] == m[1]);
        assert(d.last() == m.last());
        lemma_audio_cover(d, a);
        let k = choose|k: int| 0 <= k < d.len() && d[k].audio_start <= a < #[trigger] d[k].audio_end;
        assert(m[k + 1] == d[k]);
    }
}

/// Some piece of the model holds audio time `a`.
pub open spec fn covered(m: Seq<TimeMapping>, a: int) -> bool {
    exists|k: int| 0 <= k < m.len() && m[k].audio_start <= a < #[trigger] m[k].audio_end
}

/// The pieces of a timing model built from intervals of total length `L`
/// are disjoint and cover `[0, L)` exactly.
pub proof fn lemma_model_covers(iv: Seq<AudioInterval>, m: Seq<TimeMapping>)
    requires
        model_of(iv, m),
        well_formed_model(m),
        m.len() > 0,
    ensures
        m[0].audio_start == 0,
        m.last().audio_end == total_length(iv),
        forall|a: int| 0 <= a < total_length(iv) ==> #[trigger] covered(m, a),
        forall|k: int, j: int|
            0 <= k < m.len() && 0 <= j < m.len() && k != j ==> #[trigger] m[k].audio_end <= m[j].audio_start
                || #[trigger] m[j].audio_end <= m[k].audio_start,
        forall|a: int| (a < 0 || a >= total_length(iv)) ==> !#[trigger] covered(m, a),
{
    assert(m[0].timeline_start == iv[0].start);
    assert(m[m.len() - 1].timeline_start == iv[m.len() - 1].start);
    assert(iv.subrange(0, 0).len() == 0);
    assert(m[0].audio_start == total_length(iv.subrange(0, 0)));
    assert(iv.subrange(0, iv.len() as int) =~= iv);
    assert(m.last() == m[m.len() - 1]);
    assert forall|a: int| 0 <= a < total_length(iv) implies #[trigger] covered(m, a) by {
        lemma_audio_cover(m, a);
    }
    assert forall|k: int, j: int|
        0 <= k < m.len() && 0 <= j < m.len() && k != j implies #[trigger] m[k].audio_end
        <= m[j].audio_start || #[trigger] m[j].audio_end <= m[k].audio_start by {
        if k < j {
            lemma_audio_order(m, k, j);
        } else {
            lemma_audio_order(m, j, k);
        }
    }
    assert forall|a: int| (a < 0 || a >= total_length(iv)) implies !#[trigger] covered(m, a) by {
        if covered(m, a) {
            let k = choose|k: int| 0 <= k < m.len() && m[k].audio_start <= a < #[trigger] m[k].audio_end;
            if k > 0 {
                lemma_audio_order(m, 0, k);
                assert(m[0].audio_start < m[0].audio_end);
            }
            if k < m.len() - 1 {
                lemma_audio_order(m, k, m.len() - 1);
                assert(m[m.len() - 1].audio_start < m[m.len() - 1].audio_end);
            }
        }
    }
}

/// Builds the timing model of intervals merged in order: piece `k` covers
/// interval `k`'s length in the audio, starting where piece `k - 1` ends.
#[verifier::rlimit(50)]
pub fn build_time_mappings(intervals: &Vec<AudioInterval>) -> (r: Vec<TimeMapping>)
    requires
        forall|a: int| 0 <= a < intervals@.len() ==> intervals@[a].start < intervals@[a].end,
        forall|a: int, b: int| 0 <= a < b < intervals@.len() ==> intervals@[a].end <= intervals@[b].start,
        forall|a: int| 0 <= a < intervals@.len() ==> #[trigger] interval_bounded(intervals@[a]),
    ensures
        model_of(intervals@, r@),
        well_formed_model(r@),
        forall|k: int| 0 <= k < r@.len() ==> #[trigger] mapping_bounded(r@[k]),
{
    let n = intervals.len();
    let mut r: Vec<TimeMapping> = Vec::new();
    let mut audio_time: i64 = 0;
    let mut k: usize = 0;
    while k < n
        invariant
            n == intervals@.len(),
            k <= n,
            r@.len() == k,
            forall|a: int| 0 <= a < intervals@.len() ==> intervals@[a].start < intervals@[a].end,
            forall|a: int, b: int|
                0 <= a < b < intervals@.len() ==> intervals@[a].end <= intervals@[b].start,
            forall|a: int| 0 <= a < intervals@.len() ==> #[trigger] interval_bounded(intervals@[a]),
            audio_time == total_length(intervals@.subrange(0, k as int)),
            k > 0 ==> 0 <= audio_time <= intervals@[k - 1].end - intervals@[0].start,
            k == 0 ==> audio_time == 0,
            k > 0 ==> r@[k - 1].audio_end == audio_time,
            forall|j: int|
                0 <= j < k ==> #[trigger] r@[j].timeline_start == intervals@[j].start
                    && r@[j].audio_start == total_length(intervals@.subrange(0, j))
                    && r@[j].audio_end == total_length(intervals@.subrange(0, j + 1)),
            forall|j: int| 0 <= j < k ==> #[trigger] r@[j].audio_start < r@[j].audio_end,
            forall|j: int|
                0 <= j < k ==> #[trigger] r@[j].audio_end - r@[j].audio_start == intervals@[j].end
                    - intervals@[j].start,
            forall|j: int|
                0 <= j && j + 1 < k ==> #[trigger] r@[j].audio_end == r@[j + 1].audio_start,
            forall|j: int|
                0 <= j && j + 1 < k ==> #[trigger] r@[j].timeline_start + (r@[j].audio_end
                    - r@[j].audio_start) <= r@[j + 1].timeline_start,
            forall|j: int| 0 <= j < k ==> #[trigger] mapping_bounded(r@[j]),
        decreases n - k,
    {
        let iv = &intervals[k];
        proof {
            assert(interval_bounded(intervals@[k as int]));
            assert(interval_bounded(intervals@[0]));
            if k > 0 {
                assert(intervals@[k - 1].end <= intervals@[k as int].start);
                assert(intervals@[0].start <= intervals@[k as int].start);
            }
            assert(intervals@.subrange(0, k + 1).drop_last() =~= intervals@.subrange(0, k as int));
            assert(intervals@.subrange(0, k + 1).last() == intervals@[k as int]);
        }
        let end: i64 = audio_time + (iv.end - iv.start);
        r.push(TimeMapping { audio_start: audio_time, audio_end: end, timeline_start: iv.start });
        audio_time = end;
        k = k + 1;
    }
    r
}

/// Values of a timing-model piece lie within `±2^50` ms.
pub open spec fn mapping_bounded(m: TimeMapping) -> bool {
    -0x4_0000_0000_0000 <= m.audio_start <= 0x4_0000_0000_0000 && -0x4_0000_0000_0000
        <= m.audio_end <= 0x4_0000_0000_0000 && -0x4_0000_0000_0000 <= m.timeline_start
        <= 0x4_0000_0000_0000
}

/// Where audio time `t` lies on the timeline, by the first piece holding
/// it; none when no piece does.
pub fn remap_time(mappings: &Vec<TimeMapping>, t: i64) -> (r: Option<i64>)
    requires
        forall|k: int| 0 <= k < mappings@.len() ==> #[trigger] mapping_bounded(mappings@[k]),
    ensures
        r matches Some(x) ==> remap_spec(mappings@, t as int) == Some(x as int),
        r is None ==> remap_spec(mappings@, t as int) is None,
{
    let n = mappings.len();
    let mut k: usize = 0;
    assert(mappings@.subrange(0, n as int) =~= mappings@);
    while k < n
        invariant
            n == mappings@.len(),
            k <= n,
            forall|j: int| 0 <= j < mappings@.len() ==> #[trigger] mapping_bounded(mappings@[j]),
            remap_spec(mappings@, t as int) == remap_spec(mappings@.subrange(k as int, n as int), t as int),
        decreases n - k,
    {
        let m = mappings[k];
        proof {
            let rest = mappings@.subrange(k as int, n as int);
            assert(rest[0] == m);
            assert(rest.drop_first() =~= mappings@.subrange(k + 1, n as int));
            assert(mapping_bounded(mappings@[k as int]));
        }
        if m.audio_start <= t && t < m.audio_end {
            return Some(m.timeline_start + (t - m.audio_start));
        }
        k = k + 1;
    }
    None
}

/// A stretch of transcribed speech, with times in milliseconds.
#[derive(Debug, Clone)]
pub struct TranscriptionSegment {
    pub text: String,
    pub start_time: i64,
    pub duration: i64,
}

/// The transcription as a whole.
#[derive(Debug, Clone)]
pub struct TranscriptionResult {
    pub segments: Vec<TranscriptionSegment>,
}

/// Moves each segment that starts inside the merged audio to where that
/// point lies on the timeline. A segment outside every piece keeps its
/// time; the flags say, segment by segment, which ones were moved.
pub fn remap_segments(mappings: &Vec<TimeMapping>, segments: &Vec<TranscriptionSegment>) -> (r: (
    Vec<TranscriptionSegment>,
    Vec<bool>,
))
    requires
        forall|k: int| 0 <= k < mappings@.len() ==> #[trigger] mapping_bounded(mappings@[k]),
    ensures
        r.0@.len() == segments@.len(),
        r.1@.len() == segments@.len(),
        forall|i: int|
            0 <= i < segments@.len() ==> #[trigger] r.0@[i].text == segments@[i].text && r.0@[i].duration
                == segments@[i].duration,
        forall|i: int|
            0 <= i < segments@.len() ==> (#[trigger] r.1@[i] <==> remap_spec(
                mappings@,
                segments@[i].start_time as int,
            ) is Some),
        forall|i: int|
            0 <= i < segments@.len() ==> (remap_spec(mappings@, segments@[i].start_time as int) matches Some(
                t,
            ) ==> #[trigger] r.0@[i].start_time == t),
        forall|i: int|
            0 <= i < segments@.len() ==> (remap_spec(mappings@, segments@[i].start_time as int) is None
                ==> #[trigger] r.0@[i].start_time == segments@[i].start_time),
{
    let n = segments.len();
    let mut out: Vec<TranscriptionSegment> = Vec::new();
    let mut flags: Vec<bool> = Vec::new();
    let mut i: usize = 0;
    while i < n
        invariant
            n == segments@.len(),
            i <= n,
            out@.len() == i,
            flags@.len() == i,
            forall|k: int| 0 <= k < mappings@.len() ==> #[trigger] mapping_bounded(mappings@[k]),
            forall|j: int|
                0 <= j < i ==> #[trigger] out@[j].text == segments@[j].text && out@[j].duration
                    == segments@[j].duration,
            forall|j: int|
                0 <= j < i ==> (#[trigger] flags@[j] <==> remap_spec(
                    mappings@,
                    segments@[j].start_time as int,
                ) is Some),
            forall|j: int|
                0 <= j < i ==> (remap_spec(mappings@, segments@[j].start_time as int) matches Some(t)
                    ==> #[trigger] out@[j].start_time == t),
            forall|j: int|
                0 <= j < i ==> (remap_spec(mappings@, segments@[j].start_time as int) is None
                    ==> #[trigger] out@[j].start_time == segments@[j].start_time),
        decreases n - i,
    {
        let seg = &segments[i];
        let mapped = remap_time(mappings, seg.start_time);
        let (start, found) = match mapped {
            Some(t) => (t, true),
            None => (seg.start_time, false),
        };
        out.push(TranscriptionSegment { text: seg.text.clone(), start_time: start, duration: seg.duration });
        flags.push(found);
        i = i + 1;
    }
    (out, flags)
}

} // verus!
