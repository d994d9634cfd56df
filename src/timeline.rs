//! The timeline as the planner receives it: clips, transitions and text
//! overlays, with the derived quantities and the classification that picks a
//! render strategy.
//!
//! Every time is a whole number of milliseconds.

use vstd::prelude::*;

use crate::error::ExportError;
use crate::text::str_equal;

verus! {

/// An entry on the timeline: the window `[in_point, out_point)` of a source
/// file, placed at `start_time` on a track (0 is the base, 1 and up overlays).
#[derive(Debug, Clone)]
pub struct ClipData {
    pub id: u32,
    /// Absolute path of the source file.
    pub path: String,
    /// Start of the window in the source, in milliseconds.
    pub in_point: u32,
    /// End of the window in the source, in milliseconds.
    pub out_point: u32,
    /// Position on the timeline, in milliseconds.
    pub start_time: u32,
    pub track: u32,
    /// Volume level in percent, 0 to 200; 100 leaves the audio as it is.
    pub volume: u32,
    pub is_muted: bool,
    /// Audio fade-in length in milliseconds.
    pub fade_in_duration: u32,
    /// Audio fade-out length in milliseconds.
    pub fade_out_duration: u32,
}

/// A crossfade or wipe between two clips, named by their ids.
#[derive(Debug, Clone)]
pub struct TransitionData {
    pub id: u32,
    pub clip_id_before: u32,
    pub clip_id_after: u32,
    /// One of fade, crossfade, dissolve, fadeToBlack, wipeLeft, wipeRight.
    pub transition_type: String,
    /// Length in milliseconds.
    pub duration: u32,
}

/// A drawtext instruction shown during a window of the output.
#[derive(Debug, Clone)]
pub struct TextOverlayData {
    pub id: u32,
    pub text: String,
    /// Start on the timeline, in milliseconds.
    pub start_time: u32,
    /// Length in milliseconds.
    pub duration: u32,
    /// Horizontal position in thousandths of a percent of the frame width.
    pub x: u32,
    /// Vertical position in thousandths of a percent of the frame height.
    pub y: u32,
    pub font_size: u32,
    pub font_family: String,
    /// Color as `#RRGGBB`.
    pub color: String,
    pub animation: String,
}

/// The volume a clip has when its payload does not give one.
pub fn default_volume() -> (r: u32)
    ensures
        r == 100,
{
    100
}

/// Length of the clip's window, `out_point - in_point`.
pub open spec fn clip_duration(c: ClipData) -> int {
    c.out_point - c.in_point
}

/// Where the clip ends on the timeline.
pub open spec fn timeline_end(c: ClipData) -> int {
    c.start_time + clip_duration(c)
}

/// Two clips temporally overlap when they lie on different tracks and their
/// timeline windows intersect.
pub open spec fn temporally_overlap(a: ClipData, b: ClipData) -> bool {
    a.track != b.track && !(timeline_end(a) <= b.start_time || timeline_end(b) <= a.start_time)
}

/// Some pair of clips of the timeline temporally overlaps.
pub open spec fn has_temporal_overlap(clips: Seq<ClipData>) -> bool {
    exists|i: int, j: int|
        0 <= i < clips.len() && 0 <= j < clips.len() && #[trigger] temporally_overlap(
            clips[i],
            clips[j],
        )
}

/// The three ways a timeline is rendered.
#[derive(Debug, Clone, Copy, PartialEq, Eq, Structural)]
pub enum Strategy {
    /// Clips joined one after another through the concat demuxer.
    FastConcat,
    /// Clips joined through a chain of xfade filters.
    WithTransitions,
    /// A base video with overlay clips composed on top of it.
    MultiTrack,
}

/// The classification: overlap decides multi-track, then the presence of
/// transitions decides between the two sequential strategies.
pub open spec fn classify_spec(clips: Seq<ClipData>, n_transitions: nat) -> Strategy {
    if has_temporal_overlap(clips) {
        Strategy::MultiTrack
    } else if n_transitions > 0 {
        Strategy::WithTransitions
    } else {
        Strategy::FastConcat
    }
}

/// Whether clips `a` and `b` temporally overlap.
pub fn clips_overlap(a: &ClipData, b: &ClipData) -> (r: bool)
    ensures
        r == temporally_overlap(*a, *b),
{
    let end_a: i64 = a.start_time as i64 + (a.out_point as i64 - a.in_point as i64);
    let end_b: i64 = b.start_time as i64 + (b.out_point as i64 - b.in_point as i64);
    a.track != b.track && !(end_a <= b.start_time as i64 || end_b <= a.start_time as i64)
}

/// Whether any pair of clips temporally overlaps.
pub fn detect_temporal_overlap(clips: &Vec<ClipData>) -> (r: bool)
    ensures
        r == has_temporal_overlap(clips@),
{
    let n = clips.len();
    let mut i: usize = 0;
    while i < n
        invariant
            n == clips@.len(),
            i <= n,
            forall|a: int, b: int|
                0 <= a < i && 0 <= b < n ==> !#[trigger] temporally_overlap(clips@[a], clips@[b]),
        decreases n - i,
    {
        let mut j: usize = 0;
        while j < n
            invariant
                n == clips@.len(),
                i < n,
                j <= n,
                forall|a: int, b: int|
                    0 <= a < i && 0 <= b < n ==> !#[trigger] temporally_overlap(
                        clips@[a],
                        clips@[b],
                    ),
                forall|b: int| 0 <= b < j ==> !#[trigger] temporally_overlap(clips@[i as int], clips@[b]),
            decreases n - j,
        {
            if clips_overlap(&clips[i], &clips[j]) {
                return true;
            }
            j = j + 1;
        }
        i = i + 1;
    }
    false
}

/// Picks the render strategy of a timeline.
pub fn classify(clips: &Vec<ClipData>, transitions: &Vec<TransitionData>) -> (r: Strategy)
    ensures
        r == classify_spec(clips@, transitions@.len()),
{
    if detect_temporal_overlap(clips) {
        Strategy::MultiTrack
    } else if transitions.len() > 0 {
        Strategy::WithTransitions
    } else {
        Strategy::FastConcat
    }
}

/// Every timeline falls under exactly one strategy, and which one depends on
/// nothing but whether some pair of clips overlaps and whether there are
/// transitions.
pub proof fn lemma_classification_total_and_disjoint(
    clips: Seq<ClipData>,
    n_transitions: nat,
    other_clips: Seq<ClipData>,
    other_n_transitions: nat,
)
    ensures
        classify_spec(clips, n_transitions) is FastConcat || classify_spec(clips, n_transitions) is WithTransitions
            || classify_spec(clips, n_transitions) is MultiTrack,
        (classify_spec(clips, n_transitions) is MultiTrack) <==> has_temporal_overlap(clips),
        (classify_spec(clips, n_transitions) is WithTransitions) <==> (!has_temporal_overlap(clips)
            && n_transitions > 0),
        (classify_spec(clips, n_transitions) is FastConcat) <==> (!has_temporal_overlap(clips)
            && n_transitions == 0),
        has_temporal_overlap(clips) == has_temporal_overlap(other_clips) && (n_transitions > 0)
            == (other_n_transitions > 0) ==> classify_spec(clips, n_transitions) == classify_spec(
            other_clips,
            other_n_transitions,
        ),
{
}

/// Clips on different tracks whose windows do not meet never overlap.
pub proof fn lemma_disjoint_windows_do_not_overlap(a: ClipData, b: ClipData)
    requires
        timeline_end(a) <= b.start_time || timeline_end(b) <= a.start_time,
    ensures
        !temporally_overlap(a, b),
{
}

/// The xfade transition that a transition kind stands for. The xfade name
/// gives the direction in which the incoming picture moves, the opposite of
/// how the kinds are named.
pub open spec fn xfade_name(kind: Seq<char>) -> Option<Seq<char>> {
    if kind == "fade"@ || kind == "crossfade"@ || kind == "dissolve"@ {
        Some("fade"@)
    } else if kind == "fadeToBlack"@ {
        Some("fadeblack"@)
    } else if kind == "wipeLeft"@ {
        Some("wiperight"@)
    } else if kind == "wipeRight"@ {
        Some("wipeleft"@)
    } else {
        None
    }
}

/// Maps a transition kind to its xfade transition name.
pub fn map_transition_type(transition_type: &str) -> (r: Result<String, ExportError>)
    ensures
        xfade_name(transition_type@) matches Some(n) ==> (r matches Ok(s) && s@ == n),
        xfade_name(transition_type@) is None ==> (r matches Err(ExportError::UnknownTransitionKind(k))
            && k@ == transition_type@),
{
    if str_equal(transition_type, "fade") || str_equal(transition_type, "crossfade") || str_equal(
        transition_type,
        "dissolve",
    ) {
        Ok(String::from_str("fade"))
    } else if str_equal(transition_type, "fadeToBlack") {
        Ok(String::from_str("fadeblack"))
    } else if str_equal(transition_type, "wipeLeft") {
        Ok(String::from_str("wiperight"))
    } else if str_equal(transition_type, "wipeRight") {
        Ok(String::from_str("wipeleft"))
    } else {
        Err(ExportError::UnknownTransitionKind(String::from_str(transition_type)))
    }
}

/// The position of the transition declared for the ordered pair
/// `(before, after)`; where several are, the last one counts.
pub open spec fn find_transition(ts: Seq<TransitionData>, before: u32, after: u32) -> Option<int>
    decreases ts.len(),
{
    if ts.len() == 0 {
        None
    } else if ts.last().clip_id_before == before && ts.last().clip_id_after == after {
        Some(ts.len() - 1)
    } else {
        find_transition(ts.drop_last(), before, after)
    }
}

pub proof fn lemma_find_transition_in_range(ts: Seq<TransitionData>, before: u32, after: u32)
    ensures
        find_transition(ts, before, after) matches Some(k) ==> 0 <= k < ts.len() && ts[k].clip_id_before
            == before && ts[k].clip_id_after == after,
    decreases ts.len(),
{
    if ts.len() > 0 {
        lemma_find_transition_in_range(ts.drop_last(), before, after);
    }
}

/// Looks up the transition declared for the ordered pair `(before, after)`.
pub fn find_pair_transition(transitions: &Vec<TransitionData>, before: u32, after: u32) -> (r:
    Option<usize>)
    ensures
        r matches Some(k) ==> find_transition(transitions@, before, after) == Some(k as int),
        r is None ==> find_transition(transitions@, before, after) is None,
        r matches Some(k) ==> k < transitions@.len(),
{
    let n = transitions.len();
    let mut found: Option<usize> = None;
    let mut i: usize = 0;
    while i < n
        invariant
            n == transitions@.len(),
            i <= n,
            found matches Some(k) ==> k < i,
            found matches Some(k) ==> find_transition(transitions@.subrange(0, i as int), before, after)
                == Some(k as int),
            found is None ==> find_transition(transitions@.subrange(0, i as int), before, after) is None,
        decreases n - i,
    {
        proof {
            assert(transitions@.subrange(0, i + 1).drop_last() =~= transitions@.subrange(0, i as int));
        }
        if transitions[i].clip_id_before == before && transitions[i].clip_id_after == after {
            found = Some(i);
        }
        i = i + 1;
    }
    assert(transitions@.subrange(0, n as int) =~= transitions@);
    found
}

/// One link of an xfade chain: the transition name and its length in
/// milliseconds.
#[derive(Debug, Clone)]
pub struct XfadeStep {
    pub name: String,
    pub duration: u32,
}

/// The length of the hard-cut stand-in between neighbours without a
/// declared transition: a 10 ms fade keeps every link of the chain alike.
pub const CUT_DURATION: u32 = 10;

/// The xfade link between the clips at `i` and `i + 1`: the declared
/// transition if there is one (none when its kind is unknown), else a short
/// fade.
pub open spec fn xfade_step(clips: Seq<ClipData>, ts: Seq<TransitionData>, i: int) -> Option<
    (Seq<char>, nat),
> {
    match find_transition(ts, clips[i].id, clips[i + 1].id) {
        Some(k) => match xfade_name(ts[k].transition_type@) {
            Some(n) => Some((n, ts[k].duration as nat)),
            None => None,
        },
        None => Some(("fade"@, CUT_DURATION as nat)),
    }
}

/// Whether `steps` are the xfade links of every neighbouring pair.
pub open spec fn steps_match(clips: Seq<ClipData>, ts: Seq<TransitionData>, steps: Seq<XfadeStep>) -> bool {
    &&& clips.len() >= 1
    &&& steps.len() == clips.len() - 1
    &&& forall|i: int|
        0 <= i < steps.len() ==> #[trigger] xfade_step(clips, ts, i) == Some(
            (steps[i].name@, steps[i].duration as nat),
        )
}

/// `e` reports the first neighbouring pair of `clips` whose declared
/// transition has an unknown kind, and carries that kind.
pub open spec fn first_unknown_pair(clips: Seq<ClipData>, ts: Seq<TransitionData>, e: ExportError) -> bool {
    exists|i: int|
        0 <= i < clips.len() - 1 && #[trigger] xfade_step(clips, ts, i) is None && (forall|j: int|
            0 <= j < i ==> #[trigger] xfade_step(clips, ts, j) is Some) && (find_transition(
            ts,
            clips[i].id,
            clips[i + 1].id,
        ) matches Some(k) && (e matches ExportError::UnknownTransitionKind(kind) && kind@
            == ts[k].transition_type@))
}

/// Resolves the xfade link of every neighbouring pair of `clips`.
pub fn resolve_xfade_steps(clips: &Vec<ClipData>, transitions: &Vec<TransitionData>) -> (r: Result<
    Vec<XfadeStep>,
    ExportError,
>)
    requires
        clips@.len() >= 1,
    ensures
        r matches Ok(steps) ==> steps_match(clips@, transitions@, steps@),
        r is Ok <==> forall|i: int| 0 <= i < clips@.len() - 1 ==> #[trigger] xfade_step(clips@, transitions@, i) is Some,
        r matches Err(e) ==> first_unknown_pair(clips@, transitions@, e),
{
    let n = clips.len();
    let mut steps: Vec<XfadeStep> = Vec::new();
    let mut i: usize = 0;
    while i + 1 < n
        invariant
            n == clips@.len(),
            n >= 1,
            i <= n - 1,
            steps@.len() == i,
            forall|j: int|
                0 <= j < i ==> #[trigger] xfade_step(clips@, transitions@, j) == Some(
                    (steps@[j].name@, steps@[j].duration as nat),
                ),
        decreases n - i,
    {
        let found = find_pair_transition(transitions, clips[i].id, clips[i + 1].id);
        proof {
            lemma_find_transition_in_range(transitions@, clips@[i as int].id, clips@[i + 1].id);
        }
        match found {
            Some(k) => {
                let name = map_transition_type(transitions[k].transition_type.as_str());
                match name {
                    Ok(nm) => {
                        steps.push(XfadeStep { name: nm, duration: transitions[k].duration });
                    },
                    Err(e) => {
                        assert(xfade_step(clips@, transitions@, i as int) is None);
                        return Err(e);
                    },
                }
            },
            None => {
                proof {
                    reveal_strlit("fade");
                }
                steps.push(XfadeStep { name: String::from_str("fade"), duration: CUT_DURATION });
            },
        }
        i = i + 1;
    }
    Ok(steps)
}

/// Clip `a` comes before clip `b` in timeline order: earlier start, or the
/// same start and earlier in the input.
pub open spec fn start_before(clips: Seq<ClipData>, a: int, b: int) -> bool {
    clips[a].start_time < clips[b].start_time || (clips[a].start_time == clips[b].start_time && a < b)
}

/// `order` lists every position of `clips` once, in timeline order.
pub open spec fn start_order(clips: Seq<ClipData>, order: Seq<int>) -> bool {
    &&& order.len() == clips.len()
    &&& forall|k: int| 0 <= k < order.len() ==> 0 <= #[trigger] order[k] < clips.len()
    &&& forall|k: int, l: int| 0 <= k < l < order.len() ==> start_before(clips, order[k], order[l])
    &&& forall|j: int| 0 <= j < clips.len() ==> #[trigger] order.contains(j)
}

/// `sorted` is `clips` sorted by start time, equal starts kept in input order.
pub open spec fn stable_sorted(clips: Seq<ClipData>, sorted: Seq<ClipData>) -> bool {
    exists|order: Seq<int>|
        start_order(clips, order) && sorted.len() == clips.len() && forall|k: int|
            0 <= k < sorted.len() ==> #[trigger] sorted[k] == clips[order[k]]
}

/// A copy of a clip.
pub fn copy_clip(c: &ClipData) -> (r: ClipData)
    ensures
        r == *c,
{
    ClipData {
        id: c.id,
        path: c.path.clone(),
        in_point: c.in_point,
        out_point: c.out_point,
        start_time: c.start_time,
        track: c.track,
        volume: c.volume,
        is_muted: c.is_muted,
        fade_in_duration: c.fade_in_duration,
        fade_out_duration: c.fade_out_duration,
    }
}

/// The clips sorted by timeline position; clips that start together keep
/// their input order.
#[verifier::rlimit(50)]
pub fn sort_by_start(clips: &Vec<ClipData>) -> (r: Vec<ClipData>)
    ensures
        stable_sorted(clips@, r@),
{
    let n = clips.len();
    let mut r: Vec<ClipData> = Vec::new();
    let ghost mut order: Seq<int> = Seq::empty();
    let mut i: usize = 0;
    while i < n
        invariant
            n == clips@.len(),
            i <= n,
            r@.len() == i,
            order.len() == i,
            forall|k: int| 0 <= k < order.len() ==> 0 <= #[trigger] order[k] < i,
            forall|k: int, l: int| 0 <= k < l < order.len() ==> start_before(clips@, order[k], order[l]),
            forall|j: int| 0 <= j < i ==> #[trigger] order.contains(j),
            forall|k: int| 0 <= k < r@.len() ==> #[trigger] r@[k] == clips@[order[k]],
        decreases n - i,
    {
        let st = clips[i].start_time;
        let m = r.len();
        let mut pos: usize = 0;
        while pos < m && r[pos].start_time <= st
            invariant
                m == r@.len(),
                pos <= m,
                forall|k: int| 0 <= k < pos ==> r@[k].start_time <= st,
            decreases m - pos,
        {
            pos = pos + 1;
        }
        let ghost old_order = order;
        let ghost old_r = r@;
        let c = copy_clip(&clips[i]);
        r.insert(pos, c);
        proof {
            order = order.insert(pos as int, i as int);
            old_order.insert_ensures(pos as int, i as int);
            old_r.insert_ensures(pos as int, c);
            assert forall|k: int| 0 <= k < r@.len() implies #[trigger] r@[k] == clips@[order[k]] by {
                if k < pos {
                } else if k == pos {
                } else {
                    assert(r@[k] == old_r[k - 1]);
                    assert(order[k] == old_order[k - 1]);
                }
            }
            assert forall|k: int, l: int| 0 <= k < l < order.len() implies start_before(
                clips@,
                order[k],
                order[l],
            ) by {
                if l < pos {
                } else if l == pos {
                    assert(old_r[k] == clips@[old_order[k]]);
                    assert(old_r[k].start_time <= st);
                } else if k < pos {
                    assert(order[l] == old_order[l - 1]);
                    if pos < m {
                        assert(old_r[pos as int].start_time > st);
                        assert(old_r[pos as int] == clips@[old_order[pos as int]]);
                        if l - 1 > pos {
                            assert(start_before(clips@, old_order[pos as int], old_order[l - 1]));
                        }
                    }
                } else if k == pos {
                    assert(order[l] == old_order[l - 1]);
                    assert(old_r[pos as int].start_time > st);
                    assert(old_r[pos as int] == clips@[old_order[pos as int]]);
                    if l - 1 > pos {
                        assert(start_before(clips@, old_order[pos as int], old_order[l - 1]));
                    }
                } else {
                    assert(order[l] == old_order[l - 1]);
                    assert(order[k] == old_order[k - 1]);
                }
            }
            assert forall|j: int| 0 <= j < i + 1 implies #[trigger] order.contains(j) by {
                if j < i {
                    assert(old_order.contains(j));
                    let k = choose|k: int| 0 <= k < old_order.len() && old_order[k] == j;
                    if k < pos {
                        assert(order[k] == j);
                    } else {
                        assert(order[k + 1] == j);
                    }
                } else {
                    assert(order[pos as int] == j);
                }
            }
            assert forall|k: int| 0 <= k < order.len() implies 0 <= #[trigger] order[k] < i + 1 by {
                if k < pos {
                } else if k > pos {
                    assert(order[k] == old_order[k - 1]);
                }
            }
        }
        i = i + 1;
    }
    proof {
        assert(start_order(clips@, order));
    }
    r
}

/// Clip `b` directly follows clip `a` on their common track, in timeline
/// order.
pub open spec fn adjacent_on_track(clips: Seq<ClipData>, a: int, b: int) -> bool {
    &&& 0 <= a < clips.len()
    &&& 0 <= b < clips.len()
    &&& clips[a].track == clips[b].track
    &&& start_before(clips, a, b)
    &&& forall|c: int|
        0 <= c < clips.len() && clips[c].track == clips[a].track && start_before(clips, a, c)
            ==> !#[trigger] start_before(clips, c, b)
}

/// Transition `t` joins two neighbours on a track and is shorter than both.
pub open spec fn transition_fits(clips: Seq<ClipData>, t: TransitionData) -> bool {
    exists|a: int, b: int|
        #[trigger] adjacent_on_track(clips, a, b) && clips[a].id == t.clip_id_before && clips[b].id
            == t.clip_id_after && 0 < t.duration && t.duration < clip_duration(clips[a])
            && t.duration < clip_duration(clips[b])
}

/// Transition `k` names the same ordered pair as an earlier one.
pub open spec fn repeats_pair(ts: Seq<TransitionData>, k: int) -> bool {
    exists|j: int|
        0 <= j < k && #[trigger] ts[j].clip_id_before == ts[k].clip_id_before && ts[j].clip_id_after
            == ts[k].clip_id_after
}

/// Transition `k` is well placed: it fits its clips and repeats no pair.
pub open spec fn transition_valid(clips: Seq<ClipData>, ts: Seq<TransitionData>, k: int) -> bool {
    transition_fits(clips, ts[k]) && !repeats_pair(ts, k)
}

/// Transition `k` is well placed and of a known kind.
pub open spec fn transition_ok(clips: Seq<ClipData>, ts: Seq<TransitionData>, k: int) -> bool {
    transition_valid(clips, ts, k) && xfade_name(ts[k].transition_type@) is Some
}

/// The clip that follows clip `a` on its track, if any.
pub fn track_successor(clips: &Vec<ClipData>, a: usize) -> (r: Option<usize>)
    requires
        a < clips@.len(),
    ensures
        r matches Some(b) ==> adjacent_on_track(clips@, a as int, b as int),
        r is None ==> forall|c: int|
            0 <= c < clips@.len() && clips@[c].track == clips@[a as int].track ==> !#[trigger] start_before(
                clips@,
                a as int,
                c,
            ),
{
    let n = clips.len();
    let mut best: Option<usize> = None;
    let mut c: usize = 0;
    while c < n
        invariant
            n == clips@.len(),
            a < n,
            c <= n,
            best matches Some(b) ==> b < n && clips@[b as int].track == clips@[a as int].track
                && start_before(clips@, a as int, b as int),
            best matches Some(b) ==> forall|d: int|
                0 <= d < c && clips@[d].track == clips@[a as int].track && start_before(
                    clips@,
                    a as int,
                    d,
                ) ==> d == b || #[trigger] start_before(clips@, b as int, d),
            best is None ==> forall|d: int|
                0 <= d < c && clips@[d].track == clips@[a as int].track ==> !#[trigger] start_before(
                    clips@,
                    a as int,
                    d,
                ),
        decreases n - c,
    {
        let ca = &clips[a];
        let cc = &clips[c];
        if cc.track == ca.track && (cc.start_time > ca.start_time || (cc.start_time == ca.start_time
            && c > a)) {
            match best {
                None => {
                    best = Some(c);
                },
                Some(b) => {
                    let cb = &clips[b];
                    if cc.start_time < cb.start_time || (cc.start_time == cb.start_time && c < b) {
                        best = Some(c);
                        proof {
                            assert forall|d: int|
                                0 <= d < c + 1 && clips@[d].track == clips@[a as int].track
                                    && start_before(clips@, a as int, d) implies d == c
                                || #[trigger] start_before(clips@, c as int, d) by {
                                if d < c && d != b {
                                    assert(start_before(clips@, b as int, d));
                                }
                            }
                        }
                    }
                },
            }
        }
        c = c + 1;
    }
    proof {
        if let Some(b) = best {
            assert forall|d: int|
                0 <= d < clips@.len() && clips@[d].track == clips@[a as int].track && start_before(
                    clips@,
                    a as int,
                    d,
                ) implies !#[trigger] start_before(clips@, d, b as int) by {
                if d != b {
                    assert(start_before(clips@, b as int, d));
                }
            }
        }
    }
    best
}

/// Whether transition `t` joins two neighbours on a track and is shorter
/// than both.
pub fn transition_fits_exec(clips: &Vec<ClipData>, t: &TransitionData) -> (r: bool)
    ensures
        r == transition_fits(clips@, *t),
{
    let n = clips.len();
    let mut a: usize = 0;
    while a < n
        invariant
            n == clips@.len(),
            a <= n,
            forall|x: int, y: int|
                0 <= x < a && #[trigger] adjacent_on_track(clips@, x, y) && clips@[x].id == t.clip_id_before ==> !(
                clips@[y].id == t.clip_id_after && 0 < t.duration && t.duration < clip_duration(clips@[x])
                    && t.duration < clip_duration(clips@[y])),
        decreases n - a,
    {
        if clips[a].id == t.clip_id_before {
            match track_successor(clips, a) {
                Some(b) => {
                    let ca = &clips[a];
                    let cb = &clips[b];
                    let da: i64 = ca.out_point as i64 - ca.in_point as i64;
                    let db: i64 = cb.out_point as i64 - cb.in_point as i64;
                    if cb.id == t.clip_id_after && 0 < t.duration && (t.duration as i64) < da
                        && (t.duration as i64) < db {
                        assert(adjacent_on_track(clips@, a as int, b as int));
                        return true;
                    }
                    proof {
                        assert forall|y: int| #[trigger] adjacent_on_track(clips@, a as int, y) implies y
                            == b by {
                            if y != b {
                                if start_before(clips@, y, b as int) {
                                } else {
                                    assert(start_before(clips@, b as int, y));
                                }
                            }
                        }
                    }
                },
                None => {},
            }
        }
        a = a + 1;
    }
    false
}

/// Why a timeline cannot be rendered, checked in this order: no clips, a
/// missing source, an empty window, then the transitions in order (one that
/// does not fit or repeats a pair, then one of unknown kind).
pub open spec fn first_missing(present: Seq<bool>, i: int) -> bool {
    0 <= i < present.len() && !present[i] && forall|j: int| 0 <= j < i ==> #[trigger] present[j]
}

/// Clip `i` is the first with an empty or reversed window.
pub open spec fn first_bad_duration(clips: Seq<ClipData>, i: int) -> bool {
    0 <= i < clips.len() && clips[i].out_point <= clips[i].in_point && forall|j: int|
        0 <= j < i ==> #[trigger] clips[j].out_point > clips[j].in_point
}

/// Transition `k` is the first that is not well placed and of a known kind.
pub open spec fn first_bad_transition(clips: Seq<ClipData>, ts: Seq<TransitionData>, k: int) -> bool {
    0 <= k < ts.len() && !transition_ok(clips, ts, k) && forall|j: int|
        0 <= j < k ==> #[trigger] transition_ok(clips, ts, j)
}

/// The timeline passes every check: it has clips, all sources exist, all
/// windows are non-empty, and all transitions are well placed and known.
pub open spec fn validation_ok(clips: Seq<ClipData>, ts: Seq<TransitionData>, present: Seq<bool>) -> bool {
    clips.len() > 0 && (forall|i: int| 0 <= i < clips.len() ==> #[trigger] present[i]) && (forall|i: int|
        0 <= i < clips.len() ==> #[trigger] clips[i].out_point > clips[i].in_point) && (forall|k: int|
        0 <= k < ts.len() ==> #[trigger] transition_ok(clips, ts, k))
}

/// `e` is the error the checks give, taken in order: no clips, the first
/// missing source, the first empty window, the first bad transition.
pub open spec fn validation_error(
    clips: Seq<ClipData>,
    ts: Seq<TransitionData>,
    present: Seq<bool>,
    e: ExportError,
) -> bool {
    if clips.len() == 0 {
        e is EmptyTimeline
    } else if exists|i: int| first_missing(present, i) {
        exists|i: int| first_missing(present, i) && (e matches ExportError::SourceMissing(p) && p@ == clips[i].path@)
    } else if exists|i: int| first_bad_duration(clips, i) {
        exists|i: int| first_bad_duration(clips, i) && e == ExportError::InvalidDuration(clips[i].id)
    } else {
        exists|k: int|
            first_bad_transition(clips, ts, k) && (if !transition_valid(clips, ts, k) {
                e == ExportError::InvalidTransition(ts[k].id)
            } else {
                e matches ExportError::UnknownTransitionKind(kind) && kind@ == ts[k].transition_type@
            })
    }
}

/// Checks a timeline before rendering; `sources_present[i]` tells whether
/// clip `i`'s source file exists.
#[verifier::rlimit(50)]
pub fn validate_timeline(
    clips: &Vec<ClipData>,
    transitions: &Vec<TransitionData>,
    sources_present: &Vec<bool>,
) -> (r: Result<(), ExportError>)
    requires
        sources_present@.len() == clips@.len(),
    ensures
        clips@.len() == 0 ==> (r matches Err(ExportError::EmptyTimeline)),
        clips@.len() > 0 && (exists|i: int| first_missing(sources_present@, i)) ==> exists|i: int|
            first_missing(sources_present@, i) && (r matches Err(ExportError::SourceMissing(p)) && p@
                == clips@[i].path@),
        clips@.len() > 0 && (forall|i: int| 0 <= i < clips@.len() ==> #[trigger] sources_present@[i])
            && (exists|i: int| first_bad_duration(clips@, i)) ==> exists|i: int|
            first_bad_duration(clips@, i) && r == Err::<(), ExportError>(
                ExportError::InvalidDuration(clips@[i].id),
            ),
        clips@.len() > 0 && (forall|i: int| 0 <= i < clips@.len() ==> #[trigger] sources_present@[i])
            && (forall|i: int| 0 <= i < clips@.len() ==> #[trigger] clips@[i].out_point > clips@[i].in_point)
            && (exists|k: int| first_bad_transition(clips@, transitions@, k)) ==> exists|k: int|
            first_bad_transition(clips@, transitions@, k) && (if !transition_valid(
                clips@,
                transitions@,
                k,
            ) {
                r == Err::<(), ExportError>(ExportError::InvalidTransition(transitions@[k].id))
            } else {
                r matches Err(ExportError::UnknownTransitionKind(kind)) && kind@
                    == transitions@[k].transition_type@
            }),
        r is Ok <==> validation_ok(clips@, transitions@, sources_present@),
        r matches Err(e) ==> validation_error(clips@, transitions@, sources_present@, e),
{
    let n = clips.len();
    if n == 0 {
        return Err(ExportError::EmptyTimeline);
    }
    let mut i: usize = 0;
    while i < n
        invariant
            n == clips@.len(),
            n > 0,
            n == sources_present@.len(),
            i <= n,
            forall|j: int| 0 <= j < i ==> #[trigger] sources_present@[j],
        decreases n - i,
    {
        if !sources_present[i] {
            assert(first_missing(sources_present@, i as int));
            return Err(ExportError::SourceMissing(clips[i].path.clone()));
        }
        i = i + 1;
    }
    let mut i: usize = 0;
    while i < n
        invariant
            n == clips@.len(),
            n > 0,
            n == sources_present@.len(),
            i <= n,
            forall|j: int| 0 <= j < n ==> #[trigger] sources_present@[j],
            forall|j: int| 0 <= j < i ==> #[trigger] clips@[j].out_point > clips@[j].in_point,
        decreases n - i,
    {
        if clips[i].out_point <= clips[i].in_point {
            assert(first_bad_duration(clips@, i as int));
            assert(forall|i: int| #![auto] !first_missing(sources_present@, i));
            return Err(ExportError::InvalidDuration(clips[i].id));
        }
        i = i + 1;
    }
    let m = transitions.len();
    let mut k: usize = 0;
    while k < m
        invariant
            n == clips@.len(),
            n > 0,
            n == sources_present@.len(),
            m == transitions@.len(),
            k <= m,
            forall|j: int| 0 <= j < n ==> #[trigger] sources_present@[j],
            forall|j: int| 0 <= j < n ==> #[trigger] clips@[j].out_point > clips@[j].in_point,
            forall|j: int| 0 <= j < k ==> #[trigger] transition_ok(clips@, transitions@, j),
        decreases m - k,
    {
        let t = &transitions[k];
        let fits = transition_fits_exec(clips, t);
        let mut repeated = false;
        let mut j: usize = 0;
        while j < k
            invariant
                m == transitions@.len(),
                k < m,
                j <= k,
                t == transitions@[k as int],
                repeated == exists|x: int|
                    0 <= x < j && #[trigger] transitions@[x].clip_id_before == transitions@[k as int].clip_id_before
                        && transitions@[x].clip_id_after == transitions@[k as int].clip_id_after,
            decreases k - j,
        {
            if transitions[j].clip_id_before == t.clip_id_before && transitions[j].clip_id_after
                == t.clip_id_after {
                repeated = true;
            }
            j = j + 1;
        }
        assert(repeated == repeats_pair(transitions@, k as int));
        if !fits || repeated {
            assert(first_bad_transition(clips@, transitions@, k as int));
            assert(forall|i: int| #![auto] !first_missing(sources_present@, i));
            assert(forall|i: int| #![auto] !first_bad_duration(clips@, i));
            return Err(ExportError::InvalidTransition(t.id));
        }
        match map_transition_type(t.transition_type.as_str()) {
            Ok(_) => {},
            Err(e) => {
                assert(first_bad_transition(clips@, transitions@, k as int));
                assert(forall|i: int| #![auto] !first_missing(sources_present@, i));
                assert(forall|i: int| #![auto] !first_bad_duration(clips@, i));
                return Err(e);
            },
        }
        k = k + 1;
    }
    assert(forall|i: int| #![auto] !first_missing(sources_present@, i));
    assert(forall|i: int| #![auto] !first_bad_duration(clips@, i));
    assert(forall|i: int| #![auto] !first_bad_transition(clips@, transitions@, i));
    Ok(())
}

} // verus!
