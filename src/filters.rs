//! Filter-graph construction: normalization of inputs, xfade chains, audio
//! concatenation and crossfades, overlay chains and drawtext.

use vstd::prelude::*;

use crate::encoder::{scale_filter_spec, Resolution};
use crate::error::ExportError;
use crate::text::{
    drawtext_escape, escape_drawtext, escape_single_quotes, fixed2, fixed3, join, join_strings, label,
    nat_digits, push_fixed2, push_fixed3, push_label, push_nat, push_short3, push_signed_fixed3, push_stream,
    short3, signed_fixed3, stream, views,
};
use crate::timeline::{
    clip_duration, first_unknown_pair, resolve_xfade_steps, steps_match, timeline_end, xfade_step, ClipData, TextOverlayData,
    TransitionData, XfadeStep,
};

verus! {

/// Scales input `input` into a `w`×`h` frame (letterboxed), and forces the
/// pixel format, frame rate and timebase that xfade needs alike on both of
/// its inputs; the result is the link `[vin<k>]`.
pub open spec fn normalize_spec(input: nat, k: nat, w: nat, h: nat) -> Seq<char> {
    stream(input, "v"@) + "scale="@ + nat_digits(w) + ":"@ + nat_digits(h)
        + ":force_original_aspect_ratio=decrease,pad="@ + nat_digits(w) + ":"@ + nat_digits(h)
        + ":-1:-1:color=black,format=yuv420p,fps=fps=30:round=near,settb=expr=1/30,setpts=PTS-STARTPTS"@
        + label("vin"@, k)
}

/// The normalization filter of input `input`, producing `[vin<k>]`.
pub fn normalize_filter(input: u128, k: u128, w: u32, h: u32) -> (r: String)
    ensures
        r@ == normalize_spec(input as nat, k as nat, w as nat, h as nat),
{
    let mut s = String::new();
    push_stream(&mut s, input, "v");
    s.append("scale=");
    push_nat(&mut s, w as u128);
    s.append(":");
    push_nat(&mut s, h as u128);
    s.append(":force_original_aspect_ratio=decrease,pad=");
    push_nat(&mut s, w as u128);
    s.append(":");
    push_nat(&mut s, h as u128);
    s.append(
        ":-1:-1:color=black,format=yuv420p,fps=fps=30:round=near,settb=expr=1/30,setpts=PTS-STARTPTS",
    );
    push_label(&mut s, "vin", k);
    assert(s@ =~= normalize_spec(input as nat, k as nat, w as nat, h as nat));
    s
}

/// `Σ_{j<i} (D_j − d_j)`: where link `i` of the chain begins, with `D_j` the
/// length of clip `j` and `d_j` the length of link `j`.
pub open spec fn prefix_offset(clips: Seq<ClipData>, steps: Seq<XfadeStep>, i: int) -> int
    decreases i,
{
    if i <= 0 {
        0
    } else {
        prefix_offset(clips, steps, i - 1) + clip_duration(clips[i - 1]) - steps[i - 1].duration
    }
}

/// The offset of link `i`: `Σ_{j<i} (D_j − d_j) + D_i − d_i`.
pub open spec fn xfade_offset(clips: Seq<ClipData>, steps: Seq<XfadeStep>, i: int) -> int {
    prefix_offset(clips, steps, i) + clip_duration(clips[i]) - steps[i].duration
}

/// The sum of a sequence of integers.
pub open spec fn sum_of(s: Seq<int>) -> int
    decreases s.len(),
{
    if s.len() == 0 {
        0
    } else {
        sum_of(s.drop_last()) + s.last()
    }
}

/// Every emitted xfade offset is `Σ_{j<i} (D_j − d_j) + D_i − d_i`, with
/// `D_j` the length of clip `j` and `d_j` the length of link `j` (the
/// declared transition, or the 10 ms stand-in).
pub proof fn lemma_xfade_offset_sum(clips: Seq<ClipData>, steps: Seq<XfadeStep>, i: int)
    requires
        0 <= i < steps.len(),
        steps.len() + 1 == clips.len(),
    ensures
        xfade_offset(clips, steps, i) == sum_of(
            Seq::new(i as nat, |j: int| clip_duration(clips[j]) - steps[j].duration),
        ) + clip_duration(clips[i]) - steps[i].duration,
{
    lemma_prefix_offset_sum(clips, steps, i);
}

proof fn lemma_prefix_offset_sum(clips: Seq<ClipData>, steps: Seq<XfadeStep>, i: int)
    requires
        0 <= i <= steps.len(),
    ensures
        prefix_offset(clips, steps, i) == sum_of(
            Seq::new(i as nat, |j: int| clip_duration(clips[j]) - steps[j].duration),
        ),
    decreases i,
{
    let terms = Seq::new(i as nat, |j: int| clip_duration(clips[j]) - steps[j].duration);
    if i > 0 {
        lemma_prefix_offset_sum(clips, steps, i - 1);
        assert(terms.drop_last() =~= Seq::new(
            (i - 1) as nat,
            |j: int| clip_duration(clips[j]) - steps[j].duration,
        ));
    } else {
        assert(terms.len() == 0);
    }
}

/// One xfade filter.
pub open spec fn xfade_spec(
    left: Seq<char>,
    right: Seq<char>,
    name: Seq<char>,
    duration: nat,
    offset: int,
    out: Seq<char>,
) -> Seq<char> {
    left + right + "xfade=transition="@ + name + ":duration="@ + fixed3(duration) + ":offset="@
        + signed_fixed3(offset) + out
}

/// The running input of link `i`: the first normalized stream, then the
/// previous link's output.
pub open spec fn chain_left(prefix: Seq<char>, first: Seq<char>, i: int) -> Seq<char> {
    if i == 0 {
        first
    } else {
        label(prefix, (i - 1) as nat)
    }
}

/// The output of link `i` of `count` links: `last` for the final one.
pub open spec fn chain_out(prefix: Seq<char>, last: Seq<char>, i: int, count: int) -> Seq<char> {
    if i == count - 1 {
        last
    } else {
        label(prefix, i as nat)
    }
}

/// Part `k` of the video graph of a chain over `clips`: the normalization
/// of every input first, then the xfade links.
pub open spec fn video_chain_part(
    clips: Seq<ClipData>,
    steps: Seq<XfadeStep>,
    input_offset: nat,
    w: nat,
    h: nat,
    last: Seq<char>,
    k: int,
) -> Seq<char> {
    let n = clips.len() as int;
    if k < n {
        normalize_spec(input_offset + k as nat, k as nat, w, h)
    } else {
        let i = k - n;
        xfade_spec(
            chain_left("v"@, label("vin"@, 0), i),
            label("vin"@, (i + 1) as nat),
            steps[i].name@,
            steps[i].duration as nat,
            xfade_offset(clips, steps, i),
            chain_out("v"@, last, i, n - 1),
        )
    }
}

/// The video graph of an xfade chain over `clips`, its parts joined by `;`.
pub open spec fn video_chain(
    clips: Seq<ClipData>,
    steps: Seq<XfadeStep>,
    input_offset: nat,
    w: nat,
    h: nat,
    last: Seq<char>,
) -> Seq<char> {
    join(
        Seq::new(
            (2 * clips.len() - 1) as nat,
            |k: int| video_chain_part(clips, steps, input_offset, w, h, last, k),
        ),
        ";"@,
    )
}

/// An xfade filter between two links.
pub fn xfade_filter(left: &str, right: &str, name: &str, duration: u32, offset: i128, out: &str) -> (r:
    String)
    ensures
        r@ == xfade_spec(left@, right@, name@, duration as nat, offset as int, out@),
{
    let mut s = String::from_str(left);
    s.append(right);
    s.append("xfade=transition=");
    s.append(name);
    s.append(":duration=");
    push_fixed3(&mut s, duration as u128);
    s.append(":offset=");
    push_signed_fixed3(&mut s, offset);
    s.append(out);
    assert(s@ =~= xfade_spec(left@, right@, name@, duration as nat, offset as int, out@));
    s
}

fn label_string(prefix: &str, k: u128) -> (r: String)
    ensures
        r@ == label(prefix@, k as nat),
{
    let mut s = String::new();
    push_label(&mut s, prefix, k);
    assert(s@ =~= label(prefix@, k as nat));
    s
}

/// The video graph that normalizes the inputs `input_offset ..` and joins
/// them through the xfade links `steps`; the final link's output is `last`.
/// The offset of link `i` is `Σ_{j<i} (D_j − d_j) + D_i − d_i`.
#[verifier::rlimit(50)]
pub fn build_video_chain(
    clips: &Vec<ClipData>,
    steps: &Vec<XfadeStep>,
    input_offset: usize,
    w: u32,
    h: u32,
    last: &str,
) -> (r: String)
    requires
        clips@.len() >= 2,
        steps@.len() == clips@.len() - 1,
    ensures
        r@ == video_chain(clips@, steps@, input_offset as nat, w as nat, h as nat, last@),
{
    let n = clips.len();
    let ghost parts_spec = Seq::new(
        (2 * n - 1) as nat,
        |k: int| video_chain_part(clips@, steps@, input_offset as nat, w as nat, h as nat, last@, k),
    );
    let mut parts: Vec<String> = Vec::new();
    let mut k: usize = 0;
    while k < n
        invariant
            n == clips@.len(),
            k <= n,
            parts@.len() == k,
            forall|j: int| 0 <= j < k ==> #[trigger] parts@[j]@ == parts_spec[j],
            parts_spec.len() == 2 * n - 1,
            parts_spec == Seq::new(
                (2 * n - 1) as nat,
                |k: int| video_chain_part(clips@, steps@, input_offset as nat, w as nat, h as nat, last@, k),
            ),
        decreases n - k,
    {
        let f = normalize_filter(input_offset as u128 + k as u128, k as u128, w, h);
        parts.push(f);
        k = k + 1;
    }
    let mut acc: i128 = 0;
    let mut i: usize = 0;
    while i + 1 < n
        invariant
            n == clips@.len(),
            n >= 2,
            steps@.len() == n - 1,
            i <= n - 1,
            parts@.len() == n + i,
            forall|j: int| 0 <= j < n + i ==> #[trigger] parts@[j]@ == parts_spec[j],
            parts_spec.len() == 2 * n - 1,
            parts_spec == Seq::new(
                (2 * n - 1) as nat,
                |k: int| video_chain_part(clips@, steps@, input_offset as nat, w as nat, h as nat, last@, k),
            ),
            acc == prefix_offset(clips@, steps@, i as int),
            -(i as int) * 0x2_0000_0000 <= acc <= (i as int) * 0x2_0000_0000,
        decreases n - i,
    {
        let dur: i128 = clips[i].out_point as i128 - clips[i].in_point as i128;
        let d: i128 = steps[i].duration as i128;
        let offset: i128 = acc + dur - d;
        let left = if i == 0 {
            label_string("vin", 0)
        } else {
            label_string("v", (i - 1) as u128)
        };
        let right = label_string("vin", (i + 1) as u128);
        let out = if i + 2 == n {
            String::from_str(last)
        } else {
            label_string("v", i as u128)
        };
        let f = xfade_filter(left.as_str(), right.as_str(), steps[i].name.as_str(), steps[i].duration, offset, out.as_str());
        parts.push(f);
        proof {
            assert(parts@[(n + i) as int]@ == parts_spec[(n + i) as int]);
        }
        acc = acc + dur - d;
        i = i + 1;
    }
    assert(views(parts@) =~= parts_spec);
    join_strings(&parts, ";")
}

/// The optional audio selectors `[0:a?]..[n-1:a?]`, shifted by `offset`.
pub open spec fn audio_selectors(offset: nat, n: nat) -> Seq<char>
    decreases n,
{
    if n == 0 {
        Seq::empty()
    } else {
        audio_selectors(offset, (n - 1) as nat) + stream(offset + (n - 1) as nat, "a?"@)
    }
}

/// Appends the optional audio selectors of inputs `offset .. offset + n`.
pub fn push_audio_selectors(s: &mut String, offset: u128, n: u128)
    requires
        offset + n <= u128::MAX,
    ensures
        final(s)@ == old(s)@ + audio_selectors(offset as nat, n as nat),
{
    let ghost s0 = s@;
    let mut i: u128 = 0;
    while i < n
        invariant
            i <= n,
            offset + n <= u128::MAX,
            s@ == s0 + audio_selectors(offset as nat, i as nat),
        decreases n - i,
    {
        push_stream(s, offset + i, "a?");
        i = i + 1;
        assert(s@ =~= s0 + audio_selectors(offset as nat, i as nat));
    }
}

/// The audio of a transition render: every input's audio, where present,
/// played one after another.
pub open spec fn audio_concat_spec(n: nat) -> Seq<char> {
    audio_selectors(0, n) + "concat=n="@ + nat_digits(n) + ":v=0:a=1[aout]"@
}

/// The audio graph `[0:a?]..[n-1:a?]concat=n=<n>:v=0:a=1[aout]`.
pub fn audio_concat_filter(n: usize) -> (r: String)
    ensures
        r@ == audio_concat_spec(n as nat),
{
    let mut s = String::new();
    push_audio_selectors(&mut s, 0, n as u128);
    s.append("concat=n=");
    push_nat(&mut s, n as u128);
    s.append(":v=0:a=1[aout]");
    assert(s@ =~= audio_concat_spec(n as nat));
    s
}

/// The video and audio graphs of a transition render over `clips`, sorted
/// by timeline position; the last xfade link outputs `last`.
pub open spec fn transition_graphs(
    clips: Seq<ClipData>,
    steps: Seq<XfadeStep>,
    w: nat,
    h: nat,
    last: Seq<char>,
) -> (Seq<char>, Seq<char>) {
    if clips.len() < 2 {
        (stream(0, "v"@) + "copy"@ + last, stream(0, "a?"@) + "acopy[aout]"@)
    } else {
        (video_chain(clips, steps, 0, w, h, last), audio_concat_spec(clips.len()))
    }
}

/// Builds the video graph (normalization and xfade chain, ending in `last`)
/// and the audio graph (concatenation with optional selectors) of a
/// transition render; fails on a declared transition of unknown kind.
pub fn build_xfade_and_audio_filter(
    clips: &Vec<ClipData>,
    transitions: &Vec<TransitionData>,
    w: u32,
    h: u32,
    last: &str,
) -> (r: Result<(String, String), ExportError>)
    ensures
        clips@.len() < 2 ==> (r matches Ok((v, a)) && (v@, a@) == transition_graphs(
            clips@,
            Seq::empty(),
            w as nat,
            h as nat,
            last@,
        )),
        clips@.len() >= 2 ==> (r is Ok <==> forall|i: int|
            0 <= i < clips@.len() - 1 ==> #[trigger] xfade_step(clips@, transitions@, i) is Some),
        clips@.len() >= 2 ==> (r matches Ok((v, a)) ==> exists|steps: Seq<XfadeStep>|
            steps_match(clips@, transitions@, steps) && (v@, a@) == transition_graphs(
                clips@,
                steps,
                w as nat,
                h as nat,
                last@,
            )),
        r matches Err(e) ==> first_unknown_pair(clips@, transitions@, e),
{
    if clips.len() < 2 {
        let mut v = String::new();
        push_stream(&mut v, 0, "v");
        v.append("copy");
        v.append(last);
        let mut a = String::new();
        push_stream(&mut a, 0, "a?");
        a.append("acopy[aout]");
        assert(v@ =~= stream(0, "v"@) + "copy"@ + last@);
        assert(a@ =~= stream(0, "a?"@) + "acopy[aout]"@);
        return Ok((v, a));
    }
    let steps = match resolve_xfade_steps(clips, transitions) {
        Ok(st) => st,
        Err(e) => {
            return Err(e);
        },
    };
    let v = build_video_chain(clips, &steps, 0, w, h, last);
    let a = audio_concat_filter(clips.len());
    Ok((v, a))
}

/// One audio crossfade link.
pub open spec fn acrossfade_spec(left: Seq<char>, right: Seq<char>, d: nat, out: Seq<char>) -> Seq<
    char,
> {
    left + right + "acrossfade=d="@ + fixed3(d) + ":c1=tri:c2=tri"@ + out
}

/// Audio crossfade link `i` of a chain over inputs shifted by `offset`,
/// matching the xfade links of the video.
pub open spec fn acrossfade_part(steps: Seq<XfadeStep>, offset: nat, i: int) -> Seq<char> {
    acrossfade_spec(
        chain_left("a"@, stream(offset, "a?"@), i),
        stream(offset + (i + 1) as nat, "a?"@),
        steps[i].duration as nat,
        chain_out("a"@, "[aout]"@, i, steps.len() as int),
    )
}

/// The base-track graph of a multi-track render: the video chain ending in
/// `[vout]`, then the audio crossfades ending in `[aout]`.
pub open spec fn base_transition_graph(
    clips: Seq<ClipData>,
    steps: Seq<XfadeStep>,
    offset: nat,
    w: nat,
    h: nat,
) -> Seq<char> {
    if clips.len() < 2 {
        stream(offset, "v"@) + "copy[vout];"@ + stream(offset, "a?"@) + "anull[aout]"@
    } else {
        video_chain(clips, steps, offset, w, h, "[vout]"@) + ";"@ + join(
            Seq::new(steps.len(), |i: int| acrossfade_part(steps, offset, i)),
            ";"@,
        )
    }
}

fn stream_string(input: u128, kind: &str) -> (r: String)
    ensures
        r@ == stream(input as nat, kind@),
{
    let mut s = String::new();
    push_stream(&mut s, input, kind);
    assert(s@ =~= stream(input as nat, kind@));
    s
}

/// Builds the base-track graph of a multi-track render over the inputs
/// `input_offset ..`: video xfade chain and matching audio crossfades.
pub fn build_xfade_and_audio_filter_offset(
    clips: &Vec<ClipData>,
    transitions: &Vec<TransitionData>,
    input_offset: usize,
    w: u32,
    h: u32,
) -> (r: Result<String, ExportError>)
    ensures
        clips@.len() < 2 ==> (r matches Ok(g) && g@ == base_transition_graph(
            clips@,
            Seq::empty(),
            input_offset as nat,
            w as nat,
            h as nat,
        )),
        clips@.len() >= 2 ==> (r is Ok <==> forall|i: int|
            0 <= i < clips@.len() - 1 ==> #[trigger] xfade_step(clips@, transitions@, i) is Some),
        clips@.len() >= 2 ==> (r matches Ok(g) ==> exists|steps: Seq<XfadeStep>|
            steps_match(clips@, transitions@, steps) && g@ == base_transition_graph(
                clips@,
                steps,
                input_offset as nat,
                w as nat,
                h as nat,
            )),
        r matches Err(e) ==> first_unknown_pair(clips@, transitions@, e),
{
    if clips.len() < 2 {
        let mut g = String::new();
        push_stream(&mut g, input_offset as u128, "v");
        g.append("copy[vout];");
        push_stream(&mut g, input_offset as u128, "a?");
        g.append("anull[aout]");
        assert(g@ =~= base_transition_graph(
            clips@,
            Seq::empty(),
            input_offset as nat,
            w as nat,
            h as nat,
        ));
        return Ok(g);
    }
    let steps = match resolve_xfade_steps(clips, transitions) {
        Ok(st) => st,
        Err(e) => {
            return Err(e);
        },
    };
    let video = build_video_chain(clips, &steps, input_offset, w, h, "[vout]");
    let m = steps.len();
    let ghost audio_spec = Seq::new(m as nat, |i: int| acrossfade_part(steps@, input_offset as nat, i));
    let mut parts: Vec<String> = Vec::new();
    let mut i: usize = 0;
    while i < m
        invariant
            m == steps@.len(),
            m + 1 == clips@.len(),
            i <= m,
            parts@.len() == i,
            audio_spec == Seq::new(m as nat, |i: int| acrossfade_part(steps@, input_offset as nat, i)),
            forall|j: int| 0 <= j < i ==> #[trigger] parts@[j]@ == audio_spec[j],
        decreases m - i,
    {
        let left = if i == 0 {
            stream_string(input_offset as u128, "a?")
        } else {
            label_string("a", (i - 1) as u128)
        };
        let right = stream_string(input_offset as u128 + i as u128 + 1, "a?");
        let out = if i + 1 == m {
            String::from_str("[aout]")
        } else {
            label_string("a", i as u128)
        };
        let mut f = left;
        f.append(right.as_str());
        f.append("acrossfade=d=");
        push_fixed3(&mut f, steps[i].duration as u128);
        f.append(":c1=tri:c2=tri");
        f.append(out.as_str());
        proof {
            assert(f@ =~= audio_spec[i as int]);
        }
        parts.push(f);
        i = i + 1;
    }
    assert(views(parts@) =~= audio_spec);
    let audio = join_strings(&parts, ";");
    let mut g = video;
    g.append(";");
    g.append(audio.as_str());
    Ok(g)
}

/// Scaling of overlay input `k + 1` to a quarter of its width.
pub open spec fn overlay_scale_part(k: nat) -> Seq<char> {
    stream(k + 1, "v"@) + "scale=iw*0.25:-1"@ + label("scaled"@, k + 1)
}

/// Overlay link `k`: the scaled overlay `k` placed in the bottom-right corner
/// over the running picture while the clip is on the timeline.
pub open spec fn overlay_part(clips: Seq<ClipData>, k: int, last: Seq<char>) -> Seq<char> {
    let prev = if k == 0 {
        stream(0, "v"@)
    } else {
        label("temp"@, k as nat)
    };
    let next = if k == clips.len() - 1 {
        last
    } else {
        label("temp"@, (k + 1) as nat)
    };
    prev + label("scaled"@, (k + 1) as nat) + "overlay=W-w-20:H-h-20:enable='between(t,"@ + fixed3(
        clips[k].start_time as nat,
    ) + ","@ + signed_fixed3(timeline_end(clips[k])) + ")'"@ + next
}

/// The video graph of a multi-track render over the base input 0 and the
/// overlay inputs `1..=K`: all scalings, then the chain of overlays.
pub open spec fn overlay_video_spec(clips: Seq<ClipData>, last: Seq<char>) -> Seq<char> {
    let n = clips.len();
    join(
        Seq::new(
            2 * n,
            |j: int|
                if j < n {
                    overlay_scale_part(j as nat)
                } else {
                    overlay_part(clips, j - n, last)
                },
        ),
        ";"@,
    )
}

/// The audio graph of a multi-track render: the base's audio mixed with every
/// overlay's, where present.
pub open spec fn overlay_audio_spec(n: nat) -> Seq<char> {
    if n > 0 {
        audio_selectors(0, n + 1) + "amix=inputs="@ + nat_digits(n + 1) + ":duration=longest[aout]"@
    } else {
        stream(0, "a?"@) + "acopy[aout]"@
    }
}

/// Builds the video graph (scaled overlays chained over the base, ending in
/// `last`) and the audio graph (mix of all inputs) of a multi-track render.
/// `overlay_clips` are the overlays sorted by timeline position.
#[verifier::rlimit(50)]
pub fn build_overlay_and_audio_filter(overlay_clips: &Vec<ClipData>, last: &str) -> (r: (String, String))
    ensures
        r.0@ == overlay_video_spec(overlay_clips@, last@),
        r.1@ == overlay_audio_spec(overlay_clips@.len()),
{
    let n = overlay_clips.len();
    let ghost spec_parts = Seq::new(
        2 * n as nat,
        |j: int|
            if j < n {
                overlay_scale_part(j as nat)
            } else {
                overlay_part(overlay_clips@, j - n, last@)
            },
    );
    let mut parts: Vec<String> = Vec::new();
    let mut k: usize = 0;
    while k < n
        invariant
            n == overlay_clips@.len(),
            k <= n,
            parts@.len() == k,
            spec_parts == Seq::new(
                2 * n as nat,
                |j: int|
                    if j < n {
                        overlay_scale_part(j as nat)
                    } else {
                        overlay_part(overlay_clips@, j - n, last@)
                    },
            ),
            forall|j: int| 0 <= j < k ==> #[trigger] parts@[j]@ == spec_parts[j],
        decreases n - k,
    {
        let mut f = String::new();
        push_stream(&mut f, k as u128 + 1, "v");
        f.append("scale=iw*0.25:-1");
        push_label(&mut f, "scaled", k as u128 + 1);
        assert(f@ =~= spec_parts[k as int]);
        parts.push(f);
        k = k + 1;
    }
    let mut k: usize = 0;
    while k < n
        invariant
            n == overlay_clips@.len(),
            k <= n,
            parts@.len() == n + k,
            spec_parts == Seq::new(
                2 * n as nat,
                |j: int|
                    if j < n {
                        overlay_scale_part(j as nat)
                    } else {
                        overlay_part(overlay_clips@, j - n, last@)
                    },
            ),
            forall|j: int| 0 <= j < n + k ==> #[trigger] parts@[j]@ == spec_parts[j],
        decreases n - k,
    {
        let c = &overlay_clips[k];
        let mut f = if k == 0 {
            stream_string(0, "v")
        } else {
            label_string("temp", k as u128)
        };
        push_label(&mut f, "scaled", k as u128 + 1);
        f.append("overlay=W-w-20:H-h-20:enable='between(t,");
        push_fixed3(&mut f, c.start_time as u128);
        f.append(",");
        push_signed_fixed3(&mut f, c.start_time as i128 + c.out_point as i128 - c.in_point as i128);
        f.append(")'");
        if k + 1 == n {
            f.append(last);
        } else {
            push_label(&mut f, "temp", k as u128 + 1);
        }
        assert(f@ =~= spec_parts[(n + k) as int]);
        parts.push(f);
        k = k + 1;
    }
    assert(views(parts@) =~= spec_parts);
    let video = join_strings(&parts, ";");
    let mut audio = String::new();
    if n > 0 {
        push_audio_selectors(&mut audio, 0, n as u128 + 1);
        audio.append("amix=inputs=");
        push_nat(&mut audio, n as u128 + 1);
        audio.append(":duration=longest[aout]");
    } else {
        push_stream(&mut audio, 0, "a?");
        audio.append("acopy[aout]");
    }
    assert(audio@ =~= overlay_audio_spec(n as nat));
    (video, audio)
}

/// A `#RRGGBB` color in the transcoder's `0xRRGGBB` form; any other text is
/// passed on as it is.
pub open spec fn font_color(c: Seq<char>) -> Seq<char> {
    if c.len() > 0 && c[0] == '#' {
        "0x"@ + c.drop_first()
    } else {
        c
    }
}

/// The drawtext filter of a text overlay.
pub open spec fn drawtext_spec(o: TextOverlayData) -> Seq<char> {
    "drawtext=text='"@ + drawtext_escape(o.text@) + "':fontsize="@ + nat_digits(o.font_size as nat)
        + ":fontcolor="@ + font_color(o.color@) + ":x=(main_w*"@ + short3(o.x as nat)
        + ")/100:y=(main_h*"@ + short3(o.y as nat) + ")/100:enable='between(t,"@ + fixed3(
        o.start_time as nat,
    ) + ","@ + fixed3((o.start_time + o.duration) as nat) + ")'"@
}

/// Builds the drawtext filter of a text overlay: the text escaped and
/// quoted, the color as `0xRRGGBB`, the position as a share of the frame,
/// and shown from its start for its duration.
pub fn build_drawtext_filter(overlay: &TextOverlayData) -> (r: String)
    ensures
        r@ == drawtext_spec(*overlay),
{
    let mut s = String::from_str("drawtext=text='");
    let text = escape_drawtext(overlay.text.as_str());
    s.append(text.as_str());
    s.append("':fontsize=");
    push_nat(&mut s, overlay.font_size as u128);
    s.append(":fontcolor=");
    let color = overlay.color.as_str();
    let len = color.unicode_len();
    if len > 0 && color.get_char(0) == '#' {
        s.append("0x");
        s.append(color.substring_char(1, len));
        assert(color@.subrange(1, len as int) =~= color@.drop_first());
    } else {
        s.append(color);
    }
    s.append(":x=(main_w*");
    push_short3(&mut s, overlay.x as u128);
    s.append(")/100:y=(main_h*");
    push_short3(&mut s, overlay.y as u128);
    s.append(")/100:enable='between(t,");
    push_fixed3(&mut s, overlay.start_time as u128);
    s.append(",");
    push_fixed3(&mut s, overlay.start_time as u128 + overlay.duration as u128);
    s.append(")'");
    assert(s@ =~= drawtext_spec(*overlay));
    s
}

/// The filters applied to the composed picture: the resolution's scaling,
/// if any, then one drawtext per text overlay.
pub open spec fn post_filters_spec(res: Resolution, overlays: Seq<TextOverlayData>) -> Seq<Seq<char>> {
    let scale: Seq<Seq<char>> = match scale_filter_spec(res) {
        Some(f) => seq![f],
        None => Seq::empty(),
    };
    scale + overlays.map_values(|o: TextOverlayData| drawtext_spec(o))
}

/// The filters applied to the composed picture, in order.
pub fn post_filters(res: Resolution, overlays: &Vec<TextOverlayData>) -> (r: Vec<String>)
    ensures
        views(r@) == post_filters_spec(res, overlays@),
{
    let mut r: Vec<String> = Vec::new();
    match res.scale_filter() {
        Some(f) => r.push(f),
        None => {},
    }
    let ghost base = views(r@);
    let b = r.len();
    let n = overlays.len();
    let mut i: usize = 0;
    while i < n
        invariant
            n == overlays@.len(),
            i <= n,
            b == base.len(),
            r@.len() == b + i,
            forall|j: int| 0 <= j < b ==> #[trigger] r@[j]@ == base[j],
            forall|j: int| 0 <= j < i ==> #[trigger] r@[b + j]@ == drawtext_spec(overlays@[j]),
        decreases n - i,
    {
        let f = build_drawtext_filter(&overlays[i]);
        r.push(f);
        i = i + 1;
    }
    let ghost expected = post_filters_spec(res, overlays@);
    assert(expected.len() == r@.len());
    assert forall|j: int| 0 <= j < r@.len() implies #[trigger] views(r@)[j] == expected[j] by {
        if j >= b {
            assert(r@[b + (j - b)]@ == drawtext_spec(overlays@[j - b]));
        }
    }
    assert(views(r@) =~= expected);
    r
}

/// Whether a clip's audio has to be re-encoded: muted, a volume other than
/// 100, or a fade.
pub open spec fn needs_audio_filter(c: ClipData) -> bool {
    c.is_muted || c.volume != 100 || c.fade_in_duration > 0 || c.fade_out_duration > 0
}

/// The audio filters of a clip: silence when muted; else the volume factor,
/// the fade-in from the start, and the fade-out ending with the clip.
pub open spec fn audio_filter_parts(c: ClipData) -> Seq<Seq<char>> {
    if c.is_muted {
        seq!["volume=0"@]
    } else {
        let vol: Seq<Seq<char>> = if c.volume != 100 {
            seq!["volume="@ + fixed2(c.volume as nat)]
        } else {
            Seq::empty()
        };
        let fade_in: Seq<Seq<char>> = if c.fade_in_duration > 0 {
            seq!["afade=t=in:st=0:d="@ + fixed3(c.fade_in_duration as nat)]
        } else {
            Seq::empty()
        };
        let fade_out: Seq<Seq<char>> = if c.fade_out_duration > 0 {
            seq![
                "afade=t=out:st="@ + signed_fixed3(clip_duration(c) - c.fade_out_duration) + ":d="@
                    + fixed3(c.fade_out_duration as nat),
            ]
        } else {
            Seq::empty()
        };
        vol + fade_in + fade_out
    }
}

/// The audio filter chain of a clip, its filters joined by `,`.
pub fn audio_filter_chain(clip: &ClipData) -> (r: String)
    ensures
        r@ == join(audio_filter_parts(*clip), ","@),
{
    let mut parts: Vec<String> = Vec::new();
    if clip.is_muted {
        parts.push(String::from_str("volume=0"));
    } else {
        if clip.volume != 100 {
            let mut f = String::from_str("volume=");
            push_fixed2(&mut f, clip.volume as u128);
            parts.push(f);
        }
        if clip.fade_in_duration > 0 {
            let mut f = String::from_str("afade=t=in:st=0:d=");
            push_fixed3(&mut f, clip.fade_in_duration as u128);
            parts.push(f);
        }
        if clip.fade_out_duration > 0 {
            let mut f = String::from_str("afade=t=out:st=");
            push_signed_fixed3(
                &mut f,
                clip.out_point as i128 - clip.in_point as i128 - clip.fade_out_duration as i128,
            );
            f.append(":d=");
            push_fixed3(&mut f, clip.fade_out_duration as u128);
            parts.push(f);
        }
    }
    assert(views(parts@) =~= audio_filter_parts(*clip));
    join_strings(&parts, ",")
}

/// One line of a concat-demuxer list: the path as a single-quoted token.
pub open spec fn concat_line(p: Seq<char>) -> Seq<char> {
    "file "@ + crate::text::single_quoted(p)
}

/// A concat-demuxer list naming `paths` in order, one per line.
pub open spec fn concat_list_spec(paths: Seq<Seq<char>>) -> Seq<char> {
    join(paths.map_values(|p: Seq<char>| concat_line(p)), "\n"@)
}

/// Writes the concat-demuxer list of `paths`, quotes in paths escaped.
pub fn concat_list(paths: &Vec<String>) -> (r: String)
    ensures
        r@ == concat_list_spec(views(paths@)),
{
    let n = paths.len();
    let mut lines: Vec<String> = Vec::new();
    let mut i: usize = 0;
    while i < n
        invariant
            n == paths@.len(),
            i <= n,
            lines@.len() == i,
            forall|j: int| 0 <= j < i ==> #[trigger] lines@[j]@ == concat_line(paths@[j]@),
        decreases n - i,
    {
        let mut line = String::from_str("file ");
        proof {
            reveal_strlit("'");
        }
        line.append("'");
        let escaped = escape_single_quotes(paths[i].as_str());
        line.append(escaped.as_str());
        line.append("'");
        assert(line@ =~= concat_line(paths@[i as int]@));
        lines.push(line);
        i = i + 1;
    }
    assert(views(lines@) =~= views(paths@).map_values(|p: Seq<char>| concat_line(p)));
    join_strings(&lines, "\n")
}

} // verus!
