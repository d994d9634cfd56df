//! The audio merger behind transcription: each clip's audio extracted (or
//! silence of its length), the timeline cut into stretches of uniform
//! overlap, each stretch taken from its one clip or mixed from several, and
//! the stretches joined into one mono 16 kHz file; plus the timing model
//! that maps the transcription back onto the timeline.

use vstd::prelude::*;

use crate::error::ExportError;
use crate::filters::{concat_list, concat_list_spec};
use crate::text::{nat_digits, push_nat, push_short3, push_signed_short3, short3, signed_short3, views};
use crate::timeline::{clip_duration, ClipData};
use crate::timing::{
    build_time_mappings, model_of, partition_timeline, well_formed_model, AudioInterval, TimeMapping,
};

verus! {

/// Relies on `uuid::Uuid::new_v4` and its `Display`: a random version-4 id
/// in the hyphenated form of 36 characters, used to keep temporary names
/// apart.
#[verifier::external_body]
fn fresh_id() -> (r: String)
    ensures
        r@.len() == 36,
{
    uuid::Uuid::new_v4().to_string()
}

/// `<dir>/<stem>_<36-character id>.<ext>`: a fresh temporary name.
pub fn temp_name(dir: &str, stem: &str, ext: &str) -> (r: String)
    ensures
        r@.len() == dir@.len() + 1 + stem@.len() + 1 + 36 + 1 + ext@.len(),
        r@.subrange(0, (dir@.len() + 1 + stem@.len() + 1) as int) == dir@ + "/"@ + stem@ + "_"@,
{
    let mut r = String::from_str(dir);
    proof {
        reveal_strlit("/");
        reveal_strlit("_");
        reveal_strlit(".");
    }
    r.append("/");
    r.append(stem);
    r.append("_");
    let ghost head = r@;
    let id = fresh_id();
    r.append(id.as_str());
    r.append(".");
    r.append(ext);
    assert(r@.subrange(0, head.len() as int) =~= head);
    r
}

/// The mono 16 kHz PCM output arguments that every audio step ends with.
pub open spec fn pcm_suffix(output: Seq<char>) -> Seq<Seq<char>> {
    seq!["-c:a"@, "pcm_s16le"@, "-ar"@, "16000"@, "-ac"@, "1"@, output, "-y"@]
}

fn push_pcm_suffix(args: &mut Vec<String>, output: &str)
    ensures
        views(final(args)@) == views(old(args)@) + pcm_suffix(output@),
{
    let ghost a0 = views(args@);
    args.push(String::from_str("-c:a"));
    args.push(String::from_str("pcm_s16le"));
    args.push(String::from_str("-ar"));
    args.push(String::from_str("16000"));
    args.push(String::from_str("-ac"));
    args.push(String::from_str("1"));
    args.push(String::from_str(output));
    args.push(String::from_str("-y"));
    assert(views(args@) =~= a0 + pcm_suffix(output@));
}

/// The audio of a clip's window as mono 16 kHz PCM when its source has
/// audio; otherwise silence of the window's length.
pub open spec fn clip_audio_args_spec(c: ClipData, has_audio: bool, output: Seq<char>) -> Seq<Seq<char>> {
    if has_audio {
        seq![
            "-i"@,
            c.path@,
            "-ss"@,
            short3(c.in_point as nat),
            "-t"@,
            signed_short3(clip_duration(c)),
            "-vn"@,
        ] + pcm_suffix(output)
    } else {
        seq![
            "-f"@,
            "lavfi"@,
            "-i"@,
            "anullsrc=r=16000:cl=mono,atrim=duration="@ + signed_short3(clip_duration(c)),
        ] + pcm_suffix(output)
    }
}

/// The transcoder's arguments that give a clip's audio, or silence of its
/// length when its source has none, in `output`.
pub fn clip_audio_args(clip: &ClipData, has_audio: bool, output: &str) -> (r: Vec<String>)
    ensures
        views(r@) == clip_audio_args_spec(*clip, has_audio, output@),
{
    let duration: i128 = clip.out_point as i128 - clip.in_point as i128;
    let mut r: Vec<String> = Vec::new();
    if has_audio {
        r.push(String::from_str("-i"));
        r.push(clip.path.clone());
        r.push(String::from_str("-ss"));
        let mut s = String::new();
        push_short3(&mut s, clip.in_point as u128);
        r.push(s);
        r.push(String::from_str("-t"));
        let mut d = String::new();
        push_signed_short3(&mut d, duration);
        r.push(d);
        r.push(String::from_str("-vn"));
    } else {
        r.push(String::from_str("-f"));
        r.push(String::from_str("lavfi"));
        r.push(String::from_str("-i"));
        let mut src = String::from_str("anullsrc=r=16000:cl=mono,atrim=duration=");
        push_signed_short3(&mut src, duration);
        r.push(src);
    }
    push_pcm_suffix(&mut r, output);
    assert(views(r@) =~= clip_audio_args_spec(*clip, has_audio, output@));
    r
}

/// The transcoder's arguments that extract a whole file's audio as mono
/// 16 kHz PCM.
pub fn extract_audio_args(video_path: &str, output: &str) -> (r: Vec<String>)
    ensures
        views(r@) == seq!["-i"@, video_path@, "-vn"@] + pcm_suffix(output@),
{
    let mut r: Vec<String> = Vec::new();
    r.push(String::from_str("-i"));
    r.push(String::from_str(video_path));
    r.push(String::from_str("-vn"));
    let ghost head = views(r@);
    assert(head =~= seq!["-i"@, video_path@, "-vn"@]);
    push_pcm_suffix(&mut r, output);
    r
}

/// `hay` holds `needle` somewhere.
pub open spec fn contains_seq(hay: Seq<char>, needle: Seq<char>) -> bool {
    exists|i: int| 0 <= i && i + needle.len() <= hay.len() && #[trigger] hay.subrange(i, i + needle.len()) == needle
}

/// Whether `hay` holds `needle` somewhere.
pub fn contains_str(hay: &str, needle: &str) -> (r: bool)
    ensures
        r == contains_seq(hay@, needle@),
{
    let n = hay.unicode_len();
    let m = needle.unicode_len();
    if m > n {
        return false;
    }
    if m == 0 {
        assert(hay@.subrange(0int, 0int + needle@.len()) =~= needle@);
        return true;
    }
    let mut i: usize = 0;
    while i < n - m + 1
        invariant
            n == hay@.len(),
            m == needle@.len(),
            1 <= m <= n,
            i <= n - m + 1,
            forall|j: int| 0 <= j < i ==> #[trigger] hay@.subrange(j, j + m) != needle@,
        decreases n - m + 1 - i,
    {
        let window = hay.substring_char(i, i + m);
        if crate::text::str_equal(window, needle) {
            assert(hay@.subrange(i as int, i as int + needle@.len()) == needle@);
            return true;
        }
        i = i + 1;
    }
    assert forall|j: int| 0 <= j && j + needle@.len() <= hay@.len() implies #[trigger] hay@.subrange(
        j,
        j + needle@.len(),
    ) != needle@ by {
        assert(j <= n - m);
        assert(hay@.subrange(j, j + m) != needle@);
    }
    false
}

/// Whether the transcoder's description of a file, as printed on its error
/// stream, lists an audio stream.
pub fn reports_audio_stream(stderr: &str) -> (r: bool)
    ensures
        r == contains_seq(stderr@, "Audio:"@),
{
    contains_str(stderr, "Audio:")
}

/// Taking a stretch `[start, end)` of the timeline from its contributors'
/// extracted audio (`audio[c]` for clip `c`): one contributor is cut
/// directly; several are cut and mixed.
pub open spec fn slice_args_spec(
    clips: Seq<ClipData>,
    audio: Seq<Seq<char>>,
    iv_start: int,
    iv_end: int,
    contributors: Seq<usize>,
    output: Seq<char>,
) -> Seq<Seq<char>> {
    if contributors.len() == 1 {
        let c = contributors[0] as int;
        seq![
            "-i"@,
            audio[c],
            "-ss"@,
            signed_short3(iv_start - clips[c].start_time),
            "-t"@,
            signed_short3(iv_end - iv_start),
        ] + pcm_suffix(output)
    } else {
        Seq::new(2 * contributors.len(), |j: int| if j % 2 == 0 { "-i"@ } else { audio[contributors[j / 2] as int] })
            + seq!["-filter_complex"@, mix_graph(clips, iv_start, iv_end, contributors), "-map"@, "[out]"@]
            + pcm_suffix(output)
    }
}

/// Cutting input `j` to the stretch: `[j]atrim=start=..:duration=..[trimj]`.
pub open spec fn atrim_part(clips: Seq<ClipData>, iv_start: int, iv_end: int, contributors: Seq<usize>, j: int) -> Seq<char> {
    "["@ + nat_digits(j as nat) + "]atrim=start="@ + signed_short3(iv_start - clips[contributors[j] as int].start_time)
        + ":duration="@ + signed_short3(iv_end - iv_start) + "[trim"@ + nat_digits(j as nat) + "]"@
}

/// The graph that cuts every contributor to the stretch and mixes them.
pub open spec fn mix_graph(clips: Seq<ClipData>, iv_start: int, iv_end: int, contributors: Seq<usize>) -> Seq<char> {
    crate::text::join(
        Seq::new(contributors.len(), |j: int| atrim_part(clips, iv_start, iv_end, contributors, j)),
        ";"@,
    ) + ";"@ + trim_labels(contributors.len()) + "amix=inputs="@ + nat_digits(contributors.len())
        + ":duration=longest[out]"@
}

/// The labels `[trim0]..[trim<n-1>]`.
pub open spec fn trim_labels(n: nat) -> Seq<char>
    decreases n,
{
    if n == 0 {
        Seq::empty()
    } else {
        trim_labels((n - 1) as nat) + crate::text::label("trim"@, (n - 1) as nat)
    }
}

/// The transcoder's arguments that produce the stretch `[start, end)` of
/// the merged audio from the contributors' extracted audio.
#[verifier::rlimit(50)]
pub fn slice_args(
    clips: &Vec<ClipData>,
    audio: &Vec<String>,
    interval: &AudioInterval,
    output: &str,
) -> (r: Vec<String>)
    requires
        audio@.len() == clips@.len(),
        interval.clips@.len() > 0,
        forall|j: int| 0 <= j < interval.clips@.len() ==> #[trigger] interval.clips@[j] < clips@.len(),
        -0x1_0000_0000_0000 <= interval.start <= 0x1_0000_0000_0000,
        -0x1_0000_0000_0000 <= interval.end <= 0x1_0000_0000_0000,
    ensures
        views(r@) == slice_args_spec(
            clips@,
            views(audio@),
            interval.start as int,
            interval.end as int,
            interval.clips@,
            output@,
        ),
{
    let contributors = &interval.clips;
    let k = contributors.len();
    let mut r: Vec<String> = Vec::new();
    let len: i128 = interval.end as i128 - interval.start as i128;
    if k == 1 {
        let c = contributors[0];
        r.push(String::from_str("-i"));
        r.push(audio[c].clone());
        r.push(String::from_str("-ss"));
        let mut off = String::new();
        push_signed_short3(&mut off, interval.start as i128 - clips[c].start_time as i128);
        r.push(off);
        r.push(String::from_str("-t"));
        let mut d = String::new();
        push_signed_short3(&mut d, len);
        r.push(d);
        push_pcm_suffix(&mut r, output);
        assert(views(r@) =~= slice_args_spec(
            clips@,
            views(audio@),
            interval.start as int,
            interval.end as int,
            interval.clips@,
            output@,
        ));
        return r;
    }
    let mut j: usize = 0;
    while j < k
        invariant
            k == contributors@.len(),
            contributors == interval.clips,
            audio@.len() == clips@.len(),
            forall|q: int| 0 <= q < k ==> #[trigger] contributors@[q] < clips@.len(),
            j <= k,
            r@.len() == 2 * j,
            forall|q: int|
                0 <= q < 2 * j ==> #[trigger] r@[q]@ == (if q % 2 == 0 {
                    "-i"@
                } else {
                    views(audio@)[contributors@[q / 2] as int]
                }),
        decreases k - j,
    {
        r.push(String::from_str("-i"));
        r.push(audio[contributors[j]].clone());
        j = j + 1;
    }
    let ghost inputs = views(r@);
    let mut parts: Vec<String> = Vec::new();
    let mut labels = String::new();
    let mut j: usize = 0;
    while j < k
        invariant
            k == contributors@.len(),
            contributors == interval.clips,
            forall|q: int| 0 <= q < k ==> #[trigger] contributors@[q] < clips@.len(),
            -0x1_0000_0000_0000 <= interval.start <= 0x1_0000_0000_0000,
            j <= k,
            parts@.len() == j,
            forall|q: int|
                0 <= q < j ==> #[trigger] parts@[q]@ == atrim_part(
                    clips@,
                    interval.start as int,
                    interval.end as int,
                    contributors@,
                    q,
                ),
            labels@ == trim_labels(j as nat),
            len == interval.end - interval.start,
        decreases k - j,
    {
        let mut p = String::from_str("[");
        push_nat(&mut p, j as u128);
        p.append("]atrim=start=");
        push_signed_short3(&mut p, interval.start as i128 - clips[contributors[j]].start_time as i128);
        p.append(":duration=");
        push_signed_short3(&mut p, len);
        p.append("[trim");
        push_nat(&mut p, j as u128);
        p.append("]");
        assert(p@ =~= atrim_part(clips@, interval.start as int, interval.end as int, contributors@, j as int));
        parts.push(p);
        crate::text::push_label(&mut labels, "trim", j as u128);
        j = j + 1;
    }
    assert(views(parts@) =~= Seq::new(
        k as nat,
        |q: int| atrim_part(clips@, interval.start as int, interval.end as int, contributors@, q),
    ));
    let mut graph = crate::text::join_strings(&parts, ";");
    graph.append(";");
    graph.append(labels.as_str());
    graph.append("amix=inputs=");
    push_nat(&mut graph, k as u128);
    graph.append(":duration=longest[out]");
    r.push(String::from_str("-filter_complex"));
    r.push(graph);
    r.push(String::from_str("-map"));
    r.push(String::from_str("[out]"));
    push_pcm_suffix(&mut r, output);
    assert(inputs =~= Seq::new(
        2 * k as nat,
        |q: int| if q % 2 == 0 { "-i"@ } else { views(audio@)[contributors@[q / 2] as int] },
    ));
    assert(views(r@) =~= slice_args_spec(
        clips@,
        views(audio@),
        interval.start as int,
        interval.end as int,
        interval.clips@,
        output@,
    ));
    r
}

/// Joining the slices listed in `list` into one mono 16 kHz file.
pub fn merge_concat_args(list: &str, output: &str) -> (r: Vec<String>)
    ensures
        views(r@) == seq!["-f"@, "concat"@, "-safe"@, "0"@, "-i"@, list@] + pcm_suffix(output@),
{
    let mut r: Vec<String> = Vec::new();
    r.push(String::from_str("-f"));
    r.push(String::from_str("concat"));
    r.push(String::from_str("-safe"));
    r.push(String::from_str("0"));
    r.push(String::from_str("-i"));
    r.push(String::from_str(list));
    let ghost head = views(r@);
    assert(head =~= seq!["-f"@, "concat"@, "-safe"@, "0"@, "-i"@, list@]);
    push_pcm_suffix(&mut r, output);
    r
}

/// The merged-audio layout of a timeline: its stretches of uniform
/// overlap, in order, and the timing model that maps the merged audio back.
pub struct AudioLayout {
    pub intervals: Vec<AudioInterval>,
    pub mappings: Vec<TimeMapping>,
}

/// Lays out the merged audio of a timeline; fails on an empty one.
pub fn audio_layout(clips: &Vec<ClipData>) -> (r: Result<AudioLayout, ExportError>)
    ensures
        clips@.len() == 0 ==> (r matches Err(e) && e is EmptyTimeline),
        clips@.len() > 0 ==> (r matches Ok(l) && model_of(l.intervals@, l.mappings@) && well_formed_model(
            l.mappings@,
        ) && (exists|pts: Seq<i64>|
            crate::timing::boundary_points_of(clips@, pts) && crate::timing::intervals_of(
                clips@,
                pts,
                l.intervals@,
            )) && (forall|a: int|
            0 <= a < l.intervals@.len() ==> #[trigger] crate::timing::interval_bounded(l.intervals@[a])
                && crate::timing::contributors_in_range(clips@, l.intervals@[a])) && (forall|k: int|
            0 <= k < l.mappings@.len() ==> #[trigger] crate::timing::mapping_bounded(l.mappings@[k]))),
{
    if clips.len() == 0 {
        return Err(ExportError::EmptyTimeline);
    }
    let intervals = partition_timeline(clips);
    let mappings = build_time_mappings(&intervals);
    Ok(AudioLayout { intervals, mappings })
}

/// The concat list of the merged slices.
pub fn slices_list(paths: &Vec<String>) -> (r: String)
    ensures
        r@ == concat_list_spec(views(paths@)),
{
    concat_list(paths)
}

} // verus!
