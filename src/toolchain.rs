//! The transcoder and its probe as the planner sees them: binary
//! resolution, progress state, and the argument vectors of each invocation.

use vstd::prelude::*;

use crate::filters::{audio_filter_chain, audio_filter_parts, needs_audio_filter};
use crate::text::{join, push_short3, push_signed_short3, short3, signed_short3, views};
use crate::timeline::{clip_duration, ClipData};

verus! {

/// How far a render has come: `percentage` in hundredths of a percent
/// (0 to 10000), a label of the current stage, and an optional estimate of
/// the seconds left.
#[derive(Debug, Clone)]
pub struct ExportProgress {
    pub percentage: u32,
    pub current_operation: String,
    pub eta_seconds: Option<u64>,
}

/// The transcoder and probe binaries, and the progress of the render in
/// flight.
pub struct FFmpegWrapper {
    pub ffmpeg_path: String,
    pub ffprobe_path: String,
    pub progress: ExportProgress,
}

/// Where a binary is looked for, in order: the local binaries directory,
/// the working directory, then the bare name, left to the search path.
pub open spec fn binary_candidates_spec(name: Seq<char>, windows: bool) -> Seq<Seq<char>> {
    let file = if windows {
        name + ".exe"@
    } else {
        name
    };
    seq!["src-tauri/binaries/"@ + file, file]
}

/// The places a binary is looked for before falling back to the search path.
pub fn binary_candidates(name: &str, windows: bool) -> (r: Vec<String>)
    ensures
        views(r@) == binary_candidates_spec(name@, windows),
{
    let mut file = String::from_str(name);
    if windows {
        file.append(".exe");
    }
    let mut local = String::from_str("src-tauri/binaries/");
    local.append(file.as_str());
    let mut r: Vec<String> = Vec::new();
    r.push(local);
    r.push(file);
    assert(views(r@) =~= binary_candidates_spec(name@, windows));
    r
}

/// Picks the first candidate that exists (`present[i]` tells whether
/// candidate `i` does), else the bare name.
pub fn resolve_binary_path(name: &str, candidates: &Vec<String>, present: &Vec<bool>) -> (r: String)
    requires
        present@.len() == candidates@.len(),
    ensures
        (exists|i: int| 0 <= i < present@.len() && present@[i]) ==> exists|i: int|
            0 <= i < present@.len() && present@[i] && (forall|j: int| 0 <= j < i ==> !#[trigger] present@[j])
                && r@ == candidates@[i]@,
        (forall|i: int| 0 <= i < present@.len() ==> !#[trigger] present@[i]) ==> r@ == name@,
{
    let n = candidates.len();
    let mut i: usize = 0;
    while i < n
        invariant
            n == candidates@.len(),
            n == present@.len(),
            i <= n,
            forall|j: int| 0 <= j < i ==> !#[trigger] present@[j],
        decreases n - i,
    {
        if present[i] {
            return candidates[i].clone();
        }
        i = i + 1;
    }
    String::from_str(name)
}

/// The state of the progress channel before and between renders.
pub open spec fn is_ready(p: ExportProgress) -> bool {
    p.percentage == 0 && p.current_operation@ == "Ready"@ && p.eta_seconds is None
}

impl ExportProgress {
    /// Progress at rest: 0, "Ready", no estimate.
    pub fn ready() -> (r: Self)
        ensures
            is_ready(r),
    {
        ExportProgress { percentage: 0, current_operation: String::from_str("Ready"), eta_seconds: None }
    }

    /// A copy of this progress.
    pub fn snapshot(&self) -> (r: Self)
        ensures
            r.percentage == self.percentage,
            r.current_operation@ == self.current_operation@,
            r.eta_seconds == self.eta_seconds,
    {
        ExportProgress {
            percentage: self.percentage,
            current_operation: self.current_operation.clone(),
            eta_seconds: self.eta_seconds,
        }
    }
}

/// Whether a progress is at rest.
pub fn is_ready_state(p: &ExportProgress) -> (r: bool)
    ensures
        r == is_ready(*p),
{
    p.percentage == 0 && crate::text::str_equal(p.current_operation.as_str(), "Ready") && p.eta_seconds.is_none()
}

impl FFmpegWrapper {
    /// A wrapper over the given binaries, with progress at rest.
    pub fn new(ffmpeg_path: String, ffprobe_path: String) -> (r: Self)
        ensures
            r.ffmpeg_path == ffmpeg_path,
            r.ffprobe_path == ffprobe_path,
            is_ready(r.progress),
    {
        FFmpegWrapper { ffmpeg_path, ffprobe_path, progress: ExportProgress::ready() }
    }

    /// The current progress.
    pub fn get_progress(&self) -> (r: ExportProgress)
        ensures
            r.percentage == self.progress.percentage,
            r.current_operation@ == self.progress.current_operation@,
            r.eta_seconds == self.progress.eta_seconds,
    {
        self.progress.snapshot()
    }

    /// Overwrites the progress.
    pub fn set_progress(&mut self, percentage: u32, operation: String, eta: Option<u64>)
        ensures
            final(self).progress.percentage == percentage,
            final(self).progress.current_operation == operation,
            final(self).progress.eta_seconds == eta,
            final(self).ffmpeg_path == old(self).ffmpeg_path,
            final(self).ffprobe_path == old(self).ffprobe_path,
    {
        self.progress = ExportProgress { percentage, current_operation: operation, eta_seconds: eta };
    }

    /// Puts the progress back at rest.
    pub fn reset_progress(&mut self)
        ensures
            is_ready(final(self).progress),
            final(self).ffmpeg_path == old(self).ffmpeg_path,
            final(self).ffprobe_path == old(self).ffprobe_path,
    {
        self.set_progress(0, String::from_str("Ready"), None);
    }

    /// The probe's arguments for reading a file's format and streams as JSON.
    pub fn probe_args(&self, video_path: &str) -> (r: Vec<String>)
        ensures
            views(r@) == seq![
                "-v"@,
                "quiet"@,
                "-print_format"@,
                "json"@,
                "-show_format"@,
                "-show_streams"@,
                video_path@,
            ],
    {
        let mut r: Vec<String> = Vec::new();
        r.push(String::from_str("-v"));
        r.push(String::from_str("quiet"));
        r.push(String::from_str("-print_format"));
        r.push(String::from_str("json"));
        r.push(String::from_str("-show_format"));
        r.push(String::from_str("-show_streams"));
        r.push(String::from_str(video_path));
        assert(views(r@) =~= seq![
            "-v"@,
            "quiet"@,
            "-print_format"@,
            "json"@,
            "-show_format"@,
            "-show_streams"@,
            video_path@,
        ]);
        r
    }

    /// The transcoder's arguments for one frame at `timestamp` ms, scaled to
    /// 320 pixels wide.
    pub fn thumbnail_args(&self, video_path: &str, output_path: &str, timestamp: u32) -> (r: Vec<
        String,
    >)
        ensures
            views(r@) == seq![
                "-ss"@,
                short3(timestamp as nat),
                "-i"@,
                video_path@,
                "-vframes"@,
                "1"@,
                "-vf"@,
                "scale=320:-1"@,
                "-y"@,
                output_path@,
            ],
    {
        let mut r: Vec<String> = Vec::new();
        r.push(String::from_str("-ss"));
        let mut t = String::new();
        push_short3(&mut t, timestamp as u128);
        r.push(t);
        r.push(String::from_str("-i"));
        r.push(String::from_str(video_path));
        r.push(String::from_str("-vframes"));
        r.push(String::from_str("1"));
        r.push(String::from_str("-vf"));
        r.push(String::from_str("scale=320:-1"));
        r.push(String::from_str("-y"));
        r.push(String::from_str(output_path));
        assert(views(r@) =~= seq![
            "-ss"@,
            short3(timestamp as nat),
            "-i"@,
            video_path@,
            "-vframes"@,
            "1"@,
            "-vf"@,
            "scale=320:-1"@,
            "-y"@,
            output_path@,
        ]);
        r
    }

    /// The transcoder's arguments for cutting `[start_time, end_time)` ms out
    /// of a file with codecs copied.
    pub fn trim_video_args(&self, input_path: &str, output_path: &str, start_time: u32, end_time: u32) -> (r:
        Vec<String>)
        ensures
            views(r@) == trim_copy_args(input_path@, output_path@, start_time as nat, end_time - start_time),
    {
        trim_copy(input_path, output_path, start_time, end_time as i64 - start_time as i64)
    }

    /// The transcoder's arguments for joining the files of a concat list
    /// with codecs copied.
    pub fn concat_videos_args(&self, list_path: &str, output_path: &str) -> (r: Vec<String>)
        ensures
            views(r@) == concat_copy_args(list_path@, output_path@),
    {
        concat_copy(list_path, output_path)
    }
}

/// Cutting `duration` ms from `start` ms out of `input` with codecs copied.
pub open spec fn trim_copy_args(input: Seq<char>, output: Seq<char>, start: nat, duration: int) -> Seq<
    Seq<char>,
> {
    seq![
        "-ss"@,
        short3(start),
        "-i"@,
        input,
        "-t"@,
        signed_short3(duration),
        "-c"@,
        "copy"@,
        "-y"@,
        output,
    ]
}

fn trim_copy(input: &str, output: &str, start: u32, duration: i64) -> (r: Vec<String>)
    ensures
        views(r@) == trim_copy_args(input@, output@, start as nat, duration as int),
{
    let mut r: Vec<String> = Vec::new();
    r.push(String::from_str("-ss"));
    let mut s = String::new();
    push_short3(&mut s, start as u128);
    r.push(s);
    r.push(String::from_str("-i"));
    r.push(String::from_str(input));
    r.push(String::from_str("-t"));
    let mut d = String::new();
    push_signed_short3(&mut d, duration as i128);
    r.push(d);
    r.push(String::from_str("-c"));
    r.push(String::from_str("copy"));
    r.push(String::from_str("-y"));
    r.push(String::from_str(output));
    assert(views(r@) =~= trim_copy_args(input@, output@, start as nat, duration as int));
    r
}

/// Joining the files of the concat list `list` with codecs copied.
pub open spec fn concat_copy_args(list: Seq<char>, output: Seq<char>) -> Seq<Seq<char>> {
    seq!["-f"@, "concat"@, "-safe"@, "0"@, "-i"@, list, "-c"@, "copy"@, "-y"@, output]
}

pub fn concat_copy(list: &str, output: &str) -> (r: Vec<String>)
    ensures
        views(r@) == concat_copy_args(list@, output@),
{
    let mut r: Vec<String> = Vec::new();
    r.push(String::from_str("-f"));
    r.push(String::from_str("concat"));
    r.push(String::from_str("-safe"));
    r.push(String::from_str("0"));
    r.push(String::from_str("-i"));
    r.push(String::from_str(list));
    r.push(String::from_str("-c"));
    r.push(String::from_str("copy"));
    r.push(String::from_str("-y"));
    r.push(String::from_str(output));
    assert(views(r@) =~= concat_copy_args(list@, output@));
    r
}

/// Cutting a clip's window out of its source into `output`: with codecs
/// copied, or, when its audio needs filtering, with the video copied and
/// the audio re-encoded through the clip's audio filters.
pub open spec fn trim_args_spec(c: ClipData, output: Seq<char>) -> Seq<Seq<char>> {
    if needs_audio_filter(c) {
        seq![
            "-ss"@,
            short3(c.in_point as nat),
            "-i"@,
            c.path@,
            "-t"@,
            signed_short3(clip_duration(c)),
            "-af"@,
            join(audio_filter_parts(c), ","@),
            "-c:v"@,
            "copy"@,
            "-c:a"@,
            "aac"@,
            "-b:a"@,
            "192k"@,
            "-y"@,
            output,
        ]
    } else {
        trim_copy_args(c.path@, output, c.in_point as nat, clip_duration(c))
    }
}

/// The transcoder's arguments that cut a clip's window into `output`.
pub fn trim_args(clip: &ClipData, output: &str) -> (r: Vec<String>)
    ensures
        views(r@) == trim_args_spec(*clip, output@),
{
    let duration: i64 = clip.out_point as i64 - clip.in_point as i64;
    if clip.is_muted || clip.volume != 100 || clip.fade_in_duration > 0 || clip.fade_out_duration > 0 {
        let mut r: Vec<String> = Vec::new();
        r.push(String::from_str("-ss"));
        let mut s = String::new();
        push_short3(&mut s, clip.in_point as u128);
        r.push(s);
        r.push(String::from_str("-i"));
        r.push(clip.path.clone());
        r.push(String::from_str("-t"));
        let mut d = String::new();
        push_signed_short3(&mut d, duration as i128);
        r.push(d);
        r.push(String::from_str("-af"));
        r.push(audio_filter_chain(clip));
        r.push(String::from_str("-c:v"));
        r.push(String::from_str("copy"));
        r.push(String::from_str("-c:a"));
        r.push(String::from_str("aac"));
        r.push(String::from_str("-b:a"));
        r.push(String::from_str("192k"));
        r.push(String::from_str("-y"));
        r.push(String::from_str(output));
        assert(views(r@) =~= trim_args_spec(*clip, output@));
        r
    } else {
        trim_copy(clip.path.as_str(), output, clip.in_point, duration)
    }
}

/// The encoding that ends every final render: H.264 at CRF 23 and AAC at
/// 192 kb/s, overwriting `output`.
pub open spec fn encode_suffix(output: Seq<char>) -> Seq<Seq<char>> {
    seq!["-c:v"@, "libx264"@, "-crf"@, "23"@, "-c:a"@, "aac"@, "-b:a"@, "192k"@, "-y"@, output]
}

/// Appends the final encoding arguments.
pub fn push_encode_suffix(args: &mut Vec<String>, output: &str)
    ensures
        views(final(args)@) == views(old(args)@) + encode_suffix(output@),
{
    let ghost a0 = views(args@);
    args.push(String::from_str("-c:v"));
    args.push(String::from_str("libx264"));
    args.push(String::from_str("-crf"));
    args.push(String::from_str("23"));
    args.push(String::from_str("-c:a"));
    args.push(String::from_str("aac"));
    args.push(String::from_str("-b:a"));
    args.push(String::from_str("192k"));
    args.push(String::from_str("-y"));
    args.push(String::from_str(output));
    assert(views(args@) =~= a0 + encode_suffix(output@));
}

} // verus!
