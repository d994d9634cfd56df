use clipforge::metadata::{parse_fraction, parse_millis, parse_u64, ProbeError, ProbeFormat, ProbeOutput, ProbeStream, VideoMetadata};
use clipforge::models::Project;
use clipforge::timeline::ClipData;
use clipforge::timing::{
    boundary_points, build_time_mappings, partition_timeline, remap_segments, remap_time, TranscriptionSegment,
};
use clipforge::toolchain::{binary_candidates, is_ready_state, resolve_binary_path, trim_args, FFmpegWrapper};
use clipforge::transcription::{
    audio_layout, clip_audio_args, merge_concat_args, reports_audio_stream, slice_args, temp_name,
};

fn clip(id: u32, in_point: u32, out_point: u32, start_time: u32, track: u32) -> ClipData {
    ClipData {
        id,
        path: format!("/m/{}.mp4", id),
        in_point,
        out_point,
        start_time,
        track,
        volume: 100,
        is_muted: false,
        fade_in_duration: 0,
        fade_out_duration: 0,
    }
}

fn stream(kind: &str, codec: &str) -> ProbeStream {
    ProbeStream {
        codec_type: kind.to_string(),
        codec_name: codec.to_string(),
        width: None,
        height: None,
        r_frame_rate: None,
        avg_frame_rate: None,
    }
}

#[test]
fn test_parse_ffprobe_json() {
    let mut video = stream("video", "h264");
    video.width = Some(1920);
    video.height = Some(1080);
    video.r_frame_rate = Some("30/1".to_string());
    let output = ProbeOutput {
        format: ProbeFormat {
            duration: Some("10.5".to_string()),
            format_name: "mov,mp4,m4a,3gp,3g2,mj2".to_string(),
            size: Some("1048576".to_string()),
            bit_rate: Some("800000".to_string()),
        },
        streams: vec![video, stream("audio", "aac")],
    };
    let metadata = VideoMetadata::from_probe_output(&output).unwrap();
    assert_eq!(metadata.duration, 10500);
    assert_eq!(metadata.width, 1920);
    assert_eq!(metadata.height, 1080);
    assert_eq!(metadata.codec, "h264");
    assert_eq!((metadata.fps_num, metadata.fps_den), (30, 1));
    assert_eq!(metadata.audio_codec, Some("aac".to_string()));
    assert_eq!(metadata.file_size, 1048576);
    assert_eq!(metadata.bitrate, Some(800000));
}

#[test]
fn probe_without_video_fails_and_defaults_apply() {
    let output = ProbeOutput {
        format: ProbeFormat { duration: None, format_name: "wav".to_string(), size: None, bit_rate: None },
        streams: vec![stream("audio", "pcm_s16le")],
    };
    assert_eq!(VideoMetadata::from_probe_output(&output).unwrap_err(), ProbeError::NoVideoStream);
    let mut v = stream("video", "vp9");
    v.avg_frame_rate = Some("0/0".to_string());
    let output = ProbeOutput {
        format: ProbeFormat { duration: Some("n/a".to_string()), format_name: "webm".to_string(), size: None, bit_rate: None },
        streams: vec![v],
    };
    let m = VideoMetadata::from_probe_output(&output).unwrap();
    assert_eq!((m.fps_num, m.fps_den), (30, 1));
    assert_eq!(m.duration, 0);
    assert_eq!(m.audio_codec, None);
    assert_eq!(m.width, 0);
}

#[test]
fn number_parsing() {
    assert_eq!(parse_millis("10.5"), Some(10500));
    assert_eq!(parse_millis("2.000000"), Some(2000));
    assert_eq!(parse_millis("7"), Some(7000));
    assert_eq!(parse_millis("0.1239"), Some(123));
    assert_eq!(parse_millis(".5"), None);
    assert_eq!(parse_millis("1.2.3"), None);
    assert_eq!(parse_u64("18446744073709551615"), Some(u64::MAX));
    assert_eq!(parse_u64("18446744073709551616"), None);
    assert_eq!(parse_u64(""), None);
    assert_eq!(parse_u64("12a"), None);
    assert_eq!(parse_fraction("30000/1001"), Some((30000, 1001)));
    assert_eq!(parse_fraction("25/0"), None);
    assert_eq!(parse_fraction("25"), None);
}

#[test]
fn overlapping_clips_partition_into_stretches() {
    let clips = vec![clip(1, 0, 4000, 0, 0), clip(2, 0, 2000, 1000, 1), clip(3, 0, 1000, 6000, 0)];
    assert_eq!(boundary_points(&clips), vec![0, 1000, 3000, 4000, 6000, 7000]);
    let intervals = partition_timeline(&clips);
    let spans: Vec<(i64, i64, Vec<usize>)> = intervals.iter().map(|i| (i.start, i.end, i.clips.clone())).collect();
    assert_eq!(
        spans,
        vec![
            (0, 1000, vec![0]),
            (1000, 3000, vec![0, 1]),
            (3000, 4000, vec![0]),
            (6000, 7000, vec![2]),
        ]
    );
    let mappings = build_time_mappings(&intervals);
    let triples: Vec<(i64, i64, i64)> = mappings.iter().map(|m| (m.audio_start, m.audio_end, m.timeline_start)).collect();
    assert_eq!(triples, vec![(0, 1000, 0), (1000, 3000, 1000), (3000, 4000, 3000), (4000, 5000, 6000)]);
    assert_eq!(remap_time(&mappings, 4500), Some(6500));
    assert_eq!(remap_time(&mappings, 5000), None);
}

#[test]
fn segments_are_moved_onto_the_timeline() {
    let clips = vec![clip(1, 0, 2000, 0, 0), clip(2, 0, 2000, 5000, 0)];
    let layout = audio_layout(&clips).unwrap();
    let segments = vec![
        TranscriptionSegment { text: "one".to_string(), start_time: 500, duration: 1000 },
        TranscriptionSegment { text: "two".to_string(), start_time: 2500, duration: 700 },
        TranscriptionSegment { text: "late".to_string(), start_time: 9000, duration: 100 },
    ];
    let (moved, flags) = remap_segments(&layout.mappings, &segments);
    assert_eq!(moved[0].start_time, 500);
    assert_eq!(moved[1].start_time, 5500);
    assert_eq!(moved[1].text, "two");
    assert_eq!(moved[1].duration, 700);
    assert_eq!(moved[2].start_time, 9000);
    assert_eq!(flags, vec![true, true, false]);
    assert!(audio_layout(&vec![]).is_err());
}

#[test]
fn audio_slices_and_merge_arguments() {
    let clips = vec![clip(1, 0, 4000, 0, 0), clip(2, 0, 2000, 1000, 1)];
    let layout = audio_layout(&clips).unwrap();
    let audio = vec!["/t/a1.wav".to_string(), "/t/a2.wav".to_string()];
    let single = slice_args(&clips, &audio, &layout.intervals[0], "/t/s0.wav");
    assert_eq!(
        single,
        vec!["-i", "/t/a1.wav", "-ss", "0", "-t", "1", "-c:a", "pcm_s16le", "-ar", "16000", "-ac", "1", "/t/s0.wav", "-y"]
    );
    let mixed = slice_args(&clips, &audio, &layout.intervals[1], "/t/s1.wav");
    assert_eq!(
        mixed[..6].to_vec(),
        vec!["-i", "/t/a1.wav", "-i", "/t/a2.wav", "-filter_complex",
             "[0]atrim=start=1:duration=2[trim0];[1]atrim=start=0:duration=2[trim1];[trim0][trim1]amix=inputs=2:duration=longest[out]"]
    );
    assert_eq!(merge_concat_args("/t/l.txt", "/t/o.wav")[5], "/t/l.txt");
    let silent = clip_audio_args(&clips[1], false, "/t/x.wav");
    assert_eq!(silent[3], "anullsrc=r=16000:cl=mono,atrim=duration=2");
    let spoken = clip_audio_args(&clips[1], true, "/t/x.wav");
    assert_eq!(spoken[..7].to_vec(), vec!["-i", "/m/2.mp4", "-ss", "0", "-t", "2", "-vn"]);
    assert!(reports_audio_stream("Stream #0:1: Audio: aac (LC)"));
    assert!(!reports_audio_stream("Stream #0:0: Video: h264"));
}

#[test]
fn temporary_names_are_fresh() {
    let a = temp_name("/t", "segment", "wav");
    let b = temp_name("/t", "segment", "wav");
    assert!(a.starts_with("/t/segment_"));
    assert!(a.ends_with(".wav"));
    assert_eq!(a.len(), "/t/segment_".len() + 36 + 4);
    assert_ne!(a, b);
}

#[test]
fn new_project_is_stamped_now() {
    let p = Project::new("Demo".to_string());
    assert_eq!(p.name, "Demo");
    assert_eq!(p.id, None);
    assert!(p.created_at.len() >= 20);
    assert_eq!(p.created_at, p.updated_at);
    assert!(p.created_at.contains('T'));
}

#[test]
fn wrapper_progress_and_arguments() {
    let mut w = FFmpegWrapper::new("ffmpeg".to_string(), "ffprobe".to_string());
    assert!(is_ready_state(&w.get_progress()));
    w.set_progress(4000, "Concatenating clips...".to_string(), Some(12));
    let p = w.get_progress();
    assert_eq!(p.percentage, 4000);
    assert_eq!(p.current_operation, "Concatenating clips...");
    assert_eq!(p.eta_seconds, Some(12));
    w.reset_progress();
    assert_eq!(w.get_progress().current_operation, "Ready");
    assert_eq!(w.probe_args("/v.mp4"), vec!["-v", "quiet", "-print_format", "json", "-show_format", "-show_streams", "/v.mp4"]);
    assert_eq!(w.trim_video_args("/in.mp4", "/out.mp4", 1500, 4000), vec!["-ss", "1.5", "-i", "/in.mp4", "-t", "2.5", "-c", "copy", "-y", "/out.mp4"]);
    assert_eq!(w.thumbnail_args("/in.mp4", "/t.jpg", 1000)[1], "1");
    assert_eq!(w.concat_videos_args("/l.txt", "/o.mp4")[5], "/l.txt");
    let c = clip(1, 0, 1000, 0, 0);
    assert_eq!(trim_args(&c, "/o.mp4")[6], "-c");
}

#[test]
fn binary_resolution_order() {
    let candidates = binary_candidates("ffmpeg", false);
    assert_eq!(candidates, vec!["src-tauri/binaries/ffmpeg".to_string(), "ffmpeg".to_string()]);
    assert_eq!(binary_candidates("ffmpeg", true)[1], "ffmpeg.exe");
    assert_eq!(resolve_binary_path("ffmpeg", &candidates, &vec![false, true]), "ffmpeg");
    assert_eq!(resolve_binary_path("ffmpeg", &candidates, &vec![true, true]), "src-tauri/binaries/ffmpeg");
    assert_eq!(resolve_binary_path("ffprobe", &candidates, &vec![false, false]), "ffprobe");
}
