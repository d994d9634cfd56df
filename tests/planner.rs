use clipforge::encoder::{ExportSettings, Resolution};
use clipforge::error::ExportError;
use clipforge::planner::{plan_export, ExportPlan, PlanStep};
use clipforge::timeline::{default_volume, ClipData, Strategy, TextOverlayData, TransitionData};

fn clip(id: u32, in_point: u32, out_point: u32, start_time: u32, track: u32) -> ClipData {
    ClipData {
        id,
        path: "/media/fixture.mp4".to_string(),
        in_point,
        out_point,
        start_time,
        track,
        volume: default_volume(),
        is_muted: false,
        fade_in_duration: 0,
        fade_out_duration: 0,
    }
}

fn fade(id: u32, before: u32, after: u32, kind: &str, duration: u32) -> TransitionData {
    TransitionData {
        id,
        clip_id_before: before,
        clip_id_after: after,
        transition_type: kind.to_string(),
        duration,
    }
}

fn settings(resolution: Resolution) -> ExportSettings {
    ExportSettings::new(resolution, "/out/render.mp4".to_string())
}

fn plan(
    clips: &Vec<ClipData>,
    transitions: &Vec<TransitionData>,
    resolution: Resolution,
) -> Result<ExportPlan, ExportError> {
    let present = vec![true; clips.len()];
    plan_export(clips, transitions, &vec![], &settings(resolution), &present, "/tmp")
}

fn runs(plan: &ExportPlan) -> Vec<(String, Vec<String>, String)> {
    plan.steps
        .iter()
        .filter_map(|s| match s {
            PlanStep::Run { stage, args, output } => Some((stage.clone(), args.clone(), output.clone())),
            _ => None,
        })
        .collect()
}

fn progress(plan: &ExportPlan) -> Vec<u32> {
    plan.steps
        .iter()
        .filter_map(|s| match s {
            PlanStep::Progress { percentage, .. } => Some(*percentage),
            _ => None,
        })
        .collect()
}

fn created(plan: &ExportPlan) -> Vec<String> {
    plan.steps
        .iter()
        .filter_map(|s| match s {
            PlanStep::CreateDir { path } => Some(path.clone()),
            PlanStep::WriteFile { path, .. } => Some(path.clone()),
            PlanStep::Run { output, .. } => Some(output.clone()),
            _ => None,
        })
        .collect()
}

fn arg_after(args: &[String], flag: &str) -> String {
    let i = args.iter().position(|a| a == flag).expect("flag present");
    args[i + 1].clone()
}

#[test]
fn single_clip_is_fast_concat() {
    let clips = vec![clip(1, 0, 2000, 0, 0)];
    let p = plan(&clips, &vec![], Resolution::Source).unwrap();
    assert_eq!(p.strategy, Strategy::FastConcat);
    assert_eq!(p.output_path, "/out/render.mp4");
    let r = runs(&p);
    assert_eq!(r.len(), 2);
    assert_eq!(
        r[0].1,
        vec!["-ss", "0", "-i", "/media/fixture.mp4", "-t", "2", "-c", "copy", "-y", "/tmp/clipforge_export/clip_0_trimmed.mp4"]
    );
    assert_eq!(
        r[1].1,
        vec![
            "-f", "concat", "-safe", "0", "-i", "/tmp/clipforge_concat_list.txt", "-c:v", "libx264", "-crf", "23",
            "-c:a", "aac", "-b:a", "192k", "-y", "/out/render.mp4"
        ]
    );
    let list = p.steps.iter().find_map(|s| match s {
        PlanStep::WriteFile { contents, .. } => Some(contents.clone()),
        _ => None,
    });
    assert_eq!(list.unwrap(), "file '/tmp/clipforge_export/clip_0_trimmed.mp4'");
}

#[test]
fn trimmed_clip_cuts_one_second() {
    let clips = vec![clip(1, 500, 1500, 0, 0)];
    let p = plan(&clips, &vec![], Resolution::Source).unwrap();
    let r = runs(&p);
    assert_eq!(arg_after(&r[0].1, "-ss"), "0.5");
    assert_eq!(arg_after(&r[0].1, "-t"), "1");
}

#[test]
fn two_sequential_clips_are_fast_concat() {
    let clips = vec![clip(1, 0, 2000, 0, 0), clip(2, 0, 2000, 2000, 0)];
    let p = plan(&clips, &vec![], Resolution::Source).unwrap();
    assert_eq!(p.strategy, Strategy::FastConcat);
    let list = p.steps.iter().find_map(|s| match s {
        PlanStep::WriteFile { contents, .. } => Some(contents.clone()),
        _ => None,
    });
    assert_eq!(
        list.unwrap(),
        "file '/tmp/clipforge_export/clip_0_trimmed.mp4'\nfile '/tmp/clipforge_export/clip_1_trimmed.mp4'"
    );
}

#[test]
fn hd720_export_scales_to_1280_by_720() {
    let clips = vec![clip(1, 0, 2000, 0, 0)];
    let p = plan(&clips, &vec![], Resolution::HD720).unwrap();
    let r = runs(&p);
    assert_eq!(arg_after(&r[1].1, "-vf"), "scale=1280:720");
}

#[test]
fn fade_transition_has_xfade_at_offset_two() {
    let clips = vec![clip(1, 0, 3000, 0, 0), clip(2, 0, 3000, 3000, 0)];
    let transitions = vec![fade(7, 1, 2, "fade", 1000)];
    let p = plan(&clips, &transitions, Resolution::Source).unwrap();
    assert_eq!(p.strategy, Strategy::WithTransitions);
    let r = runs(&p);
    let graph = arg_after(&r[2].1, "-filter_complex");
    assert!(graph.contains("[vin0][vin1]xfade=transition=fade:duration=1.000:offset=2.000[vout]"));
    assert!(graph.contains("[0:a?][1:a?]concat=n=2:v=0:a=1[aout]"));
    assert!(graph.starts_with("[0:v]scale=1280:720:force_original_aspect_ratio=decrease,pad=1280:720:-1:-1:color=black,format=yuv420p,fps=fps=30:round=near,settb=expr=1/30,setpts=PTS-STARTPTS[vin0]"));
}

#[test]
fn picture_in_picture_is_multi_track() {
    let clips = vec![clip(1, 0, 2000, 0, 0), clip(2, 0, 1000, 500, 1)];
    let p = plan(&clips, &vec![], Resolution::Source).unwrap();
    assert_eq!(p.strategy, Strategy::MultiTrack);
    let r = runs(&p);
    let last = &r[r.len() - 1].1;
    assert_eq!(last[0], "-i");
    assert_eq!(last[1], "/tmp/clipforge_export/base_video.mp4");
    let graph = arg_after(last, "-filter_complex");
    assert_eq!(
        graph,
        "[1:v]scale=iw*0.25:-1[scaled1];[0:v][scaled1]overlay=W-w-20:H-h-20:enable='between(t,0.500,1.500)'[out];[0:a?][1:a?]amix=inputs=2:duration=longest[aout]"
    );
}

#[test]
fn empty_timeline_fails() {
    let err = plan(&vec![], &vec![], Resolution::Source).unwrap_err();
    assert!(matches!(err, ExportError::EmptyTimeline));
    assert!(err.message().contains("No clips"));
}

#[test]
fn missing_source_fails() {
    let clips = vec![clip(1, 0, 2000, 0, 0)];
    let err = plan_export(&clips, &vec![], &vec![], &settings(Resolution::Source), &vec![false], "/tmp").unwrap_err();
    match err {
        ExportError::SourceMissing(p) => assert_eq!(p, "/media/fixture.mp4"),
        other => panic!("unexpected {:?}", other),
    }
}

#[test]
fn empty_window_is_invalid_duration() {
    let clips = vec![clip(4, 1000, 1000, 0, 0)];
    let err = plan(&clips, &vec![], Resolution::Source).unwrap_err();
    assert!(matches!(err, ExportError::InvalidDuration(4)));
    assert_eq!(err.message(), "Clip 4 has invalid duration");
}

#[test]
fn transition_as_long_as_clip_is_invalid() {
    let clips = vec![clip(1, 0, 3000, 0, 0), clip(2, 0, 3000, 3000, 0)];
    let transitions = vec![fade(9, 1, 2, "fade", 3000)];
    let err = plan(&clips, &transitions, Resolution::Source).unwrap_err();
    assert!(matches!(err, ExportError::InvalidTransition(9)));
}

#[test]
fn transition_between_non_neighbours_is_invalid() {
    let clips = vec![clip(1, 0, 3000, 0, 0), clip(2, 0, 3000, 3000, 0), clip(3, 0, 3000, 6000, 0)];
    let transitions = vec![fade(9, 1, 3, "fade", 500)];
    let err = plan(&clips, &transitions, Resolution::Source).unwrap_err();
    assert!(matches!(err, ExportError::InvalidTransition(9)));
}

#[test]
fn unknown_transition_kind_fails() {
    let clips = vec![clip(1, 0, 3000, 0, 0), clip(2, 0, 3000, 3000, 0)];
    let transitions = vec![fade(9, 1, 2, "spin", 500)];
    let err = plan(&clips, &transitions, Resolution::Source).unwrap_err();
    match err {
        ExportError::UnknownTransitionKind(k) => assert_eq!(k, "spin"),
        other => panic!("unexpected {:?}", other),
    }
}

#[test]
fn separate_tracks_without_overlap_are_fast_concat() {
    let clips = vec![clip(1, 0, 2000, 0, 0), clip(2, 0, 2000, 2000, 1)];
    let p = plan(&clips, &vec![], Resolution::Source).unwrap();
    assert_eq!(p.strategy, Strategy::FastConcat);
}

#[test]
fn overlap_without_base_track_fails() {
    let clips = vec![clip(1, 0, 2000, 0, 1), clip(2, 0, 2000, 500, 2)];
    let err = plan(&clips, &vec![], Resolution::Source).unwrap_err();
    assert!(matches!(err, ExportError::NoBaseTrack));
}

#[test]
fn progress_rises_to_one_hundred_in_every_strategy() {
    let cases: Vec<(Vec<ClipData>, Vec<TransitionData>)> = vec![
        (vec![clip(1, 0, 2000, 0, 0), clip(2, 0, 2000, 2000, 0), clip(3, 0, 1000, 4000, 0)], vec![]),
        (vec![clip(1, 0, 3000, 0, 0), clip(2, 0, 3000, 3000, 0)], vec![fade(1, 1, 2, "wipeLeft", 1000)]),
        (vec![clip(1, 0, 2000, 0, 0), clip(2, 0, 1000, 500, 1), clip(3, 0, 1000, 900, 2)], vec![]),
    ];
    for (clips, transitions) in cases {
        let p = plan(&clips, &transitions, Resolution::Source).unwrap();
        let values = progress(&p);
        assert_eq!(values[0], 0);
        assert_eq!(*values.last().unwrap(), 10000);
        assert!(values.windows(2).all(|w| w[0] <= w[1]));
    }
}

#[test]
fn every_created_path_is_cleaned_up() {
    let clips = vec![clip(1, 0, 3000, 0, 0), clip(2, 0, 3000, 3000, 0), clip(3, 0, 1000, 500, 1)];
    let transitions = vec![fade(1, 1, 2, "dissolve", 500)];
    let p = plan(&clips, &transitions, Resolution::HD1080).unwrap();
    assert_eq!(p.strategy, Strategy::MultiTrack);
    for path in created(&p) {
        assert!(path == p.output_path || path == p.work_dir || p.cleanup.contains(&path), "{}", path);
    }
    assert_eq!(p.work_dir, "/tmp/clipforge_export");
}

#[test]
fn multi_track_base_with_transition_uses_acrossfade() {
    let clips = vec![clip(1, 0, 3000, 0, 0), clip(2, 0, 3000, 3000, 0), clip(3, 0, 1000, 500, 1)];
    let transitions = vec![fade(1, 1, 2, "fadeToBlack", 500)];
    let p = plan(&clips, &transitions, Resolution::Source).unwrap();
    let r = runs(&p);
    let base = r.iter().find(|(stage, _, _)| stage == "base").unwrap();
    let graph = arg_after(&base.1, "-filter_complex");
    assert!(graph.contains("[vin0][vin1]xfade=transition=fadeblack:duration=0.500:offset=2.500[vout]"));
    assert!(graph.ends_with("[0:a?][1:a?]acrossfade=d=0.500:c1=tri:c2=tri[aout]"));
}

#[test]
fn muted_clip_reencodes_audio_silently() {
    let mut c = clip(1, 0, 2000, 0, 0);
    c.is_muted = true;
    let p = plan(&vec![c], &vec![], Resolution::Source).unwrap();
    let r = runs(&p);
    assert_eq!(arg_after(&r[0].1, "-af"), "volume=0");
    assert_eq!(arg_after(&r[0].1, "-c:a"), "aac");
}

#[test]
fn text_overlay_joins_scale_in_vf_chain() {
    let clips = vec![clip(1, 0, 2000, 0, 0)];
    let overlay = TextOverlayData {
        id: 1,
        text: "Hi".to_string(),
        start_time: 0,
        duration: 1000,
        x: 50000,
        y: 10000,
        font_size: 24,
        font_family: "Arial".to_string(),
        color: "#FFFFFF".to_string(),
        animation: "none".to_string(),
    };
    let p = plan_export(&clips, &vec![], &vec![overlay], &settings(Resolution::HD720), &vec![true], "/tmp").unwrap();
    let r = runs(&p);
    assert_eq!(
        arg_after(&r[1].1, "-vf"),
        "scale=1280:720,drawtext=text='Hi':fontsize=24:fontcolor=0xFFFFFF:x=(main_w*50)/100:y=(main_h*10)/100:enable='between(t,0.000,1.000)'"
    );
}

#[test]
fn test_fixture_exists() {
    let fixture = clip(1, 0, 2000, 0, 0);
    let result = clipforge::timeline::validate_timeline(&vec![fixture], &vec![], &vec![true]);
    assert!(result.is_ok(), "Test fixture video should exist at {:?}", "/media/fixture.mp4");
}

#[test]
fn error_messages_name_their_cause() {
    assert_eq!(ExportError::SourceMissing("/x.mp4".to_string()).message(), "Source file not found: /x.mp4");
    assert_eq!(ExportError::InvalidTransition(3).message(), "Invalid transition 3");
    assert_eq!(ExportError::UnknownTransitionKind("spin".to_string()).message(), "Unsupported transition type: spin");
    assert_eq!(
        ExportError::ToolchainFailure { stage: "trim".to_string(), stderr: "boom".to_string() }.message(),
        "FFmpeg failed during trim: boom"
    );
    assert_eq!(ExportError::IoFailure("disk full".to_string()).message(), "I/O failure: disk full");
    assert_eq!(ExportError::LockFailure.message(), "Failed to lock FFmpeg");
    assert!(ExportError::NoBaseTrack.message().contains("track 0"));
}

#[test]
fn repeated_transition_pair_is_invalid() {
    let clips = vec![clip(1, 0, 3000, 0, 0), clip(2, 0, 3000, 3000, 0)];
    let transitions = vec![fade(1, 1, 2, "fade", 500), fade(2, 1, 2, "fade", 400)];
    let err = plan(&clips, &transitions, Resolution::Source).unwrap_err();
    assert!(matches!(err, ExportError::InvalidTransition(2)));
}

#[test]
fn validation_checks_missing_sources_before_durations() {
    let clips = vec![clip(1, 1000, 1000, 0, 0), clip(2, 0, 1000, 1000, 0)];
    let err = plan_export(&clips, &vec![], &vec![], &settings(Resolution::Source), &vec![true, false], "/tmp").unwrap_err();
    assert!(matches!(err, ExportError::SourceMissing(_)));
}

#[test]
fn trim_with_audio_filters_writes_shortest_times() {
    let mut c = clip(1, 500, 2500, 0, 0);
    c.path = "in.mp4".to_string();
    c.volume = 50;
    c.fade_in_duration = 500;
    c.fade_out_duration = 1000;
    assert_eq!(
        clipforge::toolchain::trim_args(&c, "out.mp4"),
        vec![
            "-ss", "0.5", "-i", "in.mp4", "-t", "2", "-af",
            "volume=0.50,afade=t=in:st=0:d=0.500,afade=t=out:st=1.000:d=1.000",
            "-c:v", "copy", "-c:a", "aac", "-b:a", "192k", "-y", "out.mp4"
        ]
    );
}

#[test]
fn first_unknown_pair_is_reported() {
    let clips = vec![clip(1, 0, 3000, 0, 0), clip(2, 0, 3000, 3000, 0), clip(3, 0, 3000, 6000, 0)];
    let transitions = vec![fade(1, 2, 3, "zoom", 500), fade(2, 1, 2, "spin", 500), fade(3, 7, 8, "warp", 500)];
    let err = clipforge::filters::build_xfade_and_audio_filter(&clips, &transitions, 1280, 720, "[vout]").unwrap_err();
    match err {
        ExportError::UnknownTransitionKind(k) => assert_eq!(k, "spin"),
        other => panic!("unexpected {:?}", other),
    }
}
