use clipforge::encoder::Resolution;
use clipforge::filters::{
    audio_concat_filter, audio_filter_chain, build_drawtext_filter, build_overlay_and_audio_filter,
    build_xfade_and_audio_filter, concat_list, normalize_filter, post_filters,
};
use clipforge::text::{
    escape_drawtext, escape_single_quotes, join_strings, push_fixed2, push_fixed3, push_short3, push_signed_fixed3,
    push_signed_short3,
};
use clipforge::timeline::{
    classify, detect_temporal_overlap, map_transition_type, sort_by_start, ClipData, Strategy, TextOverlayData,
    TransitionData,
};

fn clip(id: u32, in_point: u32, out_point: u32, start_time: u32, track: u32) -> ClipData {
    ClipData {
        id,
        path: format!("/m/{}.mp4", id),
        in_point,
        out_point,
        start_time,
        track,
        volume: 100,
        is_muted: false,
        fade_in_duration: 0,
        fade_out_duration: 0,
    }
}

fn transition(before: u32, after: u32, kind: &str, duration: u32) -> TransitionData {
    TransitionData { id: 1, clip_id_before: before, clip_id_after: after, transition_type: kind.to_string(), duration }
}

#[test]
fn fixed_point_rendering() {
    let mut s = String::new();
    push_fixed3(&mut s, 2000);
    s.push(' ');
    push_fixed3(&mut s, 1234567);
    s.push(' ');
    push_fixed3(&mut s, 5);
    s.push(' ');
    push_signed_fixed3(&mut s, -2500);
    s.push(' ');
    push_fixed2(&mut s, 150);
    s.push(' ');
    push_short3(&mut s, 2000);
    s.push(' ');
    push_short3(&mut s, 500);
    s.push(' ');
    push_short3(&mut s, 1230);
    s.push(' ');
    push_short3(&mut s, 5);
    s.push(' ');
    push_signed_short3(&mut s, -2500);
    assert_eq!(s, "2.000 1234.567 0.005 -2.500 1.50 2 0.5 1.23 0.005 -2.5");
}

#[test]
fn single_quotes_in_paths_are_escaped() {
    assert_eq!(escape_single_quotes("/tmp/it's.mp4"), "/tmp/it'\\''s.mp4");
    assert_eq!(escape_single_quotes("plain"), "plain");
    let list = concat_list(&vec!["/a/b'c.mp4".to_string(), "/d.mp4".to_string()]);
    assert_eq!(list, "file '/a/b'\\''c.mp4'\nfile '/d.mp4'");
}

#[test]
fn drawtext_text_with_backslash_and_quote() {
    assert_eq!(escape_drawtext("a\\b'c"), "a\\\\b'\\''c");
}

fn unquote(s: &str) -> String {
    let mut out = String::new();
    let mut quoted = false;
    let chars: Vec<char> = s.chars().collect();
    let mut i = 0;
    while i < chars.len() {
        let c = chars[i];
        if quoted {
            if c == '\'' { quoted = false; } else { out.push(c); }
            i += 1;
        } else if c == '\'' {
            quoted = true;
            i += 1;
        } else if c == '\\' && i + 1 < chars.len() {
            out.push(chars[i + 1]);
            i += 2;
        } else {
            out.push(c);
            i += 1;
        }
    }
    out
}

#[test]
fn escaped_paths_read_back() {
    for p in ["/tmp/it's here.mp4", "''", "no quotes", "end'"] {
        let quoted = format!("'{}'", escape_single_quotes(p));
        assert_eq!(unquote(&quoted), p);
    }
}

#[test]
fn drawtext_filter_shape() {
    let overlay = TextOverlayData {
        id: 1,
        text: "It's".to_string(),
        start_time: 1500,
        duration: 2000,
        x: 12500,
        y: 90000,
        font_size: 32,
        font_family: "Sans".to_string(),
        color: "#00FF00".to_string(),
        animation: "none".to_string(),
    };
    assert_eq!(
        build_drawtext_filter(&overlay),
        "drawtext=text='It'\\''s':fontsize=32:fontcolor=0x00FF00:x=(main_w*12.5)/100:y=(main_h*90)/100:enable='between(t,1.500,3.500)'"
    );
}

#[test]
fn transition_names_map_to_xfade() {
    assert_eq!(map_transition_type("fade").unwrap(), "fade");
    assert_eq!(map_transition_type("crossfade").unwrap(), "fade");
    assert_eq!(map_transition_type("dissolve").unwrap(), "fade");
    assert_eq!(map_transition_type("fadeToBlack").unwrap(), "fadeblack");
    assert_eq!(map_transition_type("wipeLeft").unwrap(), "wiperight");
    assert_eq!(map_transition_type("wipeRight").unwrap(), "wipeleft");
    assert!(map_transition_type("zoom").is_err());
}

#[test]
fn xfade_offsets_accumulate() {
    let clips = vec![clip(1, 0, 5000, 0, 0), clip(2, 0, 4000, 5000, 0), clip(3, 1000, 3000, 9000, 0)];
    let transitions = vec![transition(1, 2, "wipeRight", 1500)];
    let (video, audio) = build_xfade_and_audio_filter(&clips, &transitions, 1280, 720, "[vout]").unwrap();
    assert!(video.contains("[vin0][vin1]xfade=transition=wipeleft:duration=1.500:offset=3.500[v0]"));
    assert!(video.contains("[v0][vin2]xfade=transition=fade:duration=0.010:offset=7.490[vout]"));
    assert_eq!(audio, "[0:a?][1:a?][2:a?]concat=n=3:v=0:a=1[aout]");
}

#[test]
fn single_input_graph_copies() {
    let clips = vec![clip(1, 0, 5000, 0, 0)];
    let (video, audio) = build_xfade_and_audio_filter(&clips, &vec![], 1280, 720, "[vout]").unwrap();
    assert_eq!(video, "[0:v]copy[vout]");
    assert_eq!(audio, "[0:a?]acopy[aout]");
}

#[test]
fn normalization_filter_text() {
    assert_eq!(
        normalize_filter(2, 2, 1920, 1080),
        "[2:v]scale=1920:1080:force_original_aspect_ratio=decrease,pad=1920:1080:-1:-1:color=black,format=yuv420p,fps=fps=30:round=near,settb=expr=1/30,setpts=PTS-STARTPTS[vin2]"
    );
}

#[test]
fn overlay_chain_of_two() {
    let overlays = vec![clip(2, 0, 1000, 500, 1), clip(3, 0, 2000, 1000, 2)];
    let (video, audio) = build_overlay_and_audio_filter(&overlays, "[out]");
    assert_eq!(
        video,
        "[1:v]scale=iw*0.25:-1[scaled1];[2:v]scale=iw*0.25:-1[scaled2];[0:v][scaled1]overlay=W-w-20:H-h-20:enable='between(t,0.500,1.500)'[temp1];[temp1][scaled2]overlay=W-w-20:H-h-20:enable='between(t,1.000,3.000)'[out]"
    );
    assert_eq!(audio, "[0:a?][1:a?][2:a?]amix=inputs=3:duration=longest[aout]");
}

#[test]
fn audio_filters_of_a_clip() {
    let mut c = clip(1, 1000, 5000, 0, 0);
    c.volume = 150;
    c.fade_in_duration = 500;
    c.fade_out_duration = 1000;
    assert_eq!(
        audio_filter_chain(&c),
        "volume=1.50,afade=t=in:st=0:d=0.500,afade=t=out:st=3.000:d=1.000"
    );
    c.is_muted = true;
    assert_eq!(audio_filter_chain(&c), "volume=0");
}

#[test]
fn audio_concat_of_four() {
    assert_eq!(audio_concat_filter(4), "[0:a?][1:a?][2:a?][3:a?]concat=n=4:v=0:a=1[aout]");
}

#[test]
fn post_filters_follow_resolution() {
    assert!(post_filters(Resolution::Source, &vec![]).is_empty());
    assert_eq!(post_filters(Resolution::HD1080, &vec![]), vec!["scale=1920:1080".to_string()]);
    assert_eq!(join_strings(&vec!["a".to_string(), "b".to_string()], ","), "a,b");
}

#[test]
fn resolution_dimensions() {
    assert_eq!(Resolution::Source.dimensions(), None);
    assert_eq!(Resolution::HD720.dimensions(), Some((1280, 720)));
    assert_eq!(Resolution::HD1080.scale_filter(), Some("scale=1920:1080".to_string()));
    assert_eq!(Resolution::Source.scale_filter(), None);
}

#[test]
fn classification_cases() {
    let sequential = vec![clip(1, 0, 2000, 0, 0), clip(2, 0, 2000, 2000, 1)];
    assert!(!detect_temporal_overlap(&sequential));
    assert_eq!(classify(&sequential, &vec![]), Strategy::FastConcat);
    assert_eq!(classify(&sequential, &vec![transition(1, 2, "fade", 10)]), Strategy::WithTransitions);
    let pip = vec![clip(1, 0, 2000, 0, 0), clip(2, 0, 1000, 500, 1)];
    assert!(detect_temporal_overlap(&pip));
    assert_eq!(classify(&pip, &vec![]), Strategy::MultiTrack);
    let same_track = vec![clip(1, 0, 2000, 0, 0), clip(2, 0, 1000, 500, 0)];
    assert_eq!(classify(&same_track, &vec![]), Strategy::FastConcat);
}

#[test]
fn sort_is_stable_by_start() {
    let clips = vec![clip(1, 0, 10, 3000, 0), clip(2, 0, 10, 1000, 0), clip(3, 0, 10, 3000, 0), clip(4, 0, 10, 0, 0)];
    let ids: Vec<u32> = sort_by_start(&clips).iter().map(|c| c.id).collect();
    assert_eq!(ids, vec![4, 2, 1, 3]);
}
