//! What the probe reports about a media file, and how its textual numbers
//! are read.

use vstd::prelude::*;

use crate::text::str_equal;

verus! {

/// `c` is an ASCII decimal digit.
pub open spec fn is_digit(c: char) -> bool {
    48 <= (c as u32) <= 57
}

/// The value of a decimal digit.
pub open spec fn digit_value(c: char) -> int {
    (c as u32) - 48
}

/// Every character of `s` is a decimal digit.
pub open spec fn all_digits(s: Seq<char>) -> bool {
    forall|i: int| 0 <= i < s.len() ==> #[trigger] is_digit(s[i])
}

/// The value of a string of decimal digits.
pub open spec fn digits_value(s: Seq<char>) -> nat
    decreases s.len(),
{
    if s.len() == 0 {
        0
    } else {
        digits_value(s.drop_last()) * 10 + digit_value(s.last()) as nat
    }
}

/// A non-negative integer written in decimal digits only, fitting 64 bits.
pub open spec fn parse_u64_spec(s: Seq<char>) -> Option<u64> {
    if s.len() > 0 && all_digits(s) && digits_value(s) <= u64::MAX {
        Some(digits_value(s) as u64)
    } else {
        None
    }
}

/// Reads a non-negative integer written in decimal digits.
pub fn parse_u64(s: &str) -> (r: Option<u64>)
    ensures
        r == parse_u64_spec(s@),
{
    let n = s.unicode_len();
    if n == 0 {
        return None;
    }
    let mut acc: u128 = 0;
    let mut i: usize = 0;
    while i < n
        invariant
            n == s@.len(),
            i <= n,
            all_digits(s@.subrange(0, i as int)),
            acc == digits_value(s@.subrange(0, i as int)),
            acc <= u64::MAX,
        decreases n - i,
    {
        let c = s.get_char(i);
        let code = c as u32;
        proof {
            assert(s@.subrange(0, i + 1).drop_last() =~= s@.subrange(0, i as int));
            assert(s@.subrange(0, i + 1).last() == c);
        }
        if code < 48 || code > 57 {
            assert(!is_digit(s@[i as int]));
            assert(!all_digits(s@)) by {
                assert(!is_digit(s@[i as int]));
            }
            return None;
        }
        acc = acc * 10 + (code - 48) as u128;
        if acc > 0xFFFF_FFFF_FFFF_FFFF {
            proof {
                assert forall|k: int| 0 <= k < i + 1 implies #[trigger] is_digit(
                    s@.subrange(0, i + 1)[k],
                ) by {
                    if k < i {
                        assert(s@.subrange(0, i + 1)[k] == s@.subrange(0, i as int)[k]);
                    }
                }
                if all_digits(s@) {
                    lemma_digits_value_prefix_bound(s@, i + 1);
                }
            }
            return None;
        }
        proof {
            assert forall|k: int| 0 <= k < i + 1 implies #[trigger] is_digit(
                s@.subrange(0, i + 1)[k],
            ) by {
                if k < i {
                    assert(s@.subrange(0, i + 1)[k] == s@.subrange(0, i as int)[k]);
                }
            }
        }
        i = i + 1;
    }
    assert(s@.subrange(0, n as int) =~= s@);
    Some(acc as u64)
}

proof fn lemma_digits_value_prefix_bound(s: Seq<char>, k: int)
    requires
        0 <= k <= s.len(),
        all_digits(s.subrange(0, k)),
        all_digits(s),
    ensures
        digits_value(s) >= digits_value(s.subrange(0, k)),
    decreases s.len() - k,
{
    if k < s.len() {
        let t = s.subrange(0, k + 1);
        assert(t.drop_last() =~= s.subrange(0, k));
        assert(all_digits(t)) by {
            assert forall|i: int| 0 <= i < t.len() implies #[trigger] is_digit(t[i]) by {
                assert(t[i] == s[i]);
            }
        }
        lemma_digits_value_prefix_bound(s, k + 1);
    } else {
        assert(s.subrange(0, k) =~= s);
    }
}

/// The position of the first `sep` in `s`, or its length.
pub open spec fn first_index_of(s: Seq<char>, sep: char) -> int
    decreases s.len(),
{
    if s.len() == 0 {
        0
    } else if s[0] == sep {
        0
    } else {
        1 + first_index_of(s.drop_first(), sep)
    }
}

proof fn lemma_first_index_of(s: Seq<char>, sep: char)
    ensures
        0 <= first_index_of(s, sep) <= s.len(),
        forall|i: int| 0 <= i < first_index_of(s, sep) ==> s[i] != sep,
        first_index_of(s, sep) < s.len() ==> s[first_index_of(s, sep)] == sep,
    decreases s.len(),
{
    if s.len() > 0 && s[0] != sep {
        lemma_first_index_of(s.drop_first(), sep);
        assert forall|i: int| 0 <= i < first_index_of(s, sep) implies s[i] != sep by {
            if i > 0 {
                assert(s[i] == s.drop_first()[i - 1]);
            }
        }
    }
}

fn find_char(s: &str, sep: char) -> (r: usize)
    ensures
        r == first_index_of(s@, sep),
{
    proof {
        lemma_first_index_of(s@, sep);
    }
    let n = s.unicode_len();
    let mut i: usize = 0;
    while i < n
        invariant
            n == s@.len(),
            i <= n,
            forall|k: int| 0 <= k < i ==> s@[k] != sep,
            i <= first_index_of(s@, sep),
            0 <= first_index_of(s@, sep) <= s@.len(),
            forall|k: int| 0 <= k < first_index_of(s@, sep) ==> s@[k] != sep,
            first_index_of(s@, sep) < s@.len() ==> s@[first_index_of(s@, sep)] == sep,
        decreases n - i,
    {
        if s.get_char(i) == sep {
            return i;
        }
        i = i + 1;
    }
    i
}

/// Milliseconds from the first three fractional digits, missing ones read
/// as zero.
pub open spec fn frac_millis(f: Seq<char>) -> nat {
    let a: int = if f.len() > 0 {
        digit_value(f[0]) * 100
    } else {
        0
    };
    let b: int = if f.len() > 1 {
        digit_value(f[1]) * 10
    } else {
        0
    };
    let c: int = if f.len() > 2 {
        digit_value(f[2])
    } else {
        0
    };
    (a + b + c) as nat
}

/// A count of seconds written `I` or `I.F` with decimal digits, read as
/// milliseconds; digits beyond the third decimal are dropped.
pub open spec fn parse_millis_spec(s: Seq<char>) -> Option<u64> {
    let k = first_index_of(s, '.');
    let int_part = s.subrange(0, k);
    let frac = if k < s.len() {
        s.subrange(k + 1, s.len() as int)
    } else {
        Seq::empty()
    };
    if int_part.len() > 0 && all_digits(int_part) && all_digits(frac) && digits_value(int_part) * 1000
        + frac_millis(frac) <= u64::MAX {
        Some((digits_value(int_part) * 1000 + frac_millis(frac)) as u64)
    } else {
        None
    }
}

fn digits_ok(s: &str) -> (r: bool)
    ensures
        r == all_digits(s@),
{
    let n = s.unicode_len();
    let mut i: usize = 0;
    while i < n
        invariant
            n == s@.len(),
            i <= n,
            forall|k: int| 0 <= k < i ==> #[trigger] is_digit(s@[k]),
        decreases n - i,
    {
        let code = s.get_char(i) as u32;
        if code < 48 || code > 57 {
            assert(!is_digit(s@[i as int]));
            return false;
        }
        i = i + 1;
    }
    true
}

/// Reads a count of seconds such as `10.5` as milliseconds.
pub fn parse_millis(s: &str) -> (r: Option<u64>)
    ensures
        r == parse_millis_spec(s@),
{
    let n = s.unicode_len();
    let k = find_char(s, '.');
    proof {
        lemma_first_index_of(s@, '.');
    }
    let int_part = s.substring_char(0, k);
    let frac = if k < n {
        s.substring_char(k + 1, n)
    } else {
        s.substring_char(n, n)
    };
    assert(frac@ == (if k < s@.len() {
        s@.subrange(k + 1, s@.len() as int)
    } else {
        Seq::<char>::empty()
    }));
    if !digits_ok(frac) {
        return None;
    }
    let whole = match parse_u64(int_part) {
        Some(v) => v,
        None => {
            return None;
        },
    };
    let fl = frac.unicode_len();
    proof {
        if fl > 0 {
            assert(is_digit(frac@[0]));
        }
        if fl > 1 {
            assert(is_digit(frac@[1]));
        }
        if fl > 2 {
            assert(is_digit(frac@[2]));
        }
    }
    let mut ms: u64 = 0;
    if fl > 0 {
        ms = ms + (frac.get_char(0) as u32 - 48) as u64 * 100;
    }
    if fl > 1 {
        ms = ms + (frac.get_char(1) as u32 - 48) as u64 * 10;
    }
    if fl > 2 {
        ms = ms + (frac.get_char(2) as u32 - 48) as u64;
    }
    assert(ms == frac_millis(frac@));
    if whole > 18446744073709551 || (whole == 18446744073709551 && ms > 615) {
        return None;
    }
    Some(whole * 1000 + ms)
}

/// A frame rate written `num/den` with decimal digits and a positive
/// denominator.
pub open spec fn parse_fraction_spec(s: Seq<char>) -> Option<(u64, u64)> {
    let k = first_index_of(s, '/');
    if k < s.len() {
        match (parse_u64_spec(s.subrange(0, k)), parse_u64_spec(s.subrange(k + 1, s.len() as int))) {
            (Some(num), Some(den)) => if den > 0 {
                Some((num, den))
            } else {
                None
            },
            _ => None,
        }
    } else {
        None
    }
}

/// Reads a frame rate such as `30000/1001`.
pub fn parse_fraction(s: &str) -> (r: Option<(u64, u64)>)
    ensures
        r == parse_fraction_spec(s@),
{
    let n = s.unicode_len();
    let k = find_char(s, '/');
    proof {
        lemma_first_index_of(s@, '/');
    }
    if k >= n {
        return None;
    }
    let num = parse_u64(s.substring_char(0, k));
    let den = parse_u64(s.substring_char(k + 1, n));
    match (num, den) {
        (Some(a), Some(b)) => if b > 0 {
            Some((a, b))
        } else {
            None
        },
        _ => None,
    }
}

/// The format section of a probe report.
#[derive(Debug, Clone)]
pub struct ProbeFormat {
    pub duration: Option<String>,
    pub format_name: String,
    pub size: Option<String>,
    pub bit_rate: Option<String>,
}

/// One stream of a probe report.
#[derive(Debug, Clone)]
pub struct ProbeStream {
    pub codec_type: String,
    pub codec_name: String,
    pub width: Option<u32>,
    pub height: Option<u32>,
    pub r_frame_rate: Option<String>,
    pub avg_frame_rate: Option<String>,
}

/// A probe report: the container and its streams.
#[derive(Debug, Clone)]
pub struct ProbeOutput {
    pub format: ProbeFormat,
    pub streams: Vec<ProbeStream>,
}

/// What is known about a media file.
#[derive(Debug, Clone)]
pub struct VideoMetadata {
    /// Length in milliseconds.
    pub duration: u64,
    pub width: u32,
    pub height: u32,
    /// The container format.
    pub format: String,
    /// The video codec.
    pub codec: String,
    /// Frames per second as `fps_num / fps_den`.
    pub fps_num: u64,
    pub fps_den: u64,
    /// Bits per second.
    pub bitrate: Option<u64>,
    pub audio_codec: Option<String>,
    /// Bytes.
    pub file_size: u64,
}

/// Why a probe report says nothing about a video.
#[derive(Debug, Clone, Copy, PartialEq, Eq, Structural)]
pub enum ProbeError {
    NoVideoStream,
}

/// The position of the first stream of kind `kind`.
pub open spec fn first_stream(streams: Seq<ProbeStream>, kind: Seq<char>) -> Option<int>
    decreases streams.len(),
{
    if streams.len() == 0 {
        None
    } else if streams[0].codec_type@ == kind {
        Some(0)
    } else {
        match first_stream(streams.drop_first(), kind) {
            Some(k) => Some(k + 1),
            None => None,
        }
    }
}

proof fn lemma_first_stream(streams: Seq<ProbeStream>, kind: Seq<char>, i: int)
    requires
        0 <= i <= streams.len(),
        forall|j: int| 0 <= j < i ==> #[trigger] streams[j].codec_type@ != kind,
    ensures
        i < streams.len() && streams[i].codec_type@ == kind ==> first_stream(streams, kind) == Some(i),
        i == streams.len() ==> first_stream(streams, kind) is None,
    decreases i,
{
    if i > 0 {
        let d = streams.drop_first();
        assert forall|j: int| 0 <= j < i - 1 implies #[trigger] d[j].codec_type@ != kind by {
            assert(d[j] == streams[j + 1]);
        }
        lemma_first_stream(d, kind, i - 1);
        assert(streams[0].codec_type@ != kind);
        if i < streams.len() {
            assert(d[i - 1] == streams[i]);
        }
    } else if streams.len() > 0 {
    }
}

fn find_stream(streams: &Vec<ProbeStream>, kind: &str) -> (r: Option<usize>)
    ensures
        r matches Some(k) ==> first_stream(streams@, kind@) == Some(k as int) && k < streams@.len(),
        r is None ==> first_stream(streams@, kind@) is None,
{
    let n = streams.len();
    let mut i: usize = 0;
    while i < n
        invariant
            n == streams@.len(),
            i <= n,
            forall|j: int| 0 <= j < i ==> #[trigger] streams@[j].codec_type@ != kind@,
        decreases n - i,
    {
        if str_equal(streams[i].codec_type.as_str(), kind) {
            proof {
                lemma_first_stream(streams@, kind@, i as int);
            }
            return Some(i);
        }
        i = i + 1;
    }
    proof {
        lemma_first_stream(streams@, kind@, n as int);
    }
    None
}

/// The frame rate a video stream declares: its `r_frame_rate` if present,
/// else its `avg_frame_rate`, else none.
pub open spec fn declared_rate(s: ProbeStream) -> Option<Seq<char>> {
    match s.r_frame_rate {
        Some(r) => Some(r@),
        None => match s.avg_frame_rate {
            Some(a) => Some(a@),
            None => None,
        },
    }
}

/// The frame rate of a video stream, 30/1 when none can be read.
pub open spec fn frame_rate(s: ProbeStream) -> (u64, u64) {
    match declared_rate(s) {
        Some(t) => match parse_fraction_spec(t) {
            Some(f) => f,
            None => (30, 1),
        },
        None => (30, 1),
    }
}

/// An optional numeric text read as a number, none when absent or not one.
pub open spec fn optional_u64(t: Option<String>) -> Option<u64> {
    match t {
        Some(s) => parse_u64_spec(s@),
        None => None,
    }
}

fn read_optional_u64(t: &Option<String>) -> (r: Option<u64>)
    ensures
        r == optional_u64(*t),
{
    match t {
        Some(s) => parse_u64(s.as_str()),
        None => None,
    }
}

impl VideoMetadata {
    /// Reads a probe report: the first video stream gives size, codec and
    /// frame rate (30/1 when unreadable), the first audio stream, if any,
    /// the audio codec; the container gives the duration and size (0 when
    /// unreadable) and the bitrate. A report without video fails.
    pub fn from_probe_output(output: &ProbeOutput) -> (r: Result<VideoMetadata, ProbeError>)
        ensures
            first_stream(output.streams@, "video"@) is None ==> r == Err::<VideoMetadata, ProbeError>(
                ProbeError::NoVideoStream,
            ),
            first_stream(output.streams@, "video"@) matches Some(v) ==> (r matches Ok(m) && {
                let vs = output.streams@[v];
                &&& m.width == (match vs.width {
                    Some(w) => w,
                    None => 0,
                })
                &&& m.height == (match vs.height {
                    Some(h) => h,
                    None => 0,
                })
                &&& m.codec@ == vs.codec_name@
                &&& m.format@ == output.format.format_name@
                &&& (m.fps_num, m.fps_den) == frame_rate(vs)
                &&& m.duration == (match output.format.duration {
                    Some(d) => match parse_millis_spec(d@) {
                        Some(x) => x,
                        None => 0,
                    },
                    None => 0,
                })
                &&& m.file_size == (match optional_u64(output.format.size) {
                    Some(x) => x,
                    None => 0,
                })
                &&& m.bitrate == optional_u64(output.format.bit_rate)
                &&& (match first_stream(output.streams@, "audio"@) {
                    Some(a) => m.audio_codec matches Some(c) && c@ == output.streams@[a].codec_name@,
                    None => m.audio_codec is None,
                })
            }),
    {
        let video = match find_stream(&output.streams, "video") {
            Some(v) => v,
            None => {
                return Err(ProbeError::NoVideoStream);
            },
        };
        let audio = find_stream(&output.streams, "audio");
        let vs = &output.streams[video];
        let duration = match &output.format.duration {
            Some(d) => match parse_millis(d.as_str()) {
                Some(x) => x,
                None => 0,
            },
            None => 0,
        };
        let file_size = match read_optional_u64(&output.format.size) {
            Some(x) => x,
            None => 0,
        };
        let bitrate = read_optional_u64(&output.format.bit_rate);
        let rate_text: Option<&String> = match &vs.r_frame_rate {
            Some(r) => Some(r),
            None => match &vs.avg_frame_rate {
                Some(a) => Some(a),
                None => None,
            },
        };
        let (fps_num, fps_den) = match rate_text {
            Some(t) => match parse_fraction(t.as_str()) {
                Some(f) => f,
                None => (30, 1),
            },
            None => (30, 1),
        };
        let width = match vs.width {
            Some(w) => w,
            None => 0,
        };
        let height = match vs.height {
            Some(h) => h,
            None => 0,
        };
        let audio_codec = match audio {
            Some(a) => Some(output.streams[a].codec_name.clone()),
            None => None,
        };
        Ok(VideoMetadata {
            duration,
            width,
            height,
            format: output.format.format_name.clone(),
            codec: vs.codec_name.clone(),
            fps_num,
            fps_den,
            bitrate,
            audio_codec,
            file_size,
        })
    }
}

} // verus!
