//! What a media probe reports of a video file, read from the text that the
//! probe prints.

use crate::number::{all_digits, digits_value, is_digit, lemma_digits_grow};
use crate::text::{chars_of, matches_at, occurs_at};
use vstd::prelude::*;

verus! {

/// Picture size and running time of a video.
#[derive(Debug, Clone, Copy, PartialEq, Eq)]
pub struct VideoStats {
    pub height: u32,
    pub width: u32,
    /// In seconds
    pub duration: u32,
}

/// What the report of a probe lacks.
#[derive(Debug, Clone, Copy, PartialEq, Eq)]
pub enum ProbeError {
    /// No running time of the form `Duration: 00:00:00.`.
    NoDuration,
    /// No picture size of the form `, 0x0 [`.
    NoResolution,
}

/// The number that the two digits at `at` denote.
pub open spec fn two_digits(text: Seq<char>, at: int) -> int {
    digits_value(text.subrange(at, at + 2))
}

/// True when a running time stands in `text` from position `i` on: the word
/// `Duration: `, then hours, minutes and seconds of two digits each, with
/// colons between them and a full stop behind.
pub open spec fn duration_at(text: Seq<char>, i: int) -> bool {
    &&& occurs_at(text, "Duration: "@, i)
    &&& i + 19 <= text.len()
    &&& all_digits(text.subrange(i + 10, i + 12))
    &&& text[i + 12] == ':'
    &&& all_digits(text.subrange(i + 13, i + 15))
    &&& text[i + 15] == ':'
    &&& all_digits(text.subrange(i + 16, i + 18))
    &&& text[i + 18] == '.'
}

/// The running time that stands at `i`, in seconds.
pub open spec fn duration_value(text: Seq<char>, i: int) -> int {
    (two_digits(text, i + 10) * 60 + two_digits(text, i + 13)) * 60 + two_digits(text, i + 16)
}

/// How many digits stand in a row from position `from` on.
pub open spec fn digit_run(text: Seq<char>, from: int) -> nat
    decreases text.len() - from,
{
    if 0 <= from < text.len() && is_digit(text[from]) {
        1 + digit_run(text, from + 1)
    } else {
        0
    }
}

/// The number that the digits in a row from `from` on denote.
pub open spec fn run_value(text: Seq<char>, from: int) -> int {
    digits_value(text.subrange(from, from + digit_run(text, from)))
}

/// True when a picture size stands in `text` from position `i` on: a comma
/// and a space, the width, an `x`, the height, a space and an opening
/// bracket; width and height of one digit or more, and both numbers that 32
/// bits hold.
pub open spec fn resolution_at(text: Seq<char>, i: int) -> bool {
    let w = i + 2;
    let x = w + digit_run(text, w);
    let h = x + 1;
    let end = h + digit_run(text, h);
    &&& 0 <= i
    &&& end + 2 <= text.len()
    &&& text[i] == ','
    &&& text[i + 1] == ' '
    &&& digit_run(text, w) >= 1
    &&& text[x] == 'x'
    &&& digit_run(text, h) >= 1
    &&& text[end] == ' '
    &&& text[end + 1] == '['
    &&& run_value(text, w) <= u32::MAX
    &&& run_value(text, h) <= u32::MAX
}

/// The width that stands at `i`.
pub open spec fn width_at(text: Seq<char>, i: int) -> int {
    run_value(text, i + 2)
}

/// The height that stands at `i`.
pub open spec fn height_at(text: Seq<char>, i: int) -> int {
    run_value(text, i + 3 + digit_run(text, i + 2))
}

/// True when `i` is the first position at which a running time stands.
pub open spec fn first_duration(text: Seq<char>, i: int) -> bool {
    duration_at(text, i) && forall|j: int| 0 <= j < i ==> !duration_at(text, j)
}

/// True when `i` is the first position at which a picture size stands.
pub open spec fn first_resolution(text: Seq<char>, i: int) -> bool {
    resolution_at(text, i) && forall|j: int| 0 <= j < i ==> !resolution_at(text, j)
}

/// True when `stats` is what the report `text` says: the first running time
/// and the first picture size in it.
pub open spec fn reported(text: Seq<char>, stats: VideoStats) -> bool {
    exists|d: int, r: int|
        {
            &&& #[trigger] first_duration(text, d)
            &&& #[trigger] first_resolution(text, r)
            &&& stats.duration == duration_value(text, d)
            &&& stats.width == width_at(text, r)
            &&& stats.height == height_at(text, r)
        }
}

/// The digits in a row from `from` on: how many they are, and the number
/// that they denote where 32 bits hold it.
fn scan_number(chars: &Vec<char>, from: usize) -> (found: (usize, Option<u32>))
    requires
        from <= chars.len(),
    ensures
        found.0 == digit_run(chars@, from as int),
        from + found.0 <= chars.len(),
        match found.1 {
            Some(n) => n == run_value(chars@, from as int),
            None => run_value(chars@, from as int) > u32::MAX,
        },
{
    let mut j: usize = from;
    let mut value: u64 = 0;
    let mut big = false;
    proof {
        assert(chars@.subrange(from as int, from as int) =~= Seq::<char>::empty());
    }
    while j < chars.len() && is_digit_char(chars[j])
        invariant
            from <= j <= chars.len(),
            digit_run(chars@, from as int) == (j - from) + digit_run(chars@, j as int),
            all_digits(chars@.subrange(from as int, j as int)),
            !big ==> value == digits_value(chars@.subrange(from as int, j as int)),
            !big ==> value <= u32::MAX,
            big ==> digits_value(chars@.subrange(from as int, j as int)) > u32::MAX,
        decreases chars.len() - j,
    {
        let d: u64 = (chars[j] as u32 - 0x30) as u64;
        let ghost upto = chars@.subrange(from as int, j + 1);
        proof {
            assert(upto.drop_last() =~= chars@.subrange(from as int, j as int));
            assert(upto.last() == chars@[j as int]);
            assert forall|k: int| 0 <= k < upto.len() implies is_digit(#[trigger] upto[k]) by {
                if k < j - from {
                    assert(chars@.subrange(from as int, j as int)[k] == upto[k]);
                }
            }
        }
        if !big {
            value = value * 10 + d;
            if value > 0xFFFF_FFFF {
                big = true;
            }
        } else {
            proof {
                lemma_digits_grow(upto, upto.len() - 1);
                assert(upto.take(upto.len() - 1) =~= upto.drop_last());
            }
        }
        j += 1;
    }
    proof {
        assert(digit_run(chars@, j as int) == 0);
    }
    if big {
        (j - from, None)
    } else {
        (j - from, Some(value as u32))
    }
}

/// Whether `c` is one of the ten ASCII digits.
fn is_digit_char(c: char) -> (b: bool)
    ensures
        b == is_digit(c),
{
    let v: u32 = c as u32;
    0x30 <= v && v <= 0x39
}

/// The number that the two characters at `at` denote, where both are digits.
fn read_two(chars: &Vec<char>, at: usize) -> (value: Option<u32>)
    requires
        at + 2 <= chars.len(),
    ensures
        value is Some <==> all_digits(chars@.subrange(at as int, at + 2)),
        value matches Some(n) ==> n == two_digits(chars@, at as int) && n <= 99,
{
    let ghost pair = chars@.subrange(at as int, at + 2);
    proof {
        assert(pair[0] == chars@[at as int]);
        assert(pair[1] == chars@[at + 1]);
        assert(pair.drop_last().drop_last() =~= Seq::<char>::empty());
        assert(pair.drop_last().last() == pair[0]);
        reveal_with_fuel(digits_value, 3);
    }
    if is_digit_char(chars[at]) && is_digit_char(chars[at + 1]) {
        let high: u32 = chars[at] as u32 - 0x30;
        let low: u32 = chars[at + 1] as u32 - 0x30;
        Some(high * 10 + low)
    } else {
        None
    }
}

/// The running time that stands at `i`, if one does.
fn duration_here(chars: &Vec<char>, word: &Vec<char>, i: usize) -> (seconds: Option<u32>)
    requires
        word@ == "Duration: "@,
    ensures
        seconds is Some <==> duration_at(chars@, i as int),
        seconds matches Some(n) ==> n == duration_value(chars@, i as int),
{
    proof {
        reveal_strlit("Duration: ");
    }
    if !matches_at(chars, word, i) {
        return None;
    }
    if chars.len() - i < 19 {
        return None;
    }
    if chars[i + 12] != ':' || chars[i + 15] != ':' || chars[i + 18] != '.' {
        return None;
    }
    match (read_two(chars, i + 10), read_two(chars, i + 13), read_two(chars, i + 16)) {
        (Some(hours), Some(minutes), Some(seconds)) => Some(
            (hours * 60 + minutes) * 60 + seconds,
        ),
        _ => None,
    }
}

/// The picture size that stands at `i`, if one does: width, then height.
fn resolution_here(chars: &Vec<char>, i: usize) -> (size: Option<(u32, u32)>)
    ensures
        size is Some <==> resolution_at(chars@, i as int),
        size matches Some(s) ==> s.0 == width_at(chars@, i as int) && s.1 == height_at(
            chars@,
            i as int,
        ),
{
    let len = chars.len();
    if len < 2 || i > len - 2 {
        proof {
            assert(!resolution_at(chars@, i as int));
        }
        return None;
    }
    if chars[i] != ',' || chars[i + 1] != ' ' {
        return None;
    }
    let (a, width) = scan_number(chars, i + 2);
    let x = i + 2 + a;
    if a == 0 || x >= len || chars[x] != 'x' {
        return None;
    }
    let (b, height) = scan_number(chars, x + 1);
    let end = x + 1 + b;
    if b == 0 || len - end < 2 || chars[end] != ' ' || chars[end + 1] != '[' {
        return None;
    }
    match (width, height) {
        (Some(w), Some(h)) => Some((w, h)),
        _ => None,
    }
}

impl VideoStats {
    /// Reads the statistics of a video from what the probe printed: the
    /// first running time and the first picture size in it.
    pub fn load(output: &str) -> (result: Result<VideoStats, ProbeError>)
        ensures
            match result {
                Ok(stats) => reported(output@, stats),
                Err(ProbeError::NoDuration) => forall|i: int| !duration_at(output@, i),
                Err(ProbeError::NoResolution) => (exists|i: int| duration_at(output@, i))
                    && forall|i: int| !resolution_at(output@, i),
            },
    {
        let chars = chars_of(output);
        let word = chars_of("Duration: ");
        let mut duration: Option<u32> = None;
        let mut i: usize = 0;
        while i < chars.len() && duration.is_none()
            invariant
                i <= chars.len(),
                word@ == "Duration: "@,
                duration is None ==> forall|j: int| 0 <= j < i ==> !duration_at(chars@, j),
                duration matches Some(n) ==> i > 0 && first_duration(chars@, i - 1) && n
                    == duration_value(chars@, i - 1),
            decreases chars.len() - i,
        {
            duration = duration_here(&chars, &word, i);
            i += 1;
        }
        let seconds = match duration {
            Some(n) => n,
            None => {
                return Err(ProbeError::NoDuration);
            },
        };
        let ghost d = i - 1;
        let mut size: Option<(u32, u32)> = None;
        let mut k: usize = 0;
        while k < chars.len() && size.is_none()
            invariant
                k <= chars.len(),
                size is None ==> forall|j: int| 0 <= j < k ==> !resolution_at(chars@, j),
                size matches Some(s) ==> k > 0 && first_resolution(chars@, k - 1) && s.0
                    == width_at(chars@, k - 1) && s.1 == height_at(chars@, k - 1),
            decreases chars.len() - k,
        {
            size = resolution_here(&chars, k);
            k += 1;
        }
        match size {
            Some((width, height)) => {
                let stats = VideoStats { height, width, duration: seconds };
                proof {
                    assert(first_duration(chars@, d) && first_resolution(chars@, k - 1));
                }
                Ok(stats)
            },
            None => {
                proof {
                    assert(duration_at(chars@, d));
                }
                Err(ProbeError::NoResolution)
            },
        }
    }
}

impl ProbeError {
    /// The error in words.
    pub fn message(&self) -> (text: String)
        ensures
            text@ == match *self {
                ProbeError::NoDuration => "duration not found in ffprobe output"@,
                ProbeError::NoResolution => "resolution not found in ffprobe output"@,
            },
    {
        match self {
            ProbeError::NoDuration => "duration not found in ffprobe output".to_owned(),
            ProbeError::NoResolution => "resolution not found in ffprobe output".to_owned(),
        }
    }
}

} // verus!
