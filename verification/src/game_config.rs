//! The video mode of Helldivers 2, read from the game's `user_settings.config`.
//!
//! In exclusive fullscreen the game minimises itself whenever any window
//! draws over it, so the overlay only works in borderless fullscreen: the app
//! detects the mode and warns instead of letting the overlay break the match.
//! Reading the file is the caller's business; here is what is read from it.

use vstd::prelude::*;
use crate::text;

verus! {

/// Name of the game's configuration file.
pub const CONFIG_FILE: &'static str = "user_settings.config";

/// What the app reads of the game's video settings.
#[derive(Debug, Clone, Copy, Default, PartialEq, Eq)]
pub struct Video {
    /// Exclusive fullscreen, the mode in which the overlay brings the game down.
    pub exclusive_fullscreen: bool,
    /// The game's own FPS limit. `None` without a limit (`max_fps = 0`) or
    /// without the key in the file.
    pub max_fps: Option<u32>,
    pub vsync: Option<bool>,
    pub resolution: Option<(u32, u32)>,
}

/// The lines of the text, split at `\n`: the last one is the line in
/// progress (a `\r` before the `\n` stays at the end of its line, where no
/// key or value looks).
pub open spec fn split_lines(t: Seq<char>) -> Seq<Seq<char>>
    decreases t.len(),
{
    if t.len() == 0 {
        seq![Seq::empty()]
    } else {
        let prev = split_lines(t.drop_last());
        if t.last() == '\n' {
            prev.push(Seq::empty())
        } else {
            prev.update(prev.len() - 1, prev.last().push(t.last()))
        }
    }
}

/// The value of a `key = value` line, without the blanks on its left.
pub open spec fn line_value(line: Seq<char>, key: Seq<char>) -> Option<Seq<char>> {
    let r1 = text::trim_start(line);
    if text::starts_with(r1, key) {
        let r2 = text::trim_start(r1.skip(key.len() as int));
        if r2.len() > 0 && r2[0] == '=' {
            Some(text::trim_start(r2.skip(1)))
        } else {
            None
        }
    } else {
        None
    }
}

/// The value on the first line that reads `key = value`.
pub open spec fn first_value(lines: Seq<Seq<char>>, key: Seq<char>) -> Option<Seq<char>>
    decreases lines.len(),
{
    if lines.len() == 0 {
        None
    } else {
        match line_value(lines[0], key) {
            Some(v) => Some(v),
            None => first_value(lines.drop_first(), key),
        }
    }
}

/// Some line reads `key = true`. The comparison is at the start of the line:
/// that is what keeps `borderless_fullscreen` from matching `fullscreen`.
pub open spec fn spec_is_true(t: Seq<char>, key: Seq<char>) -> bool {
    exists|i: int| 0 <= i < split_lines(t).len() && (#[trigger] line_value(split_lines(t)[i], key) matches Some(v)
        && text::starts_with(v, "true"@))
}

/// Exclusive fullscreen: `fullscreen = true` without `borderless_fullscreen
/// = true`. Borderless sets both keys in the game's file, and the border key
/// decides: only exclusive has `fullscreen = true` alone.
pub open spec fn spec_parse(t: Seq<char>) -> bool {
    spec_is_true(t, "fullscreen"@) && !spec_is_true(t, "borderless_fullscreen"@)
}

/// The number of ASCII digits at the start.
pub open spec fn digit_run(s: Seq<char>) -> int
    decreases s.len(),
{
    if s.len() > 0 && text::is_ascii_digit(s[0]) {
        1 + digit_run(s.drop_first())
    } else {
        0
    }
}

/// The value of a string of decimal digits.
pub open spec fn digits_value(d: Seq<char>) -> nat
    decreases d.len(),
{
    if d.len() == 0 {
        0
    } else {
        digits_value(d.drop_last()) * 10 + ((d.last() as u32 - 48) as nat)
    }
}

/// The number the digits at the start of the value spell, when there are
/// some and it fits in a `u32`.
pub open spec fn spec_number(t: Seq<char>, key: Seq<char>) -> Option<u32> {
    match first_value(split_lines(t), key) {
        Some(raw) => {
            let d = raw.take(digit_run(raw));
            if d.len() == 0 || digits_value(d) > u32::MAX {
                None
            } else {
                Some(digits_value(d) as u32)
            }
        },
        None => None,
    }
}

/// `true` or `false` at the start of the value.
pub open spec fn spec_flag(t: Seq<char>, key: Seq<char>) -> Option<bool> {
    match first_value(split_lines(t), key) {
        Some(raw) => if text::starts_with(raw, "true"@) {
            Some(true)
        } else if text::starts_with(raw, "false"@) {
            Some(false)
        } else {
            None
        },
        None => None,
    }
}

/// All the video keys the app uses, from one reading.
pub open spec fn spec_video(t: Seq<char>) -> Video {
    Video {
        exclusive_fullscreen: spec_parse(t),
        max_fps: match spec_number(t, "max_fps"@) {
            Some(f) => if f > 0 { Some(f) } else { None },
            None => None,
        },
        vsync: spec_flag(t, "vsync"@),
        resolution: match (spec_number(t, "screen_width"@), spec_number(t, "screen_height"@)) {
            (Some(w), Some(h)) => Some((w, h)),
            _ => None,
        },
    }
}

fn lines_of(t: &str) -> (r: Vec<Vec<char>>)
    ensures
        r@.map_values(|l: Vec<char>| l@) == split_lines(t@),
{
    let cs = text::chars_of(t);
    let mut lines: Vec<Vec<char>> = Vec::new();
    let mut cur: Vec<char> = Vec::new();
    let mut i: usize = 0;
    assert(cs@.take(0) =~= Seq::<char>::empty());
    while i < cs.len()
        invariant
            i <= cs@.len(),
            cs@ == t@,
            lines@.map_values(|l: Vec<char>| l@).push(cur@) == split_lines(cs@.take(i as int)),
        decreases cs.len() - i,
    {
        let ghost prev = split_lines(cs@.take(i as int));
        assert(cs@.take(i + 1).drop_last() =~= cs@.take(i as int));
        assert(cs@.take(i + 1).last() == cs@[i as int]);
        if cs[i] == '\n' {
            let done = cur;
            let ghost lb = lines@;
            lines.push(done);
            cur = Vec::new();
            assert(lines@.map_values(|l: Vec<char>| l@) =~= lb.map_values(|l: Vec<char>| l@).push(done@));
            assert(lines@.map_values(|l: Vec<char>| l@).push(cur@) =~= prev.push(Seq::empty()));
        } else {
            let ghost cb = cur@;
            cur.push(cs[i]);
            assert(lines@.map_values(|l: Vec<char>| l@).push(cur@) =~= prev.update(prev.len() - 1, prev.last().push(cs@[i as int])));
        }
        i += 1;
    }
    assert(cs@.take(cs@.len() as int) =~= cs@);
    let ghost lb = lines@;
    lines.push(cur);
    assert(lines@.map_values(|l: Vec<char>| l@) =~= lb.map_values(|l: Vec<char>| l@).push(cur@));
    lines
}

fn line_value_exec(line: &Vec<char>, key: &Vec<char>) -> (r: Option<Vec<char>>)
    ensures
        match r {
            Some(v) => line_value(line@, key@) == Some(v@),
            None => line_value(line@, key@) is None,
        },
{
    let r1 = text::trim_start_chars(line);
    if !text::chars_starts_with(&r1, key) {
        return None;
    }
    let after = text::slice_chars(&r1, key.len(), r1.len());
    assert(after@ =~= r1@.skip(key@.len() as int));
    let r2 = text::trim_start_chars(&after);
    if r2.len() > 0 && r2[0] == '=' {
        let rest = text::slice_chars(&r2, 1, r2.len());
        assert(rest@ =~= r2@.skip(1));
        Some(text::trim_start_chars(&rest))
    } else {
        None
    }
}

/// The value on the first `key = value` line, without the blanks on its left.
fn value(t: &str, key: &str) -> (r: Option<Vec<char>>)
    ensures
        match r {
            Some(v) => first_value(split_lines(t@), key@) == Some(v@),
            None => first_value(split_lines(t@), key@) is None,
        },
{
    let lines = lines_of(t);
    let k = text::chars_of(key);
    let ghost ls = lines@.map_values(|l: Vec<char>| l@);
    let mut i: usize = 0;
    assert(ls.skip(0) =~= ls);
    while i < lines.len()
        invariant
            i <= lines@.len(),
            ls == lines@.map_values(|l: Vec<char>| l@),
            ls == split_lines(t@),
            k@ == key@,
            first_value(ls, key@) == first_value(ls.skip(i as int), key@),
        decreases lines.len() - i,
    {
        assert(ls.skip(i as int)[0] == lines@[i as int]@);
        match line_value_exec(&lines[i], &k) {
            Some(v) => {
                return Some(v);
            },
            None => {},
        }
        assert(ls.skip(i as int).drop_first() =~= ls.skip(i + 1));
        i += 1;
    }
    assert(ls.skip(i as int) =~= Seq::<Seq<char>>::empty());
    None
}

/// Some line says `key = true`.
fn is_true(t: &str, key: &str) -> (r: bool)
    ensures
        r == spec_is_true(t@, key@),
{
    let lines = lines_of(t);
    let k = text::chars_of(key);
    let yes = text::chars_of("true");
    let ghost ls = lines@.map_values(|l: Vec<char>| l@);
    let mut i: usize = 0;
    while i < lines.len()
        invariant
            i <= lines@.len(),
            ls == lines@.map_values(|l: Vec<char>| l@),
            ls == split_lines(t@),
            k@ == key@,
            yes@ == "true"@,
            forall|j: int| 0 <= j < i ==> !(#[trigger] line_value(ls[j], key@) matches Some(v) && text::starts_with(v, "true"@)),
        decreases lines.len() - i,
    {
        assert(ls[i as int] == lines@[i as int]@);
        match line_value_exec(&lines[i], &k) {
            Some(v) => {
                if text::chars_starts_with(&v, &yes) {
                    return true;
                }
            },
            None => {},
        }
        i += 1;
    }
    false
}

/// Exclusive fullscreen: `fullscreen = true` without
/// `borderless_fullscreen = true`, both read at the start of a line.
pub fn parse(text: &str) -> (r: bool)
    ensures
        r == spec_parse(text@),
{
    is_true(text, "fullscreen") && !is_true(text, "borderless_fullscreen")
}

proof fn lemma_digit_run(s: Seq<char>)
    ensures
        0 <= digit_run(s) <= s.len(),
        forall|i: int| 0 <= i < digit_run(s) ==> text::is_ascii_digit(#[trigger] s[i]),
        digit_run(s) < s.len() ==> !text::is_ascii_digit(s[digit_run(s)]),
    decreases s.len(),
{
    if s.len() > 0 && text::is_ascii_digit(s[0]) {
        lemma_digit_run(s.drop_first());
        assert forall|i: int| 0 <= i < digit_run(s) implies text::is_ascii_digit(#[trigger] s[i]) by {
            if i > 0 {
                assert(s[i] == s.drop_first()[i - 1]);
            }
        }
    }
}

proof fn lemma_digits_grow(d: Seq<char>, k: int)
    requires
        0 <= k <= d.len(),
    ensures
        digits_value(d.take(k)) <= digits_value(d),
    decreases d.len() - k,
{
    if k < d.len() {
        lemma_digits_grow(d, k + 1);
        assert(d.take(k + 1).drop_last() =~= d.take(k));
    } else {
        assert(d.take(k) =~= d);
    }
}

/// The number at the start of a value: its leading digits, when there are
/// some and they fit in a `u32` (`str::parse::<u32>`).
fn leading_number(raw: &Vec<char>) -> (r: Option<u32>)
    ensures
        ({
            let d = raw@.take(digit_run(raw@));
            r == if d.len() == 0 || digits_value(d) > u32::MAX { None::<u32> } else { Some(digits_value(d) as u32) }
        }),
{
    proof {
        lemma_digit_run(raw@);
    }
    let ghost d = raw@.take(digit_run(raw@));
    let mut acc: u64 = 0;
    let mut i: usize = 0;
    assert(d.take(0) =~= Seq::<char>::empty());
    while i < raw.len() && text::char_is_ascii_digit(raw[i])
        invariant
            i <= digit_run(raw@),
            0 <= digit_run(raw@) <= raw@.len(),
            d == raw@.take(digit_run(raw@)),
            forall|j: int| 0 <= j < digit_run(raw@) ==> text::is_ascii_digit(#[trigger] raw@[j]),
            digit_run(raw@) < raw@.len() ==> !text::is_ascii_digit(raw@[digit_run(raw@)]),
            acc == digits_value(d.take(i as int)),
            acc <= u32::MAX,
        decreases raw.len() - i,
    {
        assert(d.take(i + 1).drop_last() =~= d.take(i as int));
        assert(d.take(i + 1).last() == raw@[i as int]);
        let digit = (raw[i] as u32 - 48) as u64;
        acc = acc * 10 + digit;
        if acc > 0xffff_ffff {
            proof {
                lemma_digits_grow(d, i + 1);
            }
            return None;
        }
        i += 1;
    }
    assert(i == digit_run(raw@));
    assert(d.take(i as int) =~= d);
    if i == 0 {
        None
    } else {
        Some(acc as u32)
    }
}

fn number(t: &str, key: &str) -> (r: Option<u32>)
    ensures
        r == spec_number(t@, key@),
{
    match value(t, key) {
        Some(raw) => leading_number(&raw),
        None => None,
    }
}

fn flag(t: &str, key: &str) -> (r: Option<bool>)
    ensures
        r == spec_flag(t@, key@),
{
    proof {
        reveal_strlit("true");
        reveal_strlit("false");
    }
    match value(t, key) {
        Some(raw) => {
            let yes = text::chars_of("true");
            let no = text::chars_of("false");
            if text::chars_starts_with(&raw, &yes) {
                Some(true)
            } else if text::chars_starts_with(&raw, &no) {
                Some(false)
            } else {
                None
            }
        },
        None => None,
    }
}

/// All the video keys the app uses, from one reading.
pub fn parse_video(text: &str) -> (v: Video)
    ensures
        v == spec_video(text@),
{
    let fps = match number(text, "max_fps") {
        Some(f) => if f > 0 { Some(f) } else { None },
        None => None,
    };
    let resolution = match (number(text, "screen_width"), number(text, "screen_height")) {
        (Some(w), Some(h)) => Some((w, h)),
        _ => None,
    };
    Video { exclusive_fullscreen: parse(text), max_fps: fps, vsync: flag(text, "vsync"), resolution }
}

/// The game is set to exclusive fullscreen. Without a readable file the
/// answer is `false`: a false warning would get in the way more than none.
pub fn is_exclusive_fullscreen(video: Option<Video>) -> (r: bool)
    ensures
        r == (video matches Some(v) && v.exclusive_fullscreen),
{
    match video {
        Some(v) => v.exclusive_fullscreen,
        None => false,
    }
}

/// The FPS limit set in the game, if any.
pub fn max_fps(video: Option<Video>) -> (r: Option<u32>)
    ensures
        r == (match video {
            Some(v) => v.max_fps,
            None => None,
        }),
{
    match video {
        Some(v) => v.max_fps,
        None => None,
    }
}

} // verus!
