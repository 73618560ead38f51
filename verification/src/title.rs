//! The title parser: turns one free-text episode announcement title into
//! structured metadata.  A title names an episode either with a combined
//! `S{season}E{episode}` token (digits possibly zero-padded, at most four
//! per number) or with a plain delimited episode number (season then
//! defaults to 1).  Everything before the number is the show name,
//! everything after it an optional episode title; both are trimmed of
//! surrounding spaces and dashes.  A title from which no episode number
//! can be read is not an error of the pipeline: the item is skipped.

use vstd::prelude::*;
use vstd::string::*;
use crate::renamer::{BangumiInfo, EpisodeMeta};
use crate::strutil::{is_digit, digit_val, num_val, pow10, lemma_num_val_bound};

verus! {

/// Failures of fetching or parsing one feed; `UnrecognizedEpisode` is the
/// dominant expected case and only skips the item.
#[derive(Debug)]
pub enum ParsingError {
    /// The feed document could not be fetched: URL and cause.
    DownloadFailed(String, String),
    /// The feed document is malformed.
    InvalidRss(String),
    /// No episode number could be read from the title.
    UnrecognizedEpisode(String),
}

/// The number of consecutive decimal digits of `s` starting at `i`.
pub open spec fn digit_run_len(s: Seq<char>, i: int) -> int
    decreases s.len() - i,
{
    if 0 <= i < s.len() && is_digit(s[i]) {
        1 + digit_run_len(s, i + 1)
    } else {
        0
    }
}

pub proof fn lemma_digit_run_chars(s: Seq<char>, i: int)
    requires
        0 <= i <= s.len(),
    ensures
        0 <= digit_run_len(s, i),
        i + digit_run_len(s, i) <= s.len(),
        forall|k: int| i <= k < i + digit_run_len(s, i) ==> is_digit(s[k]),
        i + digit_run_len(s, i) == s.len() || !is_digit(s[i + digit_run_len(s, i)]),
    decreases s.len() - i,
{
    if 0 <= i < s.len() && is_digit(s[i]) {
        lemma_digit_run_chars(s, i + 1);
    }
}

pub proof fn lemma_digit_run_exact(s: Seq<char>, i: int, n: int)
    requires
        0 <= i,
        0 <= n,
        i + n <= s.len(),
        forall|k: int| i <= k < i + n ==> is_digit(s[k]),
        i + n == s.len() || !is_digit(s[i + n]),
    ensures
        digit_run_len(s, i) == n,
    decreases n,
{
    if n > 0 {
        lemma_digit_run_exact(s, i + 1, n - 1);
    }
}

/// Whether a combined season/episode token `S<digits>E<digits>` stands at
/// position `i`, each digit run maximal and one to four digits long.
pub open spec fn se_token_at(s: Seq<char>, i: int) -> bool {
    let sd = digit_run_len(s, i + 1);
    let ed = digit_run_len(s, i + 2 + sd);
    &&& 0 <= i < s.len()
    &&& s[i] == 'S'
    &&& 1 <= sd <= 4
    &&& i + 1 + sd < s.len()
    &&& s[i + 1 + sd] == 'E'
    &&& 1 <= ed <= 4
}

/// The least position at or after `i` holding a season/episode token, or
/// `-1` when there is none.
pub open spec fn first_se_from(s: Seq<char>, i: int) -> int
    decreases s.len() - i,
{
    if 0 <= i < s.len() {
        if se_token_at(s, i) {
            i
        } else {
            first_se_from(s, i + 1)
        }
    } else {
        -1
    }
}

pub open spec fn is_ascii_letter(c: char) -> bool {
    (65 <= c as u32 <= 90) || (97 <= c as u32 <= 122)
}

/// Whether a plain delimited episode number stands at position `p`: a
/// maximal run of one to four digits, neither preceded nor followed by an
/// ASCII letter, and not preceded by another digit.
pub open spec fn plain_run_at(s: Seq<char>, p: int) -> bool {
    let d = digit_run_len(s, p);
    &&& 0 <= p < s.len()
    &&& is_digit(s[p])
    &&& (p == 0 || (!is_digit(s[p - 1]) && !is_ascii_letter(s[p - 1])))
    &&& 1 <= d <= 4
    &&& (p + d == s.len() || !is_ascii_letter(s[p + d]))
}

/// The least position at or after `i` holding a plain episode number, or
/// `-1` when there is none.
pub open spec fn first_plain_from(s: Seq<char>, i: int) -> int
    decreases s.len() - i,
{
    if 0 <= i < s.len() {
        if plain_run_at(s, i) {
            i
        } else {
            first_plain_from(s, i + 1)
        }
    } else {
        -1
    }
}

/// Characters stripped from the ends of show names and episode titles.
pub open spec fn is_trim_char(c: char) -> bool {
    c == ' ' || c == '-'
}

pub open spec fn trim_end(t: Seq<char>) -> Seq<char>
    decreases t.len(),
{
    if t.len() > 0 && is_trim_char(t.last()) {
        trim_end(t.drop_last())
    } else {
        t
    }
}

pub open spec fn trim_start(t: Seq<char>) -> Seq<char>
    decreases t.len(),
{
    if t.len() > 0 && is_trim_char(t.first()) {
        trim_start(t.drop_first())
    } else {
        t
    }
}

/// `t` without its leading and trailing spaces and dashes.
pub open spec fn trimmed(t: Seq<char>) -> Seq<char> {
    trim_start(trim_end(t))
}

/// The metadata read off a title whose first season/episode token stands
/// at `i`; `None` when the show name before the token trims to nothing.
pub open spec fn se_meta(s: Seq<char>, i: int) -> Option<EpisodeMeta> {
    let sd = digit_run_len(s, i + 1);
    let ed = digit_run_len(s, i + 2 + sd);
    let show = trimmed(s.subrange(0, i));
    let rest = trimmed(s.subrange(i + 2 + sd + ed, s.len() as int));
    if show.len() == 0 {
        None
    } else {
        Some(EpisodeMeta {
            show_name: show,
            episode_name: if rest.len() > 0 {
                Some(rest)
            } else {
                None
            },
            display_name: None,
            season: num_val(s.subrange(i + 1, i + 1 + sd)) as u64,
            episode: num_val(s.subrange(i + 2 + sd, i + 2 + sd + ed)) as u64,
            category: None,
        })
    }
}

/// The metadata read off a title whose first plain episode number stands
/// at `p`; the season defaults to 1.
pub open spec fn plain_meta(s: Seq<char>, p: int) -> Option<EpisodeMeta> {
    let d = digit_run_len(s, p);
    let show = trimmed(s.subrange(0, p));
    let rest = trimmed(s.subrange(p + d, s.len() as int));
    if show.len() == 0 {
        None
    } else {
        Some(EpisodeMeta {
            show_name: show,
            episode_name: if rest.len() > 0 {
                Some(rest)
            } else {
                None
            },
            display_name: None,
            season: 1,
            episode: num_val(s.subrange(p, p + d)) as u64,
            category: None,
        })
    }
}

/// What parsing a title yields: the metadata at the first season/episode
/// token, else at the first plain episode number, else nothing.
pub open spec fn parse_spec(s: Seq<char>) -> Option<EpisodeMeta> {
    if first_se_from(s, 0) >= 0 {
        se_meta(s, first_se_from(s, 0))
    } else if first_plain_from(s, 0) >= 0 {
        plain_meta(s, first_plain_from(s, 0))
    } else {
        None
    }
}

pub proof fn lemma_first_se_from_skip(s: Seq<char>, k: int, i: int)
    requires
        0 <= k <= i < s.len(),
        se_token_at(s, i),
        forall|j: int| k <= j < i ==> !se_token_at(s, j),
    ensures
        first_se_from(s, k) == i,
    decreases i - k,
{
    if k < i {
        lemma_first_se_from_skip(s, k + 1, i);
    }
}

/// Law: a title of the shape `{name}S{digits}E{digits}{rest}` parses to
/// exactly those season and episode values, with the trimmed `name` as the
/// show and the trimmed `rest` as the episode title — provided the name
/// never puts a digit right after an `S`, the name does not trim away to
/// nothing, and the rest does not begin with a digit.
pub proof fn lemma_parse_se_title(name: Seq<char>, sd: Seq<char>, ed: Seq<char>, rest: Seq<char>)
    requires
        1 <= sd.len() <= 4,
        1 <= ed.len() <= 4,
        forall|k: int| 0 <= k < sd.len() ==> is_digit(sd[k]),
        forall|k: int| 0 <= k < ed.len() ==> is_digit(ed[k]),
        forall|j: int|
            0 <= j < name.len() ==> ((#[trigger] name[j]) == 'S' ==> (j + 1 < name.len()
                ==> !is_digit(name[j + 1]))),
        trimmed(name).len() > 0,
        rest.len() == 0 || !is_digit(rest.first()),
    ensures
        ({
            let s = name + seq!['S'] + sd + seq!['E'] + ed + rest;
            parse_spec(s) == Some(EpisodeMeta {
                show_name: trimmed(name),
                episode_name: if trimmed(rest).len() > 0 {
                    Some(trimmed(rest))
                } else {
                    None
                },
                display_name: None,
                season: num_val(sd) as u64,
                episode: num_val(ed) as u64,
                category: None,
            })
        }),
{
    let s = name + seq!['S'] + sd + seq!['E'] + ed + rest;
    let i = name.len() as int;
    let sdl = sd.len() as int;
    let edl = ed.len() as int;
    assert(s.len() == name.len() + 2 + sdl + edl + rest.len());
    assert(s[i] == 'S');
    assert forall|k: int| i + 1 <= k < i + 1 + sdl implies is_digit(s[k]) by {
        assert(s[k] == sd[k - i - 1]);
    }
    assert(s[i + 1 + sdl] == 'E');
    assert(!is_digit('E'));
    lemma_digit_run_exact(s, i + 1, sdl);
    assert forall|k: int| i + 2 + sdl <= k < i + 2 + sdl + edl implies is_digit(s[k]) by {
        assert(s[k] == ed[k - i - 2 - sdl]);
    }
    if rest.len() > 0 {
        assert(s[i + 2 + sdl + edl] == rest.first());
    }
    lemma_digit_run_exact(s, i + 2 + sdl, edl);
    assert(se_token_at(s, i));
    assert forall|j: int| 0 <= j < i implies !se_token_at(s, j) by {
        assert(s[j] == name[j]);
        if name[j] == 'S' {
            if j + 1 < i {
                assert(s[j + 1] == name[j + 1]);
                assert(!is_digit(s[j + 1]));
            } else {
                assert(s[j + 1] == 'S');
                assert(!is_digit(s[j + 1]));
            }
            assert(digit_run_len(s, j + 1) == 0);
        }
    }
    lemma_first_se_from_skip(s, 0, i);
    assert(s.subrange(0, i) =~= name);
    assert(s.subrange(i + 1, i + 1 + sdl) =~= sd);
    assert(s.subrange(i + 2 + sdl, i + 2 + sdl + edl) =~= ed);
    assert(s.subrange(i + 2 + sdl + edl, s.len() as int) =~= rest);
    reveal_with_fuel(pow10, 5);
    lemma_num_val_bound(sd);
    lemma_num_val_bound(ed);
    assert(pow10(sd.len() as nat) <= 10000) by {
        reveal_with_fuel(pow10, 5);
        if sd.len() == 1 {
        } else if sd.len() == 2 {
        } else if sd.len() == 3 {
        }
    }
    assert(pow10(ed.len() as nat) <= 10000) by {
        reveal_with_fuel(pow10, 5);
        if ed.len() == 1 {
        } else if ed.len() == 2 {
        } else if ed.len() == 3 {
        }
    }
}

/// Law: zero padding in the season and episode digits never changes the
/// parse — `S01E12` and `S1E12` yield the same metadata.
pub proof fn lemma_parse_zero_padding(name: Seq<char>, sd: Seq<char>, ed: Seq<char>, rest: Seq<char>)
    requires
        1 <= sd.len() <= 3,
        1 <= ed.len() <= 3,
        forall|k: int| 0 <= k < sd.len() ==> is_digit(sd[k]),
        forall|k: int| 0 <= k < ed.len() ==> is_digit(ed[k]),
        forall|j: int|
            0 <= j < name.len() ==> ((#[trigger] name[j]) == 'S' ==> (j + 1 < name.len()
                ==> !is_digit(name[j + 1]))),
        trimmed(name).len() > 0,
        rest.len() == 0 || !is_digit(rest.first()),
    ensures
        ({
            let plain = name + seq!['S'] + sd + seq!['E'] + ed + rest;
            let padded = name + seq!['S'] + (seq!['0'] + sd) + seq!['E'] + (seq!['0'] + ed) + rest;
            parse_spec(plain) == parse_spec(padded)
        }),
{
    lemma_parse_se_title(name, sd, ed, rest);
    assert forall|k: int| 0 <= k < (seq!['0'] + sd).len() implies is_digit((seq!['0'] + sd)[k]) by {
        if k > 0 {
            assert((seq!['0'] + sd)[k] == sd[k - 1]);
        }
    }
    assert forall|k: int| 0 <= k < (seq!['0'] + ed).len() implies is_digit((seq!['0'] + ed)[k]) by {
        if k > 0 {
            assert((seq!['0'] + ed)[k] == ed[k - 1]);
        }
    }
    lemma_parse_se_title(name, seq!['0'] + sd, seq!['0'] + ed, rest);
    crate::strutil::lemma_num_val_leading_zero(sd);
    crate::strutil::lemma_num_val_leading_zero(ed);
}

fn is_digit_char(c: char) -> (r: bool)
    ensures
        r == is_digit(c),
{
    let u = c as u32;
    48 <= u && u <= 57
}

fn is_letter_char(c: char) -> (r: bool)
    ensures
        r == is_ascii_letter(c),
{
    let u = c as u32;
    (65 <= u && u <= 90) || (97 <= u && u <= 122)
}

fn digit_run(s: &str, len: usize, i: usize) -> (r: usize)
    requires
        len == s@.len(),
        i <= len,
    ensures
        r as int == digit_run_len(s@, i as int),
        i + r <= len,
{
    let mut j = i;
    loop
        invariant
            i <= j <= len,
            len == s@.len(),
            digit_run_len(s@, i as int) == (j - i) + digit_run_len(s@, j as int),
        ensures
            i <= j <= len,
            digit_run_len(s@, j as int) == 0,
        decreases len - j,
    {
        if j >= len {
            break;
        }
        if !is_digit_char(s.get_char(j)) {
            break;
        }
        proof {
            assert(digit_run_len(s@, j as int) == 1 + digit_run_len(s@, j + 1));
        }
        j = j + 1;
    }
    proof {
        lemma_digit_run_chars(s@, i as int);
    }
    j - i
}

fn se_token_check(s: &str, len: usize, i: usize) -> (r: bool)
    requires
        len == s@.len(),
        i < len,
    ensures
        r == se_token_at(s@, i as int),
{
    if s.get_char(i) != 'S' {
        return false;
    }
    let sd = digit_run(s, len, i + 1);
    if sd < 1 || sd > 4 {
        return false;
    }
    if i + 1 + sd >= len {
        return false;
    }
    if s.get_char(i + 1 + sd) != 'E' {
        return false;
    }
    let ed = digit_run(s, len, i + 2 + sd);
    if ed < 1 || ed > 4 {
        return false;
    }
    true
}

fn plain_check(s: &str, len: usize, p: usize) -> (r: bool)
    requires
        len == s@.len(),
        p < len,
    ensures
        r == plain_run_at(s@, p as int),
{
    if !is_digit_char(s.get_char(p)) {
        return false;
    }
    if p > 0 {
        let b = s.get_char(p - 1);
        if is_digit_char(b) || is_letter_char(b) {
            return false;
        }
    }
    let d = digit_run(s, len, p);
    if d < 1 || d > 4 {
        return false;
    }
    if p + d < len {
        if is_letter_char(s.get_char(p + d)) {
            return false;
        }
    }
    true
}

fn find_se(s: &str, len: usize) -> (r: Option<usize>)
    requires
        len == s@.len(),
    ensures
        match r {
            Some(i) => i < len && first_se_from(s@, 0) == i as int && se_token_at(s@, i as int),
            None => first_se_from(s@, 0) == -1,
        },
{
    let mut i: usize = 0;
    while i < len
        invariant
            i <= len,
            len == s@.len(),
            first_se_from(s@, 0) == first_se_from(s@, i as int),
        decreases len - i,
    {
        if se_token_check(s, len, i) {
            return Some(i);
        }
        i = i + 1;
    }
    None
}

fn find_plain(s: &str, len: usize) -> (r: Option<usize>)
    requires
        len == s@.len(),
    ensures
        match r {
            Some(i) => i < len && first_plain_from(s@, 0) == i as int && plain_run_at(
                s@,
                i as int,
            ),
            None => first_plain_from(s@, 0) == -1,
        },
{
    let mut i: usize = 0;
    while i < len
        invariant
            i <= len,
            len == s@.len(),
            first_plain_from(s@, 0) == first_plain_from(s@, i as int),
        decreases len - i,
    {
        if plain_check(s, len, i) {
            return Some(i);
        }
        i = i + 1;
    }
    None
}

fn parse_num(s: &str, len: usize, i: usize, d: usize) -> (r: u64)
    requires
        len == s@.len(),
        i + d <= len,
        d <= 4,
        forall|k: int| i <= k < i + d ==> is_digit(s@[k]),
    ensures
        r as nat == num_val(s@.subrange(i as int, (i + d) as int)),
        r < 10000,
{
    proof {
        reveal_with_fuel(pow10, 5);
    }
    let mut v: u64 = 0;
    let mut j = i;
    proof {
        assert(s@.subrange(i as int, i as int) =~= Seq::<char>::empty());
    }
    while j < i + d
        invariant
            i <= j <= i + d,
            i + d <= len,
            d <= 4,
            len == s@.len(),
            forall|k: int| i <= k < i + d ==> is_digit(s@[k]),
            v as nat == num_val(s@.subrange(i as int, j as int)),
            v < pow10((j - i) as nat),
            pow10((j - i) as nat) <= 10000,
        decreases i + d - j,
    {
        proof {
            reveal_with_fuel(pow10, 5);
        }
        let c = s.get_char(j);
        let dv = (c as u32 - 48) as u64;
        proof {
            assert(is_digit(s@[j as int]));
            assert(dv == digit_val(s@[j as int]));
            assert(v < pow10((j - i) as nat) && pow10((j - i) as nat) <= 1000) by {
                assert((j - i) as nat <= 3);
            }
        }
        v = v * 10 + dv;
        proof {
            assert(s@.subrange(i as int, j + 1).drop_last() =~= s@.subrange(i as int, j as int));
            assert(s@.subrange(i as int, j + 1).last() == s@[j as int]);
        }
        j = j + 1;
    }
    v
}

fn trim_range(s: &str, len: usize, lo: usize, hi: usize) -> (r: (usize, usize))
    requires
        len == s@.len(),
        lo <= hi <= len,
    ensures
        lo <= r.0 <= r.1 <= hi,
        trimmed(s@.subrange(lo as int, hi as int)) == s@.subrange(r.0 as int, r.1 as int),
{
    let mut b = hi;
    loop
        invariant
            lo <= b <= hi <= len,
            len == s@.len(),
            trim_end(s@.subrange(lo as int, hi as int)) == trim_end(s@.subrange(lo as int, b as int)),
        ensures
            lo <= b <= hi,
            trim_end(s@.subrange(lo as int, hi as int)) == s@.subrange(lo as int, b as int),
        decreases b,
    {
        if b == lo {
            proof {
                assert(s@.subrange(lo as int, b as int).len() == 0);
            }
            break;
        }
        let c = s.get_char(b - 1);
        proof {
            assert(s@.subrange(lo as int, b as int).last() == s@[b - 1]);
        }
        if !(c == ' ' || c == '-') {
            break;
        }
        proof {
            assert(s@.subrange(lo as int, b as int).drop_last() =~= s@.subrange(
                lo as int,
                b - 1,
            ));
        }
        b = b - 1;
    }
    let mut a = lo;
    loop
        invariant
            lo <= a <= b <= len,
            len == s@.len(),
            trim_start(s@.subrange(lo as int, b as int)) == trim_start(s@.subrange(a as int, b as int)),
        ensures
            a <= b,
            trim_start(s@.subrange(lo as int, b as int)) == s@.subrange(a as int, b as int),
        decreases b - a,
    {
        if a == b {
            proof {
                assert(s@.subrange(a as int, b as int).len() == 0);
            }
            break;
        }
        let c = s.get_char(a);
        proof {
            assert(s@.subrange(a as int, b as int).first() == s@[a as int]);
        }
        if !(c == ' ' || c == '-') {
            break;
        }
        proof {
            assert(s@.subrange(a as int, b as int).drop_first() =~= s@.subrange(a + 1, b as int));
        }
        a = a + 1;
    }
    (a, b)
}

/// Parses one announcement title into episode metadata.  Succeeds exactly
/// when the title carries a recognizable episode number and a non-empty
/// show name before it; otherwise the item is reported unrecognized, with
/// the title carried in the error.
pub fn parse(title: &str) -> (r: Result<BangumiInfo, ParsingError>)
    ensures
        match r {
            Ok(info) => parse_spec(title@) == Some(info@),
            Err(e) => parse_spec(title@) is None && (e matches ParsingError::UnrecognizedEpisode(
                t,
            ) && t@ == title@),
        },
{
    let len = title.unicode_len();
    match find_se(title, len) {
        Some(i) => {
            proof {
                assert(se_token_at(title@, i as int));
                lemma_digit_run_chars(title@, i + 1);
            }
            let sd = digit_run(title, len, i + 1);
            proof {
                lemma_digit_run_chars(title@, i + 2 + sd);
            }
            let ed = digit_run(title, len, i + 2 + sd);
            let season = parse_num(title, len, i + 1, sd);
            let episode = parse_num(title, len, i + 2 + sd, ed);
            let (a, b) = trim_range(title, len, 0, i);
            if a == b {
                proof {
                    assert(trimmed(title@.subrange(0, i as int)).len() == 0);
                }
                return Err(ParsingError::UnrecognizedEpisode(title.to_owned()));
            }
            let show = title.substring_char(a, b).to_owned();
            let (c, d) = trim_range(title, len, i + 2 + sd + ed, len);
            let rest: Option<String> = if c == d {
                None
            } else {
                Some(title.substring_char(c, d).to_owned())
            };
            let info = BangumiInfo {
                show_name: show,
                episode_name: rest,
                display_name: None,
                season,
                episode,
                category: None,
            };
            proof {
                assert(parse_spec(title@) == Some(info@));
            }
            Ok(info)
        },
        None => {
            match find_plain(title, len) {
                Some(p) => {
                    proof {
                        assert(plain_run_at(title@, p as int));
                        lemma_digit_run_chars(title@, p as int);
                    }
                    let d = digit_run(title, len, p);
                    let episode = parse_num(title, len, p, d);
                    let (a, b) = trim_range(title, len, 0, p);
                    if a == b {
                        proof {
                            assert(trimmed(title@.subrange(0, p as int)).len() == 0);
                        }
                        return Err(ParsingError::UnrecognizedEpisode(title.to_owned()));
                    }
                    let show = title.substring_char(a, b).to_owned();
                    let (c, e) = trim_range(title, len, p + d, len);
                    let rest: Option<String> = if c == e {
                        None
                    } else {
                        Some(title.substring_char(c, e).to_owned())
                    };
                    let info = BangumiInfo {
                        show_name: show,
                        episode_name: rest,
                        display_name: None,
                        season: 1,
                        episode,
                        category: None,
                    };
                    proof {
                        assert(parse_spec(title@) == Some(info@));
                    }
                    Ok(info)
                },
                None => Err(ParsingError::UnrecognizedEpisode(title.to_owned())),
            }
        },
    }
}

} // verus!
