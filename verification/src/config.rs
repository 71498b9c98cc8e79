//! The configuration text: directives first (`webhook`, `every`,
//! `password`, `compression`, comments), then a `#!` line naming the shell,
//! then the script the shell is to run.
//!
//! Parsing is pure: the caller reads the file and hands the text in.

use vstd::prelude::*;
use vstd::slice::slice_subrange;
use crate::hook::Webhook;
use crate::text::all_digits;
use crate::text::chars_to_string;
use crate::text::dec_value;
use crate::text::is_digit_char;
use crate::text::str_chars;

verus! {

/// Why a configuration text was rejected. Directives are scanned top to
/// bottom, a line's own error first, so the first offence in the text wins.
#[derive(Clone, Copy, Debug, PartialEq, Eq, Structural)]
pub enum ConfigError {
    MultiplePasswords,
    InvalidCompression,
    MultipleCompressions,
    MultipleWebhooks,
    MultipleDelays,
    DurationMissingUnit,
    DurationUnknownUnit,
    DurationInvalidTime,
    DurationUndefined,
    UndefinedDirective,
    NoShell,
    MissingWebhook,
    MissingDelay,
}

/// The whitespace this parser trims: the ASCII whitespace characters.
pub open spec fn is_space_char(c: char) -> bool {
    c == ' ' || c == '\t' || c == '\n' || c == '\r' || c == '\u{b}' || c == '\u{c}'
}

/// Index of the first occurrence of `c`, or the length when absent.
pub open spec fn find_char(s: Seq<char>, c: char) -> nat
    decreases s.len(),
{
    if s.len() == 0 {
        0
    } else if s[0] == c {
        0
    } else {
        1 + find_char(s.drop_first(), c)
    }
}

/// Where scanning found the first `c` at `i` (or none up to the length),
/// that is what `find_char` denotes.
pub proof fn lemma_find_char_at(s: Seq<char>, c: char, i: int)
    requires
        0 <= i <= s.len(),
        forall|k: int| 0 <= k < i ==> s[k] != c,
        i < s.len() ==> s[i] == c,
    ensures
        find_char(s, c) == if i < s.len() {
            i as nat
        } else {
            s.len()
        },
    decreases i,
{
    if i == 0 {
    } else {
        lemma_find_char_at(s.drop_first(), c, i - 1);
    }
}

/// A line with its trailing carriage return removed.
pub open spec fn strip_cr(s: Seq<char>) -> Seq<char> {
    if s.len() > 0 && s.last() == '\r' {
        s.drop_last()
    } else {
        s
    }
}

/// The lines of a text: split at `'\n'`, each line's trailing `'\r'`
/// stripped, and no empty final line when the text ends with a newline.
pub open spec fn lines_of(s: Seq<char>) -> Seq<Seq<char>>
    decreases s.len(),
{
    if s.len() == 0 {
        Seq::empty()
    } else {
        let i = find_char(s, '\n') as int;
        if i >= s.len() {
            seq![strip_cr(s)]
        } else {
            seq![strip_cr(s.subrange(0, i))] + lines_of(s.subrange(i + 1, s.len() as int))
        }
    }
}

/// Split at every single space; empty fields are kept.
pub open spec fn split_spaces(s: Seq<char>) -> Seq<Seq<char>>
    decreases s.len(),
{
    let i = find_char(s, ' ') as int;
    if i >= s.len() {
        seq![s]
    } else {
        seq![s.subrange(0, i)] + split_spaces(s.subrange(i + 1, s.len() as int))
    }
}

pub open spec fn trim_start_chars(s: Seq<char>) -> Seq<char>
    decreases s.len(),
{
    if s.len() > 0 && is_space_char(s[0]) {
        trim_start_chars(s.drop_first())
    } else {
        s
    }
}

pub open spec fn trim_end_chars(s: Seq<char>) -> Seq<char>
    decreases s.len(),
{
    if s.len() > 0 && is_space_char(s.last()) {
        trim_end_chars(s.drop_last())
    } else {
        s
    }
}

pub open spec fn trim_chars(s: Seq<char>) -> Seq<char> {
    trim_end_chars(trim_start_chars(s))
}

pub open spec fn starts_with_chars(s: Seq<char>, p: Seq<char>) -> bool {
    s.len() >= p.len() && s.subrange(0, p.len() as int) == p
}

proof fn lemma_trim_start_at(s: Seq<char>, i: int)
    requires
        0 <= i <= s.len(),
        forall|k: int| 0 <= k < i ==> is_space_char(#[trigger] s[k]),
        i < s.len() ==> !is_space_char(s[i]),
    ensures
        trim_start_chars(s) == s.subrange(i, s.len() as int),
    decreases i,
{
    if i == 0 {
        assert(s.subrange(0, s.len() as int) =~= s);
    } else {
        lemma_trim_start_at(s.drop_first(), i - 1);
        assert(s.drop_first().subrange(i - 1, s.drop_first().len() as int) =~= s.subrange(
            i,
            s.len() as int,
        ));
    }
}

proof fn lemma_trim_end_at(s: Seq<char>, j: int)
    requires
        0 <= j <= s.len(),
        forall|k: int| j <= k < s.len() ==> is_space_char(#[trigger] s[k]),
        j > 0 ==> !is_space_char(s[j - 1]),
    ensures
        trim_end_chars(s) == s.subrange(0, j),
    decreases s.len() - j,
{
    if j == s.len() {
        if s.len() > 0 && is_space_char(s.last()) {
            lemma_trim_end_at(s.drop_last(), j - 1);
            assert(s.drop_last().subrange(0, j - 1) =~= s.subrange(0, j - 1));
            assert(false);
        } else {
            assert(s.subrange(0, j) =~= s);
        }
    } else {
        lemma_trim_end_at(s.drop_last(), j);
        assert(s.drop_last().subrange(0, j) =~= s.subrange(0, j));
    }
}

/// The number a duration token denotes, as `u32::from_str` reads it: an
/// optional leading `'+'`, then decimal digits.
pub open spec fn u32_value(t: Seq<char>) -> Option<u32> {
    let m = if t.len() > 0 && t[0] == '+' {
        t.drop_first()
    } else {
        t
    };
    if all_digits(m) && dec_value(m) <= u32::MAX {
        Some(dec_value(m) as u32)
    } else {
        None
    }
}

/// The number a compression level denotes, as `i64::from_str` reads it.
pub open spec fn i64_value(t: Seq<char>) -> Option<int> {
    if t.len() > 0 && t[0] == '-' {
        let m = t.drop_first();
        if all_digits(m) && dec_value(m) <= 0x8000000000000000 {
            Some(-(dec_value(m) as int))
        } else {
            None
        }
    } else {
        let m = if t.len() > 0 && t[0] == '+' {
            t.drop_first()
        } else {
            t
        };
        if all_digits(m) && dec_value(m) <= i64::MAX {
            Some(dec_value(m) as int)
        } else {
            None
        }
    }
}

/// The time table: what one unit token is worth, in milliseconds.
pub open spec fn spec_unit_millis(t: Seq<char>) -> Option<u64> {
    if t == "ms"@ || t == "milisecond"@ || t == "miliseconds"@ || t == "millisecond"@ || t
        == "milliseconds"@ {
        Some(1u64)
    } else if t == "s"@ || t == "second"@ || t == "seconds"@ {
        Some(1000u64)
    } else if t == "m"@ || t == "min"@ || t == "minute"@ || t == "minutes"@ {
        Some(60000u64)
    } else if t == "h"@ || t == "hour"@ || t == "hours"@ {
        Some(3600000u64)
    } else if t == "d"@ || t == "day"@ || t == "days"@ {
        Some(86400000u64)
    } else if t == "w"@ || t == "week"@ || t == "weeks"@ {
        Some(604800000u64)
    } else if t == "n"@ || t == "mon"@ || t == "month"@ || t == "months"@ {
        Some(2628288000u64)
    } else if t == "y"@ || t == "year"@ || t == "years"@ {
        Some(32054400000u64)
    } else {
        None
    }
}

/// Millisecond arithmetic saturates at the top of `u64`: over half a
/// billion years of delay behaves as that maximum.
pub open spec fn sat_add64(a: u64, b: u64) -> u64 {
    if a + b > u64::MAX {
        u64::MAX
    } else {
        (a + b) as u64
    }
}

pub open spec fn sat_mul64(a: u64, b: u64) -> u64 {
    if a * b > u64::MAX {
        u64::MAX
    } else {
        (a * b) as u64
    }
}

/// Index of the first character that is not a decimal digit, or the length
/// when the token is all digits.
pub open spec fn find_non_digit(s: Seq<char>) -> nat
    decreases s.len(),
{
    if s.len() == 0 {
        0
    } else if !is_digit_char(s[0]) {
        0
    } else {
        1 + find_non_digit(s.drop_first())
    }
}

pub proof fn lemma_find_non_digit_at(s: Seq<char>, i: int)
    requires
        0 <= i <= s.len(),
        forall|k: int| 0 <= k < i ==> is_digit_char(#[trigger] s[k]),
        i < s.len() ==> !is_digit_char(s[i]),
    ensures
        find_non_digit(s) == if i < s.len() {
            i as nat
        } else {
            s.len()
        },
    decreases i,
{
    if i > 0 {
        lemma_find_non_digit_at(s.drop_first(), i - 1);
    }
}

/// The delay the tokens after `every` denote, read left to right: either a
/// number then a unit token, a number glued to its unit, or a bare unit
/// counting once; anything else is the first error.
pub open spec fn spec_duration(tokens: Seq<Seq<char>>, i: int, acc: u64) -> Result<u64, ConfigError>
    decreases tokens.len() - i,
{
    if i >= tokens.len() {
        Ok(acc)
    } else {
        let t = tokens[i];
        if u32_value(t) is Some {
            if i + 1 >= tokens.len() {
                Err(ConfigError::DurationMissingUnit)
            } else {
                match spec_unit_millis(tokens[i + 1]) {
                    Option::None => Err(ConfigError::DurationUnknownUnit),
                    Option::Some(ms) => spec_duration(
                        tokens,
                        i + 2,
                        sat_add64(acc, sat_mul64(u32_value(t)->Some_0 as u64, ms)),
                    ),
                }
            }
        } else {
            let j = find_non_digit(t) as int;
            if 0 < j < t.len() {
                let value = t.subrange(0, j);
                let unit = t.subrange(j, t.len() as int);
                if !(all_digits(value) && dec_value(value) <= u32::MAX) {
                    Err(ConfigError::DurationInvalidTime)
                } else {
                    match spec_unit_millis(unit) {
                        Option::None => Err(ConfigError::DurationUnknownUnit),
                        Option::Some(ms) => spec_duration(
                            tokens,
                            i + 1,
                            sat_add64(acc, sat_mul64(dec_value(value) as u64, ms)),
                        ),
                    }
                }
            } else if spec_unit_millis(t) is Some {
                spec_duration(tokens, i + 1, sat_add64(acc, spec_unit_millis(t)->Some_0))
            } else {
                Err(ConfigError::DurationUndefined)
            }
        }
    }
}

/// The directive values collected so far.
#[verifier::ext_equal]
pub struct DirectivesState {
    pub webhook: Option<Seq<char>>,
    pub delay_ms: Option<u64>,
    pub password: Option<Seq<char>>,
    pub compression: Option<int>,
}

/// Scan directives from line `i` until the `#!` line or the end of the
/// text; each directive may be given once.
pub open spec fn spec_directives(lines: Seq<Seq<char>>, i: int, st: DirectivesState) -> Result<
    (DirectivesState, int),
    ConfigError,
>
    decreases lines.len() - i,
{
    if i >= lines.len() {
        Ok((st, i))
    } else {
        let t = trim_chars(lines[i]);
        if starts_with_chars(t, "#!"@) {
            Ok((st, i))
        } else if t.len() == 0 || starts_with_chars(t, "#"@) {
            spec_directives(lines, i + 1, st)
        } else if starts_with_chars(t, "password "@) {
            if st.password is Some {
                Err(ConfigError::MultiplePasswords)
            } else {
                spec_directives(
                    lines,
                    i + 1,
                    DirectivesState {
                        password: Some(t.subrange("password "@.len() as int, t.len() as int)),
                        webhook: st.webhook,
                        delay_ms: st.delay_ms,
                        compression: st.compression,
                    },
                )
            }
        } else if starts_with_chars(t, "compression "@) {
            match i64_value(t.subrange("compression "@.len() as int, t.len() as int)) {
                Option::None => Err(ConfigError::InvalidCompression),
                Option::Some(v) => if st.compression is Some {
                    Err(ConfigError::MultipleCompressions)
                } else {
                    spec_directives(
                        lines,
                        i + 1,
                        DirectivesState {
                            compression: Some(v),
                            webhook: st.webhook,
                            delay_ms: st.delay_ms,
                            password: st.password,
                        },
                    )
                },
            }
        } else if starts_with_chars(t, "webhook "@) {
            if st.webhook is Some {
                Err(ConfigError::MultipleWebhooks)
            } else {
                spec_directives(
                    lines,
                    i + 1,
                    DirectivesState {
                        webhook: Some(t.subrange("webhook "@.len() as int, t.len() as int)),
                        delay_ms: st.delay_ms,
                        password: st.password,
                        compression: st.compression,
                    },
                )
            }
        } else if starts_with_chars(t, "every "@) {
            if st.delay_ms is Some {
                Err(ConfigError::MultipleDelays)
            } else {
                match spec_duration(split_spaces(t), 1, 0) {
                    Result::Err(e) => Err(e),
                    Result::Ok(ms) => spec_directives(
                        lines,
                        i + 1,
                        DirectivesState {
                            delay_ms: Some(ms),
                            webhook: st.webhook,
                            password: st.password,
                            compression: st.compression,
                        },
                    ),
                }
            }
        } else {
            Err(ConfigError::UndefinedDirective)
        }
    }
}

/// The script: every line after the `#!` line, each with a newline.
pub open spec fn spec_script(lines: Seq<Seq<char>>, i: int) -> Seq<char>
    decreases lines.len() - i,
{
    if i < 0 || i >= lines.len() {
        Seq::empty()
    } else {
        lines[i] + "\n"@ + spec_script(lines, i + 1)
    }
}

/// What a parsed configuration holds.
#[verifier::ext_equal]
pub struct ConfigSpec {
    pub webhook: Seq<char>,
    pub script: Seq<char>,
    pub shell: Seq<Seq<char>>,
    pub delay_ms: u64,
    pub password: Option<Seq<char>>,
    pub compression_level: int,
}

/// The parse of a whole configuration text.
pub open spec fn spec_parse_config(text: Seq<char>) -> Result<ConfigSpec, ConfigError> {
    let lines = lines_of(text);
    let empty = DirectivesState {
        webhook: None,
        delay_ms: None,
        password: None,
        compression: None,
    };
    match spec_directives(lines, 0, empty) {
        Result::Err(e) => Err(e),
        Result::Ok((st, stop)) => {
            if stop >= lines.len() {
                Err(ConfigError::NoShell)
            } else {
                let t = trim_chars(lines[stop]);
                let sh = trim_chars(t.subrange("#!"@.len() as int, t.len() as int));
                if sh.len() == 0 {
                    Err(ConfigError::NoShell)
                } else if st.webhook is None {
                    Err(ConfigError::MissingWebhook)
                } else if st.delay_ms is None {
                    Err(ConfigError::MissingDelay)
                } else {
                    Ok(
                        ConfigSpec {
                            webhook: st.webhook->Some_0,
                            script: spec_script(lines, stop + 1),
                            shell: split_spaces(sh),
                            delay_ms: st.delay_ms->Some_0,
                            password: st.password,
                            compression_level: if st.compression is Some {
                                st.compression->Some_0
                            } else {
                                10
                            },
                        },
                    )
                }
            }
        },
    }
}

/// What one run works from: the endpoint, the script and the shell that
/// produce the archive, the delay between runs, and the archive options.
pub struct Config {
    pub webhook: Webhook,
    pub script: String,
    pub shell: Vec<String>,
    pub delay_ms: u64,
    pub password: Option<String>,
    pub compression_level: i64,
}

impl View for Config {
    type V = ConfigSpec;

    open spec fn view(&self) -> ConfigSpec {
        ConfigSpec {
            webhook: self.webhook@,
            script: self.script@,
            shell: self.shell.deep_view(),
            delay_ms: self.delay_ms,
            password: self.password.deep_view(),
            compression_level: self.compression_level as int,
        }
    }
}

fn is_space(c: char) -> (r: bool)
    ensures
        r == is_space_char(c),
{
    c == ' ' || c == '\t' || c == '\n' || c == '\r' || c == '\u{b}' || c == '\u{c}'
}

/// Index of the first `c` at or after `from`, or the length when absent.
fn find_char_from(v: &[char], from: usize, c: char) -> (r: usize)
    requires
        from <= v@.len(),
    ensures
        from <= r <= v@.len(),
        r - from == find_char(v@.subrange(from as int, v@.len() as int), c),
{
    let n = v.len();
    let mut i = from;
    while i < n && v[i] != c
        invariant
            from <= i <= n,
            n == v@.len(),
            forall|k: int| from <= k < i ==> v@[k] != c,
        decreases n - i,
    {
        i += 1;
    }
    proof {
        let suffix = v@.subrange(from as int, n as int);
        assert(forall|k: int| 0 <= k < i - from ==> suffix[k] != c);
        lemma_find_char_at(suffix, c, i - from);
    }
    i
}

/// Index of the first non-digit character, or the length when all digits.
fn find_non_digit_exec(v: &[char]) -> (r: usize)
    ensures
        r == find_non_digit(v@),
        r <= v@.len(),
        forall|k: int| 0 <= k < r ==> is_digit_char(#[trigger] v@[k]),
        r < v@.len() ==> !is_digit_char(v@[r as int]),
{
    let n = v.len();
    let mut i: usize = 0;
    while i < n && v[i] >= '0' && v[i] <= '9'
        invariant
            0 <= i <= n,
            n == v@.len(),
            forall|k: int| 0 <= k < i ==> is_digit_char(#[trigger] v@[k]),
        decreases n - i,
    {
        i += 1;
    }
    proof {
        lemma_find_non_digit_at(v@, i as int);
    }
    i
}

/// The lines of a character vector, as `lines_of` denotes them.
fn split_lines(v: &[char]) -> (lines: Vec<Vec<char>>)
    ensures
        lines.deep_view() == lines_of(v@),
{
    let mut lines: Vec<Vec<char>> = Vec::new();
    let n = v.len();
    if n == 0 {
        proof {
            assert(lines.deep_view() =~= lines_of(v@));
        }
        return lines;
    }
    proof {
        assert(v@.subrange(0, n as int) =~= v@);
        assert(lines.deep_view() =~= Seq::<Seq<char>>::empty());
        assert(lines.deep_view() + lines_of(v@) =~= lines_of(v@));
    }
    let mut pos: usize = 0;
    while pos < n
        invariant
            0 <= pos <= n,
            n == v@.len(),
            n > 0,
            lines_of(v@) == lines.deep_view() + lines_of(v@.subrange(pos as int, n as int)),
        decreases n - pos,
    {
        let ghost prev = lines.deep_view();
        let ghost suffix = v@.subrange(pos as int, n as int);
        let nl = find_char_from(v, pos, '\n');
        let mut end = nl;
        if end > pos && v[end - 1] == '\r' {
            end = end - 1;
        }
        let line = vstd::slice::slice_to_vec(slice_subrange(v, pos, end));
        lines.push(line);
        proof {
            let l = lines@.len() - 1;
            assert(lines@[l].deep_view() =~= v@.subrange(pos as int, end as int));
            assert(lines.deep_view() =~= prev.push(v@.subrange(pos as int, end as int)));
        }
        if nl >= n {
            proof {
                assert(suffix =~= v@.subrange(pos as int, nl as int));
                assert(strip_cr(suffix) =~= v@.subrange(pos as int, end as int));
                assert(lines_of(suffix) == seq![strip_cr(suffix)]);
                assert(lines.deep_view() =~= lines_of(v@));
            }
            return lines;
        }
        proof {
            let i = (nl - pos) as int;
            assert(suffix.subrange(0, i) =~= v@.subrange(pos as int, nl as int));
            assert(strip_cr(suffix.subrange(0, i)) =~= v@.subrange(pos as int, end as int));
            assert(suffix.subrange(i + 1, suffix.len() as int) =~= v@.subrange(
                nl + 1,
                n as int,
            ));
            assert(lines_of(suffix) == seq![strip_cr(suffix.subrange(0, i))] + lines_of(
                suffix.subrange(i + 1, suffix.len() as int),
            ));
            assert(lines.deep_view() + lines_of(v@.subrange(nl + 1, n as int)) =~= lines_of(v@));
        }
        pos = nl + 1;
    }
    proof {
        assert(v@.subrange(n as int, n as int) =~= Seq::<char>::empty());
        assert(lines_of(v@.subrange(n as int, n as int)) =~= Seq::<Seq<char>>::empty());
        assert(lines.deep_view() =~= lines_of(v@));
    }
    lines
}

/// The space-separated fields of a token list, as `split_spaces` denotes
/// them.
fn split_spaces_exec(v: &[char]) -> (tokens: Vec<Vec<char>>)
    ensures
        tokens.deep_view() == split_spaces(v@),
{
    let mut tokens: Vec<Vec<char>> = Vec::new();
    let n = v.len();
    proof {
        assert(v@.subrange(0, n as int) =~= v@);
        assert(tokens.deep_view() =~= Seq::<Seq<char>>::empty());
        assert(tokens.deep_view() + split_spaces(v@) =~= split_spaces(v@));
    }
    let mut pos: usize = 0;
    loop
        invariant_except_break
            0 <= pos <= n,
            n == v@.len(),
            split_spaces(v@) == tokens.deep_view() + split_spaces(v@.subrange(pos as int, n as int)),
        ensures
            tokens.deep_view() == split_spaces(v@),
        decreases n - pos,
    {
        let ghost prev = tokens.deep_view();
        let ghost suffix = v@.subrange(pos as int, n as int);
        let sp = find_char_from(v, pos, ' ');
        let token = vstd::slice::slice_to_vec(slice_subrange(v, pos, sp));
        tokens.push(token);
        proof {
            let l = tokens@.len() - 1;
            assert(tokens@[l].deep_view() =~= v@.subrange(pos as int, sp as int));
            assert(tokens.deep_view() =~= prev.push(v@.subrange(pos as int, sp as int)));
        }
        if sp >= n {
            proof {
                assert(suffix =~= v@.subrange(pos as int, sp as int));
                assert(split_spaces(suffix) == seq![suffix]);
                assert(tokens.deep_view() =~= split_spaces(v@));
            }
            break;
        }
        proof {
            let i = (sp - pos) as int;
            assert(suffix.subrange(0, i) =~= v@.subrange(pos as int, sp as int));
            assert(suffix.subrange(i + 1, suffix.len() as int) =~= v@.subrange(sp + 1, n as int));
            assert(split_spaces(suffix) == seq![suffix.subrange(0, i)] + split_spaces(
                suffix.subrange(i + 1, suffix.len() as int),
            ));
            assert(tokens.deep_view() + split_spaces(v@.subrange(sp + 1, n as int)) =~=
            split_spaces(v@));
        }
        pos = sp + 1;
    }
    tokens
}

/// A copy of `v` with leading and trailing whitespace removed.
fn trim_slice(v: &[char]) -> (t: Vec<char>)
    ensures
        t@ == trim_chars(v@),
{
    let n = v.len();
    let mut i: usize = 0;
    while i < n && is_space(v[i])
        invariant
            0 <= i <= n,
            n == v@.len(),
            forall|k: int| 0 <= k < i ==> is_space_char(#[trigger] v@[k]),
        decreases n - i,
    {
        i += 1;
    }
    proof {
        lemma_trim_start_at(v@, i as int);
    }
    if i == n {
        proof {
            assert(trim_start_chars(v@) =~= Seq::<char>::empty());
            assert(trim_chars(v@) =~= Seq::<char>::empty());
        }
        return Vec::new();
    }
    let mut j: usize = n;
    while j > i + 1 && is_space(v[j - 1])
        invariant
            i + 1 <= j <= n,
            n == v@.len(),
            i < n,
            !is_space_char(v@[i as int]),
            forall|k: int| j <= k < n ==> is_space_char(#[trigger] v@[k]),
        decreases j,
    {
        j -= 1;
    }
    proof {
        let t1 = v@.subrange(i as int, n as int);
        assert(forall|k: int| j - i <= k < t1.len() ==> is_space_char(#[trigger] t1[k]));
        assert(!is_space_char(t1[(j - i - 1) as int]) || j == i + 1);
        if is_space_char(t1[(j - i - 1) as int]) {
            assert(j == i + 1);
            assert(t1[0] == v@[i as int]);
            assert(false);
        }
        lemma_trim_end_at(t1, (j - i) as int);
        assert(t1.subrange(0, (j - i) as int) =~= v@.subrange(i as int, j as int));
    }
    vstd::slice::slice_to_vec(slice_subrange(v, i, j))
}

/// True when `v` begins with the characters of `p`.
fn starts_with_lit(v: &[char], p: &str) -> (r: bool)
    ensures
        r == starts_with_chars(v@, p@),
{
    let m = p.unicode_len();
    if v.len() < m {
        return false;
    }
    let mut k: usize = 0;
    while k < m
        invariant
            0 <= k <= m,
            m == p@.len(),
            m <= v@.len(),
            v@.subrange(0, k as int) == p@.subrange(0, k as int),
        decreases m - k,
    {
        let c = p.get_char(k);
        if v[k] != c {
            proof {
                if starts_with_chars(v@, p@) {
                    assert(v@.subrange(0, m as int)[k as int] == p@[k as int]);
                }
            }
            return false;
        }
        proof {
            assert(v@.subrange(0, k + 1) =~= v@.subrange(0, k as int) + seq![v@[k as int]]);
            assert(p@.subrange(0, k + 1) =~= p@.subrange(0, k as int) + seq![p@[k as int]]);
        }
        k += 1;
    }
    proof {
        assert(p@.subrange(0, m as int) =~= p@);
    }
    true
}

/// True when `v` holds exactly the characters of `p`.
fn lit_eq(v: &[char], p: &str) -> (r: bool)
    ensures
        r == (v@ == p@),
{
    let m = p.unicode_len();
    if v.len() != m {
        return false;
    }
    let r = starts_with_lit(v, p);
    proof {
        assert(v@.subrange(0, m as int) =~= v@);
        if v@ == p@ {
            assert(starts_with_chars(v@, p@));
        }
    }
    r
}

/// Look a unit token up in the time table.
fn unit_millis(t: &[char]) -> (r: Option<u64>)
    ensures
        r == spec_unit_millis(t@),
{
    if lit_eq(t, "ms") || lit_eq(t, "milisecond") || lit_eq(t, "miliseconds") || lit_eq(
        t,
        "millisecond",
    ) || lit_eq(t, "milliseconds") {
        Some(1)
    } else if lit_eq(t, "s") || lit_eq(t, "second") || lit_eq(t, "seconds") {
        Some(1000)
    } else if lit_eq(t, "m") || lit_eq(t, "min") || lit_eq(t, "minute") || lit_eq(t, "minutes") {
        Some(60000)
    } else if lit_eq(t, "h") || lit_eq(t, "hour") || lit_eq(t, "hours") {
        Some(3600000)
    } else if lit_eq(t, "d") || lit_eq(t, "day") || lit_eq(t, "days") {
        Some(86400000)
    } else if lit_eq(t, "w") || lit_eq(t, "week") || lit_eq(t, "weeks") {
        Some(604800000)
    } else if lit_eq(t, "n") || lit_eq(t, "mon") || lit_eq(t, "month") || lit_eq(t, "months") {
        Some(2628288000)
    } else if lit_eq(t, "y") || lit_eq(t, "year") || lit_eq(t, "years") {
        Some(32054400000)
    } else {
        None
    }
}

/// Parse the digits of `v[from..to]` as a decimal number.
fn parse_u64_range(v: &[char], from: usize, to: usize) -> (r: Option<u64>)
    requires
        from <= to <= v@.len(),
    ensures
        r is Some <==> all_digits(v@.subrange(from as int, to as int)) && dec_value(
            v@.subrange(from as int, to as int),
        ) <= u64::MAX,
        r is Some ==> r->Some_0 == dec_value(v@.subrange(from as int, to as int)),
{
    let ghost sub = v@.subrange(from as int, to as int);
    if from == to {
        return None;
    }
    let mut value: u64 = 0;
    let mut i = from;
    while i < to
        invariant
            from <= i <= to <= v@.len(),
            sub == v@.subrange(from as int, to as int),
            forall|k: int| 0 <= k < i - from ==> is_digit_char(#[trigger] sub[k]),
            value == dec_value(sub.subrange(0, i - from)),
        decreases to - i,
    {
        let c = v[i];
        if c < '0' || c > '9' {
            proof {
                assert(!is_digit_char(sub[i - from]));
            }
            return None;
        }
        let d: u64 = (c as u32 as u64) - 48;
        proof {
            assert(sub.subrange(0, i - from + 1).drop_last() =~= sub.subrange(0, i - from));
            assert(sub.subrange(0, i - from + 1).last() == sub[i - from]);
        }
        if value > (u64::MAX - d) / 10 {
            proof {
                assert(dec_value(sub.subrange(0, i - from + 1)) == value * 10 + d);
                assert(value * 10 + d > u64::MAX) by (nonlinear_arith)
                    requires
                        value > (u64::MAX - d) / 10,
                        d < 10,
                ;
                crate::text::lemma_dec_value_prefix_grows(sub, i - from + 1, sub.len() as int);
                assert(sub.subrange(0, sub.len() as int) =~= sub);
            }
            return None;
        }
        proof {
            assert(value * 10 + d <= u64::MAX) by (nonlinear_arith)
                requires
                    value <= (u64::MAX - d) / 10,
                    d < 10,
            ;
        }
        value = value * 10 + d;
        i += 1;
    }
    proof {
        assert(sub.subrange(0, sub.len() as int) =~= sub);
    }
    Some(value)
}

/// Parse a duration count, as `u32::from_str` would.
fn parse_u32_token(t: &[char]) -> (r: Option<u32>)
    ensures
        r == u32_value(t@),
{
    let from: usize = if t.len() > 0 && t[0] == '+' {
        1
    } else {
        0
    };
    proof {
        if from == 1 {
            assert(t@.subrange(1, t@.len() as int) =~= t@.drop_first());
        } else {
            assert(t@.subrange(0, t@.len() as int) =~= t@);
        }
    }
    match parse_u64_range(t, from, t.len()) {
        Option::None => None,
        Option::Some(m) => if m <= 0xffffffff {
            Some(m as u32)
        } else {
            None
        },
    }
}

/// Parse a compression level, as `i64::from_str` would.
fn parse_i64_token(t: &[char]) -> (r: Option<i64>)
    ensures
        r is Some <==> i64_value(t@) is Some,
        r is Some ==> r->Some_0 as int == i64_value(t@)->Some_0,
{
    if t.len() > 0 && t[0] == '-' {
        proof {
            assert(t@.subrange(1, t@.len() as int) =~= t@.drop_first());
        }
        match parse_u64_range(t, 1, t.len()) {
            Option::None => None,
            Option::Some(m) => if m <= 0x7fffffffffffffff {
                Some(-(m as i64))
            } else if m == 0x8000000000000000 {
                Some(i64::MIN)
            } else {
                None
            },
        }
    } else {
        let from: usize = if t.len() > 0 && t[0] == '+' {
            1
        } else {
            0
        };
        proof {
            if from == 1 {
                assert(t@.subrange(1, t@.len() as int) =~= t@.drop_first());
            } else {
                assert(t@.subrange(0, t@.len() as int) =~= t@);
            }
        }
        match parse_u64_range(t, from, t.len()) {
            Option::None => None,
            Option::Some(m) => if m <= 0x7fffffffffffffff {
                Some(m as i64)
            } else {
                None
            },
        }
    }
}

fn sat_add(a: u64, b: u64) -> (r: u64)
    ensures
        r == sat_add64(a, b),
{
    if a > u64::MAX - b {
        u64::MAX
    } else {
        a + b
    }
}

fn sat_mul(a: u64, b: u64) -> (r: u64)
    ensures
        r == sat_mul64(a, b),
{
    if b == 0 {
        proof {
            assert(a * b == 0) by (nonlinear_arith)
                requires
                    b == 0,
            ;
        }
        0
    } else if a > u64::MAX / b {
        proof {
            assert(a * b > u64::MAX) by (nonlinear_arith)
                requires
                    b > 0,
                    a > u64::MAX / b,
            ;
        }
        u64::MAX
    } else {
        proof {
            assert(a * b <= u64::MAX) by (nonlinear_arith)
                requires
                    b > 0,
                    a <= u64::MAX / b,
            ;
        }
        a * b
    }
}

proof fn lemma_err_chain(
    text: Seq<char>,
    lv: Seq<Seq<char>>,
    init: DirectivesState,
    i: int,
    cur: DirectivesState,
    e: ConfigError,
)
    requires
        lv == lines_of(text),
        init == (DirectivesState {
            webhook: None,
            delay_ms: None,
            password: None,
            compression: None,
        }),
        spec_directives(lv, 0, init) == spec_directives(lv, i, cur),
        spec_directives(lv, i, cur) == Result::<(DirectivesState, int), ConfigError>::Err(e),
    ensures
        spec_parse_config(text) == Result::<ConfigSpec, ConfigError>::Err(e),
{
}

/// Parse a configuration text, error for error and field for field as
/// `spec_parse_config` denotes it.
pub fn parse_config(text: &str) -> (r: Result<Config, ConfigError>)
    ensures
        r matches Result::Ok(c) ==> spec_parse_config(text@) == Result::<
            ConfigSpec,
            ConfigError,
        >::Ok(c@),
        r matches Result::Err(e) ==> spec_parse_config(text@) == Result::<
            ConfigSpec,
            ConfigError,
        >::Err(e),
{
    let chars = str_chars(text);
    let lines = split_lines(chars.as_slice());
    let ghost lv = lines.deep_view();
    let ghost init = DirectivesState {
        webhook: None,
        delay_ms: None,
        password: None,
        compression: None,
    };
    let n = lines.len();
    let mut webhook: Option<String> = None;
    let mut delay_ms: Option<u64> = None;
    let mut password: Option<String> = None;
    let mut compression: Option<i64> = None;
    let ghost mut cur = init;
    let mut i: usize = 0;
    let mut stopped = false;
    proof {
        reveal_strlit("#!");
        reveal_strlit("#");
        reveal_strlit("password ");
        reveal_strlit("compression ");
        reveal_strlit("webhook ");
        reveal_strlit("every ");
    }
    while i < n && !stopped
        invariant
            0 <= i <= n,
            n == lines@.len(),
            lv == lines.deep_view(),
            lv == lines_of(text@),
            cur.webhook == webhook.deep_view(),
            cur.delay_ms == delay_ms,
            cur.password == password.deep_view(),
            cur.compression == (match compression {
                Option::Some(v) => Option::Some(v as int),
                Option::None => Option::<int>::None,
            }),
            "password "@.len() == 9 && "compression "@.len() == 12 && "webhook "@.len() == 8
                && "#!"@.len() == 2,
            init == (DirectivesState {
                webhook: None,
                delay_ms: None,
                password: None,
                compression: None,
            }),
            !stopped ==> spec_directives(lv, 0, init) == spec_directives(lv, i as int, cur),
            stopped ==> i < n && spec_directives(lv, 0, init) == Result::<
                (DirectivesState, int),
                ConfigError,
            >::Ok((cur, i as int)) && starts_with_chars(trim_chars(lv[i as int]), "#!"@),
        decreases n - i, (if stopped { 0int } else { 1int }),
    {
        let ghost prev = cur;
        let t = trim_slice(lines[i].as_slice());
        proof {
            assert(lines@[i as int].deep_view() =~= lines@[i as int]@);
        }
        if starts_with_lit(t.as_slice(), "#!") {
            stopped = true;
        } else if t.len() == 0 || starts_with_lit(t.as_slice(), "#") {
            i += 1;
        } else if starts_with_lit(t.as_slice(), "password ") {
            if password.is_some() {
                proof {
                    assert(spec_directives(lv, i as int, cur) == Result::<
                        (DirectivesState, int),
                        ConfigError,
                    >::Err(ConfigError::MultiplePasswords));
                    lemma_err_chain(text@, lv, init, i as int, cur, ConfigError::MultiplePasswords);
                }
                return Err(ConfigError::MultiplePasswords);
            }
            let value = chars_to_string(slice_subrange(t.as_slice(), 9, t.len()));
            password = Some(value);
            proof {
                cur = DirectivesState {
                    webhook: prev.webhook,
                    delay_ms: prev.delay_ms,
                    password: Some(t@.subrange(9, t@.len() as int)),
                    compression: prev.compression,
                };
            }
            i += 1;
        } else if starts_with_lit(t.as_slice(), "compression ") {
            match parse_i64_token(slice_subrange(t.as_slice(), 12, t.len())) {
                Option::None => {
                    proof {
                        assert(spec_directives(lv, i as int, cur) == Result::<
                            (DirectivesState, int),
                            ConfigError,
                        >::Err(ConfigError::InvalidCompression));
                        lemma_err_chain(text@, lv, init, i as int, cur, ConfigError::InvalidCompression);
                    }
                    return Err(ConfigError::InvalidCompression);
                },
                Option::Some(value) => {
                    if compression.is_some() {
                        proof {
                            assert(spec_directives(lv, i as int, cur) == Result::<
                                (DirectivesState, int),
                                ConfigError,
                            >::Err(ConfigError::MultipleCompressions));
                            lemma_err_chain(text@, lv, init, i as int, cur, ConfigError::MultipleCompressions);
                        }
                        return Err(ConfigError::MultipleCompressions);
                    }
                    compression = Some(value);
                    proof {
                        cur = DirectivesState {
                            webhook: prev.webhook,
                            delay_ms: prev.delay_ms,
                            password: prev.password,
                            compression: Some(value as int),
                        };
                    }
                    i += 1;
                },
            }
        } else if starts_with_lit(t.as_slice(), "webhook ") {
            if webhook.is_some() {
                proof {
                    assert(spec_directives(lv, i as int, cur) == Result::<
                        (DirectivesState, int),
                        ConfigError,
                    >::Err(ConfigError::MultipleWebhooks));
                    lemma_err_chain(text@, lv, init, i as int, cur, ConfigError::MultipleWebhooks);
                }
                return Err(ConfigError::MultipleWebhooks);
            }
            let value = chars_to_string(slice_subrange(t.as_slice(), 8, t.len()));
            webhook = Some(value);
            proof {
                cur = DirectivesState {
                    webhook: Some(t@.subrange(8, t@.len() as int)),
                    delay_ms: prev.delay_ms,
                    password: prev.password,
                    compression: prev.compression,
                };
            }
            i += 1;
        } else if starts_with_lit(t.as_slice(), "every ") {
            if delay_ms.is_some() {
                proof {
                    assert(spec_directives(lv, i as int, cur) == Result::<
                        (DirectivesState, int),
                        ConfigError,
                    >::Err(ConfigError::MultipleDelays));
                    lemma_err_chain(text@, lv, init, i as int, cur, ConfigError::MultipleDelays);
                }
                return Err(ConfigError::MultipleDelays);
            }
            let tokens = split_spaces_exec(t.as_slice());
            let ghost tv = tokens.deep_view();
            let tn = tokens.len();
            let mut acc: u64 = 0;
            let mut ti: usize = 1;
            proof {
                assert(split_spaces(t@).len() >= 1);
            }
            while ti < tn
                invariant
                    1 <= ti,
                    tn == tokens@.len(),
                    tv == tokens.deep_view(),
                    tv == split_spaces(t@),
                    spec_duration(tv, 1, 0) == spec_duration(tv, ti as int, acc),
                    lv == lines_of(text@),
                    init == (DirectivesState {
                        webhook: None,
                        delay_ms: None,
                        password: None,
                        compression: None,
                    }),
                    spec_directives(lv, 0, init) == spec_directives(lv, i as int, cur),
                    0 <= i < lv.len(),
                    t@ == trim_chars(lv[i as int]),
                    !starts_with_chars(t@, "#!"@),
                    t@.len() != 0,
                    !starts_with_chars(t@, "#"@),
                    !starts_with_chars(t@, "password "@),
                    !starts_with_chars(t@, "compression "@),
                    !starts_with_chars(t@, "webhook "@),
                    starts_with_chars(t@, "every "@),
                    cur.delay_ms is None,
                decreases tn + 1 - ti,
            {
                proof {
                    assert(tokens@[ti as int].deep_view() =~= tokens@[ti as int]@);
                }
                match parse_u32_token(tokens[ti].as_slice()) {
                    Option::Some(value) => {
                        if ti + 1 >= tn {
                            proof {
                                assert(spec_duration(tv, ti as int, acc) == Result::<u64, ConfigError>::Err(
                                    ConfigError::DurationMissingUnit,
                                ));
                                assert(spec_duration(tv, 1, 0) == Result::<u64, ConfigError>::Err(
                                    ConfigError::DurationMissingUnit,
                                ));
                                assert(spec_directives(lv, i as int, cur) == Result::<
                                    (DirectivesState, int),
                                    ConfigError,
                                >::Err(ConfigError::DurationMissingUnit));
                                lemma_err_chain(text@, lv, init, i as int, cur, ConfigError::DurationMissingUnit);
                            }
                            return Err(ConfigError::DurationMissingUnit);
                        }
                        proof {
                            assert(tokens@[ti + 1].deep_view() =~= tokens@[ti + 1]@);
                        }
                        match unit_millis(tokens[ti + 1].as_slice()) {
                            Option::None => {
                                proof {
                                    assert(spec_duration(tv, ti as int, acc) == Result::<u64, ConfigError>::Err(
                                        ConfigError::DurationUnknownUnit,
                                    ));
                                    assert(spec_duration(tv, 1, 0) == Result::<u64, ConfigError>::Err(
                                        ConfigError::DurationUnknownUnit,
                                    ));
                                    assert(spec_directives(lv, i as int, cur) == Result::<
                                        (DirectivesState, int),
                                        ConfigError,
                                    >::Err(ConfigError::DurationUnknownUnit));
                                    lemma_err_chain(text@, lv, init, i as int, cur, ConfigError::DurationUnknownUnit);
                                }
                                return Err(ConfigError::DurationUnknownUnit);
                            },
                            Option::Some(ms) => {
                                acc = sat_add(acc, sat_mul(value as u64, ms));
                                ti += 2;
                            },
                        }
                    },
                    Option::None => {
                        let j = find_non_digit_exec(tokens[ti].as_slice());
                        if j > 0 && j < tokens[ti].len() {
                            let ghost tok = tv[ti as int];
                            proof {
                                assert(all_digits(tok.subrange(0, j as int)));
                            }
                            match parse_u64_range(tokens[ti].as_slice(), 0, j) {
                                Option::None => {
                                    proof {
                                        assert(spec_duration(tv, ti as int, acc) == Result::<u64, ConfigError>::Err(
                                            ConfigError::DurationInvalidTime,
                                        ));
                                        assert(spec_duration(tv, 1, 0) == Result::<u64, ConfigError>::Err(
                                            ConfigError::DurationInvalidTime,
                                        ));
                                        assert(spec_directives(lv, i as int, cur) == Result::<
                                            (DirectivesState, int),
                                            ConfigError,
                                        >::Err(ConfigError::DurationInvalidTime));
                                        lemma_err_chain(text@, lv, init, i as int, cur, ConfigError::DurationInvalidTime);
                                    }
                                    return Err(ConfigError::DurationInvalidTime);
                                },
                                Option::Some(m) => {
                                    if m > 0xffffffff {
                                        proof {
                                            assert(spec_duration(tv, ti as int, acc) == Result::<u64, ConfigError>::Err(
                                                ConfigError::DurationInvalidTime,
                                            ));
                                            assert(spec_duration(tv, 1, 0) == Result::<u64, ConfigError>::Err(
                                                ConfigError::DurationInvalidTime,
                                            ));
                                            assert(spec_directives(lv, i as int, cur) == Result::<
                                                (DirectivesState, int),
                                                ConfigError,
                                            >::Err(ConfigError::DurationInvalidTime));
                                            lemma_err_chain(text@, lv, init, i as int, cur, ConfigError::DurationInvalidTime);
                                        }
                                        return Err(ConfigError::DurationInvalidTime);
                                    }
                                    match unit_millis(
                                        slice_subrange(tokens[ti].as_slice(), j, tokens[ti].len()),
                                    ) {
                                        Option::None => {
                                            proof {
                                                assert(spec_duration(tv, ti as int, acc) == Result::<u64, ConfigError>::Err(
                                                    ConfigError::DurationUnknownUnit,
                                                ));
                                                assert(spec_duration(tv, 1, 0) == Result::<u64, ConfigError>::Err(
                                                    ConfigError::DurationUnknownUnit,
                                                ));
                                                assert(spec_directives(lv, i as int, cur) == Result::<
                                                    (DirectivesState, int),
                                                    ConfigError,
                                                >::Err(ConfigError::DurationUnknownUnit));
                                                lemma_err_chain(text@, lv, init, i as int, cur, ConfigError::DurationUnknownUnit);
                                            }
                                            return Err(ConfigError::DurationUnknownUnit);
                                        },
                                        Option::Some(ms) => {
                                            acc = sat_add(acc, sat_mul(m, ms));
                                            ti += 1;
                                        },
                                    }
                                },
                            }
                        } else {
                            match unit_millis(tokens[ti].as_slice()) {
                                Option::Some(ms) => {
                                    acc = sat_add(acc, ms);
                                    ti += 1;
                                },
                                Option::None => {
                                    proof {
                                        assert(spec_duration(tv, ti as int, acc) == Result::<u64, ConfigError>::Err(
                                            ConfigError::DurationUndefined,
                                        ));
                                        assert(spec_duration(tv, 1, 0) == Result::<u64, ConfigError>::Err(
                                            ConfigError::DurationUndefined,
                                        ));
                                        assert(spec_directives(lv, i as int, cur) == Result::<
                                            (DirectivesState, int),
                                            ConfigError,
                                        >::Err(ConfigError::DurationUndefined));
                                        lemma_err_chain(text@, lv, init, i as int, cur, ConfigError::DurationUndefined);
                                    }
                                    return Err(ConfigError::DurationUndefined);
                                },
                            }
                        }
                    },
                }
            }
            delay_ms = Some(acc);
            proof {
                assert(spec_duration(tv, 1, 0) == Result::<u64, ConfigError>::Ok(acc));
                cur = DirectivesState {
                    webhook: prev.webhook,
                    delay_ms: Some(acc),
                    password: prev.password,
                    compression: prev.compression,
                };
            }
            i += 1;
        } else {
            proof {
                assert(spec_directives(lv, i as int, cur) == Result::<
                    (DirectivesState, int),
                    ConfigError,
                >::Err(ConfigError::UndefinedDirective));
                lemma_err_chain(text@, lv, init, i as int, cur, ConfigError::UndefinedDirective);
            }
            return Err(ConfigError::UndefinedDirective);
        }
    }
    if !stopped {
        proof {
            assert(spec_directives(lv, 0, init) == Result::<
                (DirectivesState, int),
                ConfigError,
            >::Ok((cur, n as int)));
            assert(spec_parse_config(text@) == Result::<ConfigSpec, ConfigError>::Err(
                ConfigError::NoShell,
            ));
        }
        return Err(ConfigError::NoShell);
    }
    let stop = i;
    let t = trim_slice(lines[stop].as_slice());
    proof {
        assert(lines@[stop as int].deep_view() =~= lines@[stop as int]@);
        reveal_strlit("#!");
    }
    let sh = trim_slice(slice_subrange(t.as_slice(), 2, t.len()));
    if sh.len() == 0 {
        proof {
            assert(spec_parse_config(text@) == Result::<ConfigSpec, ConfigError>::Err(
                ConfigError::NoShell,
            ));
        }
        return Err(ConfigError::NoShell);
    }
    let w = match webhook {
        Option::Some(w) => w,
        Option::None => {
            proof {
                assert(spec_parse_config(text@) == Result::<ConfigSpec, ConfigError>::Err(
                    ConfigError::MissingWebhook,
                ));
            }
            return Err(ConfigError::MissingWebhook);
        },
    };
    let d = match delay_ms {
        Option::Some(d) => d,
        Option::None => {
            proof {
                assert(spec_parse_config(text@) == Result::<ConfigSpec, ConfigError>::Err(
                    ConfigError::MissingDelay,
                ));
            }
            return Err(ConfigError::MissingDelay);
        },
    };
    let shell_tokens = split_spaces_exec(sh.as_slice());
    let mut shell: Vec<String> = Vec::new();
    let sn = shell_tokens.len();
    let mut k: usize = 0;
    while k < sn
        invariant
            0 <= k <= sn,
            sn == shell_tokens@.len(),
            shell@.len() == k,
            forall|q: int| 0 <= q < k ==> shell@[q]@ == shell_tokens.deep_view()[q],
        decreases sn - k,
    {
        shell.push(chars_to_string(shell_tokens[k].as_slice()));
        proof {
            assert(shell_tokens@[k as int].deep_view() =~= shell_tokens@[k as int]@);
        }
        k += 1;
    }
    proof {
        assert(shell.deep_view() =~= split_spaces(sh@));
    }
    let mut script = String::new();
    let mut jj = stop + 1;
    proof {
        assert(script@ + spec_script(lv, jj as int) =~= spec_script(lv, stop + 1));
    }
    while jj < n
        invariant
            stop + 1 <= jj <= n,
            n == lines@.len(),
            lv == lines.deep_view(),
            spec_script(lv, stop + 1) == script@ + spec_script(lv, jj as int),
        decreases n - jj,
    {
        proof {
            assert(lines@[jj as int].deep_view() =~= lines@[jj as int]@);
        }
        let line_s = chars_to_string(lines[jj].as_slice());
        script.append(line_s.as_str());
        script.append("\n");
        proof {
            assert(script@ + spec_script(lv, jj + 1) =~= spec_script(lv, stop + 1));
        }
        jj += 1;
    }
    proof {
        assert(script@ =~= spec_script(lv, stop + 1));
    }
    let compression_level: i64 = match compression {
        Option::Some(v) => v,
        Option::None => 10,
    };
    let cfg = Config {
        webhook: Webhook::new(w),
        script,
        shell,
        delay_ms: d,
        password,
        compression_level,
    };
    proof {
        let out = ConfigSpec {
            webhook: cur.webhook->Some_0,
            script: spec_script(lv, stop + 1),
            shell: split_spaces(trim_chars(trim_chars(lv[stop as int]).subrange(
                "#!"@.len() as int,
                trim_chars(lv[stop as int]).len() as int,
            ))),
            delay_ms: cur.delay_ms->Some_0,
            password: cur.password,
            compression_level: if cur.compression is Some {
                cur.compression->Some_0
            } else {
                10
            },
        };
        assert(spec_parse_config(text@) == Result::<ConfigSpec, ConfigError>::Ok(out));
        assert(cfg@ =~= out);
    }
    Ok(cfg)
}

/// One row of the duration unit table: the aliases of a unit and its worth
/// in milliseconds.
pub struct TimeColumn {
    pub aliases: Vec<String>,
    pub time_ms: u64,
}

impl TimeColumn {
    pub fn new(aliases: Vec<String>, time_ms: u64) -> (r: Self)
        ensures
            r.aliases == aliases,
            r.time_ms == time_ms,
    {
        TimeColumn { aliases, time_ms }
    }
}

} // verus!
