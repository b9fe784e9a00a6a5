//! tmux version handling.
//!
//! `tmux -V` prints versions such as `tmux 3.0a` or `tmux next-3.4`. A
//! version is `MAJOR.MINOR` optionally followed by one lowercase patch
//! letter, captured as its ASCII byte (0 when absent) so that ordering is
//! simply lexicographic on `(major, minor, suffix_ascii)`.

use vstd::prelude::*;

use crate::text::{
    all_digits, ascii_alpha, ascii_digit, chars_of, dec_digits, digits_value, first_alpha,
    first_char, first_digit, is_ascii_alpha, is_ascii_digit, lemma_before_first_alpha,
    lemma_before_first_char, lemma_first_alpha_step, lemma_first_char_step,
    lemma_first_digit_step, opt_nat, parse_u32_digits, push_char, push_decimal, shift, skip_white_space,
    skip_white_space_back, trim, trim_start, trim_end, is_white_space, push_str, string_of, trimmed,
};
use crate::terminal::{lossy_chars, utf8_lossy};

verus! {

/// A parsed tmux version such as `3.0a`.
#[derive(Debug, Clone, Copy, PartialEq, Eq, PartialOrd, Ord, Hash)]
pub struct TmuxVersion {
    pub major: u32,
    pub minor: u32,
    /// ASCII value of the patch letter, or 0 when absent (`a` == 97).
    pub suffix_ascii: u8,
}

/// Minimum tmux version targeted by the tmux fallback client (3.0).
pub open spec fn min_supported_version() -> TmuxVersion {
    TmuxVersion { major: 3, minor: 0, suffix_ascii: 0 }
}

/// Minimum tmux version targeted by the tmux fallback client (3.0).
pub fn min_supported() -> (v: TmuxVersion)
    ensures
        v == min_supported_version(),
{
    TmuxVersion { major: 3, minor: 0, suffix_ascii: 0 }
}

/// Lexicographic order on `(major, minor, suffix_ascii)`.
pub open spec fn version_le(a: TmuxVersion, b: TmuxVersion) -> bool {
    a.major < b.major || (a.major == b.major && (a.minor < b.minor || (a.minor == b.minor
        && a.suffix_ascii <= b.suffix_ascii)))
}

pub open spec fn is_token_char(c: char) -> bool {
    is_ascii_digit(c) || c == '.' || is_ascii_alpha(c)
}

/// Length of the run of token characters (digits, dots, letters) at the
/// start of `s`.
pub open spec fn token_len(s: Seq<char>) -> nat
    decreases s.len(),
{
    if s.len() > 0 && is_token_char(s[0]) {
        1 + token_len(s.drop_first())
    } else {
        0
    }
}

/// The text after an optional leading `tmux` program name.
pub open spec fn without_program_name(s: Seq<char>) -> Seq<char> {
    if s.len() >= 4 && s.take(4) == seq!['t', 'm', 'u', 'x'] {
        trim_start(s.skip(4))
    } else {
        s
    }
}

/// The text up to the first `.` (all of `s` when it has none).
pub open spec fn before_dot(s: Seq<char>) -> Seq<char> {
    match first_char(s, '.') {
        Some(d) => s.take(d as int),
        None => s,
    }
}

/// The second `.`-separated field of `s`, if there is one.
pub open spec fn second_field(s: Seq<char>) -> Option<Seq<char>> {
    match first_char(s, '.') {
        Some(d) => Some(before_dot(s.skip(d + 1 as int))),
        None => None,
    }
}

/// The `(major, minor)` pair written by `numeric` (digits and dots): the
/// first field is the major, a missing or empty second field is a zero minor;
/// `None` when either does not fit in `u32`.
pub open spec fn numeric_fields(numeric: Seq<char>) -> Option<(u32, u32)> {
    let major = digits_value(before_dot(numeric));
    let minor = match second_field(numeric) {
        Some(m) if m.len() > 0 => digits_value(m),
        _ => 0,
    };
    if major > u32::MAX || minor > u32::MAX {
        None
    } else {
        Some((major as u32, minor as u32))
    }
}

/// Where the numeric part of a token ends: at its first letter, if any.
pub open spec fn digits_end(token: Seq<char>) -> nat {
    match first_alpha(token) {
        Some(a) => a,
        None => token.len(),
    }
}

/// The version read from the `MAJOR.MINOR[letter]` token `token`.
pub open spec fn version_from_token(token: Seq<char>) -> Option<TmuxVersion> {
    let d = digits_end(token);
    match numeric_fields(token.take(d as int)) {
        None => None,
        Some((major, minor)) => Some(
            TmuxVersion {
                major,
                minor,
                suffix_ascii: if d < token.len() {
                    token[d as int] as u8
                } else {
                    0
                },
            },
        ),
    }
}

/// What `TmuxVersion::parse` gives for `raw`: after trimming and dropping an
/// optional `tmux` program name, the token starting at the first ASCII digit
/// and made of digits, dots and letters is read as `MAJOR[.MINOR][letter]`;
/// a missing or empty minor is 0; a field that overflows `u32` or the lack of
/// any digit gives `None`.
pub open spec fn spec_parse_version(raw: Seq<char>) -> Option<TmuxVersion> {
    let s = without_program_name(trim(raw));
    match first_digit(s) {
        None => None,
        Some(start) => {
            let rest = s.skip(start as int);
            version_from_token(rest.take(token_len(rest) as int))
        },
    }
}

/// The rendering `MAJOR.MINOR` followed by the patch letter when there is one.
pub open spec fn spec_version_text(v: TmuxVersion) -> Seq<char> {
    let base = dec_digits(v.major as nat) + seq!['.'] + dec_digits(v.minor as nat);
    if v.suffix_ascii != 0 {
        base.push(v.suffix_ascii as char)
    } else {
        base
    }
}

/// Searches `v[from..to]` for the first character equal to `target`.
fn find_char(v: &Vec<char>, from: usize, to: usize, target: char) -> (r: Option<usize>)
    requires
        from <= to <= v.len(),
    ensures
        opt_nat(r) == shift(first_char(v@.subrange(from as int, to as int), target), from as int),
        r matches Some(i) ==> from <= i < to,
{
    let ghost s = v@.subrange(from as int, to as int);
    let mut i = from;
    assert(s.skip(0) =~= s);
    while i < to
        invariant
            from <= i <= to <= v.len(),
            s == v@.subrange(from as int, to as int),
            first_char(s, target) == shift(first_char(s.skip(i - from), target), i - from),
        decreases to - i,
    {
        assert(s[i - from] == v[i as int]);
        if v[i] == target {
            assert(s.skip(i - from)[0] == v[i as int]);
            return Some(i);
        }
        proof {
            lemma_first_char_step(s, target, i - from);
        }
        i = i + 1;
    }
    assert(s.skip(i - from).len() == 0);
    None
}

/// Position of the first ASCII digit in `v[from..to]`.
fn find_digit(v: &Vec<char>, from: usize, to: usize) -> (r: Option<usize>)
    requires
        from <= to <= v.len(),
    ensures
        opt_nat(r) == shift(first_digit(v@.subrange(from as int, to as int)), from as int),
        r matches Some(i) ==> from <= i < to && is_ascii_digit(v@[i as int]),
{
    let ghost s = v@.subrange(from as int, to as int);
    let mut i = from;
    assert(s.skip(0) =~= s);
    while i < to
        invariant
            from <= i <= to <= v.len(),
            s == v@.subrange(from as int, to as int),
            first_digit(s) == shift(first_digit(s.skip(i - from)), i - from),
        decreases to - i,
    {
        assert(s[i - from] == v[i as int]);
        if ascii_digit(v[i]) {
            assert(s.skip(i - from)[0] == v[i as int]);
            return Some(i);
        }
        proof {
            lemma_first_digit_step(s, i - from);
        }
        i = i + 1;
    }
    assert(s.skip(i - from).len() == 0);
    None
}

/// Position of the first ASCII letter in `v[from..to]`.
fn find_alpha(v: &Vec<char>, from: usize, to: usize) -> (r: Option<usize>)
    requires
        from <= to <= v.len(),
    ensures
        opt_nat(r) == shift(first_alpha(v@.subrange(from as int, to as int)), from as int),
        r matches Some(i) ==> from <= i < to,
{
    let ghost s = v@.subrange(from as int, to as int);
    let mut i = from;
    assert(s.skip(0) =~= s);
    while i < to
        invariant
            from <= i <= to <= v.len(),
            s == v@.subrange(from as int, to as int),
            first_alpha(s) == shift(first_alpha(s.skip(i - from)), i - from),
        decreases to - i,
    {
        assert(s[i - from] == v[i as int]);
        if ascii_alpha(v[i]) {
            assert(s.skip(i - from)[0] == v[i as int]);
            return Some(i);
        }
        proof {
            lemma_first_alpha_step(s, i - from);
        }
        i = i + 1;
    }
    assert(s.skip(i - from).len() == 0);
    None
}

proof fn lemma_token_len_step(s: Seq<char>, i: int)
    requires
        0 <= i < s.len(),
        is_token_char(s[i]),
    ensures
        token_len(s.skip(i)) == 1 + token_len(s.skip(i + 1)),
{
    assert(s.skip(i).drop_first() =~= s.skip(i + 1));
}

/// End of the run of token characters starting at `from`.
fn token_end(v: &Vec<char>, from: usize, to: usize) -> (j: usize)
    requires
        from <= to <= v.len(),
    ensures
        from <= j <= to,
        j - from == token_len(v@.subrange(from as int, to as int)),
{
    let ghost s = v@.subrange(from as int, to as int);
    let mut i = from;
    assert(s.skip(0) =~= s);
    while i < to && (ascii_digit(v[i]) || v[i] == '.' || ascii_alpha(v[i]))
        invariant
            from <= i <= to <= v.len(),
            s == v@.subrange(from as int, to as int),
            token_len(s) == (i - from) + token_len(s.skip(i - from)),
        decreases to - i,
    {
        assert(s[i - from] == v[i as int]);
        proof {
            lemma_token_len_step(s, i - from);
        }
        i = i + 1;
    }
    if i < to {
        assert(s.skip(i - from)[0] == v[i as int]);
    } else {
        assert(s.skip(i - from).len() == 0);
    }
    i
}

/// Bounds of the text left after trimming and dropping an optional `tmux`
/// program name.
fn stripped_bounds(v: &Vec<char>) -> (r: (usize, usize))
    ensures
        r.0 <= r.1 <= v.len(),
        v@.subrange(r.0 as int, r.1 as int) == without_program_name(trim(v@)),
{
    let n = v.len();
    let a = skip_white_space(v, 0, n);
    let b = skip_white_space_back(v, a, n);
    assert(v@.subrange(0, n as int) =~= v@);
    let ghost t = v@.subrange(a as int, b as int);
    assert(t == trim(v@));
    if b - a >= 4 && v[a] == 't' && v[a + 1] == 'm' && v[a + 2] == 'u' && v[a + 3] == 'x' {
        assert(t.take(4) =~= seq!['t', 'm', 'u', 'x']);
        assert(t.skip(4) =~= v@.subrange(a + 4, b as int));
        (skip_white_space(v, a + 4, b), b)
    } else {
        assert(b - a >= 4 ==> t.take(4) != seq!['t', 'm', 'u', 'x']) by {
            if b - a >= 4 && t.take(4) == seq!['t', 'm', 'u', 'x'] {
                assert(t.take(4)[0] == v[a as int]);
                assert(t.take(4)[1] == v[a + 1]);
                assert(t.take(4)[2] == v[a + 2]);
                assert(t.take(4)[3] == v[a + 3]);
            }
        }
        (a, b)
    }
}

/// Reads the major and minor fields from the digits and dots `v[from..to]`.
fn read_numeric(v: &Vec<char>, from: usize, to: usize) -> (r: Option<(u32, u32)>)
    requires
        from <= to <= v.len(),
        forall|i: int| from <= i < to ==> is_ascii_digit(#[trigger] v@[i]) || v@[i] == '.',
    ensures
        r == numeric_fields(v@.subrange(from as int, to as int)),
{
    let ghost numeric = v@.subrange(from as int, to as int);
    let dot = find_char(v, from, to, '.');
    let major_end = match dot {
        Some(d) => d,
        None => to,
    };
    proof {
        assert(before_dot(numeric) =~= v@.subrange(from as int, major_end as int));
        assert forall|i: int| 0 <= i < before_dot(numeric).len() implies is_ascii_digit(
            #[trigger] before_dot(numeric)[i],
        ) by {
            lemma_before_first_char(numeric, '.', i);
            assert(numeric[i] == v@[from + i]);
        }
    }
    let major = parse_u32_digits(v, from, major_end);
    let minor: Option<u32> = match dot {
        None => Some(0),
        Some(d) => {
            let second_end = match find_char(v, d + 1, to, '.') {
                Some(e) => e,
                None => to,
            };
            proof {
                assert(numeric.skip(d + 1 - from) =~= v@.subrange(d + 1, to as int));
                let m = before_dot(numeric.skip(d + 1 - from));
                assert(m =~= v@.subrange(d + 1, second_end as int));
                assert forall|i: int| 0 <= i < m.len() implies is_ascii_digit(#[trigger] m[i]) by {
                    lemma_before_first_char(numeric.skip(d + 1 - from), '.', i);
                    assert(m[i] == v@[d + 1 + i]);
                }
            }
            if second_end == d + 1 {
                Some(0)
            } else {
                parse_u32_digits(v, d + 1, second_end)
            }
        },
    };
    match (major, minor) {
        (Some(ma), Some(mi)) => Some((ma, mi)),
        _ => None,
    }
}

/// Reads a version from the token `v[from..to]`.
fn token_version(v: &Vec<char>, from: usize, to: usize) -> (r: Option<TmuxVersion>)
    requires
        from <= to <= v.len(),
        forall|i: int| from <= i < to ==> is_token_char(#[trigger] v@[i]),
    ensures
        r == version_from_token(v@.subrange(from as int, to as int)),
{
    let ghost token = v@.subrange(from as int, to as int);
    let alpha_at = find_alpha(v, from, to);
    let digits_end = match alpha_at {
        Some(x) => x,
        None => to,
    };
    proof {
        assert(token.take(digits_end - from) =~= v@.subrange(from as int, digits_end as int));
        assert forall|i: int| from <= i < digits_end implies is_ascii_digit(#[trigger] v@[i])
            || v@[i] == '.' by {
            assert(token[i - from] == v@[i]);
            lemma_before_first_alpha(token, i - from);
        }
    }
    match read_numeric(v, from, digits_end) {
        None => None,
        Some((major, minor)) => {
            let suffix_ascii: u8 = if digits_end < to {
                assert(token[digits_end - from] == v[digits_end as int]);
                v[digits_end] as u8
            } else {
                0
            };
            Some(TmuxVersion { major, minor, suffix_ascii })
        },
    }
}

impl TmuxVersion {
    /// Parses the output of `tmux -V` (e.g. `"tmux 3.0a"`) or a bare version
    /// string (`"3.4"`, `"next-3.4"`). Returns `None` when no `MAJOR.MINOR`
    /// core can be found.
    pub fn parse(raw: &str) -> (res: Option<TmuxVersion>)
        ensures
            res == spec_parse_version(raw@),
    {
        let v = chars_of(raw);
        let (start, b) = stripped_bounds(&v);
        let ghost s = v@.subrange(start as int, b as int);
        let digit_at = match find_digit(&v, start, b) {
            None => {
                return None;
            },
            Some(d) => d,
        };
        let end = token_end(&v, digit_at, b);
        proof {
            let rest = s.skip(digit_at - start);
            assert(rest =~= v@.subrange(digit_at as int, b as int));
            assert(rest.take(end - digit_at) =~= v@.subrange(digit_at as int, end as int));
            assert forall|i: int| digit_at <= i < end implies is_token_char(#[trigger] v@[i]) by {
                lemma_token_chars(rest, i - digit_at);
                assert(rest[i - digit_at] == v@[i]);
            }
        }
        token_version(&v, digit_at, end)
    }

    /// Whether this version meets the minimum requirement (3.0).
    pub fn is_supported(&self) -> (b: bool)
        ensures
            b == version_le(min_supported_version(), *self),
    {
        self.major >= 3
    }

    /// `MAJOR.MINOR`, followed by the patch letter when there is one.
    pub fn to_string(&self) -> (s: String)
        ensures
            s@ == spec_version_text(*self),
    {
        let mut s = String::new();
        push_decimal(&mut s, self.major as u128);
        push_char(&mut s, '.');
        push_decimal(&mut s, self.minor as u128);
        if self.suffix_ascii != 0 {
            push_char(&mut s, self.suffix_ascii as char);
        }
        assert(s@ =~= spec_version_text(*self));
        s
    }
}

/// Every character of a token run satisfies the token predicate.
proof fn lemma_token_chars(s: Seq<char>, i: int)
    requires
        0 <= i < token_len(s),
    ensures
        i < s.len(),
        is_token_char(s[i]),
    decreases i,
{
    if i > 0 {
        lemma_token_chars(s.drop_first(), i - 1);
        assert(s.drop_first()[i - 1] == s[i]);
    }
}

/// Result of probing the environment for a usable tmux.
#[derive(Debug, Clone)]
pub struct TmuxProbe {
    /// Path/name used to invoke tmux.
    pub binary: String,
    /// Raw `tmux -V` output, trimmed (e.g. `"tmux 3.0a"`).
    pub raw_version: String,
    /// Parsed version, if `tmux -V` was understood.
    pub version: Option<TmuxVersion>,
}

impl TmuxProbe {
    /// True when tmux is present and meets the minimum version.
    pub fn is_usable(&self) -> (b: bool)
        ensures
            b == match self.version {
                Some(v) => version_le(min_supported_version(), v),
                None => false,
            },
    {
        match self.version {
            Some(v) => v.is_supported(),
            None => false,
        }
    }
}

/// Version order is a total order.
pub proof fn version_order_is_total(a: TmuxVersion, b: TmuxVersion, c: TmuxVersion)
    ensures
        version_le(a, a),
        version_le(a, b) || version_le(b, a),
        version_le(a, b) && version_le(b, a) ==> a == b,
        version_le(a, b) && version_le(b, c) ==> version_le(a, c),
{
}

/// The probe's verdict on the output of `binary -V`: a failed run is
/// reported with its exit status and its trimmed error output; otherwise the
/// trimmed output is kept and parsed.
pub open spec fn spec_probe(binary: Seq<char>, success: bool, status: Seq<char>, stdout: Seq<u8>, stderr: Seq<u8>) -> Result<(Seq<char>, Option<TmuxVersion>), Seq<char>> {
    if !success {
        Err("`"@ + binary + " -V` exited with "@ + status + ": "@ + trim(utf8_lossy(stderr)))
    } else {
        let raw = trim(utf8_lossy(stdout));
        Ok((raw, spec_parse_version(raw)))
    }
}

/// What running `binary -V` says about tmux; `status` is how the binary
/// describes the exit status.
pub fn probe_from_output(binary: &str, success: bool, status: &str, stdout: &[u8], stderr: &[u8]) -> (r: Result<TmuxProbe, String>)
    ensures
        match spec_probe(binary@, success, status@, stdout@, stderr@) {
            Ok((raw, version)) => r matches Ok(p) && p.binary@ == binary@ && p.raw_version@ == raw && p.version == version,
            Err(msg) => r matches Err(m) && m@ == msg,
        },
{
    if !success {
        let err = string_of(&trimmed(&lossy_chars(stderr)));
        let mut msg = String::new();
        push_str(&mut msg, "`");
        push_str(&mut msg, binary);
        push_str(&mut msg, " -V` exited with ");
        push_str(&mut msg, status);
        push_str(&mut msg, ": ");
        push_str(&mut msg, err.as_str());
        return Err(msg);
    }
    let raw_version = string_of(&trimmed(&lossy_chars(stdout)));
    let version = TmuxVersion::parse(raw_version.as_str());
    Ok(TmuxProbe { binary: binary.to_owned(), raw_version, version })
}

/// The probe's message when `binary -V` could not be started at all, with
/// the reason `error` the system gave.
pub open spec fn spec_start_failure(binary: Seq<char>, error: Seq<char>) -> Seq<char> {
    "could not run `"@ + binary + " -V`: "@ + error + " (is tmux installed and on PATH?)"@
}

/// What the probe reports when `binary -V` could not be started.
pub fn probe_start_failure(binary: &str, error: &str) -> (m: String)
    ensures
        m@ == spec_start_failure(binary@, error@),
{
    let mut m = String::new();
    push_str(&mut m, "could not run `");
    push_str(&mut m, binary);
    push_str(&mut m, " -V`: ");
    push_str(&mut m, error);
    push_str(&mut m, " (is tmux installed and on PATH?)");
    m
}

/// The version read from the token that starts at the first ASCII digit of
/// `s`, or `None` when `s` has no digit.
pub open spec fn read_from_first_digit(s: Seq<char>) -> Option<TmuxVersion> {
    match first_digit(s) {
        None => None,
        Some(start) => {
            let rest = s.skip(start as int);
            version_from_token(rest.take(token_len(rest) as int))
        },
    }
}

/// Text before the first digit does not change what is read.
proof fn lemma_read_skips_prefix(x: Seq<char>, k: int)
    requires
        0 <= k <= x.len(),
        forall|j: int| 0 <= j < k ==> !is_ascii_digit(#[trigger] x[j]),
    ensures
        read_from_first_digit(x) == read_from_first_digit(x.skip(k)),
    decreases k,
{
    if k == 0 {
        assert(x.skip(0) =~= x);
    } else {
        let d = x.drop_first();
        assert forall|j: int| 0 <= j < k - 1 implies !is_ascii_digit(#[trigger] d[j]) by {
            assert(d[j] == x[j + 1]);
        }
        lemma_read_skips_prefix(d, k - 1);
        assert(d.skip(k - 1) =~= x.skip(k));
        assert(!is_ascii_digit(x[0]));
        match first_digit(d) {
            Some(i) => {
                lemma_first_digit_bound(d);
                assert(first_digit(x) == Some((i + 1) as nat));
                assert(x.skip(i + 1 as int) =~= d.skip(i as int));
            },
            None => {},
        }
    }
}

proof fn lemma_token_len_bound(w: Seq<char>)
    ensures
        token_len(w) <= w.len(),
    decreases w.len(),
{
    if w.len() > 0 && is_token_char(w[0]) {
        lemma_token_len_bound(w.drop_first());
    }
}

/// A character that is no token character at the end changes no token.
proof fn lemma_token_len_push(w: Seq<char>, c: char)
    requires
        !is_token_char(c),
    ensures
        token_len(w.push(c)) == token_len(w),
    decreases w.len(),
{
    if w.len() > 0 {
        assert(w.push(c).drop_first() =~= w.drop_first().push(c));
        lemma_token_len_push(w.drop_first(), c);
    } else {
        assert(w.push(c)[0] == c);
    }
}

proof fn lemma_first_digit_push(w: Seq<char>, c: char)
    requires
        !is_ascii_digit(c),
    ensures
        first_digit(w.push(c)) == first_digit(w),
    decreases w.len(),
{
    if w.len() > 0 {
        assert(w.push(c).drop_first() =~= w.drop_first().push(c));
        lemma_first_digit_push(w.drop_first(), c);
    } else {
        assert(w.push(c).drop_first() =~= w);
    }
}

/// Text after the token at the first digit, when it starts with no token
/// character, does not change what is read.
proof fn lemma_read_drops_suffix(y: Seq<char>, m: int)
    requires
        0 <= m <= y.len(),
        forall|j: int| m <= j < y.len() ==> !is_token_char(#[trigger] y[j]),
    ensures
        read_from_first_digit(y.take(m)) == read_from_first_digit(y),
    decreases y.len() - m,
{
    if m == y.len() {
        assert(y.take(m) =~= y);
    } else {
        let z = y.drop_last();
        let c = y.last();
        assert(y =~= z.push(c));
        assert forall|j: int| m <= j < z.len() implies !is_token_char(#[trigger] z[j]) by {
            assert(z[j] == y[j]);
        }
        lemma_read_drops_suffix(z, m);
        assert(z.take(m) =~= y.take(m));
        lemma_first_digit_push(z, c);
        match first_digit(z) {
            Some(i) => {
                lemma_first_digit_bound(z);
                assert(y.skip(i as int) =~= z.skip(i as int).push(c));
                lemma_token_len_push(z.skip(i as int), c);
                lemma_token_len_bound(z.skip(i as int));
                let t = token_len(z.skip(i as int)) as int;
                assert(y.skip(i as int).take(t) =~= z.skip(i as int).take(t));
            },
            None => {},
        }
    }
}

proof fn lemma_first_digit_bound(w: Seq<char>)
    ensures
        first_digit(w) matches Some(i) ==> i < w.len() && is_ascii_digit(w[i as int]),
    decreases w.len(),
{
    if w.len() > 0 && !is_ascii_digit(w[0]) {
        lemma_first_digit_bound(w.drop_first());
        if let Some(i) = first_digit(w.drop_first()) {
            assert(w[i + 1 as int] == w.drop_first()[i as int]);
        }
    }
}

/// Leading white space is a prefix without digits.
proof fn lemma_trim_start_skips(x: Seq<char>) -> (k: int)
    ensures
        0 <= k <= x.len(),
        trim_start(x) == x.skip(k),
        forall|j: int| 0 <= j < k ==> is_white_space(#[trigger] x[j]),
    decreases x.len(),
{
    if x.len() > 0 && is_white_space(x[0]) {
        let k1 = lemma_trim_start_skips(x.drop_first());
        assert(x.drop_first().skip(k1) =~= x.skip(k1 + 1));
        assert forall|j: int| 0 <= j < k1 + 1 implies is_white_space(#[trigger] x[j]) by {
            if j > 0 {
                assert(x[j] == x.drop_first()[j - 1]);
            }
        }
        k1 + 1
    } else {
        assert(x.skip(0) =~= x);
        0
    }
}

/// Trailing white space is a suffix without token characters.
proof fn lemma_trim_end_takes(y: Seq<char>) -> (m: int)
    ensures
        0 <= m <= y.len(),
        trim_end(y) == y.take(m),
        forall|j: int| m <= j < y.len() ==> is_white_space(#[trigger] y[j]),
    decreases y.len(),
{
    if y.len() > 0 && is_white_space(y.last()) {
        let m1 = lemma_trim_end_takes(y.drop_last());
        assert(y.drop_last().take(m1) =~= y.take(m1));
        assert forall|j: int| m1 <= j < y.len() implies is_white_space(#[trigger] y[j]) by {
            if j < y.len() - 1 {
                assert(y[j] == y.drop_last()[j]);
            }
        }
        m1
    } else {
        assert(y.take(y.len() as int) =~= y);
        y.len() as int
    }
}

/// Trimming and the program name never reach past the first digit: parsing
/// reads the token at the first ASCII digit of the raw text.
proof fn lemma_parse_reads_first_digit(raw: Seq<char>)
    ensures
        spec_parse_version(raw) == read_from_first_digit(raw),
{
    let k = lemma_trim_start_skips(raw);
    let t0 = trim_start(raw);
    lemma_read_skips_prefix(raw, k);
    let m = lemma_trim_end_takes(t0);
    assert forall|j: int| m <= j < t0.len() implies !is_token_char(#[trigger] t0[j]) by {
        assert(is_white_space(t0[j]));
    }
    lemma_read_drops_suffix(t0, m);
    let t1 = trim(raw);
    assert(t1 == t0.take(m));
    if t1.len() >= 4 && t1.take(4) == seq!['t', 'm', 'u', 'x'] {
        assert forall|j: int| 0 <= j < 4 implies !is_ascii_digit(#[trigger] t1[j]) by {
            assert(t1[j] == t1.take(4)[j]);
        }
        lemma_read_skips_prefix(t1, 4);
        let u = t1.skip(4);
        let k2 = lemma_trim_start_skips(u);
        lemma_read_skips_prefix(u, k2);
    }
}

/// Text without digits in front of a version does not change it:
/// `parse("tmux next-3.4") == parse("3.4")`.
pub proof fn parse_skips_text_without_digits(p: Seq<char>, s: Seq<char>)
    requires
        forall|i: int| 0 <= i < p.len() ==> !is_ascii_digit(#[trigger] p[i]),
    ensures
        spec_parse_version(p + s) == spec_parse_version(s),
{
    lemma_parse_reads_first_digit(p + s);
    lemma_parse_reads_first_digit(s);
    assert forall|j: int| 0 <= j < p.len() implies !is_ascii_digit(#[trigger] (p + s)[j]) by {
        assert((p + s)[j] == p[j]);
    }
    lemma_read_skips_prefix(p + s, p.len() as int);
    assert((p + s).skip(p.len() as int) =~= s);
}

/// Text without any ASCII digit holds no version.
pub proof fn parse_needs_a_digit(r: Seq<char>)
    requires
        forall|i: int| 0 <= i < r.len() ==> !is_ascii_digit(#[trigger] r[i]),
    ensures
        spec_parse_version(r) is None,
{
    lemma_parse_reads_first_digit(r);
    lemma_read_skips_prefix(r, r.len() as int);
    assert(r.skip(r.len() as int) =~= Seq::<char>::empty());
}

pub(crate) proof fn lemma_dec_digits_are_digits(n: nat)
    ensures
        dec_digits(n).len() >= 1,
        forall|i: int| 0 <= i < dec_digits(n).len() ==> is_ascii_digit(#[trigger] dec_digits(n)[i]),
        digits_value(dec_digits(n)) == n,
    decreases n,
{
    let d = dec_digits(n);
    if n < 10 {
        assert(d.drop_last() =~= Seq::<char>::empty());
        assert(d.last() as nat == n + 48);
        assert(digits_value(d) == 10 * digits_value(d.drop_last()) + (d.last() as nat - 48) as nat);
        assert(digits_value(Seq::<char>::empty()) == 0);
    } else {
        lemma_dec_digits_are_digits(n / 10);
        assert(d.drop_last() =~= dec_digits(n / 10));
        assert(d.last() as nat == n % 10 + 48);
        assert(digits_value(d) == 10 * digits_value(d.drop_last()) + (d.last() as nat - 48) as nat);
        assert(digits_value(d) == 10 * (n / 10) + n % 10);
        assert forall|i: int| 0 <= i < d.len() implies is_ascii_digit(#[trigger] d[i]) by {
            if i < d.len() - 1 {
                assert(d[i] == dec_digits(n / 10)[i]);
            }
        }
    }
}

proof fn lemma_token_len_all(w: Seq<char>)
    requires
        forall|i: int| 0 <= i < w.len() ==> is_token_char(#[trigger] w[i]),
    ensures
        token_len(w) == w.len(),
    decreases w.len(),
{
    if w.len() > 0 {
        assert forall|i: int| 0 <= i < w.len() - 1 implies is_token_char(#[trigger] w.drop_first()[i]) by {
            assert(w.drop_first()[i] == w[i + 1]);
        }
        lemma_token_len_all(w.drop_first());
    }
}

/// The first `t` in `a + seq![t] + b` is the one after `a`, when `a` holds
/// no `t`; a sequence without `t` has none.
proof fn lemma_first_char_at(a: Seq<char>, t: char, b: Seq<char>)
    requires
        forall|i: int| 0 <= i < a.len() ==> #[trigger] a[i] != t,
    ensures
        first_char(a + seq![t] + b, t) == Some(a.len()),
        first_char(a, t) is None,
    decreases a.len(),
{
    if a.len() > 0 {
        assert forall|i: int| 0 <= i < a.len() - 1 implies #[trigger] a.drop_first()[i] != t by {
            assert(a.drop_first()[i] == a[i + 1]);
        }
        lemma_first_char_at(a.drop_first(), t, b);
        assert((a + seq![t] + b).drop_first() =~= a.drop_first() + seq![t] + b);
    } else {
        assert((a + seq![t] + b)[0] == t);
    }
}

/// The first letter of `a.push(l)` is `l`, when `a` holds no letter; a
/// sequence without letters has none.
proof fn lemma_first_alpha_at(a: Seq<char>, l: char)
    requires
        forall|i: int| 0 <= i < a.len() ==> !is_ascii_alpha(#[trigger] a[i]),
        is_ascii_alpha(l),
    ensures
        first_alpha(a.push(l)) == Some(a.len()),
        first_alpha(a) is None,
    decreases a.len(),
{
    if a.len() > 0 {
        assert forall|i: int| 0 <= i < a.len() - 1 implies !is_ascii_alpha(#[trigger] a.drop_first()[i]) by {
            assert(a.drop_first()[i] == a[i + 1]);
        }
        lemma_first_alpha_at(a.drop_first(), l);
        assert(a.push(l).drop_first() =~= a.drop_first().push(l));
    } else {
        assert(a.push(l)[0] == l);
    }
}

/// Reading back the text of a version gives the version, for a version
/// without a patch letter or with an ASCII letter as its patch.
pub proof fn parse_reads_back_version_text(v: TmuxVersion)
    requires
        v.suffix_ascii == 0 || is_ascii_alpha(v.suffix_ascii as char),
    ensures
        spec_parse_version(spec_version_text(v)) == Some(v),
{
    lemma_parse_reads_first_digit(spec_version_text(v));
    lemma_dec_digits_are_digits(v.major as nat);
    lemma_dec_digits_are_digits(v.minor as nat);
    let d1 = dec_digits(v.major as nat);
    let d2 = dec_digits(v.minor as nat);
    let num = d1 + seq!['.'] + d2;
    let text = spec_version_text(v);
    assert forall|i: int| 0 <= i < num.len() implies !is_ascii_alpha(#[trigger] num[i]) && is_token_char(num[i]) by {
        if i < d1.len() {
            assert(num[i] == d1[i]);
        } else if i > d1.len() {
            assert(num[i] == d2[i - d1.len() - 1]);
        }
    }
    assert(first_digit(text) == Some(0nat)) by {
        assert(text[0] == d1[0]);
    }
    assert(text.skip(0) =~= text);
    assert forall|i: int| 0 <= i < text.len() implies is_token_char(#[trigger] text[i]) by {
        if i < num.len() {
            assert(text[i] == num[i]);
        }
    }
    lemma_token_len_all(text);
    assert(text.take(text.len() as int) =~= text);
    if v.suffix_ascii != 0 {
        assert(text =~= num.push(v.suffix_ascii as char));
        lemma_first_alpha_at(num, v.suffix_ascii as char);
        assert(text.take(num.len() as int) =~= num);
    } else {
        assert(text =~= num);
        lemma_first_alpha_at(num, 'a');
        assert(text.take(num.len() as int) =~= num);
    }
    assert forall|i: int| 0 <= i < d1.len() implies #[trigger] d1[i] != '.' by {
        assert(is_ascii_digit(d1[i]));
    }
    assert forall|i: int| 0 <= i < d2.len() implies #[trigger] d2[i] != '.' by {
        assert(is_ascii_digit(d2[i]));
    }
    lemma_first_char_at(d1, '.', d2);
    lemma_first_char_at(d2, '.', Seq::<char>::empty());
    assert(num.take(d1.len() as int) =~= d1);
    assert(num.skip(d1.len() + 1 as int) =~= d2);
    assert(before_dot(num) == d1);
    assert(before_dot(d2) == d2);
    assert(second_field(num) == Some(d2));
}

} // verus!
