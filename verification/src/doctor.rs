//! The verdicts and lines of `tuimux --doctor`. The binary reads the
//! environment and prints; what the readings mean is decided here.

use vstd::prelude::*;

use crate::text::{chars_of, push_spaces, push_str};
use crate::tmux::{TmuxVersion, min_supported_version, spec_version_text, version_le};

verus! {

/// A terminal type the interface can draw on: set, and not `dumb`.
pub fn term_supported(term: &str) -> (b: bool)
    ensures
        b == (term@.len() > 0 && term@ != "dumb"@),
{
    if term.is_empty() {
        return false;
    }
    let v = chars_of(term);
    proof {
        reveal_strlit("dumb");
    }
    let same = v.len() == 4 && v[0] == 'd' && v[1] == 'u' && v[2] == 'm' && v[3] == 'b';
    proof {
        if same {
            assert(v@ =~= "dumb"@);
        } else if v@ == "dumb"@ {
            assert(v@[0] == 'd' && v@[1] == 'u' && v@[2] == 'm' && v@[3] == 'b');
        }
    }
    !same
}

/// Whether `t` occurs in `s`.
pub open spec fn occurs_in(s: Seq<char>, t: Seq<char>) -> bool {
    exists|i: int| 0 <= i && i + t.len() <= s.len() && #[trigger] s.subrange(i, i + t.len()) == t
}

fn occurs_at(s: &Vec<char>, t: &Vec<char>, i: usize) -> (b: bool)
    requires
        i + t.len() <= s.len(),
    ensures
        b == (s@.subrange(i as int, i + t.len()) == t@),
{
    let mut j: usize = 0;
    while j < t.len()
        invariant
            i + t.len() <= s.len(),
            j <= t.len(),
            s@.subrange(i as int, i + j) == t@.take(j as int),
        decreases t.len() - j,
    {
        if s[i + j] != t[j] {
            assert(s@.subrange(i as int, i + t.len())[j as int] == s@[i + j]);
            return false;
        }
        assert(s@.subrange(i as int, i + j + 1) =~= s@.subrange(i as int, i + j).push(s@[i + j]));
        assert(t@.take(j + 1) =~= t@.take(j as int).push(t@[j as int]));
        j = j + 1;
    }
    assert(t@.take(t.len() as int) =~= t@);
    true
}

fn occurs(s: &Vec<char>, t: &Vec<char>) -> (b: bool)
    ensures
        b == occurs_in(s@, t@),
{
    if t.len() > s.len() {
        return false;
    }
    if t.len() == 0 {
        assert(s@.subrange(0int, 0int + t@.len()) =~= t@);
        assert(0 + t@.len() <= s@.len());
        return true;
    }
    let mut i: usize = 0;
    let last = s.len() - t.len();
    while i <= last
        invariant
            t.len() <= s.len(),
            last == s.len() - t.len(),
            i <= last + 1,
            0 < t.len(),
            forall|k: int| 0 <= k < i ==> #[trigger] s@.subrange(k, k + t.len()) != t@,
        decreases last + 1 - i,
    {
        if occurs_at(s, t, i) {
            return true;
        }
        i = i + 1;
    }
    false
}

/// `COLORTERM` announces 24-bit colour.
pub fn colorterm_truecolor(colorterm: &str) -> (b: bool)
    ensures
        b == (occurs_in(colorterm@, "truecolor"@) || occurs_in(colorterm@, "24bit"@)),
{
    let v = chars_of(colorterm);
    occurs(&v, &chars_of("truecolor")) || occurs(&v, &chars_of("24bit"))
}

/// One checklist line: a check mark or a cross, the label padded to 16
/// characters, and the detail.
pub open spec fn spec_check_line(label: Seq<char>, ok: bool, detail: Seq<char>) -> Seq<char> {
    (if ok { "✓"@ } else { "✗"@ }) + seq![' '] + label + crate::text::spaces(
        if label.len() < 16 { (16 - label.len()) as nat } else { 0 },
    ) + ": "@ + detail
}

/// One checklist line.
pub fn check_line(label: &str, ok: bool, detail: &str) -> (r: String)
    ensures
        r@ == spec_check_line(label@, ok, detail@),
{
    let mut s = String::new();
    push_str(&mut s, if ok { "✓" } else { "✗" });
    push_str(&mut s, " ");
    push_str(&mut s, label);
    let n = chars_of(label).len();
    push_spaces(&mut s, if n < 16 { 16 - n } else { 0 });
    push_str(&mut s, ": ");
    push_str(&mut s, detail);
    assert(" "@ =~= seq![' ']) by {
        reveal_strlit(" ");
    }
    s
}

/// The detail of the tmux version line.
pub open spec fn spec_version_detail(version: Option<TmuxVersion>, raw: Seq<char>) -> Seq<char> {
    match version {
        Some(v) => if version_le(min_supported_version(), v) {
            spec_version_text(v) + " (>= "@ + spec_version_text(min_supported_version()) + " for --native-client)"@
        } else {
            spec_version_text(v) + " is too old for --native-client; native tuimux is unaffected; recommended >= "@
                + spec_version_text(min_supported_version())
        },
        None => "could not parse `"@ + raw + "`; native tuimux is unaffected"@,
    }
}

/// The detail of the tmux version line: tmux is only the optional fallback.
pub fn version_detail(version: Option<TmuxVersion>, raw: &str) -> (r: String)
    ensures
        r@ == spec_version_detail(version, raw@),
{
    let mut s = String::new();
    match version {
        Some(v) => {
            push_str(&mut s, v.to_string().as_str());
            if v.is_supported() {
                push_str(&mut s, " (>= ");
                push_str(&mut s, crate::tmux::min_supported().to_string().as_str());
                push_str(&mut s, " for --native-client)");
            } else {
                push_str(&mut s, " is too old for --native-client; native tuimux is unaffected; recommended >= ");
                push_str(&mut s, crate::tmux::min_supported().to_string().as_str());
            }
        },
        None => {
            push_str(&mut s, "could not parse `");
            push_str(&mut s, raw);
            push_str(&mut s, "`; native tuimux is unaffected");
        },
    }
    s
}

/// The detail of the tmux line when no tmux could be run.
pub fn missing_tmux_detail(err: &str) -> (r: String)
    ensures
        r@ == "not available ("@ + err@ + "); native tuimux does not require tmux"@,
{
    let mut s = String::new();
    push_str(&mut s, "not available (");
    push_str(&mut s, err);
    push_str(&mut s, "); native tuimux does not require tmux");
    s
}

/// The doctor's exit code: 0 when every required check passed.
pub fn doctor_exit_code(ok: bool) -> (c: i32)
    ensures
        c == if ok { 0i32 } else { 1i32 },
{
    if ok {
        0
    } else {
        1
    }
}

/// The detail of the TERM line: the value, or `(unset)` when it is empty.
pub fn term_detail(term: &str) -> (r: String)
    ensures
        r@ == if term@.len() == 0 { "(unset)"@ } else { term@ },
{
    let mut s = String::new();
    if chars_of(term).len() == 0 {
        push_str(&mut s, "(unset)");
    } else {
        push_str(&mut s, term);
    }
    s
}

/// Whether the environment passes, and the closing result line: it passes
/// exactly when TERM is usable, as the other lines are informational.
pub fn doctor_verdict(term_ok: bool) -> (r: (bool, String))
    ensures
        r.0 == term_ok,
        r.1@ == if term_ok {
            "Result: OK — environment looks ready for tuimux."@
        } else {
            "Result: PROBLEMS FOUND — see the ✗ lines above."@
        },
{
    let mut s = String::new();
    if term_ok {
        push_str(&mut s, "Result: OK — environment looks ready for tuimux.");
    } else {
        push_str(&mut s, "Result: PROBLEMS FOUND — see the ✗ lines above.");
    }
    (term_ok, s)
}

} // verus!
