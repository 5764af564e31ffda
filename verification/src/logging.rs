//! The `RUST_LOG` directive syntax: a default level and levels per target.
use vstd::prelude::*;

use crate::text::{chars_of, slice_chars, split_at_commas, split_commas, string_from_chars, trim, trim_range};

verus! {

/// A log level filter, from no output to everything.
#[derive(Debug, Clone, Copy, PartialEq, Eq)]
pub enum LevelFilter {
    Off,
    Error,
    Warn,
    Info,
    Debug,
    Trace,
}

/// ASCII letters in lower case, other characters unchanged.
pub open spec fn ascii_lower(s: Seq<char>) -> Seq<char> {
    s.map_values(|c: char| if 'A' <= c <= 'Z' { ((c as u8) + 32u8) as char } else { c })
}

/// The level a name stands for, compared without regard to ASCII case, as
/// the `log` crate reads level names.
pub open spec fn level_named(name: Seq<char>) -> Option<LevelFilter> {
    let n = ascii_lower(name);
    if n == "off"@ {
        Some(LevelFilter::Off)
    } else if n == "error"@ {
        Some(LevelFilter::Error)
    } else if n == "warn"@ {
        Some(LevelFilter::Warn)
    } else if n == "info"@ {
        Some(LevelFilter::Info)
    } else if n == "debug"@ {
        Some(LevelFilter::Debug)
    } else if n == "trace"@ {
        Some(LevelFilter::Trace)
    } else {
        None
    }
}

fn lower_ascii(s: &[char]) -> (r: Vec<char>)
    ensures
        r@ == ascii_lower(s@),
{
    let mut r: Vec<char> = Vec::new();
    let mut i: usize = 0;
    while i < s.len()
        invariant
            i <= s@.len(),
            r@ == ascii_lower(s@.take(i as int)),
        decreases s.len() - i,
    {
        let c = s[i];
        let d = if 'A' <= c && c <= 'Z' { ((c as u8) + 32) as char } else { c };
        r.push(d);
        assert(ascii_lower(s@.take(i + 1)) =~= ascii_lower(s@.take(i as int)).push(d));
        i = i + 1;
    }
    assert(s@.take(s@.len() as int) =~= s@);
    r
}

/// The level a name stands for, if any.
pub fn parse_level(name: &[char]) -> (r: Option<LevelFilter>)
    ensures
        r == level_named(name@),
{
    proof {
        reveal_strlit("off");
        reveal_strlit("error");
        reveal_strlit("warn");
        reveal_strlit("info");
        reveal_strlit("debug");
        reveal_strlit("trace");
    }
    let n = lower_ascii(name);
    let eq = |w: &str| -> (b: bool)
        ensures
            b == (n@ == w@),
    {
        let wc = chars_of(w);
        crate::text::chars_eq(n.as_slice(), wc.as_slice())
    };
    if eq("off") {
        Some(LevelFilter::Off)
    } else if eq("error") {
        Some(LevelFilter::Error)
    } else if eq("warn") {
        Some(LevelFilter::Warn)
    } else if eq("info") {
        Some(LevelFilter::Info)
    } else if eq("debug") {
        Some(LevelFilter::Debug)
    } else if eq("trace") {
        Some(LevelFilter::Trace)
    } else {
        None
    }
}

/// Position of the first `=`, or none.
pub open spec fn first_eq(s: Seq<char>) -> Option<int> {
    if exists|i: int| 0 <= i < s.len() && s[i] == '=' {
        Some(choose|i: int| 0 <= i < s.len() && s[i] == '=' && forall|j: int| 0 <= j < i ==> s[j] != '=')
    } else {
        None
    }
}

/// One directive: `target=level` or `level`; the parts trimmed.
pub open spec fn directive_parts(d: Seq<char>) -> (Option<Seq<char>>, Seq<char>) {
    match first_eq(d) {
        Some(i) => (Some(trim(d.take(i))), trim(d.skip(i + 1))),
        None => (None, d),
    }
}

/// The default level and the per-target levels that the first `k`
/// comma-separated directives set: blank directives and unknown levels are
/// ignored, a directive without a target (or with a blank one) sets the
/// default, and a later default wins.
pub open spec fn directives(parts: Seq<Seq<char>>, k: int) -> (Option<LevelFilter>, Seq<(Seq<char>, LevelFilter)>)
    decreases k,
{
    if k <= 0 || k > parts.len() {
        (None, seq![])
    } else {
        let (default, loggers) = directives(parts, k - 1);
        let d = trim(parts[k - 1]);
        if d.len() == 0 {
            (default, loggers)
        } else {
            let (target, level_text) = directive_parts(d);
            match level_named(level_text) {
                None => (default, loggers),
                Some(level) => match target {
                    Some(t) => if t.len() > 0 {
                        (default, loggers.push((t, level)))
                    } else {
                        (Some(level), loggers)
                    },
                    None => (Some(level), loggers),
                },
            }
        }
    }
}

/// The settings of a `RUST_LOG` value.
pub open spec fn rust_log(value: Seq<char>) -> (Option<LevelFilter>, Seq<(Seq<char>, LevelFilter)>) {
    directives(split_commas(value), split_commas(value).len() as int)
}

fn find_eq(s: &[char]) -> (r: Option<usize>)
    ensures
        match r {
            Some(i) => first_eq(s@) == Some(i as int) && i < s@.len(),
            None => first_eq(s@) is None,
        },
{
    let mut i: usize = 0;
    while i < s.len()
        invariant
            i <= s@.len(),
            forall|j: int| 0 <= j < i ==> s@[j] != '=',
        decreases s.len() - i,
    {
        if s[i] == '=' {
            proof {
                let w = choose|w: int| 0 <= w < s@.len() && s@[w] == '=' && forall|j: int| 0 <= j < w ==> s@[j] != '=';
                if w < i {
                    assert(s@[w] != '=');
                } else if w > i {
                    assert(s@[i as int] != '=');
                }
            }
            return Some(i);
        }
        i = i + 1;
    }
    None
}

/// Levels per target, as plain values.
pub open spec fn loggers_view(v: Seq<(String, LevelFilter)>) -> Seq<(Seq<char>, LevelFilter)> {
    v.map_values(|p: (String, LevelFilter)| (p.0@, p.1))
}

/// Reads a `RUST_LOG` value into a default level and levels per target.
pub fn parse_rust_log(rust_log_value: &str) -> (r: (Option<LevelFilter>, Vec<(String, LevelFilter)>))
    ensures
        (r.0, loggers_view(r.1@)) == rust_log(rust_log_value@),
{
    let cs = chars_of(rust_log_value);
    let parts = split_at_commas(cs.as_slice());
    let ghost pv = parts@.map_values(|p: Vec<char>| p@);
    let mut default: Option<LevelFilter> = None;
    let mut loggers: Vec<(String, LevelFilter)> = Vec::new();
    let mut k: usize = 0;
    while k < parts.len()
        invariant
            k <= parts@.len() == pv.len(),
            pv == split_commas(rust_log_value@),
            pv == parts@.map_values(|p: Vec<char>| p@),
            (default, loggers_view(loggers@)) == directives(pv, k as int),
        decreases parts.len() - k,
    {
        let part = &parts[k];
        assert(pv[k as int] == part@);
        let (a, b) = trim_range(part.as_slice());
        let d = slice_chars(part.as_slice(), a, b);
        if d.len() > 0 {
            let (target, level_text): (Option<Vec<char>>, Vec<char>) = match find_eq(d.as_slice()) {
                Some(i) => {
                    let left = slice_chars(d.as_slice(), 0, i);
                    let right = slice_chars(d.as_slice(), i + 1, d.len());
                    let (la, lb) = trim_range(left.as_slice());
                    let (ra, rb) = trim_range(right.as_slice());
                    proof {
                        assert(left@ =~= d@.take(i as int));
                        assert(right@ =~= d@.skip(i + 1));
                    }
                    (Some(slice_chars(left.as_slice(), la, lb)), slice_chars(right.as_slice(), ra, rb))
                },
                None => (None, d),
            };
            match parse_level(level_text.as_slice()) {
                None => {},
                Some(level) => match target {
                    Some(t) => {
                        if t.len() > 0 {
                            let ghost before = loggers@;
                            loggers.push((string_from_chars(t.as_slice()), level));
                            assert(loggers_view(loggers@) =~= loggers_view(before).push((t@, level)));
                        } else {
                            default = Some(level);
                        }
                    },
                    None => {
                        default = Some(level);
                    },
                },
            }
        }
        k = k + 1;
    }
    (default, loggers)
}

} // verus!
