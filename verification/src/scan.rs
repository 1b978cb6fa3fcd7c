//! Quote-aware scans over template text: forbidden shell syntax, the
//! parenthesis that closes a group, and splitting at top-level separators.

use vstd::prelude::*;
use crate::text::{copy_range, spec_starts_with, spec_trim, starts_with, to_chars, trim_bounds};

verus! {

/// Whether `s[i..]` holds shell syntax that portable templates reject, when
/// scanning starts inside the quote `quote` (if any): a backquote anywhere,
/// or, outside quotes, `;`, `&&` or `||`. Inside double quotes a backslash
/// escapes the next character; single quotes escape nothing.
pub open spec fn spec_forbidden_from(s: Seq<char>, i: int, quote: Option<char>) -> bool
    decreases s.len() - i,
{
    if i < 0 || i >= s.len() {
        false
    } else {
        let c = s[i];
        match quote {
            Some(q) => {
                if q == '"' && c == '\\' && i + 1 < s.len() {
                    spec_forbidden_from(s, i + 2, quote)
                } else if c == q {
                    spec_forbidden_from(s, i + 1, None)
                } else if c == '`' {
                    true
                } else {
                    spec_forbidden_from(s, i + 1, quote)
                }
            },
            None => {
                if c == '\'' || c == '"' {
                    spec_forbidden_from(s, i + 1, Some(c))
                } else if c == '`' || c == ';' {
                    true
                } else if c == '&' && i + 1 < s.len() && s[i + 1] == '&' {
                    true
                } else if c == '|' && i + 1 < s.len() && s[i + 1] == '|' {
                    true
                } else {
                    spec_forbidden_from(s, i + 1, None)
                }
            },
        }
    }
}

pub open spec fn spec_forbidden(s: Seq<char>) -> bool {
    spec_forbidden_from(s, 0, None)
}

/// The index of the `)` that closes a group opened just before `s[i..]`,
/// given `depth` groups opened inside it and the quote state; quotes are
/// skipped without escapes.
pub open spec fn spec_matching_paren_from(
    s: Seq<char>,
    i: int,
    depth: nat,
    quote: Option<char>,
) -> Option<int>
    decreases s.len() - i,
{
    if i < 0 || i >= s.len() {
        None
    } else {
        let c = s[i];
        match quote {
            Some(q) => if c == q {
                spec_matching_paren_from(s, i + 1, depth, None)
            } else {
                spec_matching_paren_from(s, i + 1, depth, quote)
            },
            None => {
                if c == '\'' || c == '"' {
                    spec_matching_paren_from(s, i + 1, depth, Some(c))
                } else if c == '(' {
                    spec_matching_paren_from(s, i + 1, depth + 1, None)
                } else if c == ')' {
                    if depth == 0 {
                        Some(i)
                    } else {
                        spec_matching_paren_from(s, i + 1, (depth - 1) as nat, None)
                    }
                } else {
                    spec_matching_paren_from(s, i + 1, depth, None)
                }
            },
        }
    }
}

pub open spec fn spec_matching_paren(s: Seq<char>) -> Option<int> {
    spec_matching_paren_from(s, 0, 0, None)
}

/// The pieces of `s[start..]` between top-level occurrences of `sep` (outside
/// quotes and parentheses), appended to `acc`; scanning is at `i`.
pub open spec fn spec_split_top_from(
    s: Seq<char>,
    sep: char,
    i: int,
    start: int,
    depth: nat,
    quote: Option<char>,
    acc: Seq<Seq<char>>,
) -> Seq<Seq<char>>
    decreases s.len() - i,
{
    if i < 0 || i >= s.len() {
        acc.push(s.subrange(start, s.len() as int))
    } else {
        let c = s[i];
        match quote {
            Some(x) => if c == x {
                spec_split_top_from(s, sep, i + 1, start, depth, None, acc)
            } else {
                spec_split_top_from(s, sep, i + 1, start, depth, quote, acc)
            },
            None => {
                if c == '\'' || c == '"' {
                    spec_split_top_from(s, sep, i + 1, start, depth, Some(c), acc)
                } else if c == '(' {
                    spec_split_top_from(s, sep, i + 1, start, depth + 1, None, acc)
                } else if c == ')' {
                    let d: nat = if depth == 0 { 0 } else { (depth - 1) as nat };
                    spec_split_top_from(s, sep, i + 1, start, d, None, acc)
                } else if c == sep && depth == 0 {
                    spec_split_top_from(
                        s,
                        sep,
                        i + 1,
                        i + 1,
                        depth,
                        None,
                        acc.push(s.subrange(start, i)),
                    )
                } else {
                    spec_split_top_from(s, sep, i + 1, start, depth, None, acc)
                }
            },
        }
    }
}

pub open spec fn spec_split_top(s: Seq<char>, sep: char) -> Seq<Seq<char>> {
    spec_split_top_from(s, sep, 0, 0, 0, None, Seq::empty())
}

/// The contents of `name(...)` when `s` is exactly such a call followed
/// only by white space.
pub open spec fn spec_wrapped(s: Seq<char>, name: Seq<char>) -> Option<Seq<char>> {
    if spec_starts_with(s, name.push('(')) {
        let rest = s.skip(name.len() + 1int);
        match spec_matching_paren(rest) {
            Some(end) => if spec_trim(rest.skip(end + 1)).len() == 0 {
                Some(rest.take(end))
            } else {
                None
            },
            None => None,
        }
    } else {
        None
    }
}

pub proof fn lemma_matching_paren_bound(s: Seq<char>, i: int, depth: nat, quote: Option<char>)
    ensures
        spec_matching_paren_from(s, i, depth, quote) matches Some(k) ==> i <= k < s.len(),
    decreases s.len() - i,
{
    if 0 <= i < s.len() {
        let c = s[i];
        match quote {
            Some(q) => if c == q {
                lemma_matching_paren_bound(s, i + 1, depth, None);
            } else {
                lemma_matching_paren_bound(s, i + 1, depth, quote);
            },
            None => {
                if c == '\'' || c == '"' {
                    lemma_matching_paren_bound(s, i + 1, depth, Some(c));
                } else if c == '(' {
                    lemma_matching_paren_bound(s, i + 1, depth + 1, None);
                } else if c == ')' {
                    if depth != 0 {
                        lemma_matching_paren_bound(s, i + 1, (depth - 1) as nat, None);
                    }
                } else {
                    lemma_matching_paren_bound(s, i + 1, depth, None);
                }
            },
        }
    }
}

/// Whether the text holds shell syntax that portable templates reject.
pub fn has_forbidden_shell_syntax(s: &Vec<char>) -> (r: bool)
    ensures
        r == spec_forbidden(s@),
{
    let mut quote: Option<char> = None;
    let mut i: usize = 0;
    while i < s.len()
        invariant
            i <= s.len(),
            spec_forbidden(s@) == spec_forbidden_from(s@, i as int, quote),
        decreases s.len() - i,
    {
        let c = s[i];
        match quote {
            Some(q) => {
                if q == '"' && c == '\\' && i + 1 < s.len() {
                    i = i + 2;
                    continue;
                }
                if c == q {
                    quote = None;
                } else if c == '`' {
                    return true;
                }
                i = i + 1;
            },
            None => {
                if c == '\'' || c == '"' {
                    quote = Some(c);
                } else if c == '`' || c == ';' {
                    return true;
                } else if c == '&' && i + 1 < s.len() && s[i + 1] == '&' {
                    return true;
                } else if c == '|' && i + 1 < s.len() && s[i + 1] == '|' {
                    return true;
                }
                i = i + 1;
            },
        }
    }
    false
}

/// The index of the `)` that closes a group opened just before `s`.
pub fn matching_paren(s: &Vec<char>) -> (r: Option<usize>)
    ensures
        match r {
            Some(k) => spec_matching_paren(s@) == Some(k as int) && k < s.len(),
            None => spec_matching_paren(s@) is None,
        },
{
    proof { lemma_matching_paren_bound(s@, 0, 0, None); }
    let mut depth: usize = 0;
    let mut quote: Option<char> = None;
    let mut i: usize = 0;
    while i < s.len()
        invariant
            i <= s.len(),
            depth <= i,
            spec_matching_paren(s@) == spec_matching_paren_from(s@, i as int, depth as nat, quote),
        decreases s.len() - i,
    {
        let c = s[i];
        match quote {
            Some(q) => {
                if c == q {
                    quote = None;
                }
            },
            None => {
                if c == '\'' || c == '"' {
                    quote = Some(c);
                } else if c == '(' {
                    depth = depth + 1;
                } else if c == ')' {
                    if depth == 0 {
                        return Some(i);
                    }
                    depth = depth - 1;
                }
            },
        }
        i = i + 1;
    }
    None
}

/// The pieces of `s` between top-level occurrences of `sep`.
pub fn split_top(s: &Vec<char>, sep: char) -> (r: Vec<Vec<char>>)
    ensures
        r@.len() == spec_split_top(s@, sep).len(),
        forall|k: int| 0 <= k < r@.len() ==> #[trigger] r@[k]@ == spec_split_top(s@, sep)[k],
{
    let mut out: Vec<Vec<char>> = Vec::new();
    let mut start: usize = 0;
    let mut depth: usize = 0;
    let mut quote: Option<char> = None;
    let mut i: usize = 0;
    let ghost mut acc: Seq<Seq<char>> = Seq::empty();
    while i < s.len()
        invariant
            start <= i <= s.len(),
            depth <= i,
            out@.len() == acc.len(),
            forall|k: int| 0 <= k < out@.len() ==> #[trigger] out@[k]@ == acc[k],
            spec_split_top(s@, sep) == spec_split_top_from(
                s@,
                sep,
                i as int,
                start as int,
                depth as nat,
                quote,
                acc,
            ),
        decreases s.len() - i,
    {
        let c = s[i];
        match quote {
            Some(x) => {
                if c == x {
                    quote = None;
                }
            },
            None => {
                if c == '\'' || c == '"' {
                    quote = Some(c);
                } else if c == '(' {
                    depth = depth + 1;
                } else if c == ')' {
                    if depth > 0 {
                        depth = depth - 1;
                    }
                } else if c == sep && depth == 0 {
                    let piece = copy_range(s, start, i);
                    proof { acc = acc.push(piece@); }
                    out.push(piece);
                    start = i + 1;
                }
            },
        }
        i = i + 1;
    }
    let piece = copy_range(s, start, s.len());
    proof { acc = acc.push(piece@); }
    out.push(piece);
    out
}

/// The contents of `name(...)` when `s` is exactly such a call, possibly
/// followed by white space.
pub fn wrapped(s: &Vec<char>, name: &str) -> (r: Option<Vec<char>>)
    ensures
        match r {
            Some(v) => spec_wrapped(s@, name@) == Some(v@),
            None => spec_wrapped(s@, name@) is None,
        },
{
    let mut prefix = to_chars(name);
    prefix.push('(');
    if !starts_with(s, &prefix) {
        return None;
    }
    let rest = copy_range(s, prefix.len(), s.len());
    assert(rest@ == s@.skip(name@.len() + 1int));
    match matching_paren(&rest) {
        Some(end) => {
            let tail = copy_range(&rest, end + 1, rest.len());
            assert(tail@ == rest@.skip(end + 1));
            let (lo, hi) = trim_bounds(&tail);
            if lo == hi {
                Some(copy_range(&rest, 0, end))
            } else {
                None
            }
        },
        None => None,
    }
}

}
