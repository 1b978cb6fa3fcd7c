//! Reading the distribution from the text of `/etc/os-release`.

use vstd::prelude::*;
use crate::context::Distro;
use crate::lex::{index_of, lemma_index_of_bound};
use crate::text::{
    copy_range, eq_str, is_whitespace, lower, spec_is_whitespace, spec_lower, spec_starts_with,
    spec_trim_start, starts_with, to_chars,
};

verus! {

/// A trailing carriage return removed.
pub open spec fn strip_cr(s: Seq<char>) -> Seq<char> {
    if s.len() > 0 && s.last() == '\r' { s.drop_last() } else { s }
}

/// The lines of a text (`str::lines`): split after each `\n`, the `\n` and a
/// `\r` before it dropped; a last line without `\n` is kept as it is, and a
/// final `\n` starts no further line.
pub open spec fn spec_lines(t: Seq<char>) -> Seq<Seq<char>>
    decreases t.len(),
{
    if t.len() == 0 {
        Seq::empty()
    } else {
        match index_of(t, '\n') {
            Some(k) => if 0 <= k < t.len() {
                seq![strip_cr(t.take(k))] + spec_lines(t.skip(k + 1))
            } else {
                seq![t]
            },
            None => seq![t],
        }
    }
}

/// What follows `key` on the first line that starts with it.
pub open spec fn first_value_from(lines: Seq<Seq<char>>, key: Seq<char>, k: int) -> Option<Seq<char>>
    decreases lines.len() - k,
{
    if k < 0 || k >= lines.len() {
        None
    } else if spec_starts_with(lines[k], key) {
        Some(lines[k].skip(key.len() as int))
    } else {
        first_value_from(lines, key, k + 1)
    }
}

/// Leading and trailing `"` removed (`trim_matches('"')`).
pub open spec fn trim_quotes_start(s: Seq<char>) -> Seq<char>
    decreases s.len(),
{
    if s.len() > 0 && s[0] == '"' { trim_quotes_start(s.drop_first()) } else { s }
}

pub open spec fn trim_quotes_end(s: Seq<char>) -> Seq<char>
    decreases s.len(),
{
    if s.len() > 0 && s.last() == '"' { trim_quotes_end(s.drop_last()) } else { s }
}

pub open spec fn trim_quotes(s: Seq<char>) -> Seq<char> {
    trim_quotes_end(trim_quotes_start(s))
}

/// The index of the first white-space character from `k` on, or the length.
pub open spec fn first_ws_from(s: Seq<char>, k: int) -> int
    decreases s.len() - k,
{
    if k < 0 || k >= s.len() {
        s.len() as int
    } else if spec_is_whitespace(s[k]) {
        k
    } else {
        first_ws_from(s, k + 1)
    }
}

pub proof fn lemma_first_ws_bound(s: Seq<char>, k: int)
    requires
        0 <= k <= s.len(),
    ensures
        k <= first_ws_from(s, k) <= s.len(),
        forall|m: int| k <= m < first_ws_from(s, k) ==> !spec_is_whitespace(s[m]),
        first_ws_from(s, k) < s.len() ==> spec_is_whitespace(s[first_ws_from(s, k)]),
    decreases s.len() - k,
{
    if k < s.len() && !spec_is_whitespace(s[k]) {
        lemma_first_ws_bound(s, k + 1);
    }
}

pub proof fn lemma_trim_start_shape(s: Seq<char>)
    ensures
        spec_trim_start(s).len() <= s.len(),
        spec_trim_start(s).len() > 0 ==> !spec_is_whitespace(spec_trim_start(s)[0]),
        spec_trim_start(s) == s.skip(s.len() - spec_trim_start(s).len()),
        forall|m: int| 0 <= m < s.len() - spec_trim_start(s).len() ==> spec_is_whitespace(s[m]),
    decreases s.len(),
{
    if s.len() > 0 && spec_is_whitespace(s[0]) {
        lemma_trim_start_shape(s.drop_first());
        let t = spec_trim_start(s.drop_first());
        assert(s.drop_first().skip(s.drop_first().len() - t.len()) =~= s.skip(s.len() - t.len()));
        assert forall|m: int| 0 <= m < s.len() - t.len() implies spec_is_whitespace(s[m]) by {
            if m > 0 {
                assert(s[m] == s.drop_first()[m - 1]);
            }
        }
    } else {
        assert(s.skip(0) =~= s);
    }
}

/// The white-space separated words of `s` (`str::split_whitespace`).
pub open spec fn spec_words(s: Seq<char>) -> Seq<Seq<char>>
    decreases s.len(),
{
    let t = spec_trim_start(s);
    if t.len() == 0 {
        Seq::empty()
    } else {
        proof {
            lemma_trim_start_shape(s);
            lemma_first_ws_bound(t, 0);
        }
        let k = first_ws_from(t, 0);
        if 0 < k <= t.len() {
            seq![t.take(k)] + spec_words(t.skip(k))
        } else {
            Seq::empty()
        }
    }
}

/// The identifiers of an `ID` or `ID_LIKE` value: its words in ASCII lower case.
pub open spec fn value_ids(v: Option<Seq<char>>) -> Seq<Seq<char>> {
    match v {
        None => Seq::empty(),
        Some(x) => {
            let ws = spec_words(trim_quotes(x));
            Seq::new(ws.len(), |i: int| spec_lower(ws[i]))
        },
    }
}

/// The identifiers that an os-release text gives in `ID=` and `ID_LIKE=`.
pub open spec fn os_release_ids(text: Seq<char>) -> Seq<Seq<char>> {
    let ls = spec_lines(text);
    value_ids(first_value_from(ls, "ID="@, 0)) + value_ids(first_value_from(ls, "ID_LIKE="@, 0))
}

/// The distribution that an os-release text names: the first of Ubuntu,
/// Debian, Fedora and Arch among its identifiers.
pub open spec fn spec_distro_of_os_release(text: Seq<char>) -> Distro {
    let ids = os_release_ids(text);
    if ids.contains("ubuntu"@) {
        Distro::Ubuntu
    } else if ids.contains("debian"@) {
        Distro::Debian
    } else if ids.contains("fedora"@) {
        Distro::Fedora
    } else if ids.contains("arch"@) {
        Distro::Arch
    } else {
        Distro::NoDistro
    }
}


proof fn lemma_index_of_first_at(t: Seq<char>, c: char, from: int, k: int)
    requires
        0 <= from <= k < t.len(),
        t[k] == c,
        forall|m: int| from <= m < k ==> t[m] != c,
    ensures
        crate::lex::index_of_from(t, c, from) == Some(k),
    decreases k - from,
{
    if from < k {
        lemma_index_of_first_at(t, c, from + 1, k);
    }
}

proof fn lemma_index_of_absent(t: Seq<char>, c: char, from: int)
    requires
        0 <= from,
        forall|m: int| from <= m < t.len() ==> t[m] != c,
    ensures
        crate::lex::index_of_from(t, c, from) is None,
    decreases t.len() - from,
{
    if from < t.len() {
        lemma_index_of_absent(t, c, from + 1);
    }
}

fn strip_cr_exec(v: Vec<char>) -> (r: Vec<char>)
    ensures
        r@ == strip_cr(v@),
{
    let mut v = v;
    if v.len() > 0 && v[v.len() - 1] == '\r' {
        v.pop();
    }
    v
}

/// The lines of a text.
pub fn lines(t: &Vec<char>) -> (r: Vec<Vec<char>>)
    ensures
        r@.len() == spec_lines(t@).len(),
        forall|i: int| 0 <= i < r@.len() ==> #[trigger] r@[i]@ == spec_lines(t@)[i],
{
    let mut out: Vec<Vec<char>> = Vec::new();
    let mut start: usize = 0;
    let mut i: usize = 0;
    let ghost mut done: Seq<Seq<char>> = Seq::empty();
    assert(t@.skip(0) =~= t@);
    assert(done + spec_lines(t@) =~= spec_lines(t@));
    while i < t.len()
        invariant
            start <= i <= t.len(),
            forall|m: int| start <= m < i ==> t@[m] != '\n',
            out@.len() == done.len(),
            forall|m: int| 0 <= m < out@.len() ==> #[trigger] out@[m]@ == done[m],
            spec_lines(t@) == done + spec_lines(t@.skip(start as int)),
        decreases t.len() - i,
    {
        if t[i] == '\n' {
            let piece = copy_range(t, start, i);
            let line = strip_cr_exec(piece);
            proof {
                let rest = t@.skip(start as int);
                lemma_index_of_first_at(rest, '\n', 0, i - start);
                assert(rest.take(i - start) =~= piece@);
                assert(rest.skip(i - start + 1) =~= t@.skip(i + 1));
                assert(done + spec_lines(rest) =~= done.push(line@) + spec_lines(t@.skip(i + 1)));
                done = done.push(line@);
            }
            out.push(line);
            start = i + 1;
        }
        i = i + 1;
    }
    if start < t.len() {
        let piece = copy_range(t, start, t.len());
        proof {
            let rest = t@.skip(start as int);
            lemma_index_of_absent(rest, '\n', 0);
            assert(rest =~= piece@);
            assert(done + spec_lines(rest) =~= done.push(piece@));
            done = done.push(piece@);
        }
        out.push(piece);
    } else {
        proof {
            let rest = t@.skip(start as int);
            assert(rest.len() == 0);
            assert(done + spec_lines(rest) =~= done);
        }
    }
    out
}

/// What follows `key` on the first line that starts with it.
pub fn first_value(lines: &Vec<Vec<char>>, key: &str) -> (r: Option<Vec<char>>)
    ensures
        match first_value_from(Seq::new(lines@.len(), |i: int| lines@[i]@), key@, 0) {
            Some(v) => r matches Some(x) && x@ == v,
            None => r is None,
        },
{
    let ghost ls = Seq::new(lines@.len(), |i: int| lines@[i]@);
    let k_chars = to_chars(key);
    let mut k: usize = 0;
    while k < lines.len()
        invariant
            k <= lines.len(),
            ls == Seq::new(lines@.len(), |i: int| lines@[i]@),
            k_chars@ == key@,
            first_value_from(ls, key@, 0) == first_value_from(ls, key@, k as int),
        decreases lines.len() - k,
    {
        if starts_with(&lines[k], &k_chars) {
            assert(ls[k as int] == lines@[k as int]@);
            return Some(copy_range(&lines[k], k_chars.len(), lines[k].len()));
        }
        k = k + 1;
    }
    None
}

/// Leading and trailing `"` removed.
pub fn trim_quotes_exec(s: &Vec<char>) -> (r: Vec<char>)
    ensures
        r@ == trim_quotes(s@),
{
    let mut lo: usize = 0;
    assert(s@.skip(0) =~= s@);
    while lo < s.len() && s[lo] == '"'
        invariant
            lo <= s.len(),
            trim_quotes_start(s@) == trim_quotes_start(s@.skip(lo as int)),
        decreases s.len() - lo,
    {
        assert(s@.skip(lo as int).drop_first() =~= s@.skip(lo + 1));
        lo = lo + 1;
    }
    let ghost rest = s@.skip(lo as int);
    assert(trim_quotes_start(rest) == rest);
    let mut hi: usize = s.len();
    assert(rest.take(hi - lo) =~= rest);
    while hi > lo && s[hi - 1] == '"'
        invariant
            lo <= hi <= s.len(),
            rest == s@.skip(lo as int),
            trim_quotes_end(rest) == trim_quotes_end(rest.take(hi - lo)),
        decreases hi,
    {
        assert(rest.take(hi - lo).drop_last() =~= rest.take(hi - lo - 1));
        assert(rest.take(hi - lo).last() == s@[hi - 1]);
        hi = hi - 1;
    }
    proof {
        if hi > lo {
            assert(rest.take(hi - lo).last() == s@[hi - 1]);
        }
        assert(rest.take(hi - lo) =~= s@.subrange(lo as int, hi as int));
    }
    copy_range(s, lo, hi)
}

/// The white-space separated words of a text.
pub fn words(s: &Vec<char>) -> (r: Vec<Vec<char>>)
    ensures
        r@.len() == spec_words(s@).len(),
        forall|i: int| 0 <= i < r@.len() ==> #[trigger] r@[i]@ == spec_words(s@)[i],
{
    let mut out: Vec<Vec<char>> = Vec::new();
    let ghost mut done: Seq<Seq<char>> = Seq::empty();
    let mut i: usize = 0;
    assert(s@.skip(0) =~= s@);
    assert(done + spec_words(s@) =~= spec_words(s@));
    while i < s.len()
        invariant
            i <= s.len(),
            out@.len() == done.len(),
            forall|m: int| 0 <= m < out@.len() ==> #[trigger] out@[m]@ == done[m],
            spec_words(s@) == done + spec_words(s@.skip(i as int)),
        decreases s.len() - i,
    {
        let ghost rest = s@.skip(i as int);
        if is_whitespace(s[i]) {
            proof {
                assert(rest.drop_first() =~= s@.skip(i + 1));
                assert(spec_trim_start(rest) == spec_trim_start(s@.skip(i + 1)));
                lemma_trim_start_shape(rest);
                lemma_trim_start_shape(s@.skip(i + 1));
                let tt = spec_trim_start(rest);
                if tt.len() > 0 {
                    lemma_first_ws_bound(tt, 0);
                }
                assert(spec_words(rest) == spec_words(s@.skip(i + 1)));
            }
            i = i + 1;
        } else {
            let mut j = i;
            while j < s.len() && !is_whitespace(s[j])
                invariant
                    i <= j <= s.len(),
                    forall|m: int| i <= m < j ==> !spec_is_whitespace(s@[m]),
                decreases s.len() - j,
            {
                j = j + 1;
            }
            let w = copy_range(s, i, j);
            proof {
                assert(spec_trim_start(rest) == rest);
                lemma_first_ws_bound(rest, 0);
                let k = first_ws_from(rest, 0);
                if k < j - i {
                    assert(spec_is_whitespace(rest[k]));
                    assert(rest[k] == s@[i + k]);
                }
                if k > j - i {
                    assert(rest[j - i] == s@[j as int]);
                }
                assert(k == j - i);
                assert(rest.take(k) =~= w@);
                assert(rest.skip(k) =~= s@.skip(j as int));
                assert(done + spec_words(rest) =~= done.push(w@) + spec_words(s@.skip(j as int)));
                done = done.push(w@);
            }
            out.push(w);
            i = j;
        }
    }
    proof {
        assert(s@.skip(i as int).len() == 0);
        assert(spec_trim_start(s@.skip(i as int)).len() == 0);
        assert(done + spec_words(s@.skip(i as int)) =~= done);
    }
    out
}

fn push_value_ids(ids: &mut Vec<Vec<char>>, v: Option<Vec<char>>, Ghost(m): Ghost<Option<Seq<char>>>)
    requires
        match m {
            Some(x) => v matches Some(y) && y@ == x,
            None => v is None,
        },
    ensures
        final(ids)@.len() == old(ids)@.len() + value_ids(m).len(),
        forall|i: int| 0 <= i < old(ids)@.len() ==> #[trigger] final(ids)@[i] == old(ids)@[i],
        forall|i: int|
            0 <= i < value_ids(m).len() ==> #[trigger] final(ids)@[old(ids)@.len() + i]@ == value_ids(m)[i],
{
    match v {
        Some(x) => {
            let ws = words(&trim_quotes_exec(&x));
            let mut k: usize = 0;
            while k < ws.len()
                invariant
                    k <= ws.len(),
                    ws@.len() == value_ids(m).len(),
                    forall|i: int| 0 <= i < ws@.len() ==> spec_lower(#[trigger] ws@[i]@) == value_ids(m)[i],
                    ids@.len() == old(ids)@.len() + k,
                    forall|i: int| 0 <= i < old(ids)@.len() ==> #[trigger] ids@[i] == old(ids)@[i],
                    forall|i: int| 0 <= i < k ==> #[trigger] ids@[old(ids)@.len() + i]@ == value_ids(m)[i],
                decreases ws.len() - k,
            {
                ids.push(lower(&ws[k]));
                k = k + 1;
            }
        },
        None => {},
    }
}

fn contains_name(ids: &Vec<Vec<char>>, name: &str) -> (r: bool)
    ensures
        r == Seq::new(ids@.len(), |i: int| ids@[i]@).contains(name@),
{
    let ghost s = Seq::new(ids@.len(), |i: int| ids@[i]@);
    let mut k: usize = 0;
    while k < ids.len()
        invariant
            k <= ids.len(),
            s == Seq::new(ids@.len(), |i: int| ids@[i]@),
            forall|m: int| 0 <= m < k ==> s[m] != name@,
        decreases ids.len() - k,
    {
        if eq_str(&ids[k], name) {
            assert(s[k as int] == name@);
            return true;
        }
        k = k + 1;
    }
    false
}

/// The distribution that the text of `/etc/os-release` names.
pub fn distro_of_os_release(text: &str) -> (r: Distro)
    ensures
        r == spec_distro_of_os_release(text@),
{
    let t = to_chars(text);
    let ls = lines(&t);
    let ghost lsm = Seq::new(ls@.len(), |i: int| ls@[i]@);
    assert(lsm =~= spec_lines(text@));
    let id = first_value(&ls, "ID=");
    let like = first_value(&ls, "ID_LIKE=");
    let mut ids: Vec<Vec<char>> = Vec::new();
    push_value_ids(&mut ids, id, Ghost(first_value_from(lsm, "ID="@, 0)));
    let ghost n1 = ids@.len();
    let ghost ids1 = ids@;
    assert forall|i: int| 0 <= i < n1 implies #[trigger] ids1[i]@ == value_ids(first_value_from(lsm, "ID="@, 0))[i] by {
        let z: int = 0;
        assert(ids1[z + i]@ == value_ids(first_value_from(lsm, "ID="@, 0))[i]);
    }
    push_value_ids(&mut ids, like, Ghost(first_value_from(lsm, "ID_LIKE="@, 0)));
    proof {
        let a = value_ids(first_value_from(lsm, "ID="@, 0));
        let b = value_ids(first_value_from(lsm, "ID_LIKE="@, 0));
        assert(n1 == a.len());
        assert forall|i: int| 0 <= i < ids@.len() implies #[trigger] ids@[i]@ == (a + b)[i] by {
            if i < n1 {
                assert(ids@[i] == ids1[i]);
                assert(ids@[i]@ == a[i]);
            } else {
                assert(ids@[n1 + (i - n1)]@ == b[i - n1]);
            }
        }
        assert(Seq::new(ids@.len(), |i: int| ids@[i]@) =~= os_release_ids(text@));
    }
    if contains_name(&ids, "ubuntu") {
        Distro::Ubuntu
    } else if contains_name(&ids, "debian") {
        Distro::Debian
    } else if contains_name(&ids, "fedora") {
        Distro::Fedora
    } else if contains_name(&ids, "arch") {
        Distro::Arch
    } else {
        Distro::NoDistro
    }
}

}
