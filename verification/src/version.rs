//! Release versions: the version check of the self-update, the naming of
//! release assets and the decisions that an update takes between fetching
//! the release description and downloading an asset.

use vstd::prelude::*;
use std::path::PathBuf;
use crate::lex::{index_of, lemma_index_of_bound};
use crate::text::{
    append_chars, chars_eq, copy_range, eq_str, is_ascii_digit, spec_is_ascii_digit, spec_trim,
    string_from, string_of, to_chars, trim,
};

verus! {

/// The outcome of a self-update.
#[derive(Debug)]
pub struct UpdateResult {
    pub path: PathBuf,
    pub version: String,
    pub already_current: bool,
    pub replacement_pending: bool,
}

/// The pieces of `s` between occurrences of `c` (`str::split`).
pub open spec fn spec_split(s: Seq<char>, c: char) -> Seq<Seq<char>>
    decreases s.len(),
{
    match index_of(s, c) {
        None => seq![s],
        Some(k) => if 0 <= k < s.len() {
            seq![s.take(k)] + spec_split(s.skip(k + 1), c)
        } else {
            seq![s]
        },
    }
}

/// Leading `v` characters removed (`trim_start_matches('v')`).
pub open spec fn spec_trim_start_v(s: Seq<char>) -> Seq<char>
    decreases s.len(),
{
    if s.len() > 0 && s[0] == 'v' {
        spec_trim_start_v(s.drop_first())
    } else {
        s
    }
}

/// A release tag reduced to its version: trimmed, leading `v`s removed, and
/// cut at the first `-`.
pub open spec fn spec_normalize_version(s: Seq<char>) -> Seq<char> {
    let t = spec_trim_start_v(spec_trim(s));
    match index_of(t, '-') {
        Some(k) => t.take(k),
        None => t,
    }
}

pub open spec fn spec_all_digits(s: Seq<char>) -> bool {
    forall|i: int| 0 <= i < s.len() ==> spec_is_ascii_digit(#[trigger] s[i])
}

/// The number that a sequence of decimal digits denotes.
pub open spec fn digits_value(s: Seq<char>) -> nat
    decreases s.len(),
{
    if s.len() == 0 {
        0
    } else {
        digits_value(s.drop_last()) * 10 + ((s.last() as u32) - 48) as nat
    }
}

/// `str::parse::<u64>`: an optional `+`, then at least one decimal digit,
/// denoting a number that fits in 64 bits.
pub open spec fn spec_parse_u64(s: Seq<char>) -> Option<u64> {
    let d = if s.len() > 0 && s[0] == '+' { s.drop_first() } else { s };
    if d.len() > 0 && spec_all_digits(d) && digits_value(d) <= u64::MAX {
        Some(digits_value(d) as u64)
    } else {
        None
    }
}

/// The numeric parts of a version: each `.`-separated piece parsed, `0` where
/// it does not parse.
pub open spec fn spec_version_parts(s: Seq<char>) -> Seq<u64> {
    let pieces = spec_split(s, '.');
    Seq::new(
        pieces.len(),
        |i: int|
            match spec_parse_u64(pieces[i]) {
                Some(v) => v,
                None => 0,
            },
    )
}

/// Lexicographic order on sequences of numbers, a proper prefix first
/// (the order of `Vec<u64>`).
pub open spec fn seq_less(a: Seq<u64>, b: Seq<u64>) -> bool
    decreases a.len(),
{
    if a.len() == 0 {
        b.len() > 0
    } else if b.len() == 0 {
        false
    } else if a[0] != b[0] {
        a[0] < b[0]
    } else {
        seq_less(a.drop_first(), b.drop_first())
    }
}

/// Whether the release version `remote` is newer than the local version.
pub open spec fn spec_is_newer(remote: Seq<char>, local: Seq<char>) -> bool {
    seq_less(spec_version_parts(spec_normalize_version(local)), spec_version_parts(remote))
}

/// A release version: exactly three `.`-separated pieces, each a non-empty
/// run of ASCII digits.
pub open spec fn spec_is_release_version(v: Seq<char>) -> bool {
    let parts = spec_split(v, '.');
    parts.len() == 3 && forall|i: int|
        0 <= i < 3 ==> (#[trigger] parts[i]).len() > 0 && spec_all_digits(parts[i])
}

/// The pieces of `s` between occurrences of `c`.
pub fn split(s: &Vec<char>, c: char) -> (r: Vec<Vec<char>>)
    ensures
        r@.len() == spec_split(s@, c).len(),
        forall|i: int| 0 <= i < r@.len() ==> #[trigger] r@[i]@ == spec_split(s@, c)[i],
{
    let mut out: Vec<Vec<char>> = Vec::new();
    let mut start: usize = 0;
    let mut i: usize = 0;
    let ghost mut done: Seq<Seq<char>> = Seq::empty();
    assert(s@.skip(0) =~= s@);
    assert(done + spec_split(s@, c) =~= spec_split(s@, c));
    while i < s.len()
        invariant
            start <= i <= s.len(),
            forall|m: int| start <= m < i ==> s@[m] != c,
            out@.len() == done.len(),
            forall|m: int| 0 <= m < out@.len() ==> #[trigger] out@[m]@ == done[m],
            spec_split(s@, c) == done + spec_split(s@.skip(start as int), c),
        decreases s.len() - i,
    {
        if s[i] == c {
            let piece = copy_range(s, start, i);
            proof {
                let rest = s@.skip(start as int);
                lemma_index_of_first(rest, c, i - start);
                assert(rest.take(i - start) =~= piece@);
                assert(rest.skip(i - start + 1) =~= s@.skip(i + 1));
                assert(spec_split(rest, c) == seq![piece@] + spec_split(s@.skip(i + 1), c));
                assert(done + spec_split(rest, c) =~= done.push(piece@) + spec_split(s@.skip(i + 1), c));
                done = done.push(piece@);
            }
            out.push(piece);
            start = i + 1;
        }
        i = i + 1;
    }
    let piece = copy_range(s, start, s.len());
    proof {
        let rest = s@.skip(start as int);
        lemma_index_of_none(rest, c);
        assert(rest =~= piece@);
        assert(done + spec_split(rest, c) =~= done.push(piece@));
        done = done.push(piece@);
    }
    out.push(piece);
    out
}

proof fn lemma_index_of_first(t: Seq<char>, c: char, k: int)
    requires
        0 <= k < t.len(),
        t[k] == c,
        forall|m: int| 0 <= m < k ==> t[m] != c,
    ensures
        index_of(t, c) == Some(k),
{
    lemma_index_of_from_first(t, c, 0, k);
}

proof fn lemma_index_of_from_first(t: Seq<char>, c: char, from: int, k: int)
    requires
        0 <= from <= k < t.len(),
        t[k] == c,
        forall|m: int| from <= m < k ==> t[m] != c,
    ensures
        crate::lex::index_of_from(t, c, from) == Some(k),
    decreases k - from,
{
    if from < k {
        lemma_index_of_from_first(t, c, from + 1, k);
    }
}

proof fn lemma_index_of_none(t: Seq<char>, c: char)
    requires
        forall|m: int| 0 <= m < t.len() ==> t[m] != c,
    ensures
        index_of(t, c) is None,
{
    lemma_index_of_from_none(t, c, 0);
}

proof fn lemma_index_of_from_none(t: Seq<char>, c: char, from: int)
    requires
        0 <= from,
        forall|m: int| from <= m < t.len() ==> t[m] != c,
    ensures
        crate::lex::index_of_from(t, c, from) is None,
    decreases t.len() - from,
{
    if from < t.len() {
        lemma_index_of_from_none(t, c, from + 1);
    }
}


/// `str::parse::<u64>` on characters.
pub fn parse_u64(s: &Vec<char>) -> (r: Option<u64>)
    ensures
        r == spec_parse_u64(s@),
{
    let start: usize = if s.len() > 0 && s[0] == '+' { 1 } else { 0 };
    let d = copy_range(s, start, s.len());
    let ghost sd = if s@.len() > 0 && s@[0] == '+' { s@.drop_first() } else { s@ };
    assert(d@ =~= sd);
    if d.len() == 0 {
        return None;
    }
    let mut acc: u64 = 0;
    let mut over = false;
    let mut k: usize = 0;
    while k < d.len()
        invariant
            k <= d.len(),
            d@ == sd,
            d@.len() > 0,
            spec_parse_u64(s@) == (if spec_all_digits(sd) && digits_value(sd) <= u64::MAX { Some(digits_value(sd) as u64) } else { None::<u64> }),
            spec_all_digits(d@.take(k as int)),
            !over ==> acc == digits_value(d@.take(k as int)),
            over ==> digits_value(d@.take(k as int)) > u64::MAX,
        decreases d.len() - k,
    {
        let c = d[k];
        if !is_ascii_digit(c) {
            assert(!spec_all_digits(d@));
            return None;
        }
        let digit: u64 = ((c as u32) - 48) as u64;
        assert(digit <= 9);
        proof {
            assert(d@.take(k + 1).drop_last() =~= d@.take(k as int));
            assert(d@.take(k + 1).last() == c);
        }
        if !over {
            if acc > (u64::MAX - digit) / 10 {
                over = true;
            } else {
                acc = acc * 10 + digit;
            }
        }
        k = k + 1;
        assert(spec_all_digits(d@.take(k as int)));
    }
    assert(d@.take(d.len() as int) =~= d@);
    if over {
        None
    } else {
        Some(acc)
    }
}

/// The numeric parts of a version.
pub fn version_parts(version: &str) -> (r: Vec<u64>)
    ensures
        r@ == spec_version_parts(version@),
{
    let v = to_chars(version);
    let pieces = split(&v, '.');
    let mut out: Vec<u64> = Vec::new();
    let mut k: usize = 0;
    while k < pieces.len()
        invariant
            k <= pieces.len(),
            pieces@.len() == spec_split(version@, '.').len(),
            forall|i: int| 0 <= i < pieces@.len() ==> #[trigger] pieces@[i]@ == spec_split(version@, '.')[i],
            out@ =~= spec_version_parts(version@).take(k as int),
        decreases pieces.len() - k,
    {
        let n = match parse_u64(&pieces[k]) {
            Some(n) => n,
            None => 0,
        };
        out.push(n);
        k = k + 1;
        assert(out@ =~= spec_version_parts(version@).take(k as int));
    }
    assert(spec_version_parts(version@).take(k as int) =~= spec_version_parts(version@));
    out
}

/// Whether `a` comes before `b` in lexicographic order.
fn less(a: &Vec<u64>, b: &Vec<u64>) -> (r: bool)
    ensures
        r == seq_less(a@, b@),
{
    let mut k: usize = 0;
    assert(a@.skip(0) =~= a@);
    assert(b@.skip(0) =~= b@);
    while k < a.len() && k < b.len()
        invariant
            k <= a.len(),
            k <= b.len(),
            seq_less(a@, b@) == seq_less(a@.skip(k as int), b@.skip(k as int)),
        decreases a.len() - k,
    {
        if a[k] != b[k] {
            assert(a@.skip(k as int)[0] == a@[k as int]);
            assert(b@.skip(k as int)[0] == b@[k as int]);
            return a[k] < b[k];
        }
        proof {
            assert(a@.skip(k as int).drop_first() =~= a@.skip(k + 1));
            assert(b@.skip(k as int).drop_first() =~= b@.skip(k + 1));
        }
        k = k + 1;
    }
    k == a.len() && k < b.len()
}

/// A release tag reduced to its version number.
pub fn normalize_version(version: &str) -> (r: String)
    ensures
        r@ == spec_normalize_version(version@),
{
    let t = trim(&to_chars(version));
    let mut lo: usize = 0;
    assert(t@.skip(0) =~= t@);
    while lo < t.len() && t[lo] == 'v'
        invariant
            lo <= t.len(),
            spec_trim_start_v(t@) == spec_trim_start_v(t@.skip(lo as int)),
        decreases t.len() - lo,
    {
        assert(t@.skip(lo as int).drop_first() =~= t@.skip(lo + 1));
        lo = lo + 1;
    }
    let u = copy_range(&t, lo, t.len());
    assert(u@ == t@.skip(lo as int));
    let mut hi: usize = 0;
    while hi < u.len() && u[hi] != '-'
        invariant
            hi <= u.len(),
            forall|m: int| 0 <= m < hi ==> u@[m] != '-',
        decreases u.len() - hi,
    {
        hi = hi + 1;
    }
    proof {
        if hi < u.len() {
            lemma_index_of_first(u@, '-', hi as int);
        } else {
            lemma_index_of_none(u@, '-');
            assert(u@.take(hi as int) =~= u@);
        }
    }
    string_of(&copy_range(&u, 0, hi))
}

/// Whether the release version `remote` is newer than the version `local`
/// (given as a tag, possibly with a `v` prefix).
pub fn is_newer(remote: &str, local: &str) -> (r: bool)
    ensures
        r == spec_is_newer(remote@, local@),
{
    let l = normalize_version(local);
    less(&version_parts(l.as_str()), &version_parts(remote))
}

fn all_digits(p: &Vec<char>) -> (r: bool)
    ensures
        r == spec_all_digits(p@),
{
    let mut j: usize = 0;
    while j < p.len()
        invariant
            j <= p.len(),
            forall|m: int| 0 <= m < j ==> spec_is_ascii_digit(#[trigger] p@[m]),
        decreases p.len() - j,
    {
        if !is_ascii_digit(p[j]) {
            assert(!spec_is_ascii_digit(p@[j as int]));
            return false;
        }
        j = j + 1;
    }
    true
}

/// Whether `version` has the form `MAJOR.MINOR.PATCH` in decimal digits.
pub fn is_release_version(version: &str) -> (r: bool)
    ensures
        r == spec_is_release_version(version@),
{
    let v = to_chars(version);
    let parts = split(&v, '.');
    if parts.len() != 3 {
        return false;
    }
    let mut k: usize = 0;
    while k < 3
        invariant
            k <= 3,
            parts@.len() == 3,
            parts@.len() == spec_split(version@, '.').len(),
            forall|i: int| 0 <= i < parts@.len() ==> #[trigger] parts@[i]@ == spec_split(version@, '.')[i],
            forall|i: int| 0 <= i < k ==> (#[trigger] spec_split(version@, '.')[i]).len() > 0 && spec_all_digits(spec_split(version@, '.')[i]),
        decreases 3 - k,
    {
        let p = &parts[k];
        if p.len() == 0 || !all_digits(p) {
            return false;
        }
        k = k + 1;
    }
    true
}

/// `s` with every `'` doubled, for a single-quoted PowerShell string.
pub open spec fn spec_powershell_quote(s: Seq<char>) -> Seq<char>
    decreases s.len(),
{
    if s.len() == 0 {
        Seq::empty()
    } else {
        spec_powershell_quote(s.drop_last()) + if s.last() == '\'' {
            seq!['\'', '\'']
        } else {
            seq![s.last()]
        }
    }
}

/// A path's text quoted for a single-quoted PowerShell string.
pub fn powershell_quote(path: &str) -> (r: String)
    ensures
        r@ == spec_powershell_quote(path@),
{
    let v = to_chars(path);
    let mut out: Vec<char> = Vec::new();
    let mut k: usize = 0;
    while k < v.len()
        invariant
            k <= v.len(),
            v@ == path@,
            out@ == spec_powershell_quote(v@.take(k as int)),
        decreases v.len() - k,
    {
        proof {
            assert(v@.take(k + 1).drop_last() =~= v@.take(k as int));
        }
        if v[k] == '\'' {
            out.push('\'');
            out.push('\'');
        } else {
            out.push(v[k]);
        }
        k = k + 1;
        assert(out@ =~= spec_powershell_quote(v@.take(k as int)));
    }
    assert(v@.take(v.len() as int) =~= v@);
    string_of(&out)
}


/// The target triple of the release asset built for an operating system and
/// architecture (`std::env::consts::OS`, `ARCH`).
pub open spec fn spec_asset_target(os: Seq<char>, arch: Seq<char>) -> Option<Seq<char>> {
    if os == "windows"@ && arch == "x86_64"@ {
        Some("x86_64-pc-windows-msvc"@)
    } else if os == "windows"@ && arch == "x86"@ {
        Some("i686-pc-windows-msvc"@)
    } else if os == "windows"@ && arch == "aarch64"@ {
        Some("aarch64-pc-windows-msvc"@)
    } else if os == "macos"@ && arch == "x86_64"@ {
        Some("x86_64-apple-darwin"@)
    } else if os == "macos"@ && arch == "aarch64"@ {
        Some("aarch64-apple-darwin"@)
    } else if os == "linux"@ && arch == "x86_64"@ {
        Some("x86_64-unknown-linux-gnu"@)
    } else if os == "android"@ && arch == "aarch64"@ {
        Some("aarch64-linux-android"@)
    } else {
        None
    }
}

/// The file name of the release asset for an operating system and
/// architecture, or the message saying that none is published.
pub open spec fn spec_asset_name(os: Seq<char>, arch: Seq<char>) -> Result<Seq<char>, Seq<char>> {
    match spec_asset_target(os, arch) {
        Some(t) => Ok(
            if os == "windows"@ {
                "aliasc-"@ + t + ".exe"@
            } else {
                "aliasc-"@ + t
            },
        ),
        None => Err("no published aliasc asset for this platform ("@ + os + "/"@ + arch + ")"@),
    }
}

/// The file name of the release asset for an operating system and architecture.
pub fn asset_name(os: &str, arch: &str) -> (r: Result<String, String>)
    ensures
        match spec_asset_name(os@, arch@) {
            Ok(n) => r matches Ok(x) && x@ == n,
            Err(e) => r matches Err(x) && x@ == e,
        },
{
    let o = to_chars(os);
    let a = to_chars(arch);
    let target = if eq_str(&o, "windows") && eq_str(&a, "x86_64") {
        "x86_64-pc-windows-msvc"
    } else if eq_str(&o, "windows") && eq_str(&a, "x86") {
        "i686-pc-windows-msvc"
    } else if eq_str(&o, "windows") && eq_str(&a, "aarch64") {
        "aarch64-pc-windows-msvc"
    } else if eq_str(&o, "macos") && eq_str(&a, "x86_64") {
        "x86_64-apple-darwin"
    } else if eq_str(&o, "macos") && eq_str(&a, "aarch64") {
        "aarch64-apple-darwin"
    } else if eq_str(&o, "linux") && eq_str(&a, "x86_64") {
        "x86_64-unknown-linux-gnu"
    } else if eq_str(&o, "android") && eq_str(&a, "aarch64") {
        "aarch64-linux-android"
    } else {
        let mut m = string_from("no published aliasc asset for this platform (");
        append_chars(&mut m, &o);
        append_chars(&mut m, &to_chars("/"));
        append_chars(&mut m, &a);
        append_chars(&mut m, &to_chars(")"));
        return Err(m);
    };
    let mut name = string_from("aliasc-");
    append_chars(&mut name, &to_chars(target));
    if eq_str(&o, "windows") {
        append_chars(&mut name, &to_chars(".exe"));
    }
    Ok(name)
}

/// What a self-update does once the latest release is known.
#[derive(Debug)]
pub enum UpdatePlan {
    /// The installed version is current; nothing is downloaded.
    AlreadyCurrent { version: String },
    /// The asset at this index of the release's assets is downloaded.
    Download { version: String, asset: usize },
}

/// The index of the first name equal to `name`, from `k` on.
pub open spec fn first_named_from(names: Seq<Seq<char>>, name: Seq<char>, k: int) -> Option<int>
    decreases names.len() - k,
{
    if k < 0 || k >= names.len() {
        None
    } else if names[k] == name {
        Some(k)
    } else {
        first_named_from(names, name, k + 1)
    }
}

/// The plan of a self-update: the release tag is normalized to a version;
/// unless `force`, a version that is not newer than `local_version` is
/// current; otherwise the asset named for the platform is selected, the
/// first of that name among the release's assets.
pub open spec fn spec_plan_update(
    force: bool,
    tag_name: Seq<char>,
    local_version: Seq<char>,
    asset_names: Seq<Seq<char>>,
    os: Seq<char>,
    arch: Seq<char>,
) -> Result<(Seq<char>, Option<int>), Seq<char>> {
    let version = spec_normalize_version(tag_name);
    if !force && !spec_is_newer(version, local_version) {
        Ok((version, None))
    } else {
        match spec_asset_name(os, arch) {
            Err(e) => Err(e),
            Ok(name) => match first_named_from(asset_names, name, 0) {
                Some(k) => Ok((version, Some(k))),
                None => Err("release "@ + tag_name + " has no asset for this target ("@ + name + ")"@),
            },
        }
    }
}

/// Decides a self-update from the latest release's tag and asset names.
pub fn plan_update(
    force: bool,
    tag_name: &str,
    local_version: &str,
    asset_names: &Vec<String>,
    os: &str,
    arch: &str,
) -> (r: Result<UpdatePlan, String>)
    ensures
        match spec_plan_update(force, tag_name@, local_version@, Seq::new(asset_names@.len(), |i: int| asset_names@[i]@), os@, arch@) {
            Ok((v, None)) => r matches Ok(UpdatePlan::AlreadyCurrent { version }) && version@ == v,
            Ok((v, Some(k))) => r matches Ok(UpdatePlan::Download { version, asset }) && version@ == v && asset == k,
            Err(e) => r matches Err(x) && x@ == e,
        },
{
    let ghost names = Seq::new(asset_names@.len(), |i: int| asset_names@[i]@);
    let version = normalize_version(tag_name);
    if !force && !is_newer(version.as_str(), local_version) {
        return Ok(UpdatePlan::AlreadyCurrent { version });
    }
    let name = match asset_name(os, arch) {
        Ok(n) => n,
        Err(e) => return Err(e),
    };
    let wanted = to_chars(name.as_str());
    let mut k: usize = 0;
    while k < asset_names.len()
        invariant
            k <= asset_names.len(),
            names == Seq::new(asset_names@.len(), |i: int| asset_names@[i]@),
            version@ == spec_normalize_version(tag_name@),
            force || spec_is_newer(version@, local_version@),
            spec_asset_name(os@, arch@) == Ok::<Seq<char>, Seq<char>>(wanted@),
            first_named_from(names, wanted@, 0) == first_named_from(names, wanted@, k as int),
        decreases asset_names.len() - k,
    {
        if chars_eq(&to_chars(asset_names[k].as_str()), &wanted) {
            assert(names[k as int] == wanted@);
            return Ok(UpdatePlan::Download { version, asset: k });
        }
        k = k + 1;
    }
    let mut m = string_from("release ");
    append_chars(&mut m, &to_chars(tag_name));
    append_chars(&mut m, &to_chars(" has no asset for this target ("));
    append_chars(&mut m, &wanted);
    append_chars(&mut m, &to_chars(")"));
    Err(m)
}

}
