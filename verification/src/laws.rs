//! Properties that the library keeps across its functions.

use vstd::prelude::*;
use crate::context::{
    Context, Distro, Environment, Platform, PlatformArg, Shell, spec_actual_platform,
    spec_distro_name, spec_distro_parsed, spec_environment_name, spec_environment_parsed,
    spec_known_section, spec_section_active, spec_shell_section,
};
use crate::dsl::{CommandModel, SegmentModel, TemplateModel, candidates_from, spec_parse_template};
use crate::lex::{
    LexState, OpKind, TokModel, any_placeholder, close_brace_from, close_buf, flush, invocation_wf,
    lemma_close_brace_bound, lemma_parse_command_implicit_all, lemma_parse_command_shape,
    lemma_parse_command_wf, lex_from, spec_is_assignment_word, spec_parse_command, spec_tokenize,
    utf8_len, with_buf, with_op, with_quote, with_seg,
};
use crate::os_release::{
    first_value_from, first_ws_from, lemma_first_ws_bound, lemma_trim_start_shape, os_release_ids, spec_distro_of_os_release, spec_lines, spec_words, trim_quotes,
    value_ids,
};
use crate::scan::{
    lemma_matching_paren_bound, spec_forbidden, spec_matching_paren, spec_matching_paren_from,
    spec_split_top, spec_wrapped,
};
use crate::text::{
    spec_is_ascii_digit, spec_is_whitespace, spec_lower, spec_lower_char, spec_starts_with, spec_trim,
    spec_trim_end, spec_trim_start,
};
use crate::version::{
    first_named_from, seq_less, spec_asset_name, spec_is_newer, spec_normalize_version,
    spec_plan_update, spec_trim_start_v, spec_version_parts,
};

verus! {

proof fn lemma_lower_idempotent(s: Seq<char>)
    ensures
        spec_lower(spec_lower(s)) == spec_lower(s),
{
    assert forall|i: int| 0 <= i < s.len() implies spec_lower_char(spec_lower_char(s[i])) == spec_lower_char(s[i]) by {
        let c = s[i];
        let u = c as u32;
        if 0x41 <= u <= 0x5A {
            assert(((u + 32) as char) as u32 == u + 32);
        }
    }
    assert(spec_lower(spec_lower(s)) =~= spec_lower(s));
}

/// Which sections are active depends on the platform, the distribution and
/// the environment, never on the shell.
pub proof fn law_sections_ignore_shell(ctx: Context, shell: Shell, name: Seq<char>)
    ensures
        spec_section_active(Context { shell, ..ctx }, name) == spec_section_active(ctx, name),
{
}

/// Section names are case-insensitive: a name and its ASCII lower case
/// select the same sections, and are known or reserved alike.
pub proof fn law_section_names_ignore_case(ctx: Context, name: Seq<char>)
    ensures
        spec_section_active(ctx, spec_lower(name)) == spec_section_active(ctx, name),
        spec_known_section(spec_lower(name)) == spec_known_section(name),
        spec_shell_section(spec_lower(name)) == spec_shell_section(name),
{
    lemma_lower_idempotent(name);
}

/// The `[Common]` section is active in every context.
pub proof fn law_common_always_active(ctx: Context)
    ensures
        spec_section_active(ctx, "common"@),
        spec_section_active(ctx, "Common"@),
{
    reveal_strlit("common");
    reveal_strlit("Common");
    assert(spec_lower("Common"@) =~= "common"@);
    lemma_lower_idempotent("common"@);
    assert(spec_lower("common"@) =~= "common"@);
}

/// An explicit platform is used as given, whatever the host is
/// (cross-generation).
pub proof fn law_explicit_platform_ignores_host(platform: PlatformArg, host1: Platform, host2: Platform)
    requires
        platform != PlatformArg::Auto,
    ensures
        spec_actual_platform(platform, host1) == spec_actual_platform(platform, host2),
{
}

/// A distribution named on the command line (other than `none`) activates
/// the section of that name on Linux.
pub proof fn law_named_distro_activates_its_section(name: Seq<char>, d: Distro, ctx: Context)
    requires
        spec_distro_parsed(name, d),
        spec_lower(name) != "none"@,
        ctx.platform == Platform::Linux,
        ctx.distro == d,
    ensures
        spec_distro_name(d) == Some(spec_lower(name)),
        spec_section_active(ctx, name),
{
    lemma_lower_idempotent(name);
}

/// An environment named on the command line (other than `none` and the
/// alias `git-bash`) activates the section of that name on Windows.
pub proof fn law_named_environment_activates_its_section(name: Seq<char>, e: Environment, ctx: Context)
    requires
        spec_environment_parsed(name, e),
        spec_lower(name) != "none"@,
        spec_lower(name) != "git-bash"@,
        ctx.platform == Platform::Windows,
        ctx.environment == e,
    ensures
        spec_environment_name(e) == Some(spec_lower(name)),
        spec_section_active(ctx, name),
{
    lemma_lower_idempotent(name);
}

/// The section names reserved for shells are not among the known section
/// names.
pub proof fn law_shell_sections_are_not_known(name: Seq<char>)
    ensures
        spec_shell_section(name) ==> !spec_known_section(name),
{
    reveal_strlit("common");
    reveal_strlit("windows");
    reveal_strlit("unix");
    reveal_strlit("macos");
    reveal_strlit("ubuntu");
    reveal_strlit("debian");
    reveal_strlit("fedora");
    reveal_strlit("arch");
    reveal_strlit("msys2");
    reveal_strlit("gitbash");
    reveal_strlit("wsl");
    reveal_strlit("bash");
    reveal_strlit("zsh");
    reveal_strlit("fish");
    reveal_strlit("nu");
    reveal_strlit("powershell");
    reveal_strlit("pwsh");
    reveal_strlit("cmd");
    reveal_strlit("posix");
    let n = spec_lower(name);
    assert("common"@.len() == 6 && "common"@[0] == 'c' && "common"@[1] == 'o');
    assert("windows"@.len() == 7 && "windows"@[0] == 'w' && "windows"@[1] == 'i');
    assert("unix"@.len() == 4 && "unix"@[0] == 'u' && "unix"@[1] == 'n');
    assert("macos"@.len() == 5 && "macos"@[0] == 'm' && "macos"@[1] == 'a');
    assert("ubuntu"@.len() == 6 && "ubuntu"@[0] == 'u' && "ubuntu"@[1] == 'b');
    assert("debian"@.len() == 6 && "debian"@[0] == 'd' && "debian"@[1] == 'e');
    assert("fedora"@.len() == 6 && "fedora"@[0] == 'f' && "fedora"@[1] == 'e');
    assert("arch"@.len() == 4 && "arch"@[0] == 'a' && "arch"@[1] == 'r');
    assert("msys2"@.len() == 5 && "msys2"@[0] == 'm' && "msys2"@[1] == 's');
    assert("gitbash"@.len() == 7 && "gitbash"@[0] == 'g' && "gitbash"@[1] == 'i');
    assert("wsl"@.len() == 3 && "wsl"@[0] == 'w' && "wsl"@[1] == 's');
    assert("bash"@.len() == 4 && "bash"@[0] == 'b' && "bash"@[1] == 'a');
    assert("zsh"@.len() == 3 && "zsh"@[0] == 'z' && "zsh"@[1] == 's');
    assert("fish"@.len() == 4 && "fish"@[0] == 'f' && "fish"@[1] == 'i');
    assert("nu"@.len() == 2 && "nu"@[0] == 'n' && "nu"@[1] == 'u');
    assert("powershell"@.len() == 10 && "powershell"@[0] == 'p' && "powershell"@[1] == 'o');
    assert("pwsh"@.len() == 4 && "pwsh"@[0] == 'p' && "pwsh"@[1] == 'w');
    assert("cmd"@.len() == 3 && "cmd"@[0] == 'c' && "cmd"@[1] == 'm');
    assert("posix"@.len() == 5 && "posix"@[0] == 'p' && "posix"@[1] == 'o');
    if spec_shell_section(name) && spec_known_section(name) {
        assert(false);
    }
}


/// The shell-specific sections are reserved and never active, unless the
/// distribution or environment was given a name of one of them.
pub proof fn law_shell_sections_are_inactive(ctx: Context, name: Seq<char>)
    requires
        spec_shell_section(name),
        !(ctx.distro is Other),
        !(ctx.environment is Other),
    ensures
        !spec_section_active(ctx, name),
{
    law_shell_sections_are_not_known(name);
    lemma_lower_idempotent(name);
    if spec_section_active(ctx, name) {
        assert(spec_known_section(name));
    }
}
/// A section named for another platform is never active: on Windows only
/// `common`, `windows` and the environment's own name are; on macOS exactly
/// `common`, `unix` and `macos`; on Linux only `common`, `unix` and the
/// distribution's own name. So `[unix]` and `[macOS]` are inactive on
/// Windows, and `[Windows]` and `[macOS]` on Linux, unless the environment or
/// distribution was given that very name.
pub proof fn law_sections_of_other_platforms_are_inactive(ctx: Context, name: Seq<char>)
    ensures
        ctx.platform == Platform::Windows && spec_section_active(ctx, name) ==> {
            ||| spec_lower(name) == "common"@
            ||| spec_lower(name) == "windows"@
            ||| spec_environment_name(ctx.environment) == Some(spec_lower(name))
        },
        ctx.platform == Platform::Windows && !(ctx.environment is Other)
            && (spec_lower(name) == "unix"@ || spec_lower(name) == "macos"@) ==> !spec_section_active(ctx, name),
        ctx.platform == Platform::Macos ==> (spec_section_active(ctx, name) <==> {
            ||| spec_lower(name) == "common"@
            ||| spec_lower(name) == "unix"@
            ||| spec_lower(name) == "macos"@
        }),
        ctx.platform == Platform::Linux && spec_section_active(ctx, name) ==> {
            ||| spec_lower(name) == "common"@
            ||| spec_lower(name) == "unix"@
            ||| spec_distro_name(ctx.distro) == Some(spec_lower(name))
        },
        ctx.platform == Platform::Linux && !(ctx.distro is Other)
            && (spec_lower(name) == "windows"@ || spec_lower(name) == "macos"@) ==> !spec_section_active(ctx, name),
{
    reveal_strlit("common");
    reveal_strlit("windows");
    reveal_strlit("unix");
    reveal_strlit("macos");
    reveal_strlit("ubuntu");
    reveal_strlit("debian");
    reveal_strlit("fedora");
    reveal_strlit("arch");
    reveal_strlit("msys2");
    reveal_strlit("gitbash");
    reveal_strlit("wsl");
    assert("common"@.len() == 6 && "common"@[0] == 'c');
    assert("windows"@.len() == 7 && "windows"@[0] == 'w' && "windows"@[1] == 'i');
    assert("unix"@.len() == 4 && "unix"@[0] == 'u' && "unix"@[1] == 'n');
    assert("macos"@.len() == 5 && "macos"@[0] == 'm' && "macos"@[1] == 'a');
    assert("ubuntu"@.len() == 6 && "ubuntu"@[0] == 'u' && "ubuntu"@[1] == 'b');
    assert("debian"@.len() == 6 && "debian"@[0] == 'd');
    assert("fedora"@.len() == 6 && "fedora"@[0] == 'f');
    assert("arch"@.len() == 4 && "arch"@[0] == 'a');
    assert("msys2"@.len() == 5 && "msys2"@[0] == 'm' && "msys2"@[1] == 's');
    assert("gitbash"@.len() == 7 && "gitbash"@[0] == 'g');
    assert("wsl"@.len() == 3 && "wsl"@[0] == 'w');
}

/// The command pipelines that a template holds.
pub open spec fn template_commands(t: TemplateModel) -> Seq<CommandModel> {
    match t {
        TemplateModel::Command(c) => seq![c],
        TemplateModel::WithEnv { vars, body: Some(c) } => seq![c],
        TemplateModel::FirstAvailable(cs) => cs,
        _ => Seq::empty(),
    }
}

/// A pipeline as the parser builds it: at least one command; each command
/// has a command word that is no `NAME=value` prefix; `@*` stands alone and
/// is never a redirection target; the caller's arguments are passed
/// implicitly exactly when nothing refers to them.
pub open spec fn command_ok(c: CommandModel) -> bool {
    &&& c.commands.len() >= 1
    &&& forall|j: int| 0 <= j < c.commands.len() ==> {
        &&& (#[trigger] c.commands[j]).arguments.len() > 0
        &&& !spec_is_assignment_word(c.commands[j].arguments[0])
        &&& invocation_wf(c.commands[j])
    }
    &&& c.implicit_all == !any_placeholder(c.commands)
}

proof fn lemma_command_ok(s: Seq<char>)
    ensures
        spec_parse_command(s) matches Ok(c) ==> command_ok(c),
{
    lemma_parse_command_wf(s);
    lemma_parse_command_implicit_all(s);
    lemma_parse_command_shape(s);
}

proof fn lemma_candidates_ok(pieces: Seq<Seq<char>>, k: int, acc: Seq<CommandModel>)
    requires
        forall|j: int| 0 <= j < acc.len() ==> command_ok(#[trigger] acc[j]),
    ensures
        candidates_from(pieces, k, acc) matches Ok(v) ==> forall|j: int|
            0 <= j < v.len() ==> command_ok(#[trigger] v[j]),
    decreases pieces.len() - k,
{
    if 0 <= k < pieces.len() {
        let p = spec_trim(pieces[k]);
        if p.len() != 0 {
            lemma_command_ok(p);
            if let Ok(c) = spec_parse_command(p) {
                let n = acc.push(c);
                assert forall|j: int| 0 <= j < n.len() implies command_ok(#[trigger] n[j]) by {
                    if j < acc.len() {
                        assert(n[j] == acc[j]);
                    }
                }
                lemma_candidates_ok(pieces, k + 1, n);
            }
        }
    }
}

/// An accepted template holds no shell syntax: its trimmed body is no
/// `Shell:` dialect block and has no backquote, `;`, `&&` or `||` outside
/// the places where quotes make them literal.
pub proof fn law_accepted_templates_are_portable(body: Seq<char>)
    ensures
        spec_parse_template(body) is Ok ==> !spec_starts_with(spec_trim(body), "Shell:"@)
            && !spec_forbidden(spec_trim(body)),
{
}

/// Every pipeline of an accepted template has the shape that the parser
/// promises (see `command_ok`).
pub proof fn law_parsed_pipelines_are_well_formed(body: Seq<char>)
    ensures
        spec_parse_template(body) matches Ok(t) ==> forall|j: int|
            0 <= j < template_commands(t).len() ==> command_ok(#[trigger] template_commands(t)[j]),
{
    let b = spec_trim(body);
    if let Ok(t) = spec_parse_template(body) {
        if spec_wrapped(b, "SetEnv"@) is Some || spec_wrapped(b, "UnsetEnv"@) is Some {
        } else if spec_starts_with(b, "WithEnv("@) {
            let rest = b.skip("WithEnv("@.len() as int);
            if let Some(end) = spec_matching_paren(rest) {
                lemma_command_ok(spec_trim(rest.skip(end + 1)));
            }
        } else if spec_wrapped(b, "FirstAvailable"@) is Some {
            lemma_candidates_ok(spec_split_top(spec_wrapped(b, "FirstAvailable"@)->0, ','), 0, Seq::empty());
        } else {
            lemma_command_ok(b);
        }
    }
}


proof fn lemma_seq_less_irreflexive(a: Seq<u64>)
    ensures
        !seq_less(a, a),
    decreases a.len(),
{
    if a.len() > 0 {
        lemma_seq_less_irreflexive(a.drop_first());
    }
}

proof fn lemma_seq_less_asymmetric(a: Seq<u64>, b: Seq<u64>)
    ensures
        seq_less(a, b) ==> !seq_less(b, a),
    decreases a.len(),
{
    if a.len() > 0 && b.len() > 0 && a[0] == b[0] {
        lemma_seq_less_asymmetric(a.drop_first(), b.drop_first());
    }
}

/// A version is never newer than itself.
pub proof fn law_version_not_newer_than_itself(v: Seq<char>)
    requires
        spec_normalize_version(v) == v,
    ensures
        !spec_is_newer(v, v),
{
    lemma_seq_less_irreflexive(crate::version::spec_version_parts(v));
}

/// Of two versions, at most one is newer than the other.
pub proof fn law_newer_is_asymmetric(a: Seq<char>, b: Seq<char>)
    requires
        spec_normalize_version(a) == a,
        spec_normalize_version(b) == b,
    ensures
        spec_is_newer(a, b) ==> !spec_is_newer(b, a),
{
    lemma_seq_less_asymmetric(crate::version::spec_version_parts(b), crate::version::spec_version_parts(a));
}

proof fn lemma_trim_end_prefix(l: Seq<char>)
    ensures
        spec_trim_end(seq!['v'] + l) == seq!['v'] + spec_trim_end(l),
    decreases l.len(),
{
    let vl = seq!['v'] + l;
    if l.len() > 0 && spec_is_whitespace(l.last()) {
        assert(vl.last() == l.last());
        assert(vl.drop_last() =~= seq!['v'] + l.drop_last());
        lemma_trim_end_prefix(l.drop_last());
    } else if l.len() > 0 {
        assert(vl.last() == l.last());
    } else {
        assert(vl.last() == 'v');
        assert(!spec_is_whitespace('v'));
    }
}

/// A local version is compared without its `v` prefix: `vX` and `X` are
/// treated alike, when `X` does not start with white space.
pub proof fn law_local_v_prefix_is_ignored(remote: Seq<char>, local: Seq<char>)
    requires
        local.len() == 0 || !spec_is_whitespace(local[0]),
    ensures
        spec_is_newer(remote, seq!['v'] + local) == spec_is_newer(remote, local),
{
    let vl = seq!['v'] + local;
    assert(!spec_is_whitespace('v'));
    assert(vl[0] == 'v');
    assert(spec_trim_start(vl) == vl);
    assert(spec_trim_start(local) == local);
    lemma_trim_end_prefix(local);
    let t = spec_trim_end(local);
    assert(spec_trim(vl) == seq!['v'] + t);
    assert((seq!['v'] + t).drop_first() =~= t);
    assert(spec_trim_start_v(seq!['v'] + t) == spec_trim_start_v(t));
    assert(spec_normalize_version(vl) == spec_normalize_version(local));
}

/// A forced update never reports the installed version as current.
pub proof fn law_forced_update_downloads(
    tag_name: Seq<char>,
    local_version: Seq<char>,
    asset_names: Seq<Seq<char>>,
    os: Seq<char>,
    arch: Seq<char>,
)
    ensures
        !(spec_plan_update(true, tag_name, local_version, asset_names, os, arch) matches Ok((_, None))),
{
}

proof fn lemma_first_named(names: Seq<Seq<char>>, name: Seq<char>, k: int)
    requires
        0 <= k,
    ensures
        first_named_from(names, name, k) matches Some(j) ==> k <= j < names.len() && names[j] == name
            && forall|m: int| k <= m < j ==> names[m] != name,
        first_named_from(names, name, k) is None ==> forall|m: int| k <= m < names.len() ==> names[m] != name,
    decreases names.len() - k,
{
    if k < names.len() && names[k] != name {
        lemma_first_named(names, name, k + 1);
    }
}

/// An update that is not forced never replaces the installed program by a
/// release that is not newer: it downloads only when the release's version
/// is newer than the local one, and then the first asset whose name is the
/// platform's asset name; a release that is not newer, and in particular one
/// older than the local version, is reported as current.
pub proof fn law_unforced_update_never_downgrades(
    tag_name: Seq<char>,
    local_version: Seq<char>,
    asset_names: Seq<Seq<char>>,
    os: Seq<char>,
    arch: Seq<char>,
)
    ensures
        spec_plan_update(false, tag_name, local_version, asset_names, os, arch) matches Ok((v, Some(k))) ==> {
            &&& v == spec_normalize_version(tag_name)
            &&& spec_is_newer(v, local_version)
            &&& 0 <= k < asset_names.len()
            &&& spec_asset_name(os, arch) == Ok::<Seq<char>, Seq<char>>(asset_names[k])
            &&& forall|m: int| 0 <= m < k ==> Ok::<Seq<char>, Seq<char>>(asset_names[m]) != spec_asset_name(os, arch)
        },
        !spec_is_newer(spec_normalize_version(tag_name), local_version) ==> spec_plan_update(
            false, tag_name, local_version, asset_names, os, arch,
        ) == Ok::<(Seq<char>, Option<int>), Seq<char>>((spec_normalize_version(tag_name), None)),
        seq_less(
            spec_version_parts(spec_normalize_version(tag_name)),
            spec_version_parts(spec_normalize_version(local_version)),
        ) ==> spec_plan_update(false, tag_name, local_version, asset_names, os, arch)
            == Ok::<(Seq<char>, Option<int>), Seq<char>>((spec_normalize_version(tag_name), None)),
{
    let v = spec_normalize_version(tag_name);
    lemma_seq_less_asymmetric(spec_version_parts(v), spec_version_parts(spec_normalize_version(local_version)));
    if let Ok(name) = spec_asset_name(os, arch) {
        lemma_first_named(asset_names, name, 0);
    }
}

/// The part of a target triple that names an architecture.
pub open spec fn triple_arch(arch: Seq<char>) -> Seq<char> {
    if arch == "x86"@ { "i686"@ } else { arch }
}

/// The part of a target triple that follows the architecture, for an
/// operating system.
pub open spec fn triple_rest(os: Seq<char>) -> Seq<char> {
    if os == "windows"@ {
        "-pc-windows-msvc"@
    } else if os == "macos"@ {
        "-apple-darwin"@
    } else if os == "android"@ {
        "-linux-android"@
    } else {
        "-unknown-linux-gnu"@
    }
}

/// The supported platforms: Windows on x86-64, x86 and ARM64, macOS on
/// x86-64 and ARM64, Linux on x86-64, Android on ARM64.
pub open spec fn published_platform(os: Seq<char>, arch: Seq<char>) -> bool {
    ||| os == "windows"@ && (arch == "x86_64"@ || arch == "x86"@ || arch == "aarch64"@)
    ||| os == "macos"@ && (arch == "x86_64"@ || arch == "aarch64"@)
    ||| os == "linux"@ && arch == "x86_64"@
    ||| os == "android"@ && arch == "aarch64"@
}

/// A release asset is named `aliasc-` and the target triple of the
/// requested architecture and operating system (the architecture first, `x86`
/// written `i686`), with `.exe` on Windows; a name is given exactly for the
/// published platforms.
pub proof fn law_asset_names_the_requested_platform(os: Seq<char>, arch: Seq<char>)
    ensures
        spec_asset_name(os, arch) is Ok <==> published_platform(os, arch),
        spec_asset_name(os, arch) matches Ok(n) ==> n == "aliasc-"@ + triple_arch(arch) + triple_rest(os)
            + (if os == "windows"@ { ".exe"@ } else { Seq::empty() }),
{
    reveal_strlit("windows");
    reveal_strlit("macos");
    reveal_strlit("linux");
    reveal_strlit("android");
    reveal_strlit("x86_64");
    reveal_strlit("x86");
    reveal_strlit("i686");
    reveal_strlit("aarch64");
    reveal_strlit("-pc-windows-msvc");
    reveal_strlit("-apple-darwin");
    reveal_strlit("-linux-android");
    reveal_strlit("-unknown-linux-gnu");
    reveal_strlit("x86_64-pc-windows-msvc");
    reveal_strlit("i686-pc-windows-msvc");
    reveal_strlit("aarch64-pc-windows-msvc");
    reveal_strlit("x86_64-apple-darwin");
    reveal_strlit("aarch64-apple-darwin");
    reveal_strlit("x86_64-unknown-linux-gnu");
    reveal_strlit("aarch64-linux-android");
    assert("windows"@.len() == 7 && "windows"@[0] == 'w');
    assert("android"@.len() == 7 && "android"@[0] == 'a');
    assert("macos"@.len() == 5 && "macos"@[0] == 'm');
    assert("linux"@.len() == 5 && "linux"@[0] == 'l');
    assert("x86"@.len() == 3 && "x86_64"@.len() == 6 && "aarch64"@.len() == 7);
    assert("x86_64-pc-windows-msvc"@ =~= "x86_64"@ + "-pc-windows-msvc"@);
    assert("i686-pc-windows-msvc"@ =~= "i686"@ + "-pc-windows-msvc"@);
    assert("aarch64-pc-windows-msvc"@ =~= "aarch64"@ + "-pc-windows-msvc"@);
    assert("x86_64-apple-darwin"@ =~= "x86_64"@ + "-apple-darwin"@);
    assert("aarch64-apple-darwin"@ =~= "aarch64"@ + "-apple-darwin"@);
    assert("x86_64-unknown-linux-gnu"@ =~= "x86_64"@ + "-unknown-linux-gnu"@);
    assert("aarch64-linux-android"@ =~= "aarch64"@ + "-linux-android"@);
    if os != "windows"@ {
        assert(("aliasc-"@ + triple_arch(arch) + triple_rest(os)) + Seq::<char>::empty()
            =~= "aliasc-"@ + triple_arch(arch) + triple_rest(os));
    }
}

/// `id` is one of the white-space separated words of the value `v`, with
/// surrounding quotes removed, in ASCII lower case.
pub open spec fn is_word_of(v: Option<Seq<char>>, id: Seq<char>) -> bool {
    v matches Some(x) && exists|k: int|
        0 <= k < spec_words(trim_quotes(x)).len() && spec_lower(#[trigger] spec_words(trim_quotes(x))[k]) == id
}

/// `id` is a word of the first `ID=` or of the first `ID_LIKE=` line.
pub open spec fn names_id(text: Seq<char>, id: Seq<char>) -> bool {
    ||| is_word_of(first_value_from(spec_lines(text), "ID="@, 0), id)
    ||| is_word_of(first_value_from(spec_lines(text), "ID_LIKE="@, 0), id)
}

proof fn lemma_value_ids_contains(v: Option<Seq<char>>, id: Seq<char>)
    ensures
        value_ids(v).contains(id) <==> is_word_of(v, id),
{
    if let Some(x) = v {
        let ws = spec_words(trim_quotes(x));
        if value_ids(v).contains(id) {
            let i = choose|i: int| 0 <= i < value_ids(v).len() && value_ids(v)[i] == id;
            assert(spec_lower(ws[i]) == id);
        }
        if is_word_of(v, id) {
            let k = choose|k: int| 0 <= k < ws.len() && spec_lower(#[trigger] ws[k]) == id;
            assert(value_ids(v)[k] == id);
        }
    }
}

/// Every white-space separated word of the `ID=` and `ID_LIKE=` values is an
/// identifier of the distribution, not only the first: the detected
/// distribution is Ubuntu if some word names it, else Debian, else Fedora,
/// else Arch, and none when no word names any of them.
pub proof fn law_every_os_release_word_is_an_identifier(text: Seq<char>)
    ensures
        spec_distro_of_os_release(text) == (if names_id(text, "ubuntu"@) {
            Distro::Ubuntu
        } else if names_id(text, "debian"@) {
            Distro::Debian
        } else if names_id(text, "fedora"@) {
            Distro::Fedora
        } else if names_id(text, "arch"@) {
            Distro::Arch
        } else {
            Distro::NoDistro
        }),
{
    let ls = spec_lines(text);
    let a = first_value_from(ls, "ID="@, 0);
    let b = first_value_from(ls, "ID_LIKE="@, 0);
    let ids = os_release_ids(text);
    assert forall|id: Seq<char>| ids.contains(id) <==> names_id(text, id) by {
        lemma_value_ids_contains(a, id);
        lemma_value_ids_contains(b, id);
        let va = value_ids(a);
        let vb = value_ids(b);
        if ids.contains(id) {
            let i = choose|i: int| 0 <= i < ids.len() && ids[i] == id;
            if i < va.len() {
                assert(va[i] == id);
            } else {
                assert(vb[i - va.len()] == id);
            }
        }
        if va.contains(id) {
            let i = choose|i: int| 0 <= i < va.len() && va[i] == id;
            assert(ids[i] == id);
        }
        if vb.contains(id) {
            let i = choose|i: int| 0 <= i < vb.len() && vb[i] == id;
            assert(ids[va.len() + i] == id);
        }
    }
}

// ---------------------------------------------------------------------------
// The tokenizer: a word ends at white space.

/// `o` put before the tokens of a tokenizer result.
pub open spec fn after_tokens(o: Seq<TokModel>, r: Result<Seq<TokModel>, Seq<char>>) -> Result<Seq<TokModel>, Seq<char>> {
    match r {
        Ok(t) => Ok(o + t),
        Err(e) => Err(e),
    }
}

/// A tokenizer state with no tokens emitted yet.
pub open spec fn fresh_out(st: LexState) -> LexState {
    LexState { out: Seq::empty(), buf: st.buf, segs: st.segs, quote: st.quote, quoted: st.quoted }
}

proof fn lemma_after_tokens_twice(o1: Seq<TokModel>, o2: Seq<TokModel>, r: Result<Seq<TokModel>, Seq<char>>)
    ensures
        after_tokens(o1 + o2, r) == after_tokens(o1, after_tokens(o2, r)),
{
    if let Ok(t) = r {
        assert((o1 + o2) + t =~= o1 + (o2 + t));
    }
}

proof fn lemma_flush_out(st: LexState)
    ensures
        flush(st) is Ok <==> flush(fresh_out(st)) is Ok,
        flush(st) matches Err(e) ==> flush(fresh_out(st)) == Err::<LexState, Seq<char>>(e),
        flush(st) matches Ok(f) ==> (flush(fresh_out(st)) matches Ok(g) && f.out =~= st.out + g.out
            && fresh_out(f) == fresh_out(g)),
        flush(st) matches Ok(f) ==> f.buf.len() == 0 && f.segs.len() == 0 && f.quote == st.quote
            && f.quoted == st.quoted,
{
    assert(close_buf(fresh_out(st)) == fresh_out(close_buf(st)));
    let c = close_buf(st);
    if c.segs.len() == 0 {
        assert(c.out + Seq::<TokModel>::empty() =~= c.out);
    }
}

proof fn lemma_close_brace_shift(a: Seq<char>, q: Seq<char>, f: int)
    requires
        0 <= f,
    ensures
        close_brace_from(a + q, a.len() + f) == a.len() + close_brace_from(q, f),
    decreases q.len() - f,
{
    if f < q.len() {
        assert((a + q)[a.len() + f] == q[f]);
        if q[f] != '}' {
            lemma_close_brace_shift(a, q, f + 1);
        }
    }
}

proof fn lemma_close_brace_prefix(p: Seq<char>, y: Seq<char>, f: int)
    requires
        0 <= f,
        close_brace_from(p, f) < p.len(),
    ensures
        close_brace_from(p + y, f) == close_brace_from(p, f),
    decreases p.len() - f,
{
    assert((p + y)[f] == p[f]);
    if p[f] != '}' {
        lemma_close_brace_prefix(p, y, f + 1);
    }
}

proof fn lemma_matching_paren_prefix(p: Seq<char>, y: Seq<char>, i: int, depth: nat, quote: Option<char>)
    requires
        0 <= i,
        spec_matching_paren_from(p, i, depth, quote) is Some,
    ensures
        spec_matching_paren_from(p + y, i, depth, quote) == spec_matching_paren_from(p, i, depth, quote),
    decreases p.len() - i,
{
    let c = p[i];
    assert((p + y)[i] == c);
    match quote {
        Some(q) => if c == q {
            lemma_matching_paren_prefix(p, y, i + 1, depth, None);
        } else {
            lemma_matching_paren_prefix(p, y, i + 1, depth, quote);
        },
        None => {
            if c == '\'' || c == '"' {
                lemma_matching_paren_prefix(p, y, i + 1, depth, Some(c));
            } else if c == '(' {
                lemma_matching_paren_prefix(p, y, i + 1, depth + 1, None);
            } else if c == ')' {
                if depth != 0 {
                    lemma_matching_paren_prefix(p, y, i + 1, (depth - 1) as nat, None);
                }
            } else {
                lemma_matching_paren_prefix(p, y, i + 1, depth, None);
            }
        },
    }
}

proof fn lemma_utf8_len_ascii(s: Seq<char>)
    requires
        forall|k: int| 0 <= k < s.len() ==> (s[k] as u32) < 0x80,
    ensures
        utf8_len(s) == s.len(),
    decreases s.len(),
{
    if s.len() > 0 {
        lemma_utf8_len_ascii(s.drop_last());
    }
}

/// Tokenizing the part `q` of `a + q` from position `j` of `q` on gives the
/// tokens already emitted followed by what `q` alone gives from there.
#[verifier::spinoff_prover]
#[verifier::rlimit(100)]
proof fn lemma_lex_shift(a: Seq<char>, q: Seq<char>, j: int, st: LexState)
    requires
        0 <= j,
    ensures
        lex_from(a + q, a.len() + j, st) == after_tokens(st.out, lex_from(q, j, fresh_out(st))),
    decreases q.len() - j,
{
    let s = a + q;
    let i = a.len() + j;
    let st0 = fresh_out(st);
    lemma_flush_out(st);
    if j >= q.len() {
        if !(st.quote is Some) {
            if let Ok(f) = flush(st) {
                assert(st.out + (flush(st0)->Ok_0).out =~= f.out);
            }
        }
        return;
    }
    let c = q[j];
    assert(s[i] == c);
    let has_next = j + 1 < q.len();
    if has_next {
        assert(s[i + 1] == q[j + 1]);
    }
    assert(s.len() == a.len() + q.len());
    if st.quote is Some && st.quote->0 == '"' && c == '\\' && has_next {
        lemma_lex_shift(a, q, j + 2, with_buf(st, st.buf.push(q[j + 1])));
    } else if st.quote is Some && c == st.quote->0 {
        lemma_lex_shift(a, q, j + 1, with_quote(st, None, st.quoted));
    } else if st.quote == Some('\'') {
        lemma_lex_shift(a, q, j + 1, with_buf(st, st.buf.push(c)));
    } else if st.quote is None && (c == '\'' || c == '"') {
        lemma_lex_shift(a, q, j + 1, with_quote(st, Some(c), true));
    } else if st.quote is None && spec_is_whitespace(c) {
        if let Ok(f) = flush(st) {
            let g = flush(st0)->Ok_0;
            lemma_lex_shift(a, q, j + 1, with_quote(f, None, false));
            lemma_lex_shift(Seq::empty(), q, j + 1, with_quote(g, None, false));
            assert(Seq::<char>::empty() + q =~= q);
            assert(fresh_out(with_quote(f, None, false)) == fresh_out(with_quote(g, None, false)));
            lemma_after_tokens_twice(st.out, g.out, lex_from(q, j + 1, fresh_out(with_quote(g, None, false))));
        }
    } else if st.quote is None && (c == '|' || c == '<' || c == '>') {
        if let Ok(f) = flush(st) {
            let g = flush(st0)->Ok_0;
            assert(Seq::<char>::empty() + q =~= q);
            let op = if c == '>' && has_next && q[j + 1] == '>' {
                OpKind::Append
            } else if c == '|' {
                OpKind::Pipe
            } else if c == '<' {
                OpKind::Input
            } else {
                OpKind::Output
            };
            let n = if c == '>' && has_next && q[j + 1] == '>' { j + 2 } else { j + 1 };
            lemma_lex_shift(a, q, n, with_op(f, op));
            lemma_lex_shift(Seq::empty(), q, n, with_op(g, op));
            assert(fresh_out(with_op(f, op)) == fresh_out(with_op(g, op)));
            assert(with_op(f, op).out =~= st.out + with_op(g, op).out);
            lemma_after_tokens_twice(st.out, with_op(g, op).out, lex_from(q, n, fresh_out(with_op(g, op))));
        }
    } else if c == '$' && has_next && q[j + 1] == '{' {
        lemma_close_brace_shift(a, q, j + 2);
        lemma_close_brace_bound(q, j + 2);
        let jj = close_brace_from(q, j + 2);
        if jj < q.len() {
            let name = q.subrange(j + 2, jj);
            assert(s.subrange(i + 2, a.len() + jj) =~= name);
            let x = with_seg(close_buf(st), SegmentModel::EnvRef(name));
            assert(fresh_out(x) == with_seg(close_buf(st0), SegmentModel::EnvRef(name)));
            lemma_lex_shift(a, q, jj + 1, x);
        }
    } else if c == '$' && has_next && q[j + 1] == '(' {
        let rest = q.subrange(j + 2, q.len() as int);
        assert(s.subrange(i + 2, s.len() as int) =~= rest);
        lemma_matching_paren_bound(rest, 0, 0, None);
        if let Some(end) = spec_matching_paren(rest) {
            let sub = rest.take(end);
            if let Ok(cmd) = spec_parse_command(sub) {
                let nq = j + utf8_len(sub) + 3;
                let jq = if nq < q.len() { nq } else { q.len() as int };
                let x = with_seg(close_buf(st), SegmentModel::CommandSubstitution(Box::new(cmd)));
                assert(fresh_out(x) == with_seg(close_buf(st0), SegmentModel::CommandSubstitution(Box::new(cmd))));
                lemma_lex_shift(a, q, jq, x);
            }
        }
    } else if c == '$' {
    } else if c == '@' {
        let st1 = close_buf(st);
        let st10 = close_buf(st0);
        assert(fresh_out(st1) == st10);
        if has_next && q[j + 1] == '@' {
            lemma_lex_shift(a, q, j + 2, with_seg(st1, SegmentModel::LiteralAt));
            assert(fresh_out(with_seg(st1, SegmentModel::LiteralAt)) == with_seg(st10, SegmentModel::LiteralAt));
        } else if has_next && q[j + 1] == '*' {
            lemma_lex_shift(a, q, j + 2, with_seg(st1, SegmentModel::AllArguments));
            assert(fresh_out(with_seg(st1, SegmentModel::AllArguments)) == with_seg(st10, SegmentModel::AllArguments));
        } else if has_next && spec_is_ascii_digit(q[j + 1]) && q[j + 1] != '0' {
            let seg = SegmentModel::Positional(((q[j + 1] as u32) - 48) as u8);
            lemma_lex_shift(a, q, j + 2, with_seg(st1, seg));
            assert(fresh_out(with_seg(st1, seg)) == with_seg(st10, seg));
        } else {
            lemma_lex_shift(a, q, j + 1, with_buf(st1, seq!['@']));
            assert(fresh_out(with_buf(st1, seq!['@'])) == with_buf(st10, seq!['@']));
        }
    } else {
        lemma_lex_shift(a, q, j + 1, with_buf(st, st.buf.push(c)));
    }
}

/// The tokens of `p + " " + q` from position `i` of `p` on: those that `p`
/// alone gives from there, then those of `q` tokenized afresh.
#[verifier::spinoff_prover]
#[verifier::rlimit(100)]
proof fn lemma_lex_before_space(p: Seq<char>, q: Seq<char>, i: int, st: LexState)
    requires
        0 <= i <= p.len(),
        forall|k: int| 0 <= k < p.len() ==> (p[k] as u32) < 0x80,
        lex_from(p, i, st) is Ok,
    ensures
        lex_from(p + seq![' '] + q, i, st) == after_tokens(lex_from(p, i, st)->Ok_0, spec_tokenize(q)),
    decreases p.len() - i,
{
    let a = p + seq![' '];
    let s = a + q;
    assert(s.len() == p.len() + 1 + q.len());
    assert(s[p.len() as int] == ' ');
    lemma_flush_out(st);
    if i == p.len() {
        let f = flush(st)->Ok_0;
        let x = with_quote(f, None, false);
        lemma_lex_shift(a, q, 0, x);
        assert(f.buf =~= Seq::<char>::empty());
        assert(f.segs =~= Seq::<SegmentModel>::empty());
        assert(fresh_out(x) == crate::lex::lex_init());
        return;
    }
    let c = p[i];
    assert(s[i] == c);
    let has_next = i + 1 < p.len();
    if has_next {
        assert(s[i + 1] == p[i + 1]);
    } else {
        assert(s[i + 1] == ' ');
    }
    if st.quote is Some && st.quote->0 == '"' && c == '\\' {
        if has_next {
            lemma_lex_before_space(p, q, i + 2, with_buf(st, st.buf.push(p[i + 1])));
        } else {
            assert(lex_from(p, i + 1, with_buf(st, st.buf.push(c))) is Err);
        }
    } else if st.quote is Some && c == st.quote->0 {
        lemma_lex_before_space(p, q, i + 1, with_quote(st, None, st.quoted));
    } else if st.quote == Some('\'') {
        lemma_lex_before_space(p, q, i + 1, with_buf(st, st.buf.push(c)));
    } else if st.quote is None && (c == '\'' || c == '"') {
        lemma_lex_before_space(p, q, i + 1, with_quote(st, Some(c), true));
    } else if st.quote is None && spec_is_whitespace(c) {
        let f = flush(st)->Ok_0;
        lemma_lex_before_space(p, q, i + 1, with_quote(f, None, false));
    } else if st.quote is None && (c == '|' || c == '<' || c == '>') {
        let f = flush(st)->Ok_0;
        if c == '>' && has_next && p[i + 1] == '>' {
            lemma_lex_before_space(p, q, i + 2, with_op(f, OpKind::Append));
        } else {
            let op = if c == '|' {
                OpKind::Pipe
            } else if c == '<' {
                OpKind::Input
            } else {
                OpKind::Output
            };
            lemma_lex_before_space(p, q, i + 1, with_op(f, op));
        }
    } else if c == '$' && has_next && p[i + 1] == '{' {
        lemma_close_brace_bound(p, i + 2);
        let jj = close_brace_from(p, i + 2);
        lemma_close_brace_prefix(p, seq![' '] + q, i + 2);
        assert(s =~= p + (seq![' '] + q));
        let name = p.subrange(i + 2, jj);
        assert(s.subrange(i + 2, jj) =~= name);
        lemma_lex_before_space(p, q, jj + 1, with_seg(close_buf(st), SegmentModel::EnvRef(name)));
    } else if c == '$' && has_next && p[i + 1] == '(' {
        let rest = p.subrange(i + 2, p.len() as int);
        let y = seq![' '] + q;
        assert(s.subrange(i + 2, s.len() as int) =~= rest + y);
        lemma_matching_paren_bound(rest, 0, 0, None);
        let end = spec_matching_paren(rest)->Some_0;
        lemma_matching_paren_prefix(rest, y, 0, 0, None);
        let sub = rest.take(end);
        assert((rest + y).take(end) =~= sub);
        lemma_utf8_len_ascii(sub);
        let cmd = spec_parse_command(sub)->Ok_0;
        lemma_lex_before_space(
            p,
            q,
            i + end + 3,
            with_seg(close_buf(st), SegmentModel::CommandSubstitution(Box::new(cmd))),
        );
    } else if c == '$' {
    } else if c == '@' {
        let st1 = close_buf(st);
        if has_next && p[i + 1] == '@' {
            lemma_lex_before_space(p, q, i + 2, with_seg(st1, SegmentModel::LiteralAt));
        } else if has_next && p[i + 1] == '*' {
            lemma_lex_before_space(p, q, i + 2, with_seg(st1, SegmentModel::AllArguments));
        } else if has_next && spec_is_ascii_digit(p[i + 1]) && p[i + 1] != '0' {
            let seg = SegmentModel::Positional(((p[i + 1] as u32) - 48) as u8);
            lemma_lex_before_space(p, q, i + 2, with_seg(st1, seg));
        } else {
            lemma_lex_before_space(p, q, i + 1, with_buf(st1, seq!['@']));
        }
    } else {
        lemma_lex_before_space(p, q, i + 1, with_buf(st, st.buf.push(c)));
    }
}

/// A word ends at white space: what follows a space is tokenized as if it
/// stood alone, whatever precedes it. So quotes, `@*`, `${...}`, `$(...)`,
/// pipes and redirections after the space are read afresh; in particular a
/// quoted word does not make the words after it quoted, and an unquoted
/// standalone `@*` after it is the caller's arguments. This holds when the
/// text before the space is ASCII: a `$(...)` whose text is not ASCII makes
/// the tokenizer skip ahead by its length in bytes.
pub proof fn law_words_after_white_space_are_tokenized_alone(p: Seq<char>, q: Seq<char>)
    requires
        forall|k: int| 0 <= k < p.len() ==> (p[k] as u32) < 0x80,
    ensures
        spec_tokenize(p) matches Ok(tp) ==> spec_tokenize(p + seq![' '] + q) == after_tokens(tp, spec_tokenize(q)),
{
    if spec_tokenize(p) is Ok {
        lemma_lex_before_space(p, q, 0, crate::lex::lex_init());
    }
}

proof fn lemma_trim_start_concat(x: Seq<char>, y: Seq<char>)
    ensures
        spec_trim_start(x).len() > 0 ==> spec_trim_start(x + y) == spec_trim_start(x) + y,
        spec_trim_start(x).len() == 0 ==> spec_trim_start(x + y) == spec_trim_start(y),
    decreases x.len(),
{
    if x.len() > 0 {
        assert((x + y)[0] == x[0]);
        if spec_is_whitespace(x[0]) {
            assert((x + y).drop_first() =~= x.drop_first() + y);
            lemma_trim_start_concat(x.drop_first(), y);
        }
    } else {
        assert(x + y =~= y);
    }
}

proof fn lemma_first_ws_concat(t: Seq<char>, y: Seq<char>, k: int)
    requires
        0 <= k <= t.len(),
    ensures
        first_ws_from(t, k) < t.len() ==> first_ws_from(t + y, k) == first_ws_from(t, k),
        first_ws_from(t, k) == t.len() && y.len() > 0 && spec_is_whitespace(y[0]) ==> first_ws_from(t + y, k)
            == t.len(),
    decreases t.len() - k,
{
    if k < t.len() {
        assert((t + y)[k] == t[k]);
        if !spec_is_whitespace(t[k]) {
            lemma_first_ws_concat(t, y, k + 1);
        }
    } else if y.len() > 0 {
        assert((t + y)[k] == y[0]);
    }
}

proof fn lemma_words_concat(a: Seq<char>, b: Seq<char>)
    ensures
        spec_words(a + seq![' '] + b) == spec_words(a) + spec_words(b),
    decreases a.len(),
{
    let y = seq![' '] + b;
    assert(a + seq![' '] + b =~= a + y);
    assert(spec_is_whitespace(' '));
    assert(y[0] == ' ');
    assert(y.drop_first() =~= b);
    assert(spec_trim_start(y) == spec_trim_start(b));
    lemma_trim_start_concat(a, y);
    lemma_trim_start_shape(a);
    let t = spec_trim_start(a);
    if t.len() == 0 {
        assert(spec_words(a) =~= Seq::<Seq<char>>::empty());
        assert(spec_words(a + y) == spec_words(b));
        assert(spec_words(a) + spec_words(b) =~= spec_words(b));
    } else {
        lemma_first_ws_bound(t, 0);
        let k = first_ws_from(t, 0);
        assert(k > 0);
        lemma_first_ws_concat(t, y, 0);
        lemma_trim_start_shape(a + y);
        lemma_first_ws_bound(t + y, 0);
        assert((t + y).take(k) =~= t.take(k));
        if k < t.len() {
            assert((t + y).skip(k) =~= t.skip(k) + seq![' '] + b);
            lemma_words_concat(t.skip(k), b);
            assert(spec_words(a + y) == seq![t.take(k)] + spec_words(t.skip(k) + seq![' '] + b));
            assert(spec_words(a) == seq![t.take(k)] + spec_words(t.skip(k)));
            assert(seq![t.take(k)] + (spec_words(t.skip(k)) + spec_words(b))
                =~= (seq![t.take(k)] + spec_words(t.skip(k))) + spec_words(b));
        } else {
            assert((t + y).skip(k) =~= y);
            assert(t.skip(k) =~= Seq::<char>::empty());
            assert(spec_words(Seq::<char>::empty()) =~= Seq::<Seq<char>>::empty());
            assert(spec_words(y) == spec_words(b));
            assert(spec_words(a) =~= seq![t.take(k)]);
            assert(spec_words(a + y) == seq![t.take(k)] + spec_words(b));
        }
    }
}

/// The words of a value are split at white space and nowhere else: a
/// non-empty text without white space is one word, and the words of two
/// texts joined by a space are the words of the first followed by those of
/// the second. So every word of an `ID_LIKE` list counts, not only the first.
pub proof fn law_words_split_at_white_space(a: Seq<char>, b: Seq<char>, w: Seq<char>)
    requires
        w.len() > 0,
        forall|k: int| 0 <= k < w.len() ==> !spec_is_whitespace(#[trigger] w[k]),
    ensures
        spec_words(a + seq![' '] + b) == spec_words(a) + spec_words(b),
        spec_words(w) == seq![w],
{
    lemma_words_concat(a, b);
    lemma_first_ws_bound(w, 0);
    if first_ws_from(w, 0) < w.len() {
        assert(!spec_is_whitespace(w[first_ws_from(w, 0)]));
    }
    assert(w.take(w.len() as int) =~= w);
    assert(w.skip(w.len() as int) =~= Seq::<char>::empty());
    assert(spec_words(Seq::<char>::empty()) =~= Seq::<Seq<char>>::empty());
    assert(spec_words(w) =~= seq![w]);
}

}
