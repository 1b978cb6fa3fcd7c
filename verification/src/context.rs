//! The target context of a compilation and the rules that decide which
//! sections of a source file are active in it.

use vstd::prelude::*;
use crate::text::{chars_eq, eq_str, lower, spec_lower, string_from, string_of, to_chars};

verus! {

/// The shell that generated output is written for.
#[derive(Clone, Copy, Debug, Default, PartialEq, Eq, Structural)]
pub enum Shell {
    #[default]
    Posix,
    Bash,
    Zsh,
    Fish,
    Nu,
    Powershell,
    Pwsh,
    Cmd,
}

/// The platform requested on the command line.
#[derive(Clone, Copy, Debug, Default, PartialEq, Eq, Structural)]
pub enum PlatformArg {
    #[default]
    Auto,
    Linux,
    Macos,
    Windows,
}

/// A resolved platform.
#[derive(Clone, Copy, Debug, PartialEq, Eq, Structural)]
pub enum Platform {
    Linux,
    Macos,
    Windows,
}

/// The distribution requested on the command line.
#[derive(Clone, Debug, Default, PartialEq, Eq)]
pub enum DistroArg {
    #[default]
    Auto,
    NoDistro,
    Name(String),
}

/// The environment requested on the command line.
#[derive(Clone, Debug, Default, PartialEq, Eq)]
pub enum EnvironmentArg {
    #[default]
    Auto,
    Name(String),
}

/// A resolved Linux distribution.
#[derive(Debug, Default, PartialEq, Eq)]
pub enum Distro {
    #[default]
    NoDistro,
    Ubuntu,
    Debian,
    Fedora,
    Arch,
    Other(String),
}

/// A resolved Windows environment.
#[derive(Debug, Default, PartialEq, Eq)]
pub enum Environment {
    #[default]
    NoEnvironment,
    Msys2,
    GitBash,
    Wsl,
    Other(String),
}

/// The resolved target of a compilation.
#[derive(Debug, PartialEq, Eq)]
pub struct Context {
    pub shell: Shell,
    pub platform: Platform,
    pub distro: Distro,
    pub environment: Environment,
}

/// The section name that a distribution activates, if any.
pub open spec fn spec_distro_name(d: Distro) -> Option<Seq<char>> {
    match d {
        Distro::NoDistro => None,
        Distro::Ubuntu => Some("ubuntu"@),
        Distro::Debian => Some("debian"@),
        Distro::Fedora => Some("fedora"@),
        Distro::Arch => Some("arch"@),
        Distro::Other(x) => Some(spec_lower(x@)),
    }
}

/// The section name that an environment activates, if any.
pub open spec fn spec_environment_name(e: Environment) -> Option<Seq<char>> {
    match e {
        Environment::NoEnvironment => None,
        Environment::Msys2 => Some("msys2"@),
        Environment::GitBash => Some("gitbash"@),
        Environment::Wsl => Some("wsl"@),
        Environment::Other(x) => Some(spec_lower(x@)),
    }
}

/// `d` is the distribution that the name `s` denotes.
pub open spec fn spec_distro_parsed(s: Seq<char>, d: Distro) -> bool {
    let n = spec_lower(s);
    if n == "none"@ {
        d == Distro::NoDistro
    } else if n == "ubuntu"@ {
        d == Distro::Ubuntu
    } else if n == "debian"@ {
        d == Distro::Debian
    } else if n == "fedora"@ {
        d == Distro::Fedora
    } else if n == "arch"@ {
        d == Distro::Arch
    } else {
        d matches Distro::Other(x) && x@ == s
    }
}

/// `e` is the environment that the name `s` denotes.
pub open spec fn spec_environment_parsed(s: Seq<char>, e: Environment) -> bool {
    let n = spec_lower(s);
    if n == "none"@ {
        e == Environment::NoEnvironment
    } else if n == "msys2"@ {
        e == Environment::Msys2
    } else if n == "gitbash"@ || n == "git-bash"@ {
        e == Environment::GitBash
    } else if n == "wsl"@ {
        e == Environment::Wsl
    } else {
        e matches Environment::Other(x) && x@ == s
    }
}

/// Whether the section called `name` is active in `ctx`; names compare
/// without regard to ASCII case.
pub open spec fn spec_section_active(ctx: Context, name: Seq<char>) -> bool {
    let n = spec_lower(name);
    if n == "common"@ {
        true
    } else {
        match ctx.platform {
            Platform::Linux => n == "unix"@ || spec_distro_name(ctx.distro) == Some(n),
            Platform::Macos => n == "unix"@ || n == "macos"@,
            Platform::Windows => n == "windows"@ || spec_environment_name(ctx.environment) == Some(n),
        }
    }
}

/// The section names that the DSL defines.
pub open spec fn spec_known_section(name: Seq<char>) -> bool {
    let n = spec_lower(name);
    ||| n == "common"@ || n == "windows"@ || n == "unix"@ || n == "macos"@
    ||| n == "ubuntu"@ || n == "debian"@ || n == "fedora"@ || n == "arch"@
    ||| n == "msys2"@ || n == "gitbash"@ || n == "wsl"@
}

/// The section names that are reserved for shells.
pub open spec fn spec_shell_section(name: Seq<char>) -> bool {
    let n = spec_lower(name);
    ||| n == "bash"@ || n == "zsh"@ || n == "fish"@ || n == "nu"@
    ||| n == "powershell"@ || n == "pwsh"@ || n == "cmd"@ || n == "posix"@
}

/// The platform that a platform argument selects on a host running `host`.
pub open spec fn spec_actual_platform(platform: PlatformArg, host: Platform) -> Platform {
    match platform {
        PlatformArg::Auto => host,
        PlatformArg::Linux => Platform::Linux,
        PlatformArg::Macos => Platform::Macos,
        PlatformArg::Windows => Platform::Windows,
    }
}

/// The platform that an operating system name (`std::env::consts::OS`) denotes.
pub open spec fn spec_platform_of_os(os: Seq<char>) -> Platform {
    if os == "windows"@ {
        Platform::Windows
    } else if os == "macos"@ {
        Platform::Macos
    } else {
        Platform::Linux
    }
}

/// The environment announced by the presence of environment variables:
/// `MSYSTEM` or `MSYS2_PATH_TYPE`, `WSL_DISTRO_NAME`, `GIT_INSTALL_ROOT`, in that order.
pub open spec fn spec_environment_of_vars(
    msystem: bool,
    msys2_path_type: bool,
    wsl_distro_name: bool,
    git_install_root: bool,
) -> Environment {
    if msystem || msys2_path_type {
        Environment::Msys2
    } else if wsl_distro_name {
        Environment::Wsl
    } else if git_install_root {
        Environment::GitBash
    } else {
        Environment::NoEnvironment
    }
}

/// The platform of the operating system named `os`.
pub fn platform_of_os(os: &str) -> (r: Platform)
    ensures
        r == spec_platform_of_os(os@),
{
    let v = to_chars(os);
    if eq_str(&v, "windows") {
        Platform::Windows
    } else if eq_str(&v, "macos") {
        Platform::Macos
    } else {
        Platform::Linux
    }
}

/// The environment that the given environment variables announce.
pub fn environment_of_vars(
    msystem: bool,
    msys2_path_type: bool,
    wsl_distro_name: bool,
    git_install_root: bool,
) -> (r: Environment)
    ensures
        r == spec_environment_of_vars(msystem, msys2_path_type, wsl_distro_name, git_install_root),
{
    if msystem || msys2_path_type {
        Environment::Msys2
    } else if wsl_distro_name {
        Environment::Wsl
    } else if git_install_root {
        Environment::GitBash
    } else {
        Environment::NoEnvironment
    }
}

/// The distribution that a name denotes.
pub fn parse_distro(s: &str) -> (r: Distro)
    ensures
        spec_distro_parsed(s@, r),
{
    let n = lower(&to_chars(s));
    if eq_str(&n, "none") {
        Distro::NoDistro
    } else if eq_str(&n, "ubuntu") {
        Distro::Ubuntu
    } else if eq_str(&n, "debian") {
        Distro::Debian
    } else if eq_str(&n, "fedora") {
        Distro::Fedora
    } else if eq_str(&n, "arch") {
        Distro::Arch
    } else {
        Distro::Other(string_from(s))
    }
}

/// The environment that a name denotes.
pub fn parse_environment(s: &str) -> (r: Environment)
    ensures
        spec_environment_parsed(s@, r),
{
    let n = lower(&to_chars(s));
    if eq_str(&n, "none") {
        Environment::NoEnvironment
    } else if eq_str(&n, "msys2") {
        Environment::Msys2
    } else if eq_str(&n, "gitbash") || eq_str(&n, "git-bash") {
        Environment::GitBash
    } else if eq_str(&n, "wsl") {
        Environment::Wsl
    } else {
        Environment::Other(string_from(s))
    }
}

/// The section name that a distribution activates.
pub fn distro_name(d: &Distro) -> (r: Option<String>)
    ensures
        match r {
            Some(x) => spec_distro_name(*d) == Some(x@),
            None => spec_distro_name(*d) is None,
        },
{
    match d {
        Distro::NoDistro => None,
        Distro::Ubuntu => Some(string_from("ubuntu")),
        Distro::Debian => Some(string_from("debian")),
        Distro::Fedora => Some(string_from("fedora")),
        Distro::Arch => Some(string_from("arch")),
        Distro::Other(x) => Some(string_of(&lower(&to_chars(x.as_str())))),
    }
}

/// The section name that an environment activates.
pub fn environment_name(e: &Environment) -> (r: Option<String>)
    ensures
        match r {
            Some(x) => spec_environment_name(*e) == Some(x@),
            None => spec_environment_name(*e) is None,
        },
{
    match e {
        Environment::NoEnvironment => None,
        Environment::Msys2 => Some(string_from("msys2")),
        Environment::GitBash => Some(string_from("gitbash")),
        Environment::Wsl => Some(string_from("wsl")),
        Environment::Other(x) => Some(string_of(&lower(&to_chars(x.as_str())))),
    }
}

/// Whether `name` is one of the section names that the DSL defines.
pub fn known_section(name: &str) -> (r: bool)
    ensures
        r == spec_known_section(name@),
{
    let n = lower(&to_chars(name));
    eq_str(&n, "common") || eq_str(&n, "windows") || eq_str(&n, "unix") || eq_str(&n, "macos")
        || eq_str(&n, "ubuntu") || eq_str(&n, "debian") || eq_str(&n, "fedora") || eq_str(&n, "arch")
        || eq_str(&n, "msys2") || eq_str(&n, "gitbash") || eq_str(&n, "wsl")
}

/// Whether `name` is one of the section names reserved for shells.
pub fn shell_section(name: &str) -> (r: bool)
    ensures
        r == spec_shell_section(name@),
{
    let n = lower(&to_chars(name));
    eq_str(&n, "bash") || eq_str(&n, "zsh") || eq_str(&n, "fish") || eq_str(&n, "nu")
        || eq_str(&n, "powershell") || eq_str(&n, "pwsh") || eq_str(&n, "cmd") || eq_str(&n, "posix")
}

fn opt_eq(a: &Option<String>, b: &Vec<char>) -> (r: bool)
    ensures
        r == (match a { Some(x) => x@ == b@, None => false }),
{
    match a {
        Some(x) => chars_eq(&to_chars(x.as_str()), b),
        None => false,
    }
}

impl Context {
    /// Resolves the command-line arguments into a context. `host` is the
    /// platform the program runs on; `detected_distro` and
    /// `detected_environment` are what probing the host found, and are used
    /// only when the platform is left to `Auto` and resolves to Linux or
    /// Windows respectively.
    pub fn resolve(
        shell: Shell,
        platform: PlatformArg,
        distro: DistroArg,
        environment: EnvironmentArg,
        host: Platform,
        detected_distro: Distro,
        detected_environment: Environment,
    ) -> (r: Self)
        ensures
            r.shell == shell,
            r.platform == spec_actual_platform(platform, host),
            match distro {
                DistroArg::Auto => r.distro == (if r.platform == Platform::Linux && platform == PlatformArg::Auto {
                    detected_distro
                } else {
                    Distro::NoDistro
                }),
                DistroArg::NoDistro => r.distro == Distro::NoDistro,
                DistroArg::Name(n) => spec_distro_parsed(n@, r.distro),
            },
            match environment {
                EnvironmentArg::Auto => r.environment == (if r.platform == Platform::Windows && platform == PlatformArg::Auto {
                    detected_environment
                } else {
                    Environment::NoEnvironment
                }),
                EnvironmentArg::Name(n) => spec_environment_parsed(n@, r.environment),
            },
    {
        let actual_platform = match platform {
            PlatformArg::Auto => host,
            PlatformArg::Linux => Platform::Linux,
            PlatformArg::Macos => Platform::Macos,
            PlatformArg::Windows => Platform::Windows,
        };
        let auto_distro = if actual_platform == Platform::Linux && platform == PlatformArg::Auto {
            detected_distro
        } else {
            Distro::NoDistro
        };
        let auto_environment = if actual_platform == Platform::Windows && platform == PlatformArg::Auto {
            detected_environment
        } else {
            Environment::NoEnvironment
        };
        let d = match distro {
            DistroArg::Auto => auto_distro,
            DistroArg::NoDistro => Distro::NoDistro,
            DistroArg::Name(n) => parse_distro(n.as_str()),
        };
        let e = match environment {
            EnvironmentArg::Auto => auto_environment,
            EnvironmentArg::Name(n) => parse_environment(n.as_str()),
        };
        Context { shell, platform: actual_platform, distro: d, environment: e }
    }

    /// Whether the section called `name` is active in this context.
    pub fn section_active(&self, name: &str) -> (r: bool)
        ensures
            r == spec_section_active(*self, name@),
    {
        let n = lower(&to_chars(name));
        if eq_str(&n, "common") {
            return true;
        }
        match self.platform {
            Platform::Linux => eq_str(&n, "unix") || opt_eq(&distro_name(&self.distro), &n),
            Platform::Macos => eq_str(&n, "unix") || eq_str(&n, "macos"),
            Platform::Windows => eq_str(&n, "windows") || opt_eq(&environment_name(&self.environment), &n),
        }
    }
}


impl DistroArg {
    /// The argument that a command-line value denotes: `auto` and `none` in
    /// any ASCII case, or a distribution name kept as given.
    pub fn from_name(s: &str) -> (r: Self)
        ensures
            spec_lower(s@) == "auto"@ ==> r == DistroArg::Auto,
            spec_lower(s@) == "none"@ ==> r == DistroArg::NoDistro,
            spec_lower(s@) != "auto"@ && spec_lower(s@) != "none"@ ==> (r matches DistroArg::Name(x) && x@ == s@),
    {
        proof {
            reveal_strlit("auto");
            reveal_strlit("none");
            assert("auto"@[0] != "none"@[0]);
        }
        let n = lower(&to_chars(s));
        if eq_str(&n, "auto") {
            DistroArg::Auto
        } else if eq_str(&n, "none") {
            DistroArg::NoDistro
        } else {
            DistroArg::Name(string_from(s))
        }
    }
}

impl EnvironmentArg {
    /// The argument that a command-line value denotes: `auto` in any ASCII
    /// case, or an environment name kept as given.
    pub fn from_name(s: &str) -> (r: Self)
        ensures
            spec_lower(s@) == "auto"@ ==> r == EnvironmentArg::Auto,
            spec_lower(s@) != "auto"@ ==> (r matches EnvironmentArg::Name(x) && x@ == s@),
    {
        let n = lower(&to_chars(s));
        if eq_str(&n, "auto") {
            EnvironmentArg::Auto
        } else {
            EnvironmentArg::Name(string_from(s))
        }
    }
}

impl std::str::FromStr for DistroArg {
    type Err = String;

    fn from_str(s: &str) -> (r: Result<Self, String>)
        ensures
            r matches Ok(a) && {
                &&& spec_lower(s@) == "auto"@ ==> a == DistroArg::Auto
                &&& spec_lower(s@) == "none"@ ==> a == DistroArg::NoDistro
                &&& spec_lower(s@) != "auto"@ && spec_lower(s@) != "none"@ ==> (a matches DistroArg::Name(x) && x@ == s@)
            },
    {
        Ok(DistroArg::from_name(s))
    }
}

impl std::str::FromStr for EnvironmentArg {
    type Err = String;

    fn from_str(s: &str) -> (r: Result<Self, String>)
        ensures
            r matches Ok(a) && {
                &&& spec_lower(s@) == "auto"@ ==> a == EnvironmentArg::Auto
                &&& spec_lower(s@) != "auto"@ ==> (a matches EnvironmentArg::Name(x) && x@ == s@)
            },
    {
        Ok(EnvironmentArg::from_name(s))
    }
}


/// Two distributions are the same: the same variant, and for `Other` the
/// same name.
pub open spec fn same_distro(a: Distro, b: Distro) -> bool {
    match (a, b) {
        (Distro::Other(x), Distro::Other(y)) => x@ == y@,
        (Distro::Other(_), _) => false,
        (_, Distro::Other(_)) => false,
        _ => a == b,
    }
}

/// Two environments are the same: the same variant, and for `Other` the
/// same name.
pub open spec fn same_environment(a: Environment, b: Environment) -> bool {
    match (a, b) {
        (Environment::Other(x), Environment::Other(y)) => x@ == y@,
        (Environment::Other(_), _) => false,
        (_, Environment::Other(_)) => false,
        _ => a == b,
    }
}

/// Two contexts are the same.
pub open spec fn same_context(a: Context, b: Context) -> bool {
    &&& a.shell == b.shell
    &&& a.platform == b.platform
    &&& same_distro(a.distro, b.distro)
    &&& same_environment(a.environment, b.environment)
}

impl Clone for Distro {
    fn clone(&self) -> (r: Self)
        ensures
            same_distro(r, *self),
    {
        match self {
            Distro::NoDistro => Distro::NoDistro,
            Distro::Ubuntu => Distro::Ubuntu,
            Distro::Debian => Distro::Debian,
            Distro::Fedora => Distro::Fedora,
            Distro::Arch => Distro::Arch,
            Distro::Other(x) => Distro::Other(x.clone()),
        }
    }
}

impl Clone for Environment {
    fn clone(&self) -> (r: Self)
        ensures
            same_environment(r, *self),
    {
        match self {
            Environment::NoEnvironment => Environment::NoEnvironment,
            Environment::Msys2 => Environment::Msys2,
            Environment::GitBash => Environment::GitBash,
            Environment::Wsl => Environment::Wsl,
            Environment::Other(x) => Environment::Other(x.clone()),
        }
    }
}

impl Clone for Context {
    fn clone(&self) -> (r: Self)
        ensures
            same_context(r, *self),
    {
        Context {
            shell: self.shell,
            platform: self.platform,
            distro: self.distro.clone(),
            environment: self.environment.clone(),
        }
    }
}

}
