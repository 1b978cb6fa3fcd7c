use aliasc::context::{
    distro_name, environment_name, environment_of_vars, known_section, parse_distro,
    parse_environment, platform_of_os, shell_section, DistroArg, EnvironmentArg, PlatformArg,
};
use aliasc::os_release::distro_of_os_release;
use aliasc::{Context, Distro, Environment, Platform, Shell};

fn ctx(platform: Platform, distro: Distro, environment: Environment) -> Context {
    Context { shell: Shell::Posix, platform, distro, environment }
}

#[test]
fn common_and_platform_sections_are_active() {
    let linux = ctx(Platform::Linux, Distro::Ubuntu, Environment::NoEnvironment);
    assert!(linux.section_active("Common"));
    assert!(linux.section_active("UNIX"));
    assert!(linux.section_active("ubuntu"));
    assert!(!linux.section_active("debian"));
    assert!(!linux.section_active("windows"));
    assert!(!linux.section_active("macos"));
    let mac = ctx(Platform::Macos, Distro::Ubuntu, Environment::Wsl);
    assert!(mac.section_active("unix"));
    assert!(mac.section_active("MacOS"));
    assert!(!mac.section_active("ubuntu"));
    assert!(!mac.section_active("wsl"));
    let win = ctx(Platform::Windows, Distro::NoDistro, Environment::Msys2);
    assert!(win.section_active("Windows"));
    assert!(win.section_active("msys2"));
    assert!(!win.section_active("unix"));
    assert!(!win.section_active("gitbash"));
}

#[test]
fn sections_do_not_depend_on_the_shell() {
    for shell in [Shell::Posix, Shell::Bash, Shell::Cmd, Shell::Pwsh] {
        let c = Context { shell, platform: Platform::Linux, distro: Distro::NoDistro, environment: Environment::NoEnvironment };
        assert!(!c.section_active("bash"));
        assert!(c.section_active("unix"));
    }
}

#[test]
fn other_distros_and_environments_activate_their_lowercase_name() {
    let linux = ctx(Platform::Linux, Distro::Other("NixOS".to_string()), Environment::NoEnvironment);
    assert!(linux.section_active("nixos"));
    assert!(linux.section_active("NIXOS"));
    let win = ctx(Platform::Windows, Distro::NoDistro, Environment::Other("Cygwin".to_string()));
    assert!(win.section_active("cygwin"));
}

#[test]
fn known_and_shell_sections() {
    for name in ["common", "Windows", "UNIX", "macos", "ubuntu", "debian", "fedora", "arch", "msys2", "gitbash", "WSL"] {
        assert!(known_section(name), "{}", name);
        assert!(!shell_section(name), "{}", name);
    }
    for name in ["bash", "ZSH", "fish", "nu", "PowerShell", "pwsh", "cmd", "posix"] {
        assert!(shell_section(name), "{}", name);
        assert!(!known_section(name), "{}", name);
    }
    assert!(!known_section("linux"));
    assert!(!shell_section("sh"));
}

#[test]
fn distro_and_environment_names_parse() {
    assert_eq!(parse_distro("Ubuntu"), Distro::Ubuntu);
    assert_eq!(parse_distro("none"), Distro::NoDistro);
    assert_eq!(parse_distro("ARCH"), Distro::Arch);
    assert_eq!(parse_distro("Alpine"), Distro::Other("Alpine".to_string()));
    assert_eq!(parse_environment("Git-Bash"), Environment::GitBash);
    assert_eq!(parse_environment("gitbash"), Environment::GitBash);
    assert_eq!(parse_environment("MSYS2"), Environment::Msys2);
    assert_eq!(parse_environment("wsl"), Environment::Wsl);
    assert_eq!(parse_environment("None"), Environment::NoEnvironment);
    assert_eq!(parse_environment("Cygwin"), Environment::Other("Cygwin".to_string()));
    assert_eq!(distro_name(&Distro::Fedora), Some("fedora".to_string()));
    assert_eq!(distro_name(&Distro::Other("NixOS".to_string())), Some("nixos".to_string()));
    assert_eq!(distro_name(&Distro::NoDistro), None);
    assert_eq!(environment_name(&Environment::GitBash), Some("gitbash".to_string()));
    assert_eq!(environment_name(&Environment::NoEnvironment), None);
}

#[test]
fn arguments_parse_from_their_names() {
    assert_eq!("AUTO".parse::<DistroArg>().unwrap(), DistroArg::Auto);
    assert_eq!("None".parse::<DistroArg>().unwrap(), DistroArg::NoDistro);
    assert_eq!("Debian".parse::<DistroArg>().unwrap(), DistroArg::Name("Debian".to_string()));
    assert_eq!("auto".parse::<EnvironmentArg>().unwrap(), EnvironmentArg::Auto);
    assert_eq!("none".parse::<EnvironmentArg>().unwrap(), EnvironmentArg::Name("none".to_string()));
}

#[test]
fn resolve_uses_detection_only_for_auto() {
    let c = Context::resolve(Shell::Bash, PlatformArg::Auto, DistroArg::Auto, EnvironmentArg::Auto, Platform::Linux, Distro::Fedora, Environment::Wsl);
    assert_eq!(c, Context { shell: Shell::Bash, platform: Platform::Linux, distro: Distro::Fedora, environment: Environment::NoEnvironment });
    let c = Context::resolve(Shell::Cmd, PlatformArg::Auto, DistroArg::Auto, EnvironmentArg::Auto, Platform::Windows, Distro::Fedora, Environment::Wsl);
    assert_eq!(c, Context { shell: Shell::Cmd, platform: Platform::Windows, distro: Distro::NoDistro, environment: Environment::Wsl });
    let c = Context::resolve(Shell::Posix, PlatformArg::Linux, DistroArg::Auto, EnvironmentArg::Auto, Platform::Linux, Distro::Fedora, Environment::Wsl);
    assert_eq!(c.distro, Distro::NoDistro);
    let c = Context::resolve(Shell::Posix, PlatformArg::Windows, DistroArg::Name("ubuntu".to_string()), EnvironmentArg::Name("git-bash".to_string()), Platform::Linux, Distro::Fedora, Environment::Wsl);
    assert_eq!(c, Context { shell: Shell::Posix, platform: Platform::Windows, distro: Distro::Ubuntu, environment: Environment::GitBash });
    let c = Context::resolve(Shell::Posix, PlatformArg::Macos, DistroArg::NoDistro, EnvironmentArg::Auto, Platform::Windows, Distro::Fedora, Environment::Wsl);
    assert_eq!(c, Context { shell: Shell::Posix, platform: Platform::Macos, distro: Distro::NoDistro, environment: Environment::NoEnvironment });
}

#[test]
fn host_detection_helpers() {
    assert_eq!(platform_of_os("windows"), Platform::Windows);
    assert_eq!(platform_of_os("macos"), Platform::Macos);
    assert_eq!(platform_of_os("linux"), Platform::Linux);
    assert_eq!(platform_of_os("freebsd"), Platform::Linux);
    assert_eq!(environment_of_vars(true, false, true, true), Environment::Msys2);
    assert_eq!(environment_of_vars(false, true, false, false), Environment::Msys2);
    assert_eq!(environment_of_vars(false, false, true, true), Environment::Wsl);
    assert_eq!(environment_of_vars(false, false, false, true), Environment::GitBash);
    assert_eq!(environment_of_vars(false, false, false, false), Environment::NoEnvironment);
}

#[test]
fn os_release_names_the_distribution() {
    assert_eq!(distro_of_os_release("NAME=\"Ubuntu\"\nID=ubuntu\nID_LIKE=debian\n"), Distro::Ubuntu);
    assert_eq!(distro_of_os_release("ID=linuxmint\r\nID_LIKE=\"ubuntu debian\"\r\n"), Distro::Ubuntu);
    assert_eq!(distro_of_os_release("ID=pop\nID_LIKE=\"Debian\""), Distro::Debian);
    assert_eq!(distro_of_os_release("ID=\"fedora\"\n"), Distro::Fedora);
    assert_eq!(distro_of_os_release("ID=manjaro\nID_LIKE=arch\n"), Distro::Arch);
    assert_eq!(distro_of_os_release("ID=alpine\n"), Distro::NoDistro);
    assert_eq!(distro_of_os_release(""), Distro::NoDistro);
    assert_eq!(distro_of_os_release("ID=alpine\nID=ubuntu\n"), Distro::NoDistro);
    assert_eq!(distro_of_os_release("VERSION_ID=22.04\nID_LIKE=fedora\n"), Distro::Fedora);
}

#[test]
fn a_named_distribution_activates_its_section() {
    let c = Context::resolve(Shell::Posix, PlatformArg::Linux, DistroArg::Name("NixOS".to_string()), EnvironmentArg::Auto, Platform::Windows, Distro::NoDistro, Environment::NoEnvironment);
    assert!(c.section_active("NixOS"));
    assert!(c.section_active("nixos"));
    let c = Context::resolve(Shell::Posix, PlatformArg::Windows, DistroArg::Auto, EnvironmentArg::Name("WSL".to_string()), Platform::Linux, Distro::NoDistro, Environment::NoEnvironment);
    assert!(c.section_active("wsl"));
    let c = Context::resolve(Shell::Posix, PlatformArg::Windows, DistroArg::Auto, EnvironmentArg::Name("git-bash".to_string()), Platform::Linux, Distro::NoDistro, Environment::NoEnvironment);
    assert!(!c.section_active("git-bash"));
    assert!(c.section_active("gitbash"));
}

#[test]
fn clones_are_equal() {
    let c = Context { shell: Shell::Zsh, platform: Platform::Linux, distro: Distro::Other("Void".to_string()), environment: Environment::Other("x".to_string()) };
    assert_eq!(c.clone(), c);
}

#[test]
fn shell_sections_are_inactive_unless_named_as_a_distro() {
    for name in ["bash", "ZSH", "fish", "nu", "PowerShell", "pwsh", "cmd", "posix"] {
        for c in [
            ctx(Platform::Linux, Distro::Arch, Environment::NoEnvironment),
            ctx(Platform::Macos, Distro::NoDistro, Environment::NoEnvironment),
            ctx(Platform::Windows, Distro::NoDistro, Environment::GitBash),
        ] {
            assert!(!c.section_active(name), "{}", name);
        }
    }
    let odd = ctx(Platform::Linux, Distro::Other("Bash".to_string()), Environment::NoEnvironment);
    assert!(odd.section_active("bash"));
}
