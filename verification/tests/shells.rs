use rustty::app::profile::{Host, Platform, Profile, ProfileIconKind, ShellKind, SpawnConfig};
use rustty::app::profile_registry::ProfileRegistry;
use rustty::app::shell_detection::{
    decode_utf16le, detect_profiles, parse_wsl_quiet_output, select_default,
};
use rustty::app::types::{IdCounter, ProfileId};

fn host(platform: Platform) -> Host {
    Host {
        platform,
        shell: None,
        spawn: SpawnConfig::default(),
    }
}

fn windows() -> Host {
    host(Platform::Windows)
}

#[test]
fn profile_from_shell_kind() {
    let mut ids = IdCounter::new();
    let profile = Profile::new("Test".into(), ShellKind::CommandPrompt, &windows(), &mut ids);
    assert_eq!(profile.spawn_config.shell_program, "cmd.exe");
    assert!(profile.spawn_config.shell_args.is_empty());
}

#[test]
fn wsl_profile_has_distro_arg() {
    let mut ids = IdCounter::new();
    let profile = Profile::new(
        "Ubuntu (WSL)".into(),
        ShellKind::Wsl {
            distro: "Ubuntu".into(),
        },
        &windows(),
        &mut ids,
    );
    assert_eq!(profile.spawn_config.shell_program, "wsl.exe");
    assert_eq!(
        profile.spawn_config.shell_args,
        vec![String::from("-d"), String::from("Ubuntu")]
    );
}

#[test]
fn profile_ids_are_unique() {
    let mut ids = IdCounter::new();
    let a = Profile::new("A".into(), ShellKind::CommandPrompt, &windows(), &mut ids);
    let b = Profile::new("B".into(), ShellKind::CommandPrompt, &windows(), &mut ids);
    assert_ne!(a.id, b.id);
}

#[test]
fn shell_kind_equality() {
    assert_eq!(ShellKind::PowerShell, ShellKind::PowerShell);
    assert_ne!(ShellKind::PowerShell, ShellKind::Pwsh);
    assert_eq!(
        ShellKind::Wsl {
            distro: "Ubuntu".into()
        },
        ShellKind::Wsl {
            distro: "Ubuntu".into()
        },
    );
}

#[test]
fn shells_start_what_they_are() {
    let mut ids = IdCounter::new();
    let program = |kind: ShellKind, host: &Host, ids: &mut IdCounter| {
        Profile::new("x".into(), kind, host, ids).spawn_config.shell_program
    };
    let unix = host(Platform::Unix);
    assert_eq!(program(ShellKind::PowerShell, &windows(), &mut ids), "powershell.exe");
    assert_eq!(program(ShellKind::Pwsh, &windows(), &mut ids), "pwsh.exe");
    assert_eq!(program(ShellKind::Pwsh, &unix, &mut ids), "pwsh");
    assert_eq!(program(ShellKind::UnixShell, &unix, &mut ids), "/bin/sh");
    let zsh = Host {
        platform: Platform::Unix,
        shell: Some("/bin/zsh".into()),
        spawn: SpawnConfig {
            shell_program: "mine".into(),
            shell_args: vec!["-x".into()],
        },
    };
    assert_eq!(program(ShellKind::UnixShell, &zsh, &mut ids), "/bin/zsh");
    let custom = Profile::new("c".into(), ShellKind::Custom, &zsh, &mut ids);
    assert_eq!(custom.spawn_config.shell_program, "mine");
    assert_eq!(custom.spawn_config.shell_args, vec!["-x".to_string()]);
}

fn test_profiles(ids: &mut IdCounter) -> (Vec<Profile>, ProfileId) {
    let p1 = Profile::new("cmd".into(), ShellKind::CommandPrompt, &windows(), ids);
    let p2 = Profile::new("PS".into(), ShellKind::PowerShell, &windows(), ids);
    let default_id = p1.id;
    (vec![p1, p2], default_id)
}

#[test]
fn registry_creation() {
    let mut ids = IdCounter::new();
    let (profiles, default_id) = test_profiles(&mut ids);
    let registry = ProfileRegistry::new(profiles, default_id);
    assert_eq!(registry.profiles().len(), 2);
    assert_eq!(registry.default_profile().id, default_id);
    assert_eq!(registry.default_profile_id(), default_id);
}

#[test]
fn profile_by_id_found() {
    let mut ids = IdCounter::new();
    let (profiles, default_id) = test_profiles(&mut ids);
    let registry = ProfileRegistry::new(profiles, default_id);
    assert!(registry.profile_by_id(default_id).is_some());
}

#[test]
fn profile_by_id_not_found() {
    let mut ids = IdCounter::new();
    let (profiles, default_id) = test_profiles(&mut ids);
    let registry = ProfileRegistry::new(profiles, default_id);
    let fake_id = ProfileId::new(&mut ids);
    assert!(registry.profile_by_id(fake_id).is_none());
}

#[test]
fn detect_profiles_returns_nonempty() {
    for platform in [Platform::Windows, Platform::Unix] {
        let mut ids = IdCounter::new();
        let (profiles, default_id) = detect_profiles(&host(platform), false, &vec![], &mut ids);
        assert!(!profiles.is_empty());
        assert!(profiles.iter().any(|p| p.id == default_id));
    }
}

#[test]
fn windows_profiles_come_in_order() {
    let mut ids = IdCounter::new();
    let distros = vec!["Ubuntu".to_string(), "Debian".to_string()];
    let (profiles, default_id) = detect_profiles(&windows(), true, &distros, &mut ids);
    let names: Vec<&str> = profiles.iter().map(|p| p.name.as_str()).collect();
    assert_eq!(
        names,
        ["Command Prompt", "Windows PowerShell", "PowerShell", "Ubuntu (WSL)", "Debian (WSL)"]
    );
    assert_eq!(default_id, profiles[2].id);
    assert_eq!(profiles[4].spawn_config.shell_args, vec!["-d".to_string(), "Debian".to_string()]);
}

#[test]
fn select_default_prefers_pwsh() {
    let mut ids = IdCounter::new();
    let profiles = vec![
        Profile::new("cmd".into(), ShellKind::CommandPrompt, &windows(), &mut ids),
        Profile::new("PS".into(), ShellKind::PowerShell, &windows(), &mut ids),
        Profile::new("pwsh".into(), ShellKind::Pwsh, &windows(), &mut ids),
    ];
    let default = select_default(&profiles);
    let selected = profiles.iter().find(|p| p.id == default).unwrap();
    assert!(matches!(selected.shell_kind, ShellKind::Pwsh));
}

#[test]
fn select_default_falls_back_to_powershell() {
    let mut ids = IdCounter::new();
    let profiles = vec![
        Profile::new("cmd".into(), ShellKind::CommandPrompt, &windows(), &mut ids),
        Profile::new("PS".into(), ShellKind::PowerShell, &windows(), &mut ids),
    ];
    let default = select_default(&profiles);
    let selected = profiles.iter().find(|p| p.id == default).unwrap();
    assert!(matches!(selected.shell_kind, ShellKind::PowerShell));
}

#[test]
fn select_default_falls_back_to_first() {
    let mut ids = IdCounter::new();
    let unix = host(Platform::Unix);
    let profiles = vec![Profile::new("shell".into(), ShellKind::UnixShell, &unix, &mut ids)];
    let default = select_default(&profiles);
    assert_eq!(default, profiles[0].id);
}

#[test]
fn decode_utf16le_with_bom() {
    let bytes = [0xFF, 0xFE, 0x48, 0x00, 0x69, 0x00];
    assert_eq!(decode_utf16le(&bytes).unwrap(), "Hi");
}

#[test]
fn decode_utf16le_without_bom() {
    let bytes = [0x48, 0x00, 0x69, 0x00];
    assert_eq!(decode_utf16le(&bytes).unwrap(), "Hi");
}

#[test]
fn decode_utf16le_odd_byte_dropped() {
    let bytes = [0x48, 0x00, 0x69, 0x00, 0xFF];
    assert_eq!(decode_utf16le(&bytes).unwrap(), "Hi");
}

#[test]
fn decode_utf16le_replaces_what_is_no_text() {
    assert_eq!(decode_utf16le(&[]), None);
    assert_eq!(decode_utf16le(&[0xFF, 0xFE, 0x48]), None);
    assert_eq!(decode_utf16le(&[0x3C, 0xD8, 0x4E, 0xDF]).unwrap(), "\u{1F34E}");
    assert_eq!(decode_utf16le(&[0x3C, 0xD8, 0x48, 0x00]).unwrap(), "\u{FFFD}H");
    assert_eq!(decode_utf16le(&[0x4E, 0xDF]).unwrap(), "\u{FFFD}");
}

#[test]
fn parse_wsl_quiet_typical() {
    let output = "Ubuntu\nDebian\ndocker-desktop\n";
    let names = parse_wsl_quiet_output(output);
    assert_eq!(names, vec!["Ubuntu", "Debian", "docker-desktop"]);
}

#[test]
fn parse_wsl_quiet_empty() {
    let output = "\n";
    let names = parse_wsl_quiet_output(output);
    assert!(names.is_empty());
}

#[test]
fn parse_wsl_quiet_with_spaces_and_nul() {
    let output = "Ubuntu 22.04 LTS\n\0Debian\0\n";
    let names = parse_wsl_quiet_output(output);
    assert_eq!(names, vec!["Ubuntu 22.04 LTS", "Debian"]);
}

#[test]
fn parse_wsl_quiet_crlf() {
    let output = "Ubuntu\r\nDebian\r\n";
    let names = parse_wsl_quiet_output(output);
    assert_eq!(names, vec!["Ubuntu", "Debian"]);
}

#[test]
fn the_last_line_needs_no_end() {
    assert_eq!(parse_wsl_quiet_output("Ubuntu\n\n  Debian "), vec!["Ubuntu", "Debian"]);
}

#[test]
fn each_kind_of_shell_has_its_icon() {
    let mut ids = IdCounter::new();
    let mut icon = |kind: ShellKind| {
        Profile::new("p".into(), kind, &windows(), &mut ids).profile_icon_kind()
    };
    assert_eq!(icon(ShellKind::PowerShell), ProfileIconKind::PowerShell);
    assert_eq!(icon(ShellKind::Pwsh), ProfileIconKind::PowerShell);
    assert_eq!(icon(ShellKind::CommandPrompt), ProfileIconKind::CommandPrompt);
    assert_eq!(icon(ShellKind::Wsl { distro: "Ubuntu".into() }), ProfileIconKind::Linux);
    assert_eq!(icon(ShellKind::UnixShell), ProfileIconKind::Linux);
    assert_eq!(icon(ShellKind::Custom), ProfileIconKind::Terminal);
}
