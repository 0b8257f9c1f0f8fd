//! Shell profiles.
use crate::app::types::{IdCounter, ProfileId};
#[allow(unused_imports)]
use crate::app::types::id_count;
#[allow(unused_imports)]
use crate::text::texts;
use vstd::prelude::*;

verus! {

/// What kind of shell a profile starts.
#[derive(Debug, Clone, PartialEq, Eq)]
pub enum ShellKind {
    /// Windows PowerShell.
    PowerShell,
    /// PowerShell Core, on any platform.
    Pwsh,
    /// The command prompt of Windows.
    CommandPrompt,
    /// A distribution of the Windows Subsystem for Linux.
    Wsl { distro: String },
    /// The user's shell on Unix.
    UnixShell,
    /// A shell of the user's own choice.
    Custom,
}

/// The texts of a shell kind.
#[verifier::ext_equal]
pub enum KindView {
    PowerShell,
    Pwsh,
    CommandPrompt,
    Wsl { distro: Seq<char> },
    UnixShell,
    Custom,
}

impl View for ShellKind {
    type V = KindView;

    open spec fn view(&self) -> KindView {
        match self {
            ShellKind::PowerShell => KindView::PowerShell,
            ShellKind::Pwsh => KindView::Pwsh,
            ShellKind::CommandPrompt => KindView::CommandPrompt,
            ShellKind::Wsl { distro } => KindView::Wsl { distro: distro@ },
            ShellKind::UnixShell => KindView::UnixShell,
            ShellKind::Custom => KindView::Custom,
        }
    }
}

/// The icon that the tabs of a profile show.
#[derive(Clone, Copy, Debug, PartialEq, Eq, Structural)]
pub enum ProfileIconKind {
    PowerShell,
    CommandPrompt,
    Linux,
    Terminal,
}

/// The icon of a kind of shell.
pub open spec fn icon_of(kind: KindView) -> ProfileIconKind {
    match kind {
        KindView::PowerShell | KindView::Pwsh => ProfileIconKind::PowerShell,
        KindView::CommandPrompt => ProfileIconKind::CommandPrompt,
        KindView::Wsl { .. } | KindView::UnixShell => ProfileIconKind::Linux,
        KindView::Custom => ProfileIconKind::Terminal,
    }
}

/// The program that a profile starts, and its arguments.
#[derive(Debug, Clone)]
pub struct SpawnConfig {
    pub shell_program: String,
    pub shell_args: Vec<String>,
}

/// The texts of a [`SpawnConfig`].
#[verifier::ext_equal]
pub struct SpawnView {
    pub program: Seq<char>,
    pub args: Seq<Seq<char>>,
}

impl View for SpawnConfig {
    type V = SpawnView;

    open spec fn view(&self) -> SpawnView {
        SpawnView { program: self.shell_program@, args: texts(self.shell_args@) }
    }
}

impl Default for SpawnConfig {
    fn default() -> (config: SpawnConfig)
        ensures
            config@.program.len() == 0,
            config@.args.len() == 0,
    {
        SpawnConfig { shell_program: String::new(), shell_args: Vec::new() }
    }
}

/// A copy of a list of strings.
pub fn copy_of_strings(strings: &Vec<String>) -> (out: Vec<String>)
    ensures
        texts(out@) == texts(strings@),
        out@.len() == strings@.len(),
{
    let mut out: Vec<String> = Vec::new();
    let mut i: usize = 0;
    while i < strings.len()
        invariant
            i <= strings@.len(),
            out@.len() == i,
            texts(out@) == texts(strings@).take(i as int),
        decreases strings@.len() - i,
    {
        out.push(strings[i].clone());
        i += 1;
        assert(texts(out@) =~= texts(strings@).take(i as int));
    }
    assert(texts(out@) =~= texts(strings@));
    out
}

/// The platform that shells run on.
#[derive(Clone, Copy, Debug, PartialEq, Eq, Structural)]
pub enum Platform {
    Windows,
    Unix,
}

/// What profiles depend on besides their kind.
#[derive(Debug)]
pub struct Host {
    pub platform: Platform,
    /// The user's shell, where the environment names one.
    pub shell: Option<String>,
    /// What is started where a profile says nothing else.
    pub spawn: SpawnConfig,
}

/// The user's shell, `/bin/sh` if none is known.
pub open spec fn user_shell(host: &Host) -> Seq<char> {
    match host.shell {
        Some(shell) => shell@,
        None => "/bin/sh"@,
    }
}

/// What a kind of shell starts.
pub open spec fn spawn_of(kind: KindView, host: &Host) -> SpawnView {
    match kind {
        KindView::PowerShell => SpawnView { program: "powershell.exe"@, ..host.spawn@ },
        KindView::Pwsh => SpawnView {
            program: match host.platform {
                Platform::Windows => "pwsh.exe"@,
                Platform::Unix => "pwsh"@,
            },
            ..host.spawn@
        },
        KindView::CommandPrompt => SpawnView { program: "cmd.exe"@, ..host.spawn@ },
        KindView::Wsl { distro } => SpawnView { program: "wsl.exe"@, args: seq!["-d"@, distro] },
        KindView::UnixShell => SpawnView { program: user_shell(host), ..host.spawn@ },
        KindView::Custom => host.spawn@,
    }
}

fn started(program: String, host: &Host) -> (config: SpawnConfig)
    ensures
        config@ == (SpawnView { program: program@, ..host.spawn@ }),
{
    SpawnConfig { shell_program: program, shell_args: copy_of_strings(&host.spawn.shell_args) }
}

/// What a kind of shell starts.
pub fn spawn_config_for_kind(kind: &ShellKind, host: &Host) -> (config: SpawnConfig)
    ensures
        config@ == spawn_of(kind@, host),
{
    match kind {
        ShellKind::PowerShell => started("powershell.exe".to_string(), host),
        ShellKind::Pwsh => match host.platform {
            Platform::Windows => started("pwsh.exe".to_string(), host),
            Platform::Unix => started("pwsh".to_string(), host),
        },
        ShellKind::CommandPrompt => started("cmd.exe".to_string(), host),
        ShellKind::Wsl { distro } => {
            let mut shell_args: Vec<String> = Vec::new();
            shell_args.push("-d".to_string());
            shell_args.push(distro.clone());
            assert(texts(shell_args@) =~= seq!["-d"@, distro@]);
            SpawnConfig { shell_program: "wsl.exe".to_string(), shell_args }
        },
        ShellKind::UnixShell => match &host.shell {
            Some(shell) => started(shell.clone(), host),
            None => started("/bin/sh".to_string(), host),
        },
        ShellKind::Custom => started(host.spawn.shell_program.clone(), host),
    }
}

/// A named shell configuration.
#[derive(Debug, Clone)]
pub struct Profile {
    pub id: ProfileId,
    pub name: String,
    pub shell_kind: ShellKind,
    pub spawn_config: SpawnConfig,
}

impl Profile {
    /// A profile that starts what its kind says.
    pub fn new(name: String, shell_kind: ShellKind, host: &Host, ids: &mut IdCounter) -> (profile:
        Profile)
        ensures
            profile.id.number() == old(ids).upcoming(),
            final(ids).upcoming() == (old(ids).upcoming() + 1) % id_count(),
            profile.name == name,
            profile.shell_kind == shell_kind,
            profile.spawn_config@ == spawn_of(shell_kind@, host),
    {
        let spawn_config = spawn_config_for_kind(&shell_kind, host);
        Profile { id: ProfileId::new(ids), name, shell_kind, spawn_config }
    }

    /// The icon of the profile's shell.
    pub fn profile_icon_kind(&self) -> (icon: ProfileIconKind)
        ensures
            icon == icon_of(self.shell_kind@),
    {
        match &self.shell_kind {
            ShellKind::PowerShell => ProfileIconKind::PowerShell,
            ShellKind::Pwsh => ProfileIconKind::PowerShell,
            ShellKind::CommandPrompt => ProfileIconKind::CommandPrompt,
            ShellKind::Wsl { .. } => ProfileIconKind::Linux,
            ShellKind::UnixShell => ProfileIconKind::Linux,
            ShellKind::Custom => ProfileIconKind::Terminal,
        }
    }
}

/// Which program each kind of shell starts. A distribution of Linux is named to
/// its program; every other kind passes on the arguments that the host has.
pub proof fn law_programs_of_the_shells(host: &Host, distro: Seq<char>)
    ensures
        spawn_of(KindView::PowerShell, host).program == "powershell.exe"@,
        spawn_of(KindView::CommandPrompt, host).program == "cmd.exe"@,
        host.platform is Windows ==> spawn_of(KindView::Pwsh, host).program == "pwsh.exe"@,
        host.platform is Unix ==> spawn_of(KindView::Pwsh, host).program == "pwsh"@,
        host.shell matches Some(shell) ==> spawn_of(KindView::UnixShell, host).program == shell@,
        host.shell is None ==> spawn_of(KindView::UnixShell, host).program == "/bin/sh"@,
        spawn_of(KindView::Custom, host).program == host.spawn.shell_program@,
        spawn_of(KindView::Wsl { distro }, host).program == "wsl.exe"@,
        spawn_of(KindView::Wsl { distro }, host).args.len() == 2,
        spawn_of(KindView::Wsl { distro }, host).args[0] == "-d"@,
        spawn_of(KindView::Wsl { distro }, host).args[1] == distro,
        spawn_of(KindView::PowerShell, host).args == texts(host.spawn.shell_args@),
        spawn_of(KindView::Pwsh, host).args == texts(host.spawn.shell_args@),
        spawn_of(KindView::CommandPrompt, host).args == texts(host.spawn.shell_args@),
        spawn_of(KindView::UnixShell, host).args == texts(host.spawn.shell_args@),
        spawn_of(KindView::Custom, host).args == texts(host.spawn.shell_args@),
{
}

/// The icons of the shells: both PowerShells have the same one, and so have WSL and
/// any other Unix shell.
pub proof fn law_icons_of_the_shells(distro: Seq<char>)
    ensures
        icon_of(KindView::PowerShell) is PowerShell,
        icon_of(KindView::Pwsh) is PowerShell,
        icon_of(KindView::CommandPrompt) is CommandPrompt,
        icon_of(KindView::Wsl { distro }) is Linux,
        icon_of(KindView::UnixShell) is Linux,
        icon_of(KindView::Custom) is Terminal,
{
}

} // verus!
