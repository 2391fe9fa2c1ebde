//! The declarative configuration model: modules, detection and emission specs.

use vstd::prelude::*;
use crate::text::{ascii_lower, trim, lower_str, str_eq, trim_str};

verus! {

pub const DEFAULT_PRIORITY: i32 = 1000;

/// An ordered string map as the configuration gives it (ascending keys).
pub type StrMap = Vec<(String, String)>;

#[derive(Debug, Clone, Copy, PartialEq, Eq, Structural)]
pub enum Platform {
    Mac,
    Linux,
    Windows,
    Wsl,
    Other,
}

pub open spec fn platform_name(p: Platform) -> Seq<char> {
    match p {
        Platform::Mac => "mac"@,
        Platform::Linux => "linux"@,
        Platform::Windows => "windows"@,
        Platform::Wsl => "wsl"@,
        Platform::Other => "other"@,
    }
}

impl Platform {
    pub fn name(&self) -> (r: &'static str)
        ensures
            r@ == platform_name(*self),
    {
        match self {
            Platform::Mac => "mac",
            Platform::Linux => "linux",
            Platform::Windows => "windows",
            Platform::Wsl => "wsl",
            Platform::Other => "other",
        }
    }
}

#[derive(Debug, Clone, Copy, PartialEq, Eq, Structural)]
pub enum Shell {
    Zsh,
    Bash,
    Fish,
    Pwsh,
}

pub open spec fn shell_name(s: Shell) -> Seq<char> {
    match s {
        Shell::Zsh => "zsh"@,
        Shell::Bash => "bash"@,
        Shell::Fish => "fish"@,
        Shell::Pwsh => "pwsh"@,
    }
}

/// The shell a name stands for: trimmed, ASCII case ignored.
pub open spec fn shell_of(s: Seq<char>) -> Option<Shell> {
    let t = ascii_lower(trim(s));
    if t == "zsh"@ {
        Some(Shell::Zsh)
    } else if t == "bash"@ {
        Some(Shell::Bash)
    } else if t == "fish"@ {
        Some(Shell::Fish)
    } else if t == "pwsh"@ || t == "powershell"@ {
        Some(Shell::Pwsh)
    } else {
        None
    }
}

impl Shell {
    /// Parses `zsh`, `bash`, `fish`, `pwsh` or `powershell`, in any ASCII case.
    pub fn parse(s: &str) -> (r: Option<Shell>)
        ensures
            r == shell_of(s@),
    {
        let t = trim_str(s);
        let l = lower_str(t.as_str());
        if str_eq(l.as_str(), "zsh") {
            Some(Shell::Zsh)
        } else if str_eq(l.as_str(), "bash") {
            Some(Shell::Bash)
        } else if str_eq(l.as_str(), "fish") {
            Some(Shell::Fish)
        } else if str_eq(l.as_str(), "pwsh") || str_eq(l.as_str(), "powershell") {
            Some(Shell::Pwsh)
        } else {
            None
        }
    }

    pub fn name(&self) -> (r: &'static str)
        ensures
            r@ == shell_name(*self),
    {
        match self {
            Shell::Zsh => "zsh",
            Shell::Bash => "bash",
            Shell::Fish => "fish",
            Shell::Pwsh => "pwsh",
        }
    }
}

#[derive(Debug, Clone, Copy, PartialEq, Eq, Structural)]
pub enum SecretsStrategy {
    FillMissing,
    Override,
}

#[derive(Debug, Clone, Copy, PartialEq, Eq, Structural)]
pub enum CloudKind {
    Storage,
    Service,
}

#[derive(Debug, Clone, Copy, PartialEq, Eq, Structural)]
pub enum AppKind {
    Cli,
    Desktop,
}

#[derive(Debug, Clone, Default)]
pub struct AnyOf {
    pub any_of: Vec<String>,
}

#[derive(Debug, Clone, Default)]
pub struct PlatformAnyOf {
    pub mac: AnyOf,
    pub linux: AnyOf,
    pub windows: AnyOf,
    pub wsl: AnyOf,
    pub other: AnyOf,
}

impl PlatformAnyOf {
    pub open spec fn spec_for(&self, p: Platform) -> Seq<String> {
        match p {
            Platform::Mac => self.mac.any_of@,
            Platform::Linux => self.linux.any_of@,
            Platform::Windows => self.windows.any_of@,
            Platform::Wsl => self.wsl.any_of@,
            Platform::Other => self.other.any_of@,
        }
    }

    /// The candidates listed for one platform.
    pub fn for_platform(&self, p: Platform) -> (r: &Vec<String>)
        ensures
            r@ == self.spec_for(p),
    {
        match p {
            Platform::Mac => &self.mac.any_of,
            Platform::Linux => &self.linux.any_of,
            Platform::Windows => &self.windows.any_of,
            Platform::Wsl => &self.wsl.any_of,
            Platform::Other => &self.other.any_of,
        }
    }
}

/// How a version is read once a module is detected.
#[derive(Debug, Clone)]
pub enum VersionDetect {
    /// Run a command and read its output.
    Command { command: String, args: Vec<String>, regex: Option<String>, capture: String },
    /// Apply a regex to the detected path, file or command.
    PathRegex { regex: String, capture: String },
    /// macOS: a key of a bundle's property list.
    MacBundlePlist { path: String, key: String, regex: Option<String>, capture: String },
    /// Windows: a version field of an executable.
    WindowsFileVersion {
        path: String,
        field: Option<String>,
        regex: Option<String>,
        capture: String,
    },
    /// Linux: a key of a desktop entry.
    LinuxDesktopFileKey {
        path: String,
        section: Option<String>,
        key: String,
        regex: Option<String>,
        capture: String,
    },
}

#[derive(Debug, Clone)]
pub enum OneOrMany<T> {
    One(T),
    Many(Vec<T>),
}

impl<T> OneOrMany<T> {
    pub open spec fn items(&self) -> Seq<T> {
        match self {
            OneOrMany::One(x) => seq![*x],
            OneOrMany::Many(xs) => xs@,
        }
    }

    /// The entries, in order: one, or each of many.
    pub fn iter(&self) -> (r: Vec<&T>)
        ensures
            r@.len() == self.items().len(),
            forall|i: int| 0 <= i < r@.len() ==> *r@[i] == self.items()[i],
    {
        match self {
            OneOrMany::One(x) => {
                let mut r: Vec<&T> = Vec::new();
                r.push(x);
                r
            },
            OneOrMany::Many(xs) => {
                let mut r: Vec<&T> = Vec::new();
                let mut i: usize = 0;
                while i < xs.len()
                    invariant
                        i <= xs@.len(),
                        r@.len() == i,
                        forall|k: int| 0 <= k < i ==> *r@[k] == xs@[k],
                    decreases xs@.len() - i,
                {
                    r.push(&xs[i]);
                    i += 1;
                }
                r
            },
        }
    }
}

#[derive(Debug, Clone, Default)]
pub struct VersionDetectSpec {
    pub all: Option<OneOrMany<VersionDetect>>,
    pub mac: Option<OneOrMany<VersionDetect>>,
    pub linux: Option<OneOrMany<VersionDetect>>,
    pub windows: Option<OneOrMany<VersionDetect>>,
    pub wsl: Option<OneOrMany<VersionDetect>>,
    pub other: Option<OneOrMany<VersionDetect>>,
}

impl VersionDetectSpec {
    pub open spec fn spec_for_platform(&self, p: Platform) -> Option<OneOrMany<VersionDetect>> {
        let pick = match p {
            Platform::Mac => self.mac,
            Platform::Linux => self.linux,
            Platform::Windows => self.windows,
            Platform::Wsl => self.wsl,
            Platform::Other => self.other,
        };
        if pick is Some {
            pick
        } else {
            self.all
        }
    }

    /// The platform's own list, else the list for all platforms.
    pub fn for_platform(&self, p: Platform) -> (r: Option<&OneOrMany<VersionDetect>>)
        ensures
            r matches Some(x) ==> self.spec_for_platform(p) == Some(*x),
            r is None ==> self.spec_for_platform(p) is None,
    {
        let pick = match p {
            Platform::Mac => self.mac.as_ref(),
            Platform::Linux => self.linux.as_ref(),
            Platform::Windows => self.windows.as_ref(),
            Platform::Wsl => self.wsl.as_ref(),
            Platform::Other => self.other.as_ref(),
        };
        match pick {
            Some(x) => Some(x),
            None => self.all.as_ref(),
        }
    }
}

#[derive(Debug, Clone, Default)]
pub struct DetectBlock {
    pub paths: PlatformAnyOf,
    pub files: PlatformAnyOf,
    pub commands: AnyOf,
    pub env: AnyOf,
    pub version: Option<VersionDetectSpec>,
}

#[derive(Debug, Clone, Default)]
pub struct SourceEmit {
    pub files: Vec<String>,
}

#[derive(Debug, Clone, Default)]
pub struct FunctionsEmit {
    pub files: Vec<String>,
}

#[derive(Debug, Clone, Default)]
pub struct PathsEmit {
    pub prepend_if_exists: Vec<String>,
    pub append_if_exists: Vec<String>,
}

#[derive(Debug, Clone, Default)]
pub struct EmitInit {
    pub command: String,
    pub args: Vec<String>,
    /// PowerShell: pipe the tool's output through `Out-String` first.
    pub pwsh_out_string: bool,
}

#[derive(Debug, Clone, Default)]
pub struct EmitBlock {
    pub env: StrMap,
    pub env_derived: StrMap,
    pub aliases: StrMap,
    pub source: SourceEmit,
    pub functions: FunctionsEmit,
    pub paths: PathsEmit,
    pub init: Vec<EmitInit>,
}

impl PlatformAnyOf {
    pub fn empty() -> (r: PlatformAnyOf)
        ensures
            r.mac.any_of@.len() == 0 && r.linux.any_of@.len() == 0 && r.windows.any_of@.len() == 0
                && r.wsl.any_of@.len() == 0 && r.other.any_of@.len() == 0,
    {
        PlatformAnyOf {
            mac: AnyOf { any_of: Vec::new() },
            linux: AnyOf { any_of: Vec::new() },
            windows: AnyOf { any_of: Vec::new() },
            wsl: AnyOf { any_of: Vec::new() },
            other: AnyOf { any_of: Vec::new() },
        }
    }
}

impl DetectBlock {
    /// Detects nothing.
    pub fn empty() -> (r: DetectBlock)
        ensures
            r.env.any_of@.len() == 0,
            r.commands.any_of@.len() == 0,
            r.version is None,
    {
        DetectBlock {
            paths: PlatformAnyOf::empty(),
            files: PlatformAnyOf::empty(),
            commands: AnyOf { any_of: Vec::new() },
            env: AnyOf { any_of: Vec::new() },
            version: None,
        }
    }
}

impl EmitBlock {
    /// Emits nothing.
    pub fn empty() -> (r: EmitBlock)
        ensures
            r.env@.len() == 0,
            r.env_derived@.len() == 0,
            r.aliases@.len() == 0,
            r.init@.len() == 0,
    {
        EmitBlock {
            env: Vec::new(),
            env_derived: Vec::new(),
            aliases: Vec::new(),
            source: SourceEmit { files: Vec::new() },
            functions: FunctionsEmit { files: Vec::new() },
            paths: PathsEmit { prepend_if_exists: Vec::new(), append_if_exists: Vec::new() },
            init: Vec::new(),
        }
    }
}

#[derive(Debug, Clone)]
pub struct CloudModule {
    pub enabled: bool,
    pub kind: Option<CloudKind>,
    pub priority: i32,
    pub requires: Vec<String>,
    pub platforms: Vec<Platform>,
    pub detect: DetectBlock,
    pub emit: EmitBlock,
}

#[derive(Debug, Clone, Default)]
pub struct CloudModules {
    pub enabled: bool,
    pub items: Vec<(String, CloudModule)>,
}

#[derive(Debug, Clone)]
pub struct AppModule {
    pub enabled: bool,
    pub kind: Option<AppKind>,
    pub priority: i32,
    pub requires: Vec<String>,
    pub platforms: Vec<Platform>,
    pub detect: DetectBlock,
    pub emit: EmitBlock,
}

#[derive(Debug, Clone, Default)]
pub struct AppModules {
    pub enabled: bool,
    pub items: Vec<(String, AppModule)>,
}

#[derive(Debug, Clone)]
pub struct HookItem {
    pub name: String,
    pub enabled: bool,
    pub platforms: Vec<Platform>,
    pub hosts: Vec<String>,
    pub shells: Vec<Shell>,
    pub script: String,
}

#[derive(Debug, Clone, Default)]
pub struct HooksModules {
    pub enabled: bool,
    pub items: Vec<HookItem>,
}

#[derive(Debug, Clone, Default)]
pub struct TemplateFiles {
    pub all: Option<String>,
    pub zsh: Option<String>,
    pub bash: Option<String>,
    pub fish: Option<String>,
    pub pwsh: Option<String>,
}

impl TemplateFiles {
    pub open spec fn spec_for_shell(&self, shell: Shell) -> Option<String> {
        let s = match shell {
            Shell::Zsh => self.zsh,
            Shell::Bash => self.bash,
            Shell::Fish => self.fish,
            Shell::Pwsh => self.pwsh,
        };
        if s is Some {
            s
        } else {
            self.all
        }
    }

    /// The shell's own template, else the one for all shells.
    pub fn for_shell(&self, shell: Shell) -> (r: Option<&String>)
        ensures
            r matches Some(x) ==> self.spec_for_shell(shell) == Some(*x),
            r is None ==> self.spec_for_shell(shell) is None,
    {
        let s = match shell {
            Shell::Zsh => self.zsh.as_ref(),
            Shell::Bash => self.bash.as_ref(),
            Shell::Fish => self.fish.as_ref(),
            Shell::Pwsh => self.pwsh.as_ref(),
        };
        match s {
            Some(x) => Some(x),
            None => self.all.as_ref(),
        }
    }
}

#[derive(Debug, Clone)]
pub struct TemplateModule {
    pub enabled: bool,
    pub priority: i32,
    pub requires: Vec<String>,
    pub platforms: Vec<Platform>,
    pub templates: TemplateFiles,
}

#[derive(Debug, Clone, Default)]
pub struct TemplateModules {
    pub enabled: bool,
    pub items: Vec<(String, TemplateModule)>,
}

#[derive(Debug, Clone, Default)]
pub struct ModulesRoot {
    pub enable_cloud: bool,
    pub enable_apps: bool,
    pub enable_hooks: bool,
    pub enable_templates: bool,
    pub cloud: CloudModules,
    pub apps: AppModules,
    pub hooks: HooksModules,
    pub templates: TemplateModules,
}

#[derive(Debug, Clone, Default)]
pub struct PlatformAliasMaps {
    pub mac: StrMap,
    pub linux: StrMap,
    pub windows: StrMap,
    pub wsl: StrMap,
    pub other: StrMap,
}

#[derive(Debug, Clone, Default)]
pub struct ShellAliasMaps {
    pub zsh: StrMap,
    pub bash: StrMap,
    pub fish: StrMap,
    pub pwsh: StrMap,
}

#[derive(Debug, Clone, Default)]
pub struct GlobalAliases {
    pub platform: PlatformAliasMaps,
    pub shell: ShellAliasMaps,
}

#[derive(Debug, Clone, Default)]
pub struct GlobalConfig {
    pub env: StrMap,
    pub aliases: GlobalAliases,
}

#[derive(Debug, Clone, Default)]
pub struct BootstrapDefaults {
    pub env: StrMap,
}

#[derive(Debug, Clone)]
pub struct BootstrapSecrets {
    pub strategy: SecretsStrategy,
}

#[derive(Debug, Clone)]
pub struct BootstrapConfig {
    pub defaults: BootstrapDefaults,
    pub secrets: BootstrapSecrets,
}

#[derive(Debug, Clone)]
pub struct ApogeeMeta {
    pub schema_version: u32,
    pub default_shell: Shell,
    pub platforms: Vec<Platform>,
    /// Where the dotenv file is; `{config_dir}/.env` when unset.
    pub env_file: Option<String>,
    pub secrets_file: Option<String>,
    pub bootstrap: Option<BootstrapConfig>,
}

#[derive(Debug, Clone)]
pub struct Config {
    pub apogee: ApogeeMeta,
    pub modules: ModulesRoot,
    pub global: GlobalConfig,
}

} // verus!
