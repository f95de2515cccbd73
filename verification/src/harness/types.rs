//! The closed vocabularies of harness definitions.

use crate::text::{same_text, strip_prefix};
use vstd::prelude::*;

verus! {

/// What a mount is for.
#[derive(Clone, Copy, PartialEq, Eq, Structural, Debug)]
pub enum MountType {
    Credentials,
    State,
    Config,
    Ephemeral,
    Generated,
}

impl MountType {
    pub open spec fn word(self) -> Seq<char> {
        match self {
            MountType::Credentials => "credentials"@,
            MountType::State => "state"@,
            MountType::Config => "config"@,
            MountType::Ephemeral => "ephemeral"@,
            MountType::Generated => "generated"@,
        }
    }

    /// Reads a type as definitions write it.
    pub fn parse(text: &str) -> (r: Option<MountType>)
        ensures
            (match r {
                Some(found) => found.word() == text@,
                None => forall|other: MountType| #[trigger] other.word() != text@,
            }),
    {
        if same_text(text, "credentials") {
            Some(MountType::Credentials)
        } else if same_text(text, "state") {
            Some(MountType::State)
        } else if same_text(text, "config") {
            Some(MountType::Config)
        } else if same_text(text, "ephemeral") {
            Some(MountType::Ephemeral)
        } else if same_text(text, "generated") {
            Some(MountType::Generated)
        } else {
            None
        }
    }
}

/// How the container may use a mount.
#[derive(Clone, Copy, PartialEq, Eq, Structural, Debug)]
pub enum Access {
    Ro,
    /// Read and write, on a file that always exists on the host.
    Pinned,
    /// Read and write, on a directory that always exists on the host.
    PinnedDir,
    Tmpfs,
}

impl Access {
    pub open spec fn word(self) -> Seq<char> {
        match self {
            Access::Ro => "ro"@,
            Access::Pinned => "pinned"@,
            Access::PinnedDir => "pinned_dir"@,
            Access::Tmpfs => "tmpfs"@,
        }
    }

    /// Reads an access as definitions write it.
    pub fn parse(text: &str) -> (r: Option<Access>)
        ensures
            (match r {
                Some(found) => found.word() == text@,
                None => forall|other: Access| #[trigger] other.word() != text@,
            }),
    {
        if same_text(text, "ro") {
            Some(Access::Ro)
        } else if same_text(text, "pinned") {
            Some(Access::Pinned)
        } else if same_text(text, "pinned_dir") {
            Some(Access::PinnedDir)
        } else if same_text(text, "tmpfs") {
            Some(Access::Tmpfs)
        } else {
            None
        }
    }

    pub open spec fn label_text(self) -> Seq<char> {
        match self {
            Access::Ro => "Ro"@,
            Access::Pinned => "Pinned"@,
            Access::PinnedDir => "PinnedDir"@,
            Access::Tmpfs => "Tmpfs"@,
        }
    }

    /// What an access is called in messages.
    pub fn label(self) -> (r: &'static str)
        ensures
            r@ == self.label_text(),
    {
        match self {
            Access::Ro => "Ro",
            Access::Pinned => "Pinned",
            Access::PinnedDir => "PinnedDir",
            Access::Tmpfs => "Tmpfs",
        }
    }
}

/// How an allowlist reaches the harness.
#[derive(Clone, Copy, PartialEq, Eq, Structural, Debug)]
pub enum Translation {
    Nothing,
    PassthroughEnv,
    ClaudeSettings,
}

impl Translation {
    pub open spec fn word(self) -> Seq<char> {
        match self {
            Translation::Nothing => "none"@,
            Translation::PassthroughEnv => "passthrough_env"@,
            Translation::ClaudeSettings => "claude_settings"@,
        }
    }

    /// Reads a translation as definitions write it.
    pub fn parse(text: &str) -> (r: Option<Translation>)
        ensures
            (match r {
                Some(found) => found.word() == text@,
                None => forall|other: Translation| #[trigger] other.word() != text@,
            }),
    {
        if same_text(text, "none") {
            Some(Translation::Nothing)
        } else if same_text(text, "passthrough_env") {
            Some(Translation::PassthroughEnv)
        } else if same_text(text, "claude_settings") {
            Some(Translation::ClaudeSettings)
        } else {
            None
        }
    }
}

impl Default for Translation {
    fn default() -> (r: Self)
        ensures
            r == Translation::Nothing,
    {
        Translation::Nothing
    }
}

/// What the contents of an override have to be.
#[derive(Clone, Copy, PartialEq, Eq, Structural, Debug)]
pub enum AllowlistFormat {
    Json,
    Toml,
    Raw,
}

/// What has to be installed before a harness.
#[derive(Clone, Copy, PartialEq, Eq, Structural, Debug)]
pub enum HarnessDependency {
    Npm,
}

impl HarnessDependency {
    /// Reads a dependency as definitions write it.
    pub fn parse(text: &str) -> (r: Option<HarnessDependency>)
        ensures
            r == (if text@ == "npm"@ {
                Some(HarnessDependency::Npm)
            } else {
                None
            }),
    {
        if same_text(text, "npm") {
            Some(HarnessDependency::Npm)
        } else {
            None
        }
    }
}

/// What happens where a credential is not on the host.
#[derive(Clone, Copy, PartialEq, Eq, Structural, Debug)]
pub enum OnMissing {
    Ignore,
    Warn,
    Error,
}

#[derive(Clone, Copy, PartialEq, Eq, Structural, Debug)]
pub enum Platform {
    Linux,
    Macos,
    Windows,
}

impl Platform {
    /// The platform that an operating system's name stands for. One that is
    /// not known is treated like Linux.
    pub fn of(os: &str) -> (r: Platform)
        ensures
            r == (if os@ == "macos"@ {
                Platform::Macos
            } else if os@ == "windows"@ {
                Platform::Windows
            } else {
                Platform::Linux
            }),
    {
        if same_text(os, "macos") {
            Platform::Macos
        } else if same_text(os, "windows") {
            Platform::Windows
        } else {
            Platform::Linux
        }
    }
}

/// The directory on the host that a path is looked up in. Three of them hold
/// a directory for each application.
#[derive(Clone, Debug)]
pub enum HostBase {
    Home,
    Data(String),
    State(String),
    Cache(String),
    Runtime,
}

pub enum HostBaseView {
    Home,
    Data(Seq<char>),
    State(Seq<char>),
    Cache(Seq<char>),
    Runtime,
}

impl View for HostBase {
    type V = HostBaseView;

    open spec fn view(&self) -> HostBaseView {
        match self {
            HostBase::Home => HostBaseView::Home,
            HostBase::Data(application) => HostBaseView::Data(application@),
            HostBase::State(application) => HostBaseView::State(application@),
            HostBase::Cache(application) => HostBaseView::Cache(application@),
            HostBase::Runtime => HostBaseView::Runtime,
        }
    }
}

/// Why a text names no base.
#[derive(Clone, Copy, PartialEq, Eq, Structural, Debug)]
pub enum BadHostBase {
    /// `data:` without an application.
    NoData,
    /// `state:` without an application.
    NoState,
    /// `cache:` without an application.
    NoCache,
    Unknown,
}

impl BadHostBase {
    /// The complaint about a missing application.
    pub fn message(self) -> (r: Option<&'static str>)
        ensures
            crate::text::str_option(r) == (match self {
                BadHostBase::NoData => Some("data host_base requires an application"@),
                BadHostBase::NoState => Some("state host_base requires an application"@),
                BadHostBase::NoCache => Some("cache host_base requires an application"@),
                BadHostBase::Unknown => None,
            }),
    {
        match self {
            BadHostBase::NoData => Some("data host_base requires an application"),
            BadHostBase::NoState => Some("state host_base requires an application"),
            BadHostBase::NoCache => Some("cache host_base requires an application"),
            BadHostBase::Unknown => None,
        }
    }
}

/// What is left of `text` after `prefix`.
pub open spec fn rest_after(text: Seq<char>, prefix: Seq<char>) -> Option<Seq<char>> {
    if crate::text::has_prefix(text, prefix) {
        Some(text.skip(prefix.len() as int))
    } else {
        None
    }
}

pub open spec fn base_of(text: Seq<char>) -> Result<HostBaseView, BadHostBase> {
    if text == "home"@ {
        Ok(HostBaseView::Home)
    } else if text == "runtime"@ {
        Ok(HostBaseView::Runtime)
    } else {
        match rest_after(text, "data:"@) {
            Some(rest) => if rest.len() == 0 {
                Err(BadHostBase::NoData)
            } else {
                Ok(HostBaseView::Data(rest))
            },
            None => match rest_after(text, "state:"@) {
                Some(rest) => if rest.len() == 0 {
                    Err(BadHostBase::NoState)
                } else {
                    Ok(HostBaseView::State(rest))
                },
                None => match rest_after(text, "cache:"@) {
                    Some(rest) => if rest.len() == 0 {
                        Err(BadHostBase::NoCache)
                    } else {
                        Ok(HostBaseView::Cache(rest))
                    },
                    None => Err(BadHostBase::Unknown),
                },
            },
        }
    }
}

impl HostBase {
    /// Reads a base as definitions write it.
    pub fn parse(text: &str) -> (r: Result<HostBase, BadHostBase>)
        ensures
            (match r {
                Ok(base) => base_of(text@) == Ok::<HostBaseView, BadHostBase>(base@),
                Err(problem) => base_of(text@) == Err::<HostBaseView, BadHostBase>(problem),
            }),
    {
        if same_text(text, "home") {
            Ok(HostBase::Home)
        } else if same_text(text, "runtime") {
            Ok(HostBase::Runtime)
        } else if let Some(rest) = strip_prefix(text, "data:") {
            if rest.as_str().is_empty() {
                Err(BadHostBase::NoData)
            } else {
                Ok(HostBase::Data(rest))
            }
        } else if let Some(rest) = strip_prefix(text, "state:") {
            if rest.as_str().is_empty() {
                Err(BadHostBase::NoState)
            } else {
                Ok(HostBase::State(rest))
            }
        } else if let Some(rest) = strip_prefix(text, "cache:") {
            if rest.as_str().is_empty() {
                Err(BadHostBase::NoCache)
            } else {
                Ok(HostBase::Cache(rest))
            }
        } else {
            Err(BadHostBase::Unknown)
        }
    }
}

} // verus!
