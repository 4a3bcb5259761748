//! Mount specifications and how one expands into a host path and a container
//! path, before any look at the filesystem.

use vstd::prelude::*;
use crate::paths::{is_under, lies_under};
use crate::text::{concat, concat3, find_char, skip_chars, starts_with_char, take_chars};
use crate::text::{char_len, first_pos, lemma_first_pos, str_eq};

verus! {

/// Access mode of a bind mount.
#[derive(Debug, Clone, Copy, PartialEq, Eq, Hash, Structural)]
pub enum MountMode {
    /// Read-only.
    Ro,
    /// Read-write.
    Rw,
    /// Copy-on-write union mount, which only one backend offers.
    Overlay,
}

/// The flag that stands for `mode` in a bind string.
pub open spec fn mode_flag(mode: MountMode) -> Seq<char> {
    match mode {
        MountMode::Ro => "ro"@,
        MountMode::Rw => "rw"@,
        MountMode::Overlay => "O"@,
    }
}

/// The mode that a flag names; both spellings of overlay are taken.
pub open spec fn flag_mode(flag: Seq<char>) -> Option<MountMode> {
    if flag == "ro"@ {
        Some(MountMode::Ro)
    } else if flag == "rw"@ {
        Some(MountMode::Rw)
    } else if flag == "o"@ || flag == "O"@ {
        Some(MountMode::Overlay)
    } else {
        None
    }
}

impl MountMode {
    /// The flag of this mode as container engines write it: `ro`, `rw` or `O`.
    pub fn as_str(&self) -> (r: &'static str)
        ensures
            r@ == mode_flag(*self),
    {
        match self {
            MountMode::Ro => "ro",
            MountMode::Rw => "rw",
            MountMode::Overlay => "O",
        }
    }

    /// Reads a mode flag: `ro`, `rw`, and `o` or `O` for overlay.
    pub fn from_str(s: &str) -> (r: Option<MountMode>)
        ensures
            r == flag_mode(s@),
    {
        if str_eq(s, "ro") {
            Some(MountMode::Ro)
        } else if str_eq(s, "rw") {
            Some(MountMode::Rw)
        } else if str_eq(s, "o") || str_eq(s, "O") {
            Some(MountMode::Overlay)
        } else {
            None
        }
    }

    /// Whether this is the read-only mode.
    pub fn is_ro(&self) -> (r: bool)
        ensures
            r == (*self == MountMode::Ro),
    {
        matches!(self, MountMode::Ro)
    }

    /// Whether this is the read-write mode.
    pub fn is_rw(&self) -> (r: bool)
        ensures
            r == (*self == MountMode::Rw),
    {
        matches!(self, MountMode::Rw)
    }

    /// Whether this is the overlay mode.
    pub fn is_overlay(&self) -> (r: bool)
        ensures
            r == (*self == MountMode::Overlay),
    {
        matches!(self, MountMode::Overlay)
    }
}

/// What a `ResolvedMount` holds, as plain sequences.
pub struct ResolvedMountView {
    pub host: Seq<char>,
    pub container: Seq<char>,
    pub mode: MountMode,
}

/// A mount after path expansion: the unit that coverage is decided on.
#[derive(Debug, Clone, PartialEq, Eq)]
pub struct ResolvedMount {
    pub host: String,
    pub container: String,
    pub mode: MountMode,
}

impl View for ResolvedMount {
    type V = ResolvedMountView;

    open spec fn view(&self) -> ResolvedMountView {
        ResolvedMountView { host: self.host@, container: self.container@, mode: self.mode }
    }
}

/// `host:container:mode`, the form that a container engine takes after `-v`.
pub open spec fn bind_string(m: ResolvedMountView) -> Seq<char> {
    m.host + ":"@ + m.container + ":"@ + mode_flag(m.mode)
}

impl ResolvedMount {
    /// The bind string `host:container:mode` of this mount.
    pub fn to_bind_string(&self) -> (r: String)
        ensures
            r@ == bind_string(self@),
    {
        let mut out = self.host.clone();
        out.append(":");
        out.append(self.container.as_str());
        out.append(":");
        out.append(self.mode.as_str());
        out
    }

    /// A copy of this mount.
    pub fn duplicate(&self) -> (r: ResolvedMount)
        ensures
            r@ == self@,
    {
        ResolvedMount {
            host: self.host.clone(),
            container: self.container.clone(),
            mode: self.mode,
        }
    }
}

/// Why a mount could not be turned into paths.
#[derive(Debug, Clone, PartialEq, Eq)]
pub enum MountError {
    /// The host side of `spec` begins with neither `/` nor `~`, or expands to
    /// a path that is not absolute.
    InvalidHostPath { spec: String },
    /// The container side of `spec` begins with neither `/` nor `~`, or
    /// expands to a path that is not absolute.
    InvalidContainerPath { spec: String },
    /// The host path of a mount does not exist.
    NotFound { path: String },
    /// A path on a symlink chain could not be canonicalized.
    NotCanonical { path: String },
    /// The filesystem snapshot says nothing about `path` yet.
    Unprobed { path: String },
    /// A read-write mount of `path` was asked for inside the read-only
    /// mount of `covered_by`, and such a request was to be refused.
    ModeConflict { path: String, covered_by: String },
    /// An overlay mount was asked for, and the configured backend, named
    /// here, has no overlay mounts.
    OverlayUnsupported { backend: String },
    /// A mount argument holds no path: nothing at all, or nothing behind
    /// its mode prefix.
    EmptySpec { arg: String },
    /// The path of a mount argument begins with neither `/` nor `~`.
    NotAbsolute { arg: String },
}

/// What a `MountError` holds, as plain sequences.
pub enum MountErrorView {
    InvalidHostPath { spec: Seq<char> },
    InvalidContainerPath { spec: Seq<char> },
    NotFound { path: Seq<char> },
    NotCanonical { path: Seq<char> },
    Unprobed { path: Seq<char> },
    ModeConflict { path: Seq<char>, covered_by: Seq<char> },
    OverlayUnsupported { backend: Seq<char> },
    EmptySpec { arg: Seq<char> },
    NotAbsolute { arg: Seq<char> },
}

impl View for MountError {
    type V = MountErrorView;

    open spec fn view(&self) -> MountErrorView {
        match self {
            MountError::InvalidHostPath { spec } => MountErrorView::InvalidHostPath { spec: spec@ },
            MountError::InvalidContainerPath { spec } => MountErrorView::InvalidContainerPath {
                spec: spec@,
            },
            MountError::NotFound { path } => MountErrorView::NotFound { path: path@ },
            MountError::NotCanonical { path } => MountErrorView::NotCanonical { path: path@ },
            MountError::Unprobed { path } => MountErrorView::Unprobed { path: path@ },
            MountError::ModeConflict { path, covered_by } => MountErrorView::ModeConflict {
                path: path@,
                covered_by: covered_by@,
            },
            MountError::OverlayUnsupported {
                backend,
            } => MountErrorView::OverlayUnsupported { backend: backend@ },
            MountError::EmptySpec { arg } => MountErrorView::EmptySpec { arg: arg@ },
            MountError::NotAbsolute { arg } => MountErrorView::NotAbsolute { arg: arg@ },
        }
    }
}

/// The sentence that reports `e`.
pub open spec fn mount_error_text(e: MountErrorView) -> Seq<char> {
    match e {
        MountErrorView::InvalidHostPath { spec } => "Invalid host path in mount: "@ + spec,
        MountErrorView::InvalidContainerPath { spec } => "Invalid container path in mount: "@
            + spec,
        MountErrorView::NotFound { path } => "Mount path does not exist: "@ + path,
        MountErrorView::NotCanonical { path } => "Failed to canonicalize path: "@ + path,
        MountErrorView::Unprobed { path } => "Nothing is known about path: "@ + path,
        MountErrorView::ModeConflict { path, covered_by } => "Read-write mount "@ + path
            + " lies inside read-only mount "@ + covered_by,
        MountErrorView::OverlayUnsupported {
            backend,
        } => "Overlay mounts are only supported with Podman backend, but '"@ + backend
            + "' is configured"@,
        MountErrorView::EmptySpec { arg } => "Empty mount path after mode prefix: "@ + arg,
        MountErrorView::NotAbsolute {
            arg,
        } => "Mount path must be absolute (/...) or home-relative (~/...): "@ + arg,
    }
}

impl MountError {
    /// The sentence that reports this error, with the path or spec it is about.
    pub fn message(&self) -> (r: String)
        ensures
            r@ == mount_error_text(self@),
    {
        match self {
            MountError::InvalidHostPath { spec } => concat("Invalid host path in mount: ", spec.as_str()),
            MountError::InvalidContainerPath { spec } => concat(
                "Invalid container path in mount: ",
                spec.as_str(),
            ),
            MountError::NotFound { path } => concat("Mount path does not exist: ", path.as_str()),
            MountError::NotCanonical { path } => concat(
                "Failed to canonicalize path: ",
                path.as_str(),
            ),
            MountError::Unprobed { path } => concat("Nothing is known about path: ", path.as_str()),
            MountError::ModeConflict { path, covered_by } => {
                let head = concat3("Read-write mount ", path.as_str(), " lies inside read-only mount ");
                concat(head.as_str(), covered_by.as_str())
            },
            MountError::OverlayUnsupported { backend } => concat3(
                "Overlay mounts are only supported with Podman backend, but '",
                backend.as_str(),
                "' is configured",
            ),
            MountError::EmptySpec { arg } => concat(
                "Empty mount path after mode prefix: ",
                arg.as_str(),
            ),
            MountError::NotAbsolute { arg } => concat(
                "Mount path must be absolute (/...) or home-relative (~/...): ",
                arg.as_str(),
            ),
        }
    }
}

/// What a `Mount` holds, as plain sequences.
pub struct MountView {
    pub spec: Seq<char>,
    pub home_relative: bool,
    pub mode: MountMode,
}

/// One requested bind mount: a path or a `source:destination` pair, whether
/// the container side is to be moved under the container's home, and the mode.
#[derive(Debug, Clone)]
pub struct Mount {
    /// A single path, or `source:destination`.
    pub spec: String,
    /// Whether the container side of a single path lies under the
    /// container's home where the host side lies under the host's.
    pub home_relative: bool,
    pub mode: MountMode,
}

impl View for Mount {
    type V = MountView;

    open spec fn view(&self) -> MountView {
        MountView { spec: self.spec@, home_relative: self.home_relative, mode: self.mode }
    }
}

/// How a mount is written for the user: mode, spec, and a note where the
/// mount is home-relative.
pub open spec fn mount_text(m: MountView) -> Seq<char> {
    let head = mode_flag(m.mode) + ": "@ + m.spec;
    if m.home_relative {
        head + " (home-relative)"@
    } else {
        head
    }
}

/// Whether `spec` is a `source:destination` pair.
pub open spec fn has_dest(spec: Seq<char>) -> bool {
    first_pos(spec, ':') < spec.len()
}

/// The host side of `spec`: all of it, or what stands before the first `:`.
pub open spec fn host_part(spec: Seq<char>) -> Seq<char> {
    spec.take(first_pos(spec, ':'))
}

/// The container side of a `source:destination` pair: what follows the first `:`.
pub open spec fn dest_part(spec: Seq<char>) -> Seq<char> {
    spec.skip(first_pos(spec, ':') + 1)
}

/// `path` with a leading `~` replaced by `home`; `None` unless the outcome
/// begins with `/`.
pub open spec fn expand(path: Seq<char>, home: Seq<char>) -> Option<Seq<char>> {
    let full = if path.len() > 0 && path[0] == '~' {
        home + path.skip(1)
    } else {
        path
    };
    if full.len() > 0 && full[0] == '/' {
        Some(full)
    } else {
        None
    }
}

/// `host` moved from the directory `host_home` to `container_home`: where
/// `host` is `host_home` or lies below it, the home at its beginning is
/// replaced; a path anywhere else, a sibling of the home too, stays as it is.
pub open spec fn rehome(host: Seq<char>, host_home: Seq<char>, container_home: Seq<char>) -> Seq<
    char,
> {
    if lies_under(host, host_home) {
        container_home + host.skip(host_home.len() as int)
    } else {
        host
    }
}

/// A path that only begins with the text of the home directory, as a
/// sibling of the home does, is not moved.
pub proof fn lemma_sibling_of_home_stays(
    host_home: Seq<char>,
    rest: Seq<char>,
    container_home: Seq<char>,
)
    requires
        host_home.len() > 0,
        host_home.last() != '/',
        rest.len() > 0,
        rest[0] != '/',
    ensures
        rehome(host_home + rest, host_home, container_home) == host_home + rest,
        rehome(host_home + "/"@ + rest, host_home, container_home) == container_home + "/"@ + rest,
        rehome(host_home, host_home, container_home) == container_home,
{
    reveal_strlit("/");
    let sibling = host_home + rest;
    assert(sibling[host_home.len() as int] == rest[0]);
    let child = host_home + "/"@ + rest;
    assert(host_home =~= child.subrange(0, host_home.len() as int));
    assert(child[host_home.len() as int] == '/');
    assert(container_home + child.skip(host_home.len() as int) =~= container_home + "/"@ + rest);
    assert(host_home.is_prefix_of(host_home));
    assert(container_home + host_home.skip(host_home.len() as int) =~= container_home);
}

/// The container path that belongs to `host` under the mount's home setting.
pub open spec fn derived_container(
    home_relative: bool,
    host: Seq<char>,
    host_home: Seq<char>,
    container_home: Seq<char>,
) -> Seq<char> {
    if home_relative {
        rehome(host, host_home, container_home)
    } else {
        host
    }
}

/// The expanded host and container paths of a mount, not yet canonical.
pub open spec fn resolve_paths_spec(
    m: MountView,
    host_home: Seq<char>,
    container_home: Seq<char>,
) -> Result<(Seq<char>, Seq<char>), MountErrorView> {
    match expand(host_part(m.spec), host_home) {
        None => Err(MountErrorView::InvalidHostPath { spec: m.spec }),
        Some(host) => if has_dest(m.spec) {
            match expand(dest_part(m.spec), container_home) {
                None => Err(MountErrorView::InvalidContainerPath { spec: m.spec }),
                Some(container) => Ok((host, container)),
            }
        } else {
            Ok((host, derived_container(m.home_relative, host, host_home, container_home)))
        },
    }
}

/// The view of a pair of strings.
pub open spec fn pair_view(p: (String, String)) -> (Seq<char>, Seq<char>) {
    (p.0@, p.1@)
}

/// The view of a result that holds a pair of paths or a mount error.
pub open spec fn paths_result_view(r: Result<(String, String), MountError>) -> Result<
    (Seq<char>, Seq<char>),
    MountErrorView,
> {
    match r {
        Ok(p) => Ok(pair_view(p)),
        Err(e) => Err(e@),
    }
}

/// `host` moved from the directory `host_home` to `container_home`, where
/// it is that directory or lies below it.
pub fn rehome_path(host: &str, host_home: &str, container_home: &str) -> (r: String)
    ensures
        r@ == rehome(host@, host_home@, container_home@),
{
    if is_under(host, host_home) {
        let rest = skip_chars(host, char_len(host_home));
        concat(container_home, rest.as_str())
    } else {
        host.to_owned()
    }
}

impl Mount {
    /// This mount as it is shown to the user.
    pub fn to_text(&self) -> (r: String)
        ensures
            r@ == mount_text(self@),
    {
        let mut out = concat3(self.mode.as_str(), ": ", self.spec.as_str());
        if self.home_relative {
            out.append(" (home-relative)");
        }
        out
    }

    /// A copy of this mount.
    pub fn duplicate(&self) -> (r: Mount)
        ensures
            r@ == self@,
    {
        Mount { spec: self.spec.clone(), home_relative: self.home_relative, mode: self.mode }
    }

    /// Expands a leading `~` of `path` to `home`. `None` where the outcome is
    /// not an absolute path.
    pub fn expand_path(path: &str, home: &str) -> (r: Option<String>)
        ensures
            crate::text::opt_view(r) == expand(path@, home@),
    {
        let full = if starts_with_char(path, '~') {
            let rest = skip_chars(path, 1);
            concat(home, rest.as_str())
        } else {
            path.to_owned()
        };
        if starts_with_char(full.as_str(), '/') {
            Some(full)
        } else {
            None
        }
    }

    /// The container path that belongs to the host path `host_path`: moved
    /// from `host_home` to `container_home` for a home-relative mount, the
    /// same path otherwise.
    pub fn derive_container_path(&self, host_path: &str, host_home: &str, container_home: &str) -> (r:
        String)
        ensures
            r@ == derived_container(self.home_relative, host_path@, host_home@, container_home@),
    {
        if self.home_relative {
            rehome_path(host_path, host_home, container_home)
        } else {
            host_path.to_owned()
        }
    }

    /// Expands this mount to its host path and container path, without
    /// looking at the filesystem.
    ///
    /// A `source:destination` spec expands each side against its own home. A
    /// single path is the host path; the container path is the same, or for a
    /// home-relative mount the host path moved to the container's home where
    /// it lies in the host's home. A path elsewhere is used as it is.
    pub fn resolve_paths(&self, host_home: &str, container_home: &str) -> (r: Result<
        (String, String),
        MountError,
    >)
        ensures
            paths_result_view(r) == resolve_paths_spec(self@, host_home@, container_home@),
    {
        let spec = self.spec.as_str();
        let colon = find_char(spec, ':');
        proof {
            lemma_first_pos(spec@, ':');
        }
        let host_spec = take_chars(spec, colon);
        let host = match Mount::expand_path(host_spec.as_str(), host_home) {
            Some(h) => h,
            None => {
                return Err(MountError::InvalidHostPath { spec: self.spec.clone() });
            },
        };
        if colon < char_len(spec) {
            let dest_spec = skip_chars(spec, colon + 1);
            match Mount::expand_path(dest_spec.as_str(), container_home) {
                Some(container) => Ok((host, container)),
                None => Err(MountError::InvalidContainerPath { spec: self.spec.clone() }),
            }
        } else {
            let container = self.derive_container_path(host.as_str(), host_home, container_home);
            Ok((host, container))
        }
    }
}

} // verus!
