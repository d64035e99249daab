//! Declarative profile file with image, command, mounts, and labels.
//!
//! A profile names the image, the optional harness argv array, the
//! allowlist mount triples, the credential-surface slot, environment
//! exports, and optional generic labels. The harness itself is argv after
//! `--` chosen by the caller.
//!
//! Name resolution order: explicit filesystem path, then the first supplied
//! configuration directory (a closed tier), then the XDG user profiles
//! directory, then the baked-in examples. There is no cwd-relative lookup:
//! a name resolves identically from any working directory.

use vstd::prelude::*;

use crate::digest;
use crate::error::{CistellaError, ErrorView, Result};
use crate::mount;
use crate::mount::{MountTriple, TripleView};
use crate::path;
use crate::session;
use crate::table;
use crate::template;
use crate::template::{ProjectName, ProjectView, Supplements};
use crate::text;

verus! {

/// Credential surface: `none` or a per-identity sign-only socket.
#[derive(Debug)]
pub enum CredentialSurface {
    /// No agent is mounted.
    Absent,
    /// Per-identity socket mounted RO at the same path inside.
    Agent {
        /// Host path of the per-identity `AF_UNIX` socket.
        ssh_agent: String,
    },
}

/// What a credential surface says: the agent socket, if any.
impl DeepView for CredentialSurface {
    type V = Option<Seq<char>>;

    open spec fn deep_view(&self) -> Option<Seq<char>> {
        match *self {
            CredentialSurface::Absent => None,
            CredentialSurface::Agent { ssh_agent } => Some(ssh_agent@),
        }
    }
}

impl Clone for CredentialSurface {
    fn clone(&self) -> (r: Self)
        ensures
            r.deep_view() == self.deep_view(),
    {
        match self {
            CredentialSurface::Absent => CredentialSurface::Absent,
            CredentialSurface::Agent { ssh_agent } => CredentialSurface::Agent {
                ssh_agent: ssh_agent.clone(),
            },
        }
    }
}

impl CredentialSurface {
    /// Reads the text form: only `none` is accepted.
    pub fn from_text(v: &str) -> (r: std::result::Result<Self, String>)
        ensures
            if v@ == "none"@ {
                r matches Ok(s) && s is Absent
            } else {
                r matches Err(m) && m@ == "credential_surface string must be \"none\""@
            },
    {
        if text::eq(v, "none") {
            Ok(CredentialSurface::Absent)
        } else {
            Err("credential_surface string must be \"none\"".to_owned())
        }
    }

    /// Reads the table form by its `ssh_agent` entry, which must be an
    /// absolute path.
    pub fn from_socket(ssh_agent: Option<String>) -> (r: std::result::Result<Self, String>)
        ensures
            match ssh_agent {
                Some(s) => if path::is_absolute(s@) {
                    r matches Ok(v) && v.deep_view() == Some(s@)
                } else {
                    r matches Err(m) && m@ == "ssh_agent must be an absolute path"@
                },
                None => r matches Err(m) && m@ == "missing ssh_agent"@,
            },
    {
        match ssh_agent {
            Some(s) => {
                if !path::absolute(s.as_str()) {
                    return Err("ssh_agent must be an absolute path".to_owned());
                }
                Ok(CredentialSurface::Agent { ssh_agent: s })
            },
            None => Err("missing ssh_agent".to_owned()),
        }
    }
}

/// Declarative profile loaded from TOML (a baked example, an XDG user copy,
/// a configuration-directory file, or an explicit path).
#[derive(Debug)]
pub struct Profile {
    /// Image tag or digest.
    pub image: String,
    /// Allowlist mount triples (may be an empty list).
    pub mounts: Vec<MountTriple>,
    /// Harness argv array (never a shell string).
    pub command: Option<Vec<String>>,
    /// Env exports inside the container: name and value, each name once.
    pub environment_assignments: Vec<(String, String)>,
    /// Names of invoker environment variables the profile accepts.
    pub environment_acceptances: Vec<String>,
    /// Credential surface slot.
    pub credential_surface: CredentialSurface,
    /// Single distinguished writable session-home root.
    pub container_home: String,
    /// Generic labels: key and value, each key once.
    pub labels: Vec<(String, String)>,
}

/// What a profile says.
pub struct ProfileView {
    pub image: Seq<char>,
    pub mounts: Seq<TripleView>,
    pub command: Option<Seq<Seq<char>>>,
    pub environment: Seq<(Seq<char>, Seq<char>)>,
    pub acceptances: Seq<Seq<char>>,
    pub agent: Option<Seq<char>>,
    pub home: Seq<char>,
    pub labels: Seq<(Seq<char>, Seq<char>)>,
}

impl DeepView for Profile {
    type V = ProfileView;

    open spec fn deep_view(&self) -> ProfileView {
        ProfileView {
            image: self.image@,
            mounts: self.mounts.deep_view(),
            command: self.command.deep_view(),
            environment: self.environment_assignments.deep_view(),
            acceptances: self.environment_acceptances.deep_view(),
            agent: self.credential_surface.deep_view(),
            home: self.container_home@,
            labels: self.labels.deep_view(),
        }
    }
}

// ---------------------------------------------------------------------
// Names
// ---------------------------------------------------------------------

/// Whether a text is an environment variable name: `[A-Z_][A-Z0-9_]*`.
pub open spec fn env_name(s: Seq<char>) -> bool {
    s.len() > 0 && text::in_class(s[0], true, false, false, "_"@) && text::all_in_class(
        s,
        true,
        false,
        true,
        "_"@,
    )
}

/// The refusal of a name that is no environment variable name.
pub open spec fn env_name_error(name: Seq<char>, what: Seq<char>) -> ErrorView {
    ErrorView::Profile(what + " must match [A-Z_][A-Z0-9_]*: "@ + name)
}

/// Whether a text is an environment variable name.
pub fn is_env_name(name: &str) -> (b: bool)
    ensures
        b == env_name(name@),
{
    let v = text::chars_of(name);
    if v.len() == 0 {
        return false;
    }
    let first = text::slice_of(&v, 0, 1);
    assert(first@ =~= seq![name@[0]]);
    let head = text::all_in(first.as_str(), true, false, false, "_");
    assert(head == text::in_class(name@[0], true, false, false, "_"@)) by {
        assert(first@[0] == name@[0]);
    }
    head && text::all_in(name, true, false, true, "_")
}

/// Validates an environment variable name against `[A-Z_][A-Z0-9_]*`;
/// `what` names the kind of name in the refusal.
pub fn validate_env_name(name: &str, what: &str) -> (r: Result<()>)
    ensures
        if env_name(name@) {
            r is Ok
        } else {
            r matches Err(e) && e@ == env_name_error(name@, what@)
        },
{
    if is_env_name(name) {
        Ok(())
    } else {
        Err(CistellaError::Profile(text::cat3(what, " must match [A-Z_][A-Z0-9_]*: ", name)))
    }
}

/// Default project name: basename of the canonical session directory.
pub open spec fn default_project(directory: Seq<char>) -> std::result::Result<
    Seq<char>,
    ErrorView,
> {
    match path::file_name(directory) {
        Some(name) => Ok(name),
        None => Err(
            ErrorView::Profile("project name needs a directory basename: "@ + directory),
        ),
    }
}

/// Default project name: basename of the canonical session directory. A
/// directory without a basename (the filesystem root) is refused.
pub fn default_project_name(directory: &str) -> (r: Result<String>)
    ensures
        crate::error::agrees(r, default_project(directory@)),
{
    match path::file_name_of(directory) {
        Some(name) => Ok(name),
        None => Err(
            CistellaError::Profile(
                text::cat("project name needs a directory basename: ", directory),
            ),
        ),
    }
}

/// `container-home` after default, template, and absoluteness checks, in
/// canonical form.
pub open spec fn normalized_home(home: Seq<char>) -> std::result::Result<Seq<char>, ErrorView> {
    let h = if text::trimmed(home).len() == 0 {
        "/home/cistella"@
    } else {
        home
    };
    if text::occurs("{{"@, h) {
        Err(ErrorView::Profile("container-home must not contain templates"@))
    } else if !path::is_absolute(h) {
        Err(ErrorView::Profile("container-home must be absolute"@))
    } else {
        Ok(path::canonical(h))
    }
}

/// Normalizes `container_home` after the early expansion phase:
/// default-if-empty, absolute-path check, then canonicalization. Surviving
/// template syntax means the value bypassed expansion.
pub fn normalize_container_home(home: &str) -> (r: Result<String>)
    ensures
        crate::error::agrees(r, normalized_home(home@)),
{
    let trimmed = text::trim(home);
    let h = if trimmed.as_str().is_empty() {
        "/home/cistella"
    } else {
        home
    };
    if text::contains(h, "{{") {
        return Err(
            CistellaError::Profile("container-home must not contain templates".to_owned()),
        );
    }
    if !path::absolute(h) {
        return Err(CistellaError::Profile("container-home must be absolute".to_owned()));
    }
    Ok(path::canonicalize(h))
}


// ---------------------------------------------------------------------
// Validation
// ---------------------------------------------------------------------

/// What is wrong with the command, if anything.
pub open spec fn command_fault(command: Option<Seq<Seq<char>>>) -> Option<ErrorView> {
    match command {
        None => None,
        Some(argv) => if argv.len() == 0 {
            Some(ErrorView::Profile("command must be a non-empty argv array"@))
        } else if exists|i: int| 0 <= i < argv.len() && text::has_control(#[trigger] argv[i]) {
            Some(ErrorView::Profile("command argv must not contain control characters"@))
        } else {
            None
        },
    }
}

/// First fault of the labels from `k` on.
pub open spec fn first_label_fault(labels: Seq<(Seq<char>, Seq<char>)>, k: int) -> Option<
    ErrorView,
>
    decreases labels.len() - k,
{
    if k < 0 || k >= labels.len() {
        None
    } else {
        match session::label_fault(labels[k].0, labels[k].1) {
            Some(m) => Some(ErrorView::Profile(m)),
            None => first_label_fault(labels, k + 1),
        }
    }
}

/// What is wrong with a canonical container home, if anything.
pub open spec fn home_fault(home: Seq<char>) -> Option<ErrorView> {
    if home == "/"@ {
        Some(ErrorView::Profile("container-home must not be /"@))
    } else {
        match mount::system_root(home) {
            Some(root) => Some(
                ErrorView::Profile(
                    "container-home at or above sensitive root "@ + root + ": "@ + home
                        + " (canonical "@ + home + ")"@,
                ),
            ),
            None => if text::has_control(home) {
                Some(ErrorView::Profile("container-home must not contain control characters"@))
            } else {
                None
            },
        }
    }
}

/// Whether a text holds a line break.
pub open spec fn has_newline(s: Seq<char>) -> bool {
    s.contains('\n') || s.contains('\r')
}

/// First fault of the environment from `k` on.
pub open spec fn first_env_fault(env: Seq<(Seq<char>, Seq<char>)>, k: int) -> Option<ErrorView>
    decreases env.len() - k,
{
    if k < 0 || k >= env.len() {
        None
    } else if has_newline(env[k].0) || has_newline(env[k].1) {
        Some(ErrorView::Profile("env key/value must not contain newlines: "@ + env[k].0))
    } else if !env_name(env[k].0) {
        Some(env_name_error(env[k].0, "env key"@))
    } else {
        first_env_fault(env, k + 1)
    }
}

/// A validated profile: the same profile with its canonical home, or the
/// first fault of image, command, labels, home, environment and mounts.
pub open spec fn validated(p: ProfileView, hosts: Seq<Seq<char>>) -> std::result::Result<
    ProfileView,
    ErrorView,
> {
    if text::trimmed(p.image).len() == 0 {
        Err(ErrorView::Profile("image is required"@))
    } else if text::has_control(p.image) {
        Err(ErrorView::Profile("image must not contain control characters"@))
    } else if let Some(e) = command_fault(p.command) {
        Err(e)
    } else if let Some(e) = first_label_fault(p.labels, 0) {
        Err(e)
    } else {
        match normalized_home(p.home) {
            Err(e) => Err(e),
            Ok(home) => if let Some(e) = home_fault(home) {
                Err(e)
            } else if let Some(e) = first_env_fault(p.environment, 0) {
                Err(e)
            } else if table::has_key(p.environment, "HOME"@) {
                Err(
                    ErrorView::Profile("HOME must not be set in env; derived from container_home"@),
                )
            } else if let Some(e) = mount::mounts_fault(p.mounts, home, hosts) {
                Err(ErrorView::Profile(e.rendered()))
            } else {
                Ok(ProfileView { home, ..p })
            },
        }
    }
}

fn profile_error<T>(m: &str) -> (r: Result<T>)
    ensures
        r matches Err(e) && e@ == ErrorView::Profile(m@),
{
    Err(CistellaError::Profile(m.to_owned()))
}

fn check_command(command: &Option<Vec<String>>) -> (r: Result<()>)
    ensures
        match command_fault(command.deep_view()) {
            Some(e) => r matches Err(x) && x@ == e,
            None => r is Ok,
        },
{
    match command {
        None => Ok(()),
        Some(argv) => {
            if argv.len() == 0 {
                return profile_error("command must be a non-empty argv array");
            }
            let ghost all = argv.deep_view();
            let mut i: usize = 0;
            while i < argv.len()
                invariant
                    all == argv.deep_view(),
                    command.deep_view() == Some(all),
                    argv@.len() > 0,
                    i <= argv@.len(),
                    forall|k: int| 0 <= k < i ==> !text::has_control(#[trigger] all[k]),
                decreases argv.len() - i,
            {
                assert(all[i as int] == argv@[i as int]@);
                if text::has_control_char(argv[i].as_str()) {
                    assert(text::has_control(all[i as int]));
                    return profile_error("command argv must not contain control characters");
                }
                i = i + 1;
            }
            Ok(())
        },
    }
}

fn check_labels(labels: &Vec<(String, String)>) -> (r: Result<()>)
    ensures
        match first_label_fault(labels.deep_view(), 0) {
            Some(e) => r matches Err(x) && x@ == e,
            None => r is Ok,
        },
{
    let ghost all = labels.deep_view();
    let mut k: usize = 0;
    while k < labels.len()
        invariant
            all == labels.deep_view(),
            k <= labels@.len(),
            first_label_fault(all, 0) == first_label_fault(all, k as int),
        decreases labels.len() - k,
    {
        assert(all[k as int] == labels@[k as int].deep_view());
        match session::validate_generic_label(labels[k].0.as_str(), labels[k].1.as_str()) {
            Ok(_) => {},
            Err(m) => {
                return Err(CistellaError::Profile(m));
            },
        }
        k = k + 1;
    }
    Ok(())
}

fn check_home(home: &str) -> (r: Result<()>)
    ensures
        match home_fault(home@) {
            Some(e) => r matches Err(x) && x@ == e,
            None => r is Ok,
        },
{
    if text::eq(home, "/") {
        return profile_error("container-home must not be /");
    }
    match mount::system_root_of(home) {
        Some(root) => {
            return Err(
                CistellaError::Profile(
                    text::cat(
                        text::cat6(
                            "container-home at or above sensitive root ",
                            root,
                            ": ",
                            home,
                            " (canonical ",
                            home,
                        ).as_str(),
                        ")",
                    ),
                ),
            );
        },
        None => {},
    }
    if text::has_control_char(home) {
        return profile_error("container-home must not contain control characters");
    }
    Ok(())
}

fn newline_in(s: &str) -> (b: bool)
    ensures
        b == has_newline(s@),
{
    text::has_char(s, '\n') || text::has_char(s, '\r')
}

fn check_environment(env: &Vec<(String, String)>) -> (r: Result<()>)
    ensures
        match first_env_fault(env.deep_view(), 0) {
            Some(e) => r matches Err(x) && x@ == e,
            None => r is Ok,
        },
{
    let ghost all = env.deep_view();
    let mut k: usize = 0;
    while k < env.len()
        invariant
            all == env.deep_view(),
            k <= env@.len(),
            first_env_fault(all, 0) == first_env_fault(all, k as int),
        decreases env.len() - k,
    {
        assert(all[k as int] == env@[k as int].deep_view());
        let key = env[k].0.as_str();
        if newline_in(key) || newline_in(env[k].1.as_str()) {
            return Err(
                CistellaError::Profile(text::cat("env key/value must not contain newlines: ", key)),
            );
        }
        match validate_env_name(key, "env key") {
            Ok(_) => {},
            Err(e) => {
                return Err(e);
            },
        }
        k = k + 1;
    }
    Ok(())
}

/// Validates a parsed profile: literal text or template-expanded values.
/// `canonical_hosts` holds the resolved host path of each mount.
pub fn validate_profile(p: Profile, canonical_hosts: &[String]) -> (r: Result<Profile>)
    ensures
        crate::error::agrees(r, validated(p.deep_view(), canonical_hosts.deep_view())),
{
    let image = text::trim(p.image.as_str());
    if image.as_str().is_empty() {
        return profile_error("image is required");
    }
    if text::has_control_char(p.image.as_str()) {
        return profile_error("image must not contain control characters");
    }
    match check_command(&p.command) {
        Ok(_) => {},
        Err(e) => {
            return Err(e);
        },
    }
    match check_labels(&p.labels) {
        Ok(_) => {},
        Err(e) => {
            return Err(e);
        },
    }
    let home = match normalize_container_home(p.container_home.as_str()) {
        Ok(h) => h,
        Err(e) => {
            return Err(e);
        },
    };
    match check_home(home.as_str()) {
        Ok(_) => {},
        Err(e) => {
            return Err(e);
        },
    }
    match check_environment(&p.environment_assignments) {
        Ok(_) => {},
        Err(e) => {
            return Err(e);
        },
    }
    match table::lookup_text(&p.environment_assignments, "HOME") {
        Some(_) => {
            return profile_error("HOME must not be set in env; derived from container_home");
        },
        None => {},
    }
    match mount::validate_mounts(&p.mounts, home.as_str(), canonical_hosts) {
        Ok(_) => {},
        Err(e) => {
            return Err(CistellaError::Profile(e.render()));
        },
    }
    let mut p = p;
    p.container_home = home;
    Ok(p)
}

// ---------------------------------------------------------------------
// Parsing
// ---------------------------------------------------------------------

/// Whether a host source begins with `~`.
pub open spec fn has_tilde(host: Seq<char>) -> bool {
    host == "~"@ || "~/"@.is_prefix_of(host)
}

/// A host source with a leading `~` replaced by the home.
pub open spec fn untilde(host: Seq<char>, home: Seq<char>) -> Seq<char> {
    if has_tilde(host) {
        home + host.skip(1)
    } else {
        host
    }
}

/// Mounts with leading `~` expanded.
pub open spec fn untilde_mounts(mounts: Seq<TripleView>, home: Option<Seq<char>>) -> std::result::Result<
    Seq<TripleView>,
    ErrorView,
> {
    match home {
        Some(h) => Ok(
            mounts.map_values(|t: TripleView| TripleView { host: untilde(t.host, h), ..t }),
        ),
        None => if exists|i: int| 0 <= i < mounts.len() && has_tilde((#[trigger] mounts[i]).host) {
            Err(ErrorView::Profile("HOME not set for ~ expansion"@))
        } else {
            Ok(mounts)
        },
    }
}

/// What the TOML decoder's reading says.
pub open spec fn decoded_view(
    r: std::result::Result<Profile, String>,
) -> std::result::Result<ProfileView, Seq<char>> {
    match r {
        Ok(p) => Ok(p.deep_view()),
        Err(m) => Err(m@),
    }
}

/// A decoded profile with leading `~` expanded in host sources.
pub open spec fn parsed(
    decoded: std::result::Result<ProfileView, Seq<char>>,
    home: Option<Seq<char>>,
) -> std::result::Result<ProfileView, ErrorView> {
    match decoded {
        Err(m) => Err(ErrorView::Profile("parse: "@ + m)),
        Ok(p) => match untilde_mounts(p.mounts, home) {
            Err(e) => Err(e),
            Ok(mounts) => Ok(ProfileView { mounts, ..p }),
        },
    }
}

/// A decoded profile with leading `~` expanded in host sources, so shipped
/// profiles stay portable across seats. `decoded` is the TOML decoder's
/// reading of the profile text, `host_home` the host's `HOME`. Neither
/// validates nor expands templates.
pub fn parse_profile(
    decoded: std::result::Result<Profile, String>,
    host_home: Option<&str>,
) -> (r: Result<Profile>)
    ensures
        crate::error::agrees(r, parsed(decoded_view(decoded), host_home.deep_view())),
{
    let p = match decoded {
        Ok(p) => p,
        Err(m) => {
            return Err(CistellaError::Profile(text::cat("parse: ", m.as_str())));
        },
    };
    let ghost pv = p.deep_view();
    let ghost hv = host_home.deep_view();
    let mut mounts: Vec<MountTriple> = Vec::new();
    let mut k: usize = 0;
    while k < p.mounts.len()
        invariant
            pv == p.deep_view(),
            hv == host_home.deep_view(),
            k <= p.mounts@.len(),
            mounts@.len() == k,
            forall|i: int|
                0 <= i < k ==> (#[trigger] mounts@[i]).deep_view() == (TripleView {
                    host: match hv {
                        Some(h) => untilde(pv.mounts[i].host, h),
                        None => pv.mounts[i].host,
                    },
                    ..pv.mounts[i]
                }),
            hv is None ==> forall|i: int| 0 <= i < k ==> !has_tilde((#[trigger] pv.mounts[i]).host),
            parsed(decoded_view(decoded), hv) == (match untilde_mounts(pv.mounts, hv) {
                Err(e) => std::result::Result::<ProfileView, ErrorView>::Err(e),
                Ok(mounts) => Ok(ProfileView { mounts, ..pv }),
            }),
        decreases p.mounts.len() - k,
    {
        let t = &p.mounts[k];
        assert(pv.mounts[k as int] == t.deep_view());
        let host = t.host_source.as_str();
        let source = if text::eq(host, "~") || text::starts_with(host, "~/") {
            proof {
                reveal_strlit("~");
                reveal_strlit("~/");
            }
            match host_home {
                None => {
                    assert(has_tilde(pv.mounts[k as int].host));
                    return profile_error("HOME not set for ~ expansion");
                },
                Some(h) => {
                    let v = text::chars_of(host);
                    let rest = text::slice_of(&v, 1, v.len());
                    assert(rest@ =~= host@.skip(1));
                    text::cat(h, rest.as_str())
                },
            }
        } else {
            t.host_source.clone()
        };
        mounts.push(
            MountTriple {
                host_source: source,
                container_target: t.container_target.clone(),
                mode: t.mode,
            },
        );
        k = k + 1;
    }
    proof {
        match hv {
            Some(h) => {
                assert(mounts.deep_view() =~= pv.mounts.map_values(
                    |t: TripleView| TripleView { host: untilde(t.host, h), ..t },
                ));
            },
            None => {
                assert(mounts.deep_view() =~= pv.mounts);
            },
        }
    }
    let mut p = p;
    p.mounts = mounts;
    Ok(p)
}

// ---------------------------------------------------------------------
// Name lookup
// ---------------------------------------------------------------------

/// Name-lookup inputs: supplied closed tiers plus the XDG default tier.
///
/// `configuration_directories` holds the `--configuration-directory` flag
/// value first, then `$CISTELLA_CONFIGURATION_DIRECTORY`; each names
/// `<dir>/profiles/<name>.toml` and is closed (a missing name errors, no
/// fallthrough, never seeded). `xdg_profiles_dir` is the default tier.
#[derive(Debug)]
pub struct ResolutionSource {
    /// Supplied configuration directories in precedence order.
    pub configuration_directories: Vec<String>,
    /// XDG user profiles directory (seeded from baked examples on reach).
    pub xdg_profiles_dir: String,
}

/// Environment value, when it is set and not empty.
pub open spec fn nonempty(v: Option<Seq<char>>) -> Option<Seq<char>> {
    match v {
        Some(s) => if s.len() > 0 {
            Some(s)
        } else {
            None
        },
        None => None,
    }
}

/// XDG config base: `$XDG_CONFIG_HOME`, else `~/.config`.
pub open spec fn config_base(xdg: Option<Seq<char>>, home: Option<Seq<char>>) -> std::result::Result<
    Seq<char>,
    ErrorView,
> {
    match nonempty(xdg) {
        Some(dir) => Ok(dir),
        None => match home {
            Some(h) => Ok(path::joined(h, ".config"@)),
            None => Err(ErrorView::Profile("HOME not set for XDG config base"@)),
        },
    }
}

/// Returns the XDG config base: `$XDG_CONFIG_HOME`, else `~/.config`.
pub fn xdg_config_base(xdg: Option<&str>, home: Option<&str>) -> (r: Result<String>)
    ensures
        crate::error::agrees(r, config_base(xdg.deep_view(), home.deep_view())),
{
    match xdg {
        Some(dir) => {
            if !dir.is_empty() {
                return Ok(dir.to_owned());
            }
        },
        None => {},
    }
    match home {
        Some(h) => Ok(path::join(h, ".config")),
        None => profile_error("HOME not set for XDG config base"),
    }
}

/// The supplied directories that are not empty, in order.
pub open spec fn supplied(a: Option<Seq<char>>, b: Option<Seq<char>>) -> Seq<Seq<char>> {
    let first = match nonempty(a) {
        Some(d) => seq![d],
        None => Seq::empty(),
    };
    match nonempty(b) {
        Some(d) => first.push(d),
        None => first,
    }
}

impl ResolutionSource {
    /// Builds lookup inputs from explicit parts.
    #[must_use]
    pub fn new(configuration_directories: Vec<String>, xdg_profiles_dir: String) -> (s: Self)
        ensures
            s.configuration_directories == configuration_directories,
            s.xdg_profiles_dir == xdg_profiles_dir,
    {
        ResolutionSource { configuration_directories, xdg_profiles_dir }
    }

    /// Builds lookup inputs from the flag and the host environment
    /// (`$CISTELLA_CONFIGURATION_DIRECTORY`, `$XDG_CONFIG_HOME`, `$HOME`).
    /// Without a config base it refuses.
    pub fn from_host_env(
        configuration_directory: Option<&str>,
        env_directory: Option<&str>,
        xdg: Option<&str>,
        home: Option<&str>,
    ) -> (r: Result<Self>)
        ensures
            match config_base(xdg.deep_view(), home.deep_view()) {
                Err(e) => r matches Err(x) && x@ == e,
                Ok(base) => r matches Ok(s) && s.configuration_directories.deep_view() == supplied(
                    configuration_directory.deep_view(),
                    env_directory.deep_view(),
                ) && s.xdg_profiles_dir@ == path::joined(base, "cistella/profiles"@),
            },
    {
        let mut dirs: Vec<String> = Vec::new();
        match configuration_directory {
            Some(d) => {
                if !d.is_empty() {
                    dirs.push(d.to_owned());
                }
            },
            None => {},
        }
        match env_directory {
            Some(d) => {
                if !d.is_empty() {
                    dirs.push(d.to_owned());
                }
            },
            None => {},
        }
        assert(dirs.deep_view() =~= supplied(
            configuration_directory.deep_view(),
            env_directory.deep_view(),
        ));
        match xdg_config_base(xdg, home) {
            Err(e) => Err(e),
            Ok(base) => Ok(
                ResolutionSource {
                    configuration_directories: dirs,
                    xdg_profiles_dir: path::join(base.as_str(), "cistella/profiles"),
                },
            ),
        }
    }
}

/// Where a profile reference is looked up.
#[derive(Debug)]
pub enum Lookup {
    /// An explicit filesystem path, which bypasses every tier.
    Explicit {
        /// The path.
        path: String,
    },
    /// A supplied configuration directory: closed, never seeded.
    Closed {
        /// The configuration directory.
        directory: String,
        /// The profile file in it.
        path: String,
    },
    /// The XDG default tier, seeded with missing baked examples on reach.
    Fallback {
        /// The XDG profiles directory.
        directory: String,
        /// The profile file in it.
        path: String,
    },
}

/// What seeding one baked example came to.
#[derive(Debug)]
pub enum SeedOutcome {
    /// Written, or there already.
    Present,
    /// It could not be written: its path, the system's text.
    Failed(String, String),
}

/// First failure among seeded examples, from example `k` on.
pub open spec fn seed_fault(outcomes: Seq<SeedOutcome>, k: int) -> Option<ErrorView>
    decreases outcomes.len() - k,
{
    if k < 0 || k >= outcomes.len() {
        None
    } else {
        match outcomes[k] {
            SeedOutcome::Present => seed_fault(outcomes, k + 1),
            SeedOutcome::Failed(path, m) => Some(
                ErrorView::Profile("seed "@ + path@ + ": "@ + m@),
            ),
        }
    }
}

/// Judges the seeding of baked examples into the fallback tier: the
/// directory must exist (`made` holds the system's text otherwise), and
/// every example must be there; user files are never overwritten.
pub fn seed_baked_examples(dir: &str, made: Option<String>, outcomes: &[SeedOutcome]) -> (r: Result<
    (),
>)
    ensures
        match made {
            Some(m) => r matches Err(e) && e@ == ErrorView::Profile(
                "create "@ + dir@ + ": "@ + m@,
            ),
            None => match seed_fault(outcomes@, 0) {
                Some(e) => r matches Err(x) && x@ == e,
                None => r is Ok,
            },
        },
{
    match made {
        Some(m) => {
            return Err(CistellaError::Profile(text::cat4("create ", dir, ": ", m.as_str())));
        },
        None => {},
    }
    let mut k: usize = 0;
    while k < outcomes.len()
        invariant
            made is None,
            k <= outcomes@.len(),
            seed_fault(outcomes@, 0) == seed_fault(outcomes@, k as int),
        decreases outcomes.len() - k,
    {
        match &outcomes[k] {
            SeedOutcome::Present => {},
            SeedOutcome::Failed(path, m) => {
                return Err(
                    CistellaError::Profile(
                        text::cat4("seed ", path.as_str(), ": ", m.as_str()),
                    ),
                );
            },
        }
        k = k + 1;
    }
    Ok(())
}

/// What a lookup says.
pub enum LookupView {
    Explicit(Seq<char>),
    Closed(Seq<char>, Seq<char>),
    Fallback(Seq<char>, Seq<char>),
}

impl DeepView for Lookup {
    type V = LookupView;

    open spec fn deep_view(&self) -> LookupView {
        match *self {
            Lookup::Explicit { path } => LookupView::Explicit(path@),
            Lookup::Closed { directory, path } => LookupView::Closed(directory@, path@),
            Lookup::Fallback { directory, path } => LookupView::Fallback(directory@, path@),
        }
    }
}

/// Whether a reference is a filesystem path.
pub open spec fn is_path_reference(reference: Seq<char>) -> bool {
    reference.contains('/') || ".toml"@.is_suffix_of(reference)
}

/// Where a reference is looked up: a path as itself, a name in the first
/// supplied directory, else in the XDG tier.
pub open spec fn lookup_of(
    reference: Seq<char>,
    directories: Seq<Seq<char>>,
    xdg: Seq<char>,
) -> LookupView {
    if is_path_reference(reference) {
        LookupView::Explicit(reference)
    } else if directories.len() > 0 {
        LookupView::Closed(
            directories[0],
            path::joined(path::joined(directories[0], "profiles"@), reference + ".toml"@),
        )
    } else {
        LookupView::Fallback(xdg, path::joined(xdg, reference + ".toml"@))
    }
}

/// Decides where a profile reference is looked up.
pub fn plan_lookup(reference: &str, source: &ResolutionSource) -> (l: Lookup)
    ensures
        l.deep_view() == lookup_of(
            reference@,
            source.configuration_directories.deep_view(),
            source.xdg_profiles_dir@,
        ),
{
    if text::has_char(reference, '/') || text::ends_with(reference, ".toml") {
        return Lookup::Explicit { path: reference.to_owned() };
    }
    let file = text::cat(reference, ".toml");
    if source.configuration_directories.len() > 0 {
        let dir = source.configuration_directories[0].as_str();
        assert(dir@ == source.configuration_directories.deep_view()[0]);
        let tier = path::join(dir, "profiles");
        Lookup::Closed {
            directory: dir.to_owned(),
            path: path::join(tier.as_str(), file.as_str()),
        }
    } else {
        Lookup::Fallback {
            directory: source.xdg_profiles_dir.clone(),
            path: path::join(source.xdg_profiles_dir.as_str(), file.as_str()),
        }
    }
}

/// What reading a profile file gave.
#[derive(Debug)]
pub enum ReadOutcome {
    /// The file's text.
    Text(String),
    /// The file does not exist; the system's message.
    NotFound(String),
    /// Another failure; the system's message.
    Failed(String),
}

/// What a read outcome says.
pub enum ReadView {
    Text(Seq<char>),
    NotFound(Seq<char>),
    Failed(Seq<char>),
}

impl DeepView for ReadOutcome {
    type V = ReadView;

    open spec fn deep_view(&self) -> ReadView {
        match *self {
            ReadOutcome::Text(s) => ReadView::Text(s@),
            ReadOutcome::NotFound(m) => ReadView::NotFound(m@),
            ReadOutcome::Failed(m) => ReadView::Failed(m@),
        }
    }
}

/// Index of the last `.` in a name, or -1.
pub open spec fn last_dot(s: Seq<char>) -> int
    decreases s.len(),
{
    if s.len() == 0 {
        -1
    } else if s.last() == '.' {
        s.len() - 1
    } else {
        last_dot(s.drop_last())
    }
}

/// File name without its extension; a name that begins with its only dot
/// has none.
pub open spec fn stem(name: Seq<char>) -> Seq<char> {
    if last_dot(name) > 0 {
        name.take(last_dot(name))
    } else {
        name
    }
}

/// Registry name of an explicit path: its file stem, else the reference.
pub open spec fn registry_name(reference: Seq<char>) -> Seq<char> {
    match path::file_name(reference) {
        Some(name) => stem(name),
        None => reference,
    }
}

/// Profile text and registry name, once the file was read.
pub open spec fn settled(
    reference: Seq<char>,
    lookup: LookupView,
    read: ReadView,
    baked: Option<Seq<char>>,
) -> std::result::Result<(Seq<char>, Seq<char>), ErrorView> {
    match lookup {
        LookupView::Explicit(path) => match read {
            ReadView::Text(raw) => Ok((raw, registry_name(path))),
            ReadView::NotFound(m) => Err(read_error(path, m)),
            ReadView::Failed(m) => Err(read_error(path, m)),
        },
        LookupView::Closed(directory, path) => match read {
            ReadView::Text(raw) => Ok((raw, reference)),
            ReadView::NotFound(_) => Err(
                ErrorView::Profile(
                    "profile "@ + reference + " not found in configuration directory "@ + directory
                        + " (closed tier, no fallthrough)"@,
                ),
            ),
            ReadView::Failed(m) => Err(read_error(path, m)),
        },
        LookupView::Fallback(directory, path) => match read {
            ReadView::Text(raw) => Ok((raw, reference)),
            ReadView::Failed(m) => Err(read_error(path, m)),
            ReadView::NotFound(_) => match baked {
                Some(raw) => Ok((raw, reference)),
                None => Err(
                    ErrorView::Profile(
                        "profile "@ + reference + " not found (searched XDG "@ + directory
                            + ", baked examples)"@,
                    ),
                ),
            },
        },
    }
}

/// The refusal of a file that cannot be read.
pub open spec fn read_error(path: Seq<char>, m: Seq<char>) -> ErrorView {
    ErrorView::Profile("read "@ + path + ": "@ + m)
}

fn read_refusal(path: &str, m: &str) -> (e: CistellaError)
    ensures
        e@ == read_error(path@, m@),
{
    CistellaError::Profile(text::cat4("read ", path, ": ", m))
}

fn stem_of(name: &str) -> (s: String)
    ensures
        s@ == stem(name@),
{
    let v = text::chars_of(name);
    let mut i: usize = v.len();
    assert(name@.take(i as int) =~= name@);
    while i > 0
        invariant
            v@ == name@,
            i <= v@.len(),
            last_dot(name@) == last_dot(name@.take(i as int)),
        decreases i,
    {
        let ghost t = name@.take(i as int);
        assert(t.last() == name@[i - 1]);
        if v[i - 1] == '.' {
            if i == 1 {
                return name.to_owned();
            }
            let s = text::slice_of(&v, 0, i - 1);
            assert(s@ =~= name@.take(i - 1));
            return s;
        }
        assert(t.drop_last() =~= name@.take(i - 1));
        i = i - 1;
    }
    name.to_owned()
}

/// Settles a lookup once the file was read: the profile text and its
/// registry name (the reference itself for names, the file stem for paths,
/// so paths never enter labels). `baked` is the baked example of that name.
pub fn settle_lookup(
    reference: &str,
    lookup: &Lookup,
    read: ReadOutcome,
    baked: Option<&str>,
) -> (r: Result<(String, String)>)
    ensures
        crate::error::agrees(
            r,
            settled(reference@, lookup.deep_view(), read.deep_view(), baked.deep_view()),
        ),
{
    match lookup {
        Lookup::Explicit { path } => match read {
            ReadOutcome::Text(raw) => {
                let name = match path::file_name_of(path.as_str()) {
                    Some(n) => stem_of(n.as_str()),
                    None => path.clone(),
                };
                Ok((raw, name))
            },
            ReadOutcome::NotFound(m) => Err(read_refusal(path.as_str(), m.as_str())),
            ReadOutcome::Failed(m) => Err(read_refusal(path.as_str(), m.as_str())),
        },
        Lookup::Closed { directory, path } => match read {
            ReadOutcome::Text(raw) => Ok((raw, reference.to_owned())),
            ReadOutcome::NotFound(_) => Err(
                CistellaError::Profile(
                    text::cat5(
                        "profile ",
                        reference,
                        " not found in configuration directory ",
                        directory.as_str(),
                        " (closed tier, no fallthrough)",
                    ),
                ),
            ),
            ReadOutcome::Failed(m) => Err(read_refusal(path.as_str(), m.as_str())),
        },
        Lookup::Fallback { directory, path } => match read {
            ReadOutcome::Text(raw) => Ok((raw, reference.to_owned())),
            ReadOutcome::Failed(m) => Err(read_refusal(path.as_str(), m.as_str())),
            ReadOutcome::NotFound(_) => match baked {
                Some(raw) => Ok((raw.to_owned(), reference.to_owned())),
                None => Err(
                    CistellaError::Profile(
                        text::cat5(
                            "profile ",
                            reference,
                            " not found (searched XDG ",
                            directory.as_str(),
                            ", baked examples)",
                        ),
                    ),
                ),
            },
        },
    }
}

/// A closed tier never falls through: a name missing there is refused,
/// whatever baked examples exist.
pub proof fn law_closed_tier_is_closed(
    reference: Seq<char>,
    directories: Seq<Seq<char>>,
    xdg: Seq<char>,
    m: Seq<char>,
    baked: Option<Seq<char>>,
)
    requires
        !is_path_reference(reference),
        directories.len() > 0,
    ensures
        settled(
            reference,
            lookup_of(reference, directories, xdg),
            ReadView::NotFound(m),
            baked,
        ) is Err,
{
}

/// A registry name never holds a slash, unless the reference has no file
/// name at all: paths never enter labels.
pub proof fn law_registry_names_hold_no_slash(reference: Seq<char>)
    requires
        path::file_name(reference) is Some,
    ensures
        !registry_name(reference).contains('/'),
{
    let name = path::file_name(reference)->0;
    text::lemma_split_pieces(reference, '/');
    lemma_component_pieces(text::split(reference, '/'));
    let names = path::component_pieces(text::split(reference, '/'));
    let c = path::components(reference);
    assert(c.last() == name);
    reveal_strlit("/");
    assert(names.contains(name)) by {
        if path::is_absolute(reference) {
            if names.len() == 0 {
                assert(c =~= seq!["/"@]);
            } else {
                assert(c.last() == names.last());
                assert(names[names.len() - 1] == name);
            }
        } else {
            assert(names[names.len() - 1] == name);
        }
    }
    let k = choose|k: int| 0 <= k < names.len() && names[k] == name;
    assert(!names[k].contains('/'));
    lemma_last_dot(name);
    let s = stem(name);
    if s.contains('/') {
        let i = choose|i: int| 0 <= i < s.len() && s[i] == '/';
        assert(name[i] == '/');
    }
}

proof fn lemma_last_dot(s: Seq<char>)
    ensures
        -1 <= last_dot(s) < s.len() || (s.len() == 0 && last_dot(s) == -1),
    decreases s.len(),
{
    if s.len() > 0 && s.last() != '.' {
        lemma_last_dot(s.drop_last());
    }
}

proof fn lemma_component_pieces(pieces: Seq<Seq<char>>)
    requires
        forall|i: int| 0 <= i < pieces.len() ==> !(#[trigger] pieces[i]).contains('/'),
    ensures
        forall|i: int|
            0 <= i < path::component_pieces(pieces).len() ==> !(#[trigger] path::component_pieces(
                pieces,
            )[i]).contains('/'),
    decreases pieces.len(),
{
    if pieces.len() > 0 {
        let t = pieces.drop_last();
        assert forall|i: int| 0 <= i < t.len() implies !(#[trigger] t[i]).contains('/') by {
            assert(t[i] == pieces[i]);
        }
        lemma_component_pieces(t);
        let before = path::component_pieces(t);
        let after = path::component_pieces(pieces);
        assert(!pieces[pieces.len() - 1].contains('/'));
        assert forall|i: int| 0 <= i < after.len() implies !(#[trigger] after[i]).contains('/') by {
            if i < before.len() {
                assert(after[i] == before[i]);
            } else {
                assert(after[i] == pieces.last());
            }
        }
    }
}

// ---------------------------------------------------------------------
// Resolution
// ---------------------------------------------------------------------

/// An expanded profile that is still to be validated, with the digest of
/// its text and its registry name.
#[derive(Debug)]
pub struct Expanded {
    /// The profile with templates expanded.
    pub profile: Profile,
    /// Sha256 hex digest of the profile text.
    pub digest: String,
    /// Registry name.
    pub name: String,
}

impl DeepView for Expanded {
    type V = (ProfileView, Seq<char>, Seq<char>);

    open spec fn deep_view(&self) -> (ProfileView, Seq<char>, Seq<char>) {
        (self.profile.deep_view(), self.digest@, self.name@)
    }
}

/// A decoded profile after `~` and template expansion, with the digest of
/// its text and its registry name.
pub open spec fn expanded_from(
    raw: Seq<char>,
    name: Seq<char>,
    decoded: std::result::Result<ProfileView, Seq<char>>,
    project: Option<ProjectView>,
    supplements: Seq<(Seq<char>, Seq<char>)>,
    host_home: Option<Seq<char>>,
) -> std::result::Result<(ProfileView, Seq<char>, Seq<char>), ErrorView> {
    match parsed(decoded, host_home) {
        Err(e) => Err(e),
        Ok(p) => match template::expanded(p, project, supplements, host_home) {
            Err(e) => Err(e),
            Ok(q) => Ok((q, digest::digest_text(vstd::utf8::encode_utf8(raw)), name)),
        },
    }
}

impl Expanded {
    /// Validates the expanded profile against its resolved host paths:
    /// profile, digest, registry name.
    pub fn validate(self, canonical_hosts: &[String]) -> (r: Result<(Profile, String, String)>)
        ensures
            match validated(self.profile.deep_view(), canonical_hosts.deep_view()) {
                Err(e) => r matches Err(x) && x@ == e,
                Ok(p) => r matches Ok(t) && t.0.deep_view() == p && t.1 == self.digest && t.2
                    == self.name,
            },
    {
        match validate_profile(self.profile, canonical_hosts) {
            Ok(p) => Ok((p, self.digest, self.name)),
            Err(e) => Err(e),
        }
    }
}

impl Profile {
    /// Expands a profile found by lookup, without project context or
    /// supplements: template-free profiles resolve literally,
    /// template-bearing profiles are refused.
    pub fn resolve(
        raw: &str,
        name: &str,
        decoded: std::result::Result<Profile, String>,
        host_home: Option<&str>,
    ) -> (r: Result<Expanded>)
        ensures
            crate::error::agrees(
                r,
                expanded_from(
                    raw@,
                    name@,
                    decoded_view(decoded),
                    None,
                    Seq::empty(),
                    host_home.deep_view(),
                ),
            ),
    {
        let supplements = Supplements::default();
        Profile::resolve_in(raw, name, decoded, None, &supplements, host_home)
    }

    /// Expands a profile found by lookup: its text, its registry name, and
    /// the TOML decoder's reading of the text. The result still has to be
    /// validated against the resolved host paths of its mounts.
    ///
    /// `project` is `Some` on the conduct path and `None` for context-free
    /// callers.
    pub fn resolve_in(
        raw: &str,
        name: &str,
        decoded: std::result::Result<Profile, String>,
        project: Option<ProjectName<'_>>,
        supplements: &Supplements,
        host_home: Option<&str>,
    ) -> (r: Result<Expanded>)
        ensures
            crate::error::agrees(
                r,
                expanded_from(
                    raw@,
                    name@,
                    decoded_view(decoded),
                    project.deep_view(),
                    supplements@,
                    host_home.deep_view(),
                ),
            ),
    {
        let digest = Profile::digest_of(raw);
        let p = match parse_profile(decoded, host_home) {
            Ok(p) => p,
            Err(e) => {
                return Err(e);
            },
        };
        match template::expand_templates(p, project, supplements, host_home) {
            Ok(profile) => Ok(Expanded { profile, digest, name: name.to_owned() }),
            Err(e) => Err(e),
        }
    }

    /// Returns the sha256 hex digest of TOML text.
    #[must_use]
    pub fn digest_of(text: &str) -> (d: String)
        ensures
            d@ == digest::digest_text(vstd::utf8::encode_utf8(text@)),
            d@.len() == 64,
    {
        digest::text_digest(text)
    }

    /// A validated profile from the TOML decoder's reading (literal: no
    /// template expansion). `canonical_hosts` holds the resolved host path
    /// of each mount after `~` expansion.
    pub fn from_toml(
        decoded: std::result::Result<Profile, String>,
        host_home: Option<&str>,
        canonical_hosts: &[String],
    ) -> (r: Result<Self>)
        ensures
            match parsed(decoded_view(decoded), host_home.deep_view()) {
                Err(e) => r matches Err(x) && x@ == e,
                Ok(p) => crate::error::agrees(r, validated(p, canonical_hosts.deep_view())),
            },
    {
        match parse_profile(decoded, host_home) {
            Ok(p) => validate_profile(p, canonical_hosts),
            Err(e) => Err(e),
        }
    }

    /// Returns the derived HOME value.
    #[must_use]
    pub fn home(&self) -> (h: &str)
        ensures
            h@ == self.deep_view().home,
    {
        self.container_home.as_str()
    }
}

proof fn lemma_join_marks(parts: Seq<Seq<char>>)
    requires
        forall|i: int| 0 <= i < parts.len() ==> !text::occurs("{{"@, #[trigger] parts[i]),
    ensures
        !text::occurs("{{"@, text::join(parts, "/"@)),
    decreases parts.len(),
{
    reveal_strlit("{{");
    path::lemma_slash();
    let j = text::join(parts, "/"@);
    if text::occurs("{{"@, j) {
        let at = choose|at: int| text::occurs_at("{{"@, j, at);
        assert(j.subrange(at, at + 2)[0] == '{' && j.subrange(at, at + 2)[1] == '{');
        assert(j[at] == '{' && j[at + 1] == '{');
        if parts.len() == 0 {
        } else if parts.len() == 1 {
            assert(text::occurs("{{"@, parts[0]));
        } else {
            let t = parts.drop_last();
            assert forall|i: int| 0 <= i < t.len() implies !text::occurs("{{"@, #[trigger] t[i]) by {
                assert(t[i] == parts[i]);
            }
            lemma_join_marks(t);
            let head = text::join(t, "/"@);
            let last = parts.last();
            assert(j[head.len() as int] == '/');
            if at + 1 < head.len() {
                assert(head.subrange(at, at + 2) =~= "{{"@);
                assert(text::occurs_at("{{"@, head, at));
            } else {
                let b = at - head.len() - 1;
                assert(last.subrange(b, b + 2) =~= "{{"@);
                assert(text::occurs_at("{{"@, last, b));
                assert(!text::occurs("{{"@, parts[parts.len() - 1]));
            }
        }
    }
}

proof fn lemma_resolved_members(parts: Seq<Seq<char>>, p: Seq<char>)
    requires
        path::resolve_parts(parts).contains(p),
    ensures
        parts.contains(p),
    decreases parts.len(),
{
    if parts.len() > 0 {
        let t = parts.drop_last();
        let before = path::resolve_parts(t);
        let after = path::resolve_parts(parts);
        let i = choose|i: int| 0 <= i < after.len() && after[i] == p;
        if i < before.len() && after[i] == before[i] {
            assert(before.contains(p));
            lemma_resolved_members(t, p);
            let k = choose|k: int| 0 <= k < t.len() && t[k] == p;
            assert(parts[k] == p);
        } else {
            assert(parts[parts.len() - 1] == p);
        }
    }
}

/// Cleaning a path brings no template mark into it.
proof fn lemma_canonical_marks(s: Seq<char>)
    requires
        !text::occurs("{{"@, s),
    ensures
        !text::occurs("{{"@, path::canonical(s)),
{
    reveal_strlit("{{");
    path::lemma_slash();
    let pieces = text::split(s, '/');
    let parts = path::resolve_parts(pieces);
    assert forall|i: int| 0 <= i < parts.len() implies !text::occurs("{{"@, #[trigger] parts[i]) by {
        if text::occurs("{{"@, parts[i]) {
            let at = choose|at: int| text::occurs_at("{{"@, parts[i], at);
            assert(parts.contains(parts[i]));
            lemma_resolved_members(pieces, parts[i]);
            let k = choose|k: int| 0 <= k < pieces.len() && pieces[k] == parts[i];
            let (a, b) = path::lemma_piece_context(s, '/', k);
            let from = a.len() as int + at;
            assert(s.subrange(from, from + 2) =~= parts[i].subrange(at, at + 2));
            assert(text::occurs_at("{{"@, s, from));
        }
    }
    lemma_join_marks(parts);
    let j = text::join(parts, "/"@);
    let c = path::canonical(s);
    if text::occurs("{{"@, c) && c != j {
        let at = choose|at: int| text::occurs_at("{{"@, c, at);
        assert(c =~= "/"@ + j);
        assert(c.subrange(at, at + 2)[0] == '{');
        assert(at > 0);
        assert(j.subrange(at - 1, at + 1) =~= c.subrange(at, at + 2));
        assert(text::occurs_at("{{"@, j, at - 1));
    }
}

/// Validation settles: a validated profile, taken with the same resolved
/// host paths, validates to itself.
pub proof fn law_validation_is_idempotent(p: ProfileView, hosts: Seq<Seq<char>>)
    requires
        validated(p, hosts) is Ok,
    ensures
        validated(validated(p, hosts)->Ok_0, hosts) == validated(p, hosts),
{
    let q = validated(p, hosts)->Ok_0;
    let h = if text::trimmed(p.home).len() == 0 {
        "/home/cistella"@
    } else {
        p.home
    };
    path::law_canonical_idempotent(h);
    path::lemma_slash();
    assert(path::is_absolute(q.home));
    lemma_canonical_marks(h);
    assert(text::trimmed(q.home).len() > 0) by {
        let t = text::trim_start(q.home);
        assert(t == q.home);
        lemma_trim_end_keeps_head(t);
    }
}

/// Trimming the end keeps a leading character that is no white space.
proof fn lemma_trim_end_keeps_head(s: Seq<char>)
    requires
        s.len() > 0,
        !text::is_space(s[0]),
    ensures
        text::trim_end(s).len() > 0,
    decreases s.len(),
{
    if text::is_space(s.last()) {
        let t = s.drop_last();
        assert(t.len() > 0);
        assert(t[0] == s[0]);
        lemma_trim_end_keeps_head(t);
    }
}

proof fn lemma_label_faults_are_profile_errors(labels: Seq<(Seq<char>, Seq<char>)>, k: int)
    ensures
        first_label_fault(labels, k) matches Some(e) ==> e is Profile,
    decreases labels.len() - k,
{
    if 0 <= k < labels.len() {
        lemma_label_faults_are_profile_errors(labels, k + 1);
    }
}

proof fn lemma_env_faults_are_profile_errors(env: Seq<(Seq<char>, Seq<char>)>, k: int)
    ensures
        first_env_fault(env, k) matches Some(e) ==> e is Profile,
    decreases env.len() - k,
{
    if 0 <= k < env.len() {
        lemma_env_faults_are_profile_errors(env, k + 1);
    }
}

/// Whatever is wrong with a profile, its text or its values, mounts
/// included, is reported as a profile error.
pub proof fn law_profile_failures_are_profile_errors(
    decoded: std::result::Result<ProfileView, Seq<char>>,
    host_home: Option<Seq<char>>,
    p: ProfileView,
    hosts: Seq<Seq<char>>,
)
    ensures
        parsed(decoded, host_home) matches Err(e) ==> e is Profile,
        validated(p, hosts) matches Err(e) ==> e is Profile,
{
    lemma_label_faults_are_profile_errors(p.labels, 0);
    lemma_env_faults_are_profile_errors(p.environment, 0);
}

// ---------------------------------------------------------------------
// What loading keeps and refuses
// ---------------------------------------------------------------------

/// Whether a label may stand in a profile.
pub open spec fn plain_label(key: Seq<char>, value: Seq<char>) -> bool {
    &&& 0 < key.len() && text::byte_len(key) <= 128
    &&& session::plain_name(key) && key[0] != '-'
    &&& !"cistella."@.is_prefix_of(key)
    &&& !value.contains('=') && !value.contains('\n') && !value.contains('\r') && !value.contains(
        '\0',
    )
}

proof fn lemma_plain_label(key: Seq<char>, value: Seq<char>)
    ensures
        session::label_fault(key, value) is None <==> plain_label(key, value),
{
    session::law_label_arguments_say_key_and_value(key + "="@ + value, key, value);
    session::lemma_label_split(key, value);
}

/// Whether a profile may be used with a home: an image that is not blank, a
/// command, where there is one, that is not empty, plain labels, upper-case
/// variables other than `HOME`, and valid mounts; nothing with a control
/// character where one would break a line.
pub open spec fn usable(p: ProfileView, home: Seq<char>, hosts: Seq<Seq<char>>) -> bool {
    &&& text::trimmed(p.image).len() > 0 && !text::has_control(p.image)
    &&& p.command matches Some(argv) ==> argv.len() > 0 && forall|i: int|
        0 <= i < argv.len() ==> !text::has_control(#[trigger] argv[i])
    &&& forall|i: int|
        0 <= i < p.labels.len() ==> plain_label((#[trigger] p.labels[i]).0, p.labels[i].1)
    &&& home != "/"@ && !mount::in_system(home) && !text::has_control(home)
    &&& forall|i: int|
        0 <= i < p.environment.len() ==> crate::framework::contract::upper_name(
            (#[trigger] p.environment[i]).0,
        ) && p.environment[i].0 != "HOME"@ && !p.environment[i].1.contains('\n')
            && !p.environment[i].1.contains('\r')
    &&& mount::mounts_fault(p.mounts, home, hosts) is None
}

proof fn lemma_labels_usable(labels: Seq<(Seq<char>, Seq<char>)>, k: int)
    requires
        0 <= k <= labels.len(),
    ensures
        first_label_fault(labels, k) is None <==> forall|i: int|
            k <= i < labels.len() ==> plain_label((#[trigger] labels[i]).0, labels[i].1),
    decreases labels.len() - k,
{
    if k < labels.len() {
        lemma_plain_label(labels[k].0, labels[k].1);
        lemma_labels_usable(labels, k + 1);
        if first_label_fault(labels, k) is None {
            assert forall|i: int| k <= i < labels.len() implies plain_label(
                (#[trigger] labels[i]).0,
                labels[i].1,
            ) by {}
        }
    }
}

proof fn lemma_env_usable(env: Seq<(Seq<char>, Seq<char>)>, k: int)
    requires
        0 <= k <= env.len(),
    ensures
        first_env_fault(env, k) is None <==> forall|i: int|
            k <= i < env.len() ==> crate::framework::contract::upper_name((#[trigger] env[i]).0)
                && !env[i].1.contains('\n') && !env[i].1.contains('\r'),
    decreases env.len() - k,
{
    if k < env.len() {
        crate::framework::contract::law_environment_names(env[k].0);
        lemma_env_usable(env, k + 1);
        let name = env[k].0;
        if crate::framework::contract::upper_name(name) {
            assert(!name.contains('\n') && !name.contains('\r'));
        }
    }
}

/// A profile validates exactly when its home settles and it may be used with
/// it; it then stays as it was but for the settled home.
pub proof fn law_valid_profiles_are_usable(p: ProfileView, hosts: Seq<Seq<char>>)
    ensures
        validated(p, hosts) is Ok <==> normalized_home(p.home) is Ok && usable(
            p,
            normalized_home(p.home)->Ok_0,
            hosts,
        ),
        validated(p, hosts) matches Ok(q) ==> {
            &&& q.image == p.image
            &&& q.mounts == p.mounts
            &&& q.command == p.command
            &&& q.environment == p.environment
            &&& q.acceptances == p.acceptances
            &&& q.agent == p.agent
            &&& q.labels == p.labels
            &&& normalized_home(p.home) == Ok::<Seq<char>, ErrorView>(q.home)
        },
{
    lemma_labels_usable(p.labels, 0);
    lemma_env_usable(p.environment, 0);
    table::lemma_position(p.environment, "HOME"@, 0);
    let at = table::position(p.environment, "HOME"@, 0);
    if at != -1 {
        assert(p.environment[at].0 == "HOME"@);
    }
    if let Ok(home) = normalized_home(p.home) {
        mount::law_system_roots(home);
        if validated(p, hosts) is Ok {
            assert forall|i: int|
                0 <= i < p.environment.len() implies crate::framework::contract::upper_name(
                (#[trigger] p.environment[i]).0,
            ) && p.environment[i].0 != "HOME"@ && !p.environment[i].1.contains('\n')
                && !p.environment[i].1.contains('\r') by {}
        }
    }
}

/// A home is `/home/cistella` where none is given, and else the absolute path
/// given, made canonical; templates and relative paths are refused.
pub proof fn law_homes_settle(home: Seq<char>)
    ensures
        text::trimmed(home).len() == 0 ==> normalized_home(home) == Ok::<Seq<char>, ErrorView>(
            path::canonical("/home/cistella"@),
        ),
        text::trimmed(home).len() > 0 && home[0] == '/' && !text::occurs("{{"@, home)
            ==> normalized_home(home) == Ok::<Seq<char>, ErrorView>(path::canonical(home)),
        text::trimmed(home).len() > 0 && (home[0] != '/' || text::occurs("{{"@, home))
            ==> normalized_home(home) is Err,
{
    reveal_strlit("{{");
    reveal_strlit("/home/cistella");
    let d = "/home/cistella"@;
    assert(d[0] == '/');
    if text::occurs("{{"@, d) {
        let i = choose|i: int| text::occurs_at("{{"@, d, i);
        assert(d.subrange(i, i + 2)[0] == '{');
        assert(d[i] == '{');
    }
    if text::trimmed(home).len() > 0 {
        assert(home.len() > 0) by {
            if home.len() == 0 {
                assert(text::trim_start(home) == home);
                assert(text::trim_end(home) == home);
            }
        }
    }
}

/// Reading a profile replaces a leading `~` of a mount's host by the home and
/// changes nothing else.
pub proof fn law_tildes_become_the_home(
    p: ProfileView,
    home: Option<Seq<char>>,
    q: ProfileView,
    i: int,
    rest: Seq<char>,
)
    requires
        parsed(Ok(p), home) == Ok::<ProfileView, ErrorView>(q),
        0 <= i < p.mounts.len(),
    ensures
        q.mounts.len() == p.mounts.len(),
        q.mounts[i].target == p.mounts[i].target,
        q.mounts[i].mode == p.mounts[i].mode,
        p.mounts[i].host == "~"@ ==> home == Some(q.mounts[i].host),
        p.mounts[i].host == "~/"@ + rest ==> home is Some && q.mounts[i].host == home->0 + "/"@
            + rest,
        p.mounts[i].host.len() == 0 || p.mounts[i].host[0] != '~' ==> q.mounts[i].host
            == p.mounts[i].host,
        q.image == p.image,
        q.command == p.command,
        q.environment == p.environment,
        q.acceptances == p.acceptances,
        q.agent == p.agent,
        q.home == p.home,
        q.labels == p.labels,
{
    reveal_strlit("~");
    reveal_strlit("~/");
    reveal_strlit("/");
    let host = p.mounts[i].host;
    if host == "~"@ && home is Some {
        assert(home->0 + host.skip(1) =~= home->0);
    }
    if host == "~/"@ + rest {
        assert("~/"@ =~= host.subrange(0, 2));
        assert(has_tilde(host));
        assert(host.skip(1) =~= "/"@ + rest);
        if home is Some {
            assert(home->0 + host.skip(1) =~= home->0 + "/"@ + rest);
        }
    }
    if host.len() == 0 || host[0] != '~' {
        if has_tilde(host) {
            if "~/"@.is_prefix_of(host) {
                assert(host.subrange(0, 2)[0] == '~');
            }
        }
    }
}

/// A decoded profile is refused only for a tilde without a home.
pub proof fn law_decoded_profiles_parse(p: ProfileView, home: Option<Seq<char>>)
    ensures
        parsed(Ok(p), home) is Err <==> home is None && exists|i: int|
            0 <= i < p.mounts.len() && ((#[trigger] p.mounts[i]).host == "~"@
                || "~/"@.is_prefix_of(p.mounts[i].host)),
{
}

/// A reference with a slash or the ending `.toml` is a path; any other names
/// a profile of the first configuration directory, and only without one of
/// the user's own directory.
pub proof fn law_references_lead_to_their_file(
    reference: Seq<char>,
    directories: Seq<Seq<char>>,
    xdg: Seq<char>,
)
    requires
        xdg.len() > 0 && xdg.last() != '/',
        directories.len() > 0 ==> directories[0].len() > 0 && directories[0].last() != '/',
    ensures
        reference.contains('/') || ".toml"@.is_suffix_of(reference) ==> lookup_of(
            reference,
            directories,
            xdg,
        ) == LookupView::Explicit(reference),
        !reference.contains('/') && !".toml"@.is_suffix_of(reference) && directories.len() > 0
            ==> lookup_of(reference, directories, xdg) == LookupView::Closed(
            directories[0],
            directories[0] + "/"@ + "profiles"@ + "/"@ + (reference + ".toml"@),
        ),
        !reference.contains('/') && !".toml"@.is_suffix_of(reference) && directories.len() == 0
            ==> lookup_of(reference, directories, xdg) == LookupView::Fallback(
            xdg,
            xdg + "/"@ + (reference + ".toml"@),
        ),
{
    reveal_strlit("profiles");
    if directories.len() > 0 {
        let d = directories[0] + "/"@ + "profiles"@;
        assert(d.last() == "profiles"@.last());
        assert("profiles"@.last() == 's');
    }
}

/// What was read is the profile, under its reference, or under the name of
/// the file where the reference is a path; only the user's own directory
/// falls back to the examples.
pub proof fn law_read_profiles_are_used(
    reference: Seq<char>,
    lookup: LookupView,
    raw: Seq<char>,
    m: Seq<char>,
    baked: Option<Seq<char>>,
)
    ensures
        settled(reference, lookup, ReadView::Text(raw), baked) matches Ok(x) && x.0 == raw && match lookup {
            LookupView::Explicit(path) => x.1 == registry_name(path),
            _ => x.1 == reference,
        },
        settled(reference, lookup, ReadView::Failed(m), baked) is Err,
        settled(reference, lookup, ReadView::NotFound(m), baked) is Ok <==> lookup is Fallback
            && baked is Some,
        lookup is Fallback && baked is Some ==> settled(
            reference,
            lookup,
            ReadView::NotFound(m),
            baked,
        ) == Ok::<(Seq<char>, Seq<char>), ErrorView>((baked->0, reference)),
{
}

proof fn lemma_last_dot_is(s: Seq<char>, i: int)
    requires
        0 <= i < s.len(),
        s[i] == '.',
        forall|j: int| i < j < s.len() ==> s[j] != '.',
    ensures
        last_dot(s) == i,
    decreases s.len(),
{
    if i < s.len() - 1 {
        let t = s.drop_last();
        assert forall|j: int| i < j < t.len() implies t[j] != '.' by {
            assert(t[j] == s[j]);
        }
        lemma_last_dot_is(t, i);
    }
}

/// A profile file is registered under its name without the directory and
/// without `.toml`.
pub proof fn law_registered_under_the_file_name(base: Seq<char>, name: Seq<char>)
    requires
        base.len() > 0,
        name.len() > 0,
        !name.contains('/'),
    ensures
        registry_name(base + "/"@ + (name + ".toml"@)) == name,
{
    reveal_strlit(".toml");
    reveal_strlit(".");
    reveal_strlit("..");
    let file = name + ".toml"@;
    let n = name.len() as int;
    assert(file[n] == '.');
    assert(file.len() > 5);
    assert(!file.contains('/')) by {
        if file.contains('/') {
            let k = choose|k: int| 0 <= k < file.len() && file[k] == '/';
            if k < n {
                assert(name[k] == '/');
            }
        }
    }
    path::law_file_names_end_paths(base, file);
    lemma_last_dot_is(file, n);
    assert(file.take(n) =~= name);
}

/// A resolved profile keeps its name, and its digest is that of the text it
/// was read from, whatever was expanded in it.
pub proof fn law_resolved_profiles_are_dated_by_their_text(
    raw: Seq<char>,
    name: Seq<char>,
    decoded: std::result::Result<ProfileView, Seq<char>>,
    project: Option<ProjectView>,
    supplements: Seq<(Seq<char>, Seq<char>)>,
    host_home: Option<Seq<char>>,
)
    ensures
        expanded_from(raw, name, decoded, project, supplements, host_home) matches Ok(x) ==> x.2
            == name && x.1 == digest::hex_text(
            digest::sha256_of(vstd::utf8::encode_utf8(raw)),
        ) && parsed(decoded, host_home) is Ok && template::expanded(
            parsed(decoded, host_home)->Ok_0,
            project,
            supplements,
            host_home,
        ) == Ok::<ProfileView, ErrorView>(x.0),
{
}

/// The user's configuration is under `XDG_CONFIG_HOME`, or else under
/// `.config` of the home.
pub proof fn law_configuration_base(xdg: Option<Seq<char>>, home: Option<Seq<char>>)
    ensures
        xdg is Some && xdg->0.len() > 0 ==> config_base(xdg, home) == Ok::<Seq<char>, ErrorView>(
            xdg->0,
        ),
        (xdg is None || xdg->0.len() == 0) && home is Some && home->0.len() > 0 && home->0.last()
            != '/' ==> config_base(xdg, home) == Ok::<Seq<char>, ErrorView>(
            home->0 + "/"@ + ".config"@,
        ),
        (xdg is None || xdg->0.len() == 0) && home is None ==> config_base(xdg, home) is Err,
{
}

/// Seeding fails exactly when an example could not be written.
pub proof fn law_seeding_needs_every_example(outcomes: Seq<SeedOutcome>, k: int)
    requires
        0 <= k <= outcomes.len(),
    ensures
        seed_fault(outcomes, k) is None <==> forall|i: int|
            k <= i < outcomes.len() ==> (#[trigger] outcomes[i]) is Present,
    decreases outcomes.len() - k,
{
    if k < outcomes.len() {
        law_seeding_needs_every_example(outcomes, k + 1);
    }
}

/// A view says what the fields hold, each under its own name.
pub proof fn law_views_say_the_fields(
    credential_surface: CredentialSurface,
    profile: Profile,
    lookup: Lookup,
    read_outcome: ReadOutcome,
    expanded: Expanded,
)
    ensures
        credential_surface matches CredentialSurface::Absent ==> credential_surface.deep_view() is None,
        credential_surface matches CredentialSurface::Agent { ssh_agent } ==> credential_surface.deep_view() == Some(ssh_agent@),
        profile.deep_view().image == profile.image@,
        profile.deep_view().mounts == profile.mounts.deep_view(),
        profile.deep_view().command == profile.command.deep_view(),
        profile.deep_view().environment == profile.environment_assignments.deep_view(),
        profile.deep_view().acceptances == profile.environment_acceptances.deep_view(),
        profile.deep_view().agent == profile.credential_surface.deep_view(),
        profile.deep_view().home == profile.container_home@,
        profile.deep_view().labels == profile.labels.deep_view(),
        lookup matches Lookup::Explicit { path } ==> lookup.deep_view() == LookupView::Explicit(path@),
        lookup matches Lookup::Closed { directory, path } ==> lookup.deep_view() == LookupView::Closed(directory@, path@),
        lookup matches Lookup::Fallback { directory, path } ==> lookup.deep_view() == LookupView::Fallback(directory@, path@),
        read_outcome matches ReadOutcome::Text(s) ==> read_outcome.deep_view() == ReadView::Text(s@),
        read_outcome matches ReadOutcome::NotFound(m) ==> read_outcome.deep_view() == ReadView::NotFound(m@),
        read_outcome matches ReadOutcome::Failed(m) ==> read_outcome.deep_view() == ReadView::Failed(m@),
        expanded.deep_view() == (expanded.profile.deep_view(), expanded.digest@, expanded.name@),
{
}

} // verus!
