//! Host preflight: command presence, cgroup v2, subordinate ids, `podman
//! info`, `podman unshare`, and the user's systemd container directory.
//!
//! The host is probed one step at a time: [`run_preflight`] judges what was
//! observed so far and names the next probe, so that nothing is run after a
//! failed check.

use vstd::prelude::*;

use crate::error::{CistellaError, ErrorView, Result};
use crate::path;
use crate::text;

verus! {

/// What looking up a command, or running one, came to.
#[derive(Debug)]
pub enum Run {
    /// The command could not be run, with the system's text.
    Broken(String),
    /// It exited nonzero, with its diagnostics.
    Nonzero(String),
    /// It exited zero, with its output.
    Done(Vec<u8>),
}

/// What a run came to.
pub enum RunView {
    Broken(Seq<char>),
    Nonzero(Seq<char>),
    Done(Seq<u8>),
}

impl DeepView for Run {
    type V = RunView;

    open spec fn deep_view(&self) -> RunView {
        match *self {
            Run::Broken(m) => RunView::Broken(m@),
            Run::Nonzero(m) => RunView::Nonzero(m@),
            Run::Done(out) => RunView::Done(out@),
        }
    }
}

/// What reading a file came to.
#[derive(Debug)]
pub enum FileText {
    /// The file could not be read, with the system's text.
    Broken(String),
    /// The file's text.
    Content(String),
}

/// What reading a file came to.
pub enum FileView {
    Broken(Seq<char>),
    Content(Seq<char>),
}

impl DeepView for FileText {
    type V = FileView;

    open spec fn deep_view(&self) -> FileView {
        match *self {
            FileText::Broken(m) => FileView::Broken(m@),
            FileText::Content(t) => FileView::Content(t@),
        }
    }
}

/// The next thing to find out about the host.
#[derive(Debug, PartialEq, Eq, Structural, Clone, Copy)]
pub enum Probe {
    /// `which` of the command at this position of the list.
    Command(usize),
    /// Text of `/proc/filesystems`.
    Filesystems,
    /// Presence of `/sys/fs/cgroup/cgroup.controllers`.
    Controllers,
    /// The invoking user: `$USER`, else `id -un`.
    User,
    /// Text of `/etc/subuid`.
    SubUid,
    /// Text of `/etc/subgid`.
    SubGid,
    /// `podman info --format json`.
    Info,
    /// `podman unshare id -u`.
    Unshare,
    /// `$HOME`.
    Home,
    /// The systemd directory below the home, created when absent.
    SystemdDir,
}

/// Commands the host must have, in checking order.
pub open spec fn needed_commands() -> Seq<Seq<char>> {
    seq!["podman"@, "newuidmap"@, "newgidmap"@, "slirp4netns"@, "fuse-overlayfs"@]
}

/// Name of a needed command.
pub fn needed_command(i: usize) -> (name: &'static str)
    requires
        i < 5,
    ensures
        name@ == needed_commands()[i as int],
{
    if i == 0 {
        "podman"
    } else if i == 1 {
        "newuidmap"
    } else if i == 2 {
        "newgidmap"
    } else if i == 3 {
        "slirp4netns"
    } else {
        "fuse-overlayfs"
    }
}

/// Everything observed so far; what was not observed yet is absent.
#[derive(Debug)]
pub struct HostReport {
    /// Outcome of `which` for the needed commands, in their order.
    pub commands: Vec<Run>,
    /// Text of `/proc/filesystems`.
    pub filesystems: Option<FileText>,
    /// Whether the cgroup controllers file exists.
    pub controllers: Option<bool>,
    /// The invoking user's name; empty when undetermined.
    pub user: Option<String>,
    /// Text of `/etc/subuid`.
    pub subuid: Option<FileText>,
    /// Text of `/etc/subgid`.
    pub subgid: Option<FileText>,
    /// Outcome of `podman info`.
    pub info: Option<Run>,
    /// Outcome of `podman unshare`.
    pub unshare: Option<Run>,
    /// The home directory, if any.
    pub home: Option<Option<String>>,
    /// Text of a failed creation of the systemd directory, if any.
    pub systemd_dir: Option<Option<String>>,
}

/// What a host report says.
pub struct ReportView {
    pub commands: Seq<RunView>,
    pub filesystems: Option<FileView>,
    pub controllers: Option<bool>,
    pub user: Option<Seq<char>>,
    pub subuid: Option<FileView>,
    pub subgid: Option<FileView>,
    pub info: Option<RunView>,
    pub unshare: Option<RunView>,
    pub home: Option<Option<Seq<char>>>,
    pub systemd_dir: Option<Option<Seq<char>>>,
}

impl DeepView for HostReport {
    type V = ReportView;

    open spec fn deep_view(&self) -> ReportView {
        ReportView {
            commands: self.commands.deep_view(),
            filesystems: self.filesystems.deep_view(),
            controllers: self.controllers,
            user: self.user.deep_view(),
            subuid: self.subuid.deep_view(),
            subgid: self.subgid.deep_view(),
            info: self.info.deep_view(),
            unshare: self.unshare.deep_view(),
            home: self.home.deep_view(),
            systemd_dir: self.systemd_dir.deep_view(),
        }
    }
}

/// A preflight refusal.
pub open spec fn refused(m: Seq<char>) -> Option<ErrorView> {
    Some(ErrorView::Preflight(m))
}

/// Judgement of one command lookup.
pub open spec fn command_fault(bin: Seq<char>, run: RunView) -> Option<ErrorView> {
    match run {
        RunView::Broken(m) => refused("which "@ + bin + " failed: "@ + m),
        RunView::Nonzero(_) => refused(bin + " not found in PATH"@),
        RunView::Done(_) => None,
    }
}

fn check_command(bin: &str, run: &Run) -> (r: Result<()>)
    ensures
        match command_fault(bin@, run.deep_view()) {
            Some(e) => r matches Err(x) && x@ == e,
            None => r is Ok,
        },
{
    match run {
        Run::Broken(m) => Err(
            CistellaError::Preflight(text::cat4("which ", bin, " failed: ", m.as_str())),
        ),
        Run::Nonzero(_) => Err(CistellaError::Preflight(text::cat(bin, " not found in PATH"))),
        Run::Done(_) => Ok(()),
    }
}

/// Judgement of `/proc/filesystems`.
pub open spec fn filesystems_fault(file: FileView) -> Option<ErrorView> {
    match file {
        FileView::Broken(m) => refused("read /proc/filesystems: "@ + m),
        FileView::Content(t) => if text::occurs("cgroup2"@, t) {
            None
        } else {
            refused("cgroup2 not listed in /proc/filesystems"@)
        },
    }
}

fn check_filesystems(file: &FileText) -> (r: Result<()>)
    ensures
        match filesystems_fault(file.deep_view()) {
            Some(e) => r matches Err(x) && x@ == e,
            None => r is Ok,
        },
{
    match file {
        FileText::Broken(m) => Err(
            CistellaError::Preflight(text::cat("read /proc/filesystems: ", m.as_str())),
        ),
        FileText::Content(t) => if text::contains(t.as_str(), "cgroup2") {
            Ok(())
        } else {
            Err(CistellaError::Preflight("cgroup2 not listed in /proc/filesystems".to_owned()))
        },
    }
}

/// Whether a line at or after `k` begins with the prefix.
pub open spec fn some_line_starts(lines: Seq<Seq<char>>, prefix: Seq<char>, k: int) -> bool
    decreases lines.len() - k,
{
    if k < 0 || k >= lines.len() {
        false
    } else {
        prefix.is_prefix_of(lines[k]) || some_line_starts(lines, prefix, k + 1)
    }
}

/// Judgement of a subordinate id file for a user.
pub open spec fn subid_fault(file: Seq<char>, user: Seq<char>, data: FileView) -> Option<ErrorView> {
    match data {
        FileView::Broken(m) => refused("read "@ + file + ": "@ + m),
        FileView::Content(t) => if some_line_starts(text::lines_of(t), user + ":"@, 0) {
            None
        } else {
            refused(file + " missing entry for "@ + user)
        },
    }
}

fn check_subid(file: &str, user: &str, data: &FileText) -> (r: Result<()>)
    ensures
        match subid_fault(file@, user@, data.deep_view()) {
            Some(e) => r matches Err(x) && x@ == e,
            None => r is Ok,
        },
{
    match data {
        FileText::Broken(m) => Err(
            CistellaError::Preflight(text::cat4("read ", file, ": ", m.as_str())),
        ),
        FileText::Content(t) => {
            let lines = text::lines(t.as_str());
            let prefix = text::cat(user, ":");
            let ghost all = text::lines_of(t@);
            let mut k: usize = 0;
            while k < lines.len()
                invariant
                    lines.deep_view() == all,
                    prefix@ == user@ + ":"@,
                    k <= lines@.len(),
                    all == text::lines_of(t@),
                    data.deep_view() == FileView::Content(t@),
                    some_line_starts(all, user@ + ":"@, 0) == some_line_starts(
                        all,
                        user@ + ":"@,
                        k as int,
                    ),
                decreases lines.len() - k,
            {
                assert(all[k as int] == lines@[k as int]@);
                if text::starts_with(lines[k].as_str(), prefix.as_str()) {
                    return Ok(());
                }
                k = k + 1;
            }
            Err(CistellaError::Preflight(text::cat3(file, " missing entry for ", user)))
        },
    }
}

// ---------------------------------------------------------------------
// podman info
// ---------------------------------------------------------------------

/// What `serde_json::from_slice` says of bytes that are no JSON value: the
/// error's text.
pub uninterp spec fn json_fault(bytes: Seq<u8>) -> Option<Seq<char>>;

/// The boolean that `serde_json`'s `Value::pointer` finds at a pointer in
/// the JSON value of the bytes; none where there is no such boolean.
pub uninterp spec fn json_bool(bytes: Seq<u8>, pointer: Seq<char>) -> Option<bool>;

/// The text that `serde_json`'s `Value::pointer` finds at a pointer in the
/// JSON value of the bytes; none where there is no such text.
pub uninterp spec fn json_text(bytes: Seq<u8>, pointer: Seq<char>) -> Option<Seq<char>>;

/// A text in lower case, as `str::to_lowercase` gives it.
pub uninterp spec fn lowercase(s: Seq<char>) -> Seq<char>;

/// Calls `serde_json::from_slice` for a `Value` and hands back the text of
/// its error, if it gives one.
#[verifier::external_body]
fn json_fault_of(bytes: &[u8]) -> (r: Option<String>)
    ensures
        r.deep_view() == json_fault(bytes@),
{
    serde_json::from_slice::<serde_json::Value>(bytes).err().map(|e| e.to_string())
}

/// Calls `serde_json::from_slice`, then `Value::pointer` and
/// `Value::as_bool`.
#[verifier::external_body]
fn json_bool_at(bytes: &[u8], pointer: &str) -> (r: Option<bool>)
    ensures
        r == json_bool(bytes@, pointer@),
{
    let value: serde_json::Value = serde_json::from_slice(bytes).ok()?;
    value.pointer(pointer)?.as_bool()
}

/// Calls `serde_json::from_slice`, then `Value::pointer` and
/// `Value::as_str`.
#[verifier::external_body]
fn json_text_at(bytes: &[u8], pointer: &str) -> (r: Option<String>)
    ensures
        r.deep_view() == json_text(bytes@, pointer@),
{
    let value: serde_json::Value = serde_json::from_slice(bytes).ok()?;
    value.pointer(pointer)?.as_str().map(str::to_owned)
}

/// Calls `str::to_lowercase` of std.
#[verifier::external_body]
fn lowercase_of(s: &str) -> (r: String)
    ensures
        r@ == lowercase(s@),
{
    s.to_lowercase()
}

/// The facts of `podman info` that decide.
#[derive(Debug)]
pub struct PodmanFacts {
    /// `host.security.rootless`; false when absent.
    pub rootless: bool,
    /// `host.cgroupVersion`; empty when absent.
    pub cgroup: String,
    /// `store.graphDriverName`; empty when absent.
    pub driver: String,
    /// The driver's name in lower case.
    pub driver_lower: String,
    /// `host.networkBackend`; empty when absent.
    pub backend: String,
    /// The backend's name in lower case.
    pub backend_lower: String,
}

/// What the deciding facts say.
pub struct FactsView {
    pub rootless: bool,
    pub cgroup: Seq<char>,
    pub driver: Seq<char>,
    pub driver_lower: Seq<char>,
    pub backend: Seq<char>,
    pub backend_lower: Seq<char>,
}

impl DeepView for PodmanFacts {
    type V = FactsView;

    open spec fn deep_view(&self) -> FactsView {
        FactsView {
            rootless: self.rootless,
            cgroup: self.cgroup@,
            driver: self.driver@,
            driver_lower: self.driver_lower@,
            backend: self.backend@,
            backend_lower: self.backend_lower@,
        }
    }
}

/// First refusal among the deciding facts.
pub open spec fn facts_fault(f: FactsView) -> Option<ErrorView> {
    if !f.rootless {
        refused("podman info host.security.rootless != true"@)
    } else if f.cgroup != "v2"@ {
        refused("podman info host.cgroupVersion != v2: "@ + f.cgroup)
    } else if !text::occurs("overlay"@, f.driver_lower) {
        refused("podman info store.graphDriverName not overlay: "@ + f.driver)
    } else if !text::occurs("netavark"@, f.backend_lower) {
        refused("podman info host.networkBackend not netavark: "@ + f.backend)
    } else {
        None
    }
}

/// Judges the deciding facts of `podman info`: rootless, cgroup v2, an
/// overlay store, and a netavark network.
pub fn check_facts(f: &PodmanFacts) -> (r: Result<()>)
    ensures
        match facts_fault(f.deep_view()) {
            Some(e) => r matches Err(x) && x@ == e,
            None => r is Ok,
        },
{
    if !f.rootless {
        return Err(
            CistellaError::Preflight("podman info host.security.rootless != true".to_owned()),
        );
    }
    if !text::eq(f.cgroup.as_str(), "v2") {
        return Err(
            CistellaError::Preflight(
                text::cat("podman info host.cgroupVersion != v2: ", f.cgroup.as_str()),
            ),
        );
    }
    if !text::contains(f.driver_lower.as_str(), "overlay") {
        return Err(
            CistellaError::Preflight(
                text::cat("podman info store.graphDriverName not overlay: ", f.driver.as_str()),
            ),
        );
    }
    if !text::contains(f.backend_lower.as_str(), "netavark") {
        return Err(
            CistellaError::Preflight(
                text::cat("podman info host.networkBackend not netavark: ", f.backend.as_str()),
            ),
        );
    }
    Ok(())
}

/// Text found at a pointer, empty when there is none.
pub open spec fn text_at(bytes: Seq<u8>, pointer: Seq<char>) -> Seq<char> {
    match json_text(bytes, pointer) {
        Some(t) => t,
        None => ""@,
    }
}

/// The deciding facts in the output of `podman info`.
pub open spec fn facts_in(bytes: Seq<u8>) -> FactsView {
    let driver = text_at(bytes, "/store/graphDriverName"@);
    let backend = text_at(bytes, "/host/networkBackend"@);
    FactsView {
        rootless: json_bool(bytes, "/host/security/rootless"@) == Some(true),
        cgroup: text_at(bytes, "/host/cgroupVersion"@),
        driver,
        driver_lower: lowercase(driver),
        backend,
        backend_lower: lowercase(backend),
    }
}

fn text_or_empty(bytes: &[u8], pointer: &str) -> (s: String)
    ensures
        s@ == text_at(bytes@, pointer@),
{
    match json_text_at(bytes, pointer) {
        Some(t) => t,
        None => "".to_owned(),
    }
}

/// Judgement of `podman info`.
pub open spec fn info_fault(run: RunView) -> Option<ErrorView> {
    match run {
        RunView::Broken(m) => refused("podman info failed: "@ + m),
        RunView::Nonzero(m) => refused("podman info non-zero: "@ + m),
        RunView::Done(out) => match json_fault(out) {
            Some(m) => refused("podman info json parse: "@ + m),
            None => facts_fault(facts_in(out)),
        },
    }
}

/// Judges the outcome of `podman info --format json`.
pub fn check_podman_info(run: &Run) -> (r: Result<()>)
    ensures
        match info_fault(run.deep_view()) {
            Some(e) => r matches Err(x) && x@ == e,
            None => r is Ok,
        },
{
    match run {
        Run::Broken(m) => Err(
            CistellaError::Preflight(text::cat("podman info failed: ", m.as_str())),
        ),
        Run::Nonzero(m) => Err(
            CistellaError::Preflight(text::cat("podman info non-zero: ", m.as_str())),
        ),
        Run::Done(out) => {
            match json_fault_of(out) {
                Some(m) => {
                    return Err(
                        CistellaError::Preflight(text::cat("podman info json parse: ", m.as_str())),
                    );
                },
                None => {},
            }
            let rootless = match json_bool_at(out, "/host/security/rootless") {
                Some(b) => b,
                None => false,
            };
            let driver = text_or_empty(out, "/store/graphDriverName");
            let backend = text_or_empty(out, "/host/networkBackend");
            let facts = PodmanFacts {
                rootless,
                cgroup: text_or_empty(out, "/host/cgroupVersion"),
                driver_lower: lowercase_of(driver.as_str()),
                driver,
                backend_lower: lowercase_of(backend.as_str()),
                backend,
            };
            check_facts(&facts)
        },
    }
}

/// Judgement of `podman unshare`.
pub open spec fn unshare_fault(run: RunView) -> Option<ErrorView> {
    match run {
        RunView::Broken(m) => refused("podman unshare failed: "@ + m),
        RunView::Nonzero(m) => refused("podman unshare non-zero: "@ + m),
        RunView::Done(_) => None,
    }
}

fn check_podman_unshare(run: &Run) -> (r: Result<()>)
    ensures
        match unshare_fault(run.deep_view()) {
            Some(e) => r matches Err(x) && x@ == e,
            None => r is Ok,
        },
{
    match run {
        Run::Broken(m) => Err(
            CistellaError::Preflight(text::cat("podman unshare failed: ", m.as_str())),
        ),
        Run::Nonzero(m) => Err(
            CistellaError::Preflight(text::cat("podman unshare non-zero: ", m.as_str())),
        ),
        Run::Done(_) => Ok(()),
    }
}

/// The user's systemd container directory.
pub open spec fn systemd_path(home: Seq<char>) -> Seq<char> {
    path::joined(home, ".config/containers/systemd"@)
}

/// Path of the user's systemd container directory.
pub fn systemd_dir(home: &str) -> (p: String)
    ensures
        p@ == systemd_path(home@),
{
    path::join(home, ".config/containers/systemd")
}

// ---------------------------------------------------------------------
// The sequence
// ---------------------------------------------------------------------

/// First refusal among the command lookups at or after `k`.
pub open spec fn commands_fault(runs: Seq<RunView>, k: int) -> Option<ErrorView>
    decreases 5 - k,
{
    if k < 0 || k >= 5 || k >= runs.len() {
        None
    } else {
        match command_fault(needed_commands()[k], runs[k]) {
            Some(e) => Some(e),
            None => commands_fault(runs, k + 1),
        }
    }
}

/// Where the preflight stands: a refusal, the next probe, or passed.
pub open spec fn verdict(h: ReportView) -> std::result::Result<Option<Probe>, ErrorView> {
    match commands_fault(h.commands, 0) {
        Some(e) => Err(e),
        None => if h.commands.len() < 5 {
            Ok(Some(Probe::Command(h.commands.len() as usize)))
        } else {
            host_verdict(h)
        },
    }
}

/// Where the preflight stands once the commands are there.
pub open spec fn host_verdict(h: ReportView) -> std::result::Result<Option<Probe>, ErrorView> {
    match h.filesystems {
        None => Ok(Some(Probe::Filesystems)),
        Some(f) => match filesystems_fault(f) {
            Some(e) => Err(e),
            None => match h.controllers {
                None => Ok(Some(Probe::Controllers)),
                Some(false) => Err(
                    ErrorView::Preflight(
                        "/sys/fs/cgroup/cgroup.controllers missing (not cgroup v2)"@,
                    ),
                ),
                Some(true) => user_verdict(h),
            },
        },
    }
}

/// Where the preflight stands once cgroup v2 is there.
pub open spec fn user_verdict(h: ReportView) -> std::result::Result<Option<Probe>, ErrorView> {
    match h.user {
        None => Ok(Some(Probe::User)),
        Some(user) => if user.len() == 0 {
            Err(ErrorView::Preflight("cannot determine invoking user"@))
        } else {
            match h.subuid {
                None => Ok(Some(Probe::SubUid)),
                Some(d) => match subid_fault("/etc/subuid"@, user, d) {
                    Some(e) => Err(e),
                    None => match h.subgid {
                        None => Ok(Some(Probe::SubGid)),
                        Some(d) => match subid_fault("/etc/subgid"@, user, d) {
                            Some(e) => Err(e),
                            None => podman_verdict(h),
                        },
                    },
                },
            }
        },
    }
}

/// Where the preflight stands once the subordinate ids are there.
pub open spec fn podman_verdict(h: ReportView) -> std::result::Result<Option<Probe>, ErrorView> {
    match h.info {
        None => Ok(Some(Probe::Info)),
        Some(run) => match info_fault(run) {
            Some(e) => Err(e),
            None => match h.unshare {
                None => Ok(Some(Probe::Unshare)),
                Some(run) => match unshare_fault(run) {
                    Some(e) => Err(e),
                    None => home_verdict(h),
                },
            },
        },
    }
}

/// Where the preflight stands once podman answers.
pub open spec fn home_verdict(h: ReportView) -> std::result::Result<Option<Probe>, ErrorView> {
    match h.home {
        None => Ok(Some(Probe::Home)),
        Some(None) => Err(ErrorView::Preflight("HOME not set"@)),
        Some(Some(home)) => match h.systemd_dir {
            None => Ok(Some(Probe::SystemdDir)),
            Some(Some(m)) => Err(
                ErrorView::Preflight("create "@ + systemd_path(home) + ": "@ + m),
            ),
            Some(None) => Ok(None),
        },
    }
}

/// Whether a step is the modelled one.
pub open spec fn step_agrees(
    r: Result<Option<Probe>>,
    model: std::result::Result<Option<Probe>, ErrorView>,
) -> bool {
    match (r, model) {
        (Ok(a), Ok(b)) => a == b,
        (Err(a), Err(b)) => a@ == b,
        _ => false,
    }
}

/// Judges the host preflight as far as it was observed.
///
/// Checks, in order: command presence, cgroup v2, the invoking user's
/// `subuid`/`subgid`, `podman info`, `podman unshare`, and
/// `~/.config/containers/systemd/`. Names the next probe, or reports that
/// every check passed; a failed check refuses at once.
pub fn run_preflight(report: &HostReport) -> (r: Result<Option<Probe>>)
    ensures
        step_agrees(r, verdict(report.deep_view())),
{
    let ghost h = report.deep_view();
    let ghost runs = h.commands;
    let mut k: usize = 0;
    while k < 5 && k < report.commands.len()
        invariant
            runs == report.commands.deep_view(),
            h == report.deep_view(),
            h.commands == runs,
            k <= 5,
            k <= report.commands@.len(),
            commands_fault(runs, 0) == commands_fault(runs, k as int),
        decreases 5 - k,
    {
        assert(runs[k as int] == report.commands@[k as int].deep_view());
        match check_command(needed_command(k), &report.commands[k]) {
            Ok(_) => {},
            Err(e) => {
                return Err(e);
            },
        }
        k = k + 1;
    }
    assert(commands_fault(runs, k as int) is None);
    if report.commands.len() < 5 {
        return Ok(Some(Probe::Command(report.commands.len())));
    }
    match &report.filesystems {
        None => {
            return Ok(Some(Probe::Filesystems));
        },
        Some(f) => match check_filesystems(f) {
            Ok(_) => {},
            Err(e) => {
                return Err(e);
            },
        },
    }
    match report.controllers {
        None => {
            return Ok(Some(Probe::Controllers));
        },
        Some(present) => {
            if !present {
                return Err(
                    CistellaError::Preflight(
                        "/sys/fs/cgroup/cgroup.controllers missing (not cgroup v2)".to_owned(),
                    ),
                );
            }
        },
    }
    check_user(report)
}

fn check_user(report: &HostReport) -> (r: Result<Option<Probe>>)
    ensures
        step_agrees(r, user_verdict(report.deep_view())),
{
    let user = match &report.user {
        None => {
            return Ok(Some(Probe::User));
        },
        Some(user) => user,
    };
    if user.as_str().is_empty() {
        return Err(CistellaError::Preflight("cannot determine invoking user".to_owned()));
    }
    match &report.subuid {
        None => {
            return Ok(Some(Probe::SubUid));
        },
        Some(d) => match check_subid("/etc/subuid", user.as_str(), d) {
            Ok(_) => {},
            Err(e) => {
                return Err(e);
            },
        },
    }
    match &report.subgid {
        None => {
            return Ok(Some(Probe::SubGid));
        },
        Some(d) => match check_subid("/etc/subgid", user.as_str(), d) {
            Ok(_) => {},
            Err(e) => {
                return Err(e);
            },
        },
    }
    check_podman(report)
}

fn check_podman(report: &HostReport) -> (r: Result<Option<Probe>>)
    ensures
        step_agrees(r, podman_verdict(report.deep_view())),
{
    match &report.info {
        None => {
            return Ok(Some(Probe::Info));
        },
        Some(run) => match check_podman_info(run) {
            Ok(_) => {},
            Err(e) => {
                return Err(e);
            },
        },
    }
    match &report.unshare {
        None => {
            return Ok(Some(Probe::Unshare));
        },
        Some(run) => match check_podman_unshare(run) {
            Ok(_) => {},
            Err(e) => {
                return Err(e);
            },
        },
    }
    match &report.home {
        None => Ok(Some(Probe::Home)),
        Some(None) => Err(CistellaError::Preflight("HOME not set".to_owned())),
        Some(Some(home)) => match &report.systemd_dir {
            None => Ok(Some(Probe::SystemdDir)),
            Some(Some(m)) => Err(
                CistellaError::Preflight(
                    text::cat4("create ", systemd_dir(home.as_str()).as_str(), ": ", m.as_str()),
                ),
            ),
            Some(None) => Ok(None),
        },
    }
}

proof fn lemma_commands_fault(runs: Seq<RunView>, k: int, i: int)
    requires
        commands_fault(runs, k) is None,
        0 <= k <= i < 5,
        i < runs.len(),
    ensures
        runs[i] is Done,
    decreases i - k,
{
    if k < i {
        lemma_commands_fault(runs, k + 1, i);
    }
}

/// A host that passes has every needed command, cgroup controllers, rootless
/// podman on cgroup v2 with an overlay store and a netavark network, a
/// working `podman unshare`, and a known user.
pub proof fn law_passed_host(h: ReportView)
    requires
        verdict(h) == Ok::<Option<Probe>, ErrorView>(None),
    ensures
        h.commands.len() >= 5,
        forall|i: int| 0 <= i < 5 ==> (#[trigger] h.commands[i]) is Done,
        h.controllers == Some(true),
        h.info matches Some(RunView::Done(out)) && json_fault(out) is None && json_bool(
            out,
            "/host/security/rootless"@,
        ) == Some(true) && text_at(out, "/host/cgroupVersion"@) == "v2"@ && text::occurs(
            "overlay"@,
            lowercase(text_at(out, "/store/graphDriverName"@)),
        ) && text::occurs("netavark"@, lowercase(text_at(out, "/host/networkBackend"@))),
        h.unshare matches Some(RunView::Done(_)),
        h.user is Some && h.user->0.len() > 0,
{
    assert forall|i: int| 0 <= i < 5 implies (#[trigger] h.commands[i]) is Done by {
        lemma_commands_fault(h.commands, 0, i);
    }
}

proof fn lemma_line_starts(lines: Seq<Seq<char>>, prefix: Seq<char>, k: int)
    requires
        0 <= k <= lines.len(),
    ensures
        some_line_starts(lines, prefix, k) <==> exists|i: int|
            k <= i < lines.len() && prefix.is_prefix_of(#[trigger] lines[i]),
    decreases lines.len() - k,
{
    if k < lines.len() {
        lemma_line_starts(lines, prefix, k + 1);
        if prefix.is_prefix_of(lines[k]) {
            assert(some_line_starts(lines, prefix, k));
        }
    }
}

/// Whether a file of subordinate ids has a line of the user.
pub open spec fn lists_user(file: Option<FileView>, user: Seq<char>) -> bool {
    file matches Some(FileView::Content(t)) && exists|i: int|
        0 <= i < text::lines_of(t).len() && (user + ":"@).is_prefix_of(
            #[trigger] text::lines_of(t)[i],
        )
}

/// Whether a report shows a host fit for sessions: every program, cgroup v2,
/// a user with subordinate user and group ids, a rootless podman on cgroup v2
/// with overlay storage and netavark that can unshare, a home, and a
/// directory for units.
pub open spec fn fit(h: ReportView) -> bool {
    &&& h.commands.len() >= 5 && forall|i: int| 0 <= i < 5 ==> (#[trigger] h.commands[i]) is Done
    &&& h.filesystems matches Some(FileView::Content(t)) && text::occurs("cgroup2"@, t)
    &&& h.controllers == Some(true)
    &&& h.user is Some && h.user->0.len() > 0
    &&& lists_user(h.subuid, h.user->0)
    &&& lists_user(h.subgid, h.user->0)
    &&& h.info matches Some(RunView::Done(out)) && json_fault(out) is None && json_bool(
        out,
        "/host/security/rootless"@,
    ) == Some(true) && text_at(out, "/host/cgroupVersion"@) == "v2"@ && text::occurs(
        "overlay"@,
        lowercase(text_at(out, "/store/graphDriverName"@)),
    ) && text::occurs("netavark"@, lowercase(text_at(out, "/host/networkBackend"@)))
    &&& h.unshare matches Some(RunView::Done(_))
    &&& h.home matches Some(Some(_))
    &&& h.systemd_dir == Some(None::<Seq<char>>)
}

proof fn lemma_commands_pass(runs: Seq<RunView>, k: int)
    requires
        0 <= k <= 5,
        runs.len() >= 5,
        forall|i: int| 0 <= i < 5 ==> (#[trigger] runs[i]) is Done,
    ensures
        commands_fault(runs, k) is None,
    decreases 5 - k,
{
    if k < 5 {
        assert(runs[k] is Done);
        lemma_commands_pass(runs, k + 1);
    }
}

/// A host passes exactly when its report shows it fit.
pub proof fn law_fit_hosts_pass(h: ReportView)
    ensures
        verdict(h) == Ok::<Option<Probe>, ErrorView>(None) <==> fit(h),
{
    if let Some(FileView::Content(t)) = h.subuid {
        if h.user is Some {
            lemma_line_starts(text::lines_of(t), h.user->0 + ":"@, 0);
        }
    }
    if let Some(FileView::Content(t)) = h.subgid {
        if h.user is Some {
            lemma_line_starts(text::lines_of(t), h.user->0 + ":"@, 0);
        }
    }
    if verdict(h) == Ok::<Option<Probe>, ErrorView>(None) {
        law_passed_host(h);
    }
    if fit(h) {
        lemma_commands_pass(h.commands, 0);
    }
}

/// Preflight asks only for what the report does not hold yet.
pub proof fn law_preflight_asks_for_what_is_missing(h: ReportView, p: Probe)
    requires
        verdict(h) == Ok::<Option<Probe>, ErrorView>(Some(p)),
    ensures
        match p {
            Probe::Command(i) => i == h.commands.len() && i < 5,
            Probe::Filesystems => h.filesystems is None,
            Probe::Controllers => h.controllers is None,
            Probe::User => h.user is None,
            Probe::SubUid => h.subuid is None,
            Probe::SubGid => h.subgid is None,
            Probe::Info => h.info is None,
            Probe::Unshare => h.unshare is None,
            Probe::Home => h.home is None,
            Probe::SystemdDir => h.systemd_dir is None,
        },
{
}

/// A host that fails preflight is refused as such, whatever it lacks.
pub proof fn law_unfit_hosts_are_refused_by_preflight(h: ReportView)
    ensures
        verdict(h) matches Err(e) ==> e is Preflight,
{
    lemma_command_refusals(h.commands, 0);
}

proof fn lemma_command_refusals(runs: Seq<RunView>, k: int)
    ensures
        commands_fault(runs, k) matches Some(e) ==> e is Preflight,
    decreases 5 - k,
{
    if 0 <= k < 5 && k < runs.len() {
        lemma_command_refusals(runs, k + 1);
    }
}

/// The programs that preflight looks for.
pub proof fn law_needed_programs()
    ensures
        needed_commands() == seq![
            "podman"@,
            "newuidmap"@,
            "newgidmap"@,
            "slirp4netns"@,
            "fuse-overlayfs"@,
        ],
{
}

/// Units of the user are under the configuration directory of the home.
pub proof fn law_units_are_under_the_home(home: Seq<char>)
    requires
        home.len() > 0,
        home.last() != '/',
    ensures
        systemd_path(home) == home + "/"@ + ".config/containers/systemd"@,
{
}

/// A view says what the fields hold, each under its own name.
pub proof fn law_views_say_the_fields(
    run: Run,
    file_text: FileText,
    host_report: HostReport,
    podman_facts: PodmanFacts,
)
    ensures
        run matches Run::Broken(m) ==> run.deep_view() == RunView::Broken(m@),
        run matches Run::Nonzero(m) ==> run.deep_view() == RunView::Nonzero(m@),
        run matches Run::Done(out) ==> run.deep_view() == RunView::Done(out@),
        file_text matches FileText::Broken(m) ==> file_text.deep_view() == FileView::Broken(m@),
        file_text matches FileText::Content(t) ==> file_text.deep_view() == FileView::Content(t@),
        host_report.deep_view().commands == host_report.commands.deep_view(),
        host_report.deep_view().filesystems == host_report.filesystems.deep_view(),
        host_report.deep_view().controllers == host_report.controllers,
        host_report.deep_view().user == host_report.user.deep_view(),
        host_report.deep_view().subuid == host_report.subuid.deep_view(),
        host_report.deep_view().subgid == host_report.subgid.deep_view(),
        host_report.deep_view().info == host_report.info.deep_view(),
        host_report.deep_view().unshare == host_report.unshare.deep_view(),
        host_report.deep_view().home == host_report.home.deep_view(),
        host_report.deep_view().systemd_dir == host_report.systemd_dir.deep_view(),
        podman_facts.deep_view().rootless == podman_facts.rootless,
        podman_facts.deep_view().cgroup == podman_facts.cgroup@,
        podman_facts.deep_view().driver == podman_facts.driver@,
        podman_facts.deep_view().driver_lower == podman_facts.driver_lower@,
        podman_facts.deep_view().backend == podman_facts.backend@,
        podman_facts.deep_view().backend_lower == podman_facts.backend_lower@,
{
}

} // verus!
