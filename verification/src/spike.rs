//! Terminal probe: does a program inside the container see the host's
//! terminal through the `podman exec -i -t` hop?
//!
//! Each probe takes what the host or the container answered, and gives its
//! verdict with the lines that report it.

use vstd::prelude::*;

use crate::isolators::podman;
use crate::text;
use crate::transport;

verus! {

/// A probe's verdict and report.
#[derive(Debug)]
pub struct Probe {
    /// Whether the probe passed (a warning passes).
    pub ok: bool,
    /// Lines to print.
    pub lines: Vec<String>,
}

/// What a probe says.
pub struct ProbeView {
    pub ok: bool,
    pub lines: Seq<Seq<char>>,
}

impl View for Probe {
    type V = ProbeView;

    open spec fn view(&self) -> ProbeView {
        ProbeView { ok: self.ok, lines: self.lines.deep_view() }
    }
}

fn say(lines: &mut Vec<String>, line: &str)
    ensures
        final(lines).deep_view() == old(lines).deep_view().push(line@),
{
    let ghost before = lines.deep_view();
    lines.push(line.to_owned());
    assert(lines.deep_view() =~= before.push(line@));
}

fn none_yet() -> (lines: Vec<String>)
    ensures
        lines.deep_view() == Seq::<Seq<char>>::empty(),
{
    let lines: Vec<String> = Vec::new();
    assert(lines.deep_view() =~= Seq::<Seq<char>>::empty());
    lines
}

// ---------------------------------------------------------------------
// Arguments
// ---------------------------------------------------------------------

/// Image probed when none is named.
pub const DEFAULT_IMAGE: &'static str = "docker.io/library/debian:bookworm-slim";

/// Probe arguments.
#[derive(Debug)]
pub struct Args {
    /// Probe a container too.
    pub with_podman: bool,
    /// Image to probe.
    pub image: String,
    /// Mount the host's terminfo.
    pub mount_terminfo: bool,
}

/// What probe arguments say.
pub struct ArgsView {
    pub with_podman: bool,
    pub image: Seq<char>,
    pub mount_terminfo: bool,
}

impl DeepView for Args {
    type V = ArgsView;

    open spec fn deep_view(&self) -> ArgsView {
        ArgsView {
            with_podman: self.with_podman,
            image: self.image@,
            mount_terminfo: self.mount_terminfo,
        }
    }
}

/// Arguments read from argument `k` on; `None` asks for help. Unknown
/// arguments are ignored, and so is `--image` without a value.
pub open spec fn args_from(raw: Seq<Seq<char>>, k: int, a: ArgsView) -> Option<ArgsView>
    decreases raw.len() - k,
{
    if k < 0 || k >= raw.len() {
        Some(a)
    } else if raw[k] == "--with-podman"@ {
        args_from(raw, k + 1, ArgsView { with_podman: true, ..a })
    } else if raw[k] == "--mount-terminfo"@ {
        args_from(raw, k + 1, ArgsView { mount_terminfo: true, ..a })
    } else if raw[k] == "--image"@ && k + 1 < raw.len() {
        args_from(raw, k + 2, ArgsView { image: raw[k + 1], ..a })
    } else if "--image="@.is_prefix_of(raw[k]) {
        args_from(raw, k + 1, ArgsView { image: raw[k].skip(8), ..a })
    } else if raw[k] == "--help"@ || raw[k] == "-h"@ {
        None
    } else {
        args_from(raw, k + 1, a)
    }
}

/// Parses the probe's argv (the program name first).
pub fn parse_args(raw: &[String]) -> (r: Option<Args>)
    ensures
        r.deep_view() == args_from(
            raw.deep_view(),
            1,
            ArgsView { with_podman: false, image: DEFAULT_IMAGE@, mount_terminfo: false },
        ),
{
    let ghost all = raw.deep_view();
    let mut a = Args {
        with_podman: false,
        image: DEFAULT_IMAGE.to_owned(),
        mount_terminfo: false,
    };
    let ghost start = a.deep_view();
    let mut k: usize = 1;
    assert(raw@.len() == all.len());
    while k < raw.len()
        invariant
            all == raw.deep_view(),
            raw@.len() == all.len(),
            1 <= k,
            start == (ArgsView {
                with_podman: false,
                image: DEFAULT_IMAGE@,
                mount_terminfo: false,
            }),
            args_from(all, k as int, a.deep_view()) == args_from(all, 1, start),
        decreases raw.len() - k,
    {
        let s = raw[k].as_str();
        assert(all[k as int] == s@);
        if text::eq(s, "--with-podman") {
            a.with_podman = true;
        } else if text::eq(s, "--mount-terminfo") {
            a.mount_terminfo = true;
        } else if text::eq(s, "--image") && raw.len() - k >= 2 {
            assert(all[k + 1] == raw@[k + 1]@);
            a.image = raw[k + 1].clone();
            k = k + 1;
        } else if text::starts_with(s, "--image=") {
            let v = text::chars_of(s);
            proof {
                reveal_strlit("--image=");
                assert(s@.skip(8) =~= s@.subrange(8, s@.len() as int));
            }
            a.image = text::slice_of(&v, 8, v.len());
        } else if text::eq(s, "--help") || text::eq(s, "-h") {
            return None;
        }
        k = k + 1;
    }
    Some(a)
}

// ---------------------------------------------------------------------
// Host probes
// ---------------------------------------------------------------------

/// Host variables that the probe reads.
#[derive(Debug)]
pub struct HostEnv {
    /// `TERM`.
    pub term: Option<String>,
    /// `COLORTERM`.
    pub colorterm: Option<String>,
    /// `TERM_PROGRAM`.
    pub term_program: Option<String>,
    /// `TERMINFO`.
    pub terminfo: Option<String>,
}

/// What the host variables say.
pub struct HostEnvView {
    pub term: Option<Seq<char>>,
    pub colorterm: Option<Seq<char>>,
    pub term_program: Option<Seq<char>>,
    pub terminfo: Option<Seq<char>>,
}

impl DeepView for HostEnv {
    type V = HostEnvView;

    open spec fn deep_view(&self) -> HostEnvView {
        HostEnvView {
            term: self.term.deep_view(),
            colorterm: self.colorterm.deep_view(),
            term_program: self.term_program.deep_view(),
            terminfo: self.terminfo.deep_view(),
        }
    }
}

/// A value, or a default where there is none.
pub open spec fn value_or(v: Option<Seq<char>>, default: Seq<char>) -> Seq<char> {
    match v {
        Some(s) => s,
        None => default,
    }
}

fn text_or(v: &Option<String>, default: &str) -> (s: String)
    ensures
        s@ == value_or(v.deep_view(), default@),
{
    match v {
        Some(s) => s.clone(),
        None => default.to_owned(),
    }
}

/// Report of the host variables: a terminal type must be set.
pub open spec fn host_env_report(e: HostEnvView) -> ProbeView {
    let term = value_or(e.term, "(unset)"@);
    let head = seq![
        "-- host env --"@,
        "TERM="@ + term,
        "COLORTERM="@ + value_or(e.colorterm, "(unset)"@),
        "TERM_PROGRAM="@ + value_or(e.term_program, "(unset)"@),
        "TERMINFO="@ + value_or(e.terminfo, "(unset)"@),
    ];
    if term == "(unset)"@ || term.len() == 0 {
        ProbeView { ok: false, lines: head.push("[FAIL] TERM is unset"@) }
    } else if term == "xterm-ghostty"@ {
        ProbeView {
            ok: true,
            lines: head.push(
                "[INFO] Ghostty TERM detected (proxy for libghostty-vt Pty transport)"@,
            ).push("[PASS] host env"@),
        }
    } else if term == "xterm-256color"@ {
        ProbeView {
            ok: true,
            lines: head.push("[INFO] GNOME Terminal (or compatible) TERM detected"@).push(
                "[PASS] host env"@,
            ),
        }
    } else {
        ProbeView { ok: true, lines: head.push("[PASS] host env"@) }
    }
}

/// Probes the host variables.
pub fn probe_host_env(env: &HostEnv) -> (p: Probe)
    ensures
        p@ == host_env_report(env.deep_view()),
{
    let term = text_or(&env.term, "(unset)");
    let mut lines = none_yet();
    say(&mut lines, "-- host env --");
    say(&mut lines, text::cat("TERM=", term.as_str()).as_str());
    say(&mut lines, text::cat("COLORTERM=", text_or(&env.colorterm, "(unset)").as_str()).as_str());
    say(
        &mut lines,
        text::cat("TERM_PROGRAM=", text_or(&env.term_program, "(unset)").as_str()).as_str(),
    );
    say(&mut lines, text::cat("TERMINFO=", text_or(&env.terminfo, "(unset)").as_str()).as_str());
    let ghost e = env.deep_view();
    assert(lines.deep_view() =~= seq![
        "-- host env --"@,
        "TERM="@ + term@,
        "COLORTERM="@ + value_or(e.colorterm, "(unset)"@),
        "TERM_PROGRAM="@ + value_or(e.term_program, "(unset)"@),
        "TERMINFO="@ + value_or(e.terminfo, "(unset)"@),
    ]);
    if text::eq(term.as_str(), "(unset)") || term.as_str().is_empty() {
        say(&mut lines, "[FAIL] TERM is unset");
        return Probe { ok: false, lines };
    }
    if text::eq(term.as_str(), "xterm-ghostty") {
        say(
            &mut lines,
            "[INFO] Ghostty TERM detected (proxy for libghostty-vt Pty transport)",
        );
    } else if text::eq(term.as_str(), "xterm-256color") {
        say(&mut lines, "[INFO] GNOME Terminal (or compatible) TERM detected");
    }
    say(&mut lines, "[PASS] host env");
    Probe { ok: true, lines }
}

/// `true` or `false`.
pub open spec fn bool_text(b: bool) -> Seq<char> {
    if b {
        "true"@
    } else {
        "false"@
    }
}

fn text_of_bool(b: bool) -> (s: &'static str)
    ensures
        s@ == bool_text(b),
{
    if b {
        "true"
    } else {
        "false"
    }
}

/// Report of the terminal check; a piped run only warns.
pub open spec fn tty_report(stdin: bool, stdout: bool, stderr: bool) -> ProbeView {
    ProbeView {
        ok: true,
        lines: seq![
            "\n-- isatty --"@,
            "stdin is tty: "@ + bool_text(stdin),
            "stdout is tty: "@ + bool_text(stdout),
            "stderr is tty: "@ + bool_text(stderr),
            if stdout {
                "[PASS] stdout is a tty"@
            } else {
                "[WARN] stdout is not a tty (piped run; re-check interactively)"@
            },
        ],
    }
}

/// Probes whether the standard streams are terminals.
pub fn probe_is_tty(stdin: bool, stdout: bool, stderr: bool) -> (p: Probe)
    ensures
        p@ == tty_report(stdin, stdout, stderr),
{
    let mut lines = none_yet();
    say(&mut lines, "\n-- isatty --");
    say(&mut lines, text::cat("stdin is tty: ", text_of_bool(stdin)).as_str());
    say(&mut lines, text::cat("stdout is tty: ", text_of_bool(stdout)).as_str());
    say(&mut lines, text::cat("stderr is tty: ", text_of_bool(stderr)).as_str());
    if stdout {
        say(&mut lines, "[PASS] stdout is a tty");
    } else {
        say(&mut lines, "[WARN] stdout is not a tty (piped run; re-check interactively)");
    }
    assert(lines.deep_view() =~= tty_report(stdin, stdout, stderr).lines);
    Probe { ok: true, lines }
}

/// A window size in words.
pub open spec fn size_text(size: (u16, u16)) -> Seq<char> {
    "rows="@ + text::dec(size.0 as nat) + " cols="@ + text::dec(size.1 as nat)
}

fn text_of_size(size: (u16, u16)) -> (s: String)
    ensures
        s@ == size_text(size),
{
    text::cat4(
        "rows=",
        text::dec_u64(size.0 as u64).as_str(),
        " cols=",
        text::dec_u64(size.1 as u64).as_str(),
    )
}

/// Report of the window size, read from stdout, else from stdin; none only
/// warns.
pub open spec fn winsize_report(stdout: Option<(u16, u16)>, stdin: Option<(u16, u16)>) -> ProbeView {
    let head = "\n-- winsize (TIOCGWINSZ) --"@;
    ProbeView {
        ok: true,
        lines: match stdout {
            Some(size) => seq![
                head,
                size_text(size),
                if size.0 == 0 || size.1 == 0 {
                    "[WARN] winsize is zero (headless or piped)"@
                } else {
                    "[PASS] winsize non-zero"@
                },
            ],
            None => match stdin {
                Some(size) => seq![
                    head,
                    size_text(size) + " (from stdin)"@,
                    "[PASS] winsize via stdin"@,
                ],
                None => seq![head, "[WARN] TIOCGWINSZ unavailable (not a terminal)"@],
            },
        },
    }
}

/// Probes the window size.
pub fn probe_winsize(stdout: Option<(u16, u16)>, stdin: Option<(u16, u16)>) -> (p: Probe)
    ensures
        p@ == winsize_report(stdout, stdin),
{
    let mut lines = none_yet();
    say(&mut lines, "\n-- winsize (TIOCGWINSZ) --");
    match stdout {
        Some(size) => {
            say(&mut lines, text_of_size(size).as_str());
            if size.0 == 0 || size.1 == 0 {
                say(&mut lines, "[WARN] winsize is zero (headless or piped)");
            } else {
                say(&mut lines, "[PASS] winsize non-zero");
            }
        },
        None => match stdin {
            Some(size) => {
                say(&mut lines, text::cat(text_of_size(size).as_str(), " (from stdin)").as_str());
                say(&mut lines, "[PASS] winsize via stdin");
            },
            None => {
                say(&mut lines, "[WARN] TIOCGWINSZ unavailable (not a terminal)");
            },
        },
    }
    assert(lines.deep_view() =~= winsize_report(stdout, stdin).lines);
    Probe { ok: true, lines }
}

/// What running a tool brought.
#[derive(Debug)]
pub enum ToolRun {
    /// It could not be run.
    Missing(String),
    /// It ran: whether it succeeded, and its output.
    Ran(bool, String, String),
}

/// What a tool run says.
pub enum ToolView {
    Missing(Seq<char>),
    Ran(bool, Seq<char>, Seq<char>),
}

impl DeepView for ToolRun {
    type V = ToolView;

    open spec fn deep_view(&self) -> ToolView {
        match *self {
            ToolRun::Missing(e) => ToolView::Missing(e@),
            ToolRun::Ran(ok, out, err) => ToolView::Ran(ok, out@, err@),
        }
    }
}

/// Line of a capability that an `infocmp` listing shows.
pub open spec fn capability_lines(listing: Seq<char>, cap: Seq<char>) -> Seq<Seq<char>> {
    if text::occurs(cap, listing) {
        seq!["  contains "@ + cap]
    } else {
        Seq::empty()
    }
}

/// Lines of the terminal description lookup.
pub open spec fn description_lines(term: Seq<char>, run: ToolView) -> Seq<Seq<char>> {
    match run {
        ToolView::Ran(true, out, _) => seq![
            "[PASS] infocmp "@ + term + ": found ("@ + text::dec(text::byte_len(out)) + " bytes)"@,
        ] + capability_lines(out, "colors#"@) + capability_lines(out, "RGB"@) + capability_lines(
            out,
            "Tc"@,
        ) + capability_lines(out, "xterm"@),
        ToolView::Ran(false, _, err) => seq![
            "[FAIL] infocmp "@ + term + ": missing (stderr: "@ + text::trimmed(err) + ")"@,
            "  hint: bake host terminfo into image or pin TERM to a widely-available entry"@,
        ],
        ToolView::Missing(e) => seq!["[WARN] infocmp not found: "@ + e],
    }
}

/// Line of one `tput` query.
pub open spec fn tput_line(cap: Seq<char>, run: ToolView) -> Seq<char> {
    match run {
        ToolView::Ran(true, out, _) => "[PASS] tput "@ + cap + ": "@ + text::trimmed(out),
        ToolView::Ran(false, _, err) => "[WARN] tput "@ + cap + " failed: "@ + text::trimmed(err),
        ToolView::Missing(e) => "[WARN] tput not found: "@ + e,
    }
}

/// Line of one inventory entry.
pub open spec fn inventory_line(name: Seq<char>, found: bool) -> Seq<char> {
    if found {
        "    "@ + name + ": present"@
    } else {
        "    "@ + name + ": absent"@
    }
}

/// Report of the host's terminal descriptions: only a failed lookup of the
/// host's own terminal type fails.
pub open spec fn terminfo_report(
    term: Seq<char>,
    described: ToolView,
    colors: ToolView,
    rgb: ToolView,
    ghostty: bool,
    kitty: bool,
    wezterm: bool,
    alacritty: bool,
) -> ProbeView {
    ProbeView {
        ok: !(described matches ToolView::Ran(false, _, _)),
        lines: seq!["\n-- terminfo --"@] + description_lines(term, described) + seq![
            tput_line("colors"@, colors),
        ] + (if colors is Missing {
            Seq::<Seq<char>>::empty()
        } else {
            seq![tput_line("RGB"@, rgb)]
        }) + seq![
            "\n  host terminfo inventory (for container provisioning):"@,
            inventory_line("xterm-ghostty"@, ghostty),
            inventory_line("xterm-kitty"@, kitty),
            inventory_line("wezterm"@, wezterm),
            inventory_line("alacritty"@, alacritty),
        ],
    }
}

fn byte_count(s: &str) -> (n: String)
    ensures
        n@ == text::dec(text::byte_len(s@)),
{
    text::dec_u64(text::len_bytes(s) as u64)
}

fn say_capability(lines: &mut Vec<String>, listing: &str, cap: &str)
    ensures
        final(lines).deep_view() == old(lines).deep_view() + capability_lines(listing@, cap@),
{
    let ghost before = lines.deep_view();
    if text::contains(listing, cap) {
        say(lines, text::cat("  contains ", cap).as_str());
    }
    assert(lines.deep_view() =~= before + capability_lines(listing@, cap@));
}

fn say_description(lines: &mut Vec<String>, term: &str, run: &ToolRun)
    ensures
        final(lines).deep_view() == old(lines).deep_view() + description_lines(term@, run.deep_view()),
{
    let ghost before = lines.deep_view();
    match run {
        ToolRun::Ran(true, out, _) => {
            say(
                lines,
                text::cat5(
                    "[PASS] infocmp ",
                    term,
                    ": found (",
                    byte_count(out.as_str()).as_str(),
                    " bytes)",
                ).as_str(),
            );
            say_capability(lines, out.as_str(), "colors#");
            say_capability(lines, out.as_str(), "RGB");
            say_capability(lines, out.as_str(), "Tc");
            say_capability(lines, out.as_str(), "xterm");
        },
        ToolRun::Ran(false, _, err) => {
            say(
                lines,
                text::cat5(
                    "[FAIL] infocmp ",
                    term,
                    ": missing (stderr: ",
                    text::trim(err.as_str()).as_str(),
                    ")",
                ).as_str(),
            );
            say(
                lines,
                "  hint: bake host terminfo into image or pin TERM to a widely-available entry",
            );
        },
        ToolRun::Missing(e) => {
            say(lines, text::cat("[WARN] infocmp not found: ", e.as_str()).as_str());
        },
    }
    assert(lines.deep_view() =~= before + description_lines(term@, run.deep_view()));
}

fn say_tput(lines: &mut Vec<String>, cap: &str, run: &ToolRun)
    ensures
        final(lines).deep_view() == old(lines).deep_view().push(tput_line(cap@, run.deep_view())),
{
    match run {
        ToolRun::Ran(true, out, _) => {
            say(
                lines,
                text::cat4("[PASS] tput ", cap, ": ", text::trim(out.as_str()).as_str()).as_str(),
            );
        },
        ToolRun::Ran(false, _, err) => {
            say(
                lines,
                text::cat4(
                    "[WARN] tput ",
                    cap,
                    " failed: ",
                    text::trim(err.as_str()).as_str(),
                ).as_str(),
            );
        },
        ToolRun::Missing(e) => {
            say(lines, text::cat("[WARN] tput not found: ", e.as_str()).as_str());
        },
    }
}

fn say_inventory(lines: &mut Vec<String>, name: &str, found: bool)
    ensures
        final(lines).deep_view() == old(lines).deep_view().push(inventory_line(name@, found)),
{
    if found {
        say(lines, text::cat3("    ", name, ": present").as_str());
    } else {
        say(lines, text::cat3("    ", name, ": absent").as_str());
    }
}

/// Probes the host's terminal descriptions.
pub fn probe_terminfo(
    term: &str,
    described: &ToolRun,
    colors: &ToolRun,
    rgb: &ToolRun,
    ghostty: bool,
    kitty: bool,
    wezterm: bool,
    alacritty: bool,
) -> (p: Probe)
    ensures
        p@ == terminfo_report(
            term@,
            described.deep_view(),
            colors.deep_view(),
            rgb.deep_view(),
            ghostty,
            kitty,
            wezterm,
            alacritty,
        ),
{
    let mut lines = none_yet();
    say(&mut lines, "\n-- terminfo --");
    say_description(&mut lines, term, described);
    say_tput(&mut lines, "colors", colors);
    let stop = match colors {
        ToolRun::Missing(_) => true,
        _ => false,
    };
    if !stop {
        say_tput(&mut lines, "RGB", rgb);
    }
    say(&mut lines, "\n  host terminfo inventory (for container provisioning):");
    say_inventory(&mut lines, "xterm-ghostty", ghostty);
    say_inventory(&mut lines, "xterm-kitty", kitty);
    say_inventory(&mut lines, "wezterm", wezterm);
    say_inventory(&mut lines, "alacritty", alacritty);
    let ok = match described {
        ToolRun::Ran(false, _, _) => false,
        _ => true,
    };
    let ghost model = terminfo_report(
        term@,
        described.deep_view(),
        colors.deep_view(),
        rgb.deep_view(),
        ghostty,
        kitty,
        wezterm,
        alacritty,
    );
    assert(lines.deep_view() =~= model.lines);
    Probe { ok, lines }
}

/// Report of the escape smoke: a visible sequence for the operator to look
/// at.
pub open spec fn escape_report() -> ProbeView {
    ProbeView {
        ok: true,
        lines: seq![
            "\n-- escape / byte forwarding smoke --"@,
            "[INFO] Escape sequences (OSC, CSI, Kitty graphics, XTGETTCAP/DA1) are pure bytes;"@,
            "       risk is the control plane (resize, terminfo), not the byte path."@,
            "       Emitting a visible CSI sequence as smoke test:"@,
            "  bytes: ESC[34m (blue) ESC[1m (bold) TEST ESC[0m (reset)"@,
            "  render: \x1b[34m\x1b[1mTEST\x1b[0m  <- should appear bold blue"@,
            "[PASS] escape smoke emitted (visual check)"@,
        ],
    }
}

/// Emits the escape smoke.
pub fn probe_escape_bytes() -> (p: Probe)
    ensures
        p@ == escape_report(),
{
    let mut lines = none_yet();
    say(&mut lines, "\n-- escape / byte forwarding smoke --");
    say(
        &mut lines,
        "[INFO] Escape sequences (OSC, CSI, Kitty graphics, XTGETTCAP/DA1) are pure bytes;",
    );
    say(
        &mut lines,
        "       risk is the control plane (resize, terminfo), not the byte path.",
    );
    say(&mut lines, "       Emitting a visible CSI sequence as smoke test:");
    say(&mut lines, "  bytes: ESC[34m (blue) ESC[1m (bold) TEST ESC[0m (reset)");
    say(
        &mut lines,
        "  render: \x1b[34m\x1b[1mTEST\x1b[0m  <- should appear bold blue",
    );
    say(&mut lines, "[PASS] escape smoke emitted (visual check)");
    assert(lines.deep_view() =~= escape_report().lines);
    Probe { ok: true, lines }
}

// ---------------------------------------------------------------------
// Container run
// ---------------------------------------------------------------------

/// Name of the probed container.
pub fn container_name(pid: u32) -> (s: String)
    ensures
        s@ == "cistella-term-spike-"@ + text::dec(pid as nat),
{
    text::cat("cistella-term-spike-", text::dec_u64(pid as u64).as_str())
}

/// Directories that may hold the host's terminal descriptions, each once:
/// the system's two, then the one that the host names.
pub open spec fn candidates(e: HostEnvView) -> Seq<Seq<char>> {
    let named = value_or(e.terminfo, Seq::empty());
    let system = seq!["/usr/share/terminfo"@, "/lib/terminfo"@];
    if named.len() == 0 || system.contains(named) {
        system
    } else {
        system.push(named)
    }
}

/// Lists the directories that may hold the host's terminal descriptions.
pub fn terminfo_candidates(env: &HostEnv) -> (out: Vec<String>)
    ensures
        out.deep_view() == candidates(env.deep_view()),
{
    let mut out = none_yet();
    say(&mut out, "/usr/share/terminfo");
    say(&mut out, "/lib/terminfo");
    let ghost system = seq!["/usr/share/terminfo"@, "/lib/terminfo"@];
    assert(out.deep_view() =~= system);
    match &env.terminfo {
        Some(named) => {
            if !named.as_str().is_empty() && !text::has_text(&out, named.as_str()) {
                say(&mut out, named.as_str());
            }
        },
        None => {},
    }
    out
}

/// `-e` pair of a variable, where it is not empty.
pub open spec fn env_pair(key: Seq<char>, value: Seq<char>) -> Seq<Seq<char>> {
    if value.len() > 0 {
        seq!["-e"@, key + "="@ + value]
    } else {
        Seq::empty()
    }
}

/// `-v` pairs of the candidates that exist, in order.
pub open spec fn mount_pairs(cands: Seq<Seq<char>>, exists: Seq<bool>) -> Seq<Seq<char>>
    decreases cands.len(),
{
    if cands.len() == 0 {
        Seq::empty()
    } else {
        let k = cands.len() - 1;
        mount_pairs(cands.drop_last(), exists) + (if k < exists.len() && exists[k] {
            seq!["-v"@, cands.last() + ":"@ + cands.last() + ":ro"@]
        } else {
            Seq::<Seq<char>>::empty()
        })
    }
}

/// Argv of the detached run. The host's description directory is named and
/// mounted only where mounting is asked for: a forwarded path that does not
/// exist inside overrides baked entries.
pub open spec fn run_argv(
    args: ArgsView,
    e: HostEnvView,
    pid: nat,
    exists: Seq<bool>,
) -> Seq<Seq<char>> {
    let terminfo = value_or(e.terminfo, Seq::empty());
    seq![
        "run"@,
        "-d"@,
        "--rm"@,
        "--name"@,
        "cistella-term-spike-"@ + text::dec(pid),
        "--label"@,
        "cistella-spike="@ + text::dec(pid),
        "--userns=keep-id"@,
        "-e"@,
        "TERM="@ + value_or(e.term, "xterm-256color"@),
    ] + env_pair("COLORTERM"@, value_or(e.colorterm, Seq::empty())) + env_pair(
        "TERM_PROGRAM"@,
        value_or(e.term_program, Seq::empty()),
    ) + (if args.mount_terminfo {
        env_pair("TERMINFO"@, terminfo) + mount_pairs(candidates(e), exists)
    } else {
        Seq::<Seq<char>>::empty()
    }) + seq!["--"@, args.image, "sleep"@, "300"@]
}

fn push_env_pair(out: &mut Vec<String>, key: &str, value: &Option<String>)
    ensures
        final(out).deep_view() == old(out).deep_view() + env_pair(
            key@,
            value_or(value.deep_view(), Seq::empty()),
        ),
{
    let ghost before = out.deep_view();
    match value {
        Some(v) => {
            if !v.as_str().is_empty() {
                say(out, "-e");
                say(out, text::cat3(key, "=", v.as_str()).as_str());
            }
        },
        None => {},
    }
    assert(out.deep_view() =~= before + env_pair(
        key@,
        value_or(value.deep_view(), Seq::empty()),
    ));
}

fn push_mount_pairs(out: &mut Vec<String>, cands: &Vec<String>, exists: &[bool])
    ensures
        final(out).deep_view() == old(out).deep_view() + mount_pairs(cands.deep_view(), exists@),
{
    let ghost start = out.deep_view();
    let ghost all = cands.deep_view();
    let mut k: usize = 0;
    assert(all.take(0) =~= Seq::<Seq<char>>::empty());
    assert(start + mount_pairs(all.take(0), exists@) =~= start);
    while k < cands.len()
        invariant
            all == cands.deep_view(),
            k <= cands@.len(),
            out.deep_view() == start + mount_pairs(all.take(k as int), exists@),
        decreases cands.len() - k,
    {
        let c = cands[k].as_str();
        let ghost before = out.deep_view();
        assert(all.take(k + 1).drop_last() =~= all.take(k as int));
        assert(all.take(k + 1).last() == c@);
        if k < exists.len() && exists[k] {
            say(out, "-v");
            say(out, text::cat4(c, ":", c, ":ro").as_str());
        }
        assert(out.deep_view() =~= start + mount_pairs(all.take(k + 1), exists@));
        k = k + 1;
    }
    assert(all.take(k as int) =~= all);
}

/// Builds the argv of the detached run. `exists` tells which of
/// [`terminfo_candidates`] exist on the host.
pub fn run_args(args: &Args, env: &HostEnv, pid: u32, exists: &[bool]) -> (out: Vec<String>)
    ensures
        out.deep_view() == run_argv(args.deep_view(), env.deep_view(), pid as nat, exists@),
{
    let mut out = none_yet();
    say(&mut out, "run");
    say(&mut out, "-d");
    say(&mut out, "--rm");
    say(&mut out, "--name");
    say(&mut out, container_name(pid).as_str());
    say(&mut out, "--label");
    say(&mut out, text::cat("cistella-spike=", text::dec_u64(pid as u64).as_str()).as_str());
    say(&mut out, "--userns=keep-id");
    say(&mut out, "-e");
    say(&mut out, text::cat("TERM=", text_or(&env.term, "xterm-256color").as_str()).as_str());
    push_env_pair(&mut out, "COLORTERM", &env.colorterm);
    push_env_pair(&mut out, "TERM_PROGRAM", &env.term_program);
    let ghost before = out.deep_view();
    if args.mount_terminfo {
        push_env_pair(&mut out, "TERMINFO", &env.terminfo);
        let cands = terminfo_candidates(env);
        push_mount_pairs(&mut out, &cands, exists);
    }
    say(&mut out, "--");
    say(&mut out, args.image.as_str());
    say(&mut out, "sleep");
    say(&mut out, "300");
    assert(out.deep_view() =~= run_argv(args.deep_view(), env.deep_view(), pid as nat, exists@));
    out
}

/// Argv of an exec probe.
pub fn exec_argv(container: &str, cmd: &[String], with_tty: bool) -> (out: Vec<String>)
    ensures
        out.deep_view() == seq!["exec"@] + (if with_tty {
            seq!["-t"@]
        } else {
            Seq::<Seq<char>>::empty()
        }) + seq![container@] + cmd.deep_view(),
{
    let mut out = none_yet();
    say(&mut out, "exec");
    if with_tty {
        say(&mut out, "-t");
    }
    say(&mut out, container);
    assert(out.deep_view() =~= seq!["exec"@] + (if with_tty {
        seq!["-t"@]
    } else {
        Seq::<Seq<char>>::empty()
    }) + seq![container@]);
    transport::push_all(&mut out, cmd);
    out
}

/// Line that announces an exec probe.
pub open spec fn exec_line(container: Seq<char>, cmd: Seq<Seq<char>>, with_tty: bool) -> Seq<char> {
    "\n  exec: podman exec"@ + (if with_tty {
        " -t "@
    } else {
        " "@
    }) + container + " "@ + text::join(cmd, " "@)
}

/// Report of what an exec probe ran to: it passes when the command
/// succeeded.
pub open spec fn exec_outcome(run: ToolView, status: Seq<char>) -> ProbeView {
    match run {
        ToolView::Missing(e) => ProbeView { ok: false, lines: seq!["  [FAIL] exec error: "@ + e] },
        ToolView::Ran(ok, out, err) => ProbeView {
            ok,
            lines: seq!["  stdout: "@ + text::trimmed(out)] + (if err.len() > 0 {
                seq!["  stderr: "@ + text::trimmed(err)]
            } else {
                Seq::<Seq<char>>::empty()
            }) + seq!["  exit: "@ + status],
        },
    }
}

/// Report of an exec probe.
pub open spec fn exec_report(
    container: Seq<char>,
    cmd: Seq<Seq<char>>,
    with_tty: bool,
    run: ToolView,
    status: Seq<char>,
) -> ProbeView {
    ProbeView {
        ok: exec_outcome(run, status).ok,
        lines: seq![exec_line(container, cmd, with_tty)] + exec_outcome(run, status).lines,
    }
}

fn line_of_exec(container: &str, cmd: &Vec<String>, with_tty: bool) -> (s: String)
    ensures
        s@ == exec_line(container@, cmd.deep_view(), with_tty),
{
    let gap = if with_tty {
        " -t "
    } else {
        " "
    };
    text::cat5(
        "\n  exec: podman exec",
        gap,
        container,
        " ",
        text::join_with(cmd, " ").as_str(),
    )
}

/// Judges an exec probe: the command that was run, what it ran to, and its
/// status in words.
pub fn podman_exec(
    container: &str,
    cmd: &Vec<String>,
    with_tty: bool,
    run: &ToolRun,
    status: &str,
) -> (p: Probe)
    ensures
        p@ == exec_report(container@, cmd.deep_view(), with_tty, run.deep_view(), status@),
{
    let ghost report = exec_report(container@, cmd.deep_view(), with_tty, run.deep_view(), status@);
    let mut lines = none_yet();
    say(&mut lines, line_of_exec(container, cmd, with_tty).as_str());
    match run {
        ToolRun::Missing(e) => {
            say(&mut lines, text::cat("  [FAIL] exec error: ", e.as_str()).as_str());
            assert(lines.deep_view() =~= report.lines);
            Probe { ok: false, lines }
        },
        ToolRun::Ran(ok, out, err) => {
            say(&mut lines, text::cat("  stdout: ", text::trim(out.as_str()).as_str()).as_str());
            if !err.as_str().is_empty() {
                say(
                    &mut lines,
                    text::cat("  stderr: ", text::trim(err.as_str()).as_str()).as_str(),
                );
            }
            say(&mut lines, text::cat("  exit: ", status).as_str());
            assert(lines.deep_view() =~= report.lines);
            Probe { ok: *ok, lines }
        },
    }
}

/// A shell command.
pub open spec fn shell(script: Seq<char>) -> Seq<Seq<char>> {
    seq!["sh"@, "-c"@, script]
}

/// Exec probes in running order, each with whether it gets a terminal: the
/// terminal type and its description, the inventory of modern types, the
/// terminal and its size with and without a terminal, and escape bytes.
pub open spec fn probe_commands() -> Seq<(Seq<Seq<char>>, bool)> {
    seq![
        (
            shell(
                "echo TERM=$TERM COLORTERM=$COLORTERM; echo ---infocmp---; infocmp $TERM 2>&1 | head -n 8; echo ---tput---; tput colors 2>&1 || echo tput-missing"@,
            ),
            false,
        ),
        (
            shell(
                "for t in xterm-ghostty xterm-kitty wezterm alacritty; do infocmp $t >/dev/null 2>&1 && echo $t:present || echo $t:absent; done"@,
            ),
            false,
        ),
        (
            shell(
                "if [ -t 1 ]; then echo isatty:true; else echo isatty:false; fi; stty size 2>&1 || echo stty-missing; stty -a 2>&1 | head -n 2 || true"@,
            ),
            true,
        ),
        (
            shell(
                "if [ -t 1 ]; then echo isatty:true; else echo isatty:false; fi; stty size 2>&1 || echo stty-missing"@,
            ),
            false,
        ),
        (
            shell(
                "printf 'CSI probe: \\033[34mBLUE\\033[0m\\n' | od -An -tx1 | head -n 1; printf 'CSI probe: \\033[34mBLUE\\033[0m\\n'"@,
            ),
            true,
        ),
    ]
}

fn push_shell(out: &mut Vec<(Vec<String>, bool)>, script: &str, with_tty: bool)
    ensures
        final(out).deep_view() == old(out).deep_view().push((shell(script@), with_tty)),
{
    let ghost before = out.deep_view();
    let mut cmd = none_yet();
    say(&mut cmd, "sh");
    say(&mut cmd, "-c");
    say(&mut cmd, script);
    assert(cmd.deep_view() =~= shell(script@));
    out.push((cmd, with_tty));
    assert(out.deep_view() =~= before.push((shell(script@), with_tty)));
}

/// Lists the exec probes.
pub fn exec_probes() -> (out: Vec<(Vec<String>, bool)>)
    ensures
        out.deep_view() == probe_commands(),
{
    let mut out: Vec<(Vec<String>, bool)> = Vec::new();
    assert(out.deep_view() =~= Seq::<(Seq<Seq<char>>, bool)>::empty());
    push_shell(
        &mut out,
        "echo TERM=$TERM COLORTERM=$COLORTERM; echo ---infocmp---; infocmp $TERM 2>&1 | head -n 8; echo ---tput---; tput colors 2>&1 || echo tput-missing",
        false,
    );
    push_shell(
        &mut out,
        "for t in xterm-ghostty xterm-kitty wezterm alacritty; do infocmp $t >/dev/null 2>&1 && echo $t:present || echo $t:absent; done",
        false,
    );
    push_shell(
        &mut out,
        "if [ -t 1 ]; then echo isatty:true; else echo isatty:false; fi; stty size 2>&1 || echo stty-missing; stty -a 2>&1 | head -n 2 || true",
        true,
    );
    push_shell(
        &mut out,
        "if [ -t 1 ]; then echo isatty:true; else echo isatty:false; fi; stty size 2>&1 || echo stty-missing",
        false,
    );
    push_shell(
        &mut out,
        "printf 'CSI probe: \\033[34mBLUE\\033[0m\\n' | od -An -tx1 | head -n 1; printf 'CSI probe: \\033[34mBLUE\\033[0m\\n'",
        true,
    );
    assert(out.deep_view() =~= probe_commands());
    out
}

/// Notes on the candidates that are mounted, in order.
pub open spec fn mount_notes(cands: Seq<Seq<char>>, exists: Seq<bool>) -> Seq<Seq<char>>
    decreases cands.len(),
{
    if cands.len() == 0 {
        Seq::empty()
    } else {
        let k = cands.len() - 1;
        if k < exists.len() && exists[k] {
            mount_notes(cands.drop_last(), exists).push(
                "[INFO] mounting host terminfo "@ + cands.last() + " -> "@ + cands.last() + ":ro"@,
            )
        } else {
            mount_notes(cands.drop_last(), exists)
        }
    }
}

/// A text, or `(unset)` for an empty one.
pub open spec fn or_unset(s: Seq<char>) -> Seq<char> {
    if s.len() == 0 {
        "(unset)"@
    } else {
        s
    }
}

/// Lines printed before the container is run: what is mounted, and what of
/// the terminal is forwarded.
pub open spec fn run_notes_of(args: ArgsView, e: HostEnvView, exists: Seq<bool>) -> Seq<
    Seq<char>,
> {
    let notes = mount_notes(candidates(e), exists);
    (if !args.mount_terminfo {
        Seq::<Seq<char>>::empty()
    } else if notes.len() == 0 {
        seq!["[WARN] --mount-terminfo requested but no host terminfo dir found"@]
    } else {
        notes
    }) + seq![
        "podman: pull/run detached container --userns=keep-id"@,
        "  TERM="@ + value_or(e.term, "xterm-256color"@) + " COLORTERM="@ + or_unset(
            value_or(e.colorterm, Seq::empty()),
        ) + " TERMINFO="@ + (if args.mount_terminfo {
            or_unset(value_or(e.terminfo, Seq::empty()))
        } else {
            "(not forwarded, baked)"@
        }) + " (closed list; podman does not forward implicitly)"@,
    ]
}

fn text_or_unset(v: &Option<String>) -> (s: String)
    ensures
        s@ == or_unset(value_or(v.deep_view(), Seq::empty())),
{
    match v {
        Some(s) => if s.as_str().is_empty() {
            "(unset)".to_owned()
        } else {
            s.clone()
        },
        None => "(unset)".to_owned(),
    }
}

fn notes_of_mounts(cands: &Vec<String>, exists: &[bool]) -> (notes: Vec<String>)
    ensures
        notes.deep_view() == mount_notes(cands.deep_view(), exists@),
{
    let mut notes = none_yet();
    let mut k: usize = 0;
    let ghost all = cands.deep_view();
    assert(all.take(0) =~= Seq::<Seq<char>>::empty());
    while k < cands.len()
        invariant
            k <= cands@.len(),
            all == cands.deep_view(),
            notes.deep_view() == mount_notes(all.take(k as int), exists@),
        decreases cands.len() - k,
    {
        assert(all[k as int] == cands@[k as int]@);
        assert(all.take(k + 1).drop_last() =~= all.take(k as int));
        assert(all.take(k + 1).last() == all[k as int]);
        if k < exists.len() && exists[k] {
            let c = cands[k].as_str();
            say(
                &mut notes,
                text::cat5("[INFO] mounting host terminfo ", c, " -> ", c, ":ro").as_str(),
            );
        }
        k = k + 1;
    }
    assert(all.take(k as int) =~= all);
    notes
}

/// Lines to print before the container is run.
pub fn run_notes(args: &Args, env: &HostEnv, exists: &[bool]) -> (lines: Vec<String>)
    ensures
        lines.deep_view() == run_notes_of(args.deep_view(), env.deep_view(), exists@),
{
    let mut lines = none_yet();
    if args.mount_terminfo {
        let cands = terminfo_candidates(env);
        lines = notes_of_mounts(&cands, exists);
        assert(lines@.len() == lines.deep_view().len());
        if lines.len() == 0 {
            assert(lines.deep_view() =~= Seq::<Seq<char>>::empty());
            say(&mut lines, "[WARN] --mount-terminfo requested but no host terminfo dir found");
        }
    }
    let ghost head = lines.deep_view();
    say(&mut lines, "podman: pull/run detached container --userns=keep-id");
    let terminfo = if args.mount_terminfo {
        text_or_unset(&env.terminfo)
    } else {
        "(not forwarded, baked)".to_owned()
    };
    let front = text::cat4(
        "  TERM=",
        text_or(&env.term, "xterm-256color").as_str(),
        " COLORTERM=",
        text_or_unset(&env.colorterm).as_str(),
    );
    say(
        &mut lines,
        text::cat4(
            front.as_str(),
            " TERMINFO=",
            terminfo.as_str(),
            " (closed list; podman does not forward implicitly)",
        ).as_str(),
    );
    assert(lines.deep_view() =~= run_notes_of(args.deep_view(), env.deep_view(), exists@));
    lines
}

/// Why a detached run did not come up, if it did not.
pub open spec fn run_fault(run: ToolView) -> Option<Seq<char>> {
    match run {
        ToolView::Missing(e) => Some("[FAIL] podman not available: "@ + e),
        ToolView::Ran(false, _, err) => Some("[FAIL] podman run failed: "@ + text::trimmed(err)),
        ToolView::Ran(true, _, _) => None,
    }
}

/// Judges the detached run: the line that reports its failure, if it failed.
pub fn run_failure(run: &ToolRun) -> (r: Option<String>)
    ensures
        r.deep_view() == run_fault(run.deep_view()),
{
    match run {
        ToolRun::Missing(e) => Some(text::cat("[FAIL] podman not available: ", e.as_str())),
        ToolRun::Ran(ok, _, err) => if *ok {
            None
        } else {
            Some(text::cat("[FAIL] podman run failed: ", text::trim(err.as_str()).as_str()))
        },
    }
}

/// Lines that close the container probe.
pub open spec fn closing_lines(mount_terminfo: bool, container: Seq<char>, ok: bool) -> Seq<
    Seq<char>,
> {
    seq![
        "\n[INFO] driver wiring: podman exec client stdio must be the session PTY slave"@,
        "       (tmux pane or Agentmux Pty slave), never piped — piped exec shows 0 0;"@,
        "podman: cleanup (stop "@ + container + ")"@,
        if ok {
            "[PASS] podman probe"@
        } else {
            "[FAIL] podman probe (see exec output above)"@
        },
    ] + (if mount_terminfo {
        Seq::<Seq<char>>::empty()
    } else {
        seq![
            "\n[INFO] terminfo source: system dirs vary (/usr/share/terminfo vs /lib/terminfo,"@,
            "       plus per-user or per-app locations for ghostty/kitty). Mounting is"@,
            "       brittle — prefer baking the needed entries into the driver image;"@,
            "       re-run with --mount-terminfo to experiment with a host bind-mount."@,
        ]
    })
}

/// Whether every probe passed.
pub open spec fn all_passed(results: Seq<bool>) -> bool {
    forall|i: int| 0 <= i < results.len() ==> results[i]
}

fn passed_all(results: &[bool]) -> (ok: bool)
    ensures
        ok == all_passed(results@),
{
    let mut k: usize = 0;
    while k < results.len()
        invariant
            k <= results@.len(),
            forall|i: int| 0 <= i < k ==> results@[i],
        decreases results.len() - k,
    {
        if !results[k] {
            return false;
        }
        k = k + 1;
    }
    true
}

/// Closes the container probe: it passes when every one of its probes did.
pub fn probe_podman(args: &Args, container: &str, results: &[bool]) -> (p: Probe)
    ensures
        p@ == (ProbeView {
            ok: all_passed(results@),
            lines: closing_lines(args.mount_terminfo, container@, all_passed(results@)),
        }),
{
    let ok = passed_all(results);
    let mut lines = none_yet();
    say(
        &mut lines,
        "\n[INFO] driver wiring: podman exec client stdio must be the session PTY slave",
    );
    say(
        &mut lines,
        "       (tmux pane or Agentmux Pty slave), never piped — piped exec shows 0 0;",
    );
    say(&mut lines, text::cat3("podman: cleanup (stop ", container, ")").as_str());
    if ok {
        say(&mut lines, "[PASS] podman probe");
    } else {
        say(&mut lines, "[FAIL] podman probe (see exec output above)");
    }
    if !args.mount_terminfo {
        say(
            &mut lines,
            "\n[INFO] terminfo source: system dirs vary (/usr/share/terminfo vs /lib/terminfo,",
        );
        say(
            &mut lines,
            "       plus per-user or per-app locations for ghostty/kitty). Mounting is",
        );
        say(
            &mut lines,
            "       brittle — prefer baking the needed entries into the driver image;",
        );
        say(
            &mut lines,
            "       re-run with --mount-terminfo to experiment with a host bind-mount.",
        );
    }
    assert(lines.deep_view() =~= closing_lines(
        args.mount_terminfo,
        container@,
        all_passed(results@),
    ));
    Probe { ok, lines }
}

// ---------------------------------------------------------------------
// Verdicts
// ---------------------------------------------------------------------

/// Report of the exit-status probe: 42 passes through. A run killed by a
/// signal counts as -1.
pub open spec fn exit_report(outcome: std::result::Result<Option<i32>, Seq<char>>) -> ProbeView {
    let head = "\n-- exit-status passthrough --"@;
    match outcome {
        Err(e) => ProbeView { ok: false, lines: seq![head, "[FAIL] exec error: "@ + e] },
        Ok(code) => {
            let got = match code {
                Some(c) => c as int,
                None => -1,
            };
            ProbeView {
                ok: got == 42,
                lines: seq![
                    head,
                    "  exit code: "@ + text::dec_int(got) + " (expected 42)"@,
                    if got == 42 {
                        "[PASS] exit-status"@
                    } else {
                        "[FAIL] exit-status: got "@ + text::dec_int(got) + ", expected 42"@
                    },
                ],
            }
        },
    }
}

/// An exit status, or why there is none.
pub open spec fn exit_outcome(r: std::result::Result<Option<i32>, String>) -> std::result::Result<
    Option<i32>,
    Seq<char>,
> {
    match r {
        Ok(code) => Ok(code),
        Err(e) => Err(e@),
    }
}

/// Judges the exit-status probe: the exit code, or why the exec could not
/// be run.
pub fn probe_exit_status(outcome: std::result::Result<Option<i32>, String>) -> (p: Probe)
    ensures
        p@ == exit_report(exit_outcome(outcome)),
{
    let ghost report = exit_report(exit_outcome(outcome));
    let mut lines = none_yet();
    say(&mut lines, "\n-- exit-status passthrough --");
    let code = match outcome {
        Ok(code) => code,
        Err(e) => {
            say(&mut lines, text::cat("[FAIL] exec error: ", e.as_str()).as_str());
            assert(lines.deep_view() =~= report.lines);
            return Probe { ok: false, lines };
        },
    };
    let got: i32 = match code {
        Some(c) => c,
        None => -1,
    };
    let shown = text::dec_i64(got as i64);
    say(&mut lines, text::cat3("  exit code: ", shown.as_str(), " (expected 42)").as_str());
    if got == 42 {
        say(&mut lines, "[PASS] exit-status");
    } else {
        say(
            &mut lines,
            text::cat3("[FAIL] exit-status: got ", shown.as_str(), ", expected 42").as_str(),
        );
    }
    assert(lines.deep_view() =~= report.lines);
    Probe { ok: got == 42, lines }
}

/// Whether every character is an ASCII digit.
pub open spec fn all_digits(s: Seq<char>) -> bool {
    text::all_in_class(s, false, false, true, ""@)
}

/// Whether a line is a terminal size: two numbers with a space between.
pub open spec fn is_size(line: Seq<char>) -> bool {
    let w = podman::words(line);
    &&& line.contains(' ')
    &&& w.len() == 2
    &&& all_digits(w[0])
    &&& all_digits(w[1])
    &&& line.len() > 0 && '0' <= line[0] <= '9'
}

/// The last line that is a terminal size, trimmed;
/// empty without one.
pub open spec fn last_size(lines: Seq<Seq<char>>) -> Seq<char>
    decreases lines.len(),
{
    if lines.len() == 0 {
        Seq::empty()
    } else if is_size(text::trimmed(lines.last())) {
        text::trimmed(lines.last())
    } else {
        last_size(lines.drop_last())
    }
}

fn size_line(line: &str) -> (b: bool)
    ensures
        b == is_size(line@),
{
    let w = podman::words_of(line);
    let ghost wv = podman::words(line@);
    assert(w@.len() == wv.len());
    let v = text::chars_of(line);
    if !text::has_char(line, ' ') || w.len() != 2 {
        return false;
    }
    assert(wv[0] == w@[0]@ && wv[1] == w@[1]@);
    text::all_in(w[0].as_str(), false, false, true, "") && text::all_in(
        w[1].as_str(),
        false,
        false,
        true,
        "",
    ) && v.len() > 0 && '0' <= v[0] && v[0] <= '9'
}

/// Finds the terminal size that a captured pane shows last; empty without
/// one.
pub fn pane_size(captured: &str) -> (s: String)
    ensures
        s@ == last_size(text::lines_of(captured@)),
{
    let lines = text::lines(captured);
    let ghost all = text::lines_of(captured@);
    let mut k: usize = lines.len();
    assert(all.take(k as int) =~= all);
    while k > 0
        invariant
            lines.deep_view() == all,
            all == text::lines_of(captured@),
            k <= lines@.len(),
            last_size(all) == last_size(all.take(k as int)),
        decreases k,
    {
        let line = text::trim(lines[k - 1].as_str());
        assert(all[k - 1] == lines@[k - 1]@);
        assert(all.take(k as int).last() == all[k - 1]);
        assert(all.take(k as int).drop_last() =~= all.take(k - 1));
        if size_line(line.as_str()) {
            return line;
        }
        k = k - 1;
    }
    assert(all.take(0) =~= Seq::<Seq<char>>::empty());
    assert(""@ =~= Seq::<char>::empty()) by {
        reveal_strlit("");
    }
    "".to_owned()
}

/// What the resize probe came to.
#[derive(Debug)]
pub enum ResizeRun {
    /// There is no `tmux`.
    NoTmux,
    /// No window could be opened.
    NoWindow,
    /// The sizes before and after the resize.
    Sizes(String, String),
}

/// Lines of the resize verdict.
pub open spec fn resize_lines(before: Seq<char>, after: Seq<char>) -> Seq<Seq<char>> {
    if before == "0 0"@ && after == "0 0"@ {
        seq![
            "[WARN] resize still 0 0 in tmux window — exec stdio not on pane PTY in this harness"@,
            "       driver wiring (point 2) will fix: exec client must inherit pane PTY slave"@,
        ]
    } else if before.len() > 0 && after.len() > 0 && before != after {
        seq!["[PASS] resize propagated (tmux window → container)"@]
    } else if after.len() > 0 && after != "0 0"@ {
        seq!["[INFO] resize shows non-zero size, but before/after equal (may be race)"@]
    } else {
        seq![
            "[WARN] resize test inconclusive (before='"@ + before + "', after='"@ + after + "')"@,
        ]
    }
}

/// Report of the resize probe; it never fails.
pub open spec fn resize_report(run: ResizeRun) -> ProbeView {
    let head = "\n-- resize propagation --"@;
    ProbeView {
        ok: true,
        lines: match run {
            ResizeRun::NoTmux => seq![
                head,
                "[SKIP] tmux not found; resize needs tmux pane PTY as SIGWINCH source (1a)"@,
            ],
            ResizeRun::NoWindow => seq![head, "[WARN] tmux new-session failed for resize test"@],
            ResizeRun::Sizes(before, after) => seq![
                head,
                "  before (tmux window 80x24): '"@ + before@ + "'"@,
                "  after tmux resize to 100x30: '"@ + after@ + "'"@,
            ] + resize_lines(before@, after@),
        },
    }
}

fn say_resize(lines: &mut Vec<String>, before: &str, after: &str)
    ensures
        final(lines).deep_view() == old(lines).deep_view() + resize_lines(before@, after@),
{
    let ghost start = lines.deep_view();
    if text::eq(before, "0 0") && text::eq(after, "0 0") {
        say(
            lines,
            "[WARN] resize still 0 0 in tmux window — exec stdio not on pane PTY in this harness",
        );
        say(
            lines,
            "       driver wiring (point 2) will fix: exec client must inherit pane PTY slave",
        );
    } else if !before.is_empty() && !after.is_empty() && !text::eq(before, after) {
        say(lines, "[PASS] resize propagated (tmux window → container)");
    } else if !after.is_empty() && !text::eq(after, "0 0") {
        say(lines, "[INFO] resize shows non-zero size, but before/after equal (may be race)");
    } else {
        say(
            lines,
            text::cat5(
                "[WARN] resize test inconclusive (before='",
                before,
                "', after='",
                after,
                "')",
            ).as_str(),
        );
    }
    assert(lines.deep_view() =~= start + resize_lines(before@, after@));
}

/// Judges the resize probe.
pub fn probe_resize(run: &ResizeRun) -> (p: Probe)
    ensures
        p@ == resize_report(*run),
{
    let mut lines = none_yet();
    say(&mut lines, "\n-- resize propagation --");
    match run {
        ResizeRun::NoTmux => {
            say(
                &mut lines,
                "[SKIP] tmux not found; resize needs tmux pane PTY as SIGWINCH source (1a)",
            );
        },
        ResizeRun::NoWindow => {
            say(&mut lines, "[WARN] tmux new-session failed for resize test");
        },
        ResizeRun::Sizes(before, after) => {
            say(
                &mut lines,
                text::cat3("  before (tmux window 80x24): '", before.as_str(), "'").as_str(),
            );
            say(
                &mut lines,
                text::cat3("  after tmux resize to 100x30: '", after.as_str(), "'").as_str(),
            );
            say_resize(&mut lines, before.as_str(), after.as_str());
        },
    }
    assert(lines.deep_view() =~= resize_report(*run).lines);
    Probe { ok: true, lines }
}

/// Whether a line shows a device-attributes reply in hex.
pub open spec fn shows_reply(line: Seq<char>) -> bool {
    text::occurs("DA1:"@, line) && text::occurs("1b"@, line)
}

/// Lines that show a reply, with what they show.
pub open spec fn reply_lines(lines: Seq<Seq<char>>) -> Seq<Seq<char>>
    decreases lines.len(),
{
    if lines.len() == 0 {
        Seq::empty()
    } else if shows_reply(lines.last()) {
        reply_lines(lines.drop_last()).push("  da1 reply hex: "@ + text::trimmed(lines.last()))
    } else {
        reply_lines(lines.drop_last())
    }
}

/// Whether some line shows the start of a reply (`ESC [ ?`).
pub open spec fn reply_found(lines: Seq<Seq<char>>) -> bool {
    exists|i: int|
        0 <= i < lines.len() && shows_reply(#[trigger] lines[i]) && text::occurs(
            "5b 3f"@,
            lines[i],
        )
}

fn replies_in(captured: &str) -> (r: (bool, Vec<String>))
    ensures
        r.0 == reply_found(text::lines_of(captured@)),
        r.1.deep_view() == reply_lines(text::lines_of(captured@)),
{
    let input = text::lines(captured);
    let ghost all = text::lines_of(captured@);
    let mut lines = none_yet();
    let mut found = false;
    let mut k: usize = 0;
    assert(all.take(0) =~= Seq::<Seq<char>>::empty());
    while k < input.len()
        invariant
            input.deep_view() == all,
            k <= input@.len(),
            lines.deep_view() == reply_lines(all.take(k as int)),
            found == reply_found(all.take(k as int)),
        decreases input.len() - k,
    {
        let line = input[k].as_str();
        let ghost now = all.take(k as int);
        let ghost next = all.take(k + 1);
        assert(all[k as int] == line@);
        assert(next.drop_last() =~= now);
        assert(next.last() == line@);
        assert(forall|i: int| 0 <= i < k ==> next[i] == now[i]);
        if text::contains(line, "DA1:") && text::contains(line, "1b") {
            say(
                &mut lines,
                text::cat("  da1 reply hex: ", text::trim(line).as_str()).as_str(),
            );
            if text::contains(line, "5b 3f") {
                assert(shows_reply(next[k as int]));
                found = true;
            }
        }
        proof {
            if reply_found(now) {
                let i = choose|i: int|
                    0 <= i < now.len() && shows_reply(#[trigger] now[i]) && text::occurs(
                        "5b 3f"@,
                        now[i],
                    );
                assert(shows_reply(next[i]));
            }
            if reply_found(next) {
                let i = choose|i: int|
                    0 <= i < next.len() && shows_reply(#[trigger] next[i]) && text::occurs(
                        "5b 3f"@,
                        next[i],
                    );
                if i < k {
                    assert(shows_reply(now[i]));
                }
            }
        }
        k = k + 1;
    }
    assert(all.take(k as int) =~= all);
    (found, lines)
}

/// Whether a captured pane shows a device-attributes reply.
pub fn reply_seen(captured: &str) -> (b: bool)
    ensures
        b == reply_found(text::lines_of(captured@)),
{
    replies_in(captured).0
}

/// Report of the reply probe from the pane captured with `tmux`, if there is
/// one, and from a run without; it never fails.
pub open spec fn reply_report(captured: Option<Seq<char>>, fallback: Seq<char>) -> ProbeView {
    let head = seq!["\n-- reply-path (inbound DA1) --"@];
    ProbeView {
        ok: true,
        lines: match captured {
            None => head.push("[SKIP] tmux not found for reply-path test"@),
            Some(pane) => head + reply_lines(text::lines_of(pane)) + (if reply_found(
                text::lines_of(pane),
            ) {
                seq!["[PASS] reply-path (DA1 inbound via tmux)"@]
            } else {
                seq![
                    "  da1 reply hex (script fallback): '"@ + text::trimmed(fallback) + "'"@,
                    "[WARN] no DA1 reply in this harness; under tmux pane PTY, tmux answers \\033[?62;...c"@,
                ]
            }),
        },
    }
}

/// Judges the reply probe. The fallback's output only counts where the pane
/// shows no reply.
pub fn probe_reply_path(captured: Option<&str>, fallback: &str) -> (p: Probe)
    ensures
        p@ == reply_report(captured.deep_view(), fallback@),
{
    let ghost report = reply_report(captured.deep_view(), fallback@);
    let mut lines = none_yet();
    say(&mut lines, "\n-- reply-path (inbound DA1) --");
    match captured {
        None => {
            say(&mut lines, "[SKIP] tmux not found for reply-path test");
        },
        Some(pane) => {
            let (found, shown) = replies_in(pane);
            transport::push_all(&mut lines, shown.as_slice());
            if found {
                say(&mut lines, "[PASS] reply-path (DA1 inbound via tmux)");
            } else {
                say(
                    &mut lines,
                    text::cat3(
                        "  da1 reply hex (script fallback): '",
                        text::trim(fallback).as_str(),
                        "'",
                    ).as_str(),
                );
                say(
                    &mut lines,
                    "[WARN] no DA1 reply in this harness; under tmux pane PTY, tmux answers \\033[?62;...c",
                );
            }
        },
    }
    assert(lines.deep_view() =~= report.lines);
    Probe { ok: true, lines }
}

/// Report of the trap probe: a missing pid and a failed kill only warn; the
/// marker decides.
pub open spec fn signal_report(pid: Seq<char>, kill_failed: bool, present: bool) -> ProbeView {
    let head = seq!["\n-- signal delivery (trap SIGINT) --"@];
    if pid.len() == 0 {
        ProbeView { ok: true, lines: head.push("[WARN] signal test: pid file missing"@) }
    } else {
        ProbeView {
            ok: present,
            lines: head.push("  trapped shell pid: "@ + pid) + (if kill_failed {
                seq!["[WARN] kill -INT failed"@]
            } else {
                Seq::<Seq<char>>::empty()
            }) + seq![
                if present {
                    "[PASS] signal delivery (trap SIGINT via kill)"@
                } else {
                    "[FAIL] signal delivery: trap marker not found after SIGINT"@
                },
            ],
        }
    }
}

/// Judges the trap probe: the trapped shell's pid (empty when unknown),
/// whether the kill failed, and whether the trap left its marker.
pub fn probe_signal(pid: &str, kill_failed: bool, present: bool) -> (p: Probe)
    ensures
        p@ == signal_report(pid@, kill_failed, present),
{
    let mut lines = none_yet();
    say(&mut lines, "\n-- signal delivery (trap SIGINT) --");
    if pid.is_empty() {
        say(&mut lines, "[WARN] signal test: pid file missing");
    } else {
        say(&mut lines, text::cat("  trapped shell pid: ", pid).as_str());
        if kill_failed {
            say(&mut lines, "[WARN] kill -INT failed");
        }
        if present {
            say(&mut lines, "[PASS] signal delivery (trap SIGINT via kill)");
        } else {
            say(&mut lines, "[FAIL] signal delivery: trap marker not found after SIGINT");
        }
    }
    assert(lines.deep_view() =~= signal_report(pid@, kill_failed, present).lines);
    Probe { ok: pid.is_empty() || present, lines }
}

/// Report of the terminal harness: both halves must pass.
pub open spec fn harness_report(da1: ProbeView, sigint: ProbeView) -> ProbeView {
    ProbeView {
        ok: da1.ok && sigint.ok,
        lines: seq!["\n-- PTY harness (DA1 + SIGINT via raw PTY) --"@] + da1.lines + sigint.lines + (
        if da1.ok && sigint.ok {
            seq!["[PASS] PTY harness (DA1 + SIGINT)"@]
        } else {
            (if da1.ok {
                Seq::<Seq<char>>::empty()
            } else {
                seq!["[FAIL] PTY harness DA1"@]
            }) + (if sigint.ok {
                Seq::<Seq<char>>::empty()
            } else {
                seq!["[FAIL] PTY harness SIGINT"@]
            })
        }),
    }
}

/// Judges the terminal harness from its two halves.
pub fn probe_pty_harness(da1: &Probe, sigint: &Probe) -> (p: Probe)
    ensures
        p@ == harness_report(da1@, sigint@),
{
    let mut lines = none_yet();
    say(&mut lines, "\n-- PTY harness (DA1 + SIGINT via raw PTY) --");
    transport::push_all(&mut lines, da1.lines.as_slice());
    transport::push_all(&mut lines, sigint.lines.as_slice());
    if da1.ok && sigint.ok {
        say(&mut lines, "[PASS] PTY harness (DA1 + SIGINT)");
    } else {
        if !da1.ok {
            say(&mut lines, "[FAIL] PTY harness DA1");
        }
        if !sigint.ok {
            say(&mut lines, "[FAIL] PTY harness SIGINT");
        }
    }
    assert(lines.deep_view() =~= harness_report(da1@, sigint@).lines);
    Probe { ok: da1.ok && sigint.ok, lines }
}

// ---------------------------------------------------------------------
// Terminal harness
// ---------------------------------------------------------------------

/// Whether bytes occur in a stream at an index.
pub open spec fn bytes_at(stream: Seq<u8>, needle: Seq<u8>, i: int) -> bool {
    0 <= i && i + needle.len() <= stream.len() && stream.subrange(i, i + needle.len()) == needle
}

/// Whether bytes occur in a stream.
pub open spec fn bytes_in(stream: Seq<u8>, needle: Seq<u8>) -> bool {
    exists|i: int| #[trigger] bytes_at(stream, needle, i)
}

/// The device-attributes query: `ESC [ c`.
pub open spec fn da1_query() -> Seq<u8> {
    seq![0x1bu8, 0x5b, 0x63]
}

/// The harness's greeting: `READY`.
pub open spec fn ready_mark() -> Seq<u8> {
    seq![0x52u8, 0x45, 0x41, 0x44, 0x59]
}

fn stands_in(stream: &Vec<u8>, needle: &Vec<u8>, i: usize) -> (b: bool)
    requires
        i + needle@.len() <= stream@.len(),
    ensures
        b == (stream@.subrange(i as int, i + needle@.len()) == needle@),
{
    let total: usize = stream.len();
    let mut k: usize = 0;
    while k < needle.len()
        invariant
            total == stream@.len(),
            i + needle@.len() <= stream@.len(),
            k <= needle@.len(),
            forall|j: int| 0 <= j < k ==> stream@[i + j] == needle@[j],
        decreases needle.len() - k,
    {
        if stream[i + k] != needle[k] {
            assert(stream@.subrange(i as int, i + needle@.len())[k as int] == stream@[i + k]);
            return false;
        }
        k = k + 1;
    }
    assert(stream@.subrange(i as int, i + needle@.len()) =~= needle@);
    true
}

fn occurs_in(stream: &Vec<u8>, needle: &Vec<u8>) -> (b: bool)
    ensures
        b == bytes_in(stream@, needle@),
{
    if needle.len() > stream.len() {
        assert(forall|i: int| !(#[trigger] bytes_at(stream@, needle@, i)));
        return false;
    }
    let last: usize = stream.len() - needle.len();
    let mut i: usize = 0;
    while i <= last
        invariant
            last == stream@.len() - needle@.len(),
            i <= last + 1,
            last < usize::MAX || needle@.len() == 0,
            forall|j: int| 0 <= j < i ==> !(#[trigger] bytes_at(stream@, needle@, j)),
        decreases last + 1 - i,
    {
        if stands_in(stream, needle, i) {
            assert(bytes_at(stream@, needle@, i as int));
            return true;
        }
        assert(!bytes_at(stream@, needle@, i as int));
        if i == last {
            assert forall|j: int| !(#[trigger] bytes_at(stream@, needle@, j)) by {
                if 0 <= j && j <= last {
                }
            }
            return false;
        }
        i = i + 1;
    }
    false
}

/// Watches a terminal's output for a byte sequence.
#[derive(Debug)]
pub struct Watcher {
    seen: Vec<u8>,
    needle: Vec<u8>,
}

impl Watcher {
    /// Everything read so far.
    pub closed spec fn stream(&self) -> Seq<u8> {
        self.seen@
    }

    /// The sequence watched for.
    pub closed spec fn target(&self) -> Seq<u8> {
        self.needle@
    }

    /// Watches for the device-attributes query.
    pub fn for_query() -> (w: Self)
        ensures
            w.stream() == Seq::<u8>::empty(),
            w.target() == da1_query(),
    {
        let mut needle: Vec<u8> = Vec::new();
        needle.push(0x1b);
        needle.push(0x5b);
        needle.push(0x63);
        assert(needle@ =~= da1_query());
        Watcher { seen: Vec::new(), needle }
    }

    /// Watches for the harness's greeting.
    pub fn for_ready() -> (w: Self)
        ensures
            w.stream() == Seq::<u8>::empty(),
            w.target() == ready_mark(),
    {
        let mut needle: Vec<u8> = Vec::new();
        needle.push(0x52);
        needle.push(0x45);
        needle.push(0x41);
        needle.push(0x44);
        needle.push(0x59);
        assert(needle@ =~= ready_mark());
        Watcher { seen: Vec::new(), needle }
    }

    /// Takes more output: whether the sequence occurred by now, across
    /// however many reads it came in.
    pub fn feed(&mut self, bytes: &[u8]) -> (found: bool)
        ensures
            final(self).stream() == old(self).stream() + bytes@,
            final(self).target() == old(self).target(),
            found == bytes_in(final(self).stream(), final(self).target()),
    {
        let ghost start = self.seen@;
        let mut k: usize = 0;
        assert(start + bytes@.take(0) =~= start);
        while k < bytes.len()
            invariant
                k <= bytes@.len(),
                self.seen@ == start + bytes@.take(k as int),
                self.needle@ == old(self).needle@,
            decreases bytes.len() - k,
        {
            self.seen.push(bytes[k]);
            assert(bytes@.take(k + 1) =~= bytes@.take(k as int).push(bytes@[k as int]));
            assert(self.seen@ =~= start + bytes@.take(k + 1));
            k = k + 1;
        }
        assert(bytes@.take(k as int) =~= bytes@);
        occurs_in(&self.seen, &self.needle)
    }

    /// Whether the sequence occurred.
    pub fn found(&self) -> (b: bool)
        ensures
            b == bytes_in(self.stream(), self.target()),
    {
        occurs_in(&self.seen, &self.needle)
    }

    /// How many bytes were read.
    pub fn len(&self) -> (n: usize)
        ensures
            n == self.stream().len(),
    {
        self.seen.len()
    }
}

/// What a harness's terminal came to.
#[derive(Debug)]
pub enum Terminal {
    /// It could not be opened.
    Failed(String),
    /// It was opened, and its output watched.
    Watched(Watcher),
}

/// What a harness plays back to the query: canned attributes, `ESC [ ? 6 c`.
pub open spec fn da1_answer() -> Seq<u8> {
    seq![0x1bu8, 0x5b, 0x3f, 0x36, 0x63]
}

/// Plays the terminal: answers a query that was seen, and only one that was
/// seen.
pub fn da1_reply(watcher: &Watcher) -> (r: Option<Vec<u8>>)
    ensures
        match r {
            Some(bytes) => bytes_in(watcher.stream(), watcher.target()) && bytes@ == da1_answer(),
            None => !bytes_in(watcher.stream(), watcher.target()),
        },
{
    if !watcher.found() {
        return None;
    }
    let mut bytes: Vec<u8> = Vec::new();
    bytes.push(0x1b);
    bytes.push(0x5b);
    bytes.push(0x3f);
    bytes.push(0x36);
    bytes.push(0x63);
    assert(bytes@ =~= da1_answer());
    Some(bytes)
}

/// Report of a query seen or not, after so many bytes, and of what the
/// container wrote down: a reply with the canned attributes passes; a query
/// seen and answered passes with any reply.
pub open spec fn da1_report(content: Seq<char>, saw_query: bool, len: nat) -> ProbeView {
    let head = seq![
        if saw_query {
            "  DA1: saw \\033[c, wrote \\033[?6c"@
        } else {
            "  DA1: did not see \\033[c within timeout (acc len "@ + text::dec(len) + ")"@
        },
    ];
    if text::occurs("6c"@, content) {
        ProbeView {
            ok: true,
            lines: head.push("  DA1 harness: container got reply '"@ + content + "'"@),
        }
    } else if saw_query {
        ProbeView {
            ok: content.len() > 0,
            lines: head.push(
                "  DA1 harness: container reply '"@ + content + "' (expected ?6c)"@,
            ),
        }
    } else {
        ProbeView { ok: false, lines: head }
    }
}

/// Report of the query harness.
pub open spec fn da1_harness(terminal: Terminal, content: Seq<char>) -> ProbeView {
    match terminal {
        Terminal::Failed(e) => ProbeView {
            ok: false,
            lines: seq!["  [WARN] forkpty failed for DA1: "@ + e@],
        },
        Terminal::Watched(w) => da1_report(
            content,
            bytes_in(w.stream(), w.target()),
            w.stream().len(),
        ),
    }
}

/// Judges the query harness from its terminal and from what the container
/// wrote down.
pub fn pty_harness_da1(terminal: &Terminal, content: &str) -> (p: Probe)
    ensures
        p@ == da1_harness(*terminal, content@),
{
    let mut lines = none_yet();
    let ok = match terminal {
        Terminal::Failed(e) => {
            say(&mut lines, text::cat("  [WARN] forkpty failed for DA1: ", e.as_str()).as_str());
            false
        },
        Terminal::Watched(w) => {
            let saw_query = w.found();
            if saw_query {
                say(&mut lines, "  DA1: saw \\033[c, wrote \\033[?6c");
            } else {
                say(
                    &mut lines,
                    text::cat3(
                        "  DA1: did not see \\033[c within timeout (acc len ",
                        text::dec_u64(w.len() as u64).as_str(),
                        ")",
                    ).as_str(),
                );
            }
            if text::contains(content, "6c") {
                say(
                    &mut lines,
                    text::cat3("  DA1 harness: container got reply '", content, "'").as_str(),
                );
                true
            } else if saw_query {
                say(
                    &mut lines,
                    text::cat3(
                        "  DA1 harness: container reply '",
                        content,
                        "' (expected ?6c)",
                    ).as_str(),
                );
                !content.is_empty()
            } else {
                false
            }
        },
    };
    assert(lines.deep_view() =~= da1_harness(*terminal, content@).lines);
    Probe { ok, lines }
}

/// Report of the interrupt harness: the trap's marker decides; a greeting
/// not seen does not.
pub open spec fn sigint_harness(terminal: Terminal, present: bool) -> ProbeView {
    match terminal {
        Terminal::Failed(e) => ProbeView {
            ok: false,
            lines: seq!["  [WARN] forkpty failed for SIGINT: "@ + e@],
        },
        Terminal::Watched(w) => ProbeView {
            ok: present,
            lines: seq![
                if bytes_in(w.stream(), w.target()) {
                    "  SIGINT: saw READY, writing 0x03"@
                } else {
                    "  SIGINT: READY not seen, still writing 0x03 (may be racy)"@
                },
                "  SIGINT: wrote 0x03 to PTY master"@,
                if present {
                    "  SIGINT harness: trap marker present"@
                } else {
                    "  SIGINT harness: marker absent"@
                },
            ],
        },
    }
}

/// Judges the interrupt harness from its terminal and from the trap's
/// marker.
pub fn pty_harness_sigint(terminal: &Terminal, present: bool) -> (p: Probe)
    ensures
        p@ == sigint_harness(*terminal, present),
{
    let mut lines = none_yet();
    let ok = match terminal {
        Terminal::Failed(e) => {
            say(
                &mut lines,
                text::cat("  [WARN] forkpty failed for SIGINT: ", e.as_str()).as_str(),
            );
            false
        },
        Terminal::Watched(w) => {
            if w.found() {
                say(&mut lines, "  SIGINT: saw READY, writing 0x03");
            } else {
                say(&mut lines, "  SIGINT: READY not seen, still writing 0x03 (may be racy)");
            }
            say(&mut lines, "  SIGINT: wrote 0x03 to PTY master");
            if present {
                say(&mut lines, "  SIGINT harness: trap marker present");
            } else {
                say(&mut lines, "  SIGINT harness: marker absent");
            }
            present
        },
    };
    assert(lines.deep_view() =~= sigint_harness(*terminal, present).lines);
    Probe { ok, lines }
}

// ---------------------------------------------------------------------
// Large payload
// ---------------------------------------------------------------------

/// Bytes of the large payload.
pub const PAYLOAD_SIZE: usize = 1_048_576;

/// First word of a text; empty without one.
pub open spec fn first_word(s: Seq<char>) -> Seq<char> {
    let w = podman::words(s);
    if w.len() > 0 {
        w[0]
    } else {
        Seq::empty()
    }
}

/// Takes the digest that `sha256sum` printed.
fn digest_word(stdout: &str) -> (s: String)
    ensures
        s@ == first_word(stdout@),
{
    let w = podman::words_of(stdout);
    let ghost wv = podman::words(stdout@);
    assert(w@.len() == wv.len());
    if w.len() > 0 {
        assert(wv[0] == w@[0]@);
        w[0].clone()
    } else {
        assert(""@ =~= Seq::<char>::empty()) by {
            reveal_strlit("");
        }
        "".to_owned()
    }
}

/// What streaming the payload out came to.
#[derive(Debug)]
pub enum PayloadRun {
    /// The exec could not be run.
    Missing(String),
    /// The exec failed, with its diagnostics.
    Failed(String),
    /// So many bytes came out, and `sha256sum` on the host printed this of
    /// them (nothing where it is missing).
    Streamed(usize, String),
}

/// Report of a streamed payload: the byte count must match, and so must the
/// digests where both are known.
pub open spec fn stream_report(len: nat, inside: Seq<char>, host: Seq<char>) -> ProbeView {
    let head = seq![
        "  streamed bytes: "@ + text::dec(len) + " (expected 1048576)"@,
    ];
    if len != PAYLOAD_SIZE {
        ProbeView { ok: false, lines: head.push("[FAIL] large-payload: byte count mismatch"@) }
    } else if inside.len() > 0 && host.len() > 0 {
        if inside == host {
            ProbeView {
                ok: true,
                lines: head.push("  host sha256:   "@ + host).push(
                    "[PASS] large-payload byte-integrity (1 MB, sha256 match)"@,
                ),
            }
        } else {
            ProbeView {
                ok: false,
                lines: head.push("  host sha256:   "@ + host).push(
                    "[FAIL] large-payload sha256 mismatch"@,
                ),
            }
        }
    } else {
        ProbeView {
            ok: true,
            lines: head.push(
                "[PASS] large-payload byte count OK (sha256 tool unavailable)"@,
            ),
        }
    }
}

/// Verdict on a payload run, given the digest inside.
pub open spec fn payload_verdict(inside: Seq<char>, run: PayloadRun) -> ProbeView {
    match run {
        PayloadRun::Missing(e) => ProbeView {
            ok: false,
            lines: seq!["[FAIL] large-payload exec error: "@ + e@],
        },
        PayloadRun::Failed(err) => ProbeView {
            ok: false,
            lines: seq!["[FAIL] large-payload exec failed: "@ + text::trimmed(err@)],
        },
        PayloadRun::Streamed(len, host) => stream_report(len as nat, inside, first_word(host@)),
    }
}

/// Report of the payload probe: what `sha256sum` printed inside, and the
/// run that streamed the payload out.
pub open spec fn payload_report(inside: Seq<char>, run: PayloadRun) -> ProbeView {
    let digest = first_word(inside);
    ProbeView {
        ok: payload_verdict(digest, run).ok,
        lines: seq![
            "\n-- large-payload outbound (1 MB) --"@,
            "[INFO] tmux graphics caveat: validate Kitty \033_G...\\033\\ via raw PTY/Ghostty, not tmux pane"@,
            "  inside sha256: "@ + (if digest.len() == 0 {
                "(failed)"@
            } else {
                digest
            }),
        ] + payload_verdict(digest, run).lines,
    }
}

fn judge_stream(len: usize, inside: &str, host: &str) -> (p: Probe)
    ensures
        p@ == stream_report(len as nat, inside@, host@),
{
    let mut lines = none_yet();
    say(
        &mut lines,
        text::cat3(
            "  streamed bytes: ",
            text::dec_u64(len as u64).as_str(),
            " (expected 1048576)",
        ).as_str(),
    );
    assert(lines.deep_view() =~= seq![
        "  streamed bytes: "@ + text::dec(len as nat) + " (expected 1048576)"@,
    ]);
    if len != PAYLOAD_SIZE {
        say(&mut lines, "[FAIL] large-payload: byte count mismatch");
        return Probe { ok: false, lines };
    }
    if !inside.is_empty() && !host.is_empty() {
        say(&mut lines, text::cat("  host sha256:   ", host).as_str());
        if text::eq(inside, host) {
            say(&mut lines, "[PASS] large-payload byte-integrity (1 MB, sha256 match)");
            Probe { ok: true, lines }
        } else {
            say(&mut lines, "[FAIL] large-payload sha256 mismatch");
            Probe { ok: false, lines }
        }
    } else {
        say(&mut lines, "[PASS] large-payload byte count OK (sha256 tool unavailable)");
        Probe { ok: true, lines }
    }
}

/// Judges the payload probe.
pub fn probe_large_payload(inside: &str, run: &PayloadRun) -> (p: Probe)
    ensures
        p@ == payload_report(inside@, *run),
{
    let digest = digest_word(inside);
    let mut lines = none_yet();
    say(&mut lines, "\n-- large-payload outbound (1 MB) --");
    say(
        &mut lines,
        "[INFO] tmux graphics caveat: validate Kitty \033_G...\\033\\ via raw PTY/Ghostty, not tmux pane",
    );
    if digest.as_str().is_empty() {
        say(&mut lines, "  inside sha256: (failed)");
        proof {
            lemma_failed_digest();
        }
    } else {
        say(&mut lines, text::cat("  inside sha256: ", digest.as_str()).as_str());
    }
    let ok = match run {
        PayloadRun::Missing(e) => {
            say(&mut lines, text::cat("[FAIL] large-payload exec error: ", e.as_str()).as_str());
            false
        },
        PayloadRun::Failed(err) => {
            say(
                &mut lines,
                text::cat(
                    "[FAIL] large-payload exec failed: ",
                    text::trim(err.as_str()).as_str(),
                ).as_str(),
            );
            false
        },
        PayloadRun::Streamed(len, host) => {
            let host_digest = digest_word(host.as_str());
            let judged = judge_stream(*len, digest.as_str(), host_digest.as_str());
            transport::push_all(&mut lines, judged.lines.as_slice());
            judged.ok
        },
    };
    assert(lines.deep_view() =~= payload_report(inside@, *run).lines);
    Probe { ok, lines }
}

proof fn lemma_failed_digest()
    ensures
        "  inside sha256: (failed)"@ == "  inside sha256: "@ + "(failed)"@,
{
    reveal_strlit("  inside sha256: (failed)");
    reveal_strlit("  inside sha256: ");
    reveal_strlit("(failed)");
    assert("  inside sha256: (failed)"@ =~= "  inside sha256: "@ + "(failed)"@);
}

// ---------------------------------------------------------------------
// Laws
// ---------------------------------------------------------------------

/// A sequence that a watcher saw stays seen, whatever is read after it.
pub proof fn law_watchers_never_forget(stream: Seq<u8>, more: Seq<u8>, needle: Seq<u8>)
    requires
        bytes_in(stream, needle),
    ensures
        bytes_in(stream + more, needle),
{
    let i = choose|i: int| #[trigger] bytes_at(stream, needle, i);
    assert((stream + more).subrange(i, i + needle.len()) =~= stream.subrange(i, i + needle.len()));
    assert(bytes_at(stream + more, needle, i));
}

/// Without a request to mount, the run never names or mounts the host's
/// terminal descriptions.
pub proof fn law_terminfo_is_mounted_only_on_request(
    args: ArgsView,
    e: HostEnvView,
    other: HostEnvView,
    pid: nat,
    exists: Seq<bool>,
    others: Seq<bool>,
)
    requires
        !args.mount_terminfo,
        e.term == other.term,
        e.colorterm == other.colorterm,
        e.term_program == other.term_program,
    ensures
        run_argv(args, e, pid, exists) == run_argv(args, other, pid, others),
{
}

/// Whether an argument asks for help.
pub open spec fn asks_help(s: Seq<char>) -> bool {
    s == "--help"@ || s == "-h"@
}

/// Whether an argument names an image.
pub open spec fn names_image(s: Seq<char>) -> bool {
    s == "--image"@ || "--image="@.is_prefix_of(s)
}

/// Without help and without a bare `--image`, the arguments are taken; each
/// switch is on when it stands among them or was on before.
pub proof fn law_switches_turn_on(raw: Seq<Seq<char>>, k: int, a: ArgsView)
    requires
        0 <= k,
        forall|i: int|
            k <= i < raw.len() ==> !asks_help(#[trigger] raw[i]) && raw[i] != "--image"@,
    ensures
        args_from(raw, k, a) is Some,
        (args_from(raw, k, a)->0).with_podman <==> a.with_podman || exists|i: int|
            k <= i < raw.len() && #[trigger] raw[i] == "--with-podman"@,
        (args_from(raw, k, a)->0).mount_terminfo <==> a.mount_terminfo || exists|i: int|
            k <= i < raw.len() && #[trigger] raw[i] == "--mount-terminfo"@,
        (forall|i: int| k <= i < raw.len() ==> !names_image(#[trigger] raw[i])) ==> (args_from(
            raw,
            k,
            a,
        )->0).image == a.image,
    decreases raw.len() - k,
{
    reveal_strlit("--with-podman");
    reveal_strlit("--mount-terminfo");
    reveal_strlit("--image=");
    assert("--with-podman"@[2] == 'w' && "--mount-terminfo"@[2] == 'm' && "--image="@[2] == 'i');
    assert("--image="@.is_prefix_of("--with-podman"@) ==> "--with-podman"@[2] == "--image="@[2]);
    assert("--image="@.is_prefix_of("--mount-terminfo"@) ==> "--mount-terminfo"@[2]
        == "--image="@[2]);
    if k < raw.len() {
        let next = if raw[k] == "--with-podman"@ {
            ArgsView { with_podman: true, ..a }
        } else if raw[k] == "--mount-terminfo"@ {
            ArgsView { mount_terminfo: true, ..a }
        } else if "--image="@.is_prefix_of(raw[k]) {
            ArgsView { image: raw[k].skip(8), ..a }
        } else {
            a
        };
        assert(!asks_help(raw[k]));
        assert(args_from(raw, k, a) == args_from(raw, k + 1, next));
        law_switches_turn_on(raw, k + 1, next);
    }
}

/// The image is the last one that was named, either way of naming it.
pub proof fn law_last_image_is_taken(raw: Seq<Seq<char>>, k: int, a: ArgsView, x: Seq<char>)
    requires
        0 <= k < raw.len(),
        raw[k] == "--image="@ + x || (raw[k] == "--image"@ && k + 1 < raw.len() && raw[k + 1] == x),
        forall|i: int|
            k < i < raw.len() && !(i == k + 1 && raw[k] == "--image"@) ==> !asks_help(
                #[trigger] raw[i],
            ) && !names_image(raw[i]),
    ensures
        args_from(raw, k, a) is Some,
        (args_from(raw, k, a)->0).image == x,
{
    reveal_strlit("--with-podman");
    reveal_strlit("--mount-terminfo");
    reveal_strlit("--image=");
    reveal_strlit("--image");
    assert("--with-podman"@[2] == 'w' && "--mount-terminfo"@[2] == 'm' && "--image="@[2] == 'i'
        && "--image"@[2] == 'i');
    assert("--image="@.len() == 8 && "--image"@.len() == 7);
    let next = ArgsView { image: x, ..a };
    if raw[k] == "--image="@ + x {
        assert(raw[k][2] == 'i');
        assert(raw[k].len() >= 8);
        assert(raw[k].skip(8) =~= x);
        assert("--image="@.is_prefix_of(raw[k])) by {
            assert(raw[k].subrange(0, 8) =~= "--image="@);
        }
        assert(raw[k] != "--image"@);
        law_switches_turn_on(raw, k + 1, next);
    } else {
        law_switches_turn_on(raw, k + 2, next);
    }
}

/// The host's terminal passes exactly when it has a name.
pub proof fn law_named_terminals_pass(e: HostEnvView)
    ensures
        host_env_report(e).ok <==> e.term is Some && (e.term->0).len() > 0 && e.term->0
            != "(unset)"@,
        host_env_report(e).lines.len() >= 6,
        e.term is Some ==> host_env_report(e).lines[1] == "TERM="@ + e.term->0,
        e.colorterm is Some ==> host_env_report(e).lines[2] == "COLORTERM="@ + e.colorterm->0,
        e.term_program is Some ==> host_env_report(e).lines[3] == "TERM_PROGRAM="@
            + e.term_program->0,
        e.terminfo is Some ==> host_env_report(e).lines[4] == "TERMINFO="@ + e.terminfo->0,
        e.term is None ==> host_env_report(e).lines[1] == "TERM="@ + "(unset)"@,
{
}

/// What the probes call passed: a description that was found or could not be
/// looked for, the status 42, a marker left by the trap, an answer that holds
/// `6c` or at least something after the query, and both halves of the harness.
pub proof fn law_probes_pass_for_cause(
    term: Seq<char>,
    described: ToolView,
    colors: ToolView,
    rgb: ToolView,
    outcome: std::result::Result<Option<i32>, Seq<char>>,
    pid: Seq<char>,
    kill_failed: bool,
    present: bool,
    content: Seq<char>,
    saw_query: bool,
    len: nat,
    da1: ProbeView,
    sigint: ProbeView,
)
    ensures
        terminfo_report(term, described, colors, rgb, false, false, false, false).ok
            <==> described is Missing || (described matches ToolView::Ran(ok, _, _) && ok),
        exit_report(outcome).ok <==> outcome == Ok::<Option<i32>, Seq<char>>(Some(42i32)),
        signal_report(pid, kill_failed, present).ok <==> pid.len() == 0 || present,
        da1_report(content, saw_query, len).ok <==> text::occurs("6c"@, content) || (saw_query
            && content.len() > 0),
        harness_report(da1, sigint).ok <==> da1.ok && sigint.ok,
{
}

/// A streamed payload passes when every byte came and no two digests differ.
pub proof fn law_payloads_pass_whole(len: nat, inside: Seq<char>, host: Seq<char>)
    ensures
        stream_report(len, inside, host).ok <==> len == 1_048_576 && (inside == host
            || inside.len() == 0 || host.len() == 0),
{
    if inside.len() == 0 && host.len() == 0 {
        assert(inside =~= host);
    }
}

/// A run in the container passes as the command did, and its report says what
/// the command printed.
pub proof fn law_runs_pass_as_the_command(
    container: Seq<char>,
    cmd: Seq<Seq<char>>,
    with_tty: bool,
    ok: bool,
    out: Seq<char>,
    err: Seq<char>,
    status: Seq<char>,
)
    ensures
        ({
            let r = exec_report(container, cmd, with_tty, ToolView::Ran(ok, out, err), status);
            &&& r.ok == ok
            &&& r.lines[1] == "  stdout: "@ + text::trimmed(out)
            &&& r.lines.last() == "  exit: "@ + status
            &&& err.len() > 0 ==> r.lines[2] == "  stderr: "@ + text::trimmed(err)
        }),
        !exec_report(container, cmd, with_tty, ToolView::Missing(err), status).ok,
        run_fault(ToolView::Ran(ok, out, err)) is None <==> ok,
        run_fault(ToolView::Missing(err)) is Some,
{
}

/// The container is started under a name and a label of the process, keeping
/// the user's id, with the terminal named, and sleeps in the image asked for.
pub proof fn law_containers_start_as_asked(
    args: ArgsView,
    e: HostEnvView,
    pid: nat,
    exists: Seq<bool>,
)
    ensures
        ({
            let argv = run_argv(args, e, pid, exists);
            let n = argv.len() as int;
            &&& n >= 14
            &&& argv[0] == "run"@ && argv[1] == "-d"@ && argv[2] == "--rm"@
            &&& argv[3] == "--name"@ && argv[4] == "cistella-term-spike-"@ + text::dec(pid)
            &&& argv[5] == "--label"@ && argv[6] == "cistella-spike="@ + text::dec(pid)
            &&& argv[7] == "--userns=keep-id"@
            &&& argv[8] == "-e"@
            &&& e.term is Some ==> argv[9] == "TERM="@ + e.term->0
            &&& e.term is None ==> argv[9] == "TERM="@ + "xterm-256color"@
            &&& argv[n - 4] == "--"@ && argv[n - 3] == args.image
            &&& argv[n - 2] == "sleep"@ && argv[n - 1] == "300"@
            &&& e.colorterm is Some && (e.colorterm->0).len() > 0 ==> argv[10] == "-e"@ && argv[11]
                == "COLORTERM"@ + "="@ + e.colorterm->0
            &&& (e.colorterm is None || (e.colorterm->0).len() == 0) && (e.term_program is None || (
            e.term_program->0).len() == 0) && !args.mount_terminfo ==> n == 14
        }),
{
    let argv = run_argv(args, e, pid, exists);
    let c = env_pair("COLORTERM"@, value_or(e.colorterm, Seq::empty()));
    let p = env_pair("TERM_PROGRAM"@, value_or(e.term_program, Seq::empty()));
    let m = if args.mount_terminfo {
        env_pair("TERMINFO"@, value_or(e.terminfo, Seq::empty())) + mount_pairs(
            candidates(e),
            exists,
        )
    } else {
        Seq::<Seq<char>>::empty()
    };
    let n = argv.len() as int;
    assert(n == 10 + c.len() + p.len() + m.len() + 4);
    assert(argv[10 - 1] == "TERM="@ + value_or(e.term, "xterm-256color"@));
    assert(argv[n - 4] == "--"@ && argv[n - 3] == args.image);
    assert(argv[n - 2] == "sleep"@ && argv[n - 1] == "300"@);
    if e.colorterm is Some && (e.colorterm->0).len() > 0 {
        assert(c.len() == 2);
        assert(argv[10] == c[0] && argv[11] == c[1]);
    }
}

/// Each directory that is there is mounted read-only in its own place, and no
/// other is.
pub proof fn law_present_directories_are_mounted(cands: Seq<Seq<char>>, exists: Seq<bool>, i: int)
    ensures
        0 <= i < cands.len() && i < exists.len() && exists[i] ==> exists|j: int|
            0 <= j && j + 1 < mount_pairs(cands, exists).len() && #[trigger] mount_pairs(
                cands,
                exists,
            )[j] == "-v"@ && mount_pairs(cands, exists)[j + 1] == cands[i] + ":"@ + cands[i]
                + ":ro"@,
        (forall|k: int| 0 <= k < cands.len() && k < exists.len() ==> !#[trigger] exists[k])
            ==> mount_pairs(cands, exists).len() == 0,
    decreases cands.len(),
{
    if cands.len() > 0 {
        law_present_directories_are_mounted(cands.drop_last(), exists, i);
        let before = mount_pairs(cands.drop_last(), exists);
        let now = mount_pairs(cands, exists);
        if 0 <= i < cands.len() && i < exists.len() && exists[i] {
            if i == cands.len() - 1 {
                assert(now[before.len() as int] == "-v"@);
                assert(now[before.len() as int + 1] == cands[i] + ":"@ + cands[i] + ":ro"@);
            } else {
                let j = choose|j: int|
                    0 <= j && j + 1 < before.len() && #[trigger] before[j] == "-v"@ && before[j + 1]
                        == cands.drop_last()[i] + ":"@ + cands.drop_last()[i] + ":ro"@;
                assert(now[j] == before[j] && now[j + 1] == before[j + 1]);
                assert(cands.drop_last()[i] == cands[i]);
            }
        }
    }
}

/// The system's two directories are always candidates, in this order, and the
/// one that the environment names comes third when it is another.
pub proof fn law_candidates_are_the_system_and_the_named(e: HostEnvView)
    ensures
        candidates(e).len() >= 2,
        candidates(e)[0] == "/usr/share/terminfo"@,
        candidates(e)[1] == "/lib/terminfo"@,
        e.terminfo is Some && (e.terminfo->0).len() > 0 ==> candidates(e).contains(e.terminfo->0),
        candidates(e).len() == 3 <==> e.terminfo is Some && (e.terminfo->0).len() > 0
            && e.terminfo->0 != "/usr/share/terminfo"@ && e.terminfo->0 != "/lib/terminfo"@,
{
    let system = seq!["/usr/share/terminfo"@, "/lib/terminfo"@];
    assert(system[0] == "/usr/share/terminfo"@ && system[1] == "/lib/terminfo"@);
    if e.terminfo is Some {
        let named = e.terminfo->0;
        if system.contains(named) {
            let i = choose|i: int| 0 <= i < system.len() && system[i] == named;
            assert(i == 0 || i == 1);
            assert(candidates(e).contains(named) || named.len() == 0);
        } else {
            assert(named != system[0] && named != system[1]);
            if named.len() > 0 {
                assert(candidates(e)[2] == named);
            }
        }
    }
}

/// The size of a pane is its last line that is two numbers, trimmed.
pub proof fn law_pane_sizes_are_the_last(lines: Seq<Seq<char>>, i: int)
    ensures
        0 <= i < lines.len() && is_size(text::trimmed(lines[i])) && (forall|j: int|
            i < j < lines.len() ==> !is_size(text::trimmed(#[trigger] lines[j]))) ==> last_size(lines)
            == text::trimmed(lines[i]),
        (forall|j: int| 0 <= j < lines.len() ==> !is_size(text::trimmed(#[trigger] lines[j])))
            ==> last_size(lines).len() == 0,
    decreases lines.len(),
{
    if lines.len() > 0 {
        law_pane_sizes_are_the_last(lines.drop_last(), i);
        assert(forall|j: int| 0 <= j < lines.len() - 1 ==> lines.drop_last()[j] == lines[j]);
    }
}

/// A resize passes when the size was told before and after and has changed.
pub proof fn law_resizes_pass_on_change(before: Seq<char>, after: Seq<char>)
    ensures
        before.len() > 0 && after.len() > 0 && before != after ==> resize_lines(before, after)
            == seq!["[PASS] resize propagated (tmux window → container)"@],
        before == "0 0"@ && after == "0 0"@ ==> resize_lines(before, after).len() == 2,
        before == after && after.len() > 0 && after != "0 0"@ ==> resize_lines(before, after)
            == seq!["[INFO] resize shows non-zero size, but before/after equal (may be race)"@],
{
}

/// A reply is shown for each line that holds one, and no other.
pub proof fn law_replies_are_shown(lines: Seq<Seq<char>>, i: int)
    ensures
        0 <= i < lines.len() && text::occurs("DA1:"@, lines[i]) && text::occurs("1b"@, lines[i])
            ==> reply_lines(lines).contains("  da1 reply hex: "@ + text::trimmed(lines[i])),
        reply_lines(lines).len() <= lines.len(),
        (forall|j: int|
            0 <= j < lines.len() ==> !text::occurs("DA1:"@, #[trigger] lines[j])
                || !text::occurs("1b"@, lines[j])) ==> reply_lines(lines).len() == 0
            && !reply_found(lines),
    decreases lines.len(),
{
    if lines.len() > 0 {
        law_replies_are_shown(lines.drop_last(), i);
        assert(forall|j: int| 0 <= j < lines.len() - 1 ==> lines.drop_last()[j] == lines[j]);
        let before = reply_lines(lines.drop_last());
        let now = reply_lines(lines);
        if 0 <= i < lines.len() && text::occurs("DA1:"@, lines[i]) && text::occurs("1b"@, lines[i]) {
            let t = "  da1 reply hex: "@ + text::trimmed(lines[i]);
            if i == lines.len() - 1 {
                assert(now.last() == t);
            } else {
                let j = choose|j: int| 0 <= j < before.len() && before[j] == t;
                assert(now[j] == t);
            }
        }
    }
    if forall|j: int|
        0 <= j < lines.len() ==> !text::occurs("DA1:"@, #[trigger] lines[j]) || !text::occurs(
            "1b"@,
            lines[j],
        ) {
        assert(forall|j: int| 0 <= j < lines.len() ==> !shows_reply(#[trigger] lines[j]));
    }
}

/// The bytes of the harness: the query is `ESC [ c`, the answer `ESC [ ? 6 c`,
/// and the mark spells `READY`.
pub proof fn law_harness_bytes()
    ensures
        da1_query() == seq![27u8, '[' as u8, 'c' as u8],
        da1_answer() == seq![27u8, '[' as u8, '?' as u8, '6' as u8, 'c' as u8],
        ready_mark() == seq!['R' as u8, 'E' as u8, 'A' as u8, 'D' as u8, 'Y' as u8],
{
}

/// The tests on the terminal itself always pass, and say what they saw: which
/// streams are terminals, and the size of the screen when one tells it.
pub proof fn law_terminal_tests_say_what_they_saw(
    stdin: bool,
    stdout: bool,
    stderr: bool,
    rows: u16,
    cols: u16,
    other: Option<(u16, u16)>,
)
    ensures
        tty_report(stdin, stdout, stderr).ok,
        stdin ==> tty_report(stdin, stdout, stderr).lines[1] == "stdin is tty: "@ + "true"@,
        !stdin ==> tty_report(stdin, stdout, stderr).lines[1] == "stdin is tty: "@ + "false"@,
        stdout ==> tty_report(stdin, stdout, stderr).lines[2] == "stdout is tty: "@ + "true"@,
        !stdout ==> tty_report(stdin, stdout, stderr).lines[2] == "stdout is tty: "@ + "false"@,
        stderr ==> tty_report(stdin, stdout, stderr).lines[3] == "stderr is tty: "@ + "true"@,
        !stderr ==> tty_report(stdin, stdout, stderr).lines[3] == "stderr is tty: "@ + "false"@,
        stdout <==> tty_report(stdin, stdout, stderr).lines[4] == "[PASS] stdout is a tty"@,
        winsize_report(Some((rows, cols)), other).ok && winsize_report(Some((rows, cols)), other).lines[1]
            == "rows="@ + text::dec(rows as nat) + " cols="@ + text::dec(cols as nat),
        rows > 0 && cols > 0 <==> winsize_report(Some((rows, cols)), other).lines[2]
            == "[PASS] winsize non-zero"@,
        winsize_report(None, Some((rows, cols))).lines[1] == "rows="@ + text::dec(rows as nat)
            + " cols="@ + text::dec(cols as nat) + " (from stdin)"@,
{
    reveal_strlit("[PASS] stdout is a tty");
    reveal_strlit("[WARN] stdout is not a tty (piped run; re-check interactively)");
    reveal_strlit("[PASS] winsize non-zero");
    reveal_strlit("[WARN] winsize is zero (headless or piped)");
    assert("[PASS] stdout is a tty"@[1] == 'P');
    assert("[WARN] stdout is not a tty (piped run; re-check interactively)"@[1] == 'W');
    assert("[PASS] winsize non-zero"@[1] == 'P');
    assert("[WARN] winsize is zero (headless or piped)"@[1] == 'W');
}

/// A harness whose terminal could not be had fails; one that watched passes by
/// what it was told and what it saw.
pub proof fn law_harnesses_need_a_terminal(e: String, w: Watcher, content: Seq<char>, present: bool)
    ensures
        !da1_harness(Terminal::Failed(e), content).ok,
        !sigint_harness(Terminal::Failed(e), present).ok,
        sigint_harness(Terminal::Watched(w), present).ok == present,
        text::occurs("6c"@, content) ==> da1_harness(Terminal::Watched(w), content).ok,
        content.len() == 0 && !text::occurs("6c"@, content) ==> !da1_harness(
            Terminal::Watched(w),
            content,
        ).ok,
{
}

/// A payload passes only when it was streamed whole and its digests, where both
/// are told, are the same word.
pub proof fn law_payload_reports_pass_whole(
    inside: Seq<char>,
    m: String,
    len: usize,
    host: String,
)
    ensures
        !payload_report(inside, PayloadRun::Missing(m)).ok,
        !payload_report(inside, PayloadRun::Failed(m)).ok,
        payload_report(inside, PayloadRun::Streamed(len, host)).ok <==> len == 1_048_576 && (
        first_word(inside) == first_word(host@) || first_word(inside).len() == 0 || first_word(
            host@,
        ).len() == 0),
        podman::words(inside).len() > 0 ==> first_word(inside) == podman::words(inside)[0],
{
    law_payloads_pass_whole(len as nat, first_word(inside), first_word(host@));
}

/// The probe of podman passes when every run did, and says so.
pub proof fn law_podman_passes_with_every_run(
    results: Seq<bool>,
    mount_terminfo: bool,
    container: Seq<char>,
    ok: bool,
    i: int,
)
    ensures
        0 <= i < results.len() && !results[i] ==> !all_passed(results),
        (forall|k: int| 0 <= k < results.len() ==> results[k] == true) ==> all_passed(results),
        closing_lines(mount_terminfo, container, true)[3] == "[PASS] podman probe"@,
        closing_lines(mount_terminfo, container, false)[3]
            == "[FAIL] podman probe (see exec output above)"@,
        closing_lines(mount_terminfo, container, ok)[2] == "podman: cleanup (stop "@ + container
            + ")"@,
        mount_terminfo <==> closing_lines(mount_terminfo, container, ok).len() == 4,
{
}

/// Each directory that is mounted is told of, and a request that mounts none is
/// warned about.
pub proof fn law_mounts_are_told(
    args: ArgsView,
    e: HostEnvView,
    cands: Seq<Seq<char>>,
    exists: Seq<bool>,
    i: int,
)
    ensures
        0 <= i < cands.len() && i < exists.len() && exists[i] ==> mount_notes(
            cands,
            exists,
        ).contains("[INFO] mounting host terminfo "@ + cands[i] + " -> "@ + cands[i] + ":ro"@),
        mount_notes(cands, exists).len() <= cands.len(),
        args.mount_terminfo && mount_notes(candidates(e), exists).len() == 0 ==> run_notes_of(
            args,
            e,
            exists,
        )[0] == "[WARN] --mount-terminfo requested but no host terminfo dir found"@,
        !args.mount_terminfo ==> run_notes_of(args, e, exists).len() == 2,
    decreases cands.len(),
{
    if cands.len() > 0 {
        law_mounts_are_told(args, e, cands.drop_last(), exists, i);
        let before = mount_notes(cands.drop_last(), exists);
        let now = mount_notes(cands, exists);
        if 0 <= i < cands.len() && i < exists.len() && exists[i] {
            let t = "[INFO] mounting host terminfo "@ + cands[i] + " -> "@ + cands[i] + ":ro"@;
            if i == cands.len() - 1 {
                assert(now.last() == t);
            } else {
                assert(cands.drop_last()[i] == cands[i]);
                let j = choose|j: int| 0 <= j < before.len() && before[j] == t;
                assert(now[j] == t);
            }
        }
    }
}

/// The reply path and the resize are only reported, never failed.
pub proof fn law_soft_probes_never_fail(
    run: ResizeRun,
    captured: Option<Seq<char>>,
    fallback: Seq<char>,
)
    ensures
        resize_report(run).ok,
        reply_report(captured, fallback).ok,
        captured is Some && reply_found(text::lines_of(captured->0)) ==> reply_report(
            captured,
            fallback,
        ).lines.last() == "[PASS] reply-path (DA1 inbound via tmux)"@,
        captured is None ==> reply_report(captured, fallback).lines.len() == 2,
{
}

/// A view says what the fields hold, each under its own name.
pub proof fn law_views_say_the_fields(
    probe: Probe,
    args: Args,
    host_env: HostEnv,
    tool_run: ToolRun,
)
    ensures
        probe.view().ok == probe.ok,
        probe.view().lines == probe.lines.deep_view(),
        args.deep_view().with_podman == args.with_podman,
        args.deep_view().image == args.image@,
        args.deep_view().mount_terminfo == args.mount_terminfo,
        host_env.deep_view().term == host_env.term.deep_view(),
        host_env.deep_view().colorterm == host_env.colorterm.deep_view(),
        host_env.deep_view().term_program == host_env.term_program.deep_view(),
        host_env.deep_view().terminfo == host_env.terminfo.deep_view(),
        tool_run matches ToolRun::Missing(e) ==> tool_run.deep_view() == ToolView::Missing(e@),
        tool_run matches ToolRun::Ran(ok, out, err) ==> tool_run.deep_view() == ToolView::Ran(ok, out@, err@),
{
}

} // verus!
