//! Transport: host PTY owns session, exec -i -t, closed env.

use vstd::prelude::*;

use crate::text;

verus! {

/// Host values of the closed env list forwarded via `-e`. Nothing else is
/// ever forwarded.
#[derive(Debug)]
pub struct TerminalEnv {
    /// `TERM`.
    pub term: Option<String>,
    /// `COLORTERM`.
    pub colorterm: Option<String>,
    /// `TERM_PROGRAM`.
    pub term_program: Option<String>,
}

/// What the closed env list holds.
pub struct TerminalView {
    pub term: Option<Seq<char>>,
    pub colorterm: Option<Seq<char>>,
    pub term_program: Option<Seq<char>>,
}

impl DeepView for TerminalEnv {
    type V = TerminalView;

    open spec fn deep_view(&self) -> TerminalView {
        TerminalView {
            term: self.term.deep_view(),
            colorterm: self.colorterm.deep_view(),
            term_program: self.term_program.deep_view(),
        }
    }
}

/// `-e` args of one variable; an absent or empty one is omitted.
pub open spec fn forward_one(key: Seq<char>, value: Option<Seq<char>>) -> Seq<Seq<char>> {
    match value {
        Some(v) => if v.len() > 0 {
            seq!["-e"@, key + "="@ + v]
        } else {
            Seq::empty()
        },
        None => Seq::empty(),
    }
}

/// `-e` args of the closed env list.
pub open spec fn forwarded(env: TerminalView) -> Seq<Seq<char>> {
    forward_one("TERM"@, env.term) + forward_one("COLORTERM"@, env.colorterm) + forward_one(
        "TERM_PROGRAM"@,
        env.term_program,
    )
}

fn push_forward(args: &mut Vec<String>, key: &str, value: &Option<String>)
    ensures
        final(args).deep_view() == old(args).deep_view() + forward_one(key@, value.deep_view()),
{
    let ghost before = args.deep_view();
    match value {
        Some(v) => {
            if !v.as_str().is_empty() {
                args.push("-e".to_owned());
                args.push(text::cat3(key, "=", v.as_str()));
            }
        },
        None => {},
    }
    assert(args.deep_view() =~= before + forward_one(key@, value.deep_view()));
}

fn push_forwards(args: &mut Vec<String>, env: &TerminalEnv)
    ensures
        final(args).deep_view() == old(args).deep_view() + forwarded(env.deep_view()),
{
    let ghost before = args.deep_view();
    push_forward(args, "TERM", &env.term);
    push_forward(args, "COLORTERM", &env.colorterm);
    push_forward(args, "TERM_PROGRAM", &env.term_program);
    assert(args.deep_view() =~= before + forwarded(env.deep_view()));
}

/// Appends a copy of every text.
pub fn push_all(args: &mut Vec<String>, more: &[String])
    ensures
        final(args).deep_view() == old(args).deep_view() + more.deep_view(),
{
    let ghost start = args.deep_view();
    let ghost all = more.deep_view();
    let mut i: usize = 0;
    assert(start + all.take(0) =~= start);
    while i < more.len()
        invariant
            all == more.deep_view(),
            i <= more@.len(),
            args.deep_view() =~= start + all.take(i as int),
        decreases more.len() - i,
    {
        let ghost before = args.deep_view();
        args.push(more[i].clone());
        assert(args.deep_view() =~= before.push(all[i as int]));
        i = i + 1;
    }
    assert(all.take(i as int) =~= all);
}

/// Returns `-e` args for the closed env list.
///
/// Only present, non-empty variables are forwarded. `TERMINFO` is never
/// forwarded.
#[must_use]
pub fn env_forward_args(env: &TerminalEnv) -> (args: Vec<String>)
    ensures
        args.deep_view() == forwarded(env.deep_view()),
{
    let mut args: Vec<String> = Vec::new();
    let ghost e = args.deep_view();
    push_forwards(&mut args, env);
    assert(e + forwarded(env.deep_view()) =~= forwarded(env.deep_view()));
    args
}

/// Returns home env arg derived from the profile's container home.
#[must_use]
pub fn home_env_arg(container_home: &str) -> (args: Vec<String>)
    ensures
        args.deep_view() == seq!["-e"@, "HOME="@ + container_home@],
{
    let mut args: Vec<String> = Vec::new();
    args.push("-e".to_owned());
    args.push(text::cat("HOME=", container_home));
    assert(args.deep_view() =~= seq!["-e"@, "HOME="@ + container_home@]);
    args
}

/// Builds `podman exec -i -t` args. The closed env is forwarded at exec
/// time via `-e`, not baked into the unit.
#[must_use]
pub fn exec_args(container: &str, command: &[String], env: &TerminalEnv) -> (args: Vec<String>)
    ensures
        args.deep_view() == seq!["exec"@] + forwarded(env.deep_view()) + seq![
            "-i"@,
            "-t"@,
            container@,
        ] + command.deep_view(),
{
    let mut args: Vec<String> = Vec::new();
    args.push("exec".to_owned());
    assert(args.deep_view() =~= seq!["exec"@]);
    push_forwards(&mut args, env);
    let ghost before = args.deep_view();
    args.push("-i".to_owned());
    args.push("-t".to_owned());
    args.push(container.to_owned());
    assert(args.deep_view() =~= before + seq!["-i"@, "-t"@, container@]);
    push_all(&mut args, command);
    args
}

/// Builds `podman exec -i -t --workdir <target>` args for the conduct
/// harness: the session runs in its worktree target, not the image default.
#[must_use]
pub fn exec_harness_args(
    container: &str,
    workdir: &str,
    command: &[String],
    env: &TerminalEnv,
) -> (args: Vec<String>)
    ensures
        args.deep_view() == seq!["exec"@] + forwarded(env.deep_view()) + seq![
            "-i"@,
            "-t"@,
            "--workdir"@,
            workdir@,
            container@,
        ] + command.deep_view(),
{
    let mut args: Vec<String> = Vec::new();
    args.push("exec".to_owned());
    assert(args.deep_view() =~= seq!["exec"@]);
    push_forwards(&mut args, env);
    let ghost before = args.deep_view();
    args.push("-i".to_owned());
    args.push("-t".to_owned());
    args.push("--workdir".to_owned());
    args.push(workdir.to_owned());
    args.push(container.to_owned());
    assert(args.deep_view() =~= before + seq!["-i"@, "-t"@, "--workdir"@, workdir@, container@]);
    push_all(&mut args, command);
    args
}

/// `--label` args in order.
pub open spec fn label_flags(labels: Seq<(Seq<char>, Seq<char>)>) -> Seq<Seq<char>>
    decreases labels.len(),
{
    if labels.len() == 0 {
        Seq::empty()
    } else {
        label_flags(labels.drop_last()) + seq![
            "--label"@,
            labels.last().0 + "="@ + labels.last().1,
        ]
    }
}

/// Builds `podman run -d --userns=keep-id --label ...` args for a detached
/// container that only sleeps.
#[must_use]
pub fn run_detached_args(
    container_name: &str,
    labels: &[(&str, &str)],
    image: &str,
    env: &TerminalEnv,
) -> (args: Vec<String>)
    ensures
        args.deep_view() == seq![
            "run"@,
            "--detach"@,
            "--userns=keep-id"@,
            "--name"@,
            container_name@,
        ] + label_flags(labels.deep_view()) + forwarded(env.deep_view()) + seq![
            "--"@,
            image@,
            "sleep"@,
            "infinity"@,
        ],
{
    let ghost all = labels.deep_view();
    let mut args: Vec<String> = Vec::new();
    args.push("run".to_owned());
    args.push("--detach".to_owned());
    args.push("--userns=keep-id".to_owned());
    args.push("--name".to_owned());
    args.push(container_name.to_owned());
    let ghost head = seq![
        "run"@,
        "--detach"@,
        "--userns=keep-id"@,
        "--name"@,
        container_name@,
    ];
    assert(args.deep_view() =~= head);
    let mut i: usize = 0;
    assert(all.take(0) =~= Seq::empty());
    assert(head + label_flags(all.take(0)) =~= head);
    while i < labels.len()
        invariant
            all == labels.deep_view(),
            i <= labels@.len(),
            args.deep_view() == head + label_flags(all.take(i as int)),
        decreases labels.len() - i,
    {
        let ghost before = args.deep_view();
        assert(all.take(i + 1).drop_last() =~= all.take(i as int));
        assert(all.take(i + 1).last() == labels@[i as int].deep_view());
        args.push("--label".to_owned());
        args.push(text::cat3(labels[i].0, "=", labels[i].1));
        assert(args.deep_view() =~= before + seq![
            "--label"@,
            all[i as int].0 + "="@ + all[i as int].1,
        ]);
        assert(args.deep_view() =~= head + label_flags(all.take(i + 1)));
        i = i + 1;
    }
    assert(all.take(i as int) =~= all);
    push_forwards(&mut args, env);
    let ghost before = args.deep_view();
    args.push("--".to_owned());
    args.push(image.to_owned());
    args.push("sleep".to_owned());
    args.push("infinity".to_owned());
    assert(args.deep_view() =~= before + seq!["--"@, image@, "sleep"@, "infinity"@]);
    args
}

/// The terminal's variables that are set and not empty are forwarded, each
/// under its own name, in a fixed order; nothing else is.
pub proof fn law_terminal_variables_are_forwarded(env: TerminalView)
    ensures
        env.term is Some && env.term->0.len() > 0 ==> forwarded(env).len() >= 2 && forwarded(env)[0]
            == "-e"@ && forwarded(env)[1] == "TERM="@ + env.term->0,
        env.term_program is Some && env.term_program->0.len() > 0 ==> forwarded(env).len() >= 2
            && forwarded(env).last() == "TERM_PROGRAM="@ + env.term_program->0,
        env.colorterm is Some && env.colorterm->0.len() > 0 ==> forwarded(env).contains(
            "COLORTERM="@ + env.colorterm->0,
        ),
        (env.term is None || env.term->0.len() == 0) && (env.colorterm is None
            || env.colorterm->0.len() == 0) && (env.term_program is None
            || env.term_program->0.len() == 0) ==> forwarded(env).len() == 0,
        forwarded(env).len() <= 6,
{
    reveal_strlit("=");
    reveal_strlit("TERM");
    reveal_strlit("TERM=");
    reveal_strlit("COLORTERM");
    reveal_strlit("COLORTERM=");
    reveal_strlit("TERM_PROGRAM");
    reveal_strlit("TERM_PROGRAM=");
    assert("TERM"@ + "="@ =~= "TERM="@);
    assert("COLORTERM"@ + "="@ =~= "COLORTERM="@);
    assert("TERM_PROGRAM"@ + "="@ =~= "TERM_PROGRAM="@);
    if env.colorterm is Some && env.colorterm->0.len() > 0 {
        let n = forward_one("TERM"@, env.term).len() as int;
        assert(forwarded(env)[n + 1] == "COLORTERM="@ + env.colorterm->0);
    }
}

/// Every label becomes one flag with its key and value, in order.
pub proof fn law_labels_become_flags(labels: Seq<(Seq<char>, Seq<char>)>, i: int)
    requires
        0 <= i < labels.len(),
    ensures
        label_flags(labels).len() == 2 * labels.len(),
        label_flags(labels)[2 * i] == "--label"@,
        label_flags(labels)[2 * i + 1] == labels[i].0 + "="@ + labels[i].1,
    decreases labels.len(),
{
    let t = labels.drop_last();
    let before = label_flags(t);
    if i < t.len() {
        law_labels_become_flags(t, i);
        assert(label_flags(labels)[2 * i] == before[2 * i]);
        assert(label_flags(labels)[2 * i + 1] == before[2 * i + 1]);
    } else if t.len() > 0 {
        law_labels_become_flags(t, 0);
    }
}

/// A view says what the fields hold, each under its own name.
pub proof fn law_views_say_the_fields(
    terminal_env: TerminalEnv,
)
    ensures
        terminal_env.deep_view().term == terminal_env.term.deep_view(),
        terminal_env.deep_view().colorterm == terminal_env.colorterm.deep_view(),
        terminal_env.deep_view().term_program == terminal_env.term_program.deep_view(),
{
}

} // verus!
