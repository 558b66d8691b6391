use minishell::dispatch::builtin_of;
use minishell::dispatch::cd_target;
use minishell::dispatch::dispatch;
use minishell::launch::child_action;
use minishell::launch::child_next;
use minishell::launch::parent_action;
use minishell::launch::parent_next;
use minishell::launch::tty_signals;
use minishell::tokens::parse_line;
use minishell::tokens::tokenize;
use minishell::Action;
use minishell::BuiltinKind;
use minishell::ChildAction;
use minishell::ChildState;
use minishell::Dispatch;
use minishell::Outcome;
use minishell::ParentAction;
use minishell::ParentState;
use minishell::TtySignal;

fn toks(line: &[u8]) -> Vec<Vec<u8>> {
    tokenize(line)
}

#[test]
fn tokenize_simple_command() {
    assert_eq!(toks(b"cd /tmp"), vec![b"cd".to_vec(), b"/tmp".to_vec()]);
}

#[test]
fn tokenize_ignores_extra_whitespace() {
    assert_eq!(
        toks(b"   ls \t -l\t\t/home  "),
        vec![b"ls".to_vec(), b"-l".to_vec(), b"/home".to_vec()]
    );
    assert_eq!(toks(b"\t\r\n a \n"), vec![b"a".to_vec()]);
}

#[test]
fn tokenize_yields_no_empty_tokens() {
    for line in [&b"  x   y  "[..], &b"\t\t"[..], &b"one"[..], &b" a\tb\rc\nd "[..]] {
        for t in toks(line) {
            assert!(!t.is_empty());
            assert!(t.iter().all(|b| !b" \t\n\x0b\x0c\r".contains(b)));
        }
    }
}

#[test]
fn parse_line_empty_is_no_action() {
    assert!(parse_line(b"").is_none());
    assert!(parse_line(b"   \t  ").is_none());
    // Two blank lines in a row each yield no action: the loop just prompts
    // again, twice.
    assert!(parse_line(b"\n").is_none());
    assert!(parse_line(b" ").is_none());
}

#[test]
fn parse_line_keeps_tokens_in_order() {
    match parse_line(b"cd /tmp") {
        Some(Action::SimpleCommand(argv)) => {
            assert_eq!(argv, vec![b"cd".to_vec(), b"/tmp".to_vec()]);
        }
        None => panic!("a non-blank line must yield a command"),
    }
}

#[test]
fn builtin_lookup() {
    assert_eq!(builtin_of(b"cd"), Some(BuiltinKind::ChangeDir));
    assert_eq!(builtin_of(b"work"), Some(BuiltinKind::Work));
    assert_eq!(builtin_of(b"exit"), Some(BuiltinKind::Exit));
    assert_eq!(builtin_of(b"ls"), None);
    assert_eq!(builtin_of(b"cdd"), None);
    assert_eq!(builtin_of(b""), None);
}

#[test]
fn dispatch_partitions_builtin_and_external() {
    for name in [&b"cd"[..], &b"work"[..], &b"exit"[..]] {
        let argv = vec![name.to_vec(), b"arg".to_vec()];
        match dispatch(&argv) {
            Dispatch::RunBuiltin(_) => {}
            Dispatch::Launch => panic!("a builtin name must never be launched externally"),
        }
    }
    for name in [&b"ls"[..], &b"no_such_program"[..], &b"cat"[..]] {
        let argv = vec![name.to_vec()];
        assert_eq!(dispatch(&argv), Dispatch::Launch);
    }
}

#[test]
fn cd_target_takes_argument_or_home() {
    let argv = vec![b"cd".to_vec(), b"/tmp".to_vec()];
    assert_eq!(cd_target(&argv), b"/tmp".to_vec());
    let bare = vec![b"cd".to_vec()];
    assert_eq!(cd_target(&bare), b"/Users/noharu".to_vec());
}

#[test]
fn tty_signal_list() {
    assert_eq!(
        tty_signals(),
        vec![TtySignal::Stop, TtySignal::BackgroundRead, TtySignal::BackgroundWrite]
    );
}

/// Drives the parent machine to completion, recording the prescribed call
/// of every state it visits, with every call reporting `outcome`.
fn parent_run(outcomes: &[Outcome]) -> (Vec<ParentAction>, ParentState) {
    let mut state = ParentState::PlaceChildInGroup;
    let mut calls = Vec::new();
    for o in outcomes {
        if state == ParentState::LaunchDone {
            break;
        }
        calls.push(parent_action(state));
        state = parent_next(state, *o);
    }
    (calls, state)
}

#[test]
fn parent_launch_in_order() {
    let (calls, end) = parent_run(&[Outcome::Succeeded; 6]);
    assert_eq!(
        calls,
        vec![
            ParentAction::SetChildGroup,
            ParentAction::ForegroundChild,
            ParentAction::CloseChannelEnds,
            ParentAction::WaitForChild,
            ParentAction::ForegroundShell,
        ]
    );
    assert_eq!(end, ParentState::LaunchDone);
    // Rendezvous ordering: the channel is released only after the group
    // exists and the foreground was handed over.
    let transfer = calls.iter().position(|a| *a == ParentAction::ForegroundChild).unwrap();
    let release = calls.iter().position(|a| *a == ParentAction::CloseChannelEnds).unwrap();
    assert!(transfer < release);
    // Foreground restoration: the last call before the launch is over hands
    // the terminal back to the interpreter.
    assert_eq!(*calls.last().unwrap(), ParentAction::ForegroundShell);
}

#[test]
fn parent_restores_foreground_even_after_failures() {
    // The group creation fails: no foreground transfer is attempted, but the
    // channel is still released, the child is still awaited, and the
    // foreground is still restored.
    let (calls, end) = parent_run(&[
        Outcome::Failed,
        Outcome::Succeeded,
        Outcome::Failed,
        Outcome::Succeeded,
        Outcome::Succeeded,
    ]);
    assert_eq!(
        calls,
        vec![
            ParentAction::SetChildGroup,
            ParentAction::CloseChannelEnds,
            ParentAction::WaitForChild,
            ParentAction::ForegroundShell,
        ]
    );
    assert_eq!(end, ParentState::LaunchDone);
}

#[test]
fn child_execs_only_after_rendezvous() {
    let mut state = ChildState::RestoreSignals;
    let mut calls = Vec::new();
    // Signal restore and the write-end close succeed; the rendezvous read is
    // interrupted twice before it completes.
    for o in [
        Outcome::Succeeded,
        Outcome::Succeeded,
        Outcome::Interrupted,
        Outcome::Interrupted,
        Outcome::Succeeded,
        Outcome::Succeeded,
    ] {
        calls.push(child_action(state));
        state = child_next(state, o);
    }
    assert_eq!(
        calls,
        vec![
            ChildAction::RestoreTtySignals,
            ChildAction::CloseWriteDescriptor,
            ChildAction::ReadRendezvousByte,
            ChildAction::ReadRendezvousByte,
            ChildAction::ReadRendezvousByte,
            ChildAction::CloseReadDescriptor,
        ]
    );
    // Only now is the program replacement prescribed.
    assert_eq!(state, ChildState::ReplaceImage);
    assert_eq!(child_action(state), ChildAction::ExecProgram);
}

#[test]
fn failed_exec_ends_the_child_with_failure() {
    // An unknown program name surfaces only at replacement time: the exec
    // call reports an outcome, and the machine prescribes reporting the
    // failure and exiting with a non-zero status — never falling back into
    // the interpreter's loop.
    let state = child_next(ChildState::ReplaceImage, Outcome::Failed);
    assert_eq!(state, ChildState::ReportExecFailure);
    assert_eq!(child_action(state), ChildAction::ExitWithFailure);
    assert_eq!(child_next(state, Outcome::Succeeded), ChildState::ChildOver);
    assert_eq!(child_action(ChildState::ChildOver), ChildAction::NoCall);
}

#[test]
fn cd_then_dispatch_end_to_end() {
    // The decision chain for the line "cd /tmp": it tokenizes to the two
    // tokens, dispatches to the directory-change builtin, and the target is
    // /tmp; the working-directory change itself is the caller's I/O.
    let argv = match parse_line(b"cd /tmp") {
        Some(Action::SimpleCommand(argv)) => argv,
        None => panic!("line must parse"),
    };
    assert_eq!(dispatch(&argv), Dispatch::RunBuiltin(BuiltinKind::ChangeDir));
    assert_eq!(cd_target(&argv), b"/tmp".to_vec());
}
