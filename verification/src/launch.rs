//! The protocol that launches one external program as a foreground job.
//!
//! The launch involves two independently scheduled processes — the
//! interpreter (the parent) and the program's process (the child) — that
//! coordinate around one shared kernel resource, the controlling terminal's
//! foreground process group. The library holds the protocol itself: two
//! step functions, one per process, that say after each kernel call which
//! call comes next. The caller performs each prescribed call, reports its
//! outcome, and steps the machine; the machines decide, the caller acts.
//!
//! The two processes meet over a rendezvous channel: a one-shot byte
//! channel used purely for ordering. Right after the fork the child blocks
//! reading one byte from the channel; the parent releases its channel ends
//! only after it has created the child's process group and transferred
//! terminal foreground ownership to it, so the read can complete — by the
//! kernel's pipe semantics — only once that setup is done. The parent
//! machine orders the release after the transfer ([`lemma_release_follows_transfer`]);
//! the child machine orders the program replacement after the completed
//! read ([`lemma_exec_follows_rendezvous`]).

use vstd::prelude::*;

verus! {

/// The terminal-control signals whose disposition the interpreter manages:
/// the stop request and the two background-terminal-I/O signals.
#[derive(Clone, Copy, PartialEq, Eq, Structural, Debug)]
pub enum TtySignal {
    /// The keyboard stop request (SIGTSTP).
    Stop,
    /// A background process read from the terminal (SIGTTIN).
    BackgroundRead,
    /// A background process wrote to the terminal (SIGTTOU).
    BackgroundWrite,
}

/// The three terminal-control signals, each exactly once: the interpreter
/// ignores them at loop start, and every child restores them to their
/// default disposition before anything else.
pub fn tty_signals() -> (r: Vec<TtySignal>)
    ensures
        r@ == seq![TtySignal::Stop, TtySignal::BackgroundRead, TtySignal::BackgroundWrite],
{
    let mut v: Vec<TtySignal> = Vec::new();
    v.push(TtySignal::Stop);
    v.push(TtySignal::BackgroundRead);
    v.push(TtySignal::BackgroundWrite);
    proof {
        assert(v@ =~= seq![
            TtySignal::Stop,
            TtySignal::BackgroundRead,
            TtySignal::BackgroundWrite,
        ]);
    }
    v
}

/// How one prescribed kernel call went.
#[derive(Clone, Copy, PartialEq, Eq, Structural, Debug)]
pub enum Outcome {
    /// The call returned successfully.
    Succeeded,
    /// The call failed outright.
    Failed,
    /// The call was interrupted before completing (EINTR).
    Interrupted,
}

/// Where the parent stands in one launch, after a successful fork. Each
/// state prescribes one call ([`parent_action`]); the outcome of that call
/// picks the next state ([`parent_next`]).
#[derive(Clone, Copy, PartialEq, Eq, Structural, Debug)]
pub enum ParentState {
    /// Place the child into its own fresh process group.
    PlaceChildInGroup,
    /// Hand terminal foreground ownership to the child's group.
    TransferForeground,
    /// Release the parent's ends of the rendezvous channel, unblocking the
    /// child's read.
    ReleaseChannel,
    /// Block until the child terminates; a failed wait is ignored.
    AwaitChild,
    /// Take terminal foreground ownership back, whatever happened before.
    RestoreForeground,
    /// The launch is over and the interpreter may prompt again.
    LaunchDone,
}

/// The call the parent must perform in a state.
#[derive(Clone, Copy, PartialEq, Eq, Structural, Debug)]
pub enum ParentAction {
    /// Create the child's process group, with the child's id as group id.
    SetChildGroup,
    /// Make the child's process group the terminal's foreground group.
    ForegroundChild,
    /// Close both of the parent's rendezvous-channel descriptors.
    CloseChannelEnds,
    /// Wait for the child to terminate.
    WaitForChild,
    /// Make the interpreter's own process group the foreground group again.
    ForegroundShell,
    /// Nothing is left to do.
    NoCall,
}

/// The call prescribed in each parent state.
pub open spec fn spec_parent_action(s: ParentState) -> ParentAction {
    match s {
        ParentState::PlaceChildInGroup => ParentAction::SetChildGroup,
        ParentState::TransferForeground => ParentAction::ForegroundChild,
        ParentState::ReleaseChannel => ParentAction::CloseChannelEnds,
        ParentState::AwaitChild => ParentAction::WaitForChild,
        ParentState::RestoreForeground => ParentAction::ForegroundShell,
        ParentState::LaunchDone => ParentAction::NoCall,
    }
}

/// Runtime form of [`spec_parent_action`].
pub fn parent_action(s: ParentState) -> (a: ParentAction)
    ensures
        a == spec_parent_action(s),
{
    match s {
        ParentState::PlaceChildInGroup => ParentAction::SetChildGroup,
        ParentState::TransferForeground => ParentAction::ForegroundChild,
        ParentState::ReleaseChannel => ParentAction::CloseChannelEnds,
        ParentState::AwaitChild => ParentAction::WaitForChild,
        ParentState::RestoreForeground => ParentAction::ForegroundShell,
        ParentState::LaunchDone => ParentAction::NoCall,
    }
}

/// The parent's next state once the prescribed call reported `o`.
///
/// A failed group creation skips the foreground transfer — the group the
/// terminal would be handed to does not exist — but still releases the
/// channel, so the child never hangs on the rendezvous; a failed transfer
/// likewise goes on to the release. Wait errors are ignored. The restore
/// step runs unconditionally before the launch is over: a launch never ends
/// without the foreground hand-back being attempted.
pub open spec fn spec_parent_next(s: ParentState, o: Outcome) -> ParentState {
    match s {
        ParentState::PlaceChildInGroup => if o == Outcome::Succeeded {
            ParentState::TransferForeground
        } else {
            ParentState::ReleaseChannel
        },
        ParentState::TransferForeground => ParentState::ReleaseChannel,
        ParentState::ReleaseChannel => ParentState::AwaitChild,
        ParentState::AwaitChild => ParentState::RestoreForeground,
        ParentState::RestoreForeground => ParentState::LaunchDone,
        ParentState::LaunchDone => ParentState::LaunchDone,
    }
}

/// Runtime form of [`spec_parent_next`].
pub fn parent_next(s: ParentState, o: Outcome) -> (r: ParentState)
    ensures
        r == spec_parent_next(s, o),
{
    match s {
        ParentState::PlaceChildInGroup => if o == Outcome::Succeeded {
            ParentState::TransferForeground
        } else {
            ParentState::ReleaseChannel
        },
        ParentState::TransferForeground => ParentState::ReleaseChannel,
        ParentState::ReleaseChannel => ParentState::AwaitChild,
        ParentState::AwaitChild => ParentState::RestoreForeground,
        ParentState::RestoreForeground => ParentState::LaunchDone,
        ParentState::LaunchDone => ParentState::LaunchDone,
    }
}

/// The states a parent run visits under the outcomes `evs`, starting at
/// `s`: element `i` is the state before outcome `i` arrives, and in state
/// `trace[i]` the parent performs `spec_parent_action(trace[i])`.
pub open spec fn parent_trace(s: ParentState, evs: Seq<Outcome>) -> Seq<ParentState>
    decreases evs.len(),
{
    if evs.len() == 0 {
        seq![s]
    } else {
        seq![s] + parent_trace(spec_parent_next(s, evs[0]), evs.drop_first())
    }
}

/// The shape of a parent trace: its length, its start, and its step rule.
#[verifier::rlimit(60)]
pub proof fn lemma_parent_trace_shape(s: ParentState, evs: Seq<Outcome>)
    ensures
        parent_trace(s, evs).len() == evs.len() + 1,
        parent_trace(s, evs)[0] == s,
        forall|i: int| 0 <= i < evs.len()
            ==> parent_trace(s, evs)[i + 1]
                == spec_parent_next(#[trigger] parent_trace(s, evs)[i], evs[i]),
    decreases evs.len(),
{
    if evs.len() == 0 {
    } else {
        let s1 = spec_parent_next(s, evs[0]);
        lemma_parent_trace_shape(s1, evs.drop_first());
        assert forall|i: int| 0 <= i < evs.len()
            implies parent_trace(s, evs)[i + 1]
                == spec_parent_next(#[trigger] parent_trace(s, evs)[i], evs[i]) by {
            if i == 0 {
                assert(parent_trace(s, evs)[1] == parent_trace(s1, evs.drop_first())[0]);
            } else {
                assert(parent_trace(s, evs)[i] == parent_trace(s1, evs.drop_first())[i - 1]);
                assert(parent_trace(s, evs)[i + 1] == parent_trace(s1, evs.drop_first())[i]);
                assert(evs[i] == evs.drop_first()[i - 1]);
            }
        }
    }
}

/// The terminal's foreground owner, as the launch protocol sees it.
pub open spec fn fg_after_step(fg: int, s: ParentState, o: Outcome, child_pg: int, shell_pg: int) -> int {
    if o == Outcome::Succeeded {
        match s {
            ParentState::TransferForeground => child_pg,
            ParentState::RestoreForeground => shell_pg,
            _ => fg,
        }
    } else {
        fg
    }
}

/// The foreground owner after a parent run: each step in which a
/// foreground call succeeded moves ownership as that call prescribes.
pub open spec fn run_foreground(
    s: ParentState,
    fg: int,
    evs: Seq<Outcome>,
    child_pg: int,
    shell_pg: int,
) -> int
    decreases evs.len(),
{
    if evs.len() == 0 {
        fg
    } else {
        run_foreground(
            spec_parent_next(s, evs[0]),
            fg_after_step(fg, s, evs[0], child_pg, shell_pg),
            evs.drop_first(),
            child_pg,
            shell_pg,
        )
    }
}

/// Whether every outcome delivered while the parent stood in the restore
/// state reported success.
pub open spec fn restore_calls_succeed(s: ParentState, evs: Seq<Outcome>) -> bool
    decreases evs.len(),
{
    if evs.len() == 0 {
        true
    } else {
        (s == ParentState::RestoreForeground ==> evs[0] == Outcome::Succeeded)
            && restore_calls_succeed(spec_parent_next(s, evs[0]), evs.drop_first())
    }
}

/// Once the launch is over, the protocol touches the foreground no more.
proof fn lemma_done_keeps_foreground(fg: int, evs: Seq<Outcome>, child_pg: int, shell_pg: int)
    ensures
        run_foreground(ParentState::LaunchDone, fg, evs, child_pg, shell_pg) == fg,
    decreases evs.len(),
{
    if evs.len() == 0 {
    } else {
        lemma_done_keeps_foreground(fg, evs.drop_first(), child_pg, shell_pg);
    }
}

/// Foreground restoration: a parent run that completes the launch — from
/// any point of the protocol, whatever mix of successes and failures the
/// other calls reported, whatever the foreground owner was — leaves the
/// interpreter's own process group as the terminal's foreground owner,
/// provided only that the restoring call itself succeeds.
#[verifier::rlimit(60)]
pub proof fn lemma_foreground_restored(
    s: ParentState,
    fg: int,
    evs: Seq<Outcome>,
    child_pg: int,
    shell_pg: int,
)
    requires
        s != ParentState::LaunchDone,
        parent_trace(s, evs).last() == ParentState::LaunchDone,
        restore_calls_succeed(s, evs),
    ensures
        run_foreground(s, fg, evs, child_pg, shell_pg) == shell_pg,
    decreases evs.len(),
{
    lemma_parent_trace_shape(s, evs);
    if evs.len() == 0 {
        assert(parent_trace(s, evs) =~= seq![s]);
        assert(false);
    }
    let s1 = spec_parent_next(s, evs[0]);
    let fg1 = fg_after_step(fg, s, evs[0], child_pg, shell_pg);
    lemma_parent_trace_shape(s1, evs.drop_first());
    assert(parent_trace(s, evs).last() == parent_trace(s1, evs.drop_first()).last());
    if s1 == ParentState::LaunchDone {
        assert(s == ParentState::RestoreForeground);
        assert(evs[0] == Outcome::Succeeded);
        assert(fg1 == shell_pg);
        lemma_done_keeps_foreground(fg1, evs.drop_first(), child_pg, shell_pg);
    } else {
        lemma_foreground_restored(s1, fg1, evs.drop_first(), child_pg, shell_pg);
    }
}

/// How many steps of the launch remain in a parent state.
pub open spec fn parent_steps_left(s: ParentState) -> nat {
    match s {
        ParentState::PlaceChildInGroup => 5,
        ParentState::TransferForeground => 4,
        ParentState::ReleaseChannel => 3,
        ParentState::AwaitChild => 2,
        ParentState::RestoreForeground => 1,
        ParentState::LaunchDone => 0,
    }
}

/// A launch always finishes: every step of an unfinished launch brings it
/// closer to the end, whatever the outcome, so the interpreter is back at
/// its prompt after at most five calls.
pub proof fn lemma_parent_progress(s: ParentState, o: Outcome)
    ensures
        s != ParentState::LaunchDone
            ==> parent_steps_left(spec_parent_next(s, o)) < parent_steps_left(s),
{
}

/// Rendezvous ordering, parent half: when the group creation succeeds, the
/// parent's very next call is the foreground transfer and only the call
/// after that releases the rendezvous channel — the release is never
/// performed before the transfer has been attempted.
pub proof fn lemma_release_follows_transfer(evs: Seq<Outcome>)
    requires
        evs.len() >= 2,
        evs[0] == Outcome::Succeeded,
    ensures
        parent_trace(ParentState::PlaceChildInGroup, evs)[0] == ParentState::PlaceChildInGroup,
        parent_trace(ParentState::PlaceChildInGroup, evs)[1] == ParentState::TransferForeground,
        parent_trace(ParentState::PlaceChildInGroup, evs)[2] == ParentState::ReleaseChannel,
{
    lemma_parent_trace_shape(ParentState::PlaceChildInGroup, evs);
}

/// Rendezvous ordering, parent half, over every run: wherever a parent run
/// stands at the channel release, the step before stood at the foreground
/// transfer — or at the group creation, and only because that creation
/// failed. No run releases the channel without having attempted the
/// transfer first, except when there is no group to transfer to.
pub proof fn lemma_release_preceded(evs: Seq<Outcome>)
    ensures
        forall|i: int| 0 < i < parent_trace(ParentState::PlaceChildInGroup, evs).len()
            && #[trigger] parent_trace(ParentState::PlaceChildInGroup, evs)[i]
                == ParentState::ReleaseChannel
            ==> parent_trace(ParentState::PlaceChildInGroup, evs)[i - 1]
                    == ParentState::TransferForeground
                || (parent_trace(ParentState::PlaceChildInGroup, evs)[i - 1]
                    == ParentState::PlaceChildInGroup && evs[i - 1] != Outcome::Succeeded),
{
    lemma_parent_trace_shape(ParentState::PlaceChildInGroup, evs);
}

/// Where the child stands between the fork and the program replacement.
/// Each state prescribes one call ([`child_action`]); the outcome picks the
/// next state ([`child_next`]).
#[derive(Clone, Copy, PartialEq, Eq, Structural, Debug)]
pub enum ChildState {
    /// Put the terminal-control signals back to their default disposition.
    RestoreSignals,
    /// Close the child's copy of the channel's write end.
    CloseWriteEnd,
    /// Block reading one byte from the rendezvous channel; an interrupted
    /// read is retried, and the byte's value is discarded.
    AwaitRendezvous,
    /// Close the remaining channel end.
    CloseReadEnd,
    /// Replace the process image with the requested program. On success
    /// this call never returns, so the machine sees an outcome here only
    /// when the replacement failed.
    ReplaceImage,
    /// The replacement failed (unknown program, permission error): report
    /// it and terminate this process with a non-zero status. Control must
    /// never fall through into the interpreter's loop, which belongs to the
    /// parent's address space.
    ReportExecFailure,
    /// The child is gone; no further call exists.
    ChildOver,
}

/// The call the child must perform in a state.
#[derive(Clone, Copy, PartialEq, Eq, Structural, Debug)]
pub enum ChildAction {
    /// Restore the three terminal-control signals to their defaults.
    RestoreTtySignals,
    /// Close the write end of the rendezvous channel.
    CloseWriteDescriptor,
    /// Read one byte from the rendezvous channel.
    ReadRendezvousByte,
    /// Close the read end of the rendezvous channel.
    CloseReadDescriptor,
    /// Replace the process image with the requested program and arguments.
    ExecProgram,
    /// Report the failed replacement and exit with a non-zero status.
    ExitWithFailure,
    /// Nothing is left to do.
    NoCall,
}

/// The call prescribed in each child state.
pub open spec fn spec_child_action(s: ChildState) -> ChildAction {
    match s {
        ChildState::RestoreSignals => ChildAction::RestoreTtySignals,
        ChildState::CloseWriteEnd => ChildAction::CloseWriteDescriptor,
        ChildState::AwaitRendezvous => ChildAction::ReadRendezvousByte,
        ChildState::CloseReadEnd => ChildAction::CloseReadDescriptor,
        ChildState::ReplaceImage => ChildAction::ExecProgram,
        ChildState::ReportExecFailure => ChildAction::ExitWithFailure,
        ChildState::ChildOver => ChildAction::NoCall,
    }
}

/// Runtime form of [`spec_child_action`].
pub fn child_action(s: ChildState) -> (a: ChildAction)
    ensures
        a == spec_child_action(s),
{
    match s {
        ChildState::RestoreSignals => ChildAction::RestoreTtySignals,
        ChildState::CloseWriteEnd => ChildAction::CloseWriteDescriptor,
        ChildState::AwaitRendezvous => ChildAction::ReadRendezvousByte,
        ChildState::CloseReadEnd => ChildAction::CloseReadDescriptor,
        ChildState::ReplaceImage => ChildAction::ExecProgram,
        ChildState::ReportExecFailure => ChildAction::ExitWithFailure,
        ChildState::ChildOver => ChildAction::NoCall,
    }
}

/// The child's next state once the prescribed call reported `o`. Only an
/// interrupted rendezvous read is retried; any completed read — a byte, the
/// end of the channel, or another error — lets the child proceed. An
/// outcome arriving at the replacement step means the replacement failed.
pub open spec fn spec_child_next(s: ChildState, o: Outcome) -> ChildState {
    match s {
        ChildState::RestoreSignals => ChildState::CloseWriteEnd,
        ChildState::CloseWriteEnd => ChildState::AwaitRendezvous,
        ChildState::AwaitRendezvous => if o == Outcome::Interrupted {
            ChildState::AwaitRendezvous
        } else {
            ChildState::CloseReadEnd
        },
        ChildState::CloseReadEnd => ChildState::ReplaceImage,
        ChildState::ReplaceImage => ChildState::ReportExecFailure,
        ChildState::ReportExecFailure => ChildState::ChildOver,
        ChildState::ChildOver => ChildState::ChildOver,
    }
}

/// Runtime form of [`spec_child_next`].
pub fn child_next(s: ChildState, o: Outcome) -> (r: ChildState)
    ensures
        r == spec_child_next(s, o),
{
    match s {
        ChildState::RestoreSignals => ChildState::CloseWriteEnd,
        ChildState::CloseWriteEnd => ChildState::AwaitRendezvous,
        ChildState::AwaitRendezvous => if o == Outcome::Interrupted {
            ChildState::AwaitRendezvous
        } else {
            ChildState::CloseReadEnd
        },
        ChildState::CloseReadEnd => ChildState::ReplaceImage,
        ChildState::ReplaceImage => ChildState::ReportExecFailure,
        ChildState::ReportExecFailure => ChildState::ChildOver,
        ChildState::ChildOver => ChildState::ChildOver,
    }
}

/// The states a child run visits under the outcomes `evs`, starting at `s`.
pub open spec fn child_trace(s: ChildState, evs: Seq<Outcome>) -> Seq<ChildState>
    decreases evs.len(),
{
    if evs.len() == 0 {
        seq![s]
    } else {
        seq![s] + child_trace(spec_child_next(s, evs[0]), evs.drop_first())
    }
}

/// The shape of a child trace: its length, its start, and its step rule.
#[verifier::rlimit(60)]
pub proof fn lemma_child_trace_shape(s: ChildState, evs: Seq<Outcome>)
    ensures
        child_trace(s, evs).len() == evs.len() + 1,
        child_trace(s, evs)[0] == s,
        forall|i: int| 0 <= i < evs.len()
            ==> child_trace(s, evs)[i + 1]
                == spec_child_next(#[trigger] child_trace(s, evs)[i], evs[i]),
    decreases evs.len(),
{
    if evs.len() == 0 {
    } else {
        let s1 = spec_child_next(s, evs[0]);
        lemma_child_trace_shape(s1, evs.drop_first());
        assert forall|i: int| 0 <= i < evs.len()
            implies child_trace(s, evs)[i + 1]
                == spec_child_next(#[trigger] child_trace(s, evs)[i], evs[i]) by {
            if i == 0 {
                assert(child_trace(s, evs)[1] == child_trace(s1, evs.drop_first())[0]);
            } else {
                assert(child_trace(s, evs)[i] == child_trace(s1, evs.drop_first())[i - 1]);
                assert(child_trace(s, evs)[i + 1] == child_trace(s1, evs.drop_first())[i]);
                assert(evs[i] == evs.drop_first()[i - 1]);
            }
        }
    }
}

/// Rendezvous ordering, child half: in every child run the program
/// replacement is reached only through the channel close, which in turn is
/// reached only from a rendezvous read that completed — one whose outcome
/// was not an interruption. The child never begins the program replacement
/// before its rendezvous read has returned.
pub proof fn lemma_exec_follows_rendezvous(evs: Seq<Outcome>)
    ensures
        forall|i: int| 0 < i < child_trace(ChildState::RestoreSignals, evs).len()
            && #[trigger] child_trace(ChildState::RestoreSignals, evs)[i]
                == ChildState::CloseReadEnd
            ==> child_trace(ChildState::RestoreSignals, evs)[i - 1]
                    == ChildState::AwaitRendezvous && evs[i - 1] != Outcome::Interrupted,
        forall|i: int| 0 < i < child_trace(ChildState::RestoreSignals, evs).len()
            && #[trigger] child_trace(ChildState::RestoreSignals, evs)[i]
                == ChildState::ReplaceImage
            ==> child_trace(ChildState::RestoreSignals, evs)[i - 1] == ChildState::CloseReadEnd,
{
    lemma_child_trace_shape(ChildState::RestoreSignals, evs);
}

} // verus!
