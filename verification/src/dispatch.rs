//! Deciding between builtin and external execution.
//!
//! The interpreter recognizes a fixed set of builtin names; every other
//! first token names an external program, whether or not such a program
//! exists — an unknown name surfaces only when the launch fails.

use vstd::prelude::*;

verus! {

/// The builtins the interpreter runs in its own process.
#[derive(Clone, Copy, PartialEq, Eq, Structural, Debug)]
pub enum BuiltinKind {
    /// Change the working directory.
    ChangeDir,
    /// The work-time tracking command.
    Work,
    /// End the session.
    Exit,
}

/// The name of the directory-change builtin, as bytes.
pub open spec fn name_cd() -> Seq<u8> {
    seq![('c' as u8), ('d' as u8)]
}

/// The name of the work-time tracking builtin, as bytes.
pub open spec fn name_work() -> Seq<u8> {
    seq![('w' as u8), ('o' as u8), ('r' as u8), ('k' as u8)]
}

/// The name of the session-exit builtin, as bytes.
pub open spec fn name_exit() -> Seq<u8> {
    seq![('e' as u8), ('x' as u8), ('i' as u8), ('t' as u8)]
}

/// The builtin registry as a lookup: which builtin, if any, a name denotes.
pub open spec fn spec_builtin_of(name: Seq<u8>) -> Option<BuiltinKind> {
    if name == name_cd() {
        Some(BuiltinKind::ChangeDir)
    } else if name == name_work() {
        Some(BuiltinKind::Work)
    } else if name == name_exit() {
        Some(BuiltinKind::Exit)
    } else {
        None
    }
}

/// What the dispatcher decides for one command.
#[derive(Clone, Copy, PartialEq, Eq, Structural, Debug)]
pub enum Dispatch {
    /// Run the named builtin in the interpreter's own process.
    RunBuiltin(BuiltinKind),
    /// Launch an external program as a foreground job.
    Launch,
}

/// The dispatch decision for a command name.
pub open spec fn spec_dispatch(name: Seq<u8>) -> Dispatch {
    match spec_builtin_of(name) {
        Some(kind) => Dispatch::RunBuiltin(kind),
        None => Dispatch::Launch,
    }
}

/// Looks a command name up in the builtin registry.
pub fn builtin_of(name: &[u8]) -> (r: Option<BuiltinKind>)
    ensures
        r == spec_builtin_of(name@),
{
    if name.len() == 2 && name[0] == ('c' as u8) && name[1] == ('d' as u8) {
        proof {
            assert(name@ =~= name_cd());
        }
        Some(BuiltinKind::ChangeDir)
    } else if name.len() == 4 && name[0] == ('w' as u8) && name[1] == ('o' as u8) && name[2] == ('r' as u8)
        && name[3] == ('k' as u8) {
        proof {
            assert(name@ =~= name_work());
        }
        Some(BuiltinKind::Work)
    } else if name.len() == 4 && name[0] == ('e' as u8) && name[1] == ('x' as u8) && name[2] == ('i' as u8)
        && name[3] == ('t' as u8) {
        proof {
            assert(name@ =~= name_exit());
        }
        Some(BuiltinKind::Exit)
    } else {
        proof {
            assert(name@ != name_cd());
            assert(name@ != name_work());
            assert(name@ != name_exit());
        }
        None
    }
}

/// Decides, for a non-empty argument vector, whether its first token names
/// a builtin to run in-process or an external program to launch.
pub fn dispatch(argv: &Vec<Vec<u8>>) -> (r: Dispatch)
    requires
        argv@.len() > 0,
    ensures
        r == spec_dispatch(argv@[0]@),
{
    match builtin_of(argv[0].as_slice()) {
        Some(kind) => Dispatch::RunBuiltin(kind),
        None => Dispatch::Launch,
    }
}

/// The directory the change-directory builtin falls back to when it is
/// given no argument: the fixed home path.
pub open spec fn default_home() -> Seq<u8> {
    seq![
        ('/' as u8), ('U' as u8), ('s' as u8), ('e' as u8), ('r' as u8), ('s' as u8),
        ('/' as u8), ('n' as u8), ('o' as u8), ('h' as u8), ('a' as u8), ('r' as u8),
        ('u' as u8),
    ]
}

/// The directory the change-directory builtin moves to: its first
/// argument, or the fixed home path when none is given.
pub fn cd_target(argv: &Vec<Vec<u8>>) -> (r: Vec<u8>)
    ensures
        argv@.len() >= 2 ==> r@ == argv@[1]@,
        argv@.len() < 2 ==> r@ == default_home(),
{
    if argv.len() >= 2 {
        vstd::slice::slice_to_vec(argv[1].as_slice())
    } else {
        let mut v: Vec<u8> = Vec::new();
        v.push('/' as u8);
        v.push('U' as u8);
        v.push('s' as u8);
        v.push('e' as u8);
        v.push('r' as u8);
        v.push('s' as u8);
        v.push('/' as u8);
        v.push('n' as u8);
        v.push('o' as u8);
        v.push('h' as u8);
        v.push('a' as u8);
        v.push('r' as u8);
        v.push('u' as u8);
        proof {
            assert(v@ =~= default_home());
        }
        v
    }
}

/// Builtin and external dispatch partition the commands: a command whose
/// first token is in the builtin registry is never launched externally, and
/// a command whose first token is not is never run as a builtin.
pub proof fn lemma_dispatch_partition(name: Seq<u8>)
    ensures
        spec_builtin_of(name) is Some
            <==> spec_dispatch(name) == Dispatch::RunBuiltin(spec_builtin_of(name)->Some_0),
        spec_builtin_of(name) is None <==> spec_dispatch(name) == Dispatch::Launch,
{
}

} // verus!
