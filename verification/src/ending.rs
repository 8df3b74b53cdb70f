//! What is left to do once the view has closed.

use crate::commands::{Verb, VerbView};
use crate::state::{State, StateView};
use crate::text::{find_char, lemma_find_char, lemma_find_single, split_once};
use vstd::prelude::*;
use vstd::string::*;

verus! {

/// What is left to do.
#[derive(Debug, PartialEq, Eq)]
pub enum Ending {
    /// The build failed: these texts go to stderr, one after the other, and the exit code is one.
    Failed { errors: Vec<String> },
    /// There is nothing to run: this text goes to stderr, and the exit code is one.
    NoTarget { message: String },
    /// This binary runs with these arguments, on the terminal that the view has handed back.
    Execute { path: String, program_args: Vec<String> },
    /// Nothing.
    Over,
}

/// An [`Ending`] as a mathematical value.
pub enum EndingView {
    Failed { errors: Seq<Seq<char>> },
    NoTarget { message: Seq<char> },
    Execute { path: Seq<char>, program_args: Seq<String> },
    Over,
}

impl View for Ending {
    type V = EndingView;

    open spec fn view(&self) -> EndingView {
        match self {
            Ending::Failed { errors } => EndingView::Failed { errors: errors.deep_view() },
            Ending::NoTarget { message } => EndingView::NoTarget { message: message@ },
            Ending::Execute { path, program_args } => EndingView::Execute {
                path: path@,
                program_args: program_args@,
            },
            Ending::Over => EndingView::Over,
        }
    }
}

/// What is left to do after the view closed on this state.
pub open spec fn ending_of(s: StateView, verb: VerbView) -> EndingView {
    if s.build_ok == Some(false) {
        EndingView::Failed { errors: s.errors }
    } else {
        match verb {
            VerbView::Run(program_args) => match s.run_target {
                Some(path) => EndingView::Execute { path, program_args },
                None => EndingView::NoTarget {
                    message: "cargo pretty: build succeeded but no runnable target was found"@,
                },
            },
            _ => EndingView::Over,
        }
    }
}

/// Decides what is left to do.
pub fn ending(state: State, verb: Verb) -> (r: Ending)
    ensures
        r@ == ending_of(state@, verb@),
{
    if let Some(ok) = state.build_ok {
        if !ok {
            return Ending::Failed { errors: state.errors };
        }
    }
    match verb {
        Verb::Run { program_args } => match state.run_target {
            Some(path) => Ending::Execute { path, program_args },
            None => Ending::NoTarget {
                message: "cargo pretty: build succeeded but no runnable target was found".to_owned(),
            },
        },
        _ => Ending::Over,
    }
}

/// The name of an executable as it is shown: what stands in its file name before the first dot.
pub fn shown_name<'a>(file_name: &'a str) -> (r: &'a str)
    ensures
        r@ == file_name@.take(find_char(file_name@, '.')),
{
    proof {
        reveal_strlit(".");
        assert("."@ =~= seq!['.']);
        lemma_find_single(file_name@, '.');
        lemma_find_char(file_name@, '.');
    }
    match split_once(file_name, ".") {
        Some((name, _)) => name,
        None => {
            assert(file_name@.take(file_name@.len() as int) =~= file_name@);
            file_name
        },
    }
}

/// A failed build runs nothing, whatever the verb.
pub proof fn law_failed_build_runs_nothing(s: StateView, verb: VerbView)
    requires
        s.build_ok == Some(false),
    ensures
        !(ending_of(s, verb) is Execute),
        ending_of(s, verb) == (EndingView::Failed { errors: s.errors }),
{
}

/// What is left to do. Where the build failed, the errors; after a `run` whose build did not fail, to
/// run the binary that was built with the arguments that are for it, or to say that there is none;
/// after anything else nothing.
pub proof fn law_run_executes_what_was_built(s: StateView, verb: VerbView)
    ensures
        s.build_ok == Some(false) ==> ending_of(s, verb) == (EndingView::Failed {
            errors: s.errors,
        }),
        s.build_ok != Some(false) && verb is Run && s.run_target is Some ==> ending_of(s, verb)
            == (EndingView::Execute { path: s.run_target->0, program_args: verb->Run_0 }),
        s.build_ok != Some(false) && verb is Run && s.run_target is None ==> ending_of(s, verb)
            == (EndingView::NoTarget {
            message: "cargo pretty: build succeeded but no runnable target was found"@,
        }),
        s.build_ok != Some(false) && !(verb is Run) ==> ending_of(s, verb) is Over,
{
}

/// The name that is shown of an executable is its file name up to the first dot, or all of it.
pub proof fn law_shown_name_ends_at_the_first_dot(name: Seq<char>, extension: Seq<char>)
    requires
        !name.contains('.'),
    ensures
        (name + seq!['.'] + extension).take(
            find_char(name + seq!['.'] + extension, '.'),
        ) == name,
        name.take(find_char(name, '.')) == name,
{
    let file = name + seq!['.'] + extension;
    lemma_find_char(file, '.');
    lemma_find_char(name, '.');
    assert forall|i: int| 0 <= i < name.len() implies file[i] != '.' && name[i] != '.' by {
        assert(file[i] == name[i]);
        assert(name.contains(name[i]));
    }
    assert(file[name.len() as int] == '.');
    assert(file.take(name.len() as int) =~= name);
    assert(name.take(name.len() as int) =~= name);
}

} // verus!
