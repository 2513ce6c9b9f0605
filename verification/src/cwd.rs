//! Deciding which directory is the current one: the `PWD` variable, the
//! process's working directory, or that directory with all links resolved.
//! The reads themselves are made by the caller; this module decides what to
//! read next and what the answer is.
use vstd::prelude::*;

use crate::text::concat2;

verus! {

/// What the caller has just learned.
pub enum DirEvent {
    /// Nothing yet.
    Start,
    /// The value of the `PWD` environment variable, if it is set to valid text.
    Pwd(Option<String>),
    /// The process's working directory, or why it could not be read.
    CurrentDir(Result<String, String>),
    /// The working directory with all links resolved, or why that failed.
    Canonical(Result<String, String>),
}

/// What the caller is to do next.
pub enum DirAction {
    /// Read the `PWD` environment variable.
    ReadPwd,
    /// Read the process's working directory.
    ReadCurrentDir,
    /// Resolve all links in this path.
    Canonicalize(String),
    /// Stop: this is the current directory, or the error to report.
    Finish(Result<String, String>),
}

/// The message for `--logical` given together with `--physical`.
pub open spec fn options_conflict() -> Seq<char> {
    "Error: --logical and --physical options are mutually exclusive"@
}

/// Refuses `--logical` together with `--physical`.
pub fn check_path_options(use_logical: bool, use_physical: bool) -> (r: Result<(), String>)
    ensures
        r is Err <==> use_logical && use_physical,
        r matches Err(e) ==> e@ == options_conflict(),
{
    if use_logical && use_physical {
        Err(crate::text::owned("Error: --logical and --physical options are mutually exclusive"))
    } else {
        Ok(())
    }
}

/// The error for a working directory that could not be read.
pub open spec fn current_dir_failed(e: Seq<char>) -> Seq<char> {
    "Failed to get current directory: "@ + e
}

/// The error for a working directory whose links could not be resolved.
pub open spec fn canonicalize_failed(e: Seq<char>) -> Seq<char> {
    "Failed to canonicalize path: "@ + e
}

/// What the caller has learned, as plain values.
pub enum EventModel {
    Start,
    Pwd(Option<Seq<char>>),
    CurrentDir(Result<Seq<char>, Seq<char>>),
    Canonical(Result<Seq<char>, Seq<char>>),
}

/// What the caller is to do next, as plain values.
pub enum ActionModel {
    ReadPwd,
    ReadCurrentDir,
    Canonicalize(Seq<char>),
    Finish(Result<Seq<char>, Seq<char>>),
}

/// The characters of a result of strings.
pub open spec fn result_chars(r: Result<String, String>) -> Result<Seq<char>, Seq<char>> {
    match r {
        Ok(s) => Ok(s@),
        Err(e) => Err(e@),
    }
}

impl View for DirEvent {
    type V = EventModel;

    open spec fn view(&self) -> EventModel {
        match self {
            DirEvent::Start => EventModel::Start,
            DirEvent::Pwd(p) => EventModel::Pwd(crate::text::opt_chars(*p)),
            DirEvent::CurrentDir(r) => EventModel::CurrentDir(result_chars(*r)),
            DirEvent::Canonical(r) => EventModel::Canonical(result_chars(*r)),
        }
    }
}

impl View for DirAction {
    type V = ActionModel;

    open spec fn view(&self) -> ActionModel {
        match self {
            DirAction::ReadPwd => ActionModel::ReadPwd,
            DirAction::ReadCurrentDir => ActionModel::ReadCurrentDir,
            DirAction::Canonicalize(p) => ActionModel::Canonicalize(p@),
            DirAction::Finish(r) => ActionModel::Finish(result_chars(*r)),
        }
    }
}

/// The next step in finding the current directory: with `--logical`, `PWD`
/// first, if it is set; otherwise the working directory, with links resolved
/// under `--physical`. An error names the step that failed.
pub open spec fn next_step(use_logical: bool, use_physical: bool, event: EventModel) -> ActionModel {
    match event {
        EventModel::Start => if use_logical {
            ActionModel::ReadPwd
        } else {
            ActionModel::ReadCurrentDir
        },
        EventModel::Pwd(Some(p)) => ActionModel::Finish(Ok(p)),
        EventModel::Pwd(None) => ActionModel::ReadCurrentDir,
        EventModel::CurrentDir(Ok(p)) => if use_physical {
            ActionModel::Canonicalize(p)
        } else {
            ActionModel::Finish(Ok(p))
        },
        EventModel::CurrentDir(Err(e)) => ActionModel::Finish(Err(current_dir_failed(e))),
        EventModel::Canonical(Ok(p)) => ActionModel::Finish(Ok(p)),
        EventModel::Canonical(Err(e)) => ActionModel::Finish(Err(canonicalize_failed(e))),
    }
}

/// The next step in finding the current directory (see [`next_step`]).
pub fn next_dir_action(use_logical: bool, use_physical: bool, event: DirEvent) -> (r: DirAction)
    ensures
        r@ == next_step(use_logical, use_physical, event@),
{
    match event {
        DirEvent::Start => if use_logical {
            DirAction::ReadPwd
        } else {
            DirAction::ReadCurrentDir
        },
        DirEvent::Pwd(Some(p)) => DirAction::Finish(Ok(p)),
        DirEvent::Pwd(None) => DirAction::ReadCurrentDir,
        DirEvent::CurrentDir(Ok(p)) => if use_physical {
            DirAction::Canonicalize(p)
        } else {
            DirAction::Finish(Ok(p))
        },
        DirEvent::CurrentDir(Err(e)) => DirAction::Finish(
            Err(concat2("Failed to get current directory: ", e.as_str())),
        ),
        DirEvent::Canonical(Ok(p)) => DirAction::Finish(Ok(p)),
        DirEvent::Canonical(Err(e)) => DirAction::Finish(
            Err(concat2("Failed to canonicalize path: ", e.as_str())),
        ),
    }
}

/// The event that answers `a`, given what each read yields.
pub open spec fn respond(
    a: ActionModel,
    pwd: Option<Seq<char>>,
    cwd: Result<Seq<char>, Seq<char>>,
    canonical: Result<Seq<char>, Seq<char>>,
) -> EventModel {
    match a {
        ActionModel::ReadPwd => EventModel::Pwd(pwd),
        ActionModel::ReadCurrentDir => EventModel::CurrentDir(cwd),
        ActionModel::Canonicalize(_) => EventModel::Canonical(canonical),
        ActionModel::Finish(_) => EventModel::Start,
    }
}

/// One more round: a finished search stays finished; otherwise the read that
/// `a` asks for is answered and the next step taken.
pub open spec fn after(
    use_logical: bool,
    use_physical: bool,
    a: ActionModel,
    pwd: Option<Seq<char>>,
    cwd: Result<Seq<char>, Seq<char>>,
    canonical: Result<Seq<char>, Seq<char>>,
) -> ActionModel {
    match a {
        ActionModel::Finish(_) => a,
        _ => next_step(use_logical, use_physical, respond(a, pwd, cwd, canonical)),
    }
}

/// The current directory as the options define it: under `--logical` the
/// `PWD` variable when it is set; otherwise the working directory, resolved
/// under `--physical`; or the error of the read that failed.
pub open spec fn chosen_directory(
    use_logical: bool,
    use_physical: bool,
    pwd: Option<Seq<char>>,
    cwd: Result<Seq<char>, Seq<char>>,
    canonical: Result<Seq<char>, Seq<char>>,
) -> Result<Seq<char>, Seq<char>> {
    if use_logical && pwd is Some {
        Ok(pwd.unwrap())
    } else {
        match cwd {
            Err(e) => Err(current_dir_failed(e)),
            Ok(c) => if use_physical {
                match canonical {
                    Ok(x) => Ok(x),
                    Err(e) => Err(canonicalize_failed(e)),
                }
            } else {
                Ok(c)
            },
        }
    }
}

/// Whatever the reads yield, the search ends within three rounds after the
/// start, with the directory (or error) that the options define.
pub proof fn law_directory_search_ends(
    use_logical: bool,
    use_physical: bool,
    pwd: Option<Seq<char>>,
    cwd: Result<Seq<char>, Seq<char>>,
    canonical: Result<Seq<char>, Seq<char>>,
)
    ensures
        ({
            let a1 = next_step(use_logical, use_physical, EventModel::Start);
            let a2 = after(use_logical, use_physical, a1, pwd, cwd, canonical);
            let a3 = after(use_logical, use_physical, a2, pwd, cwd, canonical);
            let a4 = after(use_logical, use_physical, a3, pwd, cwd, canonical);
            a4 == ActionModel::Finish(
                chosen_directory(use_logical, use_physical, pwd, cwd, canonical),
            )
        }),
{
}

} // verus!
