//! What to run to show a path in the file manager, and how to remove what
//! lies at a path. The decisions are made here; running the program and
//! touching the disk is left to the caller.

use vstd::prelude::*;

verus! {

/// The system whose file manager is asked.
#[derive(Clone, Copy, Debug, PartialEq, Eq, Structural)]
pub enum Platform {
    Windows,
    MacOs,
    Linux,
    /// A system without a known file manager: nothing is run there.
    Other,
}

/// A program to start, with its arguments in order.
#[derive(Debug)]
pub struct Launch {
    pub program: String,
    pub arguments: Vec<String>,
}

/// The mathematical value of a [`Launch`].
pub ghost struct LaunchPlan {
    pub program: Seq<char>,
    pub arguments: Seq<Seq<char>>,
}

impl View for Launch {
    type V = LaunchPlan;

    open spec fn view(&self) -> LaunchPlan {
        LaunchPlan { program: self.program@, arguments: self.arguments.deep_view() }
    }
}

/// What lies at a path that is to be removed.
#[derive(Clone, Copy, Debug, PartialEq, Eq, Structural)]
pub enum Removal {
    /// A single file.
    File,
    /// A directory with everything below it.
    DirectoryTree,
}

/// Why nothing can be removed.
#[derive(Clone, Copy, Debug, PartialEq, Eq, Structural)]
pub enum DeleteError {
    /// Neither a file nor a directory is at the path.
    PathDoesNotExist,
}

/// What is run to show `path`, whose parent directory is `parent`: Windows
/// selects the path in its explorer, macOS reveals it in its finder, Linux
/// opens the parent directory, or the path itself where it has no parent,
/// and any other system runs nothing. Showing a path never fails by itself;
/// only starting the program can.
pub open spec fn reveal_launch(
    platform: Platform,
    path: Seq<char>,
    parent: Option<Seq<char>>,
) -> Option<LaunchPlan> {
    match platform {
        Platform::Windows => Some(
            LaunchPlan { program: "explorer"@, arguments: seq!["/select,"@, path] },
        ),
        Platform::MacOs => Some(LaunchPlan { program: "open"@, arguments: seq!["-R"@, path] }),
        Platform::Linux => Some(
            LaunchPlan {
                program: "xdg-open"@,
                arguments: seq![
                    match parent {
                        Some(directory) => directory,
                        None => path,
                    },
                ],
            },
        ),
        Platform::Other => None,
    }
}

/// The characters of a directory's path, where there is one.
pub open spec fn text_of(directory: Option<String>) -> Option<Seq<char>> {
    match directory {
        Some(text) => Some(text@),
        None => None,
    }
}

/// Whether `outcome` is the value of `expected`.
pub open spec fn is_reveal_of(outcome: Option<Launch>, expected: Option<LaunchPlan>) -> bool {
    match outcome {
        Some(launch) => expected == Some(launch@),
        None => expected is None,
    }
}

/// Whether `shorter` is the beginning of `longer` and not all of it.
pub open spec fn is_proper_prefix(shorter: Seq<char>, longer: Seq<char>) -> bool {
    shorter.len() < longer.len() && shorter == longer.take(shorter.len() as int)
}

/// Whether `plan` opens `path` or a directory above it with the file
/// manager of a Linux desktop.
pub open spec fn opens_path_or_ancestor(plan: LaunchPlan, path: Seq<char>) -> bool {
    &&& plan.program == "xdg-open"@
    &&& plan.arguments.len() == 1
    &&& (plan.arguments[0] == path || is_proper_prefix(plan.arguments[0], path))
}

/// What removes the entry at a path that is a file if `is_file` and a
/// directory if `is_directory`. A path that is neither is not there.
pub open spec fn removal(is_file: bool, is_directory: bool) -> Result<Removal, DeleteError> {
    if is_file {
        Ok(Removal::File)
    } else if is_directory {
        Ok(Removal::DirectoryTree)
    } else {
        Err(DeleteError::PathDoesNotExist)
    }
}

/// A launch of `program` with one argument.
fn launch_with(program: &str, argument: String) -> (launch: Launch)
    ensures
        launch@ == (LaunchPlan { program: program@, arguments: seq![argument@] }),
{
    let mut arguments: Vec<String> = Vec::new();
    arguments.push(argument);
    let launch = Launch { program: program.to_owned(), arguments };
    assert(launch.arguments.deep_view() =~= seq![argument@]);
    launch
}

/// A launch of `program` with a flag and one argument behind it.
fn launch_with_flag(program: &str, flag: &str, argument: String) -> (launch: Launch)
    ensures
        launch@ == (LaunchPlan { program: program@, arguments: seq![flag@, argument@] }),
{
    let mut arguments: Vec<String> = Vec::new();
    arguments.push(flag.to_owned());
    arguments.push(argument);
    let launch = Launch { program: program.to_owned(), arguments };
    assert(launch.arguments.deep_view() =~= seq![flag@, argument@]);
    launch
}

/// Decides what to run to show `path` in the file manager of `platform`,
/// given the parent directory of the path where it has one.
pub fn reveal_command(platform: Platform, path: &str, parent: Option<String>) -> (outcome: Option<
    Launch,
>)
    ensures
        is_reveal_of(outcome, reveal_launch(platform, path@, text_of(parent))),
{
    match platform {
        Platform::Windows => Some(launch_with_flag("explorer", "/select,", path.to_owned())),
        Platform::MacOs => Some(launch_with_flag("open", "-R", path.to_owned())),
        Platform::Linux => match parent {
            Some(directory) => Some(launch_with("xdg-open", directory)),
            None => Some(launch_with("xdg-open", path.to_owned())),
        },
        Platform::Other => None,
    }
}

/// The parent directory of `path` as `std::path::Path::parent` gives it. The
/// standard library documents that the parent is the path without its final
/// component and that the empty path has none; so a parent that is returned
/// is claimed to be a beginning of `path` and shorter than it. Which
/// beginning it is depends on what the system takes for a separator or a
/// root, and is not claimed.
#[verifier::external_body]
fn parent_directory(path: &str) -> (parent: Option<String>)
    ensures
        path@.len() == 0 ==> parent is None,
        parent matches Some(directory) ==> is_proper_prefix(directory@, path@),
{
    match std::path::Path::new(path).parent() {
        Some(directory) => Some(directory.to_string_lossy().into_owned()),
        None => None,
    }
}

/// Decides what to run to show `path` in the file manager of `platform`.
/// The parent directory is looked up only where it is needed, on Linux:
/// there the parent is opened, and the path itself where it has no parent.
/// Something is run on every system but an unknown one.
pub fn plan_reveal(platform: Platform, path: &str) -> (outcome: Option<Launch>)
    ensures
        platform != Platform::Linux ==> is_reveal_of(outcome, reveal_launch(platform, path@, None)),
        platform == Platform::Linux ==> outcome is Some && opens_path_or_ancestor(
            outcome->0@,
            path@,
        ),
        outcome is None <==> platform == Platform::Other,
{
    match platform {
        Platform::Linux => {
            let parent = parent_directory(path);
            reveal_command(platform, path, parent)
        },
        _ => reveal_command(platform, path, None),
    }
}

/// Decides how to remove the entry at a path, given what was found there.
pub fn removal_for(is_file: bool, is_directory: bool) -> (outcome: Result<Removal, DeleteError>)
    ensures
        outcome == removal(is_file, is_directory),
{
    if is_file {
        Ok(Removal::File)
    } else if is_directory {
        Ok(Removal::DirectoryTree)
    } else {
        Err(DeleteError::PathDoesNotExist)
    }
}

impl DeleteError {
    /// The error in words.
    pub fn message(&self) -> (text: String)
        ensures
            text@ == "path does not exist"@,
    {
        "path does not exist".to_owned()
    }
}

} // verus!
