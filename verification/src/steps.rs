//! The steps by which a project is set up, built and run, and the commands
//! that they run.
//!
//! Nothing is run here. A plan says which steps are taken and in which order;
//! an invocation says which program a step runs, with which arguments and
//! where. A step is taken only when those before it went through.

use crate::scaffold::{jar_name, ProjectConfig, TARGET_DIR};
use crate::text::texts;
use vstd::prelude::*;
use vstd::string::*;

verus! {

/// One thing that is done to a project from outside this library.
#[derive(Clone, Copy, Debug, PartialEq, Eq, Structural)]
pub enum Step {
    /// Remove the archive and the project's directory, where they exist.
    Reset,
    /// Fetch the scaffold's archive from its address.
    Download,
    /// Unpack the archive into the directory of all projects.
    Unpack,
    /// Remove the archive.
    RemoveArchive,
    /// Ask the build tool for the project's version.
    ProbeVersion,
    /// Bring the required plugins into the build descriptor.
    SyncPlugins,
    /// Build the project.
    Build,
    /// Run the archive that the build made.
    Launch,
}

/// The steps that set a project up, in their order.
pub open spec fn init_steps() -> Seq<Step> {
    seq![
        Step::Reset,
        Step::Download,
        Step::Unpack,
        Step::RemoveArchive,
        Step::ProbeVersion,
        Step::SyncPlugins,
    ]
}

/// The steps that run a project: it is built first.
pub open spec fn run_steps() -> Seq<Step> {
    seq![Step::Build, Step::Launch]
}

/// What is said when the command of a step fails, for the steps that run a
/// command.
pub open spec fn failure_text(step: Step) -> Option<Seq<char>> {
    match step {
        Step::Download => Some("Failed to download Spring Boot scaffold"@),
        Step::Unpack => Some("Failed to unzip Spring Boot scaffold"@),
        Step::ProbeVersion => Some("Failed to get project version from pom.xml"@),
        Step::Build => Some("Failed to build project"@),
        Step::Launch => Some("Failed to run project"@),
        _ => None,
    }
}

/// The steps that set a project up. Each is taken only when those before it
/// went through.
pub fn init_plan() -> (plan: Vec<Step>)
    ensures
        plan@ == init_steps(),
{
    let mut plan: Vec<Step> = Vec::new();
    plan.push(Step::Reset);
    plan.push(Step::Download);
    plan.push(Step::Unpack);
    plan.push(Step::RemoveArchive);
    plan.push(Step::ProbeVersion);
    plan.push(Step::SyncPlugins);
    plan
}

/// The steps that run a project.
pub fn run_plan() -> (plan: Vec<Step>)
    ensures
        plan@ == run_steps(),
{
    let mut plan: Vec<Step> = Vec::new();
    plan.push(Step::Build);
    plan.push(Step::Launch);
    plan
}

/// What to say when the command of `step` fails; `None` for a step that runs
/// no command, whose own error is passed on as it is.
pub fn failure_message(step: Step) -> (message: Option<String>)
    ensures
        optional_string(message) == failure_text(step),
{
    match step {
        Step::Download => Some("Failed to download Spring Boot scaffold".to_owned()),
        Step::Unpack => Some("Failed to unzip Spring Boot scaffold".to_owned()),
        Step::ProbeVersion => Some("Failed to get project version from pom.xml".to_owned()),
        Step::Build => Some("Failed to build project".to_owned()),
        Step::Launch => Some("Failed to run project".to_owned()),
        _ => None,
    }
}

/// The archive of a scaffold, where it is kept between the steps.
pub const ARCHIVE: &'static str = "spring.zip";

/// An argument of a command: a text, or a path by its segments.
#[derive(Debug, PartialEq, Eq)]
pub enum Argument {
    Text(String),
    Path(Vec<String>),
}

/// An argument in the mathematical model.
pub enum ArgumentText {
    Text(Seq<char>),
    Path(Seq<Seq<char>>),
}

impl View for Argument {
    type V = ArgumentText;

    open spec fn view(&self) -> ArgumentText {
        match self {
            Argument::Text(text) => ArgumentText::Text(text@),
            Argument::Path(path) => ArgumentText::Path(texts(path@)),
        }
    }
}

/// The models of a list of arguments.
pub open spec fn argument_texts(arguments: Seq<Argument>) -> Seq<ArgumentText> {
    Seq::new(arguments.len(), |i: int| arguments[i]@)
}

/// A command that a step runs.
#[derive(Debug, PartialEq, Eq)]
pub struct Invocation {
    pub program: String,
    pub arguments: Vec<Argument>,
    /// Where it runs, by the segments of the path; where the caller stands,
    /// if there is none.
    pub directory: Option<Vec<String>>,
    /// Whether what it prints is taken in rather than shown.
    pub captured: bool,
}

/// The program of a step, for the steps that run one.
pub open spec fn program_of(step: Step) -> Option<Seq<char>> {
    match step {
        Step::Download => Some("curl"@),
        Step::Unpack => Some("unzip"@),
        Step::ProbeVersion => Some("./mvnw"@),
        Step::Build => Some("mvn"@),
        Step::Launch => Some("java"@),
        _ => None,
    }
}

/// The arguments of the program of a step, for the project with these
/// settings and the scaffold at `url`.
pub open spec fn arguments_of(step: Step, config: ProjectConfig, url: Seq<char>) -> Seq<
    ArgumentText,
> {
    match step {
        Step::Download => seq![
            ArgumentText::Text(url),
            ArgumentText::Text("-o"@),
            ArgumentText::Text(ARCHIVE@),
        ],
        Step::Unpack => seq![
            ArgumentText::Text(ARCHIVE@),
            ArgumentText::Text("-d"@),
            ArgumentText::Text(config.projects_dir@),
        ],
        Step::ProbeVersion => seq![
            ArgumentText::Text("help:evaluate"@),
            ArgumentText::Text("-Dexpression=project.version"@),
            ArgumentText::Text("-q"@),
            ArgumentText::Text("-DforceStdout"@),
        ],
        Step::Build => seq![ArgumentText::Text("package"@)],
        Step::Launch => seq![
            ArgumentText::Text("-jar"@),
            ArgumentText::Path(
                seq![
                    config.projects_dir@,
                    config.app_name@,
                    TARGET_DIR@,
                    jar_name(config.app_name@, config.version@),
                ],
            ),
        ],
        _ => Seq::empty(),
    }
}

/// Whether the program of a step runs in the project's directory.
pub open spec fn runs_in_project(step: Step) -> bool {
    step == Step::ProbeVersion || step == Step::Build
}

/// Whether what the program of a step prints is taken in.
pub open spec fn is_captured(step: Step) -> bool {
    step == Step::ProbeVersion
}

/// `invocation` is the command of `step` for the project with these
/// settings and the scaffold at `url`.
pub open spec fn is_invocation(
    invocation: Invocation,
    step: Step,
    config: ProjectConfig,
    url: Seq<char>,
) -> bool {
    &&& program_of(step) == Some(invocation.program@)
    &&& argument_texts(invocation.arguments@) == arguments_of(step, config, url)
    &&& match invocation.directory {
        Some(path) => runs_in_project(step) && texts(path@) == seq![
            config.projects_dir@,
            config.app_name@,
        ],
        None => !runs_in_project(step),
    }
    &&& invocation.captured == is_captured(step)
}

impl ProjectConfig {
    /// The command that `step` runs for this project, whose scaffold is at
    /// `url`; `None` for a step that runs none.
    pub fn invocation(&self, step: Step, url: &str) -> (r: Option<Invocation>)
        ensures
            match r {
                Some(invocation) => is_invocation(invocation, step, *self, url@),
                None => program_of(step) is None,
            },
    {
        let mut arguments: Vec<Argument> = Vec::new();
        let program;
        let mut directory: Option<Vec<String>> = None;
        let mut captured = false;
        match step {
            Step::Download => {
                program = "curl".to_owned();
                arguments.push(Argument::Text(url.to_owned()));
                arguments.push(Argument::Text("-o".to_owned()));
                arguments.push(Argument::Text(ARCHIVE.to_owned()));
            },
            Step::Unpack => {
                program = "unzip".to_owned();
                arguments.push(Argument::Text(ARCHIVE.to_owned()));
                arguments.push(Argument::Text("-d".to_owned()));
                arguments.push(Argument::Text(self.projects_dir.clone()));
            },
            Step::ProbeVersion => {
                program = "./mvnw".to_owned();
                arguments.push(Argument::Text("help:evaluate".to_owned()));
                arguments.push(Argument::Text("-Dexpression=project.version".to_owned()));
                arguments.push(Argument::Text("-q".to_owned()));
                arguments.push(Argument::Text("-DforceStdout".to_owned()));
                directory = Some(self.app_dir());
                captured = true;
            },
            Step::Build => {
                program = "mvn".to_owned();
                arguments.push(Argument::Text("package".to_owned()));
                directory = Some(self.app_dir());
            },
            Step::Launch => {
                program = "java".to_owned();
                arguments.push(Argument::Text("-jar".to_owned()));
                arguments.push(Argument::Path(self.jar_path()));
            },
            _ => {
                return None;
            },
        }
        assert(argument_texts(arguments@) =~= arguments_of(step, *self, url@));
        Some(Invocation { program, arguments, directory, captured })
    }
}

/// There is something to say of a failed command for exactly the steps that
/// run one.
pub proof fn lemma_failure_text_for_commands(step: Step)
    ensures
        failure_text(step) is Some <==> program_of(step) is Some,
{
}

/// The view of an optional string.
pub open spec fn optional_string(text: Option<String>) -> Option<Seq<char>> {
    match text {
        Some(t) => Some(t@),
        None => None,
    }
}

} // verus!
