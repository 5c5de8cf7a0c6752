//! The project that is scaffolded: where it lies, what its archive is
//! called, which dependencies it gets, and the address from which its
//! scaffold is fetched.

use crate::resolve::{candidates, comma, merge, optional_texts, resolution};
use crate::suggest::{answer_tokens, read_answer};
use crate::text::{joined, texts, trim, trimmed};
use vstd::prelude::*;
use vstd::string::*;

verus! {

/// The one dependency of a project for which no requirements were given.
pub const DEFAULT_TOKEN: &'static str = "web";

/// The directory of the build's output, below the project's directory.
pub const TARGET_DIR: &'static str = "target";

/// The settings of one project.
#[derive(Debug, PartialEq, Eq)]
pub struct ProjectConfig {
    pub boot_version: String,
    pub java_version: String,
    pub app_name: String,
    pub package_name: String,
    pub version: String,
    pub projects_dir: String,
    pub maven_plugins: Vec<String>,
}

/// The file name of the archive that the build makes of a project.
pub open spec fn jar_name(app_name: Seq<char>, version: Seq<char>) -> Seq<char> {
    app_name + "-"@ + version + ".jar"@
}

/// The address of the scaffold of a project with these settings and
/// dependencies.
pub open spec fn scaffold_address(config: ProjectConfig, dependencies: Seq<char>) -> Seq<char> {
    "https://start.spring.io/starter.zip?type=maven-project&language=java&bootVersion="@
        + config.boot_version@ + "&baseDir="@ + config.app_name@ + "&groupId="@
        + config.package_name@ + "&artifactId="@ + config.app_name@ + "&name="@
        + config.app_name@ + "&packageName="@ + config.package_name@
        + "&packaging=jar&javaVersion="@ + config.java_version@ + "&version="@ + config.version@
        + "&dependencies="@ + dependencies
}

impl ProjectConfig {
    /// The project's directory, as the path segments that lead to it: the
    /// directory of all projects, then the project's name.
    pub fn app_dir(&self) -> (path: Vec<String>)
        ensures
            texts(path@) == seq![self.projects_dir@, self.app_name@],
    {
        let mut path: Vec<String> = Vec::new();
        path.push(self.projects_dir.clone());
        path.push(self.app_name.clone());
        path
    }

    /// The archive that the build makes, as the path segments that lead to
    /// it: the project's directory, the output directory, the file name.
    pub fn jar_path(&self) -> (path: Vec<String>)
        ensures
            texts(path@) == seq![
                self.projects_dir@,
                self.app_name@,
                TARGET_DIR@,
                jar_name(self.app_name@, self.version@),
            ],
    {
        let mut name = self.app_name.clone();
        name.append("-");
        name.append(self.version.as_str());
        name.append(".jar");
        let mut path = self.app_dir();
        let ghost dir = texts(path@);
        path.push(TARGET_DIR.to_owned());
        path.push(name);
        assert(texts(path@) =~= dir.push(TARGET_DIR@).push(
            jar_name(self.app_name@, self.version@),
        ));
        assert(texts(path@) =~= seq![
            self.projects_dir@,
            self.app_name@,
            TARGET_DIR@,
            jar_name(self.app_name@, self.version@),
        ]);
        path
    }

    /// The address from which the scaffold of this project is fetched, for
    /// the dependencies given as a comma-separated list. White space around
    /// the list is left out.
    pub fn scaffold_url(&self, dependencies: &str) -> (url: String)
        ensures
            url@ == scaffold_address(*self, trimmed(dependencies@)),
    {
        let list = trim(dependencies);
        let mut url =
            "https://start.spring.io/starter.zip?type=maven-project&language=java&bootVersion=".to_owned();
        url.append(self.boot_version.as_str());
        url.append("&baseDir=");
        url.append(self.app_name.as_str());
        url.append("&groupId=");
        url.append(self.package_name.as_str());
        url.append("&artifactId=");
        url.append(self.app_name.as_str());
        url.append("&name=");
        url.append(self.app_name.as_str());
        url.append("&packageName=");
        url.append(self.package_name.as_str());
        url.append("&packaging=jar&javaVersion=");
        url.append(self.java_version.as_str());
        url.append("&version=");
        url.append(self.version.as_str());
        url.append("&dependencies=");
        url.append(list.as_str());
        url
    }
}

/// The tokens that come first in a resolution: those of the answer to a
/// request for identifiers, or the default token where none was made.
pub open spec fn primary_tokens(answer: Option<Seq<char>>) -> Seq<Seq<char>> {
    match answer {
        Some(text) => answer_tokens(text),
        None => seq![DEFAULT_TOKEN@],
    }
}

/// The dependency list of a scaffold: the tokens of `answer`, or the default
/// token, merged with the extra ones and joined by commas.
pub open spec fn dependency_text(
    answer: Option<Seq<char>>,
    extra: Option<Seq<Seq<char>>>,
) -> Seq<char> {
    joined(resolution(candidates(primary_tokens(answer), extra)), comma())
}

/// The view of an optional text.
pub open spec fn optional_text(text: Option<&str>) -> Option<Seq<char>> {
    match text {
        Some(t) => Some(t@),
        None => None,
    }
}

/// The comma-separated dependency list for a scaffold, from the answer to a
/// request for identifiers, if one was made, and the tokens to add in any
/// case, if there are any.
pub fn dependency_list(answer: Option<&str>, extra: Option<&Vec<String>>) -> (list: String)
    ensures
        list@ == dependency_text(optional_text(answer), optional_texts(extra)),
{
    let primary = match answer {
        Some(text) => read_answer(text),
        None => {
            let mut only: Vec<String> = Vec::new();
            only.push(DEFAULT_TOKEN.to_owned());
            assert(texts(only@) =~= seq![DEFAULT_TOKEN@]);
            only
        },
    };
    merge(&primary, extra).render()
}

/// A line of the summary of a project's settings: the label, a colon, a
/// space, the value.
pub open spec fn labelled(label: Seq<char>, value: Seq<char>) -> Seq<char> {
    label + ": "@ + value
}

/// The summary of a project's settings, with its directory and its archive
/// as they are shown.
pub open spec fn summary_lines(
    config: ProjectConfig,
    app_dir: Seq<char>,
    jar_path: Seq<char>,
) -> Seq<Seq<char>> {
    seq![
        labelled("     APP NAME"@, config.app_name@),
        labelled(" PACKAGE NAME"@, config.package_name@),
        labelled("ARTIFACT NAME"@, config.app_name@),
        labelled("      VERSION"@, config.version@),
        labelled(" BOOT VERSION"@, config.boot_version@),
        labelled(" JAVA VERSION"@, config.java_version@),
        labelled(" PROJECTS DIR"@, config.projects_dir@),
        labelled("      APP DIR"@, app_dir),
        labelled("     JAR PATH"@, jar_path),
    ]
}

/// A line of the summary.
fn label(name: &str, value: &str) -> (line: String)
    ensures
        line@ == labelled(name@, value@),
{
    let mut line = name.to_owned();
    line.append(": ");
    line.append(value);
    line
}

impl ProjectConfig {
    /// The lines that sum up these settings. The project's directory and its
    /// archive are given as they are to be shown.
    pub fn summary(&self, app_dir: &str, jar_path: &str) -> (lines: Vec<String>)
        ensures
            texts(lines@) == summary_lines(*self, app_dir@, jar_path@),
    {
        let mut lines: Vec<String> = Vec::new();
        lines.push(label("     APP NAME", self.app_name.as_str()));
        lines.push(label(" PACKAGE NAME", self.package_name.as_str()));
        lines.push(label("ARTIFACT NAME", self.app_name.as_str()));
        lines.push(label("      VERSION", self.version.as_str()));
        lines.push(label(" BOOT VERSION", self.boot_version.as_str()));
        lines.push(label(" JAVA VERSION", self.java_version.as_str()));
        lines.push(label(" PROJECTS DIR", self.projects_dir.as_str()));
        lines.push(label("      APP DIR", app_dir));
        lines.push(label("     JAR PATH", jar_path));
        lines
    }
}

} // verus!
