use spring_init::scaffold::ProjectConfig;
use spring_init::steps::{failure_message, init_plan, run_plan, Argument, Invocation, Step};

fn strings(items: &[&str]) -> Vec<String> {
    items.iter().map(|s| s.to_string()).collect()
}

fn config() -> ProjectConfig {
    ProjectConfig {
        boot_version: "3.2.0".to_string(),
        java_version: "17".to_string(),
        app_name: "demo".to_string(),
        package_name: "com.example.demo".to_string(),
        version: "0.0.1-SNAPSHOT".to_string(),
        projects_dir: "projects".to_string(),
        maven_plugins: Vec::new(),
    }
}

fn command_line(invocation: &Invocation) -> Vec<String> {
    let mut line = vec![invocation.program.clone()];
    for argument in &invocation.arguments {
        line.push(match argument {
            Argument::Text(text) => text.clone(),
            Argument::Path(segments) => format!("path:{}", segments.join("/")),
        });
    }
    line
}

fn invocation(step: Step) -> Invocation {
    match config().invocation(step, "https://example.org/starter.zip?x=1") {
        Some(invocation) => invocation,
        None => panic!("a step that runs a command"),
    }
}

#[test]
fn download_fetches_the_archive() {
    let i = invocation(Step::Download);
    assert_eq!(
        command_line(&i),
        strings(&["curl", "https://example.org/starter.zip?x=1", "-o", "spring.zip"])
    );
    assert_eq!(i.directory, None);
    assert!(!i.captured);
}

#[test]
fn unpack_goes_into_the_projects_directory() {
    let i = invocation(Step::Unpack);
    assert_eq!(command_line(&i), strings(&["unzip", "spring.zip", "-d", "projects"]));
    assert_eq!(i.directory, None);
    assert!(!i.captured);
}

#[test]
fn version_is_asked_in_the_project_and_taken_in() {
    let i = invocation(Step::ProbeVersion);
    assert_eq!(
        command_line(&i),
        strings(&["./mvnw", "help:evaluate", "-Dexpression=project.version", "-q", "-DforceStdout"])
    );
    assert_eq!(i.directory, Some(strings(&["projects", "demo"])));
    assert!(i.captured);
}

#[test]
fn build_runs_in_the_project() {
    let i = invocation(Step::Build);
    assert_eq!(command_line(&i), strings(&["mvn", "package"]));
    assert_eq!(i.directory, Some(strings(&["projects", "demo"])));
    assert!(!i.captured);
}

#[test]
fn launch_runs_the_archive() {
    let i = invocation(Step::Launch);
    assert_eq!(
        command_line(&i),
        strings(&["java", "-jar", "path:projects/demo/target/demo-0.0.1-SNAPSHOT.jar"])
    );
    assert_eq!(i.directory, None);
    assert!(!i.captured);
}

#[test]
fn steps_without_a_command_have_no_invocation() {
    for step in [Step::Reset, Step::RemoveArchive, Step::SyncPlugins] {
        assert!(config().invocation(step, "").is_none());
        assert_eq!(failure_message(step), None);
    }
    for step in [Step::Download, Step::Unpack, Step::ProbeVersion, Step::Build, Step::Launch] {
        assert!(config().invocation(step, "").is_some());
        assert!(failure_message(step).is_some());
    }
}

#[test]
fn init_plan_is_in_order() {
    assert_eq!(
        init_plan(),
        vec![
            Step::Reset,
            Step::Download,
            Step::Unpack,
            Step::RemoveArchive,
            Step::ProbeVersion,
            Step::SyncPlugins,
        ]
    );
}

#[test]
fn run_plan_builds_first() {
    assert_eq!(run_plan(), vec![Step::Build, Step::Launch]);
}

#[test]
fn failure_messages_name_the_step() {
    assert_eq!(failure_message(Step::Download), Some("Failed to download Spring Boot scaffold".to_string()));
    assert_eq!(failure_message(Step::Unpack), Some("Failed to unzip Spring Boot scaffold".to_string()));
    assert_eq!(
        failure_message(Step::ProbeVersion),
        Some("Failed to get project version from pom.xml".to_string())
    );
    assert_eq!(failure_message(Step::Build), Some("Failed to build project".to_string()));
    assert_eq!(failure_message(Step::Launch), Some("Failed to run project".to_string()));
    assert_eq!(failure_message(Step::Reset), None);
    assert_eq!(failure_message(Step::RemoveArchive), None);
    assert_eq!(failure_message(Step::SyncPlugins), None);
}
