use spring_init::scaffold::{dependency_list, ProjectConfig};
use spring_init::suggest::read_answer;
use spring_init::resolve::merge;

fn strings(items: &[&str]) -> Vec<String> {
    items.iter().map(|s| s.to_string()).collect()
}

fn config() -> ProjectConfig {
    ProjectConfig {
        boot_version: "3.2.0".to_string(),
        java_version: "17".to_string(),
        app_name: "demo".to_string(),
        package_name: "com.example.demo".to_string(),
        version: "0.0.1-SNAPSHOT".to_string(),
        projects_dir: "projects".to_string(),
        maven_plugins: strings(&["org.apache.maven.plugins:maven-shade-plugin:3.4.1"]),
    }
}

#[test]
fn app_dir_is_the_project_below_the_projects_directory() {
    assert_eq!(config().app_dir(), strings(&["projects", "demo"]));
}

#[test]
fn jar_path_is_the_archive_in_the_target_directory() {
    assert_eq!(
        config().jar_path(),
        strings(&["projects", "demo", "target", "demo-0.0.1-SNAPSHOT.jar"])
    );
}

#[test]
fn path_segments_join_to_the_paths_of_the_standard_library() {
    let c = config();
    let app_dir: std::path::PathBuf = c.app_dir().iter().collect();
    assert_eq!(app_dir, std::path::PathBuf::from(&c.projects_dir).join(&c.app_name));
    let jar: std::path::PathBuf = c.jar_path().iter().collect();
    assert_eq!(
        jar,
        app_dir.join("target").join(format!("{}-{}.jar", c.app_name, c.version))
    );
}

#[test]
fn scaffold_url_names_every_setting() {
    assert_eq!(
        config().scaffold_url("data-jpa,security,web"),
        "https://start.spring.io/starter.zip?type=maven-project&language=java&bootVersion=3.2.0&baseDir=demo&groupId=com.example.demo&artifactId=demo&name=demo&packageName=com.example.demo&packaging=jar&javaVersion=17&version=0.0.1-SNAPSHOT&dependencies=data-jpa,security,web"
    );
}

#[test]
fn scaffold_url_trims_the_dependency_list() {
    let c = config();
    assert_eq!(c.scaffold_url(" web \n"), c.scaffold_url("web"));
    assert!(c.scaffold_url("").ends_with("&dependencies="));
}

#[test]
fn dependency_list_defaults_to_web() {
    assert_eq!(dependency_list(None, None), "web");
    assert_eq!(dependency_list(None, Some(&Vec::new())), "web");
    assert_eq!(dependency_list(None, Some(&strings(&["security", "web"]))), "security,web");
}

#[test]
fn dependency_list_merges_answer_and_extra_tokens() {
    let extra = strings(&["security"]);
    assert_eq!(dependency_list(Some("web, data-jpa"), Some(&extra)), "data-jpa,security,web");
    assert_eq!(dependency_list(Some("web, data-jpa"), None), "data-jpa,web");
    assert_eq!(dependency_list(Some(" web,web ,, "), None), "web");
    assert_eq!(dependency_list(Some(""), None), "");
}

#[test]
fn suggested_ids_and_included_token_resolve_together() {
    let catalog = r#"{"dependencies":{"values":[{"name":"Web","values":[{"id":"web","name":"Web","description":"REST support"},{"id":"data-jpa","name":"JPA","description":"ORM support"}]}]}}"#;
    let request = match spring_init::suggest::prepare("a REST service with a database", catalog, spring_init::suggest::Mode::IdsOnly) {
        Ok(request) => request,
        Err(_) => panic!("the catalog is well-formed"),
    };
    assert!(request.system_prompt.contains("\"id\": \"web\""));
    assert!(request.system_prompt.contains("\"id\": \"data-jpa\""));
    let answer = "web, data-jpa";
    let primary = read_answer(answer);
    assert_eq!(primary, strings(&["web", "data-jpa"]));
    let extra = strings(&["security"]);
    let set = merge(&primary, Some(&extra));
    assert_eq!(set.render(), "data-jpa,security,web");
    assert_eq!(dependency_list(Some(answer), Some(&extra)), "data-jpa,security,web");
}

#[test]
fn summary_lists_the_settings() {
    assert_eq!(
        config().summary("projects/demo", "projects/demo/target/demo-0.0.1-SNAPSHOT.jar"),
        strings(&[
            "     APP NAME: demo",
            " PACKAGE NAME: com.example.demo",
            "ARTIFACT NAME: demo",
            "      VERSION: 0.0.1-SNAPSHOT",
            " BOOT VERSION: 3.2.0",
            " JAVA VERSION: 17",
            " PROJECTS DIR: projects",
            "      APP DIR: projects/demo",
            "     JAR PATH: projects/demo/target/demo-0.0.1-SNAPSHOT.jar",
        ])
    );
}
