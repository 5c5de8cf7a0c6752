use spring_init::suggest::{
    build_prompt, prepare, read_answer, render_catalog, CatalogError, Mode, EXPLAIN_TASK,
    IDS_ONLY_TASK, PREAMBLE,
};

fn strings(items: &[&str]) -> Vec<String> {
    items.iter().map(|s| s.to_string()).collect()
}

const CATALOG: &str = r#"{"dependencies":{"type":"hierarchical-multi-select","values":[{"name":"Web","values":[{"id":"web","name":"Web","description":"REST support"}]},{"name":"SQL","values":[{"id":"data-jpa","name":"JPA","description":"ORM support"}]}]}}"#;

#[test]
fn prompt_for_reasons_is_the_framing_around_the_rendering() {
    let expected = format!(
        "You are an expert in Spring Boot applications. Your task is to analyze a PRD (Product Requirements Document) \
        and suggest the most appropriate Spring Boot dependencies from the available options. Here is the list of \
        available dependencies with their descriptions:\n\n{}\n\nAnalyze the following PRD and respond with a list \
        of recommended dependency IDs, along with a brief explanation of why each dependency is needed. Only include \
        dependencies that are directly relevant to the requirements.",
        "[CATALOG]"
    );
    assert_eq!(build_prompt("[CATALOG]", Mode::Explain), expected);
}

#[test]
fn prompt_for_identifiers_is_the_framing_around_the_rendering() {
    let expected = format!(
        "You are an expert in Spring Boot applications. Your task is to analyze a PRD (Product Requirements Document) \
        and suggest the most appropriate Spring Boot dependencies from the available options. Here is the list of \
        available dependencies with their descriptions:\n\n{}\n\nAnalyze the following PRD and respond ONLY with a \
        comma-separated list of dependency IDs. Do not include any explanations or other text.",
        "[CATALOG]"
    );
    assert_eq!(build_prompt("[CATALOG]", Mode::IdsOnly), expected);
}

#[test]
fn prompts_differ_by_mode_only_after_the_catalog() {
    let explain = build_prompt("x", Mode::Explain);
    let ids = build_prompt("x", Mode::IdsOnly);
    assert_ne!(explain, ids);
    assert_eq!(explain, format!("{}x{}", PREAMBLE, EXPLAIN_TASK));
    assert_eq!(ids, format!("{}x{}", PREAMBLE, IDS_ONLY_TASK));
    assert_eq!(build_prompt("", Mode::IdsOnly), format!("{}{}", PREAMBLE, IDS_ONLY_TASK));
}

#[test]
fn catalog_is_rendered_as_pretty_json_of_its_categories() {
    let rendering = render_catalog(r#"{"dependencies":{"values":[{"id":"web"}]},"other":1}"#);
    assert_eq!(rendering, Ok("[\n  {\n    \"id\": \"web\"\n  }\n]".to_string()));
}

#[test]
fn catalog_rendering_agrees_with_the_json_library() {
    let value: serde_json::Value = serde_json::from_str(CATALOG).unwrap();
    let expected = serde_json::to_string_pretty(&value["dependencies"]["values"]).unwrap();
    let rendering = render_catalog(CATALOG).unwrap();
    assert_eq!(rendering, expected);
    assert_ne!(rendering, CATALOG);
    assert!(rendering.contains("\"id\": \"data-jpa\""));
    assert!(rendering.contains("\"description\": \"REST support\""));
}

#[test]
fn catalog_without_the_members_renders_as_null() {
    assert_eq!(render_catalog("{}"), Ok("null".to_string()));
    assert_eq!(render_catalog(r#"{"dependencies":{}}"#), Ok("null".to_string()));
    assert_eq!(render_catalog("[1,2]"), Ok("null".to_string()));
}

#[test]
fn malformed_catalog_is_an_error() {
    assert_eq!(render_catalog(""), Err(CatalogError::Malformed));
    assert_eq!(render_catalog("{"), Err(CatalogError::Malformed));
    assert_eq!(render_catalog("not json"), Err(CatalogError::Malformed));
    assert_eq!(render_catalog(r#"{"a":1} trailing"#), Err(CatalogError::Malformed));
}

#[test]
fn request_carries_prompt_and_requirements() {
    let requirements = "  The service exposes a REST API and stores orders.\n";
    let request = match prepare(requirements, CATALOG, Mode::IdsOnly) {
        Ok(request) => request,
        Err(_) => panic!("the catalog is well-formed"),
    };
    let rendering = render_catalog(CATALOG).unwrap();
    assert_eq!(request.system_prompt, build_prompt(&rendering, Mode::IdsOnly));
    assert_eq!(request.user_text, requirements);
    assert!(request.system_prompt.contains("\"id\": \"web\""));
    assert!(request.system_prompt.ends_with("Do not include any explanations or other text."));
}

#[test]
fn request_for_reasons_uses_the_other_framing() {
    let request = match prepare("needs a database", CATALOG, Mode::Explain) {
        Ok(request) => request,
        Err(_) => panic!("the catalog is well-formed"),
    };
    let rendering = render_catalog(CATALOG).unwrap();
    assert_eq!(request.system_prompt, build_prompt(&rendering, Mode::Explain));
    assert_eq!(request.user_text, "needs a database");
}

#[test]
fn request_fails_on_a_malformed_catalog() {
    assert!(matches!(prepare("anything", "{\"dependencies\":", Mode::Explain), Err(CatalogError::Malformed)));
    assert!(matches!(prepare("anything", "", Mode::IdsOnly), Err(CatalogError::Malformed)));
}

#[test]
fn answer_is_split_at_commas_and_trimmed() {
    assert_eq!(read_answer("web, data-jpa"), strings(&["web", "data-jpa"]));
    assert_eq!(read_answer("web"), strings(&["web"]));
    assert_eq!(read_answer(" web ,security\n"), strings(&["web", "security"]));
}

#[test]
fn answer_is_not_validated() {
    assert_eq!(read_answer(""), strings(&[""]));
    assert_eq!(read_answer("web,,jpa,"), strings(&["web", "", "jpa", ""]));
    assert_eq!(
        read_answer("I suggest web, because of REST"),
        strings(&["I suggest web", "because of REST"])
    );
}
