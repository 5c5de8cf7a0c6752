//! The request for dependency suggestions and the reading of its answer.
//!
//! A request is one instruction text, which embeds a rendering of the catalog
//! of known dependencies, and the requirements text as it was given. The
//! answer, where only identifiers were asked for, is a comma-separated line.

use crate::text::{pieces, split, texts, trim, trimmed};
use vstd::prelude::*;
use vstd::string::*;

verus! {

/// What the instruction text says before the catalog.
pub const PREAMBLE: &'static str =
    "You are an expert in Spring Boot applications. Your task is to analyze a PRD (Product Requirements Document) and suggest the most appropriate Spring Boot dependencies from the available options. Here is the list of available dependencies with their descriptions:\n\n";

/// What it says after the catalog when reasons are wanted.
pub const EXPLAIN_TASK: &'static str =
    "\n\nAnalyze the following PRD and respond with a list of recommended dependency IDs, along with a brief explanation of why each dependency is needed. Only include dependencies that are directly relevant to the requirements.";

/// What it says after the catalog when only identifiers are wanted.
pub const IDS_ONLY_TASK: &'static str =
    "\n\nAnalyze the following PRD and respond ONLY with a comma-separated list of dependency IDs. Do not include any explanations or other text.";

/// The member of the catalog document that holds the catalog proper.
pub const CATALOG_KEY: &'static str = "dependencies";

/// The member of the catalog proper that holds its categories.
pub const CATEGORIES_KEY: &'static str = "values";

/// What kind of answer a request asks for.
#[derive(Clone, Copy, Debug, PartialEq, Eq, Structural)]
pub enum Mode {
    /// A reason for each suggested dependency, for a person to read.
    Explain,
    /// A comma-separated list of identifiers and nothing else.
    IdsOnly,
}

/// The closing part of the instruction text for `mode`.
pub open spec fn task(mode: Mode) -> Seq<char> {
    match mode {
        Mode::Explain => EXPLAIN_TASK@,
        Mode::IdsOnly => IDS_ONLY_TASK@,
    }
}

/// The instruction text around a rendering of the catalog.
pub open spec fn prompt_text(rendering: Seq<char>, mode: Mode) -> Seq<char> {
    PREAMBLE@ + rendering + task(mode)
}

/// The instruction text for `mode` around `rendering`.
pub fn build_prompt(rendering: &str, mode: Mode) -> (prompt: String)
    ensures
        prompt@ == prompt_text(rendering@, mode),
{
    let mut prompt = PREAMBLE.to_owned();
    prompt.append(rendering);
    match mode {
        Mode::Explain => prompt.append(EXPLAIN_TASK),
        Mode::IdsOnly => prompt.append(IDS_ONLY_TASK),
    }
    prompt
}

/// The tokens of an identifiers-only answer: its comma-separated pieces, each
/// trimmed.
pub open spec fn answer_tokens(answer: Seq<char>) -> Seq<Seq<char>> {
    Seq::new(pieces(answer, ',').len(), |i: int| trimmed(pieces(answer, ',')[i]))
}

/// Splits an identifiers-only answer at its commas and trims the pieces.
/// Nothing is dropped or checked here: what the answer holds is passed on.
pub fn read_answer(answer: &str) -> (tokens: Vec<String>)
    ensures
        texts(tokens@) == answer_tokens(answer@),
{
    let parts = split(answer, ',');
    let mut tokens: Vec<String> = Vec::new();
    let mut i: usize = 0;
    while i < parts.len()
        invariant
            i <= parts.len(),
            texts(parts@) == pieces(answer@, ','),
            tokens.len() == i,
            forall|k: int| 0 <= k < i ==> tokens@[k]@ == trimmed(pieces(answer@, ',')[k]),
        decreases parts.len() - i,
    {
        tokens.push(trim(parts[i].as_str()));
        i += 1;
    }
    tokens
}

/// The error of the JSON library, carried through without being looked into.
#[verifier::external_type_specification]
#[verifier::external_body]
pub struct ExJsonError(serde_json::Error);

/// The pretty-printed JSON text of the member `inner` of the member `outer`
/// of the JSON document `json`; `None` where the JSON library reports an
/// error.
pub uninterp spec fn rendered_member(
    json: Seq<char>,
    outer: Seq<char>,
    inner: Seq<char>,
) -> Option<Seq<char>>;

/// `serde_json::from_str` to a `serde_json::Value`, the value's index
/// operator twice, and `serde_json::to_string_pretty` on what was found.
/// Trusted: that the outcome is decided by the three texts alone. Nothing is
/// claimed about what the rendering looks like.
#[verifier::external_body]
fn render_member(json: &str, outer: &str, inner: &str) -> (r: Result<String, serde_json::Error>)
    ensures
        match r {
            Ok(text) => rendered_member(json@, outer@, inner@) == Some(text@),
            Err(_) => rendered_member(json@, outer@, inner@) is None,
        },
{
    let document: serde_json::Value = serde_json::from_str(json)?;
    serde_json::to_string_pretty(&document[outer][inner])
}

/// Why no request could be made.
#[derive(Clone, Copy, Debug, PartialEq, Eq, Structural)]
pub enum CatalogError {
    /// The catalog document is not JSON that can be read and rendered.
    Malformed,
}

/// The rendering of a catalog document that a request embeds: the categories
/// of its catalog, pretty-printed.
pub open spec fn catalog_rendering(catalog_json: Seq<char>) -> Option<Seq<char>> {
    rendered_member(catalog_json, CATALOG_KEY@, CATEGORIES_KEY@)
}

/// The rendering of `catalog_json`, or the error where it has none.
pub fn render_catalog(catalog_json: &str) -> (r: Result<String, CatalogError>)
    ensures
        match r {
            Ok(rendering) => catalog_rendering(catalog_json@) == Some(rendering@),
            Err(_) => catalog_rendering(catalog_json@) is None,
        },
{
    match render_member(catalog_json, CATALOG_KEY, CATEGORIES_KEY) {
        Ok(rendering) => Ok(rendering),
        Err(_) => Err(CatalogError::Malformed),
    }
}

/// What is sent to the text-generation service: the instruction text and the
/// requirements text.
#[derive(Debug, PartialEq, Eq)]
pub struct SuggestionRequest {
    pub system_prompt: String,
    pub user_text: String,
}

/// The request that `prepare` makes of a requirements text, a rendering of
/// the catalog and a mode.
pub open spec fn is_request(
    request: SuggestionRequest,
    requirements: Seq<char>,
    rendering: Seq<char>,
    mode: Mode,
) -> bool {
    &&& request.system_prompt@ == prompt_text(rendering, mode)
    &&& request.user_text@ == requirements
}

/// The request for suggestions on `requirements`, drawn from the catalog
/// document `catalog_json`. It fails exactly where the catalog has no
/// rendering; the requirements text goes out as it came in.
pub fn prepare(requirements: &str, catalog_json: &str, mode: Mode) -> (r: Result<
    SuggestionRequest,
    CatalogError,
>)
    ensures
        match r {
            Ok(request) => catalog_rendering(catalog_json@) is Some && is_request(
                request,
                requirements@,
                catalog_rendering(catalog_json@)->0,
                mode,
            ),
            Err(e) => e == CatalogError::Malformed && catalog_rendering(catalog_json@) is None,
        },
{
    match render_catalog(catalog_json) {
        Ok(rendering) => Ok(
            SuggestionRequest {
                system_prompt: build_prompt(rendering.as_str(), mode),
                user_text: requirements.to_owned(),
            },
        ),
        Err(e) => Err(e),
    }
}

} // verus!
