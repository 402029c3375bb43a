use jsonld_context::context::Context;
use jsonld_context::creation::TermCreationError;
use jsonld_context::json::JsonValue;
use jsonld_context::process::{ContextCreationError, RemoteContextLoader, RemoteContexts};

struct NoLoader;

impl RemoteContextLoader for NoLoader {
    fn load_context(_url: &str) -> Result<JsonValue, String> {
        Err(String::from("no remote contexts in this test"))
    }
}

/// Every URL resolves to a document whose `@context` is the URL itself.
struct LoopLoader;

impl RemoteContextLoader for LoopLoader {
    fn load_context(url: &str) -> Result<JsonValue, String> {
        Ok(obj(vec![("@context", s(url))]))
    }
}

/// Every URL resolves to a document referencing a fresh URL, without end.
struct ChainLoader;

impl RemoteContextLoader for ChainLoader {
    fn load_context(url: &str) -> Result<JsonValue, String> {
        let mut next = String::from(url);
        next.push('x');
        Ok(obj(vec![("@context", JsonValue::String(next))]))
    }
}

fn obj(members: Vec<(&str, JsonValue)>) -> JsonValue {
    JsonValue::Object(
        members
            .into_iter()
            .map(|(k, v)| (String::from(k), v))
            .collect(),
    )
}

fn s(v: &str) -> JsonValue {
    JsonValue::String(String::from(v))
}

fn process(local: JsonValue) -> Result<Context, ContextCreationError> {
    Context::new()
        .process_context::<NoLoader>(local, RemoteContexts::new())
        .map(|(_rc, ctx)| ctx)
}

#[test]
fn simple_prefix_expands() {
    let local = obj(vec![("ex", s("http://example.com/"))]);
    let ctx = process(local).unwrap();
    assert_eq!(ctx.expand_iri("ex:foo", false, true), "http://example.com/foo");
}

#[test]
fn keyword_passes_through() {
    let ctx = Context::new();
    assert_eq!(ctx.expand_iri("@type", true, true), "@type");
    assert_eq!(ctx.expand_iri("@id", false, false), "@id");
}

#[test]
fn absolute_iri_unchanged() {
    let ctx = Context::new();
    assert_eq!(
        ctx.expand_iri("http://example.com/x", true, true),
        "http://example.com/x"
    );
}

#[test]
fn absolute_iri_unchanged_despite_prefix_term() {
    let local = obj(vec![("a", s("http://e/"))]);
    let ctx = process(local).unwrap();
    assert_eq!(ctx.expand_iri("a:b://c", false, false), "a:b://c");
    assert_eq!(ctx.expand_iri("a:b", false, false), "http://e/b");
}

#[test]
fn installed_at_prefixed_term_expands() {
    let local = obj(vec![("@vocab", s("http://v/")), ("@foo", obj(vec![]))]);
    let ctx = process(local).unwrap();
    assert_eq!(ctx.get_term("@foo").unwrap().iri_mapping, "http://v/@foo");
    assert_eq!(ctx.expand_iri("@foo", false, true), "http://v/@foo");
    assert_eq!(ctx.expand_iri("@bar", false, true), "@bar");
}

#[test]
fn keyword_redefinition_rejected() {
    let local = obj(vec![("@id", s("http://ex/"))]);
    assert!(matches!(
        process(local),
        Err(ContextCreationError::InvalidTerm(
            TermCreationError::KeywordRedefinition
        ))
    ));
}

#[test]
fn vocab_fallback_when_id_equals_term() {
    let local = obj(vec![
        ("@vocab", s("http://v/")),
        ("name", obj(vec![("@id", s("name"))])),
    ]);
    let ctx = process(local).unwrap();
    assert_eq!(ctx.get_term("name").unwrap().iri_mapping, "http://v/name");
}

#[test]
fn null_resets_earlier_terms() {
    let local = JsonValue::Array(vec![
        obj(vec![("ex", s("http://e/"))]),
        JsonValue::Null,
        obj(vec![("ex2", s("http://f/"))]),
    ]);
    let ctx = process(local).unwrap();
    assert!(ctx.get_term("ex").is_none());
    assert!(ctx.get_term("ex2").is_some());
    assert_eq!(ctx.get_term("ex2").unwrap().iri_mapping, "http://f/");
}

#[test]
fn reverse_with_list_container_rejected() {
    let local = obj(vec![
        ("ex", s("http://e/")),
        (
            "rev",
            obj(vec![("@reverse", s("ex:p")), ("@container", s("@list"))]),
        ),
    ]);
    assert!(matches!(
        process(local),
        Err(ContextCreationError::InvalidTerm(
            TermCreationError::InvalidReverseProperty
        ))
    ));
}

#[test]
fn reverse_property_installed() {
    let local = obj(vec![
        ("ex", s("http://e/")),
        ("rev", obj(vec![("@reverse", s("ex:p"))])),
    ]);
    let ctx = process(local).unwrap();
    let t = ctx.get_term("rev").unwrap();
    assert!(t.reverse);
    assert_eq!(t.iri_mapping, "http://e/p");
    assert!(t.language_mapping.is_none());
}

#[test]
fn two_term_cycle_detected() {
    let local = obj(vec![
        ("a", obj(vec![("@id", s("b:x"))])),
        ("b", obj(vec![("@id", s("a:y"))])),
    ]);
    assert!(matches!(
        process(local),
        Err(ContextCreationError::InvalidTerm(
            TermCreationError::CyclicIRIMapping
        ))
    ));
}

#[test]
fn remote_loop_detected() {
    let r = Context::new().process_context::<LoopLoader>(s("http://u/"), RemoteContexts::new());
    assert!(matches!(
        r,
        Err(ContextCreationError::RecursiveContextInclusion)
    ));
}

#[test]
fn remote_depth_capped() {
    let r = Context::new().process_context::<ChainLoader>(s("http://u/"), RemoteContexts::new());
    assert!(matches!(r, Err(ContextCreationError::TooManyContexts)));
}

#[test]
fn loader_failure_surfaced() {
    let r = Context::new().process_context::<NoLoader>(s("http://u/"), RemoteContexts::new());
    match r {
        Err(ContextCreationError::RemoteContextError(msg)) => {
            assert_eq!(msg, "no remote contexts in this test");
        }
        other => panic!("expected RemoteContextError, got {:?}", other.err()),
    }
}

#[test]
fn base_resolves_relative_reference() {
    let base = obj(vec![("@base", s("http://h/x/"))]);
    let ctx = process(base).unwrap();
    assert_eq!(ctx.base_iri.as_deref(), Some("http://h/x/"));
    let r = ctx
        .process_context::<NoLoader>(obj(vec![("@base", s("sub/"))]), RemoteContexts::new())
        .unwrap()
        .1;
    assert_eq!(r.base_iri.as_deref(), Some("http://h/x/sub/"));
}

#[test]
fn base_used_for_document_relative_expansion() {
    let ctx = process(obj(vec![("@base", s("http://h/x/"))])).unwrap();
    assert_eq!(ctx.expand_iri("y", true, false), "http://h/x/y");
    assert_eq!(ctx.expand_iri("y", false, false), "y");
}

#[test]
fn invalid_base_rejected() {
    let local = obj(vec![("@base", JsonValue::Bool(true))]);
    assert!(matches!(
        process(local),
        Err(ContextCreationError::InvalidBaseIRI)
    ));
}

#[test]
fn invalid_vocab_rejected() {
    let local = obj(vec![("@vocab", JsonValue::Array(vec![]))]);
    assert!(matches!(
        process(local),
        Err(ContextCreationError::InvalidVocabMapping)
    ));
}

#[test]
fn invalid_context_language_rejected() {
    let local = obj(vec![("@language", JsonValue::Number)]);
    assert!(matches!(
        process(local),
        Err(ContextCreationError::InvalidLanguageMapping)
    ));
}

#[test]
fn invalid_local_context_rejected() {
    assert!(matches!(
        process(JsonValue::Bool(false)),
        Err(ContextCreationError::InvalidLocalContext)
    ));
}

#[test]
fn invalid_term_value_rejected() {
    let local = obj(vec![("t", JsonValue::Bool(true))]);
    assert!(matches!(
        process(local),
        Err(ContextCreationError::InvalidTerm(
            TermCreationError::InvalidTermDefinition
        ))
    ));
}

#[test]
fn invalid_type_mapping_rejected() {
    let local = obj(vec![("t", obj(vec![("@type", s("x"))]))]);
    assert!(matches!(
        process(local),
        Err(ContextCreationError::InvalidTerm(
            TermCreationError::InvalidTypeMapping
        ))
    ));
}

#[test]
fn invalid_container_rejected() {
    let local = obj(vec![(
        "t",
        obj(vec![("@id", s("http://e/x")), ("@container", s("@foo"))]),
    )]);
    assert!(matches!(
        process(local),
        Err(ContextCreationError::InvalidTerm(
            TermCreationError::InvalidContainerMapping
        ))
    ));
}

#[test]
fn invalid_keyword_alias_rejected() {
    let local = obj(vec![("t", obj(vec![("@id", s("@context"))]))]);
    assert!(matches!(
        process(local),
        Err(ContextCreationError::InvalidTerm(
            TermCreationError::InvalidKeywordAlias
        ))
    ));
}

#[test]
fn unresolvable_iri_mapping_rejected() {
    let local = obj(vec![("t", obj(vec![]))]);
    assert!(matches!(
        process(local),
        Err(ContextCreationError::InvalidTerm(
            TermCreationError::InvalidIRIMapping
        ))
    ));
}

#[test]
fn term_language_lowercased() {
    let local = obj(vec![(
        "t",
        obj(vec![("@id", s("http://e/x")), ("@language", s("EN"))]),
    )]);
    let ctx = process(local).unwrap();
    assert_eq!(
        ctx.get_term("t").unwrap().language_mapping.as_deref(),
        Some("en")
    );
}

#[test]
fn term_language_null_sentinel() {
    let local = obj(vec![(
        "t",
        obj(vec![("@id", s("http://e/x")), ("@language", JsonValue::Null)]),
    )]);
    let ctx = process(local).unwrap();
    assert_eq!(
        ctx.get_term("t").unwrap().language_mapping.as_deref(),
        Some("@null")
    );
}

#[test]
fn context_language_lowercased() {
    let ctx = process(obj(vec![("@language", s("DE-AT"))])).unwrap();
    assert_eq!(ctx.language.as_deref(), Some("de-at"));
}

#[test]
fn null_valued_term_is_placeholder() {
    let local = obj(vec![("t", JsonValue::Null)]);
    let ctx = process(local).unwrap();
    let t = ctx.get_term("t").unwrap();
    assert_eq!(t.iri_mapping, "t");
    assert!(!t.reverse);
    assert!(t.container_mapping.is_none());
}

#[test]
fn vocab_mode_falls_back_to_vocabulary() {
    let ctx = process(obj(vec![("@vocab", s("http://v/"))])).unwrap();
    assert_eq!(ctx.expand_iri("name", false, true), "http://v/name");
    assert_eq!(ctx.expand_iri("name", false, false), "name");
}

#[test]
fn blank_node_prefix_unchanged() {
    let ctx = Context::new();
    assert_eq!(ctx.expand_iri("_:b0", true, true), "_:b0");
}
