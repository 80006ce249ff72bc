use neopilot_models::cli::{choose_stats_format, cli_search, format_capabilities, StatsFormat};
use neopilot_models::database::Database;
use neopilot_models::engine::{
    model_cache_key, parse_capability, parse_modality, provider_cache_key, providers_cache_key, Capability,
    Engine,
};
use neopilot_models::error::Error;
use neopilot_models::models::{Limit, Modalities, Modality, Model, ModelMap, Provider};
use neopilot_models::paging::take_window;
use neopilot_models::text::{contains, same_text};
use neopilot_models::web::{
    logo_not_found, logo_read_error, make_error_response, model_error_response, model_error_status,
    provider_error_response, provider_error_status, search_page, Config, SearchQuery,
};

fn model(id: &str, name: &str, family: Option<&str>) -> Model {
    Model {
        id: id.to_string(),
        name: name.to_string(),
        family: family.map(|f| f.to_string()),
        attachment: false,
        reasoning: false,
        tool_call: false,
        interleaved: None,
        structured_output: None,
        temperature: None,
        knowledge: None,
        release_date: "2024-01-01".to_string(),
        last_updated: "2024-01-01".to_string(),
        modalities: Modalities { input: vec![Modality::Text], output: vec![Modality::Text] },
        open_weights: false,
        cost: None,
        limit: Limit { context: 1000, input: None, output: 100 },
        status: None,
        provider: None,
    }
}

fn provider(id: &str, models: Vec<Model>) -> Provider {
    Provider {
        id: id.to_string(),
        name: id.to_uppercase(),
        npm: "@ai-sdk/openai".to_string(),
        env: vec!["KEY".to_string()],
        api: None,
        doc: "https://example.com".to_string(),
        models: ModelMap::from_models(models),
    }
}

fn sample_engine() -> Engine {
    let mut gpt4 = model("gpt-4", "GPT-4", Some("gpt"));
    gpt4.tool_call = true;
    gpt4.structured_output = Some(true);
    let mut gpt4o = model("gpt-4o", "GPT-4o", Some("gpt"));
    gpt4o.tool_call = true;
    gpt4o.attachment = true;
    gpt4o.modalities.input = vec![Modality::Text, Modality::Image, Modality::Audio];
    gpt4o.temperature = Some(true);
    let mut o1 = model("o1", "o1", Some("o"));
    o1.reasoning = true;
    o1.structured_output = Some(false);
    let mut large = model("mistral-large", "Mistral Large 2", Some("mistral"));
    large.attachment = true;
    large.tool_call = true;
    large.modalities.input = vec![Modality::Text, Modality::Image, Modality::Pdf];
    let llama = model("llama-3.1-8b", "Llama 3.1 8B", None);
    let mut db = Database::new();
    db.add_provider(provider("openai", vec![gpt4, gpt4o, o1]));
    db.add_provider(provider("anthropic", vec![large]));
    db.add_provider(provider("groq", vec![llama]));
    let mut engine = Engine::new();
    engine.load_database(db);
    engine
}

fn ids(models: &[&Model]) -> Vec<String> {
    models.iter().map(|m| m.id.clone()).collect()
}

#[test]
fn empty_engine() {
    let e = Engine::new();
    assert!(e.search_models("").is_empty());
    assert!(e.get_all_model_ids().is_empty());
    assert_eq!(e.get_database().provider_count(), 0);
    assert_eq!(Engine::default().get_database().provider_count(), 0);
}

#[test]
fn search_ignores_case_and_covers_name_id_family() {
    let e = sample_engine();
    assert_eq!(ids(&e.search_models("GPT")), vec!["gpt-4", "gpt-4o"]);
    assert_eq!(ids(&e.search_models("large 2")), vec!["mistral-large"]);
    assert_eq!(ids(&e.search_models("MISTRAL")), vec!["mistral-large"]);
    assert_eq!(ids(&e.search_models("3.1")), vec!["llama-3.1-8b"]);
    assert!(e.search_models("cohere").is_empty());
    assert_eq!(e.search_models("").len(), 5);
}

#[test]
fn search_by_family_is_exact() {
    let e = sample_engine();
    assert_eq!(ids(&e.get_models_by_family("gpt")), vec!["gpt-4", "gpt-4o"]);
    assert!(e.get_models_by_family("GPT").is_empty());
    assert!(e.get_models_by_family("gp").is_empty());
}

#[test]
fn search_by_capability() {
    let e = sample_engine();
    assert_eq!(ids(&e.get_models_by_capability("reasoning")), vec!["o1"]);
    assert_eq!(ids(&e.get_models_by_capability("tool_call")), vec!["gpt-4", "gpt-4o", "mistral-large"]);
    assert_eq!(ids(&e.get_models_by_capability("attachment")), vec!["gpt-4o", "mistral-large"]);
    assert_eq!(ids(&e.get_models_by_capability("structured_output")), vec!["gpt-4"]);
    assert_eq!(ids(&e.get_models_by_capability("temperature")), vec!["gpt-4o"]);
    assert!(e.get_models_by_capability("flying").is_empty());
    assert_eq!(parse_capability("tool_call"), Some(Capability::ToolCall));
    assert_eq!(parse_capability("Tool_call"), None);
}

#[test]
fn search_by_modality() {
    let e = sample_engine();
    assert_eq!(ids(&e.get_models_by_modality("image")), vec!["gpt-4o", "mistral-large"]);
    assert_eq!(ids(&e.get_models_by_modality("pdf")), vec!["mistral-large"]);
    assert_eq!(e.get_models_by_modality("text").len(), 5);
    assert!(e.get_models_by_modality("video").is_empty());
    assert!(e.get_models_by_modality("smell").is_empty());
    assert_eq!(parse_modality("audio"), Some(Modality::Audio));
    assert_eq!(parse_modality("Audio"), None);
}

#[test]
fn all_model_ids() {
    let e = sample_engine();
    assert_eq!(
        e.get_all_model_ids(),
        vec!["openai/gpt-4", "openai/gpt-4o", "openai/o1", "anthropic/mistral-large", "groq/llama-3.1-8b"]
    );
}

#[test]
fn finding_providers_and_models() {
    let e = sample_engine();
    assert_eq!(e.find_provider("anthropic").ok().unwrap().name, "ANTHROPIC");
    match e.find_provider("cohere") {
        Err(Error::ProviderNotFound(id)) => assert_eq!(id, "cohere"),
        _ => panic!("expected ProviderNotFound"),
    }
    assert_eq!(e.find_model("openai", "o1").ok().unwrap().name, "o1");
    match e.find_model("openai", "o3") {
        Err(Error::ModelNotFound(id)) => assert_eq!(id, "openai/o3"),
        _ => panic!("expected ModelNotFound"),
    }
    match e.find_model("cohere", "large") {
        Err(Error::ModelNotFound(id)) => assert_eq!(id, "cohere/large"),
        _ => panic!("expected ModelNotFound"),
    }
}

#[test]
fn cache_keys() {
    assert_eq!(providers_cache_key(), "providers");
    assert_eq!(provider_cache_key("openai"), "provider:openai");
    assert_eq!(model_cache_key("openai", "gpt-4"), "model:openai:gpt-4");
}

#[test]
fn statistics_counts() {
    let e = sample_engine();
    let s = e.get_statistics();
    assert_eq!(s.providers, 3);
    assert_eq!(s.models, 5);
    let mut families = s.families.clone();
    families.sort();
    assert_eq!(
        families,
        vec![("gpt".to_string(), 2), ("mistral".to_string(), 1), ("o".to_string(), 1)]
    );
    assert_eq!(
        s.capabilities,
        vec![
            ("reasoning".to_string(), 1),
            ("tool_call".to_string(), 3),
            ("attachment".to_string(), 2),
            ("structured_output".to_string(), 1),
        ]
    );
    assert_eq!(
        s.modalities,
        vec![
            ("text".to_string(), 10),
            ("image".to_string(), 2),
            ("audio".to_string(), 1),
            ("pdf".to_string(), 1),
        ]
    );
}

#[test]
fn statistics_capability_count_matches_search() {
    let e = sample_engine();
    let s = e.get_statistics();
    for (name, count) in &s.capabilities {
        assert_eq!(e.get_models_by_capability(name).len(), *count);
    }
}

#[test]
fn statistics_of_empty_database() {
    let s = Engine::new().get_statistics();
    assert_eq!(s.providers, 0);
    assert_eq!(s.models, 0);
    assert!(s.families.is_empty() && s.capabilities.is_empty() && s.modalities.is_empty());
}

#[test]
fn web_search_precedence_and_paging() {
    let e = sample_engine();
    let all = SearchQuery { q: None, family: None, capability: None, modality: None, limit: None, offset: None };
    assert_eq!(search_page(&e, &all).len(), 5);
    let q = SearchQuery { q: Some("gpt".to_string()), family: Some("mistral".to_string()), ..all_none() };
    assert_eq!(ids(&search_page(&e, &q)), vec!["gpt-4", "gpt-4o"]);
    let q = SearchQuery { family: Some("mistral".to_string()), capability: Some("reasoning".to_string()), ..all_none() };
    assert_eq!(ids(&search_page(&e, &q)), vec!["mistral-large"]);
    let q = SearchQuery { capability: Some("bogus".to_string()), modality: Some("text".to_string()), ..all_none() };
    assert!(search_page(&e, &q).is_empty());
    let q = SearchQuery { modality: Some("image".to_string()), ..all_none() };
    assert_eq!(ids(&search_page(&e, &q)), vec!["gpt-4o", "mistral-large"]);
    let q = SearchQuery { limit: Some(2), offset: Some(1), ..all_none() };
    assert_eq!(ids(&search_page(&e, &q)), vec!["gpt-4o", "o1"]);
    let q = SearchQuery { offset: Some(10), ..all_none() };
    assert!(search_page(&e, &q).is_empty());
    let q = SearchQuery { limit: Some(0), ..all_none() };
    assert!(search_page(&e, &q).is_empty());
}

fn all_none() -> SearchQuery {
    SearchQuery { q: None, family: None, capability: None, modality: None, limit: None, offset: None }
}

#[test]
fn windows() {
    let v = vec![1, 2, 3, 4, 5];
    assert_eq!(take_window(&v, 0, 100), vec![1, 2, 3, 4, 5]);
    assert_eq!(take_window(&v, 1, 2), vec![2, 3]);
    assert_eq!(take_window(&v, 4, 10), vec![5]);
    assert_eq!(take_window(&v, 5, 10), Vec::<i32>::new());
    assert_eq!(take_window(&v, usize::MAX, usize::MAX), Vec::<i32>::new());
    assert_eq!(take_window(&v, 2, usize::MAX), vec![3, 4, 5]);
}

#[test]
fn cli_search_precedence_and_limit() {
    let e = sample_engine();
    assert_eq!(ids(&cli_search(&e, "mistral", &Some("gpt".to_string()), &None, &None, 20)), vec!["gpt-4", "gpt-4o"]);
    assert_eq!(ids(&cli_search(&e, "mistral", &None, &Some("reasoning".to_string()), &Some("pdf".to_string()), 20)), vec!["o1"]);
    assert_eq!(ids(&cli_search(&e, "mistral", &None, &None, &Some("pdf".to_string()), 20)), vec!["mistral-large"]);
    assert_eq!(ids(&cli_search(&e, "GPT", &None, &None, &None, 1)), vec!["gpt-4"]);
    assert!(cli_search(&e, "x", &None, &Some("nope".to_string()), &None, 20).is_empty());
}

#[test]
fn capability_lists() {
    let e = sample_engine();
    let db = e.get_database();
    assert_eq!(format_capabilities(db.get_model("openai", "gpt-4").unwrap()), "tool_call, structured_output");
    assert_eq!(format_capabilities(db.get_model("openai", "gpt-4o").unwrap()), "tool_call, attachment");
    assert_eq!(format_capabilities(db.get_model("openai", "o1").unwrap()), "reasoning");
    assert_eq!(format_capabilities(db.get_model("groq", "llama-3.1-8b").unwrap()), "");
    let mut all = model("x", "X", None);
    all.reasoning = true;
    all.tool_call = true;
    all.attachment = true;
    all.structured_output = Some(true);
    assert_eq!(format_capabilities(&all), "reasoning, tool_call, attachment, structured_output");
}

#[test]
fn stats_formats() {
    assert_eq!(choose_stats_format("json"), (StatsFormat::Json, false));
    assert_eq!(choose_stats_format("table"), (StatsFormat::Table, false));
    assert_eq!(choose_stats_format("yaml"), (StatsFormat::Table, true));
}

#[test]
fn web_errors() {
    let nf = Error::ProviderNotFound("x".to_string());
    let mnf = Error::ModelNotFound("x/y".to_string());
    let io = Error::IoError("disk".to_string());
    assert_eq!(provider_error_status(&nf), 404);
    assert_eq!(provider_error_status(&mnf), 500);
    assert_eq!(provider_error_status(&io), 500);
    assert_eq!(model_error_status(&nf), 404);
    assert_eq!(model_error_status(&mnf), 404);
    assert_eq!(model_error_status(&io), 500);
    let (status, body) = provider_error_response(&nf, "Provider not found: x".to_string());
    assert_eq!(status, 404);
    assert_eq!(body.error, "provider_error");
    assert_eq!(body.message, "Provider not found: x");
    let (status, body) = model_error_response(&io, "IO error: disk".to_string());
    assert_eq!(status, 500);
    assert_eq!(body.error, "model_error");
    let (status, body) = make_error_response("secret detail".to_string());
    assert_eq!(status, 500);
    assert_eq!(body.error, "internal_error");
    assert_eq!(body.message, "An internal error occurred");
    let (status, body) = logo_not_found();
    assert_eq!((status, body.error.as_str(), body.message.as_str()), (404, "logo_not_found", "Logo not found"));
    let (status, body) = logo_read_error();
    assert_eq!((status, body.error.as_str(), body.message.as_str()), (500, "logo_read_error", "Failed to read logo file"));
}

#[test]
fn default_config() {
    let c = Config::default();
    assert_eq!(c.bind_address, "0.0.0.0");
    assert_eq!(c.port, 3000);
    assert!(c.static_dir.is_none());
    assert_eq!(c.providers_dir, "providers");
    assert_eq!(c.log_level, "info");
}

#[test]
fn text_helpers() {
    assert!(contains("hello world", "lo w"));
    assert!(contains("hello", ""));
    assert!(contains("", ""));
    assert!(!contains("", "a"));
    assert!(!contains("hel", "hello"));
    assert!(contains("aaab", "aab"));
    assert!(contains("naïve", "ïv"));
    assert!(same_text("abc", "abc"));
    assert!(!same_text("abc", "abd"));
}

#[test]
fn search_results_are_exactly_the_matches() {
    let e = sample_engine();
    let found = e.search_models("4o");
    for m in &found {
        assert!(m.name.to_lowercase().contains("4o") || m.id.to_lowercase().contains("4o"));
    }
    let all: Vec<&Model> = e.get_database().all_models().into_iter().map(|t| t.2).collect();
    let expected: Vec<String> = all
        .iter()
        .filter(|m| m.name.to_lowercase().contains("4o") || m.id.to_lowercase().contains("4o"))
        .map(|m| m.id.clone())
        .collect();
    assert_eq!(ids(&found), expected);
}

#[test]
fn search_lowers_unicode_letters() {
    let mut db = Database::new();
    db.add_provider(provider("x", vec![model("ÉCLAIR-1", "Éclair Ünit", None)]));
    let mut e = Engine::new();
    e.load_database(db);
    assert_eq!(ids(&e.search_models("éclair ü")), vec!["ÉCLAIR-1"]);
    assert_eq!(ids(&e.search_models("ÉCLAIR-")), vec!["ÉCLAIR-1"]);
    assert!(e.search_models("eclair").is_empty());
}

#[test]
fn search_ignores_query_case() {
    let e = sample_engine();
    assert_eq!(ids(&e.search_models("Gpt-4")), ids(&e.search_models("gPT-4")));
    assert_eq!(ids(&e.search_models("LLAMA")), vec!["llama-3.1-8b"]);
}

#[test]
fn cache_keys_never_collide() {
    assert_ne!(provider_cache_key("a"), provider_cache_key("b"));
    assert_ne!(provider_cache_key("s"), providers_cache_key());
    assert_ne!(model_cache_key("provider", "x"), provider_cache_key("x"));
    assert_ne!(model_cache_key("a", "b"), providers_cache_key());
}

#[test]
fn modality_rows_name_known_modalities() {
    let e = sample_engine();
    let s = e.get_statistics();
    for (name, count) in &s.modalities {
        assert!(parse_modality(name).is_some());
        assert!(*count > 0);
    }
}

#[test]
fn consecutive_pages_cover_everything_once() {
    let v: Vec<u32> = (0..23).collect();
    let mut seen = Vec::new();
    let mut offset = 0;
    while offset < v.len() {
        let page = take_window(&v, offset, 5);
        assert!(page.len() <= 5);
        seen.extend(page);
        offset += 5;
    }
    assert_eq!(seen, v);
}

#[test]
fn statistics_fit_on_ordinary_databases() {
    assert!(sample_engine().statistics_fit());
    assert!(Engine::new().statistics_fit());
}

#[test]
fn model_cache_keys_distinct_without_colons() {
    assert_ne!(model_cache_key("openai", "gpt-4"), model_cache_key("openai", "gpt-4o"));
    assert_ne!(model_cache_key("openai", "x"), model_cache_key("groq", "x"));
    // with a ':' inside a provider id, two pairs can share a key
    assert_eq!(model_cache_key("a:b", "c"), model_cache_key("a", "b:c"));
}

#[test]
fn ascii_case_forms_of_a_query_find_the_same_models() {
    let e = sample_engine();
    for q in ["gpt-4", "Mistral", "LLAMA 3", "o1", "x"] {
        let found = ids(&e.search_models(q));
        assert_eq!(ids(&e.search_models(&q.to_ascii_uppercase())), found);
        assert_eq!(ids(&e.search_models(&q.to_ascii_lowercase())), found);
    }
}

#[test]
fn empty_query_finds_every_model() {
    let e = sample_engine();
    assert_eq!(e.search_models("").len(), e.get_database().model_count());
}

#[test]
fn longer_query_finds_a_subsequence() {
    let e = sample_engine();
    for (q, r) in [("gpt", "-4o"), ("l", "lama"), ("", "mistral"), ("o", "1"), ("gpt", "zzz")] {
        let shorter = ids(&e.search_models(q));
        let longer = ids(&e.search_models(&format!("{}{}", q, r)));
        let mut pos = 0;
        for id in &longer {
            let at = shorter[pos..].iter().position(|x| x == id).expect("kept in order");
            pos += at + 1;
        }
    }
}

#[test]
fn every_stored_model_is_listed_once_with_distinct_ids() {
    let e = sample_engine();
    let mut listed = e.get_all_model_ids();
    assert_eq!(listed.len(), 5);
    for p in e.get_database().providers() {
        for m in p.models.items() {
            let id = format!("{}/{}", p.id, m.id);
            assert_eq!(listed.iter().filter(|x| **x == id).count(), 1);
        }
    }
    listed.sort();
    listed.dedup();
    assert_eq!(listed.len(), 5);
}

#[test]
fn modality_count_is_at_least_the_search_count() {
    let e = sample_engine();
    let s = e.get_statistics();
    for (name, count) in &s.modalities {
        assert!(*count >= e.get_models_by_modality(name).len());
    }
    assert_eq!(e.get_models_by_modality("text").len(), 5);
}

#[test]
fn model_map_keeps_one_model_per_id() {
    let mut a = model("m", "First", None);
    a.reasoning = true;
    let b = model("n", "N", None);
    let c = model("m", "Second", None);
    let mut map = ModelMap::from_models(vec![a, b, c]);
    assert_eq!(map.len(), 2);
    assert_eq!(map.items()[0].name, "Second");
    map.insert(model("n", "Newer N", None));
    assert_eq!(map.len(), 2);
    assert_eq!(map.get("n").unwrap().name, "Newer N");
    map.insert(model("o", "O", None));
    assert_eq!(map.len(), 3);
    let copy = map.clone();
    let names: Vec<&str> = copy.items().iter().map(|m| m.name.as_str()).collect();
    assert_eq!(names, vec!["Second", "Newer N", "O"]);
    assert_eq!(ModelMap::new().len(), 0);
    assert_eq!(copy.into_models().len(), 3);
}

#[test]
fn model_clone_keeps_every_field() {
    let mut m = model("gpt-4o", "GPT-4o", Some("gpt"));
    m.modalities.input = vec![Modality::Text, Modality::Image];
    m.knowledge = Some("2023-10".to_string());
    let c = m.clone();
    assert_eq!(c.id, m.id);
    assert_eq!(c.family, m.family);
    assert_eq!(c.knowledge, m.knowledge);
    assert_eq!(c.modalities.input, m.modalities.input);
}
