use neopilot_models::database::Database;
use neopilot_models::models::{Limit, Modalities, Modality, Model, ModelMap, Provider};

fn model(id: &str, name: &str, family: Option<&str>) -> Model {
    Model {
        id: id.to_string(),
        name: name.to_string(),
        family: family.map(|f| f.to_string()),
        attachment: false,
        reasoning: false,
        tool_call: false,
        interleaved: None,
        structured_output: None,
        temperature: None,
        knowledge: None,
        release_date: "2024-01-01".to_string(),
        last_updated: "2024-01-01".to_string(),
        modalities: Modalities { input: vec![Modality::Text], output: vec![Modality::Text] },
        open_weights: false,
        cost: None,
        limit: Limit { context: 1000, input: None, output: 100 },
        status: None,
        provider: None,
    }
}

fn provider(id: &str, name: &str, models: Vec<Model>) -> Provider {
    Provider {
        id: id.to_string(),
        name: name.to_string(),
        npm: "@ai-sdk/openai".to_string(),
        env: vec!["KEY".to_string()],
        api: None,
        doc: "https://example.com".to_string(),
        models: ModelMap::from_models(models),
    }
}

#[test]
fn new_database_is_empty() {
    let db = Database::new();
    assert_eq!(db.provider_count(), 0);
    assert_eq!(db.model_count(), 0);
    assert!(db.all_models().is_empty());
    assert!(db.get_provider("openai").is_none());
    let d = Database::default();
    assert_eq!(d.provider_count(), 0);
}

#[test]
fn add_then_get_provider() {
    let mut db = Database::new();
    db.add_provider(provider("openai", "OpenAI", vec![model("gpt-4", "GPT-4", Some("gpt"))]));
    let p = db.get_provider("openai").unwrap();
    assert_eq!(p.name, "OpenAI");
    assert!(db.get_provider("anthropic").is_none());
}

#[test]
fn add_keeps_other_providers() {
    let mut db = Database::new();
    db.add_provider(provider("openai", "OpenAI", vec![]));
    db.add_provider(provider("anthropic", "Anthropic", vec![]));
    assert_eq!(db.get_provider("openai").unwrap().name, "OpenAI");
    assert_eq!(db.get_provider("anthropic").unwrap().name, "Anthropic");
}

#[test]
fn add_same_id_replaces_and_keeps_count() {
    let mut db = Database::new();
    db.add_provider(provider("openai", "First", vec![]));
    db.add_provider(provider("groq", "Groq", vec![]));
    assert_eq!(db.provider_count(), 2);
    db.add_provider(provider("openai", "Second", vec![]));
    assert_eq!(db.provider_count(), 2);
    assert_eq!(db.get_provider("openai").unwrap().name, "Second");
    assert_eq!(db.providers()[0].name, "Second");
}

#[test]
fn add_twice_same_as_once() {
    let mut a = Database::new();
    a.add_provider(provider("x", "X", vec![]));
    let mut b = Database::new();
    b.add_provider(provider("x", "X", vec![]));
    b.add_provider(provider("x", "X", vec![]));
    assert_eq!(a.provider_count(), b.provider_count());
    assert_eq!(a.get_provider("x").unwrap().name, b.get_provider("x").unwrap().name);
}

#[test]
fn get_model_by_provider_and_id() {
    let mut db = Database::new();
    db.add_provider(provider(
        "openai",
        "OpenAI",
        vec![model("gpt-4", "GPT-4", Some("gpt")), model("gpt-4o", "GPT-4o", Some("gpt"))],
    ));
    assert_eq!(db.get_model("openai", "gpt-4o").unwrap().name, "GPT-4o");
    assert!(db.get_model("openai", "mistral").is_none());
    assert!(db.get_model("anthropic", "gpt-4o").is_none());
}

#[test]
fn counts_and_all_models_in_order() {
    let mut db = Database::new();
    db.add_provider(provider("a", "A", vec![model("m1", "M1", None), model("m2", "M2", None)]));
    db.add_provider(provider("b", "B", vec![model("m3", "M3", None)]));
    db.add_provider(provider("c", "C", vec![]));
    assert_eq!(db.provider_count(), 3);
    assert_eq!(db.model_count(), 3);
    let all = db.all_models();
    let triples: Vec<(String, String, String)> =
        all.iter().map(|(p, m, model)| (p.to_string(), m.to_string(), model.name.clone())).collect();
    assert_eq!(
        triples,
        vec![
            ("a".to_string(), "m1".to_string(), "M1".to_string()),
            ("a".to_string(), "m2".to_string(), "M2".to_string()),
            ("b".to_string(), "m3".to_string(), "M3".to_string()),
        ]
    );
}

#[test]
fn position_lookup_finds_first_match() {
    let items = vec![model("a", "first", None), model("b", "B", None), model("a", "second", None)];
    assert_eq!(neopilot_models::models::position_of(&items, "a"), Some(0));
    assert_eq!(neopilot_models::models::position_of(&items, "b"), Some(1));
    assert_eq!(neopilot_models::models::position_of(&items, "z"), None);
}

#[test]
fn non_ascii_ids_are_compared_exactly() {
    let mut db = Database::new();
    db.add_provider(provider("zhipú", "Zhipu", vec![]));
    assert!(db.get_provider("zhipú").is_some());
    assert!(db.get_provider("zhipu").is_none());
}

#[test]
fn ids_stay_distinct_after_adds() {
    let mut db = Database::new();
    for id in ["a", "b", "a", "c", "b", "a"] {
        db.add_provider(provider(id, id, vec![]));
    }
    let ids: Vec<&str> = db.providers().iter().map(|p| p.id.as_str()).collect();
    assert_eq!(ids, vec!["a", "b", "c"]);
}

#[test]
fn every_listed_model_can_be_fetched() {
    let mut db = Database::new();
    db.add_provider(provider("a", "A", vec![model("m1", "M1", None), model("m2", "M2", None)]));
    db.add_provider(provider("b", "B", vec![model("m1", "Other M1", None)]));
    let listed: Vec<(String, String, String)> =
        db.all_models().iter().map(|(p, m, model)| (p.to_string(), m.to_string(), model.name.clone())).collect();
    assert_eq!(listed.len(), 3);
    for (p, m, name) in listed {
        assert_eq!(db.get_model(&p, &m).unwrap().name, name);
    }
}
