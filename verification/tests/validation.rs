use neopilot_models::error::Error;
use neopilot_models::models::{Cost, InterleavedField, Interleaved, Limit, Modalities, Modality, Model, ModelMap};
use neopilot_models::parser::{
    assemble_database, build_provider, collect_models, full_model_id, is_negative_price, is_valid_date,
    make_model, validate_model, validate_provider, InterleavedData, ModelData, ProviderData,
};

fn provider_data(npm: &str, api: Option<&str>) -> ProviderData {
    ProviderData {
        name: "Example".to_string(),
        npm: npm.to_string(),
        env: vec!["EXAMPLE_API_KEY".to_string()],
        api: api.map(|a| a.to_string()),
        doc: "https://example.com/docs".to_string(),
    }
}

fn cost(input: f64, output: f64) -> Cost {
    Cost {
        input: input.to_bits(),
        output: output.to_bits(),
        reasoning: None,
        cache_read: None,
        cache_write: None,
        input_audio: None,
        output_audio: None,
        context_over_200k: None,
    }
}

fn model_data() -> ModelData {
    ModelData {
        id: String::new(),
        name: "GPT-4o".to_string(),
        family: Some("gpt".to_string()),
        attachment: true,
        reasoning: false,
        tool_call: true,
        interleaved: None,
        structured_output: Some(true),
        temperature: Some(true),
        knowledge: Some("2023-10".to_string()),
        release_date: "2024-05-13".to_string(),
        last_updated: "2024-08-06".to_string(),
        modalities: Modalities { input: vec![Modality::Text, Modality::Image], output: vec![Modality::Text] },
        open_weights: false,
        cost: Some(cost(2.5, 10.0)),
        limit: Limit { context: 128000, input: None, output: 16384 },
        status: None,
        provider: None,
    }
}

fn message(r: Result<(), Error>) -> Option<String> {
    match r {
        Ok(()) => None,
        Err(Error::Validation(m)) => Some(m),
        Err(_) => Some("other error".to_string()),
    }
}

#[test]
fn valid_provider_passes() {
    assert!(validate_provider(&provider_data("@ai-sdk/openai", None)).is_ok());
    assert!(validate_provider(&provider_data("@ai-sdk/openai-compatible", Some("https://api.x"))).is_ok());
    assert!(validate_provider(&provider_data("@openrouter/ai-sdk-provider", Some("https://or"))).is_ok());
}

#[test]
fn provider_empty_fields_rejected_in_order() {
    let mut p = provider_data("@ai-sdk/openai", None);
    p.name = String::new();
    p.npm = String::new();
    assert_eq!(message(validate_provider(&p)), Some("Provider name cannot be empty".to_string()));
    let mut p = provider_data("", None);
    p.env = vec![];
    assert_eq!(message(validate_provider(&p)), Some("Provider npm cannot be empty".to_string()));
    let mut p = provider_data("@ai-sdk/openai", None);
    p.env = vec![];
    assert!(validate_provider(&p).is_ok());
    let mut p = provider_data("@ai-sdk/openai", None);
    p.doc = String::new();
    assert_eq!(message(validate_provider(&p)), Some("Provider documentation URL is required".to_string()));
}

#[test]
fn provider_api_rules() {
    assert_eq!(
        message(validate_provider(&provider_data("@ai-sdk/openai-compatible", None))),
        Some("API endpoint is required for openai-compatible and openrouter providers".to_string())
    );
    assert_eq!(
        message(validate_provider(&provider_data("@openrouter/ai-sdk-provider", None))),
        Some("API endpoint is required for openai-compatible and openrouter providers".to_string())
    );
    assert_eq!(
        message(validate_provider(&provider_data("@ai-sdk/anthropic", Some("https://api")))),
        Some("API endpoint is only allowed for openai-compatible and openrouter providers".to_string())
    );
}

#[test]
fn valid_model_passes() {
    assert!(validate_model(&model_data()).is_ok());
    let mut m = model_data();
    m.knowledge = None;
    m.cost = None;
    m.release_date = "2024-05".to_string();
    assert!(validate_model(&m).is_ok());
}

#[test]
fn model_name_and_dates() {
    let mut m = model_data();
    m.name = String::new();
    m.release_date = "bad".to_string();
    assert_eq!(message(validate_model(&m)), Some("Model name cannot be empty".to_string()));
    let mut m = model_data();
    m.release_date = "2024/05/13".to_string();
    assert_eq!(
        message(validate_model(&m)),
        Some("Release date must be in YYYY-MM or YYYY-MM-DD format".to_string())
    );
    let mut m = model_data();
    m.last_updated = "24-05-13".to_string();
    assert_eq!(
        message(validate_model(&m)),
        Some("Last updated date must be in YYYY-MM or YYYY-MM-DD format".to_string())
    );
    let mut m = model_data();
    m.knowledge = Some("2023".to_string());
    assert_eq!(
        message(validate_model(&m)),
        Some("Knowledge date must be in YYYY-MM or YYYY-MM-DD format".to_string())
    );
}

#[test]
fn date_pattern_on_examples() {
    assert!(is_valid_date("2024-01"));
    assert!(is_valid_date("2024-01-31"));
    assert!(is_valid_date("9999-99-99"));
    assert!(!is_valid_date("2024-1-31"));
    assert!(!is_valid_date("2024-01-31 "));
    assert!(!is_valid_date(" 2024-01"));
    assert!(!is_valid_date("2024-01-"));
    assert!(!is_valid_date("2024-01-31-01"));
    assert!(!is_valid_date("2024-01\n"));
    assert!(!is_valid_date(""));
    // Unicode decimal digits count as digits for the date pattern.
    assert!(is_valid_date("２０２４-０１"));
}

#[test]
fn negative_prices_by_bits() {
    assert!(is_negative_price((-1.0f64).to_bits()));
    assert!(is_negative_price((-0.0001f64).to_bits()));
    assert!(is_negative_price(f64::NEG_INFINITY.to_bits()));
    assert!(is_negative_price((-f64::MIN_POSITIVE).to_bits()));
    assert!(!is_negative_price((-0.0f64).to_bits()));
    assert!(!is_negative_price(0.0f64.to_bits()));
    assert!(!is_negative_price(3.0f64.to_bits()));
    assert!(!is_negative_price(f64::NAN.to_bits()));
    assert!(!is_negative_price((-f64::NAN).to_bits()));
    assert!(!is_negative_price(f64::INFINITY.to_bits()));
}

#[test]
fn cost_rules_in_order() {
    let mut m = model_data();
    m.cost = Some(cost(-1.0, -1.0));
    assert_eq!(message(validate_model(&m)), Some("Input cost cannot be negative".to_string()));
    let mut m = model_data();
    m.cost = Some(cost(1.0, -0.5));
    assert_eq!(message(validate_model(&m)), Some("Output cost cannot be negative".to_string()));
    let mut m = model_data();
    let mut c = cost(1.0, 1.0);
    c.reasoning = Some((-2.0f64).to_bits());
    m.cost = Some(c);
    assert_eq!(message(validate_model(&m)), Some("Reasoning cost cannot be negative".to_string()));
    let mut m = model_data();
    let mut c = cost(1.0, 1.0);
    c.cache_read = Some((-2.0f64).to_bits());
    m.cost = Some(c);
    assert_eq!(message(validate_model(&m)), Some("Cache read cost cannot be negative".to_string()));
    let mut m = model_data();
    let mut c = cost(1.0, 1.0);
    c.cache_write = Some((-2.0f64).to_bits());
    m.cost = Some(c);
    assert_eq!(message(validate_model(&m)), Some("Cache write cost cannot be negative".to_string()));
    // audio prices and nested prices are not checked
    let mut m = model_data();
    let mut c = cost(0.0, 0.0);
    c.input_audio = Some((-2.0f64).to_bits());
    c.context_over_200k = Some(Box::new(cost(-5.0, -5.0)));
    m.cost = Some(c);
    assert!(validate_model(&m).is_ok());
}

#[test]
fn limit_rules() {
    let mut m = model_data();
    m.limit.context = 0;
    m.limit.output = 0;
    assert_eq!(message(validate_model(&m)), Some("Context limit must be positive".to_string()));
    let mut m = model_data();
    m.limit.output = 0;
    assert_eq!(message(validate_model(&m)), Some("Output limit must be positive".to_string()));
    let mut m = model_data();
    m.limit.input = Some(0);
    assert_eq!(message(validate_model(&m)), Some("Input limit must be positive".to_string()));
    let mut m = model_data();
    m.limit.input = Some(1);
    assert!(validate_model(&m).is_ok());
}

#[test]
fn reasoning_price_needs_reasoning() {
    let mut m = model_data();
    let mut c = cost(1.0, 1.0);
    c.reasoning = Some(3.0f64.to_bits());
    m.cost = Some(c);
    m.reasoning = false;
    assert_eq!(
        message(validate_model(&m)),
        Some("Cannot set cost.reasoning when reasoning is false".to_string())
    );
    m.reasoning = true;
    assert!(validate_model(&m).is_ok());
}

#[test]
fn model_ids_from_file_paths() {
    assert_eq!(full_model_id("", "gpt-4o"), "gpt-4o");
    assert_eq!(full_model_id("", "mixtral-8.7"), "mixtral-8.7");
    assert_eq!(full_model_id("openai", "gpt-4"), "openai/gpt-4");
    assert_eq!(full_model_id("meta/llama", "llama-3.1-8b"), "meta/llama/llama-3.1-8b");
}

#[test]
fn model_file_directly_in_models_dir_gets_bare_stem() {
    let m = make_model("", "sonnet-3-5-20241022", model_data()).ok().unwrap();
    assert_eq!(m.id, "sonnet-3-5-20241022");
    let n = make_model("openai", "gpt-4", model_data()).ok().unwrap();
    assert_eq!(n.id, "openai/gpt-4");
}

#[test]
fn make_model_carries_fields() {
    let mut d = model_data();
    d.interleaved = Some(InterleavedData::Object { field: InterleavedField::ReasoningDetails });
    let m: Model = make_model("", "gpt-4o", d).ok().unwrap();
    assert_eq!(m.id, "gpt-4o");
    assert_eq!(m.name, "GPT-4o");
    assert_eq!(m.family.as_deref(), Some("gpt"));
    assert!(m.tool_call && m.attachment && !m.reasoning);
    assert_eq!(m.interleaved, Some(Interleaved::Object { field: InterleavedField::ReasoningDetails }));
    assert_eq!(m.limit.context, 128000);
    assert_eq!(m.cost.as_ref().map(|c| f64::from_bits(c.input)), Some(2.5));

    let mut d = model_data();
    d.interleaved = Some(InterleavedData::Boolean(true));
    let m = make_model("", "x", d).ok().unwrap();
    assert_eq!(m.interleaved, Some(Interleaved::Boolean(true)));

    let mut bad = model_data();
    bad.name = String::new();
    match make_model("", "x", bad) {
        Err(Error::Validation(msg)) => assert_eq!(msg, "Model name cannot be empty"),
        _ => panic!("expected a validation error"),
    }
}

#[test]
fn later_model_file_wins_on_same_id() {
    let first = make_model("", "a", model_data()).ok().unwrap();
    let other = make_model("", "b", model_data()).ok().unwrap();
    let mut d = model_data();
    d.name = "Replacement".to_string();
    let second = make_model("", "a", d).ok().unwrap();
    let collected = collect_models(vec![first, other, second]);
    assert_eq!(collected.len(), 2);
    assert_eq!(collected.items()[0].id, "a");
    assert_eq!(collected.items()[0].name, "Replacement");
    assert_eq!(collected.items()[1].id, "b");
    assert_eq!(collected.get("a").unwrap().name, "Replacement");
    assert!(collected.get("c").is_none());
}

#[test]
fn build_and_assemble() {
    let p1 = build_provider("openai".to_string(), provider_data("@ai-sdk/openai", None), ModelMap::new());
    assert_eq!(p1.id, "openai");
    assert_eq!(p1.name, "Example");
    assert_eq!(p1.env, vec!["EXAMPLE_API_KEY".to_string()]);
    let p2 = build_provider("groq".to_string(), provider_data("@ai-sdk/groq", None), ModelMap::new());
    let p3 = build_provider("openai".to_string(), provider_data("@ai-sdk/other", None), ModelMap::new());
    let db = assemble_database(vec![p1, p2, p3]);
    assert_eq!(db.provider_count(), 2);
    assert_eq!(db.get_provider("openai").unwrap().npm, "@ai-sdk/other");
}

#[test]
fn sample_provider_configuration_with_empty_env_is_accepted() {
    let p = ProviderData {
        name: "Free Models".to_string(),
        npm: "@ai-sdk/openai-compatible".to_string(),
        env: vec![],
        api: Some("https://api-inference.huggingface.co/models".to_string()),
        doc: "https://huggingface.co".to_string(),
    };
    assert!(validate_provider(&p).is_ok());
    let mut p = p;
    p.env = vec!["HF_TOKEN".to_string()];
    assert!(validate_provider(&p).is_ok());
}

#[test]
fn sample_model_configuration_passes() {
    let m = ModelData {
        id: String::new(),
        name: "Model-Name".to_string(),
        family: Some("model-family".to_string()),
        attachment: false,
        reasoning: false,
        tool_call: true,
        interleaved: None,
        structured_output: None,
        temperature: Some(true),
        knowledge: None,
        release_date: "2024-07-23".to_string(),
        last_updated: "2024-07-23".to_string(),
        modalities: Modalities { input: vec![Modality::Text, Modality::Image], output: vec![Modality::Text] },
        open_weights: true,
        cost: Some(cost(0.0, 0.0)),
        limit: Limit { context: 128_000, input: None, output: 8_192 },
        status: None,
        provider: None,
    };
    assert!(validate_model(&m).is_ok());
}
