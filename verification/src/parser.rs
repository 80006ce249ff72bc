use vstd::prelude::*;
use crate::database::Database;
use crate::error::Error;
use crate::models::{
    Cost, Interleaved, InterleavedField, Limit, Modalities, Model, ModelMap, ModelStatus, Provider,
    ProviderInfo, keys_distinct, last_with_key, lemma_store_all_keys_distinct, lemma_store_all_lookup,
    lookup, store_all,
};
use crate::text::same_text;

verus! {

/// The contents of a `provider.toml` file.
pub struct ProviderData {
    pub name: String,
    pub npm: String,
    pub env: Vec<String>,
    pub api: Option<String>,
    pub doc: String,
}

/// The `interleaved` entry of a model file.
pub enum InterleavedData {
    Boolean(bool),
    Object { field: InterleavedField },
}

/// The contents of a model file.
pub struct ModelData {
    pub id: String,
    pub name: String,
    pub family: Option<String>,
    pub attachment: bool,
    pub reasoning: bool,
    pub tool_call: bool,
    pub interleaved: Option<InterleavedData>,
    pub structured_output: Option<bool>,
    pub temperature: Option<bool>,
    pub knowledge: Option<String>,
    pub release_date: String,
    pub last_updated: String,
    pub modalities: Modalities,
    pub open_weights: bool,
    pub cost: Option<Cost>,
    pub limit: Limit,
    pub status: Option<ModelStatus>,
    pub provider: Option<ProviderInfo>,
}

/// The pattern that release, update and knowledge dates must match:
/// `YYYY-MM` or `YYYY-MM-DD`.
pub const DATE_PATTERN: &'static str = "^\\d{4}-\\d{2}(-\\d{2})?$";

/// What the `regex` crate answers for `pattern` on `haystack`: `None` when
/// the pattern does not compile, else whether the pattern matches somewhere
/// in the haystack.
pub uninterp spec fn regex_verdict(pattern: Seq<char>, haystack: Seq<char>) -> Option<bool>;

pub open spec fn is_ascii_digit(c: char) -> bool {
    '0' <= c && c <= '9'
}

/// `s` is `YYYY-MM` or `YYYY-MM-DD` written with the digits `0`..`9`.
pub open spec fn ascii_date_shape(s: Seq<char>) -> bool {
    &&& (s.len() == 7 || s.len() == 10)
    &&& is_ascii_digit(s[0]) && is_ascii_digit(s[1]) && is_ascii_digit(s[2]) && is_ascii_digit(s[3])
    &&& s[4] == '-'
    &&& is_ascii_digit(s[5]) && is_ascii_digit(s[6])
    &&& s.len() == 10 ==> (s[7] == '-' && is_ascii_digit(s[8]) && is_ascii_digit(s[9]))
}

pub open spec fn all_ascii_chars(s: Seq<char>) -> bool {
    forall|i: int| 0 <= i < s.len() ==> (#[trigger] s[i] as u32) < 128
}

/// Compiles `pattern` with `regex::Regex::new` and asks `Regex::is_match`
/// about `haystack`.
///
/// Trusted: the answer is `regex_verdict(pattern, haystack)`. For the date
/// pattern the crate documents that it compiles (it is valid syntax, far
/// below the size limit) and, `\d` being a digit, `^` and `$` the ends of the
/// haystack, that on an ASCII haystack it matches exactly `ascii_date_shape`.
/// On other haystacks `\d` matches any Unicode decimal digit, which is not
/// stated here.
#[verifier::external_body]
fn regex_is_match(pattern: &str, haystack: &str) -> (r: Option<bool>)
    ensures
        r == regex_verdict(pattern@, haystack@),
        pattern@ == DATE_PATTERN@ ==> r is Some,
        pattern@ == DATE_PATTERN@ && all_ascii_chars(haystack@) ==> r == Some(ascii_date_shape(haystack@)),
{
    match regex::Regex::new(pattern) {
        Ok(re) => Some(re.is_match(haystack)),
        Err(_) => None,
    }
}

/// A date string is accepted when the date pattern matches it.
pub open spec fn date_accepted(s: Seq<char>) -> bool {
    regex_verdict(DATE_PATTERN@, s) == Some(true)
}

/// Whether `s` matches the date pattern.
pub fn is_valid_date(s: &str) -> (r: bool)
    ensures
        r == date_accepted(s@),
        all_ascii_chars(s@) ==> r == ascii_date_shape(s@),
{
    match regex_is_match(DATE_PATTERN, s) {
        Some(b) => b,
        None => false,
    }
}

/// An IEEE-754 binary64 bit pattern stands for a number below zero: the
/// sign bit is set and the value is neither zero nor NaN (negative infinity
/// included).
pub open spec fn price_is_negative(bits: u64) -> bool {
    0x8000_0000_0000_0001u64 <= bits && bits <= 0xFFF0_0000_0000_0000u64
}

/// Whether the price with this bit pattern is below zero.
pub fn is_negative_price(bits: u64) -> (r: bool)
    ensures
        r == price_is_negative(bits),
{
    0x8000_0000_0000_0001u64 <= bits && bits <= 0xFFF0_0000_0000_0000u64
}

pub open spec fn optional_price_negative(p: Option<u64>) -> bool {
    match p {
        Some(b) => price_is_negative(b),
        None => false,
    }
}

pub open spec fn is_openai_compatible_npm(npm: Seq<char>) -> bool {
    npm == "@ai-sdk/openai-compatible"@
}

pub open spec fn is_openrouter_npm(npm: Seq<char>) -> bool {
    npm == "@openrouter/ai-sdk-provider"@
}

/// The message of the first provider rule that `p` breaks, if any.
pub open spec fn provider_violation(p: ProviderData) -> Option<Seq<char>> {
    let special = is_openai_compatible_npm(p.npm@) || is_openrouter_npm(p.npm@);
    if p.name@.len() == 0 {
        Some("Provider name cannot be empty"@)
    } else if p.npm@.len() == 0 {
        Some("Provider npm cannot be empty"@)
    } else if p.doc@.len() == 0 {
        Some("Provider documentation URL is required"@)
    } else if special && p.api is None {
        Some("API endpoint is required for openai-compatible and openrouter providers"@)
    } else if !special && p.api is Some {
        Some("API endpoint is only allowed for openai-compatible and openrouter providers"@)
    } else {
        None
    }
}

/// `r` is the outcome that a rule check with first violation `v` gives.
pub open spec fn outcome_of(r: Result<(), Error>, v: Option<Seq<char>>) -> bool {
    match v {
        None => r is Ok,
        Some(msg) => r matches Err(Error::Validation(m)) && m@ == msg,
    }
}

fn validation_error(msg: &str) -> (e: Error)
    ensures
        e matches Error::Validation(m) && m@ == msg@,
{
    Error::Validation(String::from_str(msg))
}

/// Checks the rules a provider file must follow.
pub fn validate_provider(provider: &ProviderData) -> (r: Result<(), Error>)
    ensures
        outcome_of(r, provider_violation(*provider)),
{
    if provider.name.as_str().is_empty() {
        return Err(validation_error("Provider name cannot be empty"));
    }
    if provider.npm.as_str().is_empty() {
        return Err(validation_error("Provider npm cannot be empty"));
    }
    if provider.doc.as_str().is_empty() {
        return Err(validation_error("Provider documentation URL is required"));
    }
    let is_openai_compatible = same_text(provider.npm.as_str(), "@ai-sdk/openai-compatible");
    let is_openrouter = same_text(provider.npm.as_str(), "@openrouter/ai-sdk-provider");
    if (is_openai_compatible || is_openrouter) && provider.api.is_none() {
        return Err(
            validation_error(
                "API endpoint is required for openai-compatible and openrouter providers",
            ),
        );
    }
    if !is_openai_compatible && !is_openrouter && provider.api.is_some() {
        return Err(
            validation_error(
                "API endpoint is only allowed for openai-compatible and openrouter providers",
            ),
        );
    }
    Ok(())
}


/// The message of the first cost rule that `cost` breaks, if any.
pub open spec fn cost_violation(cost: Option<Cost>) -> Option<Seq<char>> {
    match cost {
        None => None,
        Some(c) => if price_is_negative(c.input) {
            Some("Input cost cannot be negative"@)
        } else if price_is_negative(c.output) {
            Some("Output cost cannot be negative"@)
        } else if optional_price_negative(c.reasoning) {
            Some("Reasoning cost cannot be negative"@)
        } else if optional_price_negative(c.cache_read) {
            Some("Cache read cost cannot be negative"@)
        } else if optional_price_negative(c.cache_write) {
            Some("Cache write cost cannot be negative"@)
        } else {
            None
        },
    }
}

pub open spec fn knowledge_rejected(knowledge: Option<String>) -> bool {
    match knowledge {
        Some(k) => !date_accepted(k@),
        None => false,
    }
}

pub open spec fn has_reasoning_price(cost: Option<Cost>) -> bool {
    match cost {
        Some(c) => c.reasoning is Some,
        None => false,
    }
}

/// The message of the first model rule that `m` breaks, if any.
pub open spec fn model_violation(m: ModelData) -> Option<Seq<char>> {
    if m.name@.len() == 0 {
        Some("Model name cannot be empty"@)
    } else if !date_accepted(m.release_date@) {
        Some("Release date must be in YYYY-MM or YYYY-MM-DD format"@)
    } else if !date_accepted(m.last_updated@) {
        Some("Last updated date must be in YYYY-MM or YYYY-MM-DD format"@)
    } else if knowledge_rejected(m.knowledge) {
        Some("Knowledge date must be in YYYY-MM or YYYY-MM-DD format"@)
    } else if cost_violation(m.cost) is Some {
        cost_violation(m.cost)
    } else if m.limit.context == 0 {
        Some("Context limit must be positive"@)
    } else if m.limit.output == 0 {
        Some("Output limit must be positive"@)
    } else if m.limit.input == Some(0usize) {
        Some("Input limit must be positive"@)
    } else if !m.reasoning && has_reasoning_price(m.cost) {
        Some("Cannot set cost.reasoning when reasoning is false"@)
    } else {
        None
    }
}

fn check_cost(cost: &Option<Cost>) -> (r: Result<(), Error>)
    ensures
        outcome_of(r, cost_violation(*cost)),
{
    if let Some(c) = cost {
        if is_negative_price(c.input) {
            return Err(validation_error("Input cost cannot be negative"));
        }
        if is_negative_price(c.output) {
            return Err(validation_error("Output cost cannot be negative"));
        }
        if let Some(reasoning) = c.reasoning {
            if is_negative_price(reasoning) {
                return Err(validation_error("Reasoning cost cannot be negative"));
            }
        }
        if let Some(cache_read) = c.cache_read {
            if is_negative_price(cache_read) {
                return Err(validation_error("Cache read cost cannot be negative"));
            }
        }
        if let Some(cache_write) = c.cache_write {
            if is_negative_price(cache_write) {
                return Err(validation_error("Cache write cost cannot be negative"));
            }
        }
    }
    Ok(())
}

/// Checks the rules a model file must follow.
pub fn validate_model(model: &ModelData) -> (r: Result<(), Error>)
    ensures
        outcome_of(r, model_violation(*model)),
{
    if model.name.as_str().is_empty() {
        return Err(validation_error("Model name cannot be empty"));
    }
    if !is_valid_date(model.release_date.as_str()) {
        return Err(validation_error("Release date must be in YYYY-MM or YYYY-MM-DD format"));
    }
    if !is_valid_date(model.last_updated.as_str()) {
        return Err(validation_error("Last updated date must be in YYYY-MM or YYYY-MM-DD format"));
    }
    if let Some(knowledge) = &model.knowledge {
        if !is_valid_date(knowledge.as_str()) {
            return Err(validation_error("Knowledge date must be in YYYY-MM or YYYY-MM-DD format"));
        }
    }
    match check_cost(&model.cost) {
        Ok(()) => {},
        Err(e) => {
            return Err(e);
        },
    }
    if model.limit.context == 0 {
        return Err(validation_error("Context limit must be positive"));
    }
    if model.limit.output == 0 {
        return Err(validation_error("Output limit must be positive"));
    }
    if let Some(input) = model.limit.input {
        if input == 0 {
            return Err(validation_error("Input limit must be positive"));
        }
    }
    let reasoning_priced = match &model.cost {
        Some(c) => c.reasoning.is_some(),
        None => false,
    };
    if !model.reasoning && reasoning_priced {
        return Err(validation_error("Cannot set cost.reasoning when reasoning is false"));
    }
    Ok(())
}

/// The id of a model read from file `<stem>.toml` in directory `sub_dir`
/// of a provider's models directory (`sub_dir` empty for a file directly
/// in it, else the subdirectory's path with `/` between its parts): the
/// file's path relative to the models directory, without its extension.
pub open spec fn model_file_id(sub_dir: Seq<char>, stem: Seq<char>) -> Seq<char> {
    if sub_dir.len() == 0 {
        stem
    } else {
        sub_dir + "/"@ + stem
    }
}

/// Builds the id of the model read from file `<stem>.toml` in directory
/// `sub_dir` of the models directory.
pub fn full_model_id(sub_dir: &str, stem: &str) -> (r: String)
    ensures
        r@ == model_file_id(sub_dir@, stem@),
{
    if sub_dir.is_empty() {
        return String::from_str(stem);
    }
    let mut id = String::from_str(sub_dir);
    id.append("/");
    id.append(stem);
    id
}

pub open spec fn interleaved_from(d: Option<InterleavedData>) -> Option<Interleaved> {
    match d {
        Some(InterleavedData::Boolean(b)) => Some(Interleaved::Boolean(b)),
        Some(InterleavedData::Object { field }) => Some(Interleaved::Object { field }),
        None => None,
    }
}

/// `m` carries every field of the model file `d` but its id.
pub open spec fn model_carries(m: Model, d: ModelData) -> bool {
    &&& m.name == d.name
    &&& m.family == d.family
    &&& m.attachment == d.attachment
    &&& m.reasoning == d.reasoning
    &&& m.tool_call == d.tool_call
    &&& m.interleaved == interleaved_from(d.interleaved)
    &&& m.structured_output == d.structured_output
    &&& m.temperature == d.temperature
    &&& m.knowledge == d.knowledge
    &&& m.release_date == d.release_date
    &&& m.last_updated == d.last_updated
    &&& m.modalities == d.modalities
    &&& m.open_weights == d.open_weights
    &&& m.cost == d.cost
    &&& m.limit == d.limit
    &&& m.status == d.status
    &&& m.provider == d.provider
}

/// Turns the contents of model file `<stem>.toml` in directory `sub_dir` of
/// the models directory into a model: the id is set from the file's path,
/// the model rules are checked, and the fields are carried over.
pub fn make_model(sub_dir: &str, stem: &str, data: ModelData) -> (r: Result<Model, Error>)
    ensures
        match r {
            Ok(m) => {
                &&& model_violation(data) is None
                &&& m.id@ == model_file_id(sub_dir@, stem@)
                &&& model_carries(m, data)
            },
            Err(e) => outcome_of(Err(e), model_violation(data)) && model_violation(data) is Some,
        },
{
    let id = full_model_id(sub_dir, stem);
    match validate_model(&data) {
        Ok(()) => {},
        Err(e) => {
            return Err(e);
        },
    }
    let interleaved = match data.interleaved {
        Some(InterleavedData::Boolean(b)) => Some(Interleaved::Boolean(b)),
        Some(InterleavedData::Object { field }) => Some(Interleaved::Object { field }),
        None => None,
    };
    Ok(
        Model {
            id,
            name: data.name,
            family: data.family,
            attachment: data.attachment,
            reasoning: data.reasoning,
            tool_call: data.tool_call,
            interleaved,
            structured_output: data.structured_output,
            temperature: data.temperature,
            knowledge: data.knowledge,
            release_date: data.release_date,
            last_updated: data.last_updated,
            modalities: data.modalities,
            open_weights: data.open_weights,
            cost: data.cost,
            limit: data.limit,
            status: data.status,
            provider: data.provider,
        },
    )
}

/// Keys the models read from a provider's model files by their ids; when
/// two files give the same id, the one read later wins.
pub fn collect_models(models: Vec<Model>) -> (r: ModelMap)
    ensures
        r@ == store_all(models@),
{
    ModelMap::from_models(models)
}

/// Builds a provider from the name of its directory, its `provider.toml`
/// contents and its models.
pub fn build_provider(id: String, data: ProviderData, models: ModelMap) -> (p: Provider)
    ensures
        p.id == id,
        p.name == data.name,
        p.npm == data.npm,
        p.env == data.env,
        p.api == data.api,
        p.doc == data.doc,
        p.models == models,
{
    Provider {
        id,
        name: data.name,
        npm: data.npm,
        env: data.env,
        api: data.api,
        doc: data.doc,
        models,
    }
}

/// Builds the database from the providers read, each added in turn.
pub fn assemble_database(providers: Vec<Provider>) -> (db: Database)
    ensures
        db@ == store_all(providers@),
{
    let ghost all = providers@;
    let mut db = Database::new();
    for p in it: providers.into_iter()
        invariant
            it.seq() == all,
            db@ == store_all(all.take(it.index() as int)),
    {
        proof {
            let i = it.index() as int;
            assert(all.take(i + 1).drop_last() =~= all.take(i));
        }
        db.add_provider(p);
    }
    proof {
        assert(all.take(all.len() as int) =~= all);
    }
    db
}


/// When two model files of a provider give the same id, the model kept
/// under that id is the one read later; no id is kept twice.
pub proof fn law_later_model_file_wins(models: Seq<Model>, id: Seq<char>)
    ensures
        lookup(store_all(models), id) == last_with_key(models, id),
        keys_distinct(store_all(models)),
{
    lemma_store_all_lookup(models, id);
    lemma_store_all_keys_distinct(models);
}

/// In the database built from the providers read, each id names the
/// provider read last under it, and no id is kept twice.
pub proof fn law_assembled_database(providers: Seq<Provider>, id: Seq<char>)
    ensures
        lookup(store_all(providers), id) == last_with_key(providers, id),
        keys_distinct(store_all(providers)),
{
    lemma_store_all_lookup(providers, id);
    lemma_store_all_keys_distinct(providers);
}

/// A model that passes validation has a name, positive context and output
/// limits, no zero input limit, and prices for reasoning only when it reasons.
pub proof fn law_valid_model_shape(m: ModelData)
    requires
        model_violation(m) is None,
    ensures
        m.name@.len() > 0,
        date_accepted(m.release_date@),
        date_accepted(m.last_updated@),
        m.limit.context > 0,
        m.limit.output > 0,
        m.limit.input != Some(0usize),
        has_reasoning_price(m.cost) ==> m.reasoning,
        cost_violation(m.cost) is None,
{
}

/// A provider that passes validation names an API endpoint exactly when its
/// package is the OpenAI-compatible or the OpenRouter one.
pub proof fn law_valid_provider_api(p: ProviderData)
    requires
        provider_violation(p) is None,
    ensures
        p.api is Some <==> (is_openai_compatible_npm(p.npm@) || is_openrouter_npm(p.npm@)),
        p.name@.len() > 0 && p.npm@.len() > 0 && p.doc@.len() > 0,
{
}

/// The price with this bit pattern is zero, positive or not a number: it
/// is not below zero.
pub open spec fn not_below_zero(bits: u64) -> bool {
    bits < 0x8000_0000_0000_0001u64 || 0xFFF0_0000_0000_0000u64 < bits
}

/// A model file is accepted exactly when it has a name; its release,
/// update and (when given) knowledge dates are each accepted by the date
/// pattern, `YYYY-MM` or `YYYY-MM-DD` alike; no price is below zero; its
/// context and output limits and any input limit are positive; and a
/// reasoning price is given only for a reasoning model.
pub proof fn law_model_accepted_exactly(m: ModelData)
    ensures
        (model_violation(m) is None) <==> {
            &&& m.name@.len() > 0
            &&& date_accepted(m.release_date@)
            &&& date_accepted(m.last_updated@)
            &&& (m.knowledge is Some ==> date_accepted(m.knowledge->0@))
            &&& (m.cost is Some ==> {
                let c = m.cost->0;
                &&& not_below_zero(c.input)
                &&& not_below_zero(c.output)
                &&& (c.reasoning is Some ==> not_below_zero(c.reasoning->0))
                &&& (c.cache_read is Some ==> not_below_zero(c.cache_read->0))
                &&& (c.cache_write is Some ==> not_below_zero(c.cache_write->0))
            })
            &&& m.limit.context > 0
            &&& m.limit.output > 0
            &&& (m.limit.input is Some ==> m.limit.input->0 > 0)
            &&& (m.cost is Some && m.cost->0.reasoning is Some ==> m.reasoning)
        },
{
}

/// A provider file is accepted exactly when its name, package and
/// documentation link are not empty (an empty list of environment
/// variables is accepted), and it names an API endpoint exactly when its
/// package is the OpenAI-compatible or the OpenRouter one.
pub proof fn law_provider_accepted_exactly(p: ProviderData)
    ensures
        (provider_violation(p) is None) <==> {
            &&& p.name@.len() > 0
            &&& p.npm@.len() > 0
            &&& p.doc@.len() > 0
            &&& (p.api is Some <==> (p.npm@ == "@ai-sdk/openai-compatible"@ || p.npm@
                == "@openrouter/ai-sdk-provider"@))
        },
{
}

/// A rule check reports success exactly when no rule is broken, and
/// otherwise a validation error carrying the message of the rule broken.
pub proof fn law_outcome_reports(r: Result<(), Error>, v: Option<Seq<char>>)
    requires
        outcome_of(r, v),
    ensures
        r is Ok <==> v is None,
        v is Some ==> (r matches Err(Error::Validation(m)) && m@ == v->0),
{
}

/// Model ids name their files: a file directly in the models directory is
/// named by its stem, one in a subdirectory by the subdirectory, `/` and its
/// stem; so the id ends with the stem, and two files whose stems hold no
/// `/` get the same id only when they are the same file.
pub proof fn law_model_ids_name_files(d1: Seq<char>, s1: Seq<char>, d2: Seq<char>, s2: Seq<char>)
    ensures
        model_file_id(Seq::<char>::empty(), s1) == s1,
        model_file_id(d1, s1).len() >= s1.len(),
        model_file_id(d1, s1).subrange(model_file_id(d1, s1).len() - s1.len(), model_file_id(d1, s1).len() as int)
            == s1,
        d1.len() > 0 ==> model_file_id(d1, s1).take(d1.len() as int) == d1,
        !s1.contains('/') && !s2.contains('/') && model_file_id(d1, s1) == model_file_id(d2, s2) ==> d1 == d2
            && s1 == s2,
{
    reveal_strlit("/");
    let k1 = model_file_id(d1, s1);
    let k2 = model_file_id(d2, s2);
    let n = k1.len();
    assert(k1.subrange(n - s1.len(), n as int) =~= s1);
    if d1.len() > 0 {
        assert(k1.take(d1.len() as int) =~= d1);
    }
    if !s1.contains('/') && !s2.contains('/') && k1 == k2 {
        assert(k2.subrange(n - s2.len(), n as int) =~= s2);
        if d1.len() > 0 {
            assert(k1[n - s1.len() - 1] == '/');
        }
        if d2.len() > 0 {
            assert(k2[n - s2.len() - 1] == '/');
        }
        if s1.len() < s2.len() {
            if d1.len() > 0 {
                assert(s2[s2.len() - s1.len() - 1] == k2[n - s1.len() - 1]);
                assert(s2.contains('/'));
            } else {
                assert(false);
            }
        } else if s2.len() < s1.len() {
            if d2.len() > 0 {
                assert(s1[s1.len() - s2.len() - 1] == k1[n - s2.len() - 1]);
                assert(s1.contains('/'));
            } else {
                assert(false);
            }
        } else {
            assert(s1 == s2);
            if d1.len() > 0 && d2.len() > 0 {
                assert(k1.take(d1.len() as int) =~= d1);
                assert(k2.take(d2.len() as int) =~= d2);
            } else if d1.len() > 0 {
                assert(false);
            } else if d2.len() > 0 {
                assert(false);
            }
        }
    }
}

} // verus!
