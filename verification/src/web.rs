use vstd::prelude::*;
use crate::database::all_models_of;
use crate::engine::{
    Criterion, Engine, capability_named, entries_hold_models, law_family_search_exact, law_modality_search_lists,
    law_text_search_fields, lemma_select_nothing, modality_named, models_view, select,
};
use crate::error::Error;
use crate::models::Model;
use crate::paging::{take_window, window};
use crate::text::{contains_seq, unicode_lowercase};

verus! {

/// Settings of the web server.
pub struct Config {
    pub bind_address: String,
    pub port: u16,
    pub static_dir: Option<String>,
    pub providers_dir: String,
    pub log_level: String,
}

impl Default for Config {
    fn default() -> (c: Self)
        ensures
            c.bind_address@ == "0.0.0.0"@,
            c.port == 3000,
            c.static_dir is None,
            c.providers_dir@ == "providers"@,
            c.log_level@ == "info"@,
    {
        Config {
            bind_address: String::from_str("0.0.0.0"),
            port: 3000,
            static_dir: None,
            providers_dir: String::from_str("providers"),
            log_level: String::from_str("info"),
        }
    }
}

/// The query string of a model search over HTTP.
pub struct SearchQuery {
    pub q: Option<String>,
    pub family: Option<String>,
    pub capability: Option<String>,
    pub modality: Option<String>,
    pub limit: Option<usize>,
    pub offset: Option<usize>,
}

/// The body of an error answer.
pub struct ErrorResponse {
    pub error: String,
    pub message: String,
}

/// Which models a web search asks for, before paging: `None` asks for all.
/// The first given of `q`, `family`, `capability`, `modality` decides.
pub open spec fn web_criterion(q: SearchQuery) -> Option<Criterion> {
    match (q.q, q.family, q.capability, q.modality) {
        (Some(text), _, _, _) => Some(Criterion::Text(unicode_lowercase(text@))),
        (None, Some(f), _, _) => Some(Criterion::Family(f@)),
        (None, None, Some(c), _) => Some(
            match capability_named(c@) {
                Some(cap) => Criterion::Capability(cap),
                None => Criterion::Nothing,
            },
        ),
        (None, None, None, Some(m)) => Some(
            match modality_named(m@) {
                Some(md) => Criterion::Modality(md),
                None => Criterion::Nothing,
            },
        ),
        (None, None, None, None) => None,
    }
}

pub open spec fn option_or(x: Option<usize>, d: nat) -> nat {
    match x {
        Some(v) => v as nat,
        None => d,
    }
}

/// The models a web search answers with: those asked for, in database
/// order, at most `limit` (100 when absent) after skipping `offset` (0 when absent).
pub open spec fn web_search_result(ms: Seq<Model>, q: SearchQuery) -> Seq<Model> {
    let chosen = match web_criterion(q) {
        Some(c) => select(ms, c),
        None => ms,
    };
    window(chosen, option_or(q.offset, 0), option_or(q.limit, 100))
}

impl Engine {
    /// Every model of the database, in database order.
    pub fn all_model_refs(&self) -> (r: Vec<&Model>)
        ensures
            models_view(r@) == all_models_of(self.database@),
    {
        let entries = self.database.all_models();
        let ghost ms = all_models_of(self.database@);
        let mut r: Vec<&Model> = Vec::new();
        let mut i: usize = 0;
        while i < entries.len()
            invariant
                ms == all_models_of(self.database@),
                entries_hold_models(entries@, self.database@),
                i <= entries.len(),
                models_view(r@) == ms.take(i as int),
            decreases entries.len() - i,
        {
            let m = entries[i].2;
            let ghost before = r@;
            r.push(m);
            proof {
                assert(*entries@[i as int].2 == ms[i as int]);
                assert(models_view(r@) =~= models_view(before).push(*m));
                assert(ms.take(i + 1) =~= ms.take(i as int).push(ms[i as int]));
            }
            i = i + 1;
        }
        proof {
            assert(ms.take(ms.len() as int) =~= ms);
        }
        r
    }
}

proof fn lemma_view_window(v: Seq<&Model>, offset: nat, limit: nat)
    ensures
        models_view(window(v, offset, limit)) == window(models_view(v), offset, limit),
{
    assert(models_view(window(v, offset, limit)) =~= window(models_view(v), offset, limit));
}

/// Answers a model search made over HTTP.
pub fn search_page<'a>(engine: &'a Engine, query: &SearchQuery) -> (r: Vec<&'a Model>)
    ensures
        models_view(r@) == web_search_result(all_models_of(engine.database@), *query),
{
    let chosen = if let Some(text) = &query.q {
        engine.search_models(text.as_str())
    } else if let Some(family) = &query.family {
        engine.get_models_by_family(family.as_str())
    } else if let Some(capability) = &query.capability {
        engine.get_models_by_capability(capability.as_str())
    } else if let Some(modality) = &query.modality {
        engine.get_models_by_modality(modality.as_str())
    } else {
        engine.all_model_refs()
    };
    let limit = match query.limit {
        Some(l) => l,
        None => 100,
    };
    let offset = match query.offset {
        Some(o) => o,
        None => 0,
    };
    let r = take_window(&chosen, offset, limit);
    proof {
        lemma_view_window(chosen@, offset as nat, limit as nat);
    }
    r
}

/// The HTTP status for an error met while answering for a provider:
/// 404 when the provider is unknown, 500 otherwise.
pub fn provider_error_status(e: &Error) -> (status: u16)
    ensures
        status == (if e is ProviderNotFound { 404u16 } else { 500u16 }),
{
    match e {
        Error::ProviderNotFound(_) => 404,
        _ => 500,
    }
}

/// The HTTP status for an error met while answering for a model:
/// 404 when the model or its provider is unknown, 500 otherwise.
pub fn model_error_status(e: &Error) -> (status: u16)
    ensures
        status == (if e is ModelNotFound || e is ProviderNotFound { 404u16 } else { 500u16 }),
{
    match e {
        Error::ModelNotFound(_) => 404,
        Error::ProviderNotFound(_) => 404,
        _ => 500,
    }
}

/// The answer to an error raised while answering for a provider: its
/// status and a body with code `provider_error` and the error's text.
pub fn provider_error_response(e: &Error, message: String) -> (r: (u16, ErrorResponse))
    ensures
        r.0 == (if e is ProviderNotFound { 404u16 } else { 500u16 }),
        r.1.error@ == "provider_error"@,
        r.1.message == message,
{
    (provider_error_status(e), ErrorResponse { error: String::from_str("provider_error"), message })
}

/// The answer to an error raised while answering for a model: its status
/// and a body with code `model_error` and the error's text.
pub fn model_error_response(e: &Error, message: String) -> (r: (u16, ErrorResponse))
    ensures
        r.0 == (if e is ModelNotFound || e is ProviderNotFound { 404u16 } else { 500u16 }),
        r.1.error@ == "model_error"@,
        r.1.message == message,
{
    (model_error_status(e), ErrorResponse { error: String::from_str("model_error"), message })
}

/// The answer to an internal error: status 500 with a fixed body that does
/// not reveal `err`.
pub fn make_error_response(err: String) -> (r: (u16, ErrorResponse))
    ensures
        r.0 == 500,
        r.1.error@ == "internal_error"@,
        r.1.message@ == "An internal error occurred"@,
{
    (
        500,
        ErrorResponse {
            error: String::from_str("internal_error"),
            message: String::from_str("An internal error occurred"),
        },
    )
}

/// The answer when no logo can be found for a provider.
pub fn logo_not_found() -> (r: (u16, ErrorResponse))
    ensures
        r.0 == 404,
        r.1.error@ == "logo_not_found"@,
        r.1.message@ == "Logo not found"@,
{
    (
        404,
        ErrorResponse {
            error: String::from_str("logo_not_found"),
            message: String::from_str("Logo not found"),
        },
    )
}

/// The answer when a provider's logo cannot be read.
pub fn logo_read_error() -> (r: (u16, ErrorResponse))
    ensures
        r.0 == 500,
        r.1.error@ == "logo_read_error"@,
        r.1.message@ == "Failed to read logo file"@,
{
    (
        500,
        ErrorResponse {
            error: String::from_str("logo_read_error"),
            message: String::from_str("Failed to read logo file"),
        },
    )
}

/// A web search answers one page of the models asked for, in database
/// order: with a text `q`, the models whose lower-cased name, id or family
/// contains the lower-cased `q`; else with a `family`, the models of that
/// family; else with a `capability` or a `modality`, the models that have it
/// (none for an unknown name; a modality counts as input or as output);
/// else every model. The page skips `offset` models (0 when absent) and
/// holds at most `limit` (100 when absent).
pub proof fn law_web_search_answers(ms: Seq<Model>, query: SearchQuery)
    ensures
        ({
            let off = option_or(query.offset, 0);
            let lim = option_or(query.limit, 100);
            let answer = web_search_result(ms, query);
            &&& query.q is Some ==> {
                let t = unicode_lowercase(query.q->0@);
                answer == window(
                    ms.filter(
                        (|m: Model|
                            contains_seq(unicode_lowercase(m.name@), t) || contains_seq(
                                unicode_lowercase(m.id@),
                                t,
                            ) || (m.family is Some && contains_seq(unicode_lowercase(m.family->0@), t))),
                    ),
                    off,
                    lim,
                )
            }
            &&& query.q is None && query.family is Some ==> {
                let family = query.family->0@;
                answer == window(ms.filter((|m: Model| m.family is Some && m.family->0@ == family)), off, lim)
            }
            &&& query.q is None && query.family is None && query.capability is Some
                && capability_named(query.capability->0@) is None ==> answer.len() == 0
            &&& query.q is None && query.family is None && query.capability is None && query.modality is Some
                ==> match modality_named(query.modality->0@) {
                Some(md) => answer == window(
                    ms.filter(
                        (|m: Model| m.modalities.input@.contains(md) || m.modalities.output@.contains(md)),
                    ),
                    off,
                    lim,
                ),
                None => answer.len() == 0,
            }
            &&& query.q is None && query.family is None && query.capability is None && query.modality is None
                ==> answer == window(ms, off, lim)
            &&& answer.len() <= lim
        }),
{
    lemma_select_nothing(ms);
    if query.q is Some {
        law_text_search_fields(ms, unicode_lowercase(query.q->0@));
    } else if query.family is Some {
        law_family_search_exact(ms, query.family->0@);
    } else if query.capability is None && query.modality is Some {
        if let Some(md) = modality_named(query.modality->0@) {
            law_modality_search_lists(ms, md);
        }
    }
}

/// Two web searches whose texts have the same lower-case form, with the
/// same paging, answer the same models: the text is matched ignoring case.
pub proof fn law_web_search_ignores_case(ms: Seq<Model>, q1: SearchQuery, q2: SearchQuery)
    requires
        q1.q is Some,
        q2.q is Some,
        unicode_lowercase(q1.q->0@) == unicode_lowercase(q2.q->0@),
        q1.offset == q2.offset,
        q1.limit == q2.limit,
    ensures
        web_search_result(ms, q1) == web_search_result(ms, q2),
{
    law_text_search_fields(ms, unicode_lowercase(q1.q->0@));
    law_text_search_fields(ms, unicode_lowercase(q2.q->0@));
}

} // verus!
