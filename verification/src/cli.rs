use vstd::prelude::*;
use crate::database::all_models_of;
use crate::engine::{
    Criterion, Engine, capability_named, is_subsequence, law_family_search_exact, law_modality_search_lists,
    law_text_search_fields, lemma_select_nothing, modality_named, models_view, select,
};
use crate::models::Model;
use crate::paging::{take_window, window};
use crate::text::{contains_seq, same_text, unicode_lowercase};

verus! {

/// The commands of the command-line tool.
pub enum Commands {
    /// Start the web server.
    Serve { bind: String, port: u16, providers: String, static_dir: Option<String> },
    /// Validate the model database.
    Validate { providers: String, detailed: bool },
    /// Generate statistics about the database.
    Stats { providers: String, format: String },
    /// Search for models.
    Search {
        query: String,
        providers: String,
        family: Option<String>,
        capability: Option<String>,
        modality: Option<String>,
        limit: usize,
    },
    /// Export the database to JSON.
    Export { output: Option<String>, providers: String, pretty: bool },
    /// Generate the model schema.
    Schema { output: Option<String> },
}

/// `parts` joined with `sep` between neighbours.
pub open spec fn join(parts: Seq<Seq<char>>, sep: Seq<char>) -> Seq<char>
    decreases parts.len(),
{
    if parts.len() == 0 {
        Seq::empty()
    } else if parts.len() == 1 {
        parts[0]
    } else {
        join(parts.drop_last(), sep) + sep + parts.last()
    }
}

pub open spec fn push_if(parts: Seq<Seq<char>>, flag: bool, name: Seq<char>) -> Seq<Seq<char>> {
    if flag {
        parts.push(name)
    } else {
        parts
    }
}

/// The names of the capabilities a model has, as the tool lists them.
pub open spec fn capability_names(m: Model) -> Seq<Seq<char>> {
    let p0 = Seq::<Seq<char>>::empty();
    let p1 = push_if(p0, m.reasoning, "reasoning"@);
    let p2 = push_if(p1, m.tool_call, "tool_call"@);
    let p3 = push_if(p2, m.attachment, "attachment"@);
    push_if(p3, m.structured_output == Some(true), "structured_output"@)
}

fn append_part(out: &mut String, parts: Ghost<Seq<Seq<char>>>, some: bool, flag: bool, name: &str) -> (r: bool)
    requires
        old(out)@ == join(parts@, ", "@),
        some == (parts@.len() > 0),
    ensures
        final(out)@ == join(push_if(parts@, flag, name@), ", "@),
        r == (push_if(parts@, flag, name@).len() > 0),
{
    if flag {
        if some {
            out.append(", ");
        }
        out.append(name);
        proof {
            assert(push_if(parts@, flag, name@).drop_last() =~= parts@);
        }
        true
    } else {
        some
    }
}

/// The capabilities of a model, joined with `, `.
pub fn format_capabilities(model: &Model) -> (r: String)
    ensures
        r@ == join(capability_names(*model), ", "@),
{
    let mut out = String::new();
    let ghost p0 = Seq::<Seq<char>>::empty();
    let ghost p1 = push_if(p0, model.reasoning, "reasoning"@);
    let ghost p2 = push_if(p1, model.tool_call, "tool_call"@);
    let ghost p3 = push_if(p2, model.attachment, "attachment"@);
    let structured = match model.structured_output {
        Some(b) => b,
        None => false,
    };
    proof {
        assert(out@ == join(p0, ", "@));
    }
    let some = append_part(&mut out, Ghost(p0), false, model.reasoning, "reasoning");
    let some = append_part(&mut out, Ghost(p1), some, model.tool_call, "tool_call");
    let some = append_part(&mut out, Ghost(p2), some, model.attachment, "attachment");
    let _ = append_part(&mut out, Ghost(p3), some, structured, "structured_output");
    out
}

/// Which models a search of the tool asks for: the first given of
/// `family`, `capability`, `modality` decides; without any, the query text.
pub open spec fn cli_criterion(
    query: Seq<char>,
    family: Option<String>,
    capability: Option<String>,
    modality: Option<String>,
) -> Criterion {
    match (family, capability, modality) {
        (Some(f), _, _) => Criterion::Family(f@),
        (None, Some(c), _) => match capability_named(c@) {
            Some(cap) => Criterion::Capability(cap),
            None => Criterion::Nothing,
        },
        (None, None, Some(m)) => match modality_named(m@) {
            Some(md) => Criterion::Modality(md),
            None => Criterion::Nothing,
        },
        (None, None, None) => Criterion::Text(unicode_lowercase(query)),
    }
}

/// The models a search of the tool shows: the first `limit` of those asked for.
pub fn cli_search<'a>(
    engine: &'a Engine,
    query: &str,
    family: &Option<String>,
    capability: &Option<String>,
    modality: &Option<String>,
    limit: usize,
) -> (r: Vec<&'a Model>)
    ensures
        models_view(r@) == window(
            select(all_models_of(engine.database@), cli_criterion(query@, *family, *capability, *modality)),
            0,
            limit as nat,
        ),
{
    let chosen = if let Some(f) = family {
        engine.get_models_by_family(f.as_str())
    } else if let Some(c) = capability {
        engine.get_models_by_capability(c.as_str())
    } else if let Some(m) = modality {
        engine.get_models_by_modality(m.as_str())
    } else {
        engine.search_models(query)
    };
    let r = take_window(&chosen, 0, limit);
    proof {
        assert(models_view(window(chosen@, 0, limit as nat)) =~= window(models_view(chosen@), 0, limit as nat));
    }
    r
}

/// How the tool prints statistics.
#[derive(Debug, Clone, Copy, PartialEq, Eq, Structural)]
pub enum StatsFormat {
    Json,
    Table,
}

/// The format asked for, and whether the name was unknown (the table is
/// then used and a warning given).
pub fn choose_stats_format(format: &str) -> (r: (StatsFormat, bool))
    ensures
        r == (if format@ == "json"@ {
            (StatsFormat::Json, false)
        } else if format@ == "table"@ {
            (StatsFormat::Table, false)
        } else {
            (StatsFormat::Table, true)
        }),
{
    if same_text(format, "json") {
        (StatsFormat::Json, false)
    } else if same_text(format, "table") {
        (StatsFormat::Table, false)
    } else {
        (StatsFormat::Table, true)
    }
}

/// A search of the tool shows the first `limit` of the models asked for, in
/// database order: with a `family`, the models of that family; else with a
/// `capability` or a `modality`, the models that have it (none for an
/// unknown name; a modality counts as input or as output); else the models
/// whose lower-cased name, id or family contains the lower-cased query.
pub proof fn law_cli_search_answers(
    ms: Seq<Model>,
    query: Seq<char>,
    family: Option<String>,
    capability: Option<String>,
    modality: Option<String>,
    limit: nat,
)
    ensures
        ({
            let shown = window(select(ms, cli_criterion(query, family, capability, modality)), 0, limit);
            &&& family is Some ==> {
                let fam = family->0@;
                shown == window(ms.filter((|m: Model| m.family is Some && m.family->0@ == fam)), 0, limit)
            }
            &&& family is None && capability is Some && capability_named(capability->0@) is None ==> shown.len()
                == 0
            &&& family is None && capability is None && modality is Some ==> match modality_named(
                modality->0@,
            ) {
                Some(md) => shown == window(
                    ms.filter(
                        (|m: Model| m.modalities.input@.contains(md) || m.modalities.output@.contains(md)),
                    ),
                    0,
                    limit,
                ),
                None => shown.len() == 0,
            }
            &&& family is None && capability is None && modality is None ==> {
                let t = unicode_lowercase(query);
                shown == window(
                    ms.filter(
                        (|m: Model|
                            contains_seq(unicode_lowercase(m.name@), t) || contains_seq(
                                unicode_lowercase(m.id@),
                                t,
                            ) || (m.family is Some && contains_seq(unicode_lowercase(m.family->0@), t))),
                    ),
                    0,
                    limit,
                )
            }
            &&& shown.len() <= limit
        }),
{
    lemma_select_nothing(ms);
    if family is Some {
        law_family_search_exact(ms, family->0@);
    } else if capability is None && modality is Some {
        if let Some(md) = modality_named(modality->0@) {
            law_modality_search_lists(ms, md);
        }
    } else if capability is None {
        law_text_search_fields(ms, unicode_lowercase(query));
    }
}

/// Two searches of the tool for query texts with the same lower-case form
/// show the same models.
pub proof fn law_cli_search_ignores_case(ms: Seq<Model>, q1: Seq<char>, q2: Seq<char>, limit: nat)
    requires
        unicode_lowercase(q1) == unicode_lowercase(q2),
    ensures
        window(select(ms, cli_criterion(q1, None, None, None)), 0, limit) == window(
            select(ms, cli_criterion(q2, None, None, None)),
            0,
            limit,
        ),
{
    law_text_search_fields(ms, unicode_lowercase(q1));
    law_text_search_fields(ms, unicode_lowercase(q2));
}

/// The tool lists a capability of a model exactly when the model has it
/// (structured output only when set to `true`), never temperature, each
/// once and in the order reasoning, tool calls, attachments, structured
/// output.
pub proof fn law_capability_names_listed(m: Model)
    ensures
        capability_names(m).contains("reasoning"@) <==> m.reasoning,
        capability_names(m).contains("tool_call"@) <==> m.tool_call,
        capability_names(m).contains("attachment"@) <==> m.attachment,
        capability_names(m).contains("structured_output"@) <==> m.structured_output == Some(true),
        !capability_names(m).contains("temperature"@),
        capability_names(m).len() == (if m.reasoning { 1int } else { 0int }) + (if m.tool_call { 1int } else { 0int })
            + (if m.attachment { 1int } else { 0int }) + (if m.structured_output == Some(true) { 1int } else { 0int }),
        is_subsequence(capability_names(m), seq!["reasoning"@, "tool_call"@, "attachment"@, "structured_output"@]),
{
    reveal_strlit("reasoning");
    reveal_strlit("tool_call");
    reveal_strlit("attachment");
    reveal_strlit("structured_output");
    reveal_strlit("temperature");
    let r = "reasoning"@;
    let t = "tool_call"@;
    let a = "attachment"@;
    let so = "structured_output"@;
    let te = "temperature"@;
    assert(r[0] != t[0] && r[0] != a[0] && r[0] != so[0] && r[0] != te[0]);
    assert(t[0] != a[0] && t[0] != so[0] && t[1] != te[1]);
    assert(a[0] != so[0] && a[0] != te[0]);
    assert(so[0] != te[0]);
    let p0 = Seq::<Seq<char>>::empty();
    let p1 = push_if(p0, m.reasoning, r);
    let p2 = push_if(p1, m.tool_call, t);
    let p3 = push_if(p2, m.attachment, a);
    let p4 = push_if(p3, m.structured_output == Some(true), so);
    assert(p4 == capability_names(m));
    let all = seq![r, t, a, so];
    assert(all.drop_last() =~= seq![r, t, a]);
    assert(all.drop_last().drop_last() =~= seq![r, t]);
    assert(all.drop_last().drop_last().drop_last() =~= seq![r]);
    assert(all.drop_last().drop_last().drop_last().drop_last() =~= Seq::<Seq<char>>::empty());
    assert(is_subsequence(p0, Seq::<Seq<char>>::empty()));
    assert(is_subsequence(p1, seq![r]));
    if m.tool_call {
        assert(p2.drop_last() =~= p1);
    }
    assert(is_subsequence(p2, seq![r, t]));
    if m.attachment {
        assert(p3.drop_last() =~= p2);
    }
    assert(is_subsequence(p3, seq![r, t, a]));
    if m.structured_output == Some(true) {
        assert(p4.drop_last() =~= p3);
    }
    assert(is_subsequence(p4, all));
    assert(p4.contains(r) ==> m.reasoning);
    assert(p4.contains(t) ==> m.tool_call);
    assert(p4.contains(a) ==> m.attachment);
    assert(p4.contains(so) ==> m.structured_output == Some(true));
    if m.reasoning {
        assert(p4[0] == r);
    }
}

/// Joining puts the separator between neighbours only: no parts give the
/// empty text, one part gives itself, and one more part adds the separator
/// and that part at the end.
pub proof fn law_join_parts(parts: Seq<Seq<char>>, x: Seq<char>, sep: Seq<char>)
    ensures
        join(Seq::<Seq<char>>::empty(), sep) == Seq::<char>::empty(),
        join(seq![x], sep) == x,
        parts.len() > 0 ==> join(parts.push(x), sep) == join(parts, sep) + sep + x,
{
    assert(parts.push(x).drop_last() =~= parts);
}

} // verus!
