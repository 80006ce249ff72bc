use vstd::prelude::*;
use crate::database::{Database, all_entries, all_models_of, lookup_model};
use crate::error::Error;
use crate::models::{Modality, Model, Provider, lookup};
use crate::text::{
    all_ascii, ascii_lower_char, ascii_lowercase, ascii_uppercase, contains, contains_seq, occurs_at, same_text,
    to_lowercase, unicode_lowercase,
};

verus! {

/// A capability flag of a model that can be searched for.
#[derive(Debug, Clone, Copy, PartialEq, Eq, Structural)]
pub enum Capability {
    Reasoning,
    ToolCall,
    Attachment,
    StructuredOutput,
    Temperature,
}

/// A condition on models.
pub enum ModelFilter {
    /// The name, id or family, in lower case, contains this (lower-case) text.
    Text(String),
    /// The family is exactly this.
    Family(String),
    /// The model has this capability.
    Capability(Capability),
    /// The model reads or writes this kind of content.
    Modality(Modality),
    /// No model.
    Nothing,
}

pub open spec fn has_capability(m: Model, c: Capability) -> bool {
    match c {
        Capability::Reasoning => m.reasoning,
        Capability::ToolCall => m.tool_call,
        Capability::Attachment => m.attachment,
        Capability::StructuredOutput => m.structured_output == Some(true),
        Capability::Temperature => m.temperature == Some(true),
    }
}

pub open spec fn text_matches(m: Model, q: Seq<char>) -> bool {
    ||| contains_seq(unicode_lowercase(m.name@), q)
    ||| contains_seq(unicode_lowercase(m.id@), q)
    ||| (m.family matches Some(f) && contains_seq(unicode_lowercase(f@), q))
}

pub open spec fn family_is(m: Model, family: Seq<char>) -> bool {
    m.family matches Some(f) && f@ == family
}

pub open spec fn uses_modality(m: Model, md: Modality) -> bool {
    m.modalities.input@.contains(md) || m.modalities.output@.contains(md)
}

/// A condition on models, over plain values.
pub enum Criterion {
    Text(Seq<char>),
    Family(Seq<char>),
    Capability(Capability),
    Modality(Modality),
    Nothing,
}

impl View for ModelFilter {
    type V = Criterion;

    open spec fn view(&self) -> Criterion {
        match self {
            ModelFilter::Text(q) => Criterion::Text(q@),
            ModelFilter::Family(f) => Criterion::Family(f@),
            ModelFilter::Capability(c) => Criterion::Capability(*c),
            ModelFilter::Modality(md) => Criterion::Modality(*md),
            ModelFilter::Nothing => Criterion::Nothing,
        }
    }
}

/// Whether model `m` meets condition `f`.
pub open spec fn filter_holds(m: Model, f: Criterion) -> bool {
    match f {
        Criterion::Text(q) => text_matches(m, q),
        Criterion::Family(family) => family_is(m, family),
        Criterion::Capability(c) => has_capability(m, c),
        Criterion::Modality(md) => uses_modality(m, md),
        Criterion::Nothing => false,
    }
}

/// The models of `ms` that meet `f`, in their order.
pub open spec fn select(ms: Seq<Model>, f: Criterion) -> Seq<Model>
    decreases ms.len(),
{
    if ms.len() == 0 {
        Seq::empty()
    } else if filter_holds(ms.last(), f) {
        select(ms.drop_last(), f).push(ms.last())
    } else {
        select(ms.drop_last(), f)
    }
}

/// The models that a sequence of model references points to.
pub open spec fn models_view(v: Seq<&Model>) -> Seq<Model> {
    v.map_values(|m: &Model| *m)
}

/// The capability a search names, if any.
pub open spec fn capability_named(s: Seq<char>) -> Option<Capability> {
    if s == "reasoning"@ {
        Some(Capability::Reasoning)
    } else if s == "tool_call"@ {
        Some(Capability::ToolCall)
    } else if s == "attachment"@ {
        Some(Capability::Attachment)
    } else if s == "structured_output"@ {
        Some(Capability::StructuredOutput)
    } else if s == "temperature"@ {
        Some(Capability::Temperature)
    } else {
        None
    }
}

/// The modality a search names, if any.
pub open spec fn modality_named(s: Seq<char>) -> Option<Modality> {
    if s == "text"@ {
        Some(Modality::Text)
    } else if s == "image"@ {
        Some(Modality::Image)
    } else if s == "audio"@ {
        Some(Modality::Audio)
    } else if s == "video"@ {
        Some(Modality::Video)
    } else if s == "pdf"@ {
        Some(Modality::Pdf)
    } else {
        None
    }
}

/// Reads a capability name.
pub fn parse_capability(s: &str) -> (r: Option<Capability>)
    ensures
        r == capability_named(s@),
{
    if same_text(s, "reasoning") {
        Some(Capability::Reasoning)
    } else if same_text(s, "tool_call") {
        Some(Capability::ToolCall)
    } else if same_text(s, "attachment") {
        Some(Capability::Attachment)
    } else if same_text(s, "structured_output") {
        Some(Capability::StructuredOutput)
    } else if same_text(s, "temperature") {
        Some(Capability::Temperature)
    } else {
        None
    }
}

/// Reads a modality name.
pub fn parse_modality(s: &str) -> (r: Option<Modality>)
    ensures
        r == modality_named(s@),
{
    if same_text(s, "text") {
        Some(Modality::Text)
    } else if same_text(s, "image") {
        Some(Modality::Image)
    } else if same_text(s, "audio") {
        Some(Modality::Audio)
    } else if same_text(s, "video") {
        Some(Modality::Video)
    } else if same_text(s, "pdf") {
        Some(Modality::Pdf)
    } else {
        None
    }
}

fn holds_modality(list: &Vec<Modality>, md: Modality) -> (r: bool)
    ensures
        r == list@.contains(md),
{
    let mut i: usize = 0;
    while i < list.len()
        invariant
            i <= list.len(),
            forall|k: int| 0 <= k < i ==> list@[k] != md,
        decreases list.len() - i,
    {
        if list[i] == md {
            return true;
        }
        i = i + 1;
    }
    false
}

/// Whether model `m` meets condition `f`.
pub fn model_matches(m: &Model, f: &ModelFilter) -> (r: bool)
    ensures
        r == filter_holds(*m, f@),
{
    match f {
        ModelFilter::Text(q) => {
            let name = to_lowercase(m.name.as_str());
            if contains(name.as_str(), q.as_str()) {
                return true;
            }
            let id = to_lowercase(m.id.as_str());
            if contains(id.as_str(), q.as_str()) {
                return true;
            }
            match &m.family {
                Some(family) => {
                    let fl = to_lowercase(family.as_str());
                    contains(fl.as_str(), q.as_str())
                },
                None => false,
            }
        },
        ModelFilter::Family(family) => match &m.family {
            Some(x) => same_text(x.as_str(), family.as_str()),
            None => false,
        },
        ModelFilter::Capability(c) => match c {
            Capability::Reasoning => m.reasoning,
            Capability::ToolCall => m.tool_call,
            Capability::Attachment => m.attachment,
            Capability::StructuredOutput => match m.structured_output {
                Some(b) => b,
                None => false,
            },
            Capability::Temperature => match m.temperature {
                Some(b) => b,
                None => false,
            },
        },
        ModelFilter::Modality(md) => holds_modality(&m.modalities.input, *md)
            || holds_modality(&m.modalities.output, *md),
        ModelFilter::Nothing => false,
    }
}

pub proof fn lemma_take_step<A>(s: Seq<A>, i: int)
    requires
        0 <= i < s.len(),
    ensures
        s.take(i + 1).drop_last() == s.take(i),
        s.take(i + 1).last() == s[i],
{
    assert(s.take(i + 1).drop_last() =~= s.take(i));
}

/// `entries` lists, position by position, the models of the providers `ps`.
pub open spec fn entries_hold_models(
    entries: Seq<(&String, &String, &Model)>,
    ps: Seq<Provider>,
) -> bool {
    &&& entries.len() == all_models_of(ps).len()
    &&& forall|i: int|
        0 <= i < entries.len() ==> *(#[trigger] entries[i]).2 == all_models_of(ps)[i]
}

/// The search engine over a loaded database.
pub struct Engine {
    pub database: Database,
}

impl Engine {
    /// An engine over an empty database.
    pub fn new() -> (e: Engine)
        ensures
            e.database@ == Seq::<Provider>::empty(),
    {
        Engine { database: Database::new() }
    }

    /// Makes `database` the one the engine answers from.
    pub fn load_database(&mut self, database: Database)
        ensures
            final(self).database == database,
    {
        self.database = database;
    }

    /// The database the engine answers from.
    pub fn get_database(&self) -> (db: &Database)
        ensures
            *db == self.database,
    {
        &self.database
    }

    fn entries(&self) -> (r: Vec<(&String, &String, &Model)>)
        ensures
            r@.len() == all_entries(self.database@).len(),
            entries_hold_models(r@, self.database@),
            forall|i: int|
                0 <= i < r@.len() ==> {
                    &&& (#[trigger] r@[i]).0@ == all_entries(self.database@)[i].0
                    &&& r@[i].1@ == all_entries(self.database@)[i].1.id@
                },
    {
        self.database.all_models()
    }

    /// The models of the database that meet `f`, in database order.
    pub fn select_models(&self, f: &ModelFilter) -> (r: Vec<&Model>)
        ensures
            models_view(r@) == select(all_models_of(self.database@), f@),
    {
        let ghost ms = all_models_of(self.database@);
        let entries = self.entries();
        let mut r: Vec<&Model> = Vec::new();
        let mut i: usize = 0;
        while i < entries.len()
            invariant
                ms == all_models_of(self.database@),
                entries_hold_models(entries@, self.database@),
                i <= entries.len(),
                models_view(r@) == select(ms.take(i as int), f@),
            decreases entries.len() - i,
        {
            let m = entries[i].2;
            proof {
                lemma_take_step(ms, i as int);
                assert(*entries@[i as int].2 == ms[i as int]);
            }
            let ghost before = r@;
            if model_matches(m, f) {
                r.push(m);
                proof {
                    assert(models_view(r@) =~= models_view(before).push(*m));
                }
            }
            i = i + 1;
        }
        proof {
            assert(ms.take(ms.len() as int) =~= ms);
        }
        r
    }

    /// The models whose name, id or family contains `query`, ignoring case.
    pub fn search_models(&self, query: &str) -> (r: Vec<&Model>)
        ensures
            models_view(r@) == select(
                all_models_of(self.database@),
                Criterion::Text(unicode_lowercase(query@)),
            ),
            all_ascii(query@) ==> models_view(r@) == select(
                all_models_of(self.database@),
                Criterion::Text(ascii_lowercase(query@)),
            ),
    {
        let q = to_lowercase(query);
        let f = ModelFilter::Text(q);
        self.select_models(&f)
    }

    /// The models of the given family.
    pub fn get_models_by_family(&self, family: &str) -> (r: Vec<&Model>)
        ensures
            models_view(r@) == select(
                all_models_of(self.database@),
                Criterion::Family(family@),
            ),
    {
        let f = ModelFilter::Family(String::from_str(family));
        self.select_models(&f)
    }

    /// The models with the named capability (none for an unknown name).
    pub fn get_models_by_capability(&self, capability: &str) -> (r: Vec<&Model>)
        ensures
            match capability_named(capability@) {
                Some(c) => models_view(r@) == select(
                    all_models_of(self.database@),
                    Criterion::Capability(c),
                ),
                None => r@.len() == 0 && models_view(r@) == select(all_models_of(self.database@), Criterion::Nothing),
            },
    {
        match parse_capability(capability) {
            Some(c) => self.select_models(&ModelFilter::Capability(c)),
            None => {
                let f = ModelFilter::Nothing;
                let r = self.select_models(&f);
                proof {
                    lemma_select_nothing(all_models_of(self.database@));
                }
                r
            },
        }
    }

    /// The models that read or write the named modality (none for an
    /// unknown name).
    pub fn get_models_by_modality(&self, modality: &str) -> (r: Vec<&Model>)
        ensures
            match modality_named(modality@) {
                Some(md) => models_view(r@) == select(
                    all_models_of(self.database@),
                    Criterion::Modality(md),
                ),
                None => r@.len() == 0 && models_view(r@) == select(all_models_of(self.database@), Criterion::Nothing),
            },
    {
        match parse_modality(modality) {
            Some(md) => self.select_models(&ModelFilter::Modality(md)),
            None => {
                let r = self.select_models(&ModelFilter::Nothing);
                proof {
                    lemma_select_nothing(all_models_of(self.database@));
                }
                r
            },
        }
    }

    /// The ids `<provider id>/<model id>` of every model, in database order.
    pub fn get_all_model_ids(&self) -> (r: Vec<String>)
        ensures
            r@.len() == all_entries(self.database@).len(),
            forall|i: int|
                0 <= i < r@.len() ==> (#[trigger] r@[i])@ == all_entries(self.database@)[i].0
                    + "/"@ + all_entries(self.database@)[i].1.id@,
    {
        let entries = self.entries();
        let mut r: Vec<String> = Vec::new();
        let mut i: usize = 0;
        while i < entries.len()
            invariant
                r@.len() == i,
                i <= entries.len(),
                entries@.len() == all_entries(self.database@).len(),
                forall|k: int|
                    0 <= k < entries@.len() ==> {
                        &&& (#[trigger] entries@[k]).0@ == all_entries(self.database@)[k].0
                        &&& entries@[k].1@ == all_entries(self.database@)[k].1.id@
                    },
                forall|k: int|
                    0 <= k < i ==> (#[trigger] r@[k])@ == all_entries(self.database@)[k].0
                        + "/"@ + all_entries(self.database@)[k].1.id@,
            decreases entries.len() - i,
        {
            let mut id = entries[i].0.clone();
            id.append("/");
            id.append(entries[i].1.as_str());
            r.push(id);
            i = i + 1;
        }
        r
    }

    /// The provider stored under `provider_id`, or the error that names it.
    pub fn find_provider(&self, provider_id: &str) -> (r: Result<&Provider, Error>)
        ensures
            match r {
                Ok(p) => lookup(self.database@, provider_id@) == Some(*p),
                Err(e) => {
                    &&& lookup(self.database@, provider_id@) is None
                    &&& e matches Error::ProviderNotFound(s) && s@ == provider_id@
                },
            },
    {
        match self.database.get_provider(provider_id) {
            Some(p) => Ok(p),
            None => Err(Error::ProviderNotFound(String::from_str(provider_id))),
        }
    }

    /// The model stored under `model_id` by provider `provider_id`, or the
    /// error that names `<provider id>/<model id>`.
    pub fn find_model(&self, provider_id: &str, model_id: &str) -> (r: Result<&Model, Error>)
        ensures
            match r {
                Ok(m) => lookup_model(self.database@, provider_id@, model_id@) == Some(*m),
                Err(e) => {
                    &&& lookup_model(self.database@, provider_id@, model_id@) is None
                    &&& e matches Error::ModelNotFound(s) && s@ == provider_id@ + "/"@ + model_id@
                },
            },
    {
        match self.database.get_model(provider_id, model_id) {
            Some(m) => Ok(m),
            None => {
                let mut s = String::from_str(provider_id);
                s.append("/");
                s.append(model_id);
                Err(Error::ModelNotFound(s))
            },
        }
    }
}

/// The cache key under which the JSON of all providers is kept.
pub fn providers_cache_key() -> (k: String)
    ensures
        k@ == "providers"@,
{
    String::from_str("providers")
}

/// The cache key under which the JSON of provider `provider_id` is kept.
pub fn provider_cache_key(provider_id: &str) -> (k: String)
    ensures
        k@ == "provider:"@ + provider_id@,
{
    let mut k = String::from_str("provider:");
    k.append(provider_id);
    k
}

/// The cache key under which the JSON of model `model_id` of provider
/// `provider_id` is kept.
pub fn model_cache_key(provider_id: &str, model_id: &str) -> (k: String)
    ensures
        k@ == "model:"@ + provider_id@ + ":"@ + model_id@,
{
    let mut k = String::from_str("model:");
    k.append(provider_id);
    k.append(":");
    k.append(model_id);
    k
}

impl Default for Engine {
    fn default() -> (e: Self)
        ensures
            e.database@ == Seq::<Provider>::empty(),
    {
        Engine::new()
    }
}

pub proof fn lemma_select_nothing(ms: Seq<Model>)
    ensures
        select(ms, Criterion::Nothing).len() == 0,
    decreases ms.len(),
{
    if ms.len() > 0 {
        lemma_select_nothing(ms.drop_last());
    }
}


/// A search returns exactly the models that meet its condition: each model
/// returned meets it, every model meeting it is returned, and no more models
/// come back than the database holds.
pub proof fn law_select_exact(ms: Seq<Model>, c: Criterion)
    ensures
        select(ms, c).len() <= ms.len(),
        forall|i: int| 0 <= i < select(ms, c).len() ==> filter_holds(#[trigger] select(ms, c)[i], c),
        forall|m: Model| #[trigger] select(ms, c).contains(m) <==> (ms.contains(m) && filter_holds(m, c)),
    decreases ms.len(),
{
    if ms.len() > 0 {
        law_select_exact(ms.drop_last(), c);
        let p = ms.drop_last();
        assert(ms =~= p.push(ms.last()));
        assert forall|m: Model| #[trigger] select(ms, c).contains(m) <==> (ms.contains(m) && filter_holds(m, c)) by {
            if filter_holds(ms.last(), c) {
                let sp = select(p, c);
                assert(select(ms, c) == sp.push(ms.last()));
                if select(ms, c).contains(m) {
                    let i = choose|i: int| 0 <= i < select(ms, c).len() && select(ms, c)[i] == m;
                    if i < sp.len() {
                        assert(sp[i] == m);
                        assert(sp.contains(m));
                    }
                }
                if ms.contains(m) && filter_holds(m, c) {
                    let i = choose|i: int| 0 <= i < ms.len() && ms[i] == m;
                    if i < p.len() {
                        assert(p[i] == m);
                        assert(p.contains(m));
                        assert(sp.contains(m));
                        let j = choose|j: int| 0 <= j < sp.len() && sp[j] == m;
                        assert(select(ms, c)[j] == m);
                    } else {
                        assert(select(ms, c)[sp.len() as int] == m);
                    }
                }
            } else {
                if ms.contains(m) && filter_holds(m, c) {
                    let i = choose|i: int| 0 <= i < ms.len() && ms[i] == m;
                    if i < p.len() {
                        assert(p[i] == m);
                        assert(p.contains(m));
                    }
                }
                if select(ms, c).contains(m) {
                    let i = choose|i: int| 0 <= i < select(p, c).len() && select(p, c)[i] == m;
                    assert(p.contains(m));
                    let j = choose|j: int| 0 <= j < p.len() && p[j] == m;
                    assert(ms[j] == m);
                }
            }
        }
    }
}

/// A text search ignores case: two queries with the same lower-case form
/// find the same models.
pub proof fn law_search_ignores_case(ms: Seq<Model>, q1: Seq<char>, q2: Seq<char>)
    requires
        unicode_lowercase(q1) == unicode_lowercase(q2),
    ensures
        select(ms, Criterion::Text(unicode_lowercase(q1))) == select(ms, Criterion::Text(unicode_lowercase(q2))),
{
}

/// `a` can be had from `b` by leaving out some of its items.
pub open spec fn is_subsequence<A>(a: Seq<A>, b: Seq<A>) -> bool
    decreases b.len(),
{
    if b.len() == 0 {
        a.len() == 0
    } else {
        ||| is_subsequence(a, b.drop_last())
        ||| (a.len() > 0 && a.last() == b.last() && is_subsequence(a.drop_last(), b.drop_last()))
    }
}

/// A search for ASCII text ignores case: the upper-case and the lower-case
/// form of a query find what the query finds (both forms stay ASCII, so the
/// searches use the ASCII lower-case form of their query).
pub proof fn law_search_ignores_ascii_case(ms: Seq<Model>, q: Seq<char>)
    ensures
        all_ascii(q) ==> all_ascii(ascii_uppercase(q)) && all_ascii(ascii_lowercase(q)),
        select(ms, Criterion::Text(ascii_lowercase(ascii_uppercase(q)))) == select(ms, Criterion::Text(ascii_lowercase(q))),
        select(ms, Criterion::Text(ascii_lowercase(ascii_lowercase(q)))) == select(ms, Criterion::Text(ascii_lowercase(q))),
{
    assert forall|i: int| 0 <= i < q.len() implies ascii_lower_char(#[trigger] ascii_uppercase(q)[i]) == ascii_lower_char(q[i]) by {
        let c = q[i];
        assert(('A' <= c && c <= 'Z') ==> (c as u32) + 32 == (ascii_lower_char(c) as u32));
    }
    assert(ascii_lowercase(ascii_uppercase(q)) =~= ascii_lowercase(q));
    assert(ascii_lowercase(ascii_lowercase(q)) =~= ascii_lowercase(q));
    if all_ascii(q) {
        assert forall|i: int| 0 <= i < ascii_uppercase(q).len() implies (#[trigger] ascii_uppercase(q)[i] as u32) < 128 by {
            assert((q[i] as u32) < 128);
        }
        assert forall|i: int| 0 <= i < ascii_lowercase(q).len() implies (#[trigger] ascii_lowercase(q)[i] as u32) < 128 by {
            assert((q[i] as u32) < 128);
        }
    }
}

/// The empty query finds every model.
pub proof fn law_empty_search_finds_all(ms: Seq<Model>)
    ensures
        all_ascii(Seq::<char>::empty()),
        ascii_lowercase(Seq::<char>::empty()) == Seq::<char>::empty(),
        select(ms, Criterion::Text(Seq::<char>::empty())) == ms,
    decreases ms.len(),
{
    assert(ascii_lowercase(Seq::<char>::empty()) =~= Seq::<char>::empty());
    if ms.len() > 0 {
        law_empty_search_finds_all(ms.drop_last());
        let m = ms.last();
        assert(occurs_at(unicode_lowercase(m.name@), Seq::<char>::empty(), 0)) by {
            assert(unicode_lowercase(m.name@).subrange(0, 0) =~= Seq::<char>::empty());
        }
        assert(ms.drop_last().push(m) =~= ms);
    }
}

proof fn lemma_select_narrows(ms: Seq<Model>, c1: Criterion, c2: Criterion)
    requires
        forall|m: Model| #[trigger] filter_holds(m, c1) ==> filter_holds(m, c2),
    ensures
        is_subsequence(select(ms, c1), select(ms, c2)),
    decreases ms.len(),
{
    if ms.len() > 0 {
        lemma_select_narrows(ms.drop_last(), c1, c2);
        let a = select(ms.drop_last(), c1);
        let b = select(ms.drop_last(), c2);
        let l = ms.last();
        if filter_holds(l, c1) {
            assert(select(ms, c1).drop_last() =~= a);
            assert(select(ms, c2).drop_last() =~= b);
        } else if filter_holds(l, c2) {
            assert(select(ms, c2).drop_last() =~= b);
        }
    }
}

/// A longer query finds fewer models: every model that `q + r` finds, `q`
/// finds too, in the same order.
pub proof fn law_longer_query_narrows(ms: Seq<Model>, q: Seq<char>, r: Seq<char>)
    ensures
        all_ascii(q) && all_ascii(r) ==> all_ascii(q + r),
        is_subsequence(
            select(ms, Criterion::Text(ascii_lowercase(q + r))),
            select(ms, Criterion::Text(ascii_lowercase(q))),
        ),
{
    let lq = ascii_lowercase(q);
    let lqr = ascii_lowercase(q + r);
    assert(lqr =~= lq + ascii_lowercase(r));
    assert forall|h: Seq<char>| #[trigger] contains_seq(h, lqr) implies contains_seq(h, lq) by {
        let i = choose|i: int| occurs_at(h, lqr, i);
        assert(lqr.len() == lq.len() + r.len());
        assert(lqr.subrange(0, lq.len() as int) =~= lq);
        assert(h.subrange(i, i + lq.len()) =~= h.subrange(i, i + lqr.len()).subrange(0, lq.len() as int));
        assert(occurs_at(h, lq, i));
    }
    assert forall|m: Model| #[trigger] filter_holds(m, Criterion::Text(lqr)) implies filter_holds(m, Criterion::Text(lq)) by {
        if contains_seq(unicode_lowercase(m.name@), lqr) {
        } else if contains_seq(unicode_lowercase(m.id@), lqr) {
        } else {
            let f = m.family->0;
            assert(contains_seq(unicode_lowercase(f@), lqr));
        }
    }
    lemma_select_narrows(ms, Criterion::Text(lqr), Criterion::Text(lq));
    if all_ascii(q) && all_ascii(r) {
        assert forall|i: int| 0 <= i < (q + r).len() implies (#[trigger] (q + r)[i] as u32) < 128 by {
            if i < q.len() {
                assert((q[i] as u32) < 128);
            } else {
                assert((r[i - q.len()] as u32) < 128);
            }
        }
    }
}

proof fn lemma_select_is_filter(ms: Seq<Model>, c: Criterion, pred: spec_fn(Model) -> bool)
    requires
        forall|m: Model| #[trigger] filter_holds(m, c) == pred(m),
    ensures
        select(ms, c) == ms.filter(pred),
    decreases ms.len(),
{
    reveal(Seq::filter);
    if ms.len() > 0 {
        lemma_select_is_filter(ms.drop_last(), c, pred);
    }
}

/// A text search for `q` (already in lower case) finds, in database order,
/// exactly the models whose lower-cased name, id or family contains `q`; in
/// particular a model whose family alone contains `q` is found.
pub proof fn law_text_search_fields(ms: Seq<Model>, q: Seq<char>)
    ensures
        select(ms, Criterion::Text(q)) == ms.filter(
            (|m: Model|
                contains_seq(unicode_lowercase(m.name@), q) || contains_seq(unicode_lowercase(m.id@), q) || (
                m.family is Some && contains_seq(unicode_lowercase(m.family->0@), q))),
        ),
        forall|m: Model|
            ms.contains(m) && m.family is Some && contains_seq(unicode_lowercase(m.family->0@), q)
                ==> #[trigger] select(ms, Criterion::Text(q)).contains(m),
        forall|m: Model|
            ms.contains(m) && (contains_seq(unicode_lowercase(m.name@), q) || contains_seq(
                unicode_lowercase(m.id@),
                q,
            )) ==> #[trigger] select(ms, Criterion::Text(q)).contains(m),
{
    let pred = |m: Model|
        contains_seq(unicode_lowercase(m.name@), q) || contains_seq(unicode_lowercase(m.id@), q) || (
        m.family is Some && contains_seq(unicode_lowercase(m.family->0@), q));
    lemma_select_is_filter(ms, Criterion::Text(q), pred);
    law_select_exact(ms, Criterion::Text(q));
}

/// A modality search finds, in database order, exactly the models that list
/// the modality among their inputs or among their outputs; in particular a
/// model that only writes it is found.
pub proof fn law_modality_search_lists(ms: Seq<Model>, md: Modality)
    ensures
        select(ms, Criterion::Modality(md)) == ms.filter(
            (|m: Model| m.modalities.input@.contains(md) || m.modalities.output@.contains(md)),
        ),
        forall|m: Model|
            ms.contains(m) && m.modalities.output@.contains(md) ==> #[trigger] select(
                ms,
                Criterion::Modality(md),
            ).contains(m),
        forall|m: Model|
            ms.contains(m) && m.modalities.input@.contains(md) ==> #[trigger] select(
                ms,
                Criterion::Modality(md),
            ).contains(m),
{
    let pred = |m: Model| m.modalities.input@.contains(md) || m.modalities.output@.contains(md);
    lemma_select_is_filter(ms, Criterion::Modality(md), pred);
    law_select_exact(ms, Criterion::Modality(md));
}

/// A family search finds, in database order, exactly the models whose
/// family is the one asked for.
pub proof fn law_family_search_exact(ms: Seq<Model>, family: Seq<char>)
    ensures
        select(ms, Criterion::Family(family)) == ms.filter(
            (|m: Model| m.family is Some && m.family->0@ == family),
        ),
{
    let pred = |m: Model| m.family is Some && m.family->0@ == family;
    lemma_select_is_filter(ms, Criterion::Family(family), pred);
}

/// A capability search finds, in database order, exactly the models with
/// that flag set: reasoning, tool calls and attachments by their flags,
/// structured output and temperature only when set to `true`.
pub proof fn law_capability_search_exact(ms: Seq<Model>)
    ensures
        select(ms, Criterion::Capability(Capability::Reasoning)) == ms.filter((|m: Model| m.reasoning)),
        select(ms, Criterion::Capability(Capability::ToolCall)) == ms.filter((|m: Model| m.tool_call)),
        select(ms, Criterion::Capability(Capability::Attachment)) == ms.filter((|m: Model| m.attachment)),
        select(ms, Criterion::Capability(Capability::StructuredOutput)) == ms.filter(
            (|m: Model| m.structured_output == Some(true)),
        ),
        select(ms, Criterion::Capability(Capability::Temperature)) == ms.filter(
            (|m: Model| m.temperature == Some(true)),
        ),
{
    lemma_select_is_filter(ms, Criterion::Capability(Capability::Reasoning), |m: Model| m.reasoning);
    lemma_select_is_filter(ms, Criterion::Capability(Capability::ToolCall), |m: Model| m.tool_call);
    lemma_select_is_filter(ms, Criterion::Capability(Capability::Attachment), |m: Model| m.attachment);
    lemma_select_is_filter(
        ms,
        Criterion::Capability(Capability::StructuredOutput),
        |m: Model| m.structured_output == Some(true),
    );
    lemma_select_is_filter(
        ms,
        Criterion::Capability(Capability::Temperature),
        |m: Model| m.temperature == Some(true),
    );
}

/// Searching for an unknown capability or modality name finds nothing.
pub proof fn law_nothing_search_empty(ms: Seq<Model>)
    ensures
        select(ms, Criterion::Nothing) == Seq::<Model>::empty(),
{
    lemma_select_nothing(ms);
}

/// Distinct providers have distinct JSON cache keys, and none of them is
/// the key of the whole database.
pub proof fn law_provider_keys_distinct(a: Seq<char>, b: Seq<char>)
    ensures
        a != b ==> "provider:"@ + a != "provider:"@ + b,
        "provider:"@ + a != "providers"@,
{
    reveal_strlit("provider:");
    reveal_strlit("providers");
    let ka = "provider:"@ + a;
    let kb = "provider:"@ + b;
    assert(ka.len() == 9 + a.len());
    assert(kb.len() == 9 + b.len());
    if a != b && ka == kb {
        assert(ka.subrange(9, ka.len() as int) =~= a);
        assert(kb.subrange(9, kb.len() as int) =~= b);
    }
    if "provider:"@ + a == "providers"@ {
        assert(("provider:"@ + a)[8] == ':');
        assert("providers"@[8] == 's');
    }
}

/// Distinct (provider, model) pairs get distinct JSON cache keys, as long
/// as the provider ids hold no `:`.
pub proof fn law_model_keys_distinct(p1: Seq<char>, m1: Seq<char>, p2: Seq<char>, m2: Seq<char>)
    requires
        !p1.contains(':'),
        !p2.contains(':'),
        p1 != p2 || m1 != m2,
    ensures
        "model:"@ + p1 + ":"@ + m1 != "model:"@ + p2 + ":"@ + m2,
{
    reveal_strlit("model:");
    reveal_strlit(":");
    let k1 = "model:"@ + p1 + ":"@ + m1;
    let k2 = "model:"@ + p2 + ":"@ + m2;
    if k1 == k2 {
        assert(k1[6 + p1.len() as int] == ':');
        assert(k2[6 + p2.len() as int] == ':');
        if p1.len() < p2.len() {
            assert(k2[6 + p1.len() as int] == p2[p1.len() as int]);
            assert(p2.contains(':'));
        } else if p2.len() < p1.len() {
            assert(k1[6 + p2.len() as int] == p1[p2.len() as int]);
            assert(p1.contains(':'));
        } else {
            assert(k1.subrange(6, 6 + p1.len() as int) =~= p1);
            assert(k2.subrange(6, 6 + p2.len() as int) =~= p2);
            assert(k1.subrange(7 + p1.len() as int, k1.len() as int) =~= m1);
            assert(k2.subrange(7 + p2.len() as int, k2.len() as int) =~= m2);
        }
    }
}

/// The JSON cache key of a model never equals the key of a provider or of
/// the whole database.
pub proof fn law_model_keys_apart(p: Seq<char>, m: Seq<char>, q: Seq<char>)
    ensures
        "model:"@ + p + ":"@ + m != "provider:"@ + q,
        "model:"@ + p + ":"@ + m != "providers"@,
{
    reveal_strlit("model:");
    reveal_strlit("provider:");
    reveal_strlit("providers");
    reveal_strlit(":");
    assert(("model:"@ + p + ":"@ + m)[0] == 'm');
    assert(("provider:"@ + q)[0] == 'p');
    assert("providers"@[0] == 'p');
}

} // verus!
