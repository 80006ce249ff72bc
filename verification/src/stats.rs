use vstd::prelude::*;
use crate::database::{all_entries, all_models_of};
use crate::engine::{
    Capability, Criterion, Engine, ModelFilter, capability_named, entries_hold_models, family_is, lemma_take_step,
    modality_named, select, uses_modality,
};
use crate::models::{Modality, Model};

verus! {

/// Counts over the whole database.
pub struct StatsResponse {
    pub providers: usize,
    pub models: usize,
    /// For each family that some model belongs to, the number of its models.
    pub families: Vec<(String, usize)>,
    /// For each counted capability that some model has, the number of such models.
    pub capabilities: Vec<(String, usize)>,
    /// For each modality that some model reads or writes, the number of times
    /// it is listed, inputs and outputs together.
    pub modalities: Vec<(String, usize)>,
}

/// How often `md` is listed in `s`.
pub open spec fn occurrences(s: Seq<Modality>, md: Modality) -> nat
    decreases s.len(),
{
    if s.len() == 0 {
        0
    } else {
        occurrences(s.drop_last(), md) + if s.last() == md { 1nat } else { 0nat }
    }
}

/// How often `md` is listed over the inputs and outputs of the models of `ms`.
pub open spec fn modality_uses(ms: Seq<Model>, md: Modality) -> nat
    decreases ms.len(),
{
    if ms.len() == 0 {
        0
    } else {
        modality_uses(ms.drop_last(), md) + occurrences(ms.last().modalities.input@, md)
            + occurrences(ms.last().modalities.output@, md)
    }
}

/// The number of models of `ms` that meet `c`.
pub open spec fn count_of(ms: Seq<Model>, c: Criterion) -> nat {
    select(ms, c).len()
}

/// `rows` with `(name, n)` appended when `n` is not zero.
pub open spec fn push_if_counted(rows: Seq<(Seq<char>, nat)>, name: Seq<char>, n: nat) -> Seq<(Seq<char>, nat)> {
    if n > 0 {
        rows.push((name, n))
    } else {
        rows
    }
}

/// The capability counts of the statistics, in a fixed order, zero counts left out.
pub open spec fn capability_rows(ms: Seq<Model>) -> Seq<(Seq<char>, nat)> {
    let r0 = Seq::<(Seq<char>, nat)>::empty();
    let r1 = push_if_counted(r0, "reasoning"@, count_of(ms, Criterion::Capability(Capability::Reasoning)));
    let r2 = push_if_counted(r1, "tool_call"@, count_of(ms, Criterion::Capability(Capability::ToolCall)));
    let r3 = push_if_counted(r2, "attachment"@, count_of(ms, Criterion::Capability(Capability::Attachment)));
    push_if_counted(r3, "structured_output"@, count_of(ms, Criterion::Capability(Capability::StructuredOutput)))
}

/// The modality counts of the statistics, in a fixed order, zero counts left out.
pub open spec fn modality_rows(ms: Seq<Model>) -> Seq<(Seq<char>, nat)> {
    let r0 = Seq::<(Seq<char>, nat)>::empty();
    let r1 = push_if_counted(r0, "text"@, modality_uses(ms, Modality::Text));
    let r2 = push_if_counted(r1, "image"@, modality_uses(ms, Modality::Image));
    let r3 = push_if_counted(r2, "audio"@, modality_uses(ms, Modality::Audio));
    let r4 = push_if_counted(r3, "video"@, modality_uses(ms, Modality::Video));
    push_if_counted(r4, "pdf"@, modality_uses(ms, Modality::Pdf))
}

/// The plain values of a table of counts.
pub open spec fn rows_view(rows: Seq<(String, usize)>) -> Seq<(Seq<char>, nat)> {
    rows.map_values(|r: (String, usize)| (r.0@, r.1 as nat))
}

/// `rows` holds, for each family of `ms`, once, the number of its models.
pub open spec fn family_table(rows: Seq<(String, usize)>, ms: Seq<Model>) -> bool {
    &&& forall|a: int|
        0 <= a < rows.len() ==> {
            &&& (#[trigger] rows[a]).1 == count_of(ms, Criterion::Family(rows[a].0@))
            &&& rows[a].1 > 0
        }
    &&& forall|a: int, b: int|
        0 <= a < rows.len() && 0 <= b < rows.len() && a != b ==> (#[trigger] rows[a]).0@ != (#[trigger] rows[b]).0@
    &&& forall|k: Seq<char>|
        count_of(ms, Criterion::Family(k)) > 0 ==> exists|a: int| 0 <= a < rows.len() && (#[trigger] rows[a]).0@ == k
}

/// No modality count of the database exceeds what a `usize` holds.
pub open spec fn modality_counts_fit(ms: Seq<Model>) -> bool {
    forall|md: Modality| #[trigger] modality_uses(ms, md) <= usize::MAX
}

proof fn lemma_select_len(ms: Seq<Model>, c: Criterion)
    ensures
        select(ms, c).len() <= ms.len(),
    decreases ms.len(),
{
    if ms.len() > 0 {
        lemma_select_len(ms.drop_last(), c);
    }
}

proof fn lemma_uses_prefix(ms: Seq<Model>, i: int, md: Modality)
    requires
        0 <= i <= ms.len(),
    ensures
        modality_uses(ms.take(i), md) <= modality_uses(ms, md),
    decreases ms.len() - i,
{
    if i < ms.len() {
        lemma_take_step(ms, i);
        lemma_uses_prefix(ms, i + 1, md);
    } else {
        assert(ms.take(i) =~= ms);
    }
}

proof fn lemma_occurrences_prefix(s: Seq<Modality>, i: int, md: Modality)
    requires
        0 <= i <= s.len(),
    ensures
        occurrences(s.take(i), md) <= occurrences(s, md),
    decreases s.len() - i,
{
    if i < s.len() {
        assert(s.take(i + 1).drop_last() =~= s.take(i));
        lemma_occurrences_prefix(s, i + 1, md);
    } else {
        assert(s.take(i) =~= s);
    }
}

/// How often `md` is listed in `list`, given a bound the count cannot pass.
fn count_listed(list: &Vec<Modality>, md: Modality, bound: usize) -> (n: usize)
    requires
        occurrences(list@, md) <= bound,
    ensures
        n == occurrences(list@, md),
{
    let mut n: usize = 0;
    let mut i: usize = 0;
    while i < list.len()
        invariant
            i <= list.len(),
            occurrences(list@, md) <= bound,
            n == occurrences(list@.take(i as int), md),
        decreases list.len() - i,
    {
        proof {
            assert(list@.take(i + 1).drop_last() =~= list@.take(i as int));
            lemma_occurrences_prefix(list@, i + 1, md);
        }
        if list[i] == md {
            n = n + 1;
        }
        i = i + 1;
    }
    proof {
        assert(list@.take(list@.len() as int) =~= list@);
    }
    n
}

fn find_row(rows: &Vec<(String, usize)>, key: &String) -> (r: Option<usize>)
    ensures
        match r {
            Some(j) => j < rows@.len() && rows@[j as int].0@ == key@,
            None => forall|a: int| 0 <= a < rows@.len() ==> (#[trigger] rows@[a]).0@ != key@,
        },
{
    let mut j: usize = 0;
    while j < rows.len()
        invariant
            j <= rows@.len(),
            forall|a: int| 0 <= a < j ==> (#[trigger] rows@[a]).0@ != key@,
        decreases rows.len() - j,
    {
        if rows[j].0 == *key {
            return Some(j);
        }
        j = j + 1;
    }
    None
}

fn push_counted(rows: &mut Vec<(String, usize)>, name: &str, n: usize)
    ensures
        rows_view(final(rows)@) == push_if_counted(rows_view(old(rows)@), name@, n as nat),
{
    let ghost before = rows@;
    if n > 0 {
        rows.push((String::from_str(name), n));
        proof {
            assert(rows_view(rows@) =~= rows_view(before).push((name@, n as nat)));
        }
    }
}

/// How often `md` is listed in `list` added to `start`, unless that passes
/// what a `usize` holds.
fn add_listed(list: &Vec<Modality>, md: Modality, start: usize) -> (r: Option<usize>)
    ensures
        match r {
            Some(n) => n == start + occurrences(list@, md),
            None => start + occurrences(list@, md) > usize::MAX,
        },
{
    let mut n: usize = start;
    let mut i: usize = 0;
    while i < list.len()
        invariant
            i <= list.len(),
            n == start + occurrences(list@.take(i as int), md),
        decreases list.len() - i,
    {
        proof {
            assert(list@.take(i + 1).drop_last() =~= list@.take(i as int));
            lemma_occurrences_prefix(list@, i + 1, md);
        }
        if list[i] == md {
            if n == usize::MAX {
                proof {
                    lemma_occurrences_prefix(list@, i + 1, md);
                }
                return None;
            }
            n = n + 1;
        }
        i = i + 1;
    }
    proof {
        assert(list@.take(list@.len() as int) =~= list@);
    }
    Some(n)
}

impl Engine {
    fn modality_count_fits(&self, entries: &Vec<(&String, &String, &Model)>, md: Modality) -> (r: bool)
        requires
            entries_hold_models(entries@, self.database@),
        ensures
            r == (modality_uses(all_models_of(self.database@), md) <= usize::MAX),
    {
        let ghost ms = all_models_of(self.database@);
        let mut n: usize = 0;
        let mut i: usize = 0;
        while i < entries.len()
            invariant
                ms == all_models_of(self.database@),
                entries_hold_models(entries@, self.database@),
                i <= entries.len(),
                n == modality_uses(ms.take(i as int), md),
            decreases entries.len() - i,
        {
            let m = entries[i].2;
            proof {
                lemma_take_step(ms, i as int);
                assert(*entries@[i as int].2 == ms[i as int]);
                lemma_uses_prefix(ms, i + 1, md);
            }
            match add_listed(&m.modalities.input, md, n) {
                None => {
                    return false;
                },
                Some(a) => match add_listed(&m.modalities.output, md, a) {
                    None => {
                        return false;
                    },
                    Some(b) => {
                        n = b;
                    },
                },
            }
            i = i + 1;
        }
        proof {
            assert(ms.take(ms.len() as int) =~= ms);
        }
        true
    }

    /// Whether every count the statistics keep fits in a `usize`, so that
    /// `get_statistics` may be called.
    pub fn statistics_fit(&self) -> (r: bool)
        ensures
            r == (all_entries(self.database@).len() <= usize::MAX
                && modality_counts_fit(all_models_of(self.database@))),
    {
        let ghost ms = all_models_of(self.database@);
        let entries = self.database.all_models();
        proof {
            assert(entries_hold_models(entries@, self.database@));
        }
        let text = self.modality_count_fits(&entries, Modality::Text);
        let image = self.modality_count_fits(&entries, Modality::Image);
        let audio = self.modality_count_fits(&entries, Modality::Audio);
        let video = self.modality_count_fits(&entries, Modality::Video);
        let pdf = self.modality_count_fits(&entries, Modality::Pdf);
        let total = entries.len();
        proof {
            assert(total == entries@.len());
            assert(entries@.len() == all_entries(self.database@).len());
            if modality_counts_fit(ms) {
                assert(modality_uses(ms, Modality::Text) <= usize::MAX);
                assert(modality_uses(ms, Modality::Image) <= usize::MAX);
                assert(modality_uses(ms, Modality::Audio) <= usize::MAX);
                assert(modality_uses(ms, Modality::Video) <= usize::MAX);
                assert(modality_uses(ms, Modality::Pdf) <= usize::MAX);
            }
            assert(all_entries(self.database@).len() <= usize::MAX);
            if text && image && audio && video && pdf {
                assert forall|md: Modality| #[trigger] modality_uses(ms, md) <= usize::MAX by {
                    match md {
                        Modality::Text => {},
                        Modality::Image => {},
                        Modality::Audio => {},
                        Modality::Video => {},
                        Modality::Pdf => {},
                    }
                }
                assert(modality_counts_fit(ms));
            }
        }
        text && image && audio && video && pdf
    }

    fn count_models(&self, f: &ModelFilter) -> (n: usize)
        ensures
            n == count_of(all_models_of(self.database@), f@),
    {
        let v = self.select_models(f);
        proof {
            assert(v@.map_values(|m: &Model| *m).len() == v@.len());
        }
        v.len()
    }

    fn count_modality(&self, entries: &Vec<(&String, &String, &Model)>, md: Modality) -> (n: usize)
        requires
            entries_hold_models(entries@, self.database@),
            modality_counts_fit(all_models_of(self.database@)),
        ensures
            n == modality_uses(all_models_of(self.database@), md),
    {
        let ghost ms = all_models_of(self.database@);
        let mut n: usize = 0;
        let mut i: usize = 0;
        while i < entries.len()
            invariant
                ms == all_models_of(self.database@),
                entries_hold_models(entries@, self.database@),
                modality_counts_fit(ms),
                i <= entries.len(),
                n == modality_uses(ms.take(i as int), md),
            decreases entries.len() - i,
        {
            let m = entries[i].2;
            proof {
                lemma_take_step(ms, i as int);
                assert(*entries@[i as int].2 == ms[i as int]);
                lemma_uses_prefix(ms, i + 1, md);
                assert(modality_uses(ms, md) <= usize::MAX);
            }
            let a = count_listed(&m.modalities.input, md, (usize::MAX - n) as usize);
            let b = count_listed(&m.modalities.output, md, (usize::MAX - n - a) as usize);
            n = n + a + b;
            i = i + 1;
        }
        proof {
            assert(ms.take(ms.len() as int) =~= ms);
        }
        n
    }

    fn family_counts(&self, entries: &Vec<(&String, &String, &Model)>) -> (rows: Vec<(String, usize)>)
        requires
            entries_hold_models(entries@, self.database@),
        ensures
            family_table(rows@, all_models_of(self.database@)),
    {
        let ghost ms = all_models_of(self.database@);
        let mut rows: Vec<(String, usize)> = Vec::new();
        let mut i: usize = 0;
        while i < entries.len()
            invariant
                ms == all_models_of(self.database@),
                entries_hold_models(entries@, self.database@),
                i <= entries.len(),
                family_table(rows@, ms.take(i as int)),
            decreases entries.len() - i,
        {
            let m = entries[i].2;
            let ghost p = ms.take(i as int);
            let ghost p2 = ms.take(i + 1);
            proof {
                lemma_take_step(ms, i as int);
                assert(*entries@[i as int].2 == ms[i as int]);
                assert(p2 == p.push(*m)) by {
                    assert(p2 =~= p.push(*m));
                }
                assert forall|k: Seq<char>| #![trigger count_of(p2, Criterion::Family(k))]
                    count_of(p2, Criterion::Family(k)) == count_of(p, Criterion::Family(k))
                        + if family_is(*m, k) { 1nat } else { 0nat } by {
                    assert(p2.drop_last() == p);
                }
                assert forall|k: Seq<char>| #![trigger count_of(p, Criterion::Family(k))]
                    count_of(p, Criterion::Family(k)) <= i by {
                    lemma_select_len(p, Criterion::Family(k));
                }
            }
            match &m.family {
                None => {
                    proof {
                        assert forall|k: Seq<char>| !family_is(*m, k) by {}
                    }
                },
                Some(f) => {
                    let ghost before = rows@;
                    match find_row(&rows, f) {
                        Some(j) => {
                            let key = rows[j].0.clone();
                            let c = rows[j].1;
                            proof {
                                assert(c == count_of(p, Criterion::Family(f@)));
                            }
                            rows.set(j, (key, c + 1));
                            proof {
                                assert forall|a: int| 0 <= a < rows@.len() && a != j implies
                                    #[trigger] rows@[a] == before[a] by {}
                                assert forall|a: int| 0 <= a < rows@.len() && a != j implies
                                    (#[trigger] rows@[a]).0@ != f@ by {
                                    assert(before[a].0@ != before[j as int].0@);
                                }
                                assert forall|k: Seq<char>|
                                    count_of(p2, Criterion::Family(k)) > 0 implies
                                    exists|a: int| 0 <= a < rows@.len() && (#[trigger] rows@[a]).0@ == k by {
                                    if k == f@ {
                                        assert(rows@[j as int].0@ == k);
                                    } else {
                                        assert(count_of(p, Criterion::Family(k)) > 0);
                                        let a = choose|a: int| 0 <= a < before.len() && (#[trigger] before[a]).0@ == k;
                                        assert(rows@[a].0@ == k);
                                    }
                                }
                            }
                        },
                        None => {
                            let key = f.clone();
                            rows.push((key, 1));
                            proof {
                                assert forall|a: int| 0 <= a < before.len() implies
                                    #[trigger] rows@[a] == before[a] by {}
                                assert forall|k: Seq<char>|
                                    count_of(p2, Criterion::Family(k)) > 0 implies
                                    exists|a: int| 0 <= a < rows@.len() && (#[trigger] rows@[a]).0@ == k by {
                                    if k == f@ {
                                        assert(rows@[before.len() as int].0@ == k);
                                    } else {
                                        assert(count_of(p, Criterion::Family(k)) > 0);
                                        let a = choose|a: int| 0 <= a < before.len() && (#[trigger] before[a]).0@ == k;
                                        assert(rows@[a].0@ == k);
                                    }
                                }
                                assert(count_of(p, Criterion::Family(f@)) == 0) by {
                                    if count_of(p, Criterion::Family(f@)) > 0 {
                                        let a = choose|a: int| 0 <= a < before.len() && (#[trigger] before[a]).0@ == f@;
                                    }
                                }
                            }
                        },
                    }
                },
            }
            i = i + 1;
        }
        proof {
            assert(ms.take(ms.len() as int) =~= ms);
        }
        rows
    }

    /// Counts providers, models, families, capabilities and modalities.
    pub fn get_statistics(&self) -> (s: StatsResponse)
        requires
            all_entries(self.database@).len() <= usize::MAX,
            modality_counts_fit(all_models_of(self.database@)),
        ensures
            s.providers == self.database@.len(),
            s.models == all_entries(self.database@).len(),
            family_table(s.families@, all_models_of(self.database@)),
            rows_view(s.capabilities@) == capability_rows(all_models_of(self.database@)),
            rows_view(s.modalities@) == modality_rows(all_models_of(self.database@)),
    {
        let entries = self.database.all_models();
        proof {
            assert(entries_hold_models(entries@, self.database@));
        }
        let families = self.family_counts(&entries);

        let mut capabilities: Vec<(String, usize)> = Vec::new();
        proof {
            assert(rows_view(capabilities@) =~= Seq::<(Seq<char>, nat)>::empty());
        }
        let n = self.count_models(&ModelFilter::Capability(Capability::Reasoning));
        push_counted(&mut capabilities, "reasoning", n);
        let n = self.count_models(&ModelFilter::Capability(Capability::ToolCall));
        push_counted(&mut capabilities, "tool_call", n);
        let n = self.count_models(&ModelFilter::Capability(Capability::Attachment));
        push_counted(&mut capabilities, "attachment", n);
        let n = self.count_models(&ModelFilter::Capability(Capability::StructuredOutput));
        push_counted(&mut capabilities, "structured_output", n);

        let mut modalities: Vec<(String, usize)> = Vec::new();
        proof {
            assert(rows_view(modalities@) =~= Seq::<(Seq<char>, nat)>::empty());
        }
        let n = self.count_modality(&entries, Modality::Text);
        push_counted(&mut modalities, "text", n);
        let n = self.count_modality(&entries, Modality::Image);
        push_counted(&mut modalities, "image", n);
        let n = self.count_modality(&entries, Modality::Audio);
        push_counted(&mut modalities, "audio", n);
        let n = self.count_modality(&entries, Modality::Video);
        push_counted(&mut modalities, "video", n);
        let n = self.count_modality(&entries, Modality::Pdf);
        push_counted(&mut modalities, "pdf", n);

        StatsResponse {
            providers: self.database.provider_count(),
            models: self.database.model_count(),
            families,
            capabilities,
            modalities,
        }
    }
}


/// Each capability count of the statistics is the number of models that a
/// search by that capability finds, and is never zero.
pub proof fn law_capability_counts_match_search(ms: Seq<Model>)
    ensures
        forall|i: int|
            0 <= i < capability_rows(ms).len() ==> {
                &&& capability_named((#[trigger] capability_rows(ms)[i]).0) matches Some(c)
                &&& capability_rows(ms)[i].1 == select(ms, Criterion::Capability(c)).len()
                &&& capability_rows(ms)[i].1 > 0
            },
{
    reveal_strlit("reasoning");
    reveal_strlit("tool_call");
    reveal_strlit("attachment");
    reveal_strlit("structured_output");
    assert("tool_call"@[0] != "reasoning"@[0]);
    assert("attachment"@[0] != "reasoning"@[0] && "attachment"@[0] != "tool_call"@[0]);
    assert("structured_output"@[0] != "reasoning"@[0] && "structured_output"@[0] != "tool_call"@[0]
        && "structured_output"@[0] != "attachment"@[0]);
    assert(capability_named("reasoning"@) == Some(Capability::Reasoning));
    assert(capability_named("tool_call"@) == Some(Capability::ToolCall));
    assert(capability_named("attachment"@) == Some(Capability::Attachment));
    assert(capability_named("structured_output"@) == Some(Capability::StructuredOutput));
}

/// Each modality count of the statistics names a modality that searches
/// know, counts how often it is listed, and is never zero.
pub proof fn law_modality_counts_named(ms: Seq<Model>)
    ensures
        forall|i: int|
            0 <= i < modality_rows(ms).len() ==> {
                &&& modality_named((#[trigger] modality_rows(ms)[i]).0) matches Some(md)
                &&& modality_rows(ms)[i].1 == modality_uses(ms, md)
                &&& modality_rows(ms)[i].1 > 0
            },
{
    reveal_strlit("text");
    reveal_strlit("image");
    reveal_strlit("audio");
    reveal_strlit("video");
    reveal_strlit("pdf");
    assert("image"@[0] != "text"@[0]);
    assert("audio"@[0] != "text"@[0] && "audio"@[0] != "image"@[0]);
    assert("video"@[0] != "text"@[0] && "video"@[0] != "image"@[0] && "video"@[0] != "audio"@[0]);
    assert("pdf"@[0] != "text"@[0] && "pdf"@[0] != "image"@[0] && "pdf"@[0] != "audio"@[0]
        && "pdf"@[0] != "video"@[0]);
    assert(modality_named("text"@) == Some(Modality::Text));
    assert(modality_named("image"@) == Some(Modality::Image));
    assert(modality_named("audio"@) == Some(Modality::Audio));
    assert(modality_named("video"@) == Some(Modality::Video));
    assert(modality_named("pdf"@) == Some(Modality::Pdf));
}

proof fn lemma_listed_occurs(s: Seq<Modality>, md: Modality)
    requires
        s.contains(md),
    ensures
        occurrences(s, md) >= 1,
    decreases s.len(),
{
    if s.last() != md {
        let i = choose|i: int| 0 <= i < s.len() && s[i] == md;
        assert(s.drop_last()[i] == md);
        lemma_listed_occurs(s.drop_last(), md);
    }
}

/// A modality is counted at least once for each model that a search by that
/// modality finds (a model listing it as input and as output counts twice).
pub proof fn law_modality_count_covers_search(ms: Seq<Model>, md: Modality)
    ensures
        modality_uses(ms, md) >= select(ms, Criterion::Modality(md)).len(),
    decreases ms.len(),
{
    if ms.len() > 0 {
        law_modality_count_covers_search(ms.drop_last(), md);
        let m = ms.last();
        if uses_modality(m, md) {
            if m.modalities.input@.contains(md) {
                lemma_listed_occurs(m.modalities.input@, md);
            } else {
                lemma_listed_occurs(m.modalities.output@, md);
            }
        }
    }
}

proof fn lemma_push_if_counted(rows: Seq<(Seq<char>, nat)>, name: Seq<char>, n: nat, x: (Seq<char>, nat))
    ensures
        rows.contains(x) ==> push_if_counted(rows, name, n).contains(x),
        n > 0 ==> push_if_counted(rows, name, n).contains((name, n)),
{
    if n > 0 {
        let t = rows.push((name, n));
        assert(t[rows.len() as int] == (name, n));
        if rows.contains(x) {
            let i = choose|i: int| 0 <= i < rows.len() && rows[i] == x;
            assert(t[i] == x);
        }
    }
}

proof fn lemma_occurrences_filter(s: Seq<Modality>, md: Modality)
    ensures
        occurrences(s, md) == s.filter(|x: Modality| x == md).len(),
    decreases s.len(),
{
    reveal(Seq::filter);
    if s.len() > 0 {
        lemma_occurrences_filter(s.drop_last(), md);
    }
}

/// How a modality is counted: nothing over no models, and each model adds
/// the number of times it lists the modality as an input plus the number of
/// times it lists it as an output.
pub proof fn law_modality_uses_counts(ms: Seq<Model>, m: Model, md: Modality)
    ensures
        modality_uses(Seq::<Model>::empty(), md) == 0,
        modality_uses(ms.push(m), md) == modality_uses(ms, md) + m.modalities.input@.filter(
            (|x: Modality| x == md),
        ).len() + m.modalities.output@.filter((|x: Modality| x == md)).len(),
{
    lemma_occurrences_filter(m.modalities.input@, md);
    lemma_occurrences_filter(m.modalities.output@, md);
    assert(ms.push(m).drop_last() =~= ms);
}

/// The modality table is complete: every modality listed by some model has
/// a row under a name that a modality search knows, with its count.
pub proof fn law_modality_table_complete(ms: Seq<Model>)
    ensures
        forall|md: Modality|
            #[trigger] modality_uses(ms, md) > 0 ==> exists|name: Seq<char>|
                modality_named(name) == Some(md) && #[trigger] modality_rows(ms).contains(
                    (name, modality_uses(ms, md)),
                ),
{
    reveal_strlit("text");
    reveal_strlit("image");
    reveal_strlit("audio");
    reveal_strlit("video");
    reveal_strlit("pdf");
    let r0 = Seq::<(Seq<char>, nat)>::empty();
    let r1 = push_if_counted(r0, "text"@, modality_uses(ms, Modality::Text));
    let r2 = push_if_counted(r1, "image"@, modality_uses(ms, Modality::Image));
    let r3 = push_if_counted(r2, "audio"@, modality_uses(ms, Modality::Audio));
    let r4 = push_if_counted(r3, "video"@, modality_uses(ms, Modality::Video));
    let r5 = push_if_counted(r4, "pdf"@, modality_uses(ms, Modality::Pdf));
    assert(r5 == modality_rows(ms));
    assert forall|md: Modality| #[trigger] modality_uses(ms, md) > 0 implies exists|name: Seq<char>|
        modality_named(name) == Some(md) && #[trigger] modality_rows(ms).contains((name, modality_uses(ms, md))) by {
        let n = modality_uses(ms, md);
        let name = match md {
            Modality::Text => "text"@,
            Modality::Image => "image"@,
            Modality::Audio => "audio"@,
            Modality::Video => "video"@,
            Modality::Pdf => "pdf"@,
        };
        assert("image"@[0] != "text"@[0]);
        assert("audio"@[0] != "text"@[0] && "audio"@[0] != "image"@[0]);
        assert("video"@[0] != "text"@[0] && "video"@[0] != "image"@[0] && "video"@[0] != "audio"@[0]);
        assert("pdf"@[0] != "text"@[0] && "pdf"@[0] != "image"@[0] && "pdf"@[0] != "audio"@[0]
            && "pdf"@[0] != "video"@[0]);
        assert(modality_named(name) == Some(md));
        let x = (name, n);
        lemma_push_if_counted(r0, "text"@, modality_uses(ms, Modality::Text), x);
        lemma_push_if_counted(r1, "image"@, modality_uses(ms, Modality::Image), x);
        lemma_push_if_counted(r2, "audio"@, modality_uses(ms, Modality::Audio), x);
        lemma_push_if_counted(r3, "video"@, modality_uses(ms, Modality::Video), x);
        lemma_push_if_counted(r4, "pdf"@, modality_uses(ms, Modality::Pdf), x);
        assert(r5.contains(x));
    }
}

/// The capability table is complete: reasoning, tool calls, attachments and
/// structured output each have a row, under a name a capability search
/// knows, whenever some model has them; temperature is never counted.
pub proof fn law_capability_table_complete(ms: Seq<Model>)
    ensures
        forall|c: Capability|
            c != Capability::Temperature && #[trigger] select(ms, Criterion::Capability(c)).len() > 0
                ==> exists|name: Seq<char>|
                capability_named(name) == Some(c) && #[trigger] capability_rows(ms).contains(
                    (name, select(ms, Criterion::Capability(c)).len()),
                ),
        forall|i: int|
            0 <= i < capability_rows(ms).len() ==> capability_named((#[trigger] capability_rows(ms)[i]).0)
                != Some(Capability::Temperature),
{
    reveal_strlit("reasoning");
    reveal_strlit("tool_call");
    reveal_strlit("attachment");
    reveal_strlit("structured_output");
    reveal_strlit("temperature");
    assert("tool_call"@[0] != "reasoning"@[0]);
    assert("attachment"@[0] != "reasoning"@[0] && "attachment"@[0] != "tool_call"@[0]);
    assert("structured_output"@[0] != "reasoning"@[0] && "structured_output"@[0] != "tool_call"@[0]
        && "structured_output"@[0] != "attachment"@[0]);
    assert("temperature"@[0] != "reasoning"@[0] && "temperature"@[1] != "tool_call"@[1]
        && "temperature"@[0] != "attachment"@[0] && "temperature"@[0] != "structured_output"@[0]);
    let cnt = |c: Capability| count_of(ms, Criterion::Capability(c));
    let r0 = Seq::<(Seq<char>, nat)>::empty();
    let r1 = push_if_counted(r0, "reasoning"@, cnt(Capability::Reasoning));
    let r2 = push_if_counted(r1, "tool_call"@, cnt(Capability::ToolCall));
    let r3 = push_if_counted(r2, "attachment"@, cnt(Capability::Attachment));
    let r4 = push_if_counted(r3, "structured_output"@, cnt(Capability::StructuredOutput));
    assert(r4 == capability_rows(ms));
    assert forall|c: Capability|
        c != Capability::Temperature && #[trigger] select(ms, Criterion::Capability(c)).len() > 0 implies exists|
        name: Seq<char>|
        capability_named(name) == Some(c) && #[trigger] capability_rows(ms).contains(
            (name, select(ms, Criterion::Capability(c)).len()),
        ) by {
        let name = match c {
            Capability::Reasoning => "reasoning"@,
            Capability::ToolCall => "tool_call"@,
            Capability::Attachment => "attachment"@,
            Capability::StructuredOutput => "structured_output"@,
            Capability::Temperature => "temperature"@,
        };
        assert(capability_named(name) == Some(c));
        let x = (name, select(ms, Criterion::Capability(c)).len());
        lemma_push_if_counted(r0, "reasoning"@, cnt(Capability::Reasoning), x);
        lemma_push_if_counted(r1, "tool_call"@, cnt(Capability::ToolCall), x);
        lemma_push_if_counted(r2, "attachment"@, cnt(Capability::Attachment), x);
        lemma_push_if_counted(r3, "structured_output"@, cnt(Capability::StructuredOutput), x);
        assert(r4.contains(x));
    }
    law_capability_counts_match_search(ms);
}

} // verus!
