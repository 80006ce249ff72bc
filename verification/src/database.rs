use vstd::prelude::*;
use crate::models::{
    Keyed, Model, Provider, keys_distinct, lemma_store_idempotent, lemma_store_keeps_keys_distinct, lemma_store_keeps_others,
    lemma_store_then_lookup, lemma_lookup_distinct, lemma_lookup_push, lookup, position_of, store, store_item,
};

verus! {

/// The whole model database: providers keyed by their `id`, in the order
/// in which they were first added.
pub struct Database {
    providers: Vec<Provider>,
}

impl View for Database {
    type V = Seq<Provider>;

    /// The providers, in the order in which their ids were first added.
    closed spec fn view(&self) -> Seq<Provider> {
        self.providers@
    }
}

/// Every (provider id, model) pair of the database, provider by provider,
/// each provider's models in their stored order.
pub open spec fn all_entries(ps: Seq<Provider>) -> Seq<(Seq<char>, Model)>
    decreases ps.len(),
{
    if ps.len() == 0 {
        Seq::empty()
    } else {
        all_entries(ps.drop_last()) + provider_entries(ps.last())
    }
}

/// The (provider id, model) pairs of one provider.
pub open spec fn provider_entries(p: Provider) -> Seq<(Seq<char>, Model)> {
    p.models@.map_values(|m: Model| (p.id@, m))
}

/// Every model of the database, in the order of `all_entries`.
pub open spec fn all_models_of(ps: Seq<Provider>) -> Seq<Model> {
    all_entries(ps).map_values(|e: (Seq<char>, Model)| e.1)
}

/// The model stored under `model_id` by the provider stored under `provider_id`.
pub open spec fn lookup_model(ps: Seq<Provider>, provider_id: Seq<char>, model_id: Seq<char>) -> Option<Model> {
    match lookup(ps, provider_id) {
        Some(p) => lookup(p.models@, model_id),
        None => None,
    }
}

pub proof fn lemma_entries_prefix(ps: Seq<Provider>, i: int)
    requires
        0 <= i <= ps.len(),
    ensures
        all_entries(ps.take(i)).len() <= all_entries(ps).len(),
        all_entries(ps.take(i)) == all_entries(ps).take(all_entries(ps.take(i)).len() as int),
    decreases ps.len(),
{
    if i == ps.len() {
        assert(ps.take(i) =~= ps);
    } else {
        assert(ps.take(i) =~= ps.drop_last().take(i));
        lemma_entries_prefix(ps.drop_last(), i);
        let a = all_entries(ps.drop_last());
        let n = all_entries(ps.take(i)).len() as int;
        assert(all_entries(ps) == a + provider_entries(ps.last()));
        assert((a + provider_entries(ps.last())).take(n) =~= a.take(n));
    }
}

pub proof fn lemma_entries_step(ps: Seq<Provider>, i: int)
    requires
        0 <= i < ps.len(),
    ensures
        all_entries(ps.take(i + 1)) == all_entries(ps.take(i)) + provider_entries(ps[i]),
{
    assert(ps.take(i + 1).drop_last() =~= ps.take(i));
    assert(ps.take(i + 1).last() == ps[i]);
}

impl Database {
    /// No provider id is used twice, nor a model id twice within a provider.
    #[verifier::type_invariant]
    pub open spec fn inv(self) -> bool {
        well_keyed(self@)
    }

    /// An empty database.
    pub fn new() -> (db: Database)
        ensures
            db@ == Seq::<Provider>::empty(),
    {
        Database { providers: Vec::new() }
    }

    /// Adds a provider under its id; a provider already stored under that
    /// id is replaced in place.
    pub fn add_provider(&mut self, provider: Provider)
        ensures
            final(self)@ == store(old(self)@, provider),
    {
        proof {
            use_type_invariant(&*self);
            use_type_invariant(&provider.models);
            law_add_keeps_well_keyed(self@, provider);
        }
        let mut providers: Vec<Provider> = Vec::new();
        std::mem::swap(&mut providers, &mut self.providers);
        store_item(&mut providers, provider);
        self.providers = providers;
    }

    /// The providers, in the order in which their ids were first added.
    pub fn providers(&self) -> (r: &Vec<Provider>)
        ensures
            r@ == self@,
            well_keyed(self@),
    {
        proof {
            use_type_invariant(self);
        }
        &self.providers
    }

    /// The providers, taken out of the database.
    pub fn into_providers(self) -> (r: Vec<Provider>)
        ensures
            r@ == self@,
    {
        self.providers
    }

    /// The provider stored under `id`.
    pub fn get_provider(&self, id: &str) -> (r: Option<&Provider>)
        ensures
            match r {
                Some(p) => lookup(self@, id@) == Some(*p),
                None => lookup(self@, id@) is None,
            },
    {
        match position_of(&self.providers, id) {
            Some(i) => Some(&self.providers[i]),
            None => None,
        }
    }

    /// The model stored under `model_id` by the provider stored under `provider_id`.
    pub fn get_model(&self, provider_id: &str, model_id: &str) -> (r: Option<&Model>)
        ensures
            match r {
                Some(m) => lookup_model(self@, provider_id@, model_id@) == Some(*m),
                None => lookup_model(self@, provider_id@, model_id@) is None,
            },
    {
        let provider = match self.get_provider(provider_id) {
            Some(p) => p,
            None => {
                return None;
            },
        };
        provider.models.get(model_id)
    }

    /// Every (provider id, model id, model) triple of the database.
    pub fn all_models(&self) -> (r: Vec<(&String, &String, &Model)>)
        ensures
            r@.len() == all_entries(self@).len(),
            forall|i: int|
                0 <= i < r@.len() ==> {
                    &&& (#[trigger] r@[i]).0@ == all_entries(self@)[i].0
                    &&& r@[i].1@ == all_entries(self@)[i].1.id@
                    &&& *r@[i].2 == all_entries(self@)[i].1
                },
    {
        let ghost ps = self@;
        let mut r: Vec<(&String, &String, &Model)> = Vec::new();
        let mut i: usize = 0;
        while i < self.providers.len()
            invariant
                ps == self.providers@,
                i <= ps.len(),
                r@.len() == all_entries(ps.take(i as int)).len(),
                forall|k: int|
                    0 <= k < r@.len() ==> {
                        &&& (#[trigger] r@[k]).0@ == all_entries(ps.take(i as int))[k].0
                        &&& r@[k].1@ == all_entries(ps.take(i as int))[k].1.id@
                        &&& *r@[k].2 == all_entries(ps.take(i as int))[k].1
                    },
            decreases ps.len() - i,
        {
            let p = &self.providers[i];
            let ghost base = all_entries(ps.take(i as int));
            let models = p.models.items();
            let mut j: usize = 0;
            while j < models.len()
                invariant
                    ps == self.providers@,
                    i < ps.len(),
                    *p == ps[i as int],
                    models@ == p.models@,
                    j <= p.models@.len(),
                    base == all_entries(ps.take(i as int)),
                    r@.len() == base.len() + j,
                    forall|k: int|
                        0 <= k < r@.len() ==> {
                            &&& (#[trigger] r@[k]).0@ == (base + provider_entries(*p))[k].0
                            &&& r@[k].1@ == (base + provider_entries(*p))[k].1.id@
                            &&& *r@[k].2 == (base + provider_entries(*p))[k].1
                        },
                decreases p.models@.len() - j,
            {
                let m = &models[j];
                r.push((&p.id, &m.id, m));
                j = j + 1;
            }
            proof {
                lemma_entries_step(ps, i as int);
            }
            i = i + 1;
        }
        proof {
            assert(ps.take(ps.len() as int) =~= ps);
        }
        r
    }

    /// The number of models over all providers.
    pub fn model_count(&self) -> (n: usize)
        requires
            all_entries(self@).len() <= usize::MAX,
        ensures
            n == all_entries(self@).len(),
    {
        let ghost ps = self@;
        let mut n: usize = 0;
        let mut i: usize = 0;
        while i < self.providers.len()
            invariant
                ps == self.providers@,
                i <= ps.len(),
                all_entries(ps).len() <= usize::MAX,
                n == all_entries(ps.take(i as int)).len(),
            decreases ps.len() - i,
        {
            proof {
                lemma_entries_step(ps, i as int);
                lemma_entries_prefix(ps, i + 1);
            }
            n = n + self.providers[i].models.len();
            i = i + 1;
        }
        proof {
            assert(ps.take(ps.len() as int) =~= ps);
        }
        n
    }

    /// The number of providers.
    pub fn provider_count(&self) -> (n: usize)
        ensures
            n == self@.len(),
    {
        self.providers.len()
    }
}

impl Default for Database {
    fn default() -> (db: Self)
        ensures
            db@ == Seq::<Provider>::empty(),
    {
        Database::new()
    }
}

/// After `add_provider(p)`, `get_provider(p.id)` finds `p`.
pub proof fn law_add_then_get(providers: Seq<Provider>, p: Provider)
    ensures
        lookup(store(providers, p), p.id@) == Some(p),
{
    lemma_store_then_lookup(providers, p);
}

/// Adding a provider leaves the providers stored under other ids as they were.
pub proof fn law_add_keeps_other_providers(providers: Seq<Provider>, p: Provider, id: Seq<char>)
    requires
        id != p.id@,
    ensures
        lookup(store(providers, p), id) == lookup(providers, id),
{
    lemma_store_keeps_others(providers, p, id);
}

/// Adding a provider raises the provider count by one exactly when its id
/// was not yet stored.
pub proof fn law_add_provider_count(providers: Seq<Provider>, p: Provider)
    ensures
        store(providers, p).len() == providers.len() + (if lookup(providers, p.id@) is None { 1int } else { 0int }),
{
    lemma_store_then_lookup(providers, p);
}

/// A database built by adding providers never holds two providers with the same id.
pub proof fn law_add_keeps_ids_distinct(providers: Seq<Provider>, p: Provider)
    requires
        keys_distinct(providers),
    ensures
        keys_distinct(store(providers, p)),
{
    lemma_store_keeps_keys_distinct(providers, p);
}

/// Adding the same provider twice has the effect of adding it once.
pub proof fn law_add_provider_idempotent(providers: Seq<Provider>, p: Provider)
    ensures
        store(store(providers, p), p) == store(providers, p),
{
    lemma_store_idempotent(providers, p);
}


/// No provider id is used twice, nor a model id twice within a provider.
pub open spec fn well_keyed(ps: Seq<Provider>) -> bool {
    &&& keys_distinct(ps)
    &&& forall|j: int| 0 <= j < ps.len() ==> keys_distinct(#[trigger] ps[j].models@)
}

/// In a database without repeated ids, every model that `all_models` lists
/// under a provider id and a model id is the one `get_model` finds by them.
pub proof fn law_listed_models_can_be_fetched(ps: Seq<Provider>, i: int)
    requires
        well_keyed(ps),
        0 <= i < all_entries(ps).len(),
    ensures
        lookup_model(ps, all_entries(ps)[i].0, all_entries(ps)[i].1.id@) == Some(all_entries(ps)[i].1),
    decreases ps.len(),
{
    let init = ps.drop_last();
    let last = ps.last();
    assert(all_entries(ps) == all_entries(init) + provider_entries(last));
    let e = all_entries(ps)[i];
    if i < all_entries(init).len() {
        lemma_well_keyed_init(ps);
        assert(e == all_entries(init)[i]);
        law_listed_models_can_be_fetched(init, i);
        assert(ps =~= init.push(last));
        lemma_lookup_push(init, last, e.0);
    } else {
        let k = i - all_entries(init).len();
        assert(e == (last.id@, last.models@[k]));
        assert(keys_distinct(ps[ps.len() - 1].models@));
        lemma_lookup_distinct(ps, ps.len() - 1);
        lemma_lookup_distinct(last.models@, k);
    }
}


proof fn lemma_well_keyed_init(ps: Seq<Provider>)
    requires
        well_keyed(ps),
        ps.len() > 0,
    ensures
        well_keyed(ps.drop_last()),
{
    let init = ps.drop_last();
    assert forall|a: int, b: int|
        0 <= a < init.len() && 0 <= b < init.len() && a != b implies #[trigger] init[a].key()
            != #[trigger] init[b].key() by {
        assert(init[a] == ps[a] && init[b] == ps[b]);
    }
    assert forall|j: int| 0 <= j < init.len() implies keys_distinct(#[trigger] init[j].models@) by {
        assert(init[j] == ps[j]);
    }
}

/// The provider and the model that entry `k` of `all_entries(ps)` comes from.
proof fn entry_origin(ps: Seq<Provider>, k: int) -> (ij: (int, int))
    requires
        0 <= k < all_entries(ps).len(),
    ensures
        0 <= ij.0 < ps.len(),
        0 <= ij.1 < ps[ij.0].models@.len(),
        all_entries(ps)[k] == (ps[ij.0].id@, ps[ij.0].models@[ij.1]),
    decreases ps.len(),
{
    let init = ps.drop_last();
    assert(all_entries(ps) == all_entries(init) + provider_entries(ps.last()));
    if k < all_entries(init).len() {
        let ij = entry_origin(init, k);
        assert(init[ij.0] == ps[ij.0]);
        ij
    } else {
        ((ps.len() - 1) as int, k - all_entries(init).len())
    }
}

/// Every model stored by a provider is listed by `all_models`, under that
/// provider's id.
pub proof fn law_every_stored_model_listed(ps: Seq<Provider>, i: int, j: int)
    requires
        0 <= i < ps.len(),
        0 <= j < ps[i].models@.len(),
    ensures
        exists|k: int|
            0 <= k < all_entries(ps).len() && #[trigger] all_entries(ps)[k] == (ps[i].id@, ps[i].models@[j]),
    decreases ps.len(),
{
    let init = ps.drop_last();
    let a = all_entries(init);
    assert(all_entries(ps) == a + provider_entries(ps.last()));
    if i == ps.len() - 1 {
        assert(all_entries(ps)[a.len() + j] == (ps[i].id@, ps[i].models@[j]));
    } else {
        assert(init[i] == ps[i]);
        law_every_stored_model_listed(init, i, j);
        let k = choose|k: int| 0 <= k < a.len() && #[trigger] a[k] == (init[i].id@, init[i].models@[j]);
        assert(all_entries(ps)[k] == a[k]);
    }
}

/// In a database without repeated ids, `all_models` never lists the same
/// (provider id, model id) pair twice; with the law above, every stored
/// model is listed exactly once.
pub proof fn law_listed_pairs_distinct(ps: Seq<Provider>)
    requires
        well_keyed(ps),
    ensures
        forall|k1: int, k2: int|
            0 <= k1 < all_entries(ps).len() && 0 <= k2 < all_entries(ps).len() && k1 != k2 ==> {
                ||| (#[trigger] all_entries(ps)[k1]).0 != (#[trigger] all_entries(ps)[k2]).0
                ||| all_entries(ps)[k1].1.id@ != all_entries(ps)[k2].1.id@
            },
    decreases ps.len(),
{
    if ps.len() > 0 {
        let init = ps.drop_last();
        let last = ps.last();
        let a = all_entries(init);
        let e = all_entries(ps);
        assert(e == a + provider_entries(last));
        lemma_well_keyed_init(ps);
        law_listed_pairs_distinct(init);
        assert(keys_distinct(ps[ps.len() - 1].models@));
        assert forall|k1: int, k2: int|
            0 <= k1 < e.len() && 0 <= k2 < e.len() && k1 != k2 implies {
                ||| (#[trigger] e[k1]).0 != (#[trigger] e[k2]).0
                ||| e[k1].1.id@ != e[k2].1.id@
            } by {
            if k1 < a.len() && k2 < a.len() {
                assert(e[k1] == a[k1] && e[k2] == a[k2]);
            } else if k1 >= a.len() && k2 >= a.len() {
                assert(last.models@[k1 - a.len()].key() != last.models@[k2 - a.len()].key());
            } else if k1 < a.len() {
                let ij = entry_origin(init, k1);
                assert(ps[ij.0] == init[ij.0]);
                assert(ps[ij.0].key() != ps[ps.len() - 1].key());
            } else {
                let ij = entry_origin(init, k2);
                assert(ps[ij.0] == init[ij.0]);
                assert(ps[ij.0].key() != ps[ps.len() - 1].key());
            }
        }
    }
}

proof fn lemma_slash_join_injective(p1: Seq<char>, m1: Seq<char>, p2: Seq<char>, m2: Seq<char>)
    requires
        !p1.contains('/'),
        !p2.contains('/'),
        p1 + "/"@ + m1 == p2 + "/"@ + m2,
    ensures
        p1 == p2,
        m1 == m2,
{
    reveal_strlit("/");
    let k1 = p1 + "/"@ + m1;
    let k2 = p2 + "/"@ + m2;
    assert(k1[p1.len() as int] == '/');
    assert(k2[p2.len() as int] == '/');
    if p1.len() < p2.len() {
        assert(k2[p1.len() as int] == p2[p1.len() as int]);
        assert(p2.contains('/'));
    } else if p2.len() < p1.len() {
        assert(k1[p2.len() as int] == p1[p2.len() as int]);
        assert(p1.contains('/'));
    } else {
        assert(k1.subrange(0, p1.len() as int) =~= p1);
        assert(k2.subrange(0, p2.len() as int) =~= p2);
        assert(k1.subrange(p1.len() as int + 1, k1.len() as int) =~= m1);
        assert(k2.subrange(p2.len() as int + 1, k2.len() as int) =~= m2);
    }
}

/// In a database without repeated ids whose provider ids hold no `/`, the
/// ids `<provider id>/<model id>` that `get_all_model_ids` lists never repeat.
pub proof fn law_listed_model_ids_distinct(ps: Seq<Provider>)
    requires
        well_keyed(ps),
        forall|i: int| 0 <= i < ps.len() ==> !(#[trigger] ps[i].id@).contains('/'),
    ensures
        forall|k1: int, k2: int|
            0 <= k1 < all_entries(ps).len() && 0 <= k2 < all_entries(ps).len() && k1 != k2
                ==> (#[trigger] all_entries(ps)[k1]).0 + "/"@ + all_entries(ps)[k1].1.id@
                != (#[trigger] all_entries(ps)[k2]).0 + "/"@ + all_entries(ps)[k2].1.id@,
{
    law_listed_pairs_distinct(ps);
    let e = all_entries(ps);
    assert forall|k1: int, k2: int|
        0 <= k1 < e.len() && 0 <= k2 < e.len() && k1 != k2
            implies (#[trigger] e[k1]).0 + "/"@ + e[k1].1.id@ != (#[trigger] e[k2]).0 + "/"@ + e[k2].1.id@ by {
        let o1 = entry_origin(ps, k1);
        let o2 = entry_origin(ps, k2);
        assert(!ps[o1.0].id@.contains('/'));
        assert(!ps[o2.0].id@.contains('/'));
        if e[k1].0 + "/"@ + e[k1].1.id@ == e[k2].0 + "/"@ + e[k2].1.id@ {
            lemma_slash_join_injective(e[k1].0, e[k1].1.id@, e[k2].0, e[k2].1.id@);
        }
    }
}

/// Adding a provider whose model ids are distinct to a database without
/// repeated ids keeps it without repeated ids.
pub proof fn law_add_keeps_well_keyed(ps: Seq<Provider>, p: Provider)
    requires
        well_keyed(ps),
        keys_distinct(p.models@),
    ensures
        well_keyed(store(ps, p)),
{
    lemma_store_keeps_keys_distinct(ps, p);
    let t = store(ps, p);
    assert forall|j: int| 0 <= j < t.len() implies keys_distinct(#[trigger] t[j].models@) by {
        if t[j] != p {
            assert(j < ps.len() && t[j] == ps[j]);
        }
    }
}

} // verus!
