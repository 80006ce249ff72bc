use vstd::prelude::*;

verus! {

/// A kind of content a model reads or writes.
#[derive(Debug, Clone, Copy, PartialEq, Eq, Structural)]
pub enum Modality {
    Text,
    Image,
    Audio,
    Video,
    Pdf,
}

/// The kinds of content a model accepts and produces.
#[derive(Debug)]
pub struct Modalities {
    pub input: Vec<Modality>,
    pub output: Vec<Modality>,
}

fn copy_modalities(v: &Vec<Modality>) -> (r: Vec<Modality>)
    ensures
        r@ == v@,
{
    let mut r: Vec<Modality> = Vec::new();
    let mut i: usize = 0;
    while i < v.len()
        invariant
            i <= v.len(),
            r@ == v@.take(i as int),
        decreases v.len() - i,
    {
        r.push(v[i]);
        proof {
            assert(v@.take(i + 1) =~= v@.take(i as int).push(v@[i as int]));
        }
        i = i + 1;
    }
    proof {
        assert(v@.take(v.len() as int) =~= v@);
    }
    r
}

impl Clone for Modalities {
    fn clone(&self) -> (r: Self)
        ensures
            r.input@ == self.input@,
            r.output@ == self.output@,
    {
        Modalities { input: copy_modalities(&self.input), output: copy_modalities(&self.output) }
    }
}

/// Prices of a model, in dollars per million tokens.
///
/// Each price is held as the bit pattern of an IEEE-754 binary64 number
/// (what `f64::to_bits` gives), so that no precision is lost and the
/// validation rules can be decided on integers.
#[derive(Debug)]
pub struct Cost {
    pub input: u64,
    pub output: u64,
    pub reasoning: Option<u64>,
    pub cache_read: Option<u64>,
    pub cache_write: Option<u64>,
    pub input_audio: Option<u64>,
    pub output_audio: Option<u64>,
    pub context_over_200k: Option<Box<Cost>>,
}

impl Clone for Cost {
    fn clone(&self) -> (r: Self)
        ensures
            r == *self,
        decreases self,
    {
        let context_over_200k = match &self.context_over_200k {
            Some(inner) => Some(Box::new((**inner).clone())),
            None => None,
        };
        Cost {
            input: self.input,
            output: self.output,
            reasoning: self.reasoning,
            cache_read: self.cache_read,
            cache_write: self.cache_write,
            input_audio: self.input_audio,
            output_audio: self.output_audio,
            context_over_200k,
        }
    }
}

/// Token limits of a model.
#[derive(Debug, Clone)]
pub struct Limit {
    pub context: usize,
    pub input: Option<usize>,
    pub output: usize,
}

/// Release status of a model.
#[derive(Debug, Clone, Copy, PartialEq, Eq, Structural)]
pub enum ModelStatus {
    Alpha,
    Beta,
    Deprecated,
}

/// The response field that carries interleaved reasoning.
#[derive(Debug, Clone, Copy, PartialEq, Eq, Structural)]
pub enum InterleavedField {
    ReasoningContent,
    ReasoningDetails,
}

/// Whether (and how) a model interleaves reasoning with its answer.
#[derive(Debug, Clone, Copy, PartialEq, Eq, Structural)]
pub enum Interleaved {
    Boolean(bool),
    Object { field: InterleavedField },
}

/// Provider-specific overrides for a model.
#[derive(Debug)]
pub struct ProviderInfo {
    pub npm: Option<String>,
    pub api: Option<String>,
}

fn copy_text(s: &Option<String>) -> (r: Option<String>)
    ensures
        r == *s,
{
    match s {
        Some(t) => Some(t.clone()),
        None => None,
    }
}

impl Clone for ProviderInfo {
    fn clone(&self) -> (r: Self)
        ensures
            r == *self,
    {
        ProviderInfo { npm: copy_text(&self.npm), api: copy_text(&self.api) }
    }
}

/// One AI model as described in the database.
#[derive(Debug)]
pub struct Model {
    pub id: String,
    pub name: String,
    pub family: Option<String>,
    pub attachment: bool,
    pub reasoning: bool,
    pub tool_call: bool,
    pub interleaved: Option<Interleaved>,
    pub structured_output: Option<bool>,
    pub temperature: Option<bool>,
    pub knowledge: Option<String>,
    pub release_date: String,
    pub last_updated: String,
    pub modalities: Modalities,
    pub open_weights: bool,
    pub cost: Option<Cost>,
    pub limit: Limit,
    pub status: Option<ModelStatus>,
    pub provider: Option<ProviderInfo>,
}

/// `c` holds what `m` holds: equal fields, equal lists of modalities.
pub open spec fn is_copy_of(c: Model, m: Model) -> bool {
    &&& c.id == m.id
    &&& c.name == m.name
    &&& c.family == m.family
    &&& c.attachment == m.attachment
    &&& c.reasoning == m.reasoning
    &&& c.tool_call == m.tool_call
    &&& c.interleaved == m.interleaved
    &&& c.structured_output == m.structured_output
    &&& c.temperature == m.temperature
    &&& c.knowledge == m.knowledge
    &&& c.release_date == m.release_date
    &&& c.last_updated == m.last_updated
    &&& c.modalities.input@ == m.modalities.input@
    &&& c.modalities.output@ == m.modalities.output@
    &&& c.open_weights == m.open_weights
    &&& c.cost == m.cost
    &&& c.limit == m.limit
    &&& c.status == m.status
    &&& c.provider == m.provider
}

impl Clone for Model {
    fn clone(&self) -> (r: Self)
        ensures
            is_copy_of(r, *self),
    {
        let cost = match &self.cost {
            Some(c) => Some(c.clone()),
            None => None,
        };
        let provider = match &self.provider {
            Some(p) => Some(p.clone()),
            None => None,
        };
        Model {
            id: self.id.clone(),
            name: self.name.clone(),
            family: copy_text(&self.family),
            attachment: self.attachment,
            reasoning: self.reasoning,
            tool_call: self.tool_call,
            interleaved: self.interleaved,
            structured_output: self.structured_output,
            temperature: self.temperature,
            knowledge: copy_text(&self.knowledge),
            release_date: self.release_date.clone(),
            last_updated: self.last_updated.clone(),
            modalities: self.modalities.clone(),
            open_weights: self.open_weights,
            cost,
            limit: Limit { context: self.limit.context, input: self.limit.input, output: self.limit.output },
            status: self.status,
            provider,
        }
    }
}

/// The models of a provider, each stored under its `id`; no id occurs twice.
#[derive(Debug)]
pub struct ModelMap {
    items: Vec<Model>,
}

impl View for ModelMap {
    type V = Seq<Model>;

    /// The models, in the order in which their ids were first stored.
    closed spec fn view(&self) -> Seq<Model> {
        self.items@
    }
}

impl ModelMap {
    /// No two models share an id.
    #[verifier::type_invariant]
    pub open spec fn inv(self) -> bool {
        keys_distinct(self@)
    }

    /// A map without models.
    pub fn new() -> (r: ModelMap)
        ensures
            r@ == Seq::<Model>::empty(),
    {
        ModelMap { items: Vec::new() }
    }

    /// Every model of `models` stored in turn under its id; when two share
    /// an id, the later one is kept, at the place of the first.
    pub fn from_models(models: Vec<Model>) -> (r: ModelMap)
        ensures
            r@ == store_all(models@),
    {
        let items = store_each(models);
        proof {
            lemma_store_all_keys_distinct(models@);
        }
        ModelMap { items }
    }

    /// Stores `m` under its id, replacing a model stored under it.
    pub fn insert(&mut self, m: Model)
        ensures
            final(self)@ == store(old(self)@, m),
    {
        proof {
            use_type_invariant(&*self);
            lemma_store_keeps_keys_distinct(self@, m);
        }
        let mut items: Vec<Model> = Vec::new();
        std::mem::swap(&mut items, &mut self.items);
        store_item(&mut items, m);
        self.items = items;
    }

    /// The model stored under `id`.
    pub fn get(&self, id: &str) -> (r: Option<&Model>)
        ensures
            match r {
                Some(m) => lookup(self@, id@) == Some(*m),
                None => lookup(self@, id@) is None,
            },
    {
        match position_of(&self.items, id) {
            Some(i) => Some(&self.items[i]),
            None => None,
        }
    }

    /// The number of models.
    pub fn len(&self) -> (n: usize)
        ensures
            n == self@.len(),
    {
        self.items.len()
    }

    /// The models, in their stored order.
    pub fn items(&self) -> (r: &Vec<Model>)
        ensures
            r@ == self@,
            keys_distinct(self@),
    {
        proof {
            use_type_invariant(self);
        }
        &self.items
    }

    /// The models, in their stored order, taken out of the map.
    pub fn into_models(self) -> (r: Vec<Model>)
        ensures
            r@ == self@,
    {
        self.items
    }
}

impl Clone for ModelMap {
    fn clone(&self) -> (r: Self)
        ensures
            r@.len() == self@.len(),
            forall|i: int| 0 <= i < self@.len() ==> is_copy_of(#[trigger] r@[i], self@[i]),
    {
        proof {
            use_type_invariant(self);
        }
        let items = self.items.clone();
        proof {
            assert forall|i: int| 0 <= i < items@.len() implies is_copy_of(#[trigger] items@[i], self.items@[i]) by {
                assert(cloned::<Model>(self.items[i], items[i]));
            }
            assert forall|i: int, j: int|
                0 <= i < items@.len() && 0 <= j < items@.len() && i != j implies #[trigger] items@[i].key()
                    != #[trigger] items@[j].key() by {
                assert(is_copy_of(items@[i], self.items@[i]));
                assert(is_copy_of(items@[j], self.items@[j]));
                assert(self.items@[i].key() != self.items@[j].key());
            }
        }
        ModelMap { items }
    }
}

/// A provider of models. Its models are keyed by their `id`.
#[derive(Debug, Clone)]
pub struct Provider {
    pub id: String,
    pub name: String,
    pub npm: String,
    pub env: Vec<String>,
    pub api: Option<String>,
    pub doc: String,
    pub models: ModelMap,
}

/// A value that is stored under a textual key.
pub trait Keyed {
    spec fn key(&self) -> Seq<char>;

    fn key_string(&self) -> (r: &String)
        ensures
            r@ == self.key(),
    ;
}

impl Keyed for Model {
    open spec fn key(&self) -> Seq<char> {
        self.id@
    }

    fn key_string(&self) -> (r: &String) {
        &self.id
    }
}

impl Keyed for Provider {
    open spec fn key(&self) -> Seq<char> {
        self.id@
    }

    fn key_string(&self) -> (r: &String) {
        &self.id
    }
}

/// `i` is the first position of `s` whose key is `k`.
pub open spec fn is_first_with_key<T: Keyed>(s: Seq<T>, k: Seq<char>, i: int) -> bool {
    &&& 0 <= i < s.len()
    &&& s[i].key() == k
    &&& forall|j: int| 0 <= j < i ==> #[trigger] s[j].key() != k
}

/// The first position of `s` whose key is `k`, or -1 if there is none.
pub open spec fn position_of_key<T: Keyed>(s: Seq<T>, k: Seq<char>) -> int {
    if exists|i: int| is_first_with_key(s, k, i) {
        choose|i: int| is_first_with_key(s, k, i)
    } else {
        -1
    }
}

/// The item of `s` stored under `k`: the first one with that key.
pub open spec fn lookup<T: Keyed>(s: Seq<T>, k: Seq<char>) -> Option<T> {
    let i = position_of_key(s, k);
    if i >= 0 {
        Some(s[i])
    } else {
        None
    }
}

/// `s` with `x` stored under its key: the item with that key is replaced
/// in place, or `x` is appended when the key is new.
pub open spec fn store<T: Keyed>(s: Seq<T>, x: T) -> Seq<T> {
    let i = position_of_key(s, x.key());
    if i >= 0 {
        s.update(i, x)
    } else {
        s.push(x)
    }
}

/// No two items of `s` share a key.
pub open spec fn keys_distinct<T: Keyed>(s: Seq<T>) -> bool {
    forall|i: int, j: int|
        0 <= i < s.len() && 0 <= j < s.len() && i != j ==> #[trigger] s[i].key() != #[trigger] s[j].key()
}

pub proof fn lemma_first_unique<T: Keyed>(s: Seq<T>, k: Seq<char>, i: int, j: int)
    requires
        is_first_with_key(s, k, i),
        is_first_with_key(s, k, j),
    ensures
        i == j,
{
    if i < j {
        assert(s[i].key() != k);
    } else if j < i {
        assert(s[j].key() != k);
    }
}

pub proof fn lemma_position_found<T: Keyed>(s: Seq<T>, k: Seq<char>, i: int)
    requires
        is_first_with_key(s, k, i),
    ensures
        position_of_key(s, k) == i,
{
    let c = choose|c: int| is_first_with_key(s, k, c);
    lemma_first_unique(s, k, c, i);
}

pub proof fn lemma_position_absent<T: Keyed>(s: Seq<T>, k: Seq<char>)
    requires
        forall|j: int| 0 <= j < s.len() ==> #[trigger] s[j].key() != k,
    ensures
        position_of_key(s, k) == -1,
{
}

pub proof fn lemma_position_range<T: Keyed>(s: Seq<T>, k: Seq<char>)
    ensures
        position_of_key(s, k) == -1 || is_first_with_key(s, k, position_of_key(s, k)),
        position_of_key(s, k) == -1 ==> forall|j: int| 0 <= j < s.len() ==> #[trigger] s[j].key() != k,
{
    if !(exists|i: int| is_first_with_key(s, k, i)) {
        assert forall|j: int| 0 <= j < s.len() implies #[trigger] s[j].key() != k by {
            if s[j].key() == k {
                // the smallest such index would be a first position
                lemma_exists_first(s, k, j);
            }
        }
    }
}

proof fn lemma_exists_first<T: Keyed>(s: Seq<T>, k: Seq<char>, j: int)
    requires
        0 <= j < s.len(),
        s[j].key() == k,
    ensures
        exists|i: int| is_first_with_key(s, k, i),
    decreases j,
{
    if forall|m: int| 0 <= m < j ==> #[trigger] s[m].key() != k {
        assert(is_first_with_key(s, k, j));
    } else {
        let m = choose|m: int| 0 <= m < j && #[trigger] s[m].key() == k;
        lemma_exists_first(s, k, m);
    }
}

/// Every item of `s` stored in turn, starting from an empty sequence.
pub open spec fn store_all<T: Keyed>(s: Seq<T>) -> Seq<T>
    decreases s.len(),
{
    if s.len() == 0 {
        Seq::empty()
    } else {
        store(store_all(s.drop_last()), s.last())
    }
}

/// Stores `x` under its key in `items`.
pub fn store_item<T: Keyed>(items: &mut Vec<T>, x: T)
    ensures
        final(items)@ == store(old(items)@, x),
{
    let pos = position_of(items, x.key_string().as_str());
    match pos {
        Some(i) => {
            items.set(i, x);
        },
        None => {
            items.push(x);
        },
    }
}

/// Stores every item of `xs`, in order, into an empty sequence.
pub fn store_each<T: Keyed>(xs: Vec<T>) -> (r: Vec<T>)
    ensures
        r@ == store_all(xs@),
{
    let ghost all = xs@;
    let mut r: Vec<T> = Vec::new();
    for x in it: xs.into_iter()
        invariant
            it.seq() == all,
            r@ == store_all(all.take(it.index() as int)),
    {
        proof {
            let i = it.index() as int;
            assert(all.take(i + 1).drop_last() =~= all.take(i));
        }
        store_item(&mut r, x);
    }
    proof {
        assert(all.take(all.len() as int) =~= all);
    }
    r
}

/// Finds the position of the first item of `items` whose key is `key`.
pub fn position_of<T: Keyed>(items: &Vec<T>, key: &str) -> (r: Option<usize>)
    ensures
        match r {
            Some(i) => is_first_with_key(items@, key@, i as int) && position_of_key(items@, key@) == i,
            None => position_of_key(items@, key@) == -1,
        },
{
    let wanted = String::from_str(key);
    let mut i: usize = 0;
    while i < items.len()
        invariant
            i <= items.len(),
            wanted@ == key@,
            forall|j: int| 0 <= j < i ==> #[trigger] items@[j].key() != key@,
        decreases items.len() - i,
    {
        if *items[i].key_string() == wanted {
            proof {
                lemma_position_found(items@, key@, i as int);
            }
            return Some(i);
        }
        i = i + 1;
    }
    proof {
        lemma_position_absent(items@, key@);
    }
    None
}


/// Storing `x` makes `x` the item found under its key, and adds one item
/// exactly when the key was new.
pub proof fn lemma_store_then_lookup<T: Keyed>(s: Seq<T>, x: T)
    ensures
        lookup(store(s, x), x.key()) == Some(x),
        store(s, x).len() == s.len() + (if lookup(s, x.key()) is None { 1int } else { 0int }),
{
    let k = x.key();
    lemma_position_range(s, k);
    let i = position_of_key(s, k);
    let t = store(s, x);
    if i >= 0 {
        assert forall|j: int| 0 <= j < i implies #[trigger] t[j].key() != k by {
            assert(t[j] == s[j]);
        }
        assert(is_first_with_key(t, k, i));
        lemma_position_found(t, k, i);
    } else {
        assert forall|j: int| 0 <= j < s.len() implies #[trigger] t[j].key() != k by {
            assert(t[j] == s[j]);
        }
        assert(is_first_with_key(t, k, s.len() as int));
        lemma_position_found(t, k, s.len() as int);
    }
}

/// Storing `x` leaves every other key as it was.
pub proof fn lemma_store_keeps_others<T: Keyed>(s: Seq<T>, x: T, k: Seq<char>)
    requires
        k != x.key(),
    ensures
        lookup(store(s, x), k) == lookup(s, k),
{
    lemma_position_range(s, x.key());
    lemma_position_range(s, k);
    let t = store(s, x);
    let i = position_of_key(s, x.key());
    let p = position_of_key(s, k);
    assert forall|j: int| 0 <= j < t.len() && #[trigger] t[j].key() == k implies 0 <= j < s.len() && t[j] == s[j] by {
        if i >= 0 {
            if j == i {
                assert(t[j] == x);
            }
        } else {
            if j == s.len() {
                assert(t[j] == x);
            }
        }
    }
    if p >= 0 {
        assert forall|j: int| 0 <= j < p implies #[trigger] t[j].key() != k by {
            if t[j].key() == k {
                assert(t[j] == s[j]);
            }
        }
        assert(t[p] == s[p]);
        assert(is_first_with_key(t, k, p));
        lemma_position_found(t, k, p);
    } else {
        assert forall|j: int| 0 <= j < t.len() implies #[trigger] t[j].key() != k by {
            if t[j].key() == k {
                assert(t[j] == s[j]);
            }
        }
        lemma_position_absent(t, k);
    }
}

/// Storing keeps the keys of a sequence distinct.
pub proof fn lemma_store_keeps_keys_distinct<T: Keyed>(s: Seq<T>, x: T)
    requires
        keys_distinct(s),
    ensures
        keys_distinct(store(s, x)),
{
    lemma_position_range(s, x.key());
    let t = store(s, x);
    let i = position_of_key(s, x.key());
    assert forall|a: int, b: int|
        0 <= a < t.len() && 0 <= b < t.len() && a != b implies #[trigger] t[a].key() != #[trigger] t[b].key() by {
        if i >= 0 {
            if a != i && b != i {
                assert(t[a] == s[a] && t[b] == s[b]);
            } else if a == i {
                assert(t[b] == s[b]);
                assert(s[i].key() == x.key());
            } else {
                assert(t[a] == s[a]);
                assert(s[i].key() == x.key());
            }
        } else {
            if a < s.len() && b < s.len() {
                assert(t[a] == s[a] && t[b] == s[b]);
            } else if a == s.len() {
                assert(t[b] == s[b]);
            } else {
                assert(t[a] == s[a]);
            }
        }
    }
}

/// Storing the same item twice is the same as storing it once.
pub proof fn lemma_store_idempotent<T: Keyed>(s: Seq<T>, x: T)
    ensures
        store(store(s, x), x) == store(s, x),
{
    let t = store(s, x);
    lemma_store_then_lookup(s, x);
    lemma_position_range(t, x.key());
    let i = position_of_key(t, x.key());
    assert(i >= 0);
    assert(t[i] == x);
    assert(t.update(i, x) =~= t);
}


/// The last item of `s` whose key is `k`, if any.
pub open spec fn last_with_key<T: Keyed>(s: Seq<T>, k: Seq<char>) -> Option<T>
    decreases s.len(),
{
    if s.len() == 0 {
        None
    } else if s.last().key() == k {
        Some(s.last())
    } else {
        last_with_key(s.drop_last(), k)
    }
}

/// With distinct keys, each item is the one found under its key.
pub proof fn lemma_lookup_distinct<T: Keyed>(s: Seq<T>, j: int)
    requires
        keys_distinct(s),
        0 <= j < s.len(),
    ensures
        lookup(s, s[j].key()) == Some(s[j]),
{
    assert forall|i: int| 0 <= i < j implies #[trigger] s[i].key() != s[j].key() by {
        assert(s[i].key() != s[j].key());
    }
    assert(is_first_with_key(s, s[j].key(), j));
    lemma_position_found(s, s[j].key(), j);
}

/// Appending an item does not change what is found under a key already present.
pub proof fn lemma_lookup_push<T: Keyed>(s: Seq<T>, x: T, k: Seq<char>)
    requires
        lookup(s, k) is Some,
    ensures
        lookup(s.push(x), k) == lookup(s, k),
{
    lemma_position_range(s, k);
    let i = position_of_key(s, k);
    let t = s.push(x);
    assert forall|j: int| 0 <= j < i implies #[trigger] t[j].key() != k by {
        assert(t[j] == s[j]);
    }
    assert(is_first_with_key(t, k, i));
    lemma_position_found(t, k, i);
}

/// Storing items one after another, the item found under a key is the
/// last one stored with that key.
pub proof fn lemma_store_all_lookup<T: Keyed>(s: Seq<T>, k: Seq<char>)
    ensures
        lookup(store_all(s), k) == last_with_key(s, k),
    decreases s.len(),
{
    if s.len() == 0 {
        lemma_position_absent(Seq::<T>::empty(), k);
    } else {
        lemma_store_all_lookup(s.drop_last(), k);
        if s.last().key() == k {
            lemma_store_then_lookup(store_all(s.drop_last()), s.last());
        } else {
            lemma_store_keeps_others(store_all(s.drop_last()), s.last(), k);
        }
    }
}

/// Storing items one after another never leaves two items with one key.
pub proof fn lemma_store_all_keys_distinct<T: Keyed>(s: Seq<T>)
    ensures
        keys_distinct(store_all(s)),
    decreases s.len(),
{
    if s.len() > 0 {
        lemma_store_all_keys_distinct(s.drop_last());
        lemma_store_keeps_keys_distinct(store_all(s.drop_last()), s.last());
    }
}

} // verus!
