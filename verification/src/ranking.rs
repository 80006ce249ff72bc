use vstd::prelude::*;
use crate::stats::rows_view;
use crate::text::chars_of;

verus! {

/// `a` comes before `b` in dictionary order of characters.
pub open spec fn text_less(a: Seq<char>, b: Seq<char>) -> bool
    decreases a.len(),
{
    if a.len() == 0 {
        b.len() > 0
    } else if b.len() == 0 {
        false
    } else if a[0] != b[0] {
        a[0] < b[0]
    } else {
        text_less(a.drop_first(), b.drop_first())
    }
}

/// Row `a` is listed before row `b`: a higher count first, and among equal
/// counts the name that comes first in dictionary order.
pub open spec fn ranks_before(a: (Seq<char>, nat), b: (Seq<char>, nat)) -> bool {
    a.1 > b.1 || (a.1 == b.1 && text_less(a.0, b.0))
}

pub proof fn lemma_text_less_total(a: Seq<char>, b: Seq<char>)
    requires
        a != b,
    ensures
        text_less(a, b) || text_less(b, a),
    decreases a.len(),
{
    if a.len() > 0 && b.len() > 0 {
        if a[0] == b[0] {
            if a.drop_first() =~= b.drop_first() {
                assert(a =~= seq![a[0]] + a.drop_first());
                assert(b =~= seq![b[0]] + b.drop_first());
                assert(false);
            }
            lemma_text_less_total(a.drop_first(), b.drop_first());
        } else {
            assert(a[0] < b[0] || b[0] < a[0]);
        }
    } else if a.len() == 0 && b.len() == 0 {
        assert(a =~= b);
    }
}

pub proof fn lemma_text_less_transitive(a: Seq<char>, b: Seq<char>, c: Seq<char>)
    requires
        text_less(a, b),
        text_less(b, c),
    ensures
        text_less(a, c),
    decreases a.len(),
{
    if a.len() > 0 && b.len() > 0 && c.len() > 0 && a[0] == b[0] && b[0] == c[0] {
        lemma_text_less_transitive(a.drop_first(), b.drop_first(), c.drop_first());
    }
}

pub proof fn lemma_ranks_transitive(a: (Seq<char>, nat), b: (Seq<char>, nat), c: (Seq<char>, nat))
    requires
        ranks_before(a, b),
        ranks_before(b, c),
    ensures
        ranks_before(a, c),
{
    if a.1 == b.1 && b.1 == c.1 {
        lemma_text_less_transitive(a.0, b.0, c.0);
    }
}

pub proof fn lemma_ranks_total(a: (Seq<char>, nat), b: (Seq<char>, nat))
    requires
        a.0 != b.0,
    ensures
        ranks_before(a, b) || ranks_before(b, a),
{
    if a.1 == b.1 {
        lemma_text_less_total(a.0, b.0);
    }
}

/// Whether `a` comes before `b` in dictionary order of characters.
pub fn text_before(a: &str, b: &str) -> (r: bool)
    ensures
        r == text_less(a@, b@),
{
    let x = chars_of(a);
    let y = chars_of(b);
    let mut i: usize = 0;
    proof {
        assert(a@.skip(0) =~= a@);
        assert(b@.skip(0) =~= b@);
    }
    while i < x.len() && i < y.len()
        invariant
            x@ == a@,
            y@ == b@,
            i <= x@.len(),
            i <= y@.len(),
            text_less(a@, b@) == text_less(a@.skip(i as int), b@.skip(i as int)),
        decreases x.len() - i,
    {
        if x[i] != y[i] {
            return x[i] < y[i];
        }
        proof {
            assert(a@.skip(i as int).drop_first() =~= a@.skip(i + 1));
            assert(b@.skip(i as int).drop_first() =~= b@.skip(i + 1));
        }
        i = i + 1;
    }
    i == x.len() && i < y.len()
}

fn row_before(a: &(String, usize), b: &(String, usize)) -> (r: bool)
    ensures
        r == ranks_before((a.0@, a.1 as nat), (b.0@, b.1 as nat)),
{
    a.1 > b.1 || (a.1 == b.1 && text_before(a.0.as_str(), b.0.as_str()))
}

/// No two rows share a name.
pub open spec fn names_distinct(v: Seq<(Seq<char>, nat)>) -> bool {
    forall|a: int, b: int| 0 <= a < v.len() && 0 <= b < v.len() && a != b ==> (#[trigger] v[a]).0 != (#[trigger] v[b]).0
}

/// Whether no two rows share a name.
pub fn distinct_names(rows: &Vec<(String, usize)>) -> (r: bool)
    ensures
        r == names_distinct(rows_view(rows@)),
{
    let ghost v = rows_view(rows@);
    let mut i: usize = 0;
    while i < rows.len()
        invariant
            v == rows_view(rows@),
            i <= rows@.len(),
            forall|a: int, b: int| 0 <= a < i && 0 <= b < rows@.len() && a != b ==> (#[trigger] v[a]).0 != (#[trigger] v[b]).0,
        decreases rows.len() - i,
    {
        let mut j: usize = 0;
        while j < rows.len()
            invariant
                v == rows_view(rows@),
                i < rows@.len(),
                j <= rows@.len(),
                forall|a: int, b: int| 0 <= a < i && 0 <= b < rows@.len() && a != b ==> (#[trigger] v[a]).0 != (#[trigger] v[b]).0,
                forall|b: int| 0 <= b < j && b != i ==> v[i as int].0 != (#[trigger] v[b]).0,
            decreases rows.len() - j,
        {
            if j != i && rows[i].0 == rows[j].0 {
                proof {
                    assert(v[i as int].0 == v[j as int].0);
                }
                return false;
            }
            j = j + 1;
        }
        i = i + 1;
    }
    true
}

/// `t` lists the first `k` rows of `v` in ranking order: it is ordered by
/// `ranks_before`, holds `k` rows of `v`, and every row of `v` it leaves out
/// ranks after all of them.
pub open spec fn is_top(t: Seq<(Seq<char>, nat)>, v: Seq<(Seq<char>, nat)>, k: nat) -> bool {
    &&& t.len() == k
    &&& forall|i: int, j: int| 0 <= i < j < t.len() ==> ranks_before(#[trigger] t[i], #[trigger] t[j])
    &&& forall|i: int| 0 <= i < t.len() ==> v.contains(#[trigger] t[i])
    &&& forall|x: (Seq<char>, nat)|
        v.contains(x) && !t.contains(x) ==> forall|i: int| 0 <= i < t.len() ==> ranks_before(#[trigger] t[i], x)
}

/// The at most `n` rows with the highest counts, highest first; rows with
/// equal counts in dictionary order of their names.
pub fn top_rows(rows: &Vec<(String, usize)>, n: usize) -> (r: Vec<(String, usize)>)
    requires
        names_distinct(rows_view(rows@)),
    ensures
        is_top(rows_view(r@), rows_view(rows@), if n < rows@.len() { n as nat } else { rows@.len() }),
{
    let ghost v = rows_view(rows@);
    let len = rows.len();
    let k = if n < len { n } else { len };
    let mut taken: Vec<bool> = Vec::new();
    let mut t: usize = 0;
    while t < len
        invariant
            t <= len,
            taken@.len() == t,
            forall|j: int| 0 <= j < t ==> !taken@[j],
        decreases len - t,
    {
        taken.push(false);
        t = t + 1;
    }
    let mut out: Vec<(String, usize)> = Vec::new();
    let ghost mut idx: Seq<int> = Seq::empty();
    while out.len() < k
        invariant
            v == rows_view(rows@),
            names_distinct(v),
            len == rows@.len(),
            k <= len,
            taken@.len() == len,
            out@.len() == idx.len(),
            idx.len() <= k,
            forall|a: int|
                0 <= a < idx.len() ==> {
                    &&& 0 <= #[trigger] idx[a] < len
                    &&& taken@[idx[a]]
                    &&& rows_view(out@)[a] == v[idx[a]]
                },
            forall|j: int| 0 <= j < len && taken@[j] ==> idx.contains(j),
            forall|a: int, b: int| 0 <= a < b < idx.len() ==> ranks_before(v[#[trigger] idx[a]], v[#[trigger] idx[b]]),
            forall|a: int, j: int|
                0 <= a < idx.len() && 0 <= j < len && !taken@[j] ==> ranks_before(v[#[trigger] idx[a]], #[trigger] v[j]),
        decreases k - out.len(),
    {
        // some row is still free: otherwise every index would be in `idx`
        proof {
            if forall|j: int| 0 <= j < len ==> taken@[j] {
                assert(vstd::set_lib::set_int_range(0, len as int).subset_of(idx.to_set()));
                vstd::set_lib::lemma_int_range(0, len as int);
                idx.lemma_cardinality_of_set();
                vstd::seq_lib::seq_to_set_is_finite(idx);
                vstd::set_lib::lemma_len_subset(vstd::set_lib::set_int_range(0, len as int), idx.to_set());
                assert(false);
            }
        }
        let mut best: usize = len;
        let mut j: usize = 0;
        while j < len
            invariant
                v == rows_view(rows@),
                names_distinct(v),
                len == rows@.len(),
                taken@.len() == len,
                j <= len,
                best == len || (best < j && !taken@[best as int]),
                best == len ==> forall|m: int| 0 <= m < j ==> taken@[m],
                best < len ==> forall|m: int|
                    0 <= m < j && !taken@[m] && m != best ==> ranks_before(v[best as int], #[trigger] v[m]),
            decreases len - j,
        {
            if !taken[j] {
                if best == len || row_before(&rows[j], &rows[best]) {
                    proof {
                        if best < len {
                            assert forall|m: int|
                                0 <= m < j + 1 && !taken@[m] && m != j implies ranks_before(v[j as int], #[trigger] v[m]) by {
                                if m != best {
                                    lemma_ranks_transitive(v[j as int], v[best as int], v[m]);
                                }
                            }
                        }
                    }
                    best = j;
                } else {
                    proof {
                        assert(v[j as int].0 != v[best as int].0);
                        lemma_ranks_total(v[j as int], v[best as int]);
                    }
                }
            }
            j = j + 1;
        }
        proof {
            if best == len {
                let free = choose|m: int| 0 <= m < len && !taken@[m];
                assert(taken@[free]);
            }
        }
        let ghost before_out = out@;
        let ghost before_taken = taken@;
        out.push((rows[best].0.clone(), rows[best].1));
        taken.set(best, true);
        proof {
            let b = best as int;
            assert(!idx.contains(b)) by {
                if idx.contains(b) {
                    let a = choose|a: int| 0 <= a < idx.len() && idx[a] == b;
                }
            }
            let new_idx = idx.push(b);
            assert forall|a: int| 0 <= a < new_idx.len() implies rows_view(out@)[a] == v[#[trigger] new_idx[a]] by {
                if a < idx.len() {
                    assert(rows_view(out@)[a] == rows_view(before_out)[a]);
                }
            }
            assert forall|jj: int| 0 <= jj < len && taken@[jj] implies new_idx.contains(jj) by {
                if jj == b {
                    assert(new_idx[idx.len() as int] == b);
                } else {
                    assert(before_taken[jj]);
                    assert(idx.contains(jj));
                    let a = choose|a: int| 0 <= a < idx.len() && idx[a] == jj;
                    assert(new_idx[a] == jj);
                }
            }
            assert forall|a: int, c: int| 0 <= a < c < new_idx.len() implies
                ranks_before(v[#[trigger] new_idx[a]], v[#[trigger] new_idx[c]]) by {
                if c == idx.len() {
                    assert(!before_taken[b]);
                }
            }
            assert forall|a: int, jj: int|
                0 <= a < new_idx.len() && 0 <= jj < len && !taken@[jj] implies
                ranks_before(v[#[trigger] new_idx[a]], #[trigger] v[jj]) by {
                assert(!before_taken[jj]);
                assert(jj != b);
            }
            idx = new_idx;
        }
    }
    proof {
        let tv = rows_view(out@);
        assert forall|i: int| 0 <= i < tv.len() implies v.contains(#[trigger] tv[i]) by {
            assert(v[idx[i]] == tv[i]);
        }
        assert forall|i: int, j: int| 0 <= i < j < tv.len() implies ranks_before(#[trigger] tv[i], #[trigger] tv[j]) by {
            assert(tv[i] == v[idx[i]] && tv[j] == v[idx[j]]);
        }
        assert forall|x: (Seq<char>, nat)| v.contains(x) && !tv.contains(x) implies
            forall|i: int| 0 <= i < tv.len() ==> ranks_before(#[trigger] tv[i], x) by {
            let jx = choose|jx: int| 0 <= jx < v.len() && v[jx] == x;
            if taken@[jx] {
                assert(idx.contains(jx));
                let a = choose|a: int| 0 <= a < idx.len() && idx[a] == jx;
                assert(tv[a] == x);
            }
            assert forall|i: int| 0 <= i < tv.len() implies ranks_before(#[trigger] tv[i], x) by {
                assert(tv[i] == v[idx[i]]);
            }
        }
    }
    out
}

proof fn lemma_text_less_prefix(a: Seq<char>, b: Seq<char>)
    requires
        a.len() < b.len(),
        b.take(a.len() as int) == a,
    ensures
        text_less(a, b),
    decreases a.len(),
{
    if a.len() > 0 {
        assert(b.take(a.len() as int)[0] == b[0]);
        assert(b.drop_first().take(a.drop_first().len() as int) =~= a.drop_first()) by {
            assert forall|i: int| 0 <= i < a.drop_first().len() implies #[trigger] b.drop_first().take(
                a.drop_first().len() as int,
            )[i] == a.drop_first()[i] by {
                assert(b.take(a.len() as int)[i + 1] == a[i + 1]);
            }
        }
        lemma_text_less_prefix(a.drop_first(), b.drop_first());
    }
}

proof fn lemma_text_less_first_difference(a: Seq<char>, b: Seq<char>, i: int)
    requires
        0 <= i < a.len(),
        i < b.len(),
        forall|j: int| 0 <= j < i ==> #[trigger] a[j] == b[j],
        a[i] < b[i],
    ensures
        text_less(a, b),
        !text_less(b, a),
    decreases i,
{
    if i > 0 {
        assert(a[0] == b[0]);
        assert forall|j: int| 0 <= j < i - 1 implies #[trigger] a.drop_first()[j] == b.drop_first()[j] by {
            assert(a[j + 1] == b[j + 1]);
        }
        lemma_text_less_first_difference(a.drop_first(), b.drop_first(), i - 1);
    }
}

proof fn lemma_text_less_irreflexive(a: Seq<char>)
    ensures
        !text_less(a, a),
    decreases a.len(),
{
    if a.len() > 0 {
        lemma_text_less_irreflexive(a.drop_first());
    }
}

/// How rows are ranked: a higher count first; among equal counts, a name
/// that is a proper prefix of the other first, else the name with the
/// smaller character at the first place where the two differ; no row ranks
/// before itself.
pub proof fn law_ranking_order(a: (Seq<char>, nat), b: (Seq<char>, nat), i: int)
    ensures
        a.1 > b.1 ==> ranks_before(a, b),
        a.1 < b.1 ==> !ranks_before(a, b),
        !ranks_before(a, a),
        a.1 == b.1 && a.0.len() < b.0.len() && b.0.take(a.0.len() as int) == a.0 ==> ranks_before(a, b),
        a.1 == b.1 && 0 <= i < a.0.len() && i < b.0.len() && a.0.take(i) == b.0.take(i) && a.0[i] < b.0[i]
            ==> ranks_before(a, b) && !ranks_before(b, a),
{
    lemma_text_less_irreflexive(a.0);
    if a.1 == b.1 && a.0.len() < b.0.len() && b.0.take(a.0.len() as int) == a.0 {
        lemma_text_less_prefix(a.0, b.0);
    }
    if a.1 == b.1 && 0 <= i < a.0.len() && i < b.0.len() && a.0.take(i) == b.0.take(i) && a.0[i] < b.0[i] {
        assert forall|j: int| 0 <= j < i implies #[trigger] a.0[j] == b.0[j] by {
            assert(a.0.take(i)[j] == b.0.take(i)[j]);
        }
        lemma_text_less_first_difference(a.0, b.0, i);
    }
}

} // verus!
