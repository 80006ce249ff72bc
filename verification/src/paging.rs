use vstd::prelude::*;

verus! {

/// At most `limit` items of `s`, starting after the first `offset` ones.
pub open spec fn window<T>(s: Seq<T>, offset: nat, limit: nat) -> Seq<T> {
    let start = if offset < s.len() { offset as int } else { s.len() as int };
    let end = if start + limit < s.len() { start + limit } else { s.len() as int };
    s.subrange(start, end)
}

/// Copies at most `limit` items of `v`, skipping the first `offset` ones.
pub fn take_window<T: Copy>(v: &Vec<T>, offset: usize, limit: usize) -> (r: Vec<T>)
    ensures
        r@ == window(v@, offset as nat, limit as nat),
{
    let start = if offset < v.len() { offset } else { v.len() };
    let end = if limit < v.len() - start { start + limit } else { v.len() };
    let mut r: Vec<T> = Vec::new();
    let mut i = start;
    while i < end
        invariant
            start <= i <= end <= v.len(),
            start == (if offset < v@.len() { offset as int } else { v@.len() as int }),
            end == (if start + limit < v@.len() { start + limit } else { v@.len() as int }),
            r@ == v@.subrange(start as int, i as int),
        decreases end - i,
    {
        r.push(v[i]);
        proof {
            assert(v@.subrange(start as int, i + 1) =~= v@.subrange(start as int, i as int).push(v@[i as int]));
        }
        i = i + 1;
    }
    r
}


/// A page holds at most `limit` items, and reading pages one after another,
/// each starting where the last ended, yields the items in order, each once.
pub proof fn law_pages_concatenate<T>(s: Seq<T>, offset: nat, a: nat, b: nat)
    ensures
        window(s, offset, a).len() <= a,
        window(s, offset, a) + window(s, offset + a, b) == window(s, offset, a + b),
{
    let w1 = window(s, offset, a);
    let w2 = window(s, offset + a, b);
    assert(w1 + w2 =~= window(s, offset, a + b));
}

} // verus!
