use vstd::prelude::*;

verus! {

/// A sequence without repeats, all of whose elements occur in `b`, is no
/// longer than `b`.
pub proof fn lemma_unique_within_len<A>(a: Seq<A>, b: Seq<A>)
    requires
        a.no_duplicates(),
        forall|i: int| 0 <= i < a.len() ==> b.contains(#[trigger] a[i]),
    ensures
        a.len() <= b.len(),
{
    broadcast use vstd::seq_lib::seq_to_set_is_finite;

    a.unique_seq_to_set();
    b.lemma_cardinality_of_set();
    assert forall|x: A| a.to_set().contains(x) implies b.to_set().contains(x) by {
        let i = choose|i: int| 0 <= i < a.len() && a[i] == x;
        assert(b.contains(a[i]));
    }
    vstd::set_lib::lemma_len_subset(a.to_set(), b.to_set());
}

/// What `s.push(x)` holds at each position.
pub proof fn lemma_push_index<A>(s: Seq<A>, x: A)
    ensures
        s.push(x).len() == s.len() + 1,
        s.push(x)[s.len() as int] == x,
        forall|i: int| 0 <= i < s.len() ==> #[trigger] s.push(x)[i] == s[i],
{
}

/// The keys of `m.insert(k, e)` are those of `m` and `k`.
pub proof fn lemma_insert_keys<K, E>(m: Map<K, E>, k: K, e: E)
    ensures
        forall|x: K| #[trigger] m.insert(k, e).contains_key(x) <==> (x == k || m.contains_key(x)),
        forall|x: K| x != k && m.contains_key(x) ==> #[trigger] m.insert(k, e)[x] == m[x],
        m.insert(k, e)[k] == e,
{
}

/// The keys of `m.remove(k)` are those of `m` but `k`.
pub proof fn lemma_remove_keys<K, E>(m: Map<K, E>, k: K)
    ensures
        forall|x: K| #[trigger] m.remove(k).contains_key(x) <==> (x != k && m.contains_key(x)),
        forall|x: K| x != k && m.contains_key(x) ==> #[trigger] m.remove(k)[x] == m[x],
{
}

} // verus!
