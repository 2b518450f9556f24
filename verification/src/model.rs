//! The mathematical model of variable layering: association lists of
//! key/value pairs folded into maps, tier merging, and the single-pass
//! value substitution semantics.

use vstd::prelude::*;

verus! {

/// The view of one exec key/value pair.
pub open spec fn pair_view(p: (String, String)) -> (Seq<char>, Seq<char>) {
    (p.0@, p.1@)
}

/// The view of an exec pair list.
pub open spec fn pairs_view(v: Seq<(String, String)>) -> Seq<(Seq<char>, Seq<char>)> {
    v.map_values(|p: (String, String)| pair_view(p))
}

/// The view of an optional string.
pub open spec fn opt_str_view(f: Option<String>) -> Option<Seq<char>> {
    match f {
        Some(s) => Some(s@),
        None => None,
    }
}

/// The view of a list of pair tables.
pub open spec fn tables_view(v: Seq<Vec<(String, String)>>) -> Seq<Seq<(Seq<char>, Seq<char>)>> {
    v.map_values(|t: Vec<(String, String)>| pairs_view(t@))
}

/// The view of an optional list of pair tables.
pub open spec fn opt_tables_view(f: Option<Vec<Vec<(String, String)>>>) -> Option<
    Seq<Seq<(Seq<char>, Seq<char>)>>,
> {
    match f {
        Some(v) => Some(tables_view(v@)),
        None => None,
    }
}

/// The mapping an association list denotes: pairs folded in order,
/// a later pair with the same key replacing the earlier one.
pub open spec fn map_of(s: Seq<(Seq<char>, Seq<char>)>) -> Map<Seq<char>, Seq<char>>
    decreases s.len(),
{
    if s.len() == 0 {
        Map::empty()
    } else {
        map_of(s.drop_last()).insert(s.last().0, s.last().1)
    }
}

/// No key occurs twice in the list.
pub open spec fn distinct_keys(s: Seq<(Seq<char>, Seq<char>)>) -> bool {
    forall|i: int, j: int| 0 <= i < j < s.len() ==> (#[trigger] s[i]).0 != (#[trigger] s[j]).0
}

/// The mapping a sequence of sources denotes: each source's pairs folded
/// in declared order, a later source replacing an earlier one key by key.
pub open spec fn merged(srcs: Seq<Seq<(Seq<char>, Seq<char>)>>) -> Map<Seq<char>, Seq<char>>
    decreases srcs.len(),
{
    if srcs.len() == 0 {
        Map::empty()
    } else {
        merged(srcs.drop_last()).union_prefer_right(map_of(srcs.last()))
    }
}

/// The name a value refers to, if the value has the reference form
/// `{name}`: an opening brace, a brace-free name, a closing brace.
pub open spec fn ref_name(v: Seq<char>) -> Option<Seq<char>> {
    if v.len() >= 2 && v[0] == '{' && v[v.len() - 1] == '}' && (forall|i: int|
        1 <= i < v.len() - 1 ==> #[trigger] v[i] != '{' && v[i] != '}') {
        Some(v.subrange(1, v.len() - 1))
    } else {
        None
    }
}

/// One substitution step for the value `v` bound to key `k`, looked up in
/// the layered mapping `m`. `None` means a direct self-reference (a cycle);
/// a reference to an unbound name, or a value without reference form, is
/// left unchanged.
pub open spec fn subst_value(
    m: Map<Seq<char>, Seq<char>>,
    k: Seq<char>,
    v: Seq<char>,
) -> Option<Seq<char>> {
    match ref_name(v) {
        Some(n) => if n == k {
            None
        } else if m.dom().contains(n) {
            Some(m[n])
        } else {
            Some(v)
        },
        None => Some(v),
    }
}

/// A key is in the folded mapping exactly when some pair carries it.
pub proof fn lemma_map_of_contains(s: Seq<(Seq<char>, Seq<char>)>, k: Seq<char>)
    ensures
        map_of(s).dom().contains(k) <==> exists|i: int| 0 <= i < s.len() && (#[trigger] s[i]).0 == k,
    decreases s.len(),
{
    if s.len() > 0 {
        lemma_map_of_contains(s.drop_last(), k);
        if s.last().0 == k {
            assert(s[s.len() - 1].0 == k);
        } else if map_of(s).dom().contains(k) {
            let i = choose|i: int| 0 <= i < s.drop_last().len() && (#[trigger] s.drop_last()[i]).0 == k;
            assert(s[i].0 == k);
        } else {
            assert forall|i: int| 0 <= i < s.len() && (#[trigger] s[i]).0 == k implies false by {
                if i < s.len() - 1 {
                    assert(s.drop_last()[i].0 == k);
                }
            }
        }
    }
}

/// The folded mapping takes each key's value from the last pair that
/// carries the key.
pub proof fn lemma_map_of_last(s: Seq<(Seq<char>, Seq<char>)>, i: int)
    requires
        0 <= i < s.len(),
        forall|j: int| i < j < s.len() ==> (#[trigger] s[j]).0 != s[i].0,
    ensures
        map_of(s).dom().contains(s[i].0),
        map_of(s)[s[i].0] == s[i].1,
    decreases s.len(),
{
    if i == s.len() - 1 {
    } else {
        assert(s.drop_last()[i] == s[i]);
        lemma_map_of_last(s.drop_last(), i);
        assert(s.last().0 != s[i].0);
    }
}

/// Appending a pair folds to inserting it.
pub proof fn lemma_map_of_push(s: Seq<(Seq<char>, Seq<char>)>, p: (Seq<char>, Seq<char>))
    ensures
        map_of(s.push(p)) == map_of(s).insert(p.0, p.1),
{
    assert(s.push(p).drop_last() =~= s);
    assert(s.push(p).last() == p);
}

/// Replacing the pair that carries `k` folds to inserting the new value,
/// provided no later pair carries `k`.
pub proof fn lemma_map_of_update(s: Seq<(Seq<char>, Seq<char>)>, i: int, v: Seq<char>)
    requires
        0 <= i < s.len(),
        forall|j: int| i < j < s.len() ==> (#[trigger] s[j]).0 != s[i].0,
    ensures
        map_of(s.update(i, (s[i].0, v))) == map_of(s).insert(s[i].0, v),
    decreases s.len(),
{
    let k = s[i].0;
    let t = s.update(i, (k, v));
    if i == s.len() - 1 {
        assert(t.drop_last() =~= s.drop_last());
        assert(t.last() == (k, v));
        assert(map_of(t) == map_of(s.drop_last()).insert(k, v));
        assert(map_of(s).insert(k, v) =~= map_of(s.drop_last()).insert(k, v));
    } else {
        assert(t.drop_last() =~= s.drop_last().update(i, (k, v)));
        assert(s.drop_last()[i] == s[i]);
        lemma_map_of_update(s.drop_last(), i, v);
        assert(t.last() == s.last());
        assert(s.last().0 != k);
        assert(map_of(t) == map_of(s.drop_last()).insert(k, v).insert(s.last().0, s.last().1));
        assert(map_of(s.drop_last()).insert(k, v).insert(s.last().0, s.last().1) =~= map_of(
            s,
        ).insert(k, v));
    }
}

/// Inserting into the right operand commutes with a preferring union.
pub proof fn lemma_union_insert_right(
    a: Map<Seq<char>, Seq<char>>,
    b: Map<Seq<char>, Seq<char>>,
    k: Seq<char>,
    v: Seq<char>,
)
    ensures
        a.union_prefer_right(b.insert(k, v)) == a.union_prefer_right(b).insert(k, v),
{
    assert(a.union_prefer_right(b.insert(k, v)) =~= a.union_prefer_right(b).insert(k, v));
}

/// A preferring union with an empty right operand changes nothing.
pub proof fn lemma_union_empty_right(a: Map<Seq<char>, Seq<char>>)
    ensures
        a.union_prefer_right(Map::empty()) == a,
{
    assert(a.union_prefer_right(Map::<Seq<char>, Seq<char>>::empty()) =~= a);
}

} // verus!
