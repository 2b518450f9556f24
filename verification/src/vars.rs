//! The variable layering engine: `var` sources folded in declared order,
//! `meta` sources folded the same way and layered over them, then one pass
//! of value substitution with direct self-references rejected.

use crate::error::ConfigError;
use crate::model::{
    distinct_keys, map_of, merged, pair_view, pairs_view, ref_name, subst_value,
    lemma_map_of_contains, lemma_map_of_last, lemma_map_of_push, lemma_map_of_update,
    lemma_union_empty_right, lemma_union_insert_right,
};
use crate::settings::Var;
use crate::trusted::{flat_pairs_of, read_flat_pairs};
use vstd::prelude::*;
use vstd::string::StrSliceExecFns;

verus! {

/// The flattened variable mapping: an association list with distinct keys,
/// denoting a map from variable name to value.
#[derive(Debug, Clone, PartialEq, Eq)]
pub struct VariableMapping {
    entries: Vec<(String, String)>,
}

impl View for VariableMapping {
    type V = Seq<(Seq<char>, Seq<char>)>;

    closed spec fn view(&self) -> Seq<(Seq<char>, Seq<char>)> {
        pairs_view(self.entries@)
    }
}

/// The folded mapping takes each pair's value at its own key, when keys
/// are distinct.
pub proof fn lemma_map_of_index(s: Seq<(Seq<char>, Seq<char>)>, i: int)
    requires
        distinct_keys(s),
        0 <= i < s.len(),
    ensures
        map_of(s).dom().contains(s[i].0),
        map_of(s)[s[i].0] == s[i].1,
{
    assert(forall|j: int| i < j < s.len() ==> (#[trigger] s[j]).0 != s[i].0);
    lemma_map_of_last(s, i);
}

impl VariableMapping {
    /// The keys are distinct, so the list denotes its map faithfully.
    pub open spec fn wf(&self) -> bool {
        distinct_keys(self@)
    }

    /// The map this value denotes.
    pub open spec fn as_map(&self) -> Map<Seq<char>, Seq<char>> {
        map_of(self@)
    }

    /// The empty mapping.
    pub fn new() -> (r: VariableMapping)
        ensures
            r.wf(),
            r@ == Seq::<(Seq<char>, Seq<char>)>::empty(),
            r.as_map() == Map::<Seq<char>, Seq<char>>::empty(),
    {
        let r = VariableMapping { entries: Vec::new() };
        proof {
            assert(r@ =~= Seq::<(Seq<char>, Seq<char>)>::empty());
        }
        r
    }

    /// How many variables are bound.
    pub fn len(&self) -> (n: usize)
        ensures
            n == self@.len(),
    {
        self.entries.len()
    }

    /// The name and value at one position, in insertion order.
    pub fn entry(&self, i: usize) -> (r: (String, String))
        requires
            i < self@.len(),
        ensures
            pair_view(r) == self@[i as int],
    {
        let p = (self.entries[i].0.clone(), self.entries[i].1.clone());
        p
    }

    /// The value bound to `name`, if any.
    pub fn get(&self, name: &String) -> (r: Option<String>)
        requires
            self.wf(),
        ensures
            match r {
                Some(v) => self.as_map().dom().contains(name@) && self.as_map()[name@] == v@,
                None => !self.as_map().dom().contains(name@),
            },
    {
        lookup(&self.entries, name)
    }

    /// Bind `key` to `value`, replacing an earlier binding of the same key.
    pub fn insert(&mut self, key: String, value: String)
        requires
            old(self).wf(),
        ensures
            final(self).wf(),
            final(self).as_map() == old(self).as_map().insert(key@, value@),
    {
        let ghost s0 = self@;
        let mut i: usize = 0;
        while i < self.entries.len()
            invariant
                self@ == s0,
                s0 == old(self)@,
                distinct_keys(s0),
                i <= self.entries@.len(),
                self@.len() == self.entries@.len(),
                forall|j: int| 0 <= j < i ==> (#[trigger] s0[j]).0 != key@,
            decreases self.entries@.len() - i,
        {
            if self.entries[i].0 == key {
                proof {
                    assert(s0[i as int] == pair_view(self.entries@[i as int]));
                    assert(s0[i as int].0 == key@);
                }
                let pair = self.entries.remove(i);
                self.entries.insert(i, (pair.0, value));
                proof {
                    assert(self@ =~= s0.update(i as int, (s0[i as int].0, value@))) by {
                        assert(forall|j: int|
                            0 <= j < self.entries@.len() ==> #[trigger] self@[j] == pair_view(
                                self.entries@[j],
                            ));
                    }
                    assert(forall|j: int| i < j < s0.len() ==> (#[trigger] s0[j]).0 != s0[
                        i as int
                    ].0);
                    lemma_map_of_update(s0, i as int, value@);
                    assert(distinct_keys(self@));
                }
                return ;
            }
            i += 1;
        }
        self.entries.push((key, value));
        proof {
            assert(self@ =~= s0.push((key@, value@)));
            lemma_map_of_push(s0, (key@, value@));
            assert(distinct_keys(self@));
        }
    }

    /// Fold one parsed source into the mapping: each of its pairs in order,
    /// a later pair replacing an earlier binding of the same key.
    pub fn merge_source(&mut self, pairs: &Vec<(String, String)>)
        requires
            old(self).wf(),
        ensures
            final(self).wf(),
            final(self).as_map() == old(self).as_map().union_prefer_right(
                map_of(pairs_view(pairs@)),
            ),
    {
        let ghost m0 = self.as_map();
        let ghost q = pairs_view(pairs@);
        proof {
            lemma_union_empty_right(m0);
            assert(q.subrange(0, 0) =~= Seq::<(Seq<char>, Seq<char>)>::empty());
        }
        let mut i: usize = 0;
        while i < pairs.len()
            invariant
                self.wf(),
                i <= pairs@.len(),
                q == pairs_view(pairs@),
                self.as_map() == m0.union_prefer_right(map_of(q.subrange(0, i as int))),
            decreases pairs@.len() - i,
        {
            let k = pairs[i].0.clone();
            let v = pairs[i].1.clone();
            self.insert(k, v);
            proof {
                assert(q.subrange(0, i as int + 1).drop_last() =~= q.subrange(0, i as int));
                assert(q.subrange(0, i as int + 1).last() == q[i as int]);
                lemma_union_insert_right(m0, map_of(q.subrange(0, i as int)), q[i as int].0, q[
                    i as int
                ].1);
            }
            i += 1;
        }
        proof {
            assert(q.subrange(0, q.len() as int) =~= q);
        }
    }

    /// Perform the single substitution pass over every binding, against
    /// this mapping. A value of the reference form `{name}` is replaced by
    /// the value bound to `name` (unchanged if `name` is unbound); a direct
    /// self-reference is a `CyclicVariable` error.
    pub fn substitute_all(&self) -> (r: Result<VariableMapping, ConfigError>)
        requires
            self.wf(),
        ensures
            match r {
                Ok(m) => {
                    &&& m.wf()
                    &&& forall|k: Seq<char>|
                        #[trigger] m.as_map().dom().contains(k) <==> self.as_map().dom().contains(
                            k,
                        )
                    &&& forall|k: Seq<char>|
                        #[trigger] self.as_map().dom().contains(k) ==> subst_value(
                            self.as_map(),
                            k,
                            self.as_map()[k],
                        ) == Some(m.as_map()[k])
                },
                Err(e) => match e {
                    ConfigError::CyclicVariable { key } => {
                        &&& self.as_map().dom().contains(key@)
                        &&& subst_value(self.as_map(), key@, self.as_map()[key@]) is None
                    },
                    _ => false,
                },
            },
    {
        let ghost s0 = self@;
        let ghost m = self.as_map();
        let mut out: Vec<(String, String)> = Vec::new();
        let mut i: usize = 0;
        while i < self.entries.len()
            invariant
                self.wf(),
                s0 == self@,
                m == self.as_map(),
                self@.len() == self.entries@.len(),
                i <= self.entries@.len(),
                out@.len() == i,
                forall|j: int| 0 <= j < i ==> (#[trigger] out@[j]).0@ == s0[j].0,
                forall|j: int|
                    0 <= j < i ==> Some((#[trigger] out@[j]).1@) == subst_value(
                        m,
                        s0[j].0,
                        s0[j].1,
                    ),
            decreases self.entries@.len() - i,
        {
            proof {
                assert(s0[i as int] == pair_view(self.entries@[i as int]));
            }
            let key = &self.entries[i].0;
            let val = &self.entries[i].1;
            match value_ref_name(val.as_str()) {
                Some(n) => {
                    if n == *key {
                        proof {
                            lemma_map_of_index(s0, i as int);
                        }
                        return Err(ConfigError::CyclicVariable { key: key.clone() });
                    }
                    match lookup(&self.entries, &n) {
                        Some(v2) => {
                            out.push((key.clone(), v2));
                        },
                        None => {
                            out.push((key.clone(), val.clone()));
                        },
                    }
                },
                None => {
                    out.push((key.clone(), val.clone()));
                },
            }
            i += 1;
        }
        let result = VariableMapping { entries: out };
        proof {
            let t = result@;
            assert(forall|j: int| 0 <= j < t.len() ==> #[trigger] t[j] == pair_view(out@[j]));
            assert(t.len() == s0.len());
            assert(distinct_keys(t)) by {
                assert(forall|j: int| 0 <= j < t.len() ==> (#[trigger] t[j]).0 == s0[j].0);
            }
            assert forall|k: Seq<char>|
                #[trigger] map_of(t).dom().contains(k) <==> map_of(s0).dom().contains(k) by {
                lemma_map_of_contains(t, k);
                lemma_map_of_contains(s0, k);
                if map_of(t).dom().contains(k) {
                    let j = choose|j: int| 0 <= j < t.len() && (#[trigger] t[j]).0 == k;
                    assert(s0[j].0 == k);
                }
                if map_of(s0).dom().contains(k) {
                    let j = choose|j: int| 0 <= j < s0.len() && (#[trigger] s0[j]).0 == k;
                    assert(t[j].0 == k);
                }
            }
            assert forall|k: Seq<char>| #[trigger] map_of(s0).dom().contains(k) implies subst_value(
                m,
                k,
                map_of(s0)[k],
            ) == Some(map_of(t)[k]) by {
                lemma_map_of_contains(s0, k);
                let j = choose|j: int| 0 <= j < s0.len() && (#[trigger] s0[j]).0 == k;
                lemma_map_of_index(s0, j);
                assert(t[j].0 == k);
                lemma_map_of_index(t, j);
                assert(Some(t[j].1) == subst_value(m, s0[j].0, s0[j].1));
            }
        }
        Ok(result)
    }
}

/// A declared source paired with what reading its file gave: the file's
/// text, or `None` for a file absent on disk.
pub open spec fn source_ok(s: (Var, Option<String>)) -> bool {
    &&& s.1 is Some
    &&& flat_pairs_of((s.1->0)@) is Some
}

/// Every source in the list was found and parses to flat pairs.
pub open spec fn sources_ok(srcs: Seq<(Var, Option<String>)>) -> bool {
    forall|i: int| 0 <= i < srcs.len() ==> #[trigger] source_ok(srcs[i])
}

/// Source `i` is the first of the list that is missing or unparsable.
pub open spec fn first_failure_is(srcs: Seq<(Var, Option<String>)>, i: int) -> bool {
    &&& 0 <= i < srcs.len()
    &&& !source_ok(srcs[i])
    &&& forall|j: int| 0 <= j < i ==> #[trigger] source_ok(srcs[j])
}

/// The parsed pair lists of a source list, one per source, in declared
/// order.
pub open spec fn parsed_sources(srcs: Seq<(Var, Option<String>)>) -> Seq<
    Seq<(Seq<char>, Seq<char>)>,
> {
    srcs.map_values(|p: (Var, Option<String>)| flat_pairs_of((p.1->0)@)->0)
}

/// The mapping after the tiers are layered: the merged `var` tier, with
/// every key of the merged `meta` tier taking the meta value.
pub open spec fn layered_map(
    vars: Seq<(Var, Option<String>)>,
    metas: Seq<(Var, Option<String>)>,
) -> Map<Seq<char>, Seq<char>> {
    merged(parsed_sources(vars)).union_prefer_right(merged(parsed_sources(metas)))
}

/// Law: within one tier, the later-declared source wins a key collision.
/// If source `i` declares the key at its pair `j`, no later pair of that
/// source declares it again, and no later source declares it at all, the
/// merged tier maps the key to that pair's value — whatever any earlier
/// source said.
pub proof fn lemma_last_declared_source_wins(srcs: Seq<Seq<(Seq<char>, Seq<char>)>>, i: int, j: int)
    requires
        0 <= i < srcs.len(),
        0 <= j < srcs[i].len(),
        forall|j2: int| j < j2 < srcs[i].len() ==> (#[trigger] srcs[i][j2]).0 != srcs[i][j].0,
        forall|i2: int, j2: int|
            i < i2 < srcs.len() && 0 <= j2 < srcs[i2].len() ==> (#[trigger] srcs[i2][j2]).0
                != srcs[i][j].0,
    ensures
        merged(srcs).dom().contains(srcs[i][j].0),
        merged(srcs)[srcs[i][j].0] == srcs[i][j].1,
    decreases srcs.len(),
{
    let k = srcs[i][j].0;
    if i == srcs.len() - 1 {
        lemma_map_of_last(srcs[i], j);
        assert(map_of(srcs.last()).dom().contains(k));
        assert(map_of(srcs.last())[k] == srcs[i][j].1);
    } else {
        assert(srcs.drop_last()[i] == srcs[i]);
        assert forall|i2: int, j2: int|
            i < i2 < srcs.drop_last().len() && 0 <= j2 < srcs.drop_last()[i2].len() implies (
        #[trigger] srcs.drop_last()[i2][j2]).0 != srcs.drop_last()[i][j].0 by {
            assert(srcs.drop_last()[i2] == srcs[i2]);
        }
        lemma_last_declared_source_wins(srcs.drop_last(), i, j);
        lemma_map_of_contains(srcs.last(), k);
        assert(!map_of(srcs.last()).dom().contains(k)) by {
            assert forall|j2: int| 0 <= j2 < srcs.last().len() implies (#[trigger] srcs.last()[
                j2
            ]).0 != k by {
                assert(srcs.last() == srcs[srcs.len() - 1]);
            }
        }
    }
}

/// Law: a key declared in both tiers takes the merged `meta` tier's value
/// in the layered mapping, whatever the `var` tier declared for it.
pub proof fn lemma_meta_tier_wins(
    vars: Seq<(Var, Option<String>)>,
    metas: Seq<(Var, Option<String>)>,
    k: Seq<char>,
)
    requires
        merged(parsed_sources(metas)).dom().contains(k),
    ensures
        layered_map(vars, metas).dom().contains(k),
        layered_map(vars, metas)[k] == merged(parsed_sources(metas))[k],
{
}

/// Law: a value that directly references its own key — an opening brace,
/// the key, a closing brace — is rejected as cyclic by the substitution
/// pass, for every mapping and every brace-free key: never replaced,
/// never handed back unchanged.
pub proof fn lemma_self_reference_is_cyclic(m: Map<Seq<char>, Seq<char>>, k: Seq<char>)
    requires
        forall|i: int| 0 <= i < k.len() ==> #[trigger] k[i] != '{' && k[i] != '}',
    ensures
        subst_value(m, k, seq!['{'] + k + seq!['}']) is None,
{
    let v = seq!['{'] + k + seq!['}'];
    assert(v.len() == k.len() + 2);
    assert(v[0] == '{');
    assert(v[v.len() - 1] == '}');
    assert(forall|i: int| 1 <= i < v.len() - 1 ==> #[trigger] v[i] == k[i - 1]);
    assert(v.subrange(1, v.len() - 1) =~= k);
    assert(ref_name(v) == Some(k));
}

/// Resolve the variable mapping from the declared `var` and `meta`
/// sources, each given with its file's text, `None` standing for a file
/// absent on disk: parse every source, fold each tier in declared order,
/// layer the meta tier over the var tier, then perform the single
/// substitution pass. The first failure wins: a missing or unparsable
/// source (vars before metas, in declared order), then a direct
/// self-reference.
pub fn resolve(vars: &Vec<(Var, Option<String>)>, metas: &Vec<(Var, Option<String>)>) -> (r:
    Result<VariableMapping, ConfigError>)
    ensures
        match r {
            Ok(m) => {
                &&& sources_ok(vars@)
                &&& sources_ok(metas@)
                &&& m.wf()
                &&& forall|k: Seq<char>|
                    #[trigger] m.as_map().dom().contains(k) <==> layered_map(
                        vars@,
                        metas@,
                    ).dom().contains(k)
                &&& forall|k: Seq<char>|
                    #[trigger] layered_map(vars@, metas@).dom().contains(k) ==> subst_value(
                        layered_map(vars@, metas@),
                        k,
                        layered_map(vars@, metas@)[k],
                    ) == Some(m.as_map()[k])
            },
            Err(e) => match e {
                ConfigError::SourceNotFound { path } => {
                    ||| exists|i: int|
                        {
                            &&& #[trigger] first_failure_is(vars@, i)
                            &&& vars@[i].1 is None
                            &&& path@ == vars@[i].0.path@
                        }
                    ||| (sources_ok(vars@) && exists|i: int|
                        {
                            &&& #[trigger] first_failure_is(metas@, i)
                            &&& metas@[i].1 is None
                            &&& path@ == metas@[i].0.path@
                        })
                },
                ConfigError::MalformedVariableSource { path, .. } => {
                    ||| exists|i: int|
                        {
                            &&& #[trigger] first_failure_is(vars@, i)
                            &&& vars@[i].1 is Some
                            &&& path@ == vars@[i].0.path@
                        }
                    ||| (sources_ok(vars@) && exists|i: int|
                        {
                            &&& #[trigger] first_failure_is(metas@, i)
                            &&& metas@[i].1 is Some
                            &&& path@ == metas@[i].0.path@
                        })
                },
                ConfigError::CyclicVariable { key } => {
                    &&& sources_ok(vars@)
                    &&& sources_ok(metas@)
                    &&& layered_map(vars@, metas@).dom().contains(key@)
                    &&& subst_value(
                        layered_map(vars@, metas@),
                        key@,
                        layered_map(vars@, metas@)[key@],
                    ) is None
                },
                _ => false,
            },
        },
{
    let mut base = VariableMapping::new();
    proof {
        assert(parsed_sources(vars@).subrange(0, 0) =~= Seq::<Seq<(Seq<char>, Seq<char>)>>::empty());
    }
    let mut i: usize = 0;
    while i < vars.len()
        invariant
            base.wf(),
            i <= vars@.len(),
            forall|j: int| 0 <= j < i ==> #[trigger] source_ok(vars@[j]),
            base.as_map() == merged(parsed_sources(vars@).subrange(0, i as int)),
        decreases vars@.len() - i,
    {
        match &vars[i].1 {
            Some(text) => {
                match read_flat_pairs(text.as_str()) {
                    Ok(pairs) => {
                        base.merge_source(&pairs);
                        proof {
                            assert(source_ok(vars@[i as int]));
                            assert(parsed_sources(vars@)[i as int] == pairs_view(pairs@));
                            assert(parsed_sources(vars@).subrange(0, i as int + 1).drop_last()
                                =~= parsed_sources(vars@).subrange(0, i as int));
                            assert(parsed_sources(vars@).subrange(0, i as int + 1).last()
                                == parsed_sources(vars@)[i as int]);
                        }
                    },
                    Err(reason) => {
                        proof {
                            assert(first_failure_is(vars@, i as int));
                        }
                        return Err(
                            ConfigError::MalformedVariableSource {
                                path: vars[i].0.path.clone(),
                                reason,
                            },
                        );
                    },
                }
            },
            None => {
                proof {
                    assert(first_failure_is(vars@, i as int));
                }
                return Err(ConfigError::SourceNotFound { path: vars[i].0.path.clone() });
            },
        }
        i += 1;
    }
    proof {
        assert(parsed_sources(vars@).subrange(0, vars@.len() as int) =~= parsed_sources(vars@));
        assert(sources_ok(vars@));
    }
    let mut over = VariableMapping::new();
    proof {
        assert(parsed_sources(metas@).subrange(0, 0) =~= Seq::<Seq<(Seq<char>, Seq<char>)>>::empty());
    }
    let mut p: usize = 0;
    while p < metas.len()
        invariant
            over.wf(),
            p <= metas@.len(),
            sources_ok(vars@),
            base.wf(),
            base.as_map() == merged(parsed_sources(vars@)),
            forall|j: int| 0 <= j < p ==> #[trigger] source_ok(metas@[j]),
            over.as_map() == merged(parsed_sources(metas@).subrange(0, p as int)),
        decreases metas@.len() - p,
    {
        match &metas[p].1 {
            Some(text) => {
                match read_flat_pairs(text.as_str()) {
                    Ok(pairs) => {
                        over.merge_source(&pairs);
                        proof {
                            assert(source_ok(metas@[p as int]));
                            assert(parsed_sources(metas@)[p as int] == pairs_view(pairs@));
                            assert(parsed_sources(metas@).subrange(0, p as int + 1).drop_last()
                                =~= parsed_sources(metas@).subrange(0, p as int));
                            assert(parsed_sources(metas@).subrange(0, p as int + 1).last()
                                == parsed_sources(metas@)[p as int]);
                        }
                    },
                    Err(reason) => {
                        proof {
                            assert(first_failure_is(metas@, p as int));
                        }
                        return Err(
                            ConfigError::MalformedVariableSource {
                                path: metas[p].0.path.clone(),
                                reason,
                            },
                        );
                    },
                }
            },
            None => {
                proof {
                    assert(first_failure_is(metas@, p as int));
                }
                return Err(ConfigError::SourceNotFound { path: metas[p].0.path.clone() });
            },
        }
        p += 1;
    }
    proof {
        assert(parsed_sources(metas@).subrange(0, metas@.len() as int) =~= parsed_sources(metas@));
        assert(sources_ok(metas@));
    }
    base.merge_source(&over.entries);
    proof {
        assert(pairs_view(over.entries@) == over@);
        assert(base.as_map() == layered_map(vars@, metas@));
    }
    base.substitute_all()
}

/// The value bound to `name` in an association list with distinct keys.
fn lookup(entries: &Vec<(String, String)>, name: &String) -> (r: Option<String>)
    requires
        distinct_keys(pairs_view(entries@)),
    ensures
        match r {
            Some(v) => map_of(pairs_view(entries@)).dom().contains(name@) && map_of(
                pairs_view(entries@),
            )[name@] == v@,
            None => !map_of(pairs_view(entries@)).dom().contains(name@),
        },
{
    let ghost s = pairs_view(entries@);
    let mut i: usize = 0;
    while i < entries.len()
        invariant
            distinct_keys(s),
            s == pairs_view(entries@),
            i <= entries@.len(),
            forall|j: int| 0 <= j < i ==> (#[trigger] s[j]).0 != name@,
        decreases entries@.len() - i,
    {
        if entries[i].0 == *name {
            let v = entries[i].1.clone();
            proof {
                lemma_map_of_index(s, i as int);
            }
            return Some(v);
        }
        i += 1;
    }
    proof {
        lemma_map_of_contains(s, name@);
    }
    None
}

/// The name a value refers to, when the value has the reference form
/// `{name}`.
fn value_ref_name(v: &str) -> (r: Option<String>)
    ensures
        match r {
            Some(n) => ref_name(v@) == Some(n@),
            None => ref_name(v@) is None,
        },
{
    let len = v.unicode_len();
    if len < 2 {
        return None;
    }
    if v.get_char(0) != '{' {
        return None;
    }
    if v.get_char(len - 1) != '}' {
        return None;
    }
    let mut i: usize = 1;
    while i < len - 1
        invariant
            2 <= len,
            len == v@.len(),
            1 <= i <= len - 1,
            v@[0] == '{',
            v@[len - 1] == '}',
            forall|j: int| 1 <= j < i ==> #[trigger] v@[j] != '{' && v@[j] != '}',
        decreases len - i,
    {
        let c = v.get_char(i);
        if c == '{' || c == '}' {
            return None;
        }
        i += 1;
    }
    let name = v.substring_char(1, len - 1).to_owned();
    Some(name)
}

} // verus!
