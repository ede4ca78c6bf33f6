use crate::acdc::{expanded_along, expanded_at};
use crate::data::{
    first_at, holds_key, lemma_first_at_unique, lemma_has_from_any, lookup, pos, put, EntriesV,
    SadV,
};
use crate::error::KeriError;
use crate::said::{
    compact, compact_child, compact_dict, compact_entries, compact_items, digest_of,
    lemma_lookup_put, lemma_saidified_entries_at, lemma_saidified_items_at, said_for, saidified,
    saidified_entries, saidified_items, salted, salted_entries, salted_items, wants_none,
    wants_said, SaltsV,
};
use crate::store::KeriStore;
use vstd::prelude::*;

verus! {

/// What a nested value becomes under compaction, where compaction succeeds.
pub open spec fn settled(v: SadV) -> SadV {
    compact_child(v)->Ok_0.0
}

/// The first `n` compacted entries keep their keys, and each value is what
/// the old value becomes under compaction.
pub proof fn lemma_compact_entries_at(m: EntriesV, n: nat, i: int)
    requires
        n <= m.len(),
        compact_entries(m, n) is Ok,
        0 <= i < n,
    ensures
        compact_entries(m, n)->Ok_0.0.len() == n,
        compact_child(m[i].1) is Ok,
        compact_entries(m, n)->Ok_0.0[i] == (m[i].0, settled(m[i].1)),
    decreases n,
{
    let prev = compact_entries(m, (n - 1) as nat);
    assert(prev is Ok);
    if n > 1 {
        if i < n - 1 {
            lemma_compact_entries_at(m, (n - 1) as nat, i);
        } else {
            lemma_compact_entries_at(m, (n - 1) as nat, 0);
        }
    } else {
        assert(prev->Ok_0.0.len() == 0);
    }
    assert(compact_entries(m, n)->Ok_0.0 == prev->Ok_0.0.push((m[n - 1].0, settled(m[n - 1].1))));
}

/// The first `n` compacted items: each is what the old item becomes under
/// compaction.
pub proof fn lemma_compact_items_at(a: Seq<SadV>, n: nat, i: int)
    requires
        n <= a.len(),
        compact_items(a, n) is Ok,
        0 <= i < n,
    ensures
        compact_items(a, n)->Ok_0.0.len() == n,
        compact_child(a[i]) is Ok,
        compact_items(a, n)->Ok_0.0[i] == settled(a[i]),
    decreases n,
{
    let prev = compact_items(a, (n - 1) as nat);
    assert(prev is Ok);
    if n > 1 {
        if i < n - 1 {
            lemma_compact_items_at(a, (n - 1) as nat, i);
        } else {
            lemma_compact_items_at(a, (n - 1) as nat, 0);
        }
    } else {
        assert(prev->Ok_0.0.len() == 0);
    }
    assert(compact_items(a, n)->Ok_0.0 == prev->Ok_0.0.push(settled(a[n - 1])));
}

/// The length of the compacted entries, also where there are none.
pub proof fn lemma_compact_entries_len(m: EntriesV, n: nat)
    requires
        n <= m.len(),
        compact_entries(m, n) is Ok,
    ensures
        compact_entries(m, n)->Ok_0.0.len() == n,
{
    if n > 0 {
        lemma_compact_entries_at(m, n, 0);
    }
}

/// The length of the compacted items, also where there are none.
pub proof fn lemma_compact_items_len(a: Seq<SadV>, n: nat)
    requires
        n <= a.len(),
        compact_items(a, n) is Ok,
    ensures
        compact_items(a, n)->Ok_0.0.len() == n,
{
    if n > 0 {
        lemma_compact_items_at(a, n, 0);
    }
}

/// Entries with the same keys whose values become the same under compaction
/// compact to the same entries.
pub proof fn lemma_compact_entries_same(m: EntriesV, other: EntriesV, n: nat)
    requires
        n <= m.len(),
        m.len() == other.len(),
        compact_entries(m, n) is Ok,
        forall|i: int|
            0 <= i < n ==> (#[trigger] other[i]).0 == m[i].0 && compact_child(other[i].1) is Ok
                && settled(other[i].1) == settled(m[i].1),
    ensures
        compact_entries(other, n) is Ok,
        compact_entries(other, n)->Ok_0.0 == compact_entries(m, n)->Ok_0.0,
    decreases n,
{
    if n > 0 {
        lemma_compact_entries_same(m, other, (n - 1) as nat);
        assert(other[n - 1].0 == m[n - 1].0);
    }
}

/// Entries whose values stay as they are under compaction stay as they are.
pub proof fn lemma_compact_entries_fixed(m: EntriesV, n: nat)
    requires
        n <= m.len(),
        forall|i: int|
            0 <= i < n ==> compact_child((#[trigger] m[i]).1) == Ok::<(SadV, Seq<SadV>), KeriError>(
                (m[i].1, Seq::empty()),
            ),
    ensures
        compact_entries(m, n) == Ok::<(EntriesV, Seq<SadV>), KeriError>(
            (m.subrange(0, n as int), Seq::empty()),
        ),
    decreases n,
{
    if n == 0 {
        assert(m.subrange(0, 0) =~= Seq::empty());
    } else {
        lemma_compact_entries_fixed(m, (n - 1) as nat);
        assert(compact_child(m[n - 1].1) == Ok::<(SadV, Seq<SadV>), KeriError>(
            (m[n - 1].1, Seq::empty()),
        ));
        assert(m.subrange(0, n - 1).push((m[n - 1].0, m[n - 1].1)) =~= m.subrange(0, n as int));
        assert(Seq::<SadV>::empty() + Seq::<SadV>::empty() =~= Seq::<SadV>::empty());
    }
}

/// Items that stay as they are under compaction stay as they are.
pub proof fn lemma_compact_items_fixed(a: Seq<SadV>, n: nat)
    requires
        n <= a.len(),
        forall|i: int|
            0 <= i < n ==> compact_child(#[trigger] a[i]) == Ok::<(SadV, Seq<SadV>), KeriError>(
                (a[i], Seq::empty()),
            ),
    ensures
        compact_items(a, n) == Ok::<(Seq<SadV>, Seq<SadV>), KeriError>(
            (a.subrange(0, n as int), Seq::empty()),
        ),
    decreases n,
{
    if n == 0 {
        assert(a.subrange(0, 0) =~= Seq::empty());
    } else {
        lemma_compact_items_fixed(a, (n - 1) as nat);
        assert(compact_child(a[n - 1]) == Ok::<(SadV, Seq<SadV>), KeriError>(
            (a[n - 1], Seq::empty()),
        ));
        assert(a.subrange(0, n - 1).push(a[n - 1]) =~= a.subrange(0, n as int));
        assert(Seq::<SadV>::empty() + Seq::<SadV>::empty() =~= Seq::<SadV>::empty());
    }
}

/// Entries with the same keys hold the same keys, at the same first
/// positions.
pub proof fn lemma_same_keys(m: EntriesV, other: EntriesV, key: Seq<char>)
    requires
        m.len() == other.len(),
        forall|i: int| 0 <= i < m.len() ==> (#[trigger] other[i]).0 == m[i].0,
    ensures
        holds_key(other, key) == holds_key(m, key),
        holds_key(m, key) ==> pos(other, key) == pos(m, key),
{
    if holds_key(m, key) {
        let p = pos(m, key);
        assert(first_at(other, key, p)) by {
            assert(other[p].0 == m[p].0);
            assert forall|j: int| 0 <= j < p implies (#[trigger] other[j]).0 != key by {
                assert(other[j].0 == m[j].0);
            }
        }
        lemma_first_at_unique(other, key, p, pos(other, key));
    }
    if holds_key(other, key) {
        let p = pos(other, key);
        assert(other[p].0 == m[p].0);
        lemma_has_from_any(m, key, p);
    }
}

/// Putting twice under one key is putting the last value.
pub proof fn lemma_put_put(m: EntriesV, key: Seq<char>, first: SadV, second: SadV)
    ensures
        put(put(m, key, first), key, second) == put(m, key, second),
{
    let mid = put(m, key, first);
    lemma_lookup_put(m, key, first);
    if holds_key(m, key) {
        let p = pos(m, key);
        assert(first_at(mid, key, p)) by {
            assert forall|j: int| 0 <= j < p implies (#[trigger] mid[j]).0 != key by {
                assert(mid[j] == m[j]);
            }
        }
        lemma_first_at_unique(mid, key, p, pos(mid, key));
        assert(put(mid, key, second) =~= put(m, key, second));
    } else {
        let p = m.len() as int;
        assert(first_at(mid, key, p)) by {
            assert forall|j: int| 0 <= j < p implies (#[trigger] mid[j]).0 != key by {
                assert(mid[j] == m[j]);
                if m[j].0 == key {
                    lemma_has_from_any(m, key, j);
                }
            }
        }
        lemma_first_at_unique(mid, key, p, pos(mid, key));
        assert(put(mid, key, second) =~= put(m, key, second));
    }
}

/// A value that is compacted stays as it is when it is compacted again, and
/// nothing more is taken out of it.
pub proof fn lemma_settled_is_fixed(v: SadV)
    requires
        compact_child(v) is Ok,
    ensures
        compact_child(settled(v)) == Ok::<(SadV, Seq<SadV>), KeriError>(
            (settled(v), Seq::empty()),
        ),
    decreases v, 2nat,
{
    match v {
        SadV::Dict(m) => {
            let c = compact_dict(m)->Ok_0.0;
            lemma_compacted_dict_form(m);
            if holds_key(c, "d"@) {
            } else {
                lemma_compact_dict_is_fixed(m);
            }
        },
        SadV::List(a) => {
            let items = compact_items(a, a.len())->Ok_0.0;
            lemma_compact_items_len(a, a.len());
            assert forall|i: int| 0 <= i < items.len() implies compact_child(#[trigger] items[i])
                == Ok::<(SadV, Seq<SadV>), KeriError>((items[i], Seq::empty())) by {
                lemma_compact_items_at(a, a.len(), i);
                lemma_settled_is_fixed(a[i]);
            }
            lemma_compact_items_fixed(items, items.len());
            assert(items.subrange(0, items.len() as int) =~= items);
        },
        _ => {},
    }
}

/// The form of a compacted mapping: the compacted entries, with the digest
/// put under `d` where they hold that key, in which case the mapping holds a
/// text there.
pub proof fn lemma_compacted_dict_form(m: EntriesV)
    requires
        compact_dict(m) is Ok,
    ensures
        compact_entries(m, m.len()) is Ok,
        ({
            let es = compact_entries(m, m.len())->Ok_0.0;
            let c = compact_dict(m)->Ok_0.0;
            &&& es.len() == m.len()
            &&& c.len() == m.len()
            &&& holds_key(c, "d"@) == holds_key(es, "d"@)
            &&& holds_key(es, "d"@) ==> digest_of(es) is Some && c == put(
                es,
                "d"@,
                SadV::Text(digest_of(es)->Some_0),
            ) && lookup(c, "d"@) == Some(SadV::Text(digest_of(es)->Some_0))
            &&& !holds_key(es, "d"@) ==> c == es
        }),
{
    let es = compact_entries(m, m.len())->Ok_0.0;
    lemma_compact_entries_len(m, m.len());
    if holds_key(es, "d"@) {
        let said = digest_of(es)->Some_0;
        lemma_lookup_put(es, "d"@, SadV::Text(said));
        let c = put(es, "d"@, SadV::Text(said));
        lemma_same_keys(es, c, "d"@);
    }
}

/// A mapping that is compacted stays as it is when it is compacted again,
/// and nothing more is taken out of it.
pub proof fn lemma_compact_dict_is_fixed(m: EntriesV)
    requires
        compact_dict(m) is Ok,
    ensures
        compact_dict(compact_dict(m)->Ok_0.0) == Ok::<(EntriesV, Seq<SadV>), KeriError>(
            (compact_dict(m)->Ok_0.0, Seq::empty()),
        ),
    decreases m, 1nat,
{
    let es = compact_entries(m, m.len())->Ok_0.0;
    let c = compact_dict(m)->Ok_0.0;
    lemma_compacted_dict_form(m);
    assert forall|i: int| 0 <= i < es.len() implies compact_child((#[trigger] es[i]).1) == Ok::<
        (SadV, Seq<SadV>),
        KeriError,
    >((es[i].1, Seq::empty())) by {
        lemma_compact_entries_at(m, m.len(), i);
        lemma_settled_is_fixed(m[i].1);
    }
    if holds_key(es, "d"@) {
        let said = digest_of(es)->Some_0;
        lemma_lookup_put(es, "d"@, SadV::Text(said));
        assert forall|i: int| 0 <= i < c.len() implies compact_child((#[trigger] c[i]).1) == Ok::<
            (SadV, Seq<SadV>),
            KeriError,
        >((c[i].1, Seq::empty())) by {
            assert(c[i] == es[i] || c[i] == ("d"@, SadV::Text(said)));
        }
        lemma_compact_entries_fixed(c, c.len());
        assert(c.subrange(0, c.len() as int) =~= c);
        lemma_put_put(es, "d"@, SadV::Text(said), SadV::Text(Seq::empty()));
        lemma_put_put(es, "d"@, SadV::Text(said), SadV::Text(said));
        assert(digest_of(c) == digest_of(es));
    } else {
        lemma_compact_entries_fixed(es, es.len());
        assert(es.subrange(0, es.len() as int) =~= es);
    }
}

/// Compaction is idempotent: a compacted value compacts to itself, and
/// nothing more is taken out of it.
pub proof fn law_compact_idempotent(s: SadV)
    requires
        compact(s) is Ok,
    ensures
        compact(compact(s)->Ok_0.0) == Ok::<(SadV, Seq<SadV>), KeriError>(
            (compact(s)->Ok_0.0, Seq::empty()),
        ),
{
    match s {
        SadV::Dict(m) => {
            lemma_compact_dict_is_fixed(m);
        },
        _ => {},
    }
}

/// The store holds under every digest a datum that compacts to that digest:
/// a mapping that declares a digest and whose digest, taken anew, is the one
/// it is held under.
pub open spec fn holds_what_it_names<S: KeriStore>(store: &S) -> bool {
    forall|said: Seq<char>| #[trigger]
        store.sad_at(said) matches Ok(x) ==> (compact_child(x) matches Ok((c, _)) && c
            == SadV::Text(said))
}

/// The mapping with entries `m` with one entry replaced by a value that
/// becomes the same under compaction compacts to the same mapping.
pub proof fn lemma_compact_dict_swap(m: EntriesV, key: Seq<char>, value: SadV)
    requires
        compact_dict(m) is Ok,
        lookup(m, key) is Some,
        compact_child(value) is Ok,
        settled(value) == settled(lookup(m, key)->Some_0),
    ensures
        compact_dict(put(m, key, value)) is Ok,
        compact_dict(put(m, key, value))->Ok_0.0 == compact_dict(m)->Ok_0.0,
{
    let other = put(m, key, value);
    let p = pos(m, key);
    lemma_lookup_put(m, key, value);
    assert(other.len() == m.len());
    assert forall|i: int| 0 <= i < m.len() implies (#[trigger] other[i]).0 == m[i].0
        && compact_child(other[i].1) is Ok && settled(other[i].1) == settled(m[i].1) by {
        lemma_compact_entries_at(m, m.len(), i);
        if i != p {
            assert(other[i] == m[i]);
        }
    }
    lemma_compact_entries_same(m, other, m.len());
}

/// Expanding a mapping along a path, from a store that holds what it
/// names, does not change what the mapping compacts to.
pub proof fn lemma_expansion_compacts_back<S: KeriStore>(
    store: &S,
    m: EntriesV,
    path: Seq<Seq<char>>,
    k: nat,
)
    requires
        holds_what_it_names(store),
        compact_dict(m) is Ok,
        expanded_at(store, SadV::Dict(m), path, k) is Ok,
    ensures
        expanded_at(store, SadV::Dict(m), path, k)->Ok_0 is Dict,
        compact_dict(expanded_at(store, SadV::Dict(m), path, k)->Ok_0->Dict_0) is Ok,
        compact_dict(expanded_at(store, SadV::Dict(m), path, k)->Ok_0->Dict_0)->Ok_0.0
            == compact_dict(m)->Ok_0.0,
    decreases path.len() - k,
{
    if k < path.len() {
        let key = path[k as int];
        let child = lookup(m, key)->Some_0;
        let p = pos(m, key);
        lemma_compact_entries_at(m, m.len(), p);
        if k == path.len() - 1 {
            let said = child->Text_0;
            let full = store.sad_at(said)->Ok_0;
            assert(store.sad_at(said) is Ok);
            lemma_compact_dict_swap(m, key, full);
        } else {
            let inner = child->Dict_0;
            assert(child == SadV::Dict(inner));
            lemma_expansion_compacts_back(store, inner, path, k + 1);
            let grown = expanded_at(store, child, path, k + 1)->Ok_0;
            let grown_entries = grown->Dict_0;
            assert(grown == SadV::Dict(grown_entries));
            lemma_compact_dict_swap(m, key, grown);
        }
    }
}

/// Compacting what was expanded from a compacted value gives the compacted
/// value again: for every well-formed value `s` and every list of paths,
/// expanding the compaction of `s` along the paths, from a store that holds
/// what it names, and compacting the result, yields the compaction of `s`.
pub proof fn law_compact_expand_compact<S: KeriStore>(
    store: &S,
    s: SadV,
    paths: Seq<Seq<Seq<char>>>,
    n: nat,
)
    requires
        holds_what_it_names(store),
        compact(s) is Ok,
        n <= paths.len(),
        expanded_along(store, compact(s)->Ok_0.0, paths, n) is Ok,
    ensures
        compact(expanded_along(store, compact(s)->Ok_0.0, paths, n)->Ok_0) is Ok,
        compact(expanded_along(store, compact(s)->Ok_0.0, paths, n)->Ok_0)->Ok_0.0 == compact(
            s,
        )->Ok_0.0,
    decreases n,
{
    let c = compact(s)->Ok_0.0;
    law_compact_idempotent(s);
    if n > 0 {
        law_compact_expand_compact(store, s, paths, (n - 1) as nat);
        let grown = expanded_along(store, c, paths, (n - 1) as nat)->Ok_0;
        match grown {
            SadV::Dict(m) => {
                lemma_expansion_compacts_back(store, m, paths[n - 1], 0);
            },
            _ => {},
        }
    }
}

/// `x` names itself: it is a compacted mapping that declares a digest, so
/// that compacting it gives that digest and nothing but `x` itself beside it.
pub open spec fn names_itself(x: SadV) -> bool {
    &&& x matches SadV::Dict(c)
    &&& lookup(c, "d"@) matches Some(SadV::Text(said))
    &&& compact_child(x) == Ok::<(SadV, Seq<SadV>), KeriError>((SadV::Text(said), seq![x]))
}

/// Every one of `subs` names itself.
pub open spec fn all_name_themselves(subs: Seq<SadV>) -> bool {
    forall|i: int| 0 <= i < subs.len() ==> names_itself(#[trigger] subs[i])
}

/// What is taken out of the first `n` entries names itself.
pub proof fn lemma_entries_subs_named(m: EntriesV, n: nat)
    requires
        n <= m.len(),
        compact_entries(m, n) is Ok,
    ensures
        all_name_themselves(compact_entries(m, n)->Ok_0.1),
    decreases m, n,
{
    if n > 0 {
        lemma_entries_subs_named(m, (n - 1) as nat);
        lemma_child_subs_named(m[n - 1].1);
        let prev = compact_entries(m, (n - 1) as nat)->Ok_0.1;
        let more = compact_child(m[n - 1].1)->Ok_0.1;
        let subs = compact_entries(m, n)->Ok_0.1;
        assert(subs == prev + more);
        assert forall|i: int| 0 <= i < subs.len() implies names_itself(#[trigger] subs[i]) by {
            if i < prev.len() {
                assert(subs[i] == prev[i]);
            } else {
                assert(subs[i] == more[i - prev.len()]);
            }
        }
    }
}

/// What is taken out of the first `n` items names itself.
pub proof fn lemma_items_subs_named(a: Seq<SadV>, n: nat)
    requires
        n <= a.len(),
        compact_items(a, n) is Ok,
    ensures
        all_name_themselves(compact_items(a, n)->Ok_0.1),
    decreases a, n,
{
    if n > 0 {
        lemma_items_subs_named(a, (n - 1) as nat);
        lemma_child_subs_named(a[n - 1]);
        let prev = compact_items(a, (n - 1) as nat)->Ok_0.1;
        let more = compact_child(a[n - 1])->Ok_0.1;
        let subs = compact_items(a, n)->Ok_0.1;
        assert(subs == prev + more);
        assert forall|i: int| 0 <= i < subs.len() implies names_itself(#[trigger] subs[i]) by {
            if i < prev.len() {
                assert(subs[i] == prev[i]);
            } else {
                assert(subs[i] == more[i - prev.len()]);
            }
        }
    }
}

/// What is taken out of a value names itself.
pub proof fn lemma_child_subs_named(v: SadV)
    requires
        compact_child(v) is Ok,
    ensures
        all_name_themselves(compact_child(v)->Ok_0.1),
    decreases v, 0nat,
{
    match v {
        SadV::Dict(m) => {
            lemma_compacted_dict_form(m);
            lemma_entries_subs_named(m, m.len());
            let c = compact_dict(m)->Ok_0.0;
            let inner = compact_dict(m)->Ok_0.1;
            assert(inner == compact_entries(m, m.len())->Ok_0.1);
            if holds_key(c, "d"@) {
                lemma_compact_dict_is_fixed(m);
                let x = SadV::Dict(c);
                assert(Seq::<SadV>::empty().push(x) =~= seq![x]);
                assert(names_itself(x));
                let subs = compact_child(v)->Ok_0.1;
                assert(subs == inner.push(x));
                assert forall|i: int| 0 <= i < subs.len() implies names_itself(
                    #[trigger] subs[i],
                ) by {
                    if i < inner.len() {
                        assert(subs[i] == inner[i]);
                    }
                }
            }
        },
        SadV::List(a) => {
            lemma_items_subs_named(a, a.len());
        },
        _ => {},
    }
}

/// Every sub-SAD that compaction takes out names itself: compacting it gives
/// the digest that it declares. So a store that keeps each of them under
/// its digest holds what it names.
pub proof fn law_collected_name_themselves(s: SadV)
    requires
        compact(s) is Ok,
    ensures
        all_name_themselves(compact(s)->Ok_0.1),
{
    match s {
        SadV::Dict(m) => {
            lemma_entries_subs_named(m, m.len());
            lemma_compacted_dict_form(m);
        },
        _ => {},
    }
}

/// Entries whose values all compact, compact.
pub proof fn lemma_compact_entries_ok(m: EntriesV, n: nat)
    requires
        n <= m.len(),
        forall|i: int| 0 <= i < n ==> compact_child((#[trigger] m[i]).1) is Ok,
    ensures
        compact_entries(m, n) is Ok,
    decreases n,
{
    if n > 0 {
        lemma_compact_entries_ok(m, (n - 1) as nat);
        assert(compact_child(m[n - 1].1) is Ok);
    }
}

/// Items that all compact, compact.
pub proof fn lemma_compact_items_ok(a: Seq<SadV>, n: nat)
    requires
        n <= a.len(),
        forall|i: int| 0 <= i < n ==> compact_child(#[trigger] a[i]) is Ok,
    ensures
        compact_items(a, n) is Ok,
    decreases n,
{
    if n > 0 {
        lemma_compact_items_ok(a, (n - 1) as nat);
        assert(compact_child(a[n - 1]) is Ok);
    }
}

/// Entries that agree but for the text at the first position of one key are
/// the same once a value is put under that key.
pub proof fn lemma_put_over_difference(m: EntriesV, other: EntriesV, key: Seq<char>, value: SadV)
    requires
        m.len() == other.len(),
        holds_key(m, key),
        forall|i: int|
            0 <= i < m.len() ==> (#[trigger] other[i]).0 == m[i].0 && (other[i].1 == m[i].1 || i
                == pos(m, key)),
    ensures
        put(other, key, value) == put(m, key, value),
{
    lemma_same_keys(m, other, key);
    let p = pos(m, key);
    assert(put(other, key, value) =~= put(m, key, value)) by {
        assert forall|i: int| 0 <= i < m.len() implies put(other, key, value)[i] == put(
            m,
            key,
            value,
        )[i] by {
            if i != p {
                assert(other[i].0 == m[i].0);
                assert(other[i] == m[i]);
            }
        }
    }
}

/// Compaction does not look at the digests that it renews: a value whose
/// digests were filled in or renewed compacts to what it compacted to
/// before.
pub proof fn lemma_compact_ignores_digests(v: SadV, overwrite: bool)
    requires
        compact_child(v) is Ok,
        saidified(v, "d"@, overwrite) is Ok,
    ensures
        compact_child(saidified(v, "d"@, overwrite)->Ok_0) is Ok,
        settled(saidified(v, "d"@, overwrite)->Ok_0) == settled(v),
    decreases v, 1nat,
{
    let w = saidified(v, "d"@, overwrite)->Ok_0;
    match v {
        SadV::List(a) => {
            let items = saidified_items(a, a.len(), "d"@, overwrite)->Ok_0;
            if a.len() > 0 {
                lemma_saidified_items_at(a, a.len(), "d"@, overwrite, 0);
            }
            lemma_compact_items_len(a, a.len());
            assert forall|i: int| 0 <= i < items.len() implies compact_child(#[trigger] items[i])
                is Ok && settled(items[i]) == settled(a[i]) by {
                lemma_saidified_items_at(a, a.len(), "d"@, overwrite, i);
                lemma_compact_items_at(a, a.len(), i);
                lemma_compact_ignores_digests(a[i], overwrite);
            }
            lemma_compact_items_ok(items, items.len());
            lemma_compact_items_len(items, items.len());
            let before = compact_items(a, a.len())->Ok_0.0;
            let after = compact_items(items, items.len())->Ok_0.0;
            assert(after =~= before) by {
                assert forall|i: int| 0 <= i < before.len() implies after[i] == before[i] by {
                    lemma_compact_items_at(a, a.len(), i);
                    lemma_compact_items_at(items, items.len(), i);
                }
            }
        },
        SadV::Dict(m) => {
            lemma_compact_dict_ignores_digests(m, overwrite);
        },
        _ => {},
    }
}

/// A mapping whose digests were filled in or renewed compacts to the
/// mapping that it compacted to before.
pub proof fn lemma_compact_dict_ignores_digests(m: EntriesV, overwrite: bool)
    requires
        compact_dict(m) is Ok,
        saidified(SadV::Dict(m), "d"@, overwrite) is Ok,
    ensures
        saidified(SadV::Dict(m), "d"@, overwrite)->Ok_0 is Dict,
        compact_dict(saidified(SadV::Dict(m), "d"@, overwrite)->Ok_0->Dict_0) is Ok,
        compact_dict(saidified(SadV::Dict(m), "d"@, overwrite)->Ok_0->Dict_0)->Ok_0.0
            == compact_dict(m)->Ok_0.0,
    decreases m, 0nat,
{
    let w = saidified(SadV::Dict(m), "d"@, overwrite)->Ok_0;
    let es = saidified_entries(m, m.len(), "d"@, overwrite)->Ok_0;
    if m.len() > 0 {
        lemma_saidified_entries_at(m, m.len(), "d"@, overwrite, 0);
    }
    lemma_compacted_dict_form(m);
    let mw = w->Dict_0;
    assert(w == SadV::Dict(mw));
    if wants_said(es, "d"@, overwrite) {
        let said = crate::said::said_for(SadV::Dict(es), "d"@)->Some_0;
        lemma_lookup_put(es, "d"@, SadV::Text(said));
        assert(mw == put(es, "d"@, SadV::Text(said)));
    } else {
        assert(mw == es);
    }
    assert(mw.len() == m.len());
    assert forall|i: int| 0 <= i < m.len() implies (#[trigger] es[i]).0 == m[i].0 by {
        lemma_saidified_entries_at(m, m.len(), "d"@, overwrite, i);
    }
    lemma_same_keys(m, es, "d"@);
    let p = pos(m, "d"@);
    assert forall|i: int| 0 <= i < m.len() implies compact_child((#[trigger] mw[i]).1) is Ok
        && mw[i].0 == m[i].0 && (settled(mw[i].1) == settled(m[i].1) || (holds_key(m, "d"@) && i
        == p)) by {
        lemma_saidified_entries_at(m, m.len(), "d"@, overwrite, i);
        lemma_compact_entries_at(m, m.len(), i);
        lemma_compact_ignores_digests(m[i].1, overwrite);
        if mw[i] != es[i] {
            assert(wants_said(es, "d"@, overwrite));
            assert(i == pos(es, "d"@));
        }
    }
    lemma_compact_entries_ok(mw, mw.len());
    lemma_compact_entries_len(mw, mw.len());
    let before = compact_entries(m, m.len())->Ok_0.0;
    let after = compact_entries(mw, mw.len())->Ok_0.0;
    assert forall|i: int| 0 <= i < before.len() implies (#[trigger] before[i]).0 == m[i].0 by {
        lemma_compact_entries_at(m, m.len(), i);
    }
    assert forall|i: int| 0 <= i < before.len() implies (#[trigger] after[i]).0 == before[i].0
        && (after[i].1 == before[i].1 || (holds_key(m, "d"@) && i == p)) by {
        lemma_compact_entries_at(m, m.len(), i);
        lemma_compact_entries_at(mw, mw.len(), i);
    }
    lemma_same_keys(m, before, "d"@);
    lemma_same_keys(before, after, "d"@);
    if holds_key(before, "d"@) {
        lemma_put_over_difference(before, after, "d"@, SadV::Text(Seq::empty()));
        assert(digest_of(after) == digest_of(before));
        lemma_put_over_difference(before, after, "d"@, SadV::Text(digest_of(before)->Some_0));
    } else {
        assert(after =~= before);
    }
}

/// Compacting a value whose digests were filled in or renewed gives what
/// compacting the value gives.
pub proof fn law_compact_ignores_digests(v: SadV, overwrite: bool)
    requires
        compact(v) is Ok,
        saidified(v, "d"@, overwrite) is Ok,
    ensures
        compact(saidified(v, "d"@, overwrite)->Ok_0) is Ok,
        compact(saidified(v, "d"@, overwrite)->Ok_0)->Ok_0.0 == compact(v)->Ok_0.0,
{
    match v {
        SadV::Dict(m) => {
            lemma_compact_dict_ignores_digests(m, overwrite);
        },
        _ => {},
    }
}

/// Compacting what `expand_acdc` makes of a compacted content gives the
/// compacted content again: the content is expanded along the paths from a
/// store that holds what it names, its digests are renewed, and compaction
/// undoes both.
pub proof fn law_compact_expanded_content<S: KeriStore>(
    store: &S,
    s: SadV,
    paths: Seq<Seq<Seq<char>>>,
)
    requires
        holds_what_it_names(store),
        compact(s) is Ok,
        expanded_along(store, compact(s)->Ok_0.0, paths, paths.len()) matches Ok(grown)
            && saidified(grown, "d"@, true) is Ok,
    ensures
        ({
            let grown = expanded_along(store, compact(s)->Ok_0.0, paths, paths.len())->Ok_0;
            let renewed = saidified(grown, "d"@, true)->Ok_0;
            compact(renewed) is Ok && compact(renewed)->Ok_0.0 == compact(s)->Ok_0.0
        }),
{
    law_compact_expand_compact(store, s, paths, paths.len());
    let grown = expanded_along(store, compact(s)->Ok_0.0, paths, paths.len())->Ok_0;
    law_compact_ignores_digests(grown, true);
}

/// Every value of `m` wants no digest.
pub open spec fn values_want_none(m: EntriesV, label: Seq<char>) -> bool {
    forall|i: int| 0 <= i < m.len() ==> wants_none((#[trigger] m[i]).1, label, false)
}

/// Putting a value that wants no digest among values that want none leaves
/// values that want none.
pub proof fn lemma_put_wants_none(m: EntriesV, key: Seq<char>, value: SadV, label: Seq<char>)
    requires
        values_want_none(m, label),
        wants_none(value, label, false),
    ensures
        values_want_none(put(m, key, value), label),
{
    let out = put(m, key, value);
    assert forall|i: int| 0 <= i < out.len() implies wants_none(
        (#[trigger] out[i]).1,
        label,
        false,
    ) by {
        if holds_key(m, key) {
            if i != crate::data::pos(m, key) {
                assert(out[i] == m[i]);
            }
        } else {
            if i < m.len() {
                assert(out[i] == m[i]);
            }
        }
    }
}

/// A mapping that just got a digest that is not empty wants none any more.
pub proof fn lemma_digested_wants_none(m: EntriesV, label: Seq<char>, said: Seq<char>)
    requires
        values_want_none(m, label),
        said.len() > 0,
    ensures
        wants_none(SadV::Dict(put(m, label, SadV::Text(said))), label, false),
{
    lemma_put_wants_none(m, label, SadV::Text(said), label);
    lemma_lookup_put(m, label, SadV::Text(said));
}

/// Once the digests of a structure are filled in, no mapping of it wants one:
/// digesting it again without `overwrite`, salted or not, leaves it as it
/// is.
pub proof fn law_digested_wants_none(v: SadV, label: Seq<char>)
    requires
        saidified(v, label, false) is Ok,
    ensures
        wants_none(saidified(v, label, false)->Ok_0, label, false),
    decreases v,
{
    match v {
        SadV::List(a) => {
            let items = saidified_items(a, a.len(), label, false)->Ok_0;
            assert forall|i: int| 0 <= i < items.len() implies wants_none(
                #[trigger] items[i],
                label,
                false,
            ) by {
                if a.len() > 0 {
                    lemma_saidified_items_at(a, a.len(), label, false, 0);
                    lemma_saidified_items_at(a, a.len(), label, false, i);
                    law_digested_wants_none(a[i], label);
                }
            }
        },
        SadV::Dict(m) => {
            let es = saidified_entries(m, m.len(), label, false)->Ok_0;
            assert forall|i: int| 0 <= i < es.len() implies wants_none(
                (#[trigger] es[i]).1,
                label,
                false,
            ) by {
                if m.len() > 0 {
                    lemma_saidified_entries_at(m, m.len(), label, false, 0);
                    lemma_saidified_entries_at(m, m.len(), label, false, i);
                    law_digested_wants_none(m[i].1, label);
                }
            }
            if wants_said(es, label, false) {
                let said = said_for(SadV::Dict(es), label)->Some_0;
                lemma_digested_wants_none(es, label, said);
            }
        },
        _ => {},
    }
}

/// The item at `i` among the first `n` salted items is the salted item of
/// `a` there.
pub proof fn lemma_salted_items_at(
    a: Seq<SadV>,
    ts: Seq<SaltsV>,
    n: nat,
    label: Seq<char>,
    overwrite: bool,
    i: int,
)
    requires
        n <= a.len(),
        n <= ts.len(),
        salted_items(a, ts, n, label, overwrite) is Some,
        0 <= i < n,
    ensures
        salted_items(a, ts, n, label, overwrite)->Some_0.len() == n,
        salted(a[i], label, overwrite, ts[i]) is Some,
        salted_items(a, ts, n, label, overwrite)->Some_0[i] == salted(
            a[i],
            label,
            overwrite,
            ts[i],
        )->Some_0.0,
    decreases n,
{
    let prev = salted_items(a, ts, (n - 1) as nat, label, overwrite);
    assert(prev is Some);
    if n > 1 {
        if i < n - 1 {
            lemma_salted_items_at(a, ts, (n - 1) as nat, label, overwrite, i);
        } else {
            lemma_salted_items_at(a, ts, (n - 1) as nat, label, overwrite, 0);
        }
    } else {
        assert(prev->Some_0.len() == 0);
    }
    assert(salted_items(a, ts, n, label, overwrite)->Some_0 == prev->Some_0.push(
        salted(a[n - 1], label, overwrite, ts[n - 1])->Some_0.0,
    ));
}

/// The entry at `i` among the first `n` salted entries is the entry of `m`
/// there with its value salted.
pub proof fn lemma_salted_entries_at(
    m: EntriesV,
    ts: Seq<SaltsV>,
    n: nat,
    label: Seq<char>,
    overwrite: bool,
    i: int,
)
    requires
        n <= m.len(),
        n <= ts.len(),
        salted_entries(m, ts, n, label, overwrite) is Some,
        0 <= i < n,
    ensures
        salted_entries(m, ts, n, label, overwrite)->Some_0.0.len() == n,
        salted(m[i].1, label, overwrite, ts[i]) is Some,
        salted_entries(m, ts, n, label, overwrite)->Some_0.0[i] == (
            m[i].0,
            salted(m[i].1, label, overwrite, ts[i])->Some_0.0,
        ),
    decreases n,
{
    let prev = salted_entries(m, ts, (n - 1) as nat, label, overwrite);
    assert(prev is Some);
    if n > 1 {
        if i < n - 1 {
            lemma_salted_entries_at(m, ts, (n - 1) as nat, label, overwrite, i);
        } else {
            lemma_salted_entries_at(m, ts, (n - 1) as nat, label, overwrite, 0);
        }
    } else {
        assert(prev->Some_0.0.len() == 0);
    }
    assert(salted_entries(m, ts, n, label, overwrite)->Some_0.0 == prev->Some_0.0.push(
        (m[n - 1].0, salted(m[n - 1].1, label, overwrite, ts[n - 1])->Some_0.0),
    ));
}

/// Once a structure is digested with salts, no mapping of it wants a digest:
/// digesting it again without `overwrite`, salted or not, leaves it as it
/// is.
pub proof fn law_salted_wants_none(v: SadV, label: Seq<char>, salts: SaltsV)
    requires
        salted(v, label, false, salts) is Some,
    ensures
        wants_none(salted(v, label, false, salts)->Some_0.0, label, false),
    decreases v,
{
    match v {
        SadV::List(a) => {
            let ts = salts->Items_0;
            let items = salted_items(a, ts, a.len(), label, false)->Some_0;
            assert forall|i: int| 0 <= i < items.len() implies wants_none(
                #[trigger] items[i],
                label,
                false,
            ) by {
                if a.len() > 0 {
                    lemma_salted_items_at(a, ts, a.len(), label, false, 0);
                    lemma_salted_items_at(a, ts, a.len(), label, false, i);
                    law_salted_wants_none(a[i], label, ts[i]);
                }
            }
        },
        SadV::Dict(m) => {
            let ts = salts->Node_0;
            let own = salts->Node_1;
            let (es, nested) = salted_entries(m, ts, m.len(), label, false)->Some_0;
            assert forall|i: int| 0 <= i < es.len() implies wants_none(
                (#[trigger] es[i]).1,
                label,
                false,
            ) by {
                if m.len() > 0 {
                    lemma_salted_entries_at(m, ts, m.len(), label, false, 0);
                    lemma_salted_entries_at(m, ts, m.len(), label, false, i);
                    law_salted_wants_none(m[i].1, label, ts[i]);
                }
            }
            if wants_said(es, label, false) {
                let with_salt = if nested {
                    es
                } else {
                    put(es, "u"@, SadV::Text(own->Some_0))
                };
                if !nested {
                    lemma_put_wants_none(es, "u"@, SadV::Text(own->Some_0), label);
                }
                let said = said_for(SadV::Dict(with_salt), label)->Some_0;
                lemma_digested_wants_none(with_salt, label, said);
            }
        },
        _ => {},
    }
}

} // verus!
