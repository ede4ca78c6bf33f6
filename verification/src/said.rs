use crate::data::{
    entries_view, find_key, first_at, holds_key, lemma_first_at_unique, list_view, lookup,
    put, put_entry, unique_keys, EntriesV, Sad, SadV,
};
use crate::error::KeriError;
use crate::primitives::{
    blanked, fresh_salt, said_of, said_under, self_addressed, self_address, to_value,
};
use vstd::prelude::*;
use crate::codes::{cuttable, is_cuttable};

verus! {

/// What compaction yields: the compacted value and the sub-SADs that were
/// taken out of it, deepest first.
pub type CompactedV = Result<(SadV, Seq<SadV>), KeriError>;

/// The digest of the mapping with entries `m`, taken with its own digest
/// field blanked.
pub open spec fn digest_of(m: EntriesV) -> Option<Seq<char>> {
    self_addressed(blanked(SadV::Dict(m)), None)
}

/// The mapping with entries `m`, compacted: its nested values compacted in
/// order, then its own digest, where it declares one, taken anew.
pub open spec fn compact_dict(m: EntriesV) -> Result<(EntriesV, Seq<SadV>), KeriError>
    decreases m, m.len() + 1,
{
    match compact_entries(m, m.len()) {
        Err(e) => Err(e),
        Ok((es, subs)) => if holds_key(es, "d"@) {
            match digest_of(es) {
                Some(said) => Ok((put(es, "d"@, SadV::Text(said)), subs)),
                None => Err(KeriError::Primitive),
            }
        } else {
            Ok((es, subs))
        },
    }
}

/// The first `n` entries of `m`, compacted, with the sub-SADs taken out of
/// them.
pub open spec fn compact_entries(m: EntriesV, n: nat) -> Result<(EntriesV, Seq<SadV>), KeriError>
    decreases m, n,
{
    if n == 0 || n > m.len() {
        Ok((Seq::empty(), Seq::empty()))
    } else {
        match compact_entries(m, (n - 1) as nat) {
            Err(e) => Err(e),
            Ok((es, subs)) => match compact_child(m[n - 1].1) {
                Err(e) => Err(e),
                Ok((v, more)) => Ok((es.push((m[n - 1].0, v)), subs + more)),
            },
        }
    }
}

/// The first `n` items of `a`, compacted, with the sub-SADs taken out of them.
pub open spec fn compact_items(a: Seq<SadV>, n: nat) -> Result<(Seq<SadV>, Seq<SadV>), KeriError>
    decreases a, n,
{
    if n == 0 || n > a.len() {
        Ok((Seq::empty(), Seq::empty()))
    } else {
        match compact_items(a, (n - 1) as nat) {
            Err(e) => Err(e),
            Ok((items, subs)) => match compact_child(a[n - 1]) {
                Err(e) => Err(e),
                Ok((v, more)) => Ok((items.push(v), subs + more)),
            },
        }
    }
}

/// What a nested value becomes inside its compacted parent. A mapping that
/// declares a digest is replaced by that digest and joins the sub-SADs, after
/// those taken out of itself; another mapping and a sequence stay, compacted;
/// a scalar stays as it is.
pub open spec fn compact_child(v: SadV) -> CompactedV
    decreases v,
{
    match v {
        SadV::Dict(m) => match compact_dict(m) {
            Err(e) => Err(e),
            Ok((c, subs)) => match lookup(c, "d"@) {
                Some(said) => Ok((said, subs.push(SadV::Dict(c)))),
                None => Ok((SadV::Dict(c), subs)),
            },
        },
        SadV::List(a) => match compact_items(a, a.len()) {
            Err(e) => Err(e),
            Ok((items, subs)) => Ok((SadV::List(items), subs)),
        },
        _ => Ok((v, Seq::empty())),
    }
}

/// A self-addressing value, compacted. Only a mapping can be compacted.
pub open spec fn compact(v: SadV) -> CompactedV {
    match v {
        SadV::Dict(m) => match compact_dict(m) {
            Err(e) => Err(e),
            Ok((c, subs)) => Ok((SadV::Dict(c), subs)),
        },
        _ => Err(KeriError::Conversion),
    }
}

/// Every value of `s` is well formed.
pub open spec fn all_wf(s: Seq<SadV>) -> bool {
    forall|i: int| 0 <= i < s.len() ==> (#[trigger] s[i]).wf()
}

/// A failure among the first `n` entries is the failure of every longer
/// prefix.
pub proof fn lemma_entries_failure_stays(m: EntriesV, n: nat, k: nat)
    requires
        n <= k <= m.len(),
        compact_entries(m, n) is Err,
    ensures
        compact_entries(m, k) == compact_entries(m, n),
    decreases k,
{
    if n < k {
        lemma_entries_failure_stays(m, n, (k - 1) as nat);
    }
}

/// A failure among the first `n` items is the failure of every longer prefix.
pub proof fn lemma_items_failure_stays(a: Seq<SadV>, n: nat, k: nat)
    requires
        n <= k <= a.len(),
        compact_items(a, n) is Err,
    ensures
        compact_items(a, k) == compact_items(a, n),
    decreases k,
{
    if n < k {
        lemma_items_failure_stays(a, n, (k - 1) as nat);
    }
}

fn compact_dict_exec(m: &Vec<(String, Sad)>, subs: &mut Vec<Sad>) -> (r: Result<
    Vec<(String, Sad)>,
    KeriError,
>)
    requires
        SadV::Dict(entries_view(m@)).wf(),
        all_wf(list_view(old(subs)@)),
    ensures
        match compact_dict(entries_view(m@)) {
            Ok((c, more)) => r matches Ok(out) && entries_view(out@) == c && SadV::Dict(c).wf()
                && c.len() == m@.len() && list_view(final(subs)@) == list_view(old(subs)@) + more
                && all_wf(list_view(final(subs)@)),
            Err(e) => r == Err::<Vec<(String, Sad)>, KeriError>(e),
        },
    decreases m,
{
    let ghost ev = entries_view(m@);
    let ghost before = list_view(subs@);
    let mut out: Vec<(String, Sad)> = Vec::new();
    let mut i: usize = 0;
    while i < m.len()
        invariant
            i <= m.len(),
            ev == entries_view(m@),
            SadV::Dict(ev).wf(),
            out@.len() == i,
            forall|j: int| 0 <= j < i ==> (#[trigger] out@[j]).0@ == m@[j].0@,
            forall|j: int| 0 <= j < i ==> (#[trigger] out@[j]).1@.wf(),
            compact_entries(ev, i as nat) matches Ok((es, more)) && es == entries_view(out@)
                && list_view(subs@) == before + more,
            all_wf(list_view(subs@)),
        decreases m.len() - i,
    {
        proof {
            assert(decreases_to!(*m => m[i as int]));
            assert(decreases_to!(m[i as int] => m[i as int].1));
            assert(ev[i as int].1.wf());
            assert(ev[i as int].1 == m@[i as int].1@);
        }
        let ghost prior = list_view(subs@);
        match compact_child_exec(&m[i].1, subs) {
            Err(e) => {
                proof {
                    lemma_entries_failure_stays(ev, (i + 1) as nat, m.len() as nat);
                }
                return Err(e);
            },
            Ok(v) => {
                let ghost es = compact_entries(ev, i as nat)->Ok_0.0;
                let ghost more = compact_child(ev[i as int].1)->Ok_0.1;
                out.push((m[i].0.clone(), v));
                assert(entries_view(out@) =~= es.push((ev[i as int].0, v@)));
                assert(list_view(subs@) == prior + more);
                assert(prior + more =~= before + (compact_entries(ev, i as nat)->Ok_0.1 + more));
            },
        }
        i = i + 1;
    }
    let ghost es = entries_view(out@);
    assert(unique_keys(es)) by {
        assert forall|a: int, b: int| 0 <= a < b < es.len() implies (#[trigger] es[a]).0 != (
        #[trigger] es[b]).0 by {
            assert(es[a].0 == ev[a].0);
            assert(es[b].0 == ev[b].0);
        }
    }
    assert(SadV::Dict(es).wf()) by {
        assert forall|j: int| 0 <= j < es.len() implies (#[trigger] es[j]).1.wf() by {
            assert(out@[j].1@.wf());
        }
    }
    let label = "d".to_owned();
    match find_key(&out, &label) {
        None => Ok(out),
        Some(_) => {
            let node = Sad::Dict(out);
            let tree = to_value(&node);
            match self_address(&tree, None) {
                Err(_) => Err(KeriError::Primitive),
                Ok(said) => {
                    match node {
                        Sad::Dict(mut entries) => {
                            put_entry(&mut entries, label, Sad::Text(said));
                            proof {
                                lemma_put_keeps_wf(es, "d"@, SadV::Text(said@));
                            }
                            Ok(entries)
                        },
                        _ => Err(KeriError::Programmer),
                    }
                },
            }
        },
    }
}

fn compact_list_exec(a: &Vec<Sad>, subs: &mut Vec<Sad>) -> (r: Result<Vec<Sad>, KeriError>)
    requires
        SadV::List(list_view(a@)).wf(),
        all_wf(list_view(old(subs)@)),
    ensures
        match compact_items(list_view(a@), a@.len()) {
            Ok((items, more)) => r matches Ok(out) && list_view(out@) == items && SadV::List(
                items,
            ).wf() && list_view(final(subs)@) == list_view(old(subs)@) + more && all_wf(
                list_view(final(subs)@),
            ),
            Err(e) => r == Err::<Vec<Sad>, KeriError>(e),
        },
    decreases a,
{
    let ghost av = list_view(a@);
    let ghost before = list_view(subs@);
    let mut out: Vec<Sad> = Vec::new();
    let mut i: usize = 0;
    while i < a.len()
        invariant
            i <= a.len(),
            av == list_view(a@),
            SadV::List(av).wf(),
            out@.len() == i,
            forall|j: int| 0 <= j < i ==> (#[trigger] out@[j])@.wf(),
            compact_items(av, i as nat) matches Ok((items, more)) && items == list_view(out@)
                && list_view(subs@) == before + more,
            all_wf(list_view(subs@)),
        decreases a.len() - i,
    {
        proof {
            assert(decreases_to!(*a => a[i as int]));
            assert(SadV::List(av)->List_0 == av);
            assert(av[i as int].wf());
            assert(av[i as int] == a@[i as int]@);
        }
        let ghost prior = list_view(subs@);
        match compact_child_exec(&a[i], subs) {
            Err(e) => {
                proof {
                    lemma_items_failure_stays(av, (i + 1) as nat, a.len() as nat);
                }
                return Err(e);
            },
            Ok(v) => {
                let ghost items = compact_items(av, i as nat)->Ok_0.0;
                let ghost more = compact_child(av[i as int])->Ok_0.1;
                out.push(v);
                assert(list_view(out@) =~= items.push(v@));
                assert(prior + more =~= before + (compact_items(av, i as nat)->Ok_0.1 + more));
            },
        }
        i = i + 1;
    }
    assert(SadV::List(list_view(out@)).wf()) by {
        assert forall|j: int| 0 <= j < out@.len() implies (#[trigger] list_view(out@)[j]).wf() by {
            assert(out@[j]@.wf());
        }
    }
    Ok(out)
}

fn compact_child_exec(v: &Sad, subs: &mut Vec<Sad>) -> (r: Result<Sad, KeriError>)
    requires
        v@.wf(),
        all_wf(list_view(old(subs)@)),
    ensures
        match compact_child(v@) {
            Ok((c, more)) => r matches Ok(out) && out@ == c && c.wf() && list_view(final(subs)@)
                == list_view(old(subs)@) + more && all_wf(list_view(final(subs)@)),
            Err(e) => r == Err::<Sad, KeriError>(e),
        },
    decreases v,
{
    match v {
        Sad::Dict(m) => {
            proof {
                assert(decreases_to!(*v => v->Dict_0));
            }
            let ghost before = list_view(subs@);
            let entries = compact_dict_exec(m, subs)?;
            let ghost c = entries_view(entries@);
            let ghost mid = list_view(subs@);
            let label = "d".to_owned();
            match find_key(&entries, &label) {
                Some(i) => {
                    proof {
                        lemma_first_at_unique(c, "d"@, i as int, crate::data::pos(c, "d"@));
                        assert(c[i as int].1.wf());
                    }
                    let said = entries[i].1.clone();
                    subs.push(Sad::Dict(entries));
                    assert(list_view(subs@) =~= mid.push(SadV::Dict(c)));
                    assert(mid.push(SadV::Dict(c)) =~= before + (compact_dict(
                        entries_view(m@),
                    )->Ok_0.1.push(SadV::Dict(c))));
                    Ok(said)
                },
                None => Ok(Sad::Dict(entries)),
            }
        },
        Sad::List(a) => {
            proof {
                assert(decreases_to!(*v => v->List_0));
            }
            let items = compact_list_exec(a, subs)?;
            Ok(Sad::List(items))
        },
        other => {
            assert(list_view(subs@) =~= list_view(subs@) + Seq::<SadV>::empty());
            Ok(other.clone())
        },
    }
}

/// Putting a value under a key keeps the keys unique.
pub proof fn lemma_put_keeps_wf(m: EntriesV, key: Seq<char>, value: SadV)
    requires
        SadV::Dict(m).wf(),
        value.wf(),
    ensures
        SadV::Dict(put(m, key, value)).wf(),
{
    let out = put(m, key, value);
    if holds_key(m, key) {
        let p = crate::data::pos(m, key);
        assert forall|i: int, j: int| 0 <= i < j < out.len() implies (#[trigger] out[i]).0 != (
        #[trigger] out[j]).0 by {
            assert(out[i].0 == m[i].0);
            assert(out[j].0 == m[j].0);
        }
        assert forall|i: int| 0 <= i < out.len() implies (#[trigger] out[i]).1.wf() by {
            if i != p {
                assert(out[i] == m[i]);
            }
        }
    } else {
        assert forall|i: int, j: int| 0 <= i < j < out.len() implies (#[trigger] out[i]).0 != (
        #[trigger] out[j]).0 by {
            if j == m.len() {
                if m[i].0 == key {
                    crate::data::lemma_has_from_any(m, key, i);
                }
                assert(out[i] == m[i]);
            } else {
                assert(out[i] == m[i]);
                assert(out[j] == m[j]);
            }
        }
        assert forall|i: int| 0 <= i < out.len() implies (#[trigger] out[i]).1.wf() by {
            if i < m.len() {
                assert(out[i] == m[i]);
            }
        }
    }
}

/// A copy of `a`.
pub fn clone_list(a: &Vec<Sad>) -> (r: Vec<Sad>)
    ensures
        list_view(r@) == list_view(a@),
{
    let mut out: Vec<Sad> = Vec::new();
    let mut i: usize = 0;
    while i < a.len()
        invariant
            i <= a.len(),
            out@.len() == i,
            forall|j: int| 0 <= j < i ==> (#[trigger] out@[j])@ == a@[j]@,
        decreases a.len() - i,
    {
        out.push(a[i].clone());
        i = i + 1;
    }
    assert(list_view(out@) =~= list_view(a@));
    out
}

/// Compacts `sad` in place: every nested mapping that declares a digest `d` is
/// compacted itself, gets its digest taken anew over its content with `d`
/// blanked, is replaced in its parent by that digest and appended to `sads`,
/// deepest first; then `sad` gets its own digest taken anew, where it declares
/// one. Returns copies of the compacted value and of the whole of `sads`.
/// Where anything fails, `sad` and `sads` stay as they were.
pub fn compact_sad(sad: &mut Sad, sads: &mut Vec<Sad>) -> (r: Result<(Sad, Vec<Sad>), KeriError>)
    requires
        old(sad)@.wf(),
        all_wf(list_view(old(sads)@)),
    ensures
        match compact(old(sad)@) {
            Ok((c, subs)) => r matches Ok((out, all)) && final(sad)@ == c && out@ == c
                && list_view(final(sads)@) == list_view(old(sads)@) + subs && list_view(all@)
                == list_view(final(sads)@) && c.wf() && all_wf(list_view(final(sads)@)),
            Err(e) => r == Err::<(Sad, Vec<Sad>), KeriError>(e) && final(sad)@ == old(sad)@
                && list_view(final(sads)@) == list_view(old(sads)@),
        },
{
    let mut collected: Vec<Sad> = Vec::new();
    let ghost before = list_view(sads@);
    let compacted = match &*sad {
        Sad::Dict(m) => {
            let entries = compact_dict_exec(m, &mut collected)?;
            Sad::Dict(entries)
        },
        _ => {
            return Err(KeriError::Conversion);
        },
    };
    let ghost subs = list_view(collected@);
    assert(Seq::<SadV>::empty() + subs =~= subs);
    sads.append(&mut collected);
    assert(list_view(sads@) =~= before + subs);
    let copy = compacted.clone();
    *sad = compacted;
    let all = clone_list(sads);
    Ok((copy, all))
}

/// The digest that a mapping gets under `label`. The primitive reads the
/// code of a digest that stands there already; where the text there cannot
/// be cut, the mapping gets no digest.
pub open spec fn said_for(content: SadV, label: Seq<char>) -> Option<Seq<char>> {
    match content.get_text(label) {
        Some(held) => if cuttable(held) {
            said_under(content, label)
        } else {
            None
        },
        None => said_under(content, label),
    }
}

/// Takes the digest of a mapping under `label`.
fn digest_under(node: &Sad, label: &String) -> (r: Option<String>)
    requires
        node@.wf(),
    ensures
        match r {
            Some(said) => said_for(node@, label@) == Some(said@),
            None => said_for(node@, label@) is None,
        },
{
    match node.get_text(label.as_str()) {
        Some(held) => {
            if !is_cuttable(held.as_str()) {
                return None;
            }
        },
        None => {},
    }
    match said_of(&to_value(node), label.as_str()) {
        Ok(said) => Some(said),
        Err(_) => None,
    }
}

/// Whether the mapping with entries `m` gets a digest under `label`: it holds
/// a text there, and the text is empty or `overwrite` is set.
pub open spec fn wants_said(m: EntriesV, label: Seq<char>, overwrite: bool) -> bool {
    lookup(m, label) matches Some(SadV::Text(t)) && (overwrite || t.len() == 0)
}

/// `v` with the digest of every mapping that wants one filled in under
/// `label`, nested values first. An empty digest counts as a failure of the
/// primitive.
pub open spec fn saidified(v: SadV, label: Seq<char>, overwrite: bool) -> Result<SadV, KeriError>
    decreases v,
{
    match v {
        SadV::List(a) => match saidified_items(a, a.len(), label, overwrite) {
            Err(e) => Err(e),
            Ok(items) => Ok(SadV::List(items)),
        },
        SadV::Dict(m) => match saidified_entries(m, m.len(), label, overwrite) {
            Err(e) => Err(e),
            Ok(es) => if wants_said(es, label, overwrite) {
                match said_for(SadV::Dict(es), label) {
                    Some(said) => if said.len() > 0 {
                        Ok(SadV::Dict(put(es, label, SadV::Text(said))))
                    } else {
                        Err(KeriError::Primitive)
                    },
                    None => Err(KeriError::Primitive),
                }
            } else {
                Ok(SadV::Dict(es))
            },
        },
        _ => Ok(v),
    }
}

/// The first `n` items of `a`, each with its digests filled in.
pub open spec fn saidified_items(a: Seq<SadV>, n: nat, label: Seq<char>, overwrite: bool) -> Result<
    Seq<SadV>,
    KeriError,
>
    decreases a, n,
{
    if n == 0 || n > a.len() {
        Ok(Seq::empty())
    } else {
        match saidified_items(a, (n - 1) as nat, label, overwrite) {
            Err(e) => Err(e),
            Ok(items) => match saidified(a[n - 1], label, overwrite) {
                Err(e) => Err(e),
                Ok(v) => Ok(items.push(v)),
            },
        }
    }
}

/// The first `n` entries of `m`, each value with its digests filled in.
pub open spec fn saidified_entries(
    m: EntriesV,
    n: nat,
    label: Seq<char>,
    overwrite: bool,
) -> Result<EntriesV, KeriError>
    decreases m, n,
{
    if n == 0 || n > m.len() {
        Ok(Seq::empty())
    } else {
        match saidified_entries(m, (n - 1) as nat, label, overwrite) {
            Err(e) => Err(e),
            Ok(es) => match saidified(m[n - 1].1, label, overwrite) {
                Err(e) => Err(e),
                Ok(v) => Ok(es.push((m[n - 1].0, v))),
            },
        }
    }
}

/// A failure among the first `n` items is the failure of every longer prefix.
pub proof fn lemma_saidified_items_failure_stays(
    a: Seq<SadV>,
    n: nat,
    k: nat,
    label: Seq<char>,
    overwrite: bool,
)
    requires
        n <= k <= a.len(),
        saidified_items(a, n, label, overwrite) is Err,
    ensures
        saidified_items(a, k, label, overwrite) == saidified_items(a, n, label, overwrite),
    decreases k,
{
    if n < k {
        lemma_saidified_items_failure_stays(a, n, (k - 1) as nat, label, overwrite);
    }
}

/// A failure among the first `n` entries is the failure of every longer
/// prefix.
pub proof fn lemma_saidified_entries_failure_stays(
    m: EntriesV,
    n: nat,
    k: nat,
    label: Seq<char>,
    overwrite: bool,
)
    requires
        n <= k <= m.len(),
        saidified_entries(m, n, label, overwrite) is Err,
    ensures
        saidified_entries(m, k, label, overwrite) == saidified_entries(m, n, label, overwrite),
    decreases k,
{
    if n < k {
        lemma_saidified_entries_failure_stays(m, n, (k - 1) as nat, label, overwrite);
    }
}

/// The salts that anonymizing draws, in the shape of the value that they
/// were drawn for: for a sequence, the salts of its items; for a mapping,
/// the salts of its values and the salt of the mapping itself, where it got
/// one.
pub enum SaltsV {
    Leaf,
    Items(Seq<SaltsV>),
    Node(Seq<SaltsV>, Option<Seq<char>>),
}

/// `v` with the digest of every mapping that wants one filled in under
/// `label`, nested values first, and salted: a mapping that gets a digest,
/// and none of whose values was salted, first gets its salt under `u`.
/// Beside the value stands whether `v` itself was salted. Nothing comes back
/// where the salts do not fit the value or the primitive fails.
pub open spec fn salted(v: SadV, label: Seq<char>, overwrite: bool, salts: SaltsV) -> Option<
    (SadV, bool),
>
    decreases v, 0nat,
{
    match v {
        SadV::List(a) => match salts {
            SaltsV::Items(ts) => if ts.len() != a.len() {
                None
            } else {
                match salted_items(a, ts, a.len(), label, overwrite) {
                    None => None,
                    Some(items) => Some((SadV::List(items), false)),
                }
            },
            _ => None,
        },
        SadV::Dict(m) => match salts {
            SaltsV::Node(ts, own) => if ts.len() != m.len() {
                None
            } else {
                match salted_entries(m, ts, m.len(), label, overwrite) {
                    None => None,
                    Some((es, nested)) => if wants_said(es, label, overwrite) {
                        if !nested && own is None {
                            None
                        } else {
                            let with_salt = if nested {
                                es
                            } else {
                                put(es, "u"@, SadV::Text(own->Some_0))
                            };
                            match said_for(SadV::Dict(with_salt), label) {
                                Some(said) => if said.len() > 0 {
                                    Some(
                                        (
                                            SadV::Dict(put(with_salt, label, SadV::Text(said))),
                                            !nested,
                                        ),
                                    )
                                } else {
                                    None
                                },
                                None => None,
                            }
                        }
                    } else {
                        Some((SadV::Dict(es), false))
                    },
                }
            },
            _ => None,
        },
        _ => Some((v, false)),
    }
}

/// The first `n` items of `a`, salted with the first `n` of `ts`.
pub open spec fn salted_items(
    a: Seq<SadV>,
    ts: Seq<SaltsV>,
    n: nat,
    label: Seq<char>,
    overwrite: bool,
) -> Option<Seq<SadV>>
    decreases a, n,
{
    if n == 0 || n > a.len() || n > ts.len() {
        Some(Seq::empty())
    } else {
        match salted_items(a, ts, (n - 1) as nat, label, overwrite) {
            None => None,
            Some(items) => match salted(a[n - 1], label, overwrite, ts[n - 1]) {
                None => None,
                Some((v, _)) => Some(items.push(v)),
            },
        }
    }
}

/// The first `n` entries of `m`, salted with the first `n` of `ts`, and
/// whether one of their values was salted itself.
pub open spec fn salted_entries(
    m: EntriesV,
    ts: Seq<SaltsV>,
    n: nat,
    label: Seq<char>,
    overwrite: bool,
) -> Option<(EntriesV, bool)>
    decreases m, n,
{
    if n == 0 || n > m.len() || n > ts.len() {
        Some((Seq::empty(), false))
    } else {
        match salted_entries(m, ts, (n - 1) as nat, label, overwrite) {
            None => None,
            Some((es, nested)) => match salted(m[n - 1].1, label, overwrite, ts[n - 1]) {
                None => None,
                Some((v, flag)) => Some((es.push((m[n - 1].0, v)), nested || flag)),
            },
        }
    }
}

/// More salts at the end do not change what the first `n` items become.
pub proof fn lemma_salted_items_prefix(
    a: Seq<SadV>,
    ts: Seq<SaltsV>,
    t: SaltsV,
    n: nat,
    label: Seq<char>,
    overwrite: bool,
)
    requires
        n <= ts.len(),
    ensures
        salted_items(a, ts.push(t), n, label, overwrite) == salted_items(
            a,
            ts,
            n,
            label,
            overwrite,
        ),
    decreases n,
{
    if n > 0 && n <= a.len() {
        lemma_salted_items_prefix(a, ts, t, (n - 1) as nat, label, overwrite);
        assert(ts.push(t)[n - 1] == ts[n - 1]);
    }
}

/// More salts at the end do not change what the first `n` entries become.
pub proof fn lemma_salted_entries_prefix(
    m: EntriesV,
    ts: Seq<SaltsV>,
    t: SaltsV,
    n: nat,
    label: Seq<char>,
    overwrite: bool,
)
    requires
        n <= ts.len(),
    ensures
        salted_entries(m, ts.push(t), n, label, overwrite) == salted_entries(
            m,
            ts,
            n,
            label,
            overwrite,
        ),
    decreases n,
{
    if n > 0 && n <= m.len() {
        lemma_salted_entries_prefix(m, ts, t, (n - 1) as nat, label, overwrite);
        assert(ts.push(t)[n - 1] == ts[n - 1]);
    }
}

/// No mapping of `v` wants a digest under `label`: there is nothing to fill
/// in.
pub open spec fn wants_none(v: SadV, label: Seq<char>, overwrite: bool) -> bool
    decreases v,
{
    match v {
        SadV::List(a) => forall|i: int|
            0 <= i < a.len() ==> wants_none(#[trigger] a[i], label, overwrite),
        SadV::Dict(m) => !wants_said(m, label, overwrite) && forall|i: int|
            0 <= i < m.len() ==> wants_none((#[trigger] m[i]).1, label, overwrite),
        _ => true,
    }
}

fn saidify_node(sad: &Sad, label: &String, anonymize: bool, overwrite: bool) -> (r: Result<
    (Sad, bool, Ghost<SaltsV>),
    KeriError,
>)
    requires
        sad@.wf(),
    ensures
        r matches Ok((out, _, _)) ==> out@.wf(),
        r matches Ok((_, flag, _)) ==> flag ==> anonymize,
        r matches Err(e) ==> e == KeriError::Primitive,
        !anonymize ==> match saidified(sad@, label@, overwrite) {
            Ok(v) => r matches Ok((out, _, _)) && out@ == v,
            Err(e) => r == Err::<(Sad, bool, Ghost<SaltsV>), KeriError>(e),
        },
        anonymize ==> (r matches Ok((out, flag, salts)) ==> salted(
            sad@,
            label@,
            overwrite,
            salts@,
        ) == Some((out@, flag))),
        wants_none(sad@, label@, overwrite) ==> (r matches Ok((out, flag, _)) && out@ == sad@
            && !flag),
    decreases sad,
{
    match sad {
        Sad::List(a) => {
            let ghost av = list_view(a@);
            let ghost mut ts: Seq<SaltsV> = Seq::empty();
            let mut out: Vec<Sad> = Vec::new();
            let mut i: usize = 0;
            while i < a.len()
                invariant
                    i <= a.len(),
                    *sad == Sad::List(*a),
                    av == list_view(a@),
                    SadV::List(av).wf(),
                    out@.len() == i,
                    ts.len() == i,
                    forall|j: int| 0 <= j < i ==> (#[trigger] out@[j])@.wf(),
                    !anonymize ==> (saidified_items(av, i as nat, label@, overwrite) matches Ok(
                        items,
                    ) && items == list_view(out@)),
                    anonymize ==> (salted_items(av, ts, i as nat, label@, overwrite) matches Some(
                        items,
                    ) && items == list_view(out@)),
                    wants_none(sad@, label@, overwrite) ==> list_view(out@) =~= av.subrange(
                        0,
                        i as int,
                    ),
                decreases a.len() - i,
            {
                proof {
                    assert(decreases_to!(*sad => sad->List_0));
                    assert(decreases_to!(*a => a[i as int]));
                    assert(SadV::List(av)->List_0 == av);
                    assert(av[i as int].wf());
                    assert(av[i as int] == a@[i as int]@);
                }
                match saidify_node(&a[i], label, anonymize, overwrite) {
                    Err(e) => {
                        proof {
                            if !anonymize {
                                lemma_saidified_items_failure_stays(
                                    av,
                                    (i + 1) as nat,
                                    a.len() as nat,
                                    label@,
                                    overwrite,
                                );
                            }
                        }
                        return Err(e);
                    },
                    Ok((v, _, salts)) => {
                        let ghost items = list_view(out@);
                        proof {
                            lemma_salted_items_prefix(av, ts, salts@, i as nat, label@, overwrite);
                            ts = ts.push(salts@);
                        }
                        out.push(v);
                        assert(list_view(out@) =~= items.push(v@));
                    },
                }
                i = i + 1;
            }
            assert(wants_none(sad@, label@, overwrite) ==> list_view(out@) =~= av);
            assert(SadV::List(list_view(out@)).wf()) by {
                assert forall|j: int| 0 <= j < out@.len() implies (#[trigger] list_view(
                    out@,
                )[j]).wf() by {
                    assert(out@[j]@.wf());
                }
            }
            Ok((Sad::List(out), false, Ghost(SaltsV::Items(ts))))
        },
        Sad::Dict(m) => {
            let ghost ev = entries_view(m@);
            let ghost mut ts: Seq<SaltsV> = Seq::empty();
            let mut out: Vec<(String, Sad)> = Vec::new();
            let mut nested: bool = false;
            let mut i: usize = 0;
            while i < m.len()
                invariant
                    i <= m.len(),
                    *sad == Sad::Dict(*m),
                    ev == entries_view(m@),
                    SadV::Dict(ev).wf(),
                    out@.len() == i,
                    ts.len() == i,
                    forall|j: int| 0 <= j < i ==> (#[trigger] out@[j]).0@ == m@[j].0@,
                    forall|j: int| 0 <= j < i ==> (#[trigger] out@[j]).1@.wf(),
                    !anonymize ==> (saidified_entries(ev, i as nat, label@, overwrite) matches Ok(
                        es,
                    ) && es == entries_view(out@)),
                    anonymize ==> (salted_entries(
                        ev,
                        ts,
                        i as nat,
                        label@,
                        overwrite,
                    ) matches Some((es, flag)) && es == entries_view(out@) && flag == nested),
                    wants_none(sad@, label@, overwrite) ==> !nested && entries_view(out@)
                        =~= ev.subrange(0, i as int),
                decreases m.len() - i,
            {
                proof {
                    assert(decreases_to!(*sad => sad->Dict_0));
                    assert(decreases_to!(*m => m[i as int]));
                    assert(decreases_to!(m[i as int] => m[i as int].1));
                    assert(ev[i as int].1.wf());
                    assert(ev[i as int].1 == m@[i as int].1@);
                }
                match saidify_node(&m[i].1, label, anonymize, overwrite) {
                    Err(e) => {
                        proof {
                            if !anonymize {
                                lemma_saidified_entries_failure_stays(
                                    ev,
                                    (i + 1) as nat,
                                    m.len() as nat,
                                    label@,
                                    overwrite,
                                );
                            }
                        }
                        return Err(e);
                    },
                    Ok((v, flag, salts)) => {
                        let ghost es = entries_view(out@);
                        proof {
                            lemma_salted_entries_prefix(
                                ev,
                                ts,
                                salts@,
                                i as nat,
                                label@,
                                overwrite,
                            );
                            ts = ts.push(salts@);
                        }
                        nested = nested || flag;
                        out.push((m[i].0.clone(), v));
                        assert(entries_view(out@) =~= es.push((ev[i as int].0, v@)));
                    },
                }
                i = i + 1;
            }
            let ghost es = entries_view(out@);
            assert(wants_none(sad@, label@, overwrite) ==> es =~= ev);
            assert(unique_keys(es)) by {
                assert forall|a: int, b: int| 0 <= a < b < es.len() implies (#[trigger] es[a]).0
                    != (#[trigger] es[b]).0 by {
                    assert(es[a].0 == ev[a].0);
                    assert(es[b].0 == ev[b].0);
                }
            }
            assert(SadV::Dict(es).wf()) by {
                assert forall|j: int| 0 <= j < es.len() implies (#[trigger] es[j]).1.wf() by {
                    assert(out@[j].1@.wf());
                }
            }
            let wanted = match find_key(&out, label) {
                Some(k) => {
                    proof {
                        lemma_first_at_unique(es, label@, k as int, crate::data::pos(es, label@));
                    }
                    match &out[k].1 {
                        Sad::Text(t) => overwrite || t.as_str().is_empty(),
                        _ => false,
                    }
                },
                None => false,
            };
            assert(wanted == wants_said(es, label@, overwrite)) by {
                if holds_key(es, label@) {
                    let k = crate::data::pos(es, label@);
                    if let SadV::Text(t) = es[k].1 {
                        assert(out@[k].1@ == es[k].1);
                        if let Sad::Text(u) = out@[k].1 {
                            assert(u@ == t);
                        }
                    }
                }
            }
            if !wanted {
                return Ok((Sad::Dict(out), false, Ghost(SaltsV::Node(ts, None))));
            }
            let mut flagged = false;
            let ghost mut own: Option<Seq<char>> = None;
            if anonymize && !nested {
                let salt = match fresh_salt(None) {
                    Ok(s) => s,
                    Err(_) => {
                        return Err(KeriError::Primitive);
                    },
                };
                proof {
                    own = Some(salt@);
                    lemma_put_keeps_wf(es, "u"@, SadV::Text(salt@));
                }
                put_entry(&mut out, "u".to_owned(), Sad::Text(salt));
                flagged = true;
            }
            let ghost salted_es = entries_view(out@);
            let node = Sad::Dict(out);
            match digest_under(&node, label) {
                None => Err(KeriError::Primitive),
                Some(said) => match node {
                    Sad::Dict(mut entries) => {
                        if said.as_str().is_empty() {
                            return Err(KeriError::Primitive);
                        }
                        put_entry(&mut entries, label.clone(), Sad::Text(said));
                        proof {
                            lemma_put_keeps_wf(salted_es, label@, SadV::Text(said@));
                        }
                        Ok((Sad::Dict(entries), flagged, Ghost(SaltsV::Node(ts, own))))
                    },
                    _ => Err(KeriError::Programmer),
                },
            }
        },
        other => Ok((other.clone(), false, Ghost(SaltsV::Leaf))),
    }
}

/// Fills in the digest of every mapping of `sad` that wants one under `label`
/// (by default `d`), nested values first: a mapping wants one where it holds a
/// text under the label and that text is empty or `overwrite` is set. With
/// `anonymize`, a mapping that gets a digest and none of whose direct children
/// was salted first gets a fresh random salt under `u`. Returns a copy of the
/// result and whether `sad` itself was salted. Where anything fails, `sad`
/// stays as it was.
///
/// The salts are random, so for `anonymize` the contract speaks of some
/// salts: what comes back is what salting with them gives. Where no mapping
/// wants a digest, nothing is drawn and `sad` comes back as it is.
pub fn saidify_value(
    sad: &mut Sad,
    label: Option<&str>,
    anonymize: Option<bool>,
    overwrite: Option<bool>,
) -> (r: Result<(Sad, bool), KeriError>)
    requires
        old(sad)@.wf(),
    ensures
        r matches Ok((out, _)) ==> out@ == final(sad)@ && out@.wf(),
        r matches Ok((_, flag)) ==> flag ==> anonymize == Some(true),
        r matches Err(e) ==> e == KeriError::Primitive && final(sad)@ == old(sad)@,
        anonymize == Some(true) ==> (r matches Ok((out, flag)) ==> exists|salts: SaltsV|
            #[trigger] salted(
                old(sad)@,
                label_or_default(label),
                flag_or_default(overwrite),
                salts,
            ) == Some((out@, flag))),
        anonymize != Some(true) ==> match saidified(
            old(sad)@,
            label_or_default(label),
            overwrite == Some(true),
        ) {
            Ok(v) => r matches Ok((out, _)) && out@ == v,
            Err(e) => r == Err::<(Sad, bool), KeriError>(e),
        },
        wants_none(old(sad)@, label_or_default(label), flag_or_default(overwrite)) ==> (r matches Ok(
            (out, flag),
        ) && out@ == old(sad)@ && !flag),
{
    let salting = match anonymize {
        Some(b) => b,
        None => false,
    };
    let renewing = match overwrite {
        Some(b) => b,
        None => false,
    };
    let under = match label {
        Some(l) => l.to_owned(),
        None => "d".to_owned(),
    };
    let (out, flag, salts) = saidify_node(&*sad, &under, salting, renewing)?;
    let copy = out.clone();
    proof {
        if salting {
            assert(salted(
                sad@,
                label_or_default(label),
                flag_or_default(overwrite),
                salts@,
            ) == Some((copy@, flag)));
        }
    }
    *sad = out;
    Ok((copy, flag))
}

/// A flag that is off where none is given.
pub open spec fn flag_or_default(flag: Option<bool>) -> bool {
    flag == Some(true)
}

/// The label under which digests are kept where none is named: `d`.
pub open spec fn label_or_default(label: Option<&str>) -> Seq<char> {
    match label {
        Some(l) => l@,
        None => "d"@,
    }
}

/// The first `n` entries with their digests filled in keep their keys, and
/// each value is the old one with its digests filled in.
pub proof fn lemma_saidified_entries_at(
    m: EntriesV,
    n: nat,
    label: Seq<char>,
    overwrite: bool,
    i: int,
)
    requires
        n <= m.len(),
        saidified_entries(m, n, label, overwrite) is Ok,
        0 <= i < n,
    ensures
        saidified_entries(m, n, label, overwrite)->Ok_0.len() == n,
        saidified(m[i].1, label, overwrite) is Ok,
        saidified_entries(m, n, label, overwrite)->Ok_0[i] == (
            m[i].0,
            saidified(m[i].1, label, overwrite)->Ok_0,
        ),
    decreases n,
{
    let prev = saidified_entries(m, (n - 1) as nat, label, overwrite);
    assert(prev is Ok);
    if n > 1 {
        if i < n - 1 {
            lemma_saidified_entries_at(m, (n - 1) as nat, label, overwrite, i);
        } else {
            lemma_saidified_entries_at(m, (n - 1) as nat, label, overwrite, 0);
        }
    } else {
        assert(prev->Ok_0.len() == 0);
    }
    assert(saidified_entries(m, n, label, overwrite)->Ok_0 == prev->Ok_0.push(
        (m[n - 1].0, saidified(m[n - 1].1, label, overwrite)->Ok_0),
    ));
}

/// The first `n` items with their digests filled in: each is the old one with
/// its digests filled in.
pub proof fn lemma_saidified_items_at(
    a: Seq<SadV>,
    n: nat,
    label: Seq<char>,
    overwrite: bool,
    i: int,
)
    requires
        n <= a.len(),
        saidified_items(a, n, label, overwrite) is Ok,
        0 <= i < n,
    ensures
        saidified_items(a, n, label, overwrite)->Ok_0.len() == n,
        saidified(a[i], label, overwrite) is Ok,
        saidified_items(a, n, label, overwrite)->Ok_0[i] == saidified(a[i], label, overwrite)->Ok_0,
    decreases n,
{
    let prev = saidified_items(a, (n - 1) as nat, label, overwrite);
    assert(prev is Ok);
    if n > 1 {
        if i < n - 1 {
            lemma_saidified_items_at(a, (n - 1) as nat, label, overwrite, i);
        } else {
            lemma_saidified_items_at(a, (n - 1) as nat, label, overwrite, 0);
        }
    } else {
        assert(prev->Ok_0.len() == 0);
    }
    assert(saidified_items(a, n, label, overwrite)->Ok_0 == prev->Ok_0.push(
        saidified(a[n - 1], label, overwrite)->Ok_0,
    ));
}

/// Entries whose values all stay as they are under digesting stay as they
/// are.
pub proof fn lemma_saidified_entries_fixed(m: EntriesV, n: nat, label: Seq<char>)
    requires
        n <= m.len(),
        forall|i: int| 0 <= i < n ==> saidified((#[trigger] m[i]).1, label, false) == Ok::<
            SadV,
            KeriError,
        >(m[i].1),
    ensures
        saidified_entries(m, n, label, false) == Ok::<EntriesV, KeriError>(m.subrange(0, n as int)),
    decreases n,
{
    if n == 0 {
        assert(m.subrange(0, 0) =~= Seq::empty());
    } else {
        lemma_saidified_entries_fixed(m, (n - 1) as nat, label);
        assert(saidified(m[n - 1].1, label, false) == Ok::<SadV, KeriError>(m[n - 1].1));
        assert(m.subrange(0, n - 1).push((m[n - 1].0, m[n - 1].1)) =~= m.subrange(0, n as int));
    }
}

/// Items that all stay as they are under digesting stay as they are.
pub proof fn lemma_saidified_items_fixed(a: Seq<SadV>, n: nat, label: Seq<char>)
    requires
        n <= a.len(),
        forall|i: int| 0 <= i < n ==> saidified(#[trigger] a[i], label, false) == Ok::<
            SadV,
            KeriError,
        >(a[i]),
    ensures
        saidified_items(a, n, label, false) == Ok::<Seq<SadV>, KeriError>(a.subrange(0, n as int)),
    decreases n,
{
    if n == 0 {
        assert(a.subrange(0, 0) =~= Seq::empty());
    } else {
        lemma_saidified_items_fixed(a, (n - 1) as nat, label);
        assert(saidified(a[n - 1], label, false) == Ok::<SadV, KeriError>(a[n - 1]));
        assert(a.subrange(0, n - 1).push(a[n - 1]) =~= a.subrange(0, n as int));
    }
}

/// What a mapping holds under a key after that key was put.
pub proof fn lemma_lookup_put(m: EntriesV, key: Seq<char>, value: SadV)
    ensures
        lookup(put(m, key, value), key) == Some(value),
        put(m, key, value).len() >= m.len(),
        forall|i: int|
            0 <= i < m.len() ==> (#[trigger] put(m, key, value)[i]).0 == m[i].0 && (put(
                m,
                key,
                value,
            )[i] == m[i] || put(m, key, value)[i] == (key, value)),
{
    let out = put(m, key, value);
    if holds_key(m, key) {
        let p = crate::data::pos(m, key);
        assert(first_at(out, key, p)) by {
            assert forall|j: int| 0 <= j < p implies (#[trigger] out[j]).0 != key by {
                assert(out[j] == m[j]);
            }
        }
        lemma_first_at_unique(out, key, p, crate::data::pos(out, key));
    } else {
        let p = m.len() as int;
        assert(first_at(out, key, p)) by {
            assert forall|j: int| 0 <= j < p implies (#[trigger] out[j]).0 != key by {
                assert(out[j] == m[j]);
                if m[j].0 == key {
                    crate::data::lemma_has_from_any(m, key, j);
                }
            }
        }
        lemma_first_at_unique(out, key, p, crate::data::pos(out, key));
    }
}

/// Digesting the same content again gives the same result: the digests are a
/// function of the content, the label and the overwrite flag alone.
pub proof fn law_digest_repeatable(a: SadV, b: SadV, label: Seq<char>, overwrite: bool)
    requires
        a == b,
    ensures
        said_under(a, label) == said_under(b, label),
        saidified(a, label, overwrite) == saidified(b, label, overwrite),
        digest_of(a->Dict_0) == digest_of(b->Dict_0),
{
}

/// Digesting a structure that was digested already, without `overwrite`,
/// leaves it as it is.
pub proof fn law_redigest_is_noop(v: SadV, label: Seq<char>)
    requires
        saidified(v, label, false) is Ok,
    ensures
        saidified(saidified(v, label, false)->Ok_0, label, false) == saidified(v, label, false),
    decreases v,
{
    let w = saidified(v, label, false)->Ok_0;
    match v {
        SadV::List(a) => {
            let items = saidified_items(a, a.len(), label, false)->Ok_0;
            assert forall|i: int| 0 <= i < items.len() implies saidified(
                #[trigger] items[i],
                label,
                false,
            ) == Ok::<SadV, KeriError>(items[i]) by {
                if a.len() > 0 {
                    lemma_saidified_items_at(a, a.len(), label, false, 0);
                    lemma_saidified_items_at(a, a.len(), label, false, i);
                    law_redigest_is_noop(a[i], label);
                }
            }
            if a.len() > 0 {
                lemma_saidified_items_at(a, a.len(), label, false, 0);
            }
            lemma_saidified_items_fixed(items, items.len(), label);
            assert(items.subrange(0, items.len() as int) =~= items);
        },
        SadV::Dict(m) => {
            let es = saidified_entries(m, m.len(), label, false)->Ok_0;
            if m.len() > 0 {
                lemma_saidified_entries_at(m, m.len(), label, false, 0);
            }
            assert forall|i: int| 0 <= i < es.len() implies saidified(
                (#[trigger] es[i]).1,
                label,
                false,
            ) == Ok::<SadV, KeriError>(es[i].1) by {
                lemma_saidified_entries_at(m, m.len(), label, false, i);
                law_redigest_is_noop(m[i].1, label);
            }
            if wants_said(es, label, false) {
                let said = said_for(SadV::Dict(es), label)->Some_0;
                let es2 = put(es, label, SadV::Text(said));
                lemma_lookup_put(es, label, SadV::Text(said));
                assert(es2.len() == es.len());
                assert forall|i: int| 0 <= i < es2.len() implies saidified(
                    (#[trigger] es2[i]).1,
                    label,
                    false,
                ) == Ok::<SadV, KeriError>(es2[i].1) by {
                    assert(es2[i] == es[i] || es2[i] == (label, SadV::Text(said)));
                    assert(saidified(es[i].1, label, false) == Ok::<SadV, KeriError>(es[i].1));
                }
                lemma_saidified_entries_fixed(es2, es2.len(), label);
                assert(es2.subrange(0, es2.len() as int) =~= es2);
                assert(!wants_said(es2, label, false));
            } else {
                lemma_saidified_entries_fixed(es, es.len(), label);
                assert(es.subrange(0, es.len() as int) =~= es);
            }
        },
        _ => {},
    }
}

/// Putting a value under one key keeps every other key that is held.
pub proof fn lemma_put_keeps_key(m: EntriesV, key: Seq<char>, value: SadV, other: Seq<char>)
    requires
        holds_key(m, other),
    ensures
        holds_key(put(m, key, value), other),
{
    let out = put(m, key, value);
    let p = crate::data::pos(m, other);
    lemma_lookup_put(m, key, value);
    assert(out[p].0 == other);
    crate::data::lemma_has_from_any(out, other, p);
}

/// What digesting a JSON text comes to, without salting: the text is read,
/// every mapping that holds an empty text under `label` gets its digest
/// there, nested values first, and the result is written as JSON again.
pub open spec fn saidified_text(text: Seq<char>, label: Seq<char>) -> Result<Seq<char>, KeriError> {
    match crate::json::parsed(text) {
        Err(e) => Err(e),
        Ok(tree) => match saidified(tree, label, false) {
            Err(e) => Err(e),
            Ok(v) => crate::json::written(v),
        },
    }
}

/// What digesting a JSON text with salts comes to: the text is read, digests
/// are filled in and mappings salted, and the result is written as JSON
/// again.
pub open spec fn salted_text(text: Seq<char>, label: Seq<char>, salts: SaltsV) -> Option<
    Seq<char>,
> {
    match crate::json::parsed(text) {
        Err(_) => None,
        Ok(tree) => match salted(tree, label, false, salts) {
            None => None,
            Some((v, _)) => match crate::json::written(v) {
                Ok(t) => Some(t),
                Err(_) => None,
            },
        },
    }
}

/// Fills in the digests of a self-addressing datum given as JSON text, under
/// `label` (by default `d`), and returns it as JSON text. Digests that are
/// there already stay. With `anonymize`, mappings that get a digest are
/// salted first, as `saidify_value` does it; the contract then speaks of
/// some salts. A datum none of whose mappings wants a digest is written as
/// it was read.
pub fn saidify(sad: &str, label: Option<&str>, anonymize: Option<bool>) -> (r: Result<
    String,
    KeriError,
>)
    ensures
        anonymize != Some(true) ==> match saidified_text(sad@, label_or_default(label)) {
            Ok(t) => r matches Ok(s) && s@ == t,
            Err(e) => r == Err::<String, KeriError>(e),
        },
        anonymize == Some(true) ==> (r matches Ok(s) ==> exists|salts: SaltsV|
            #[trigger] salted_text(sad@, label_or_default(label), salts) == Some(s@)),
        crate::json::parsed(sad@) is Err ==> r == Err::<String, KeriError>(KeriError::Decoding),
        crate::json::parsed(sad@) matches Ok(tree) ==> (wants_none(
            tree,
            label_or_default(label),
            false,
        ) ==> (match crate::json::written(tree) {
            Ok(t) => r matches Ok(s) && s@ == t,
            Err(e) => r == Err::<String, KeriError>(e),
        })),
{
    let mut tree = Sad::from_json(sad)?;
    let ghost before = tree@;
    saidify_value(&mut tree, label, anonymize, Some(false))?;
    let out = tree.to_json();
    proof {
        if anonymize == Some(true) && out is Ok {
            let salts = choose|salts: SaltsV|
                #[trigger] salted(
                    before,
                    label_or_default(label),
                    flag_or_default(Some(false)),
                    salts,
                ) is Some && salted(
                    before,
                    label_or_default(label),
                    flag_or_default(Some(false)),
                    salts,
                )->Some_0.0 == tree@;
            assert(salted_text(sad@, label_or_default(label), salts) == Some(out->Ok_0@));
        }
    }
    out
}

/// Putting a value under one key leaves what is held under another key.
pub proof fn lemma_lookup_put_other(m: EntriesV, key: Seq<char>, value: SadV, other: Seq<char>)
    requires
        key != other,
    ensures
        lookup(put(m, key, value), other) == lookup(m, other),
{
    let out = put(m, key, value);
    lemma_lookup_put(m, key, value);
    if holds_key(m, other) {
        let p = crate::data::pos(m, other);
        assert(first_at(out, other, p)) by {
            assert(out[p].0 == m[p].0);
            assert forall|j: int| 0 <= j < p implies (#[trigger] out[j]).0 != other by {
                assert(out[j].0 == m[j].0);
            }
        }
        lemma_first_at_unique(out, other, p, crate::data::pos(out, other));
        assert(out[p] == m[p]);
    } else {
        if holds_key(out, other) {
            let j = crate::data::pos(out, other);
            if j < m.len() {
                assert(out[j].0 == m[j].0);
                crate::data::lemma_has_from_any(m, other, j);
            } else {
                assert(out[j] == (key, value));
            }
        }
    }
}

} // verus!
