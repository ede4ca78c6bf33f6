use vstd::prelude::*;

verus! {

/// The mathematical value of a piece of self-addressing data: a tree of
/// scalars, sequences and ordered mappings.
pub enum SadV {
    Null,
    Bool(bool),
    Int(int),
    Text(Seq<char>),
    List(Seq<SadV>),
    Dict(Seq<(Seq<char>, SadV)>),
}

/// The entries of a mapping, in insertion order.
pub type EntriesV = Seq<(Seq<char>, SadV)>;

/// `i` is the first position of `m` that holds `key`.
pub open spec fn first_at(m: EntriesV, key: Seq<char>, i: int) -> bool {
    &&& 0 <= i < m.len()
    &&& m[i].0 == key
    &&& forall|j: int| 0 <= j < i ==> (#[trigger] m[j]).0 != key
}

/// `m` holds an entry under `key`.
pub open spec fn holds_key(m: EntriesV, key: Seq<char>) -> bool {
    exists|i: int| first_at(m, key, i)
}

/// The first position of `key` in `m`, where `m` holds it.
pub open spec fn pos(m: EntriesV, key: Seq<char>) -> int {
    choose|i: int| first_at(m, key, i)
}

/// The value that `m` holds under `key`.
pub open spec fn lookup(m: EntriesV, key: Seq<char>) -> Option<SadV> {
    if holds_key(m, key) {
        Some(m[pos(m, key)].1)
    } else {
        None
    }
}

/// `m` with `value` under `key`: in place where `m` holds the key already,
/// else as a new last entry.
pub open spec fn put(m: EntriesV, key: Seq<char>, value: SadV) -> EntriesV {
    if holds_key(m, key) {
        m.update(pos(m, key), (key, value))
    } else {
        m.push((key, value))
    }
}

/// No key occurs twice in `m`.
pub open spec fn unique_keys(m: EntriesV) -> bool {
    forall|i: int, j: int| 0 <= i < j < m.len() ==> (#[trigger] m[i]).0 != (#[trigger] m[j]).0
}

impl SadV {
    /// Every mapping in the tree has unique keys.
    pub open spec fn wf(self) -> bool
        decreases self,
    {
        match self {
            SadV::List(a) => forall|i: int| 0 <= i < a.len() ==> (#[trigger] a[i]).wf(),
            SadV::Dict(m) => unique_keys(m) && forall|i: int|
                0 <= i < m.len() ==> (#[trigger] m[i]).1.wf(),
            _ => true,
        }
    }

    /// The value under `key`, where this is a mapping that holds it.
    pub open spec fn get(self, key: Seq<char>) -> Option<SadV> {
        match self {
            SadV::Dict(m) => lookup(m, key),
            _ => None,
        }
    }

    /// The text under `key`, where this is a mapping that holds a text there.
    pub open spec fn get_text(self, key: Seq<char>) -> Option<Seq<char>> {
        match self.get(key) {
            Some(SadV::Text(s)) => Some(s),
            _ => None,
        }
    }
}

/// Two first positions of one key coincide.
pub proof fn lemma_first_at_unique(m: EntriesV, key: Seq<char>, i: int, j: int)
    requires
        first_at(m, key, i),
        first_at(m, key, j),
    ensures
        i == j,
{
    if i < j {
        assert(m[i].0 != key);
    }
    if j < i {
        assert(m[j].0 != key);
    }
}

/// A key found anywhere in `m` has a first position.
pub proof fn lemma_has_from_any(m: EntriesV, key: Seq<char>, i: int)
    requires
        0 <= i < m.len(),
        m[i].0 == key,
    ensures
        holds_key(m, key),
        pos(m, key) <= i,
        first_at(m, key, pos(m, key)),
    decreases i,
{
    if forall|j: int| 0 <= j < i ==> (#[trigger] m[j]).0 != key {
        assert(first_at(m, key, i));
        lemma_first_at_unique(m, key, i, pos(m, key));
    } else {
        let j = choose|j: int| 0 <= j < i && (#[trigger] m[j]).0 == key;
        lemma_has_from_any(m, key, j);
    }
}

/// A piece of self-addressing data: a tree of scalars, sequences and ordered
/// mappings. Numbers are 64-bit integers.
#[derive(Debug)]
pub enum Sad {
    Null,
    Bool(bool),
    Int(i64),
    Text(String),
    List(Vec<Sad>),
    Dict(Vec<(String, Sad)>),
}

/// The values of a sequence of nodes.
pub open spec fn list_view(a: Seq<Sad>) -> Seq<SadV>
    decreases a,
{
    Seq::new(
        a.len(),
        |i: int|
            if 0 <= i < a.len() {
                a[i].view()
            } else {
                SadV::Null
            },
    )
}

/// The values of a sequence of entries.
pub open spec fn entries_view(m: Seq<(String, Sad)>) -> EntriesV
    decreases m,
{
    Seq::new(
        m.len(),
        |i: int|
            if 0 <= i < m.len() {
                (m[i].0@, m[i].1.view())
            } else {
                (Seq::empty(), SadV::Null)
            },
    )
}

impl View for Sad {
    type V = SadV;

    open spec fn view(&self) -> SadV
        decreases self,
    {
        match self {
            Sad::Null => SadV::Null,
            Sad::Bool(b) => SadV::Bool(*b),
            Sad::Int(i) => SadV::Int(*i as int),
            Sad::Text(s) => SadV::Text(s@),
            Sad::List(a) => SadV::List(list_view(a@)),
            Sad::Dict(m) => SadV::Dict(entries_view(m@)),
        }
    }
}

/// The position of the first entry of `m` under `key`.
pub fn find_key(m: &Vec<(String, Sad)>, key: &String) -> (r: Option<usize>)
    ensures
        match r {
            Some(i) => first_at(entries_view(m@), key@, i as int),
            None => !holds_key(entries_view(m@), key@),
        },
{
    let mut i: usize = 0;
    while i < m.len()
        invariant
            i <= m.len(),
            forall|j: int| 0 <= j < i ==> (#[trigger] entries_view(m@)[j]).0 != key@,
        decreases m.len() - i,
    {
        if m[i].0 == *key {
            return Some(i);
        }
        i = i + 1;
    }
    proof {
        if holds_key(entries_view(m@), key@) {
            let k = pos(entries_view(m@), key@);
            assert(entries_view(m@)[k].0 == key@);
        }
    }
    None
}

/// Puts `value` under `key`: in place where `m` holds the key already, else
/// as a new last entry.
pub fn put_entry(m: &mut Vec<(String, Sad)>, key: String, value: Sad)
    ensures
        entries_view(final(m)@) == put(entries_view(old(m)@), key@, value@),
{
    let ghost before = entries_view(m@);
    match find_key(m, &key) {
        Some(i) => {
            proof {
                lemma_first_at_unique(before, key@, i as int, pos(before, key@));
            }
            m.set(i, (key, value));
            assert(entries_view(m@) =~= before.update(i as int, (key@, value@)));
        },
        None => {
            m.push((key, value));
            assert(entries_view(m@) =~= before.push((key@, value@)));
        },
    }
}

impl Clone for Sad {
    fn clone(&self) -> (r: Self)
        ensures
            r@ == self@,
        decreases self,
    {
        match self {
            Sad::Null => Sad::Null,
            Sad::Bool(b) => Sad::Bool(*b),
            Sad::Int(i) => Sad::Int(*i),
            Sad::Text(s) => Sad::Text(s.clone()),
            Sad::List(a) => {
                let mut out: Vec<Sad> = Vec::new();
                let mut i: usize = 0;
                while i < a.len()
                    invariant
                        i <= a.len(),
                        *self == Sad::List(*a),
                        out@.len() == i,
                        forall|j: int| 0 <= j < i ==> (#[trigger] out@[j])@ == a@[j]@,
                    decreases a.len() - i,
                {
                    proof {
                        assert(decreases_to!(*self => self->List_0));
                        assert(decreases_to!(*a => a[i as int]));
                    }
                    out.push(a[i].clone());
                    i = i + 1;
                }
                assert(list_view(out@) =~= list_view(a@));
                Sad::List(out)
            },
            Sad::Dict(m) => {
                let mut out: Vec<(String, Sad)> = Vec::new();
                let mut i: usize = 0;
                while i < m.len()
                    invariant
                        i <= m.len(),
                        *self == Sad::Dict(*m),
                        out@.len() == i,
                        forall|j: int|
                            0 <= j < i ==> (#[trigger] out@[j]).0@ == m@[j].0@ && out@[j].1@
                                == m@[j].1@,
                    decreases m.len() - i,
                {
                    proof {
                        assert(decreases_to!(*self => self->Dict_0));
                        assert(decreases_to!(*m => m[i as int]));
                        assert(decreases_to!(m[i as int] => m[i as int].1));
                    }
                    out.push((m[i].0.clone(), m[i].1.clone()));
                    i = i + 1;
                }
                assert(entries_view(out@) =~= entries_view(m@));
                Sad::Dict(out)
            },
        }
    }
}

impl Sad {
    /// The node under `key`, where this is a mapping that holds it.
    pub fn get(&self, key: &str) -> (r: Option<&Sad>)
        ensures
            match r {
                Some(v) => self@.get(key@) == Some(v@),
                None => self@.get(key@) is None,
            },
    {
        match self {
            Sad::Dict(m) => {
                let owned = key.to_owned();
                match find_key(m, &owned) {
                    Some(i) => {
                        proof {
                            lemma_first_at_unique(
                                entries_view(m@),
                                key@,
                                i as int,
                                pos(entries_view(m@), key@),
                            );
                        }
                        Some(&m[i].1)
                    },
                    None => None,
                }
            },
            _ => None,
        }
    }

    /// The text under `key`, where this is a mapping that holds a text there.
    pub fn get_text(&self, key: &str) -> (r: Option<&String>)
        ensures
            match r {
                Some(s) => self@.get_text(key@) == Some(s@),
                None => self@.get_text(key@) is None,
            },
    {
        match self.get(key) {
            Some(Sad::Text(s)) => Some(s),
            _ => None,
        }
    }

    /// Whether this is a mapping that holds `key`.
    pub fn contains_key(&self, key: &str) -> (r: bool)
        ensures
            r == self@.get(key@).is_some(),
    {
        self.get(key).is_some()
    }
}

/// Whether no key occurs twice in `m`.
pub fn keys_are_unique(m: &Vec<(String, Sad)>) -> (r: bool)
    ensures
        r == unique_keys(entries_view(m@)),
{
    let ghost ev = entries_view(m@);
    let mut j: usize = 0;
    while j < m.len()
        invariant
            j <= m.len(),
            ev == entries_view(m@),
            forall|a: int, b: int| 0 <= a < b < j ==> (#[trigger] ev[a]).0 != (#[trigger] ev[b]).0,
        decreases m.len() - j,
    {
        let mut i: usize = 0;
        while i < j
            invariant
                i <= j < m.len(),
                ev == entries_view(m@),
                forall|a: int| 0 <= a < i ==> (#[trigger] ev[a]).0 != ev[j as int].0,
            decreases j - i,
        {
            if m[i].0 == m[j].0 {
                assert(ev[i as int].0 == ev[j as int].0);
                return false;
            }
            i = i + 1;
        }
        j = j + 1;
    }
    true
}

impl Sad {
    /// Whether the tree is well formed: no mapping in it holds a key twice.
    pub fn is_well_formed(&self) -> (r: bool)
        ensures
            r == self@.wf(),
        decreases self,
    {
        match self {
            Sad::List(a) => {
                let ghost av = list_view(a@);
                let mut i: usize = 0;
                while i < a.len()
                    invariant
                        i <= a.len(),
                        *self == Sad::List(*a),
                        av == list_view(a@),
                        forall|k: int| 0 <= k < i ==> (#[trigger] av[k]).wf(),
                    decreases a.len() - i,
                {
                    proof {
                        assert(decreases_to!(*self => self->List_0));
                        assert(decreases_to!(*a => a[i as int]));
                    }
                    assert(av[i as int] == a@[i as int]@);
                    if !a[i].is_well_formed() {
                        assert(SadV::List(av)->List_0 == av);
                        return false;
                    }
                    i = i + 1;
                }
                assert(SadV::List(av)->List_0 == av);
                true
            },
            Sad::Dict(m) => {
                let ghost ev = entries_view(m@);
                if !keys_are_unique(m) {
                    return false;
                }
                let mut i: usize = 0;
                while i < m.len()
                    invariant
                        i <= m.len(),
                        *self == Sad::Dict(*m),
                        ev == entries_view(m@),
                        unique_keys(ev),
                        forall|k: int| 0 <= k < i ==> (#[trigger] ev[k]).1.wf(),
                    decreases m.len() - i,
                {
                    proof {
                        assert(decreases_to!(*self => self->Dict_0));
                        assert(decreases_to!(*m => m[i as int]));
                        assert(decreases_to!(m[i as int] => m[i as int].1));
                    }
                    assert(ev[i as int].1 == m@[i as int].1@);
                    if !m[i].1.is_well_formed() {
                        return false;
                    }
                    i = i + 1;
                }
                true
            },
            _ => true,
        }
    }
}

} // verus!
