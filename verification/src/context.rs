//! The mutable variable store threaded through evaluation, and the injected
//! snapshot of the operating-system environment that variable references
//! fall back to.

use vstd::prelude::*;

use crate::text;

verus! {

/// First-match lookup over a sequence of name/value pairs.
pub open spec fn lookup(entries: Seq<(Seq<char>, Seq<char>)>, name: Seq<char>) -> Option<
    Seq<char>,
>
    decreases entries.len(),
{
    if entries.len() == 0 {
        None
    } else if entries[0].0 == name {
        Some(entries[0].1)
    } else {
        lookup(entries.drop_first(), name)
    }
}

/// Index of the first pair holding `name`.
pub open spec fn key_index(entries: Seq<(Seq<char>, Seq<char>)>, name: Seq<char>) -> Option<int>
    decreases entries.len(),
{
    if entries.len() == 0 {
        None
    } else if entries[0].0 == name {
        Some(0int)
    } else {
        match key_index(entries.drop_first(), name) {
            Some(i) => Some(i + 1),
            None => None,
        }
    }
}

proof fn lemma_key_index(entries: Seq<(Seq<char>, Seq<char>)>, name: Seq<char>)
    ensures
        match key_index(entries, name) {
            Some(i) => 0 <= i < entries.len() && entries[i].0 == name && lookup(entries, name)
                == Some(entries[i].1) && (forall|j: int| 0 <= j < i ==> entries[j].0 != name),
            None => lookup(entries, name) is None && (forall|j: int|
                0 <= j < entries.len() ==> entries[j].0 != name),
        },
    decreases entries.len(),
{
    if entries.len() > 0 && entries[0].0 != name {
        let rest = entries.drop_first();
        lemma_key_index(rest, name);
        assert(forall|j: int| 0 <= j < rest.len() ==> rest[j] == entries[j + 1]);
        match key_index(rest, name) {
            Some(i) => {
                assert(key_index(entries, name) == Some(i + 1));
                assert(forall|j: int| 1 <= j < i + 1 ==> entries[j].0 == rest[j - 1].0);
            },
            None => {
                assert(forall|j: int| 1 <= j < entries.len() ==> entries[j].0 == rest[j - 1].0);
            },
        }
    }
}

/// If `i` is the first index holding `name`, `key_index` finds it.
proof fn lemma_key_index_is(entries: Seq<(Seq<char>, Seq<char>)>, name: Seq<char>, i: int)
    requires
        0 <= i < entries.len(),
        entries[i].0 == name,
        forall|j: int| 0 <= j < i ==> entries[j].0 != name,
    ensures
        key_index(entries, name) == Some(i),
    decreases i,
{
    if i > 0 {
        let rest = entries.drop_first();
        assert(forall|j: int| 0 <= j < rest.len() ==> rest[j] == entries[j + 1]);
        lemma_key_index_is(rest, name, i - 1);
    }
}

/// If no index holds `name`, `key_index` finds none.
proof fn lemma_key_index_none(entries: Seq<(Seq<char>, Seq<char>)>, name: Seq<char>)
    requires
        forall|j: int| 0 <= j < entries.len() ==> entries[j].0 != name,
    ensures
        key_index(entries, name) is None,
    decreases entries.len(),
{
    if entries.len() > 0 {
        let rest = entries.drop_first();
        assert(forall|j: int| 0 <= j < rest.len() ==> rest[j] == entries[j + 1]);
        lemma_key_index_none(rest, name);
    }
}

/// What binding a name does to the store's entries: the first pair holding
/// the name is replaced, or a pair is appended if the name is new.
pub open spec fn ctx_insert(
    entries: Seq<(Seq<char>, Seq<char>)>,
    name: Seq<char>,
    value: Seq<char>,
) -> Seq<(Seq<char>, Seq<char>)> {
    match key_index(entries, name) {
        Some(i) => entries.update(i, (name, value)),
        None => entries.push((name, value)),
    }
}

/// The mutable string-keyed variable store: a single flat mapping, shared by
/// all nested scopes, where later writes overwrite earlier ones.
pub struct Context {
    pairs: Vec<(Vec<char>, Vec<char>)>,
}

impl Context {
    /// The store as an ordered sequence of name/value pairs; the order is
    /// insertion order and fixes the `$ctx` dump text.
    pub closed spec fn entries(&self) -> Seq<(Seq<char>, Seq<char>)> {
        self.pairs@.map_values(|p: (Vec<char>, Vec<char>)| (p.0@, p.1@))
    }

    /// The store as a mapping from name to value.
    pub open spec fn spec_get(&self, name: Seq<char>) -> Option<Seq<char>> {
        lookup(self.entries(), name)
    }

    pub fn new() -> (r: Context)
        ensures
            r.entries() == Seq::<(Seq<char>, Seq<char>)>::empty(),
    {
        let r = Context { pairs: Vec::new() };
        proof {
            assert(r.entries() =~= Seq::<(Seq<char>, Seq<char>)>::empty());
        }
        r
    }

    pub fn get(&self, name: &Vec<char>) -> (r: Option<Vec<char>>)
        ensures
            match r {
                Some(v) => self.spec_get(name@) == Some(v@),
                None => self.spec_get(name@) is None,
            },
    {
        proof {
            lemma_key_index(self.entries(), name@);
        }
        let mut i: usize = 0;
        while i < self.pairs.len()
            invariant
                i <= self.pairs@.len(),
                forall|j: int| 0 <= j < i ==> self.entries()[j].0 != name@,
            decreases self.pairs@.len() - i,
        {
            if text::chars_eq(&self.pairs[i].0, name) {
                let v = text::sub_vec(&self.pairs[i].1, 0, self.pairs[i].1.len());
                proof {
                    let ghost e = self.entries();
                    lemma_lookup_at(e, name@, i as int);
                    assert(v@ =~= e[i as int].1);
                }
                return Some(v);
            }
            i += 1;
        }
        None
    }

    /// Binds `name` to `value`: the first pair holding the name is replaced,
    /// or a pair is appended if the name is new.
    pub fn insert(&mut self, name: Vec<char>, value: Vec<char>)
        ensures
            final(self).entries() == ctx_insert(old(self).entries(), name@, value@),
            final(self).spec_get(name@) == Some(value@),
    {
        proof {
            lemma_key_index(self.entries(), name@);
        }
        let mut i: usize = 0;
        while i < self.pairs.len()
            invariant
                i <= self.pairs@.len(),
                forall|j: int| 0 <= j < i ==> self.entries()[j].0 != name@,
                *self == *old(self),
            decreases self.pairs@.len() - i,
        {
            if text::chars_eq(&self.pairs[i].0, &name) {
                let ghost before = self.entries();
                proof {
                    lemma_key_index_is(before, name@, i as int);
                }
                self.pairs.set(i, (name, value));
                proof {
                    assert(self.entries() =~= before.update(i as int, (name@, value@)));
                    lemma_lookup_update(before, name@, i as int, value@);
                }
                return ;
            }
            i += 1;
        }
        let ghost before = self.entries();
        proof {
            lemma_key_index_none(before, name@);
        }
        self.pairs.push((name, value));
        proof {
            assert(self.entries() =~= before.push((name@, value@)));
            lemma_lookup_push(before, name@, value@);
        }
    }

    /// The number of bound names.
    pub fn len(&self) -> (n: usize)
        ensures
            n == self.entries().len(),
    {
        self.pairs.len()
    }

    /// The deterministic textual dump of the store that `$ctx` expands to.
    pub fn dump(&self) -> (r: Vec<char>)
        ensures
            r@ == dump_context(self.entries()),
    {
        let mut r: Vec<char> = Vec::new();
        r.push('{');
        let mut i: usize = 0;
        while i < self.pairs.len()
            invariant
                i <= self.pairs@.len(),
                r@ == seq!['{'] + dump_pairs_upto(self.entries(), i as int),
            decreases self.pairs@.len() - i,
        {
            if i > 0 {
                r.push(',');
                r.push(' ');
            }
            r.push('"');
            text::push_all(&mut r, &self.pairs[i].0);
            r.push('"');
            r.push(':');
            r.push(' ');
            r.push('"');
            text::push_all(&mut r, &self.pairs[i].1);
            r.push('"');
            i += 1;
            proof {
                assert(r@ =~= seq!['{'] + dump_pairs_upto(self.entries(), i as int));
            }
        }
        r.push('}');
        proof {
            assert(r@ =~= dump_context(self.entries()));
        }
        r
    }
}

/// The dump text of the first `i` pairs, `"name": "value"` joined by `", "`.
pub open spec fn dump_pairs_upto(entries: Seq<(Seq<char>, Seq<char>)>, i: int) -> Seq<char>
    decreases i,
{
    if i <= 0 {
        Seq::empty()
    } else {
        let head = dump_pairs_upto(entries, i - 1);
        let sep: Seq<char> = if i == 1 {
            Seq::empty()
        } else {
            seq![',', ' ']
        };
        head + sep + seq!['"'] + entries[i - 1].0 + seq!['"', ':', ' ', '"'] + entries[i - 1].1
            + seq!['"']
    }
}

/// The whole dump: the pairs in insertion order inside braces.
pub open spec fn dump_context(entries: Seq<(Seq<char>, Seq<char>)>) -> Seq<char> {
    seq!['{'] + dump_pairs_upto(entries, entries.len() as int) + seq!['}']
}

proof fn lemma_lookup_at(entries: Seq<(Seq<char>, Seq<char>)>, name: Seq<char>, i: int)
    requires
        0 <= i < entries.len(),
        entries[i].0 == name,
        forall|j: int| 0 <= j < i ==> entries[j].0 != name,
    ensures
        lookup(entries, name) == Some(entries[i].1),
    decreases i,
{
    if i > 0 {
        lemma_lookup_at(entries.drop_first(), name, i - 1);
    }
}

proof fn lemma_lookup_update(
    entries: Seq<(Seq<char>, Seq<char>)>,
    name: Seq<char>,
    i: int,
    value: Seq<char>,
)
    requires
        0 <= i < entries.len(),
        entries[i].0 == name,
        forall|j: int| 0 <= j < i ==> entries[j].0 != name,
    ensures
        lookup(entries.update(i, (name, value)), name) == Some(value),
    decreases i,
{
    let u = entries.update(i, (name, value));
    if i > 0 {
        lemma_lookup_update(entries.drop_first(), name, i - 1, value);
        assert(u.drop_first() =~= entries.drop_first().update(i - 1, (name, value)));
    } else {
        assert(u[0] == (name, value));
    }
}

proof fn lemma_lookup_push(entries: Seq<(Seq<char>, Seq<char>)>, name: Seq<char>, value: Seq<char>)
    requires
        forall|j: int| 0 <= j < entries.len() ==> entries[j].0 != name,
    ensures
        lookup(entries.push((name, value)), name) == Some(value),
    decreases entries.len(),
{
    let u = entries.push((name, value));
    if entries.len() > 0 {
        lemma_lookup_push(entries.drop_first(), name, value);
        assert(u.drop_first() =~= entries.drop_first().push((name, value)));
    } else {
        assert(u[0] == (name, value));
    }
}

/// After binding a name, looking that name up yields the bound value.
pub proof fn lemma_ctx_insert_same(
    entries: Seq<(Seq<char>, Seq<char>)>,
    name: Seq<char>,
    value: Seq<char>,
)
    ensures
        lookup(ctx_insert(entries, name, value), name) == Some(value),
{
    lemma_key_index(entries, name);
    match key_index(entries, name) {
        Some(i) => {
            lemma_lookup_update(entries, name, i, value);
        },
        None => {
            lemma_lookup_push(entries, name, value);
        },
    }
}

proof fn lemma_lookup_update_other(
    entries: Seq<(Seq<char>, Seq<char>)>,
    i: int,
    pair: (Seq<char>, Seq<char>),
    other: Seq<char>,
)
    requires
        0 <= i < entries.len(),
        entries[i].0 == pair.0,
        pair.0 != other,
    ensures
        lookup(entries.update(i, pair), other) == lookup(entries, other),
    decreases entries.len(),
{
    let u = entries.update(i, pair);
    if entries.len() > 0 {
        if i == 0 {
            assert(u[0] == pair);
            assert(u.drop_first() =~= entries.drop_first());
        } else {
            assert(u[0] == entries[0]);
            if entries[0].0 != other {
                assert(u.drop_first() =~= entries.drop_first().update(i - 1, pair));
                lemma_lookup_update_other(entries.drop_first(), i - 1, pair, other);
            }
        }
    }
}

proof fn lemma_lookup_push_other(
    entries: Seq<(Seq<char>, Seq<char>)>,
    pair: (Seq<char>, Seq<char>),
    other: Seq<char>,
)
    requires
        pair.0 != other,
    ensures
        lookup(entries.push(pair), other) == lookup(entries, other),
    decreases entries.len(),
{
    let u = entries.push(pair);
    if entries.len() == 0 {
        assert(u[0] == pair);
        assert(u.drop_first() =~= Seq::<(Seq<char>, Seq<char>)>::empty());
    } else {
        assert(u[0] == entries[0]);
        if entries[0].0 != other {
            assert(u.drop_first() =~= entries.drop_first().push(pair));
            lemma_lookup_push_other(entries.drop_first(), pair, other);
        }
    }
}

/// Binding a name leaves every other name's value unchanged.
pub proof fn lemma_ctx_insert_other(
    entries: Seq<(Seq<char>, Seq<char>)>,
    name: Seq<char>,
    value: Seq<char>,
    other: Seq<char>,
)
    requires
        other != name,
    ensures
        lookup(ctx_insert(entries, name, value), other) == lookup(entries, other),
{
    lemma_key_index(entries, name);
    match key_index(entries, name) {
        Some(i) => {
            lemma_lookup_update_other(entries, i, (name, value), other);
        },
        None => {
            lemma_lookup_push_other(entries, (name, value), other);
        },
    }
}

/// An immutable snapshot of the operating-system environment, handed in by
/// the caller so that evaluation itself never touches ambient state.
pub struct Environment {
    pairs: Vec<(Vec<char>, Vec<char>)>,
}

impl Environment {
    pub closed spec fn entries(&self) -> Seq<(Seq<char>, Seq<char>)> {
        self.pairs@.map_values(|p: (Vec<char>, Vec<char>)| (p.0@, p.1@))
    }

    pub open spec fn spec_get(&self, name: Seq<char>) -> Option<Seq<char>> {
        lookup(self.entries(), name)
    }

    pub fn new() -> (r: Environment)
        ensures
            r.entries() == Seq::<(Seq<char>, Seq<char>)>::empty(),
    {
        let r = Environment { pairs: Vec::new() };
        proof {
            assert(r.entries() =~= Seq::<(Seq<char>, Seq<char>)>::empty());
        }
        r
    }

    /// Builds the snapshot from plain name/value strings, first match winning
    /// on lookup as `std::env::vars` iteration does.
    pub fn from_pairs(pairs: Vec<(String, String)>) -> (r: Environment)
        ensures
            r.entries().len() == pairs@.len(),
            forall|i: int|
                0 <= i < pairs@.len() ==> r.entries()[i] == (pairs@[i].0@, pairs@[i].1@),
    {
        let mut out: Vec<(Vec<char>, Vec<char>)> = Vec::new();
        let mut i: usize = 0;
        while i < pairs.len()
            invariant
                i <= pairs@.len(),
                out@.len() == i,
                forall|j: int|
                    0 <= j < i ==> (out@[j].0@, out@[j].1@) == (pairs@[j].0@, pairs@[j].1@),
            decreases pairs@.len() - i,
        {
            let name = text::str_to_chars(pairs[i].0.as_str());
            let value = text::str_to_chars(pairs[i].1.as_str());
            out.push((name, value));
            i += 1;
        }
        Environment { pairs: out }
    }

    pub fn get(&self, name: &Vec<char>) -> (r: Option<Vec<char>>)
        ensures
            match r {
                Some(v) => self.spec_get(name@) == Some(v@),
                None => self.spec_get(name@) is None,
            },
    {
        proof {
            lemma_key_index(self.entries(), name@);
        }
        let mut i: usize = 0;
        while i < self.pairs.len()
            invariant
                i <= self.pairs@.len(),
                forall|j: int| 0 <= j < i ==> self.entries()[j].0 != name@,
            decreases self.pairs@.len() - i,
        {
            if text::chars_eq(&self.pairs[i].0, name) {
                let v = text::sub_vec(&self.pairs[i].1, 0, self.pairs[i].1.len());
                proof {
                    let ghost e = self.entries();
                    lemma_lookup_at(e, name@, i as int);
                    assert(v@ =~= e[i as int].1);
                }
                return Some(v);
            }
            i += 1;
        }
        None
    }
}

/// Reads one variable from the injected environment snapshot.
pub fn get_environment_variable(environment: &Environment, name: &Vec<char>) -> (r: Option<
    Vec<char>,
>)
    ensures
        match r {
            Some(v) => environment.spec_get(name@) == Some(v@),
            None => environment.spec_get(name@) is None,
        },
{
    environment.get(name)
}

} // verus!
