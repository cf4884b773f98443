//! The tagged attribute value of the wire protocol, and the attributes mapping
//! that holds one record.
use vstd::prelude::*;

verus! {

broadcast use vstd::std_specs::vec::group_vec_axioms;

/// A tagged wire value. A well-formed value has exactly one payload slot set;
/// values read from the outside may have none or several, and decoding is
/// defined for those too.
#[derive(Debug, PartialEq)]
pub struct AttributeValue {
    pub s: Option<String>,
    pub n: Option<String>,
    pub b: Option<Vec<u8>>,
    pub bool: Option<bool>,
    pub null: Option<bool>,
    pub m: Option<Attributes>,
    pub l: Option<Vec<AttributeValue>>,
    pub ss: Option<Vec<String>>,
    pub ns: Option<Vec<String>>,
    pub bs: Option<Vec<Vec<u8>>>,
}

/// A string-keyed mapping from field name to tagged value, one record. Its keys
/// stay unique under `insert`; entries keep the order in which keys first came.
#[derive(Debug, PartialEq)]
pub struct Attributes {
    entries: Vec<(String, AttributeValue)>,
}

/// The mathematical model of an [`AttributeValue`].
pub ghost struct Av {
    pub s: Option<Seq<char>>,
    pub n: Option<Seq<char>>,
    pub b: Option<Seq<u8>>,
    pub bool: Option<bool>,
    pub null: Option<bool>,
    pub m: Option<Seq<(Seq<char>, Av)>>,
    pub l: Option<Seq<Av>>,
    pub ss: Option<Seq<Seq<char>>>,
    pub ns: Option<Seq<Seq<char>>>,
    pub bs: Option<Seq<Seq<u8>>>,
}

impl Av {
    /// The value with no payload slot set.
    pub open spec fn empty() -> Av {
        Av {
            s: None,
            n: None,
            b: None,
            bool: None,
            null: None,
            m: None,
            l: None,
            ss: None,
            ns: None,
            bs: None,
        }
    }

    pub open spec fn of_s(x: Seq<char>) -> Av {
        Av { s: Some(x), ..Av::empty() }
    }

    pub open spec fn of_n(x: Seq<char>) -> Av {
        Av { n: Some(x), ..Av::empty() }
    }

    pub open spec fn of_b(x: Seq<u8>) -> Av {
        Av { b: Some(x), ..Av::empty() }
    }

    pub open spec fn of_bool(x: bool) -> Av {
        Av { bool: Some(x), ..Av::empty() }
    }

    /// The `null` payload, set to true: how an absent value is written.
    pub open spec fn null_value() -> Av {
        Av { null: Some(true), ..Av::empty() }
    }

    pub open spec fn of_m(x: Seq<(Seq<char>, Av)>) -> Av {
        Av { m: Some(x), ..Av::empty() }
    }

    pub open spec fn of_l(x: Seq<Av>) -> Av {
        Av { l: Some(x), ..Av::empty() }
    }

    /// Whether any payload slot is set.
    pub open spec fn has_payload(self) -> bool {
        ||| self.s is Some
        ||| self.n is Some
        ||| self.b is Some
        ||| self.bool is Some
        ||| self.null is Some
        ||| self.m is Some
        ||| self.l is Some
        ||| self.ss is Some
        ||| self.ns is Some
        ||| self.bs is Some
    }
}

pub open spec fn strings_model(v: Vec<String>) -> Seq<Seq<char>> {
    v@.map_values(|x: String| x@)
}

pub open spec fn buffers_model(v: Vec<Vec<u8>>) -> Seq<Seq<u8>> {
    v@.map_values(|x: Vec<u8>| x@)
}

/// The index of the first entry under key `k`, if any.
pub open spec fn find_key<V>(es: Seq<(Seq<char>, V)>, k: Seq<char>) -> Option<int> {
    if exists|i: int| 0 <= i < es.len() && es[i].0 == k {
        Some(choose|i: int| 0 <= i < es.len() && es[i].0 == k && forall|j: int| 0 <= j < i ==> es[j].0 != k)
    } else {
        None
    }
}

/// The entries after writing `v` under `k`: an entry with that key gets the new
/// value in place, else the pair goes at the end.
pub open spec fn entries_insert<V>(es: Seq<(Seq<char>, V)>, k: Seq<char>, v: V) -> Seq<(Seq<char>, V)> {
    match find_key(es, k) {
        Some(i) => es.update(i, (k, v)),
        None => es.push((k, v)),
    }
}

/// The first index under a key is well defined: the least one that holds it.
pub proof fn lemma_find_key<V>(es: Seq<(Seq<char>, V)>, k: Seq<char>)
    ensures
        match find_key(es, k) {
            Some(i) => 0 <= i < es.len() && es[i].0 == k && forall|j: int| 0 <= j < i ==> es[j].0 != k,
            None => forall|j: int| 0 <= j < es.len() ==> es[j].0 != k,
        },
    decreases es.len(),
{
    if exists|i: int| 0 <= i < es.len() && es[i].0 == k {
        let p = es.drop_last();
        if exists|i: int| 0 <= i < p.len() && p[i].0 == k {
            lemma_find_key(p, k);
            let i = find_key(p, k)->0;
            assert(es[i].0 == k && forall|j: int| 0 <= j < i ==> es[j].0 != k) by {
                assert forall|j: int| 0 <= j < i implies es[j].0 != k by {
                    assert(es[j] == p[j]);
                }
                assert(es[i] == p[i]);
            }
        } else {
            let i = es.len() - 1;
            assert(es[i].0 == k) by {
                let w = choose|w: int| 0 <= w < es.len() && es[w].0 == k;
                if w < i {
                    assert(p[w] == es[w]);
                }
            }
            assert forall|j: int| 0 <= j < i implies es[j].0 != k by {
                assert(p[j] == es[j]);
            }
        }
    }
}

pub open spec fn keys_unique<V>(es: Seq<(Seq<char>, V)>) -> bool {
    forall|i: int, j: int| 0 <= i < j < es.len() ==> es[i].0 != es[j].0
}

/// Taking an entry out keeps the keys unique.
pub proof fn lemma_remove_keeps_unique<V>(es: Seq<(Seq<char>, V)>, k: int)
    requires
        0 <= k < es.len(),
    ensures
        keys_unique(es) ==> keys_unique(es.remove(k)),
{
    let r = es.remove(k);
    if keys_unique(es) {
        assert forall|i: int, j: int| 0 <= i < j < r.len() implies r[i].0 != r[j].0 by {
            let a = if i < k { i } else { i + 1 };
            let b = if j < k { j } else { j + 1 };
            assert(r[i] == es[a]);
            assert(r[j] == es[b]);
        }
    }
}

pub open spec fn list_model(x: Vec<AttributeValue>) -> Seq<Av>
    decreases x,
{
    Seq::new(x@.len(), |i: int| if 0 <= i < x@.len() { x@[i].model() } else { Av::empty() })
}

/// Taking the first element off a vector takes the first model off its list.
pub proof fn lemma_list_model_drop_first(before: Vec<AttributeValue>, after: Vec<AttributeValue>)
    requires
        before@.len() > 0,
        after@ == before@.drop_first(),
    ensures
        list_model(after) == list_model(before).drop_first(),
        list_model(before)[0] == before@[0].model(),
{
    assert(list_model(after) =~= list_model(before).drop_first());
}

impl AttributeValue {
    pub open spec fn model(&self) -> Av
        decreases self,
    {
        Av {
            s: match self.s { Some(x) => Some(x@), None => None },
            n: match self.n { Some(x) => Some(x@), None => None },
            b: match self.b { Some(x) => Some(x@), None => None },
            bool: self.bool,
            null: self.null,
            m: match self.m { Some(x) => Some(x.model()), None => None },
            l: match self.l { Some(x) => Some(list_model(x)), None => None },
            ss: match self.ss { Some(x) => Some(strings_model(x)), None => None },
            ns: match self.ns { Some(x) => Some(strings_model(x)), None => None },
            bs: match self.bs { Some(x) => Some(buffers_model(x)), None => None },
        }
    }

    /// A value with no payload slot set, to be filled in.
    pub fn empty() -> (r: AttributeValue)
        ensures
            r.model() == Av::empty(),
    {
        AttributeValue {
            s: None,
            n: None,
            b: None,
            bool: None,
            null: None,
            m: None,
            l: None,
            ss: None,
            ns: None,
            bs: None,
        }
    }
}

impl AttributeValue {
    /// The `string` payload.
    pub fn from_s(x: String) -> (r: AttributeValue)
        ensures
            r.model() == Av::of_s(x@),
    {
        AttributeValue { s: Some(x), ..AttributeValue::empty() }
    }

    /// The `number` payload, as decimal text.
    pub fn from_n(x: String) -> (r: AttributeValue)
        ensures
            r.model() == Av::of_n(x@),
    {
        AttributeValue { n: Some(x), ..AttributeValue::empty() }
    }

    /// The `binary` payload.
    pub fn from_b(x: Vec<u8>) -> (r: AttributeValue)
        ensures
            r.model() == Av::of_b(x@),
    {
        AttributeValue { b: Some(x), ..AttributeValue::empty() }
    }

    /// The `boolean` payload.
    pub fn from_bool(x: bool) -> (r: AttributeValue)
        ensures
            r.model() == Av::of_bool(x),
    {
        AttributeValue { bool: Some(x), ..AttributeValue::empty() }
    }

    /// The `null` payload, set.
    pub fn null_value() -> (r: AttributeValue)
        ensures
            r.model() == Av::null_value(),
    {
        AttributeValue { null: Some(true), ..AttributeValue::empty() }
    }

    /// The `map` payload.
    pub fn from_m(x: Attributes) -> (r: AttributeValue)
        ensures
            r.model() == Av::of_m(x.model()),
    {
        AttributeValue { m: Some(x), ..AttributeValue::empty() }
    }

    /// The `list` payload.
    pub fn from_l(x: Vec<AttributeValue>) -> (r: AttributeValue)
        ensures
            r.model() == Av::of_l(list_model(x)),
    {
        AttributeValue { l: Some(x), ..AttributeValue::empty() }
    }
}

impl Attributes {
    pub closed spec fn model(&self) -> Seq<(Seq<char>, Av)>
        decreases self,
    {
        Seq::new(
            self.entries@.len(),
            |i: int|
                if 0 <= i < self.entries@.len() {
                    (self.entries@[i].0@, self.entries@[i].1.model())
                } else {
                    (Seq::empty(), Av::empty())
                },
        )
    }

    /// Well-formed: no two entries share a key.
    pub open spec fn wf(&self) -> bool {
        keys_unique(self.model())
    }

    /// An empty mapping.
    pub fn new() -> (r: Attributes)
        ensures
            r.model() == Seq::<(Seq<char>, Av)>::empty(),
            r.wf(),
    {
        let r = Attributes { entries: Vec::new() };
        assert(r.model() =~= Seq::<(Seq<char>, Av)>::empty());
        r
    }

    pub fn len(&self) -> (r: usize)
        ensures
            r == self.model().len(),
    {
        self.entries.len()
    }

    /// The position of the first entry under `key`.
    fn position(&self, key: &str) -> (r: Option<usize>)
        ensures
            match r {
                Some(i) => i < self.model().len() && find_key(self.model(), key@) == Some(i as int),
                None => find_key(self.model(), key@) is None,
            },
    {
        let k = key.to_owned();
        let mut i: usize = 0;
        assert(self.model().len() == self.entries@.len());
        while i < self.entries.len()
            invariant
                i <= self.entries@.len(),
                k@ == key@,
                self.model().len() == self.entries@.len(),
                forall|j: int| 0 <= j < i ==> self.model()[j].0 != key@,
            decreases self.entries@.len() - i,
        {
            if self.entries[i].0 == k {
                assert(self.model()[i as int] == (self.entries@[i as int].0@, self.entries@[i as int].1.model()));
                return Some(i);
            }
            assert(self.model()[i as int] == (self.entries@[i as int].0@, self.entries@[i as int].1.model()));
            i = i + 1;
        }
        None
    }

    /// Writes `value` under `key`, in place of an entry with that key if there is one.
    pub fn insert(&mut self, key: String, value: AttributeValue)
        ensures
            final(self).model() == entries_insert(old(self).model(), key@, value.model()),
            old(self).wf() ==> final(self).wf(),
    {
        let ghost k = key@;
        let ghost v = value.model();
        let ghost before = self.model();
        match self.position(key.as_str()) {
            Some(i) => {
                self.entries.set(i, (key, value));
                assert(self.model() =~= before.update(i as int, (k, v)));
            },
            None => {
                self.entries.push((key, value));
                assert(self.model() =~= before.push((k, v)));
            },
        }
    }

    /// Takes out the first entry under `key` and returns its value.
    pub fn remove(&mut self, key: &str) -> (r: Option<AttributeValue>)
        ensures
            match find_key(old(self).model(), key@) {
                Some(i) => (r matches Some(v) && v.model() == old(self).model()[i].1
                    && final(self).model() == old(self).model().remove(i)),
                None => r is None && final(self).model() == old(self).model(),
            },
    {
        let ghost before = self.model();
        match self.position(key) {
            Some(i) => {
                let (_, v) = self.entries.remove(i);
                assert(self.model() =~= before.remove(i as int));
                Some(v)
            },
            None => None,
        }
    }

    /// The entries, in order.
    pub fn into_entries(self) -> (r: Vec<(String, AttributeValue)>)
        ensures
            r@.len() == self.model().len(),
            forall|i: int| 0 <= i < r@.len() ==> ((#[trigger] r@[i]).0@, r@[i].1.model()) == self.model()[i],
    {
        self.entries
    }

    /// Takes out the first entry and returns it.
    pub fn pop_first(&mut self) -> (r: Option<(String, AttributeValue)>)
        ensures
            old(self).model().len() == 0 ==> r is None && final(self).model() == old(self).model(),
            old(self).model().len() > 0 ==> (r matches Some(e) && (e.0@, e.1.model())
                == old(self).model()[0] && final(self).model() == old(self).model().drop_first()),
            old(self).wf() ==> final(self).wf(),
    {
        let ghost before = self.model();
        if self.entries.len() == 0 {
            None
        } else {
            let e = self.entries.remove(0);
            assert(self.model() =~= before.drop_first());
            proof {
                lemma_remove_keeps_unique(before, 0);
                assert(before.remove(0) =~= before.drop_first());
            }
            Some(e)
        }
    }
}

} // verus!
