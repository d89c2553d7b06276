use vstd::prelude::*;

verus! {

/// The mathematical content of an event: the category label and the
/// payload mapping, both at the level of character sequences.
#[verifier::ext_equal]
pub struct EventView {
    pub kind: Seq<char>,
    pub payload: Map<Seq<char>, Seq<char>>,
}

/// The mapping denoted by a sequence of key-value entries; a later entry
/// for a key overrides an earlier one.
pub open spec fn map_of(entries: Seq<(String, String)>) -> Map<Seq<char>, Seq<char>>
    decreases entries.len(),
{
    if entries.len() == 0 {
        Map::empty()
    } else {
        map_of(entries.drop_last()).insert(entries.last().0@, entries.last().1@)
    }
}

/// No two entries share a key.
pub open spec fn keys_unique(entries: Seq<(String, String)>) -> bool {
    forall|i: int, j: int| 0 <= i < j < entries.len() ==> entries[i].0@ != entries[j].0@
}

/// A string-to-string mapping with unique keys, stored as a vector of
/// entries and viewed as a `Map` from key characters to value characters.
pub struct Payload {
    entries: Vec<(String, String)>,
}

proof fn lemma_map_of_contains(entries: Seq<(String, String)>, k: Seq<char>)
    ensures
        map_of(entries).contains_key(k) <==> (exists|i: int|
            0 <= i < entries.len() && #[trigger] entries[i].0@ == k),
    decreases entries.len(),
{
    if entries.len() > 0 {
        lemma_map_of_contains(entries.drop_last(), k);
        if entries.last().0@ == k {
            assert(entries[entries.len() - 1].0@ == k);
        } else if map_of(entries).contains_key(k) {
            let i = choose|i: int|
                0 <= i < entries.drop_last().len() && #[trigger] entries.drop_last()[i].0@ == k;
            assert(entries[i].0@ == k);
        } else {
            assert forall|i: int| 0 <= i < entries.len() implies #[trigger] entries[i].0@ != k by {
                if i < entries.len() - 1 {
                    assert(entries.drop_last()[i].0@ == entries[i].0@);
                }
            }
        }
    }
}

proof fn lemma_map_of_at(entries: Seq<(String, String)>, i: int)
    requires
        keys_unique(entries),
        0 <= i < entries.len(),
    ensures
        map_of(entries).contains_key(entries[i].0@),
        map_of(entries)[entries[i].0@] == entries[i].1@,
    decreases entries.len(),
{
    if i < entries.len() - 1 {
        assert(entries.drop_last()[i] == entries[i]);
        lemma_map_of_at(entries.drop_last(), i);
    }
}

proof fn lemma_map_of_update(entries: Seq<(String, String)>, i: int, kv: (String, String))
    requires
        keys_unique(entries),
        0 <= i < entries.len(),
        entries[i].0@ == kv.0@,
    ensures
        map_of(entries.update(i, kv)) =~= map_of(entries).insert(kv.0@, kv.1@),
    decreases entries.len(),
{
    let last = entries.len() - 1;
    if i == last {
        assert(entries.update(i, kv).drop_last() =~= entries.drop_last());
    } else {
        assert(entries.update(i, kv).drop_last() =~= entries.drop_last().update(i, kv));
        lemma_map_of_update(entries.drop_last(), i, kv);
        assert(entries[i].0@ != entries[last].0@);
    }
}

proof fn lemma_map_of_len(entries: Seq<(String, String)>)
    requires
        keys_unique(entries),
    ensures
        map_of(entries).dom().finite(),
        map_of(entries).dom().len() == entries.len(),
    decreases entries.len(),
{
    if entries.len() == 0 {
        assert(map_of(entries).dom() =~= Set::<Seq<char>>::empty());
    } else {
        lemma_map_of_len(entries.drop_last());
        lemma_map_of_contains(entries.drop_last(), entries.last().0@);
        assert forall|i: int|
            0 <= i < entries.drop_last().len() implies #[trigger] entries.drop_last()[i].0@
            != entries.last().0@ by {
            assert(entries[i].0@ == entries.drop_last()[i].0@);
        }
        assert(map_of(entries).dom() =~= map_of(entries.drop_last()).dom().insert(
            entries.last().0@,
        ));
    }
}

impl View for Payload {
    type V = Map<Seq<char>, Seq<char>>;

    closed spec fn view(&self) -> Map<Seq<char>, Seq<char>> {
        map_of(self.entries@)
    }
}

impl Payload {
    #[verifier::type_invariant]
    spec fn inv(&self) -> bool {
        keys_unique(self.entries@)
    }

    /// The empty mapping.
    pub fn new() -> (r: Self)
        ensures
            r@ == Map::<Seq<char>, Seq<char>>::empty(),
    {
        Payload { entries: Vec::new() }
    }

    /// Binds `key` to `value`, replacing any earlier binding of `key`.
    pub fn insert(&mut self, key: String, value: String)
        ensures
            final(self)@ == old(self)@.insert(key@, value@),
    {
        proof {
            use_type_invariant(&*self);
        }
        let mut es: Vec<(String, String)> = Vec::new();
        core::mem::swap(&mut es, &mut self.entries);
        let ghost orig = es@;
        let n = es.len();
        let mut i: usize = 0;
        let mut found = false;
        let mut idx: usize = 0;
        while i < n && !found
            invariant
                n == es.len(),
                es@ == orig,
                i <= n,
                found ==> idx < i && es@[idx as int].0@ == key@,
                !found ==> forall|j: int| 0 <= j < i ==> es@[j].0@ != key@,
            decreases n - i,
        {
            if es[i].0 == key {
                found = true;
                idx = i;
            }
            i += 1;
        }
        if found {
            proof {
                lemma_map_of_update(orig, idx as int, (key, value));
            }
            es.set(idx, (key, value));
            proof {
                assert forall|p: int, q: int|
                    0 <= p < q < es@.len() implies es@[p].0@ != es@[q].0@ by {
                    assert(orig[p].0@ != orig[q].0@);
                }
            }
        } else {
            proof {
                assert(orig.push((key, value)).drop_last() =~= orig);
            }
            es.push((key, value));
            proof {
                assert forall|p: int, q: int|
                    0 <= p < q < es@.len() implies es@[p].0@ != es@[q].0@ by {
                    if q < es@.len() - 1 {
                        assert(orig[p].0@ != orig[q].0@);
                    }
                }
            }
        }
        self.entries = es;
    }

    /// The value bound to `key`, or `None` where `key` is unbound.
    pub fn get(&self, key: &str) -> (r: Option<&String>)
        ensures
            match r {
                Some(v) => self@.contains_key(key@) && v@ == self@[key@],
                None => !self@.contains_key(key@),
            },
    {
        proof {
            use_type_invariant(self);
        }
        let k = String::from_str(key);
        let n = self.entries.len();
        let mut i: usize = 0;
        while i < n
            invariant
                n == self.entries@.len(),
                i <= n,
                k@ == key@,
                keys_unique(self.entries@),
                forall|j: int| 0 <= j < i ==> self.entries@[j].0@ != key@,
            decreases n - i,
        {
            if self.entries[i].0 == k {
                proof {
                    lemma_map_of_at(self.entries@, i as int);
                }
                return Some(&self.entries[i].1);
            }
            i += 1;
        }
        proof {
            lemma_map_of_contains(self.entries@, key@);
        }
        None
    }

    /// Whether `key` is bound.
    pub fn contains_key(&self, key: &str) -> (r: bool)
        ensures
            r == self@.contains_key(key@),
    {
        self.get(key).is_some()
    }

    /// The number of keys bound.
    pub fn len(&self) -> (r: usize)
        ensures
            r == self@.dom().len(),
    {
        proof {
            use_type_invariant(self);
            lemma_map_of_len(self.entries@);
        }
        self.entries.len()
    }
}

/// One record flowing through the pipeline: a category label and a
/// string-to-string payload.
pub struct TelemetryEvent {
    pub kind: String,
    pub payload: Payload,
}

impl View for TelemetryEvent {
    type V = EventView;

    open spec fn view(&self) -> EventView {
        EventView { kind: self.kind@, payload: self.payload@ }
    }
}

} // verus!
