//! A header map: names compared without regard to case, one value per name,
//! a later insertion of a name replacing the earlier value.

use vstd::prelude::*;
use crate::order::{key_lt, lemma_key_lt_asymmetric, lemma_key_lt_irreflexive, lemma_key_lt_total,
    lemma_key_lt_transitive, text_lt};
use crate::text::{lower_of, lowercase, same_text};

verus! {

/// A header as the contracts see it: its name and its value.
pub type HeaderView = (Seq<char>, Seq<char>);

/// Names strictly increase along `s`; in particular no name repeats.
pub open spec fn strictly_sorted(s: Seq<HeaderView>) -> bool {
    forall|i: int, j: int| 0 <= i < j < s.len() ==> key_lt(#[trigger] s[i].0, #[trigger] s[j].0)
}

/// The map that a list of headers makes, a later header of a name winning.
pub open spec fn entries_map(s: Seq<HeaderView>) -> Map<Seq<char>, Seq<char>>
    decreases s.len(),
{
    if s.len() == 0 {
        Map::empty()
    } else {
        entries_map(s.drop_last()).insert(s.last().0, s.last().1)
    }
}

/// The headers of the map `m` listed in increasing name order.
pub open spec fn sorted_entries(m: Map<Seq<char>, Seq<char>>) -> Seq<HeaderView> {
    choose|s: Seq<HeaderView>| strictly_sorted(s) && entries_map(s) == m
}

/// The character sequences of stored name and value pairs.
pub open spec fn pair_views(v: Seq<(String, String)>) -> Seq<HeaderView> {
    v.map_values(|p: (String, String)| (p.0@, p.1@))
}

proof fn lemma_entries_map_domain(s: Seq<HeaderView>, k: Seq<char>)
    ensures
        entries_map(s).contains_key(k) <==> exists|i: int| 0 <= i < s.len() && (#[trigger] s[i]).0 == k,
    decreases s.len(),
{
    if s.len() > 0 {
        lemma_entries_map_domain(s.drop_last(), k);
        if entries_map(s).contains_key(k) && k != s.last().0 {
            let i = choose|i: int| 0 <= i < s.len() - 1 && (#[trigger] s.drop_last()[i]).0 == k;
            assert(s[i].0 == k);
        }
        if exists|i: int| 0 <= i < s.len() && (#[trigger] s[i]).0 == k {
            let i = choose|i: int| 0 <= i < s.len() && (#[trigger] s[i]).0 == k;
            if i < s.len() - 1 {
                assert(s.drop_last()[i].0 == k);
            }
        }
    }
}

proof fn lemma_entries_map_value(s: Seq<HeaderView>, i: int)
    requires
        strictly_sorted(s),
        0 <= i < s.len(),
    ensures
        entries_map(s).contains_key(s[i].0),
        entries_map(s)[s[i].0] == s[i].1,
    decreases s.len(),
{
    if i < s.len() - 1 {
        assert(key_lt(s[i].0, s[s.len() - 1].0));
        lemma_key_lt_irreflexive(s[i].0);
        assert(s.drop_last()[i] == s[i]);
        lemma_entries_map_value(s.drop_last(), i);
    }
}

proof fn lemma_last_is_new(s: Seq<HeaderView>)
    requires
        strictly_sorted(s),
        s.len() > 0,
    ensures
        !entries_map(s.drop_last()).contains_key(s.last().0),
{
    lemma_entries_map_domain(s.drop_last(), s.last().0);
    if entries_map(s.drop_last()).contains_key(s.last().0) {
        let i = choose|i: int| 0 <= i < s.len() - 1 && (#[trigger] s.drop_last()[i]).0 == s.last().0;
        assert(key_lt(s[i].0, s[s.len() - 1].0));
        lemma_key_lt_irreflexive(s.last().0);
    }
}

/// A map has one strictly sorted list of headers: two such lists that make
/// the same map are the same list.
pub proof fn lemma_sorted_entries_unique(s: Seq<HeaderView>, t: Seq<HeaderView>)
    requires
        strictly_sorted(s),
        strictly_sorted(t),
        entries_map(s) == entries_map(t),
    ensures
        s == t,
    decreases s.len(),
{
    if s.len() == 0 || t.len() == 0 {
        if s.len() > 0 {
            lemma_entries_map_value(s, s.len() - 1);
        }
        if t.len() > 0 {
            lemma_entries_map_value(t, t.len() - 1);
        }
        assert(s =~= t);
    } else {
        let a = s.last().0;
        let b = t.last().0;
        lemma_entries_map_value(s, s.len() - 1);
        lemma_entries_map_value(t, t.len() - 1);
        lemma_entries_map_domain(t, a);
        lemma_entries_map_domain(s, b);
        if a != b {
            let j = choose|j: int| 0 <= j < t.len() && (#[trigger] t[j]).0 == a;
            let i = choose|i: int| 0 <= i < s.len() && (#[trigger] s[i]).0 == b;
            assert(j < t.len() - 1);
            assert(i < s.len() - 1);
            assert(key_lt(t[j].0, t[t.len() - 1].0));
            assert(key_lt(s[i].0, s[s.len() - 1].0));
            lemma_key_lt_asymmetric(a, b);
        }
        lemma_last_is_new(s);
        lemma_last_is_new(t);
        assert(entries_map(s.drop_last()) =~= entries_map(s).remove(a));
        assert(entries_map(t.drop_last()) =~= entries_map(t).remove(b));
        lemma_sorted_entries_unique(s.drop_last(), t.drop_last());
        assert(s =~= s.drop_last().push(s.last()));
        assert(t =~= t.drop_last().push(t.last()));
    }
}

/// A strictly sorted list of headers is the listing of the map it makes.
pub proof fn lemma_sorted_entries_of(s: Seq<HeaderView>)
    requires
        strictly_sorted(s),
    ensures
        sorted_entries(entries_map(s)) == s,
{
    let m = entries_map(s);
    assert(strictly_sorted(s) && entries_map(s) == m);
    let t = sorted_entries(m);
    lemma_sorted_entries_unique(s, t);
}

proof fn lemma_map_after_set(s: Seq<HeaderView>, i: int, v: Seq<char>)
    requires
        strictly_sorted(s),
        0 <= i < s.len(),
    ensures
        entries_map(s.update(i, (s[i].0, v))) == entries_map(s).insert(s[i].0, v),
    decreases s.len(),
{
    let t = s.update(i, (s[i].0, v));
    if i == s.len() - 1 {
        assert(t.drop_last() =~= s.drop_last());
        assert(entries_map(t) =~= entries_map(s).insert(s[i].0, v));
    } else {
        assert(t.drop_last() =~= s.drop_last().update(i, (s[i].0, v)));
        assert(s.drop_last()[i] == s[i]);
        lemma_map_after_set(s.drop_last(), i, v);
        assert(key_lt(s[i].0, s[s.len() - 1].0));
        lemma_key_lt_irreflexive(s[i].0);
        assert(entries_map(t) =~= entries_map(s).insert(s[i].0, v));
    }
}

proof fn lemma_map_after_insert(s: Seq<HeaderView>, i: int, k: Seq<char>, v: Seq<char>)
    requires
        strictly_sorted(s.insert(i, (k, v))),
        0 <= i <= s.len(),
    ensures
        entries_map(s.insert(i, (k, v))) == entries_map(s).insert(k, v),
    decreases s.len(),
{
    let t = s.insert(i, (k, v));
    if i == s.len() {
        assert(t.drop_last() =~= s);
    } else {
        assert(t.drop_last() =~= s.drop_last().insert(i, (k, v)));
        assert(t.last() == s.last());
        assert(strictly_sorted(t.drop_last())) by {
            assert forall|a: int, b: int| 0 <= a < b < t.drop_last().len() implies
                key_lt(#[trigger] t.drop_last()[a].0, #[trigger] t.drop_last()[b].0) by {
                assert(t.drop_last()[a] == t[a] && t.drop_last()[b] == t[b]);
            }
        }
        lemma_map_after_insert(s.drop_last(), i, k, v);
        assert(t[i] == (k, v));
        assert(key_lt(t[i].0, t[t.len() - 1].0));
        lemma_key_lt_irreflexive(k);
        assert(entries_map(t) =~= entries_map(s).insert(k, v));
    }
}

/// The headers of a request or a response. Names are stored lower-cased,
/// as `str::to_lowercase` makes them, so that lookups ignore case; each name
/// has one value.
#[derive(Debug)]
pub struct HttpHeaders {
    entries: Vec<(String, String)>,
}

impl View for HttpHeaders {
    type V = Map<Seq<char>, Seq<char>>;

    closed spec fn view(&self) -> Map<Seq<char>, Seq<char>> {
        entries_map(pair_views(self.entries@))
    }
}

impl HttpHeaders {
    /// The entries are kept in increasing name order, which makes the names
    /// distinct and the order of serialisation independent of history.
    #[verifier::type_invariant]
    spec fn wf(self) -> bool {
        strictly_sorted(pair_views(self.entries@))
    }

    /// An empty header map.
    pub fn new() -> (h: Self)
        ensures
            h@ == Map::<Seq<char>, Seq<char>>::empty(),
    {
        let h = HttpHeaders { entries: Vec::new() };
        assert(pair_views(h.entries@) =~= Seq::<HeaderView>::empty());
        h
    }

    /// Sets the header `key` (in any case) to `value`, replacing an earlier value.
    pub fn insert(&mut self, key: &str, value: &str)
        ensures
            final(self)@ == old(self)@.insert(lower_of(key@), value@),
    {
        let name = lowercase(key);
        self.insert_lowered(name.as_str(), value);
    }

    /// Sets the header stored under the name `name`, taken as it is, to
    /// `value`.
    pub fn insert_lowered(&mut self, name: &str, value: &str)
        ensures
            final(self)@ == old(self)@.insert(name@, value@),
    {
        proof {
            use_type_invariant(&*self);
        }
        let k = name.to_owned();
        let v = value.to_owned();
        let mut entries: Vec<(String, String)> = Vec::new();
        std::mem::swap(&mut entries, &mut self.entries);
        let ghost e = pair_views(entries@);
        let mut i: usize = 0;
        while i < entries.len()
            invariant
                e == pair_views(entries@),
                i <= entries@.len(),
                forall|j: int| 0 <= j < i ==> key_lt(#[trigger] e[j].0, k@),
            ensures
                e == pair_views(entries@),
                i <= entries@.len(),
                forall|j: int| 0 <= j < i ==> key_lt(#[trigger] e[j].0, k@),
                i < entries@.len() ==> !key_lt(e[i as int].0, k@),
            decreases entries@.len() - i,
        {
            if !text_lt(entries[i].0.as_str(), k.as_str()) {
                break;
            }
            i = i + 1;
        }
        if i < entries.len() && same_text(entries[i].0.as_str(), k.as_str()) {
            proof {
                lemma_map_after_set(e, i as int, v@);
            }
            entries[i] = (k, v);
            assert(pair_views(entries@) =~= e.update(i as int, (e[i as int].0, v@)));
        } else {
            proof {
                let t = e.insert(i as int, (k@, v@));
                assert forall|a: int, b: int| 0 <= a < b < t.len() implies
                    key_lt(#[trigger] t[a].0, #[trigger] t[b].0) by {
                    if b < i {
                        assert(t[a] == e[a] && t[b] == e[b]);
                    } else if b == i {
                        assert(t[a] == e[a]);
                    } else {
                        assert(t[b] == e[b - 1]);
                        assert(i < e.len());
                        lemma_key_lt_total(e[i as int].0, k@);
                        if a == i {
                            if b - 1 > i {
                                lemma_key_lt_transitive(k@, e[i as int].0, e[b - 1].0);
                            }
                        } else if a < i {
                            assert(t[a] == e[a]);
                            lemma_key_lt_total(e[i as int].0, k@);
                            if b - 1 > i {
                                lemma_key_lt_transitive(k@, e[i as int].0, e[b - 1].0);
                            }
                            lemma_key_lt_transitive(e[a].0, k@, e[b - 1].0);
                        } else {
                            assert(t[a] == e[a - 1]);
                        }
                    }
                }
                lemma_map_after_insert(e, i as int, k@, v@);
            }
            entries.insert(i, (k, v));
            assert(pair_views(entries@) =~= e.insert(i as int, (k@, v@)));
        }
        self.entries = entries;
    }

    /// Where the entry named `k` stands, if there is one.
    fn position(&self, k: &str) -> (r: Option<usize>)
        ensures
            match r {
                Some(i) => i < self.entries@.len() && self.entries@[i as int].0@ == k@
                    && self@.contains_key(k@) && self@[k@] == self.entries@[i as int].1@,
                None => !self@.contains_key(k@),
            },
    {
        proof {
            use_type_invariant(self);
        }
        let ghost e = pair_views(self.entries@);
        let mut i: usize = 0;
        while i < self.entries.len()
            invariant
                e == pair_views(self.entries@),
                strictly_sorted(e),
                i <= self.entries@.len(),
                forall|j: int| 0 <= j < i ==> (#[trigger] e[j]).0 != k@,
            decreases self.entries@.len() - i,
        {
            if same_text(self.entries[i].0.as_str(), k) {
                proof {
                    lemma_entries_map_value(e, i as int);
                }
                return Some(i);
            }
            i = i + 1;
        }
        proof {
            lemma_entries_map_domain(e, k@);
        }
        None
    }

    /// The value of the header `key`, in any case.
    pub fn get(&self, key: &str) -> (r: Option<&str>)
        ensures
            match r {
                Some(v) => self@.contains_key(lower_of(key@)) && v@ == self@[lower_of(key@)],
                None => !self@.contains_key(lower_of(key@)),
            },
    {
        let name = lowercase(key);
        self.get_lowered(name.as_str())
    }

    /// The value stored under the name `name`, taken as it is.
    pub fn get_lowered(&self, name: &str) -> (r: Option<&str>)
        ensures
            match r {
                Some(v) => self@.contains_key(name@) && v@ == self@[name@],
                None => !self@.contains_key(name@),
            },
    {
        match self.position(name) {
            Some(i) => Some(self.entries[i].1.as_str()),
            None => None,
        }
    }

    /// Whether the header `key`, in any case, is present.
    pub fn contains(&self, key: &str) -> (r: bool)
        ensures
            r == self@.contains_key(lower_of(key@)),
    {
        let k = lowercase(key);
        self.position(k.as_str()).is_some()
    }

    /// The headers as stored: lower-cased names with their values, in
    /// increasing name order.
    pub fn iter(&self) -> (r: &[(String, String)])
        ensures
            pair_views(r@) == sorted_entries(self@),
            strictly_sorted(pair_views(r@)),
            entries_map(pair_views(r@)) == self@,
    {
        proof {
            use_type_invariant(self);
            lemma_sorted_entries_of(pair_views(self.entries@));
        }
        self.entries.as_slice()
    }
}

/// Names are looked up without regard to case: once a header is set under
/// one spelling of a name, every spelling with the same lower-case form finds
/// its value, and setting it under any such spelling replaces that value.
pub proof fn lemma_names_ignore_case(
    m: Map<Seq<char>, Seq<char>>,
    k1: Seq<char>,
    k2: Seq<char>,
    v1: Seq<char>,
    v2: Seq<char>,
)
    requires
        lower_of(k1) == lower_of(k2),
    ensures
        m.insert(lower_of(k1), v1).contains_key(lower_of(k2)),
        m.insert(lower_of(k1), v1)[lower_of(k2)] == v1,
        m.insert(lower_of(k1), v1).insert(lower_of(k2), v2) == m.insert(lower_of(k2), v2),
{
    assert(m.insert(lower_of(k1), v1).insert(lower_of(k2), v2) =~= m.insert(lower_of(k2), v2));
}

impl Clone for HttpHeaders {
    fn clone(&self) -> (r: Self)
        ensures
            r@ == self@,
    {
        proof {
            use_type_invariant(self);
        }
        let ghost e = pair_views(self.entries@);
        let mut entries: Vec<(String, String)> = Vec::new();
        let mut i: usize = 0;
        while i < self.entries.len()
            invariant
                e == pair_views(self.entries@),
                i <= self.entries@.len(),
                pair_views(entries@) == e.subrange(0, i as int),
            decreases self.entries@.len() - i,
        {
            let name = self.entries[i].0.clone();
            let value = self.entries[i].1.clone();
            assert(e[i as int] == (name@, value@));
            let ghost before = entries@;
            entries.push((name, value));
            assert(entries@ == before.push((name, value)));
            assert(pair_views(entries@) =~= pair_views(before).push((name@, value@)));
            assert(pair_views(entries@) =~= e.subrange(0, i + 1));
            i = i + 1;
        }
        assert(e.subrange(0, e.len() as int) =~= e);
        HttpHeaders { entries }
    }
}

impl Default for HttpHeaders {
    fn default() -> (h: Self)
        ensures
            h@ == Map::<Seq<char>, Seq<char>>::empty(),
    {
        HttpHeaders::new()
    }
}

} // verus!
