//! Ordered attribute sets and their merge, the heart of attribute
//! resolution: later sources override earlier ones key by key, and a
//! source never removes a key it does not redefine.

use vstd::prelude::*;
use vstd::string::*;

verus! {

/// A mapping from attribute names to string values.
#[derive(Clone, Debug)]
pub struct Attributes {
    entries: Vec<(String, String)>,
}

/// The mapping a list of pairs denotes: later pairs win.
pub open spec fn pairs_map(s: Seq<(String, String)>) -> Map<Seq<char>, Seq<char>>
    decreases s.len(),
{
    if s.len() == 0 {
        Map::<Seq<char>, Seq<char>>::empty()
    } else {
        pairs_map(s.drop_last()).insert(s.last().0@, s.last().1@)
    }
}

impl Attributes {
    /// The mapping this set denotes.
    pub closed spec fn as_map(self) -> Map<Seq<char>, Seq<char>> {
        pairs_map(self.entries@)
    }

    /// No key occurs twice.
    pub closed spec fn wf(self) -> bool {
        forall|i: int, j: int|
            0 <= i < j < self.entries@.len() ==> (#[trigger] self.entries@[i]).0@ != (
            #[trigger] self.entries@[j]).0@
    }

    /// The empty set.
    pub fn new() -> (r: Attributes)
        ensures
            r.wf(),
            r.as_map() == Map::<Seq<char>, Seq<char>>::empty(),
    {
        Attributes { entries: Vec::new() }
    }


    /// A copy with the same bindings.
    pub fn duplicate(&self) -> (r: Attributes)
        ensures
            r.as_map() == self.as_map(),
            self.wf() ==> r.wf(),
    {
        let mut entries: Vec<(String, String)> = Vec::new();
        let n = self.entries.len();
        let mut i: usize = 0;
        while i < n
            invariant
                n == self.entries@.len(),
                i <= n,
                entries@ =~= self.entries@.take(i as int),
            decreases n - i,
        {
            let k = self.entries[i].0.clone();
            let v = self.entries[i].1.clone();
            entries.push((k, v));
            proof {
                assert(entries@ =~= self.entries@.take(i + 1));
            }
            i = i + 1;
        }
        proof {
            assert(entries@ =~= self.entries@);
            assert(entries@ == self.entries@);
        }
        Attributes { entries }
    }

    /// Insert or overwrite one binding.
    pub fn add(self, key: &str, value: &str) -> (r: Attributes)
        requires
            self.wf(),
        ensures
            r.wf(),
            r.as_map() == self.as_map().insert(key@, value@),
    {
        let mut found: Option<usize> = None;
        let k: String = key.to_owned();
        let n = self.entries.len();
        let mut i: usize = 0;
        while i < n
            invariant
                n == self.entries@.len(),
                i <= n,
                k@ == key@,
                match found {
                    Some(fi) => fi < i && self.entries@[fi as int].0@ == key@,
                    None => forall|j: int| 0 <= j < i ==> (#[trigger] self.entries@[j]).0@ != key@,
                },
            decreases n - i,
        {
            if found.is_none() && self.entries[i].0 == k {
                found = Some(i);
            }
            i = i + 1;
        }
        let mut entries = self.entries;
        match found {
            Some(fi) => {
                let v: String = value.to_owned();
                entries.set(fi, (k, v));
                let r = Attributes { entries };
                proof {
                    lemma_pairs_map_set(self.entries@, fi as int, (k, v));
                    assert(r.as_map() =~= self.as_map().insert(key@, value@));
                }
                r
            },
            None => {
                let v: String = value.to_owned();
                entries.push((k, v));
                let r = Attributes { entries };
                proof {
                    assert(entries@.drop_last() =~= self.entries@);
                    assert(r.as_map() =~= self.as_map().insert(key@, value@));
                }
                r
            },
        }
    }

    /// Look a name up.
    pub fn get(&self, key: &str) -> (r: Option<String>)
        requires
            self.wf(),
        ensures
            match r {
                Some(v) => self.as_map().contains_key(key@) && v@ == self.as_map()[key@],
                None => !self.as_map().contains_key(key@),
            },
    {
        let k: String = key.to_owned();
        let n = self.entries.len();
        let mut i: usize = 0;
        while i < n
            invariant
                self.wf(),
                n == self.entries@.len(),
                i <= n,
                k@ == key@,
                forall|j: int| 0 <= j < i ==> (#[trigger] self.entries@[j]).0@ != key@,
            decreases n - i,
        {
            if self.entries[i].0 == k {
                let r = self.entries[i].1.clone();
                proof {
                    lemma_pairs_map_lookup(self.entries@, i as int);
                }
                return Some(r);
            }
            i = i + 1;
        }
        proof {
            lemma_pairs_map_absent(self.entries@, key@);
        }
        None
    }


    /// Look a name up and read it as a dimension.  A missing or
    /// malformed value degrades to absent: a single bad attribute
    /// never aborts a compilation.
    pub fn get_size(&self, key: &str) -> (r: Option<crate::size::Size>)
        requires
            self.wf(),
        ensures
            r == (if self.as_map().contains_key(key@) {
                crate::size::spec_parse(self.as_map()[key@])
            } else {
                Option::<crate::size::Size>::None
            }),
            match r {
                Some(v) => v.wf(),
                None => true,
            },
    {
        match self.get(key) {
            Some(v) => match crate::size::Size::parse(v.as_str()) {
                Ok(s) => Some(s),
                Err(_) => None,
            },
            None => None,
        }
    }

    /// Merge: bindings of `other` override bindings of `self`.
    pub fn concat(&self, other: &Attributes) -> (r: Attributes)
        requires
            self.wf(),
            other.wf(),
        ensures
            r.wf(),
            r.as_map() == self.as_map().union_prefer_right(other.as_map()),
    {
        let mut acc = self.duplicate();
        let n = other.entries.len();
        let mut i: usize = 0;
        proof {
            assert(acc.as_map() =~= self.as_map().union_prefer_right(
                pairs_map(other.entries@.take(0)),
            )) by {
                assert(other.entries@.take(0) =~= Seq::<(String, String)>::empty());
            }
        }
        while i < n
            invariant
                self.wf(),
                other.wf(),
                acc.wf(),
                n == other.entries@.len(),
                i <= n,
                acc.as_map() == self.as_map().union_prefer_right(pairs_map(other.entries@.take(i as int))),
            decreases n - i,
        {
            let key = &other.entries[i].0;
            let value = &other.entries[i].1;
            acc = acc.add(key.as_str(), value.as_str());
            proof {
                assert(other.entries@.take(i + 1).drop_last() =~= other.entries@.take(i as int));
                assert(other.entries@.take(i + 1).last() == other.entries@[i as int]);
                assert(acc.as_map() =~= self.as_map().union_prefer_right(
                    pairs_map(other.entries@.take(i + 1)),
                ));
            }
            i = i + 1;
        }
        proof {
            assert(other.entries@.take(n as int) =~= other.entries@);
        }
        acc
    }

    /// Merge a raw pair list (a node's own attributes) over this set.
    pub fn concat_pairs(&self, pairs: &Vec<(String, String)>) -> (r: Attributes)
        requires
            self.wf(),
        ensures
            r.wf(),
            r.as_map() == self.as_map().union_prefer_right(pairs_map(pairs@)),
    {
        let mut acc = self.duplicate();
        let n = pairs.len();
        let mut i: usize = 0;
        proof {
            assert(acc.as_map() =~= self.as_map().union_prefer_right(pairs_map(pairs@.take(0))))
                by {
                assert(pairs@.take(0) =~= Seq::<(String, String)>::empty());
            }
        }
        while i < n
            invariant
                self.wf(),
                acc.wf(),
                n == pairs@.len(),
                i <= n,
                acc.as_map() == self.as_map().union_prefer_right(pairs_map(pairs@.take(i as int))),
            decreases n - i,
        {
            let key = &pairs[i].0;
            let value = &pairs[i].1;
            acc = acc.add(key.as_str(), value.as_str());
            proof {
                assert(pairs@.take(i + 1).drop_last() =~= pairs@.take(i as int));
                assert(pairs@.take(i + 1).last() == pairs@[i as int]);
                assert(acc.as_map() =~= self.as_map().union_prefer_right(
                    pairs_map(pairs@.take(i + 1)),
                ));
            }
            i = i + 1;
        }
        proof {
            assert(pairs@.take(n as int) =~= pairs@);
        }
        acc
    }
}

proof fn lemma_pairs_map_set(s: Seq<(String, String)>, fi: int, p: (String, String))
    requires
        0 <= fi < s.len(),
        s[fi].0@ == p.0@,
        forall|i: int, j: int|
            0 <= i < j < s.len() ==> (#[trigger] s[i]).0@ != (#[trigger] s[j]).0@,
    ensures
        pairs_map(s.update(fi, p)) =~= pairs_map(s).insert(p.0@, p.1@),
    decreases s.len(),
{
    let t = s.update(fi, p);
    if fi == s.len() - 1 {
        assert(t.drop_last() =~= s.drop_last());
        assert(t.last() == p);
    } else {
        assert(t.drop_last() =~= s.drop_last().update(fi, p));
        assert(t.last() == s.last());
        lemma_pairs_map_set(s.drop_last(), fi, p);
        assert(s.last().0@ != p.0@) by {
            assert(s[fi].0@ != s[s.len() - 1].0@);
        }
        assert(pairs_map(t) =~= pairs_map(s).insert(p.0@, p.1@));
    }
}

proof fn lemma_pairs_map_lookup(s: Seq<(String, String)>, i: int)
    requires
        0 <= i < s.len(),
        forall|a: int, b: int| 0 <= a < b < s.len() ==> (#[trigger] s[a]).0@ != (#[trigger] s[b]).0@,
    ensures
        pairs_map(s).contains_key(s[i].0@),
        pairs_map(s)[s[i].0@] == s[i].1@,
    decreases s.len(),
{
    if i == s.len() - 1 {
    } else {
        lemma_pairs_map_lookup(s.drop_last(), i);
        assert(s.last().0@ != s[i].0@) by {
            assert(s[i].0@ != s[s.len() - 1].0@);
        }
        assert(s.drop_last()[i] == s[i]);
    }
}

proof fn lemma_pairs_map_absent(s: Seq<(String, String)>, k: Seq<char>)
    requires
        forall|j: int| 0 <= j < s.len() ==> (#[trigger] s[j]).0@ != k,
    ensures
        !pairs_map(s).contains_key(k),
    decreases s.len(),
{
    if s.len() > 0 {
        assert(s[s.len() - 1].0@ != k);
        assert(forall|j: int| 0 <= j < s.len() - 1 ==> (#[trigger] s.drop_last()[j]).0@ != k);
        lemma_pairs_map_absent(s.drop_last(), k);
    }
}



/// The mapping a pair list denotes when one key is left out.
pub open spec fn pairs_map_without(s: Seq<(String, String)>, skip: Seq<char>) -> Map<
    Seq<char>,
    Seq<char>,
>
    decreases s.len(),
{
    if s.len() == 0 {
        Map::<Seq<char>, Seq<char>>::empty()
    } else if s.last().0@ == skip {
        pairs_map_without(s.drop_last(), skip)
    } else {
        pairs_map_without(s.drop_last(), skip).insert(s.last().0@, s.last().1@)
    }
}

/// The value a raw pair list gives a key: the last pair wins, as in
/// `pairs_map`.
pub fn pairs_get(pairs: &Vec<(String, String)>, key: &str) -> (r: Option<String>)
    ensures
        match r {
            Some(v) => pairs_map(pairs@).contains_key(key@) && v@ == pairs_map(pairs@)[key@],
            None => !pairs_map(pairs@).contains_key(key@),
        },
{
    let k: String = key.to_owned();
    let n = pairs.len();
    let mut j = n;
    proof {
        assert(pairs@.take(n as int) =~= pairs@);
    }
    while j > 0
        invariant
            n == pairs@.len(),
            j <= n,
            k@ == key@,
            pairs_map(pairs@).contains_key(key@) == pairs_map(pairs@.take(j as int)).contains_key(
                key@,
            ),
            pairs_map(pairs@).contains_key(key@) ==> pairs_map(pairs@)[key@] == pairs_map(
                pairs@.take(j as int),
            )[key@],
        decreases j,
    {
        proof {
            assert(pairs@.take(j as int).drop_last() =~= pairs@.take(j - 1));
            assert(pairs@.take(j as int).last() == pairs@[j - 1]);
        }
        if pairs[j - 1].0 == k {
            let v = pairs[j - 1].1.clone();
            return Some(v);
        }
        j = j - 1;
    }
    proof {
        assert(pairs@.take(0) =~= Seq::<(String, String)>::empty());
    }
    None
}

/// Resolve the effective attribute set of a node from its four sources,
/// in increasing precedence: component defaults, document defaults,
/// attributes a parent forces on its child, and the node's own.
pub fn resolve(
    component_defaults: &Attributes,
    document_defaults: &Attributes,
    inherited: &Attributes,
    node_attrs: &Vec<(String, String)>,
) -> (r: Attributes)
    requires
        component_defaults.wf(),
        document_defaults.wf(),
        inherited.wf(),
    ensures
        r.wf(),
        r.as_map() == component_defaults.as_map().union_prefer_right(
            document_defaults.as_map(),
        ).union_prefer_right(inherited.as_map()).union_prefer_right(pairs_map(node_attrs@)),
{
    component_defaults.concat(document_defaults).concat(inherited).concat_pairs(node_attrs)
}

/// Attribute precedence, stated per key: the resolved set holds a key
/// exactly when some source does, and its value comes from the
/// highest-precedence source holding the key; no source removes a key
/// that a lower one defined.
pub proof fn lemma_attribute_precedence(
    a: Map<Seq<char>, Seq<char>>,
    b: Map<Seq<char>, Seq<char>>,
    c: Map<Seq<char>, Seq<char>>,
    d: Map<Seq<char>, Seq<char>>,
    k: Seq<char>,
)
    ensures
        a.union_prefer_right(b).union_prefer_right(c).union_prefer_right(d).contains_key(k) <==> (
        a.contains_key(k) || b.contains_key(k) || c.contains_key(k) || d.contains_key(k)),
        d.contains_key(k) ==> a.union_prefer_right(b).union_prefer_right(c).union_prefer_right(
            d,
        )[k] == d[k],
        !d.contains_key(k) && c.contains_key(k) ==> a.union_prefer_right(b).union_prefer_right(
            c,
        ).union_prefer_right(d)[k] == c[k],
        !d.contains_key(k) && !c.contains_key(k) && b.contains_key(k) ==> a.union_prefer_right(
            b,
        ).union_prefer_right(c).union_prefer_right(d)[k] == b[k],
        !d.contains_key(k) && !c.contains_key(k) && !b.contains_key(k) && a.contains_key(k)
            ==> a.union_prefer_right(b).union_prefer_right(c).union_prefer_right(d)[k] == a[k],
{
}

} // verus!
