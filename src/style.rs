//! Resolved styles: property name to value maps, merged property by
//! property.
use vstd::prelude::*;
use crate::text::same_text;

verus! {

/// The map that a list of `(name, value)` pairs denotes; a later pair wins
/// over an earlier one with the same name.
pub open spec fn pairs_map(s: Seq<(String, String)>) -> Map<Seq<char>, Seq<char>>
    decreases s.len(),
{
    if s.len() == 0 {
        Map::empty()
    } else {
        pairs_map(s.drop_last()).insert(s.last().0@, s.last().1@)
    }
}

/// No two pairs share a name.
pub open spec fn distinct_names(s: Seq<(String, String)>) -> bool {
    forall|i: int, j: int| 0 <= i < s.len() && 0 <= j < s.len() && i != j ==> s[i].0@ != s[j].0@
}

proof fn lemma_pairs_map_keys(s: Seq<(String, String)>, k: Seq<char>)
    ensures
        pairs_map(s).contains_key(k) <==> exists|i: int| 0 <= i < s.len() && s[i].0@ == k,
    decreases s.len(),
{
    if s.len() > 0 {
        lemma_pairs_map_keys(s.drop_last(), k);
        if exists|i: int| 0 <= i < s.len() && s[i].0@ == k {
            let i = choose|i: int| 0 <= i < s.len() && s[i].0@ == k;
            if i < s.len() - 1 {
                assert(s.drop_last()[i] == s[i]);
            }
        }
        if exists|i: int| 0 <= i < s.drop_last().len() && s.drop_last()[i].0@ == k {
            let i = choose|i: int| 0 <= i < s.drop_last().len() && s.drop_last()[i].0@ == k;
            assert(s[i] == s.drop_last()[i]);
        }
    }
}

proof fn lemma_pairs_map_value(s: Seq<(String, String)>, i: int)
    requires
        distinct_names(s),
        0 <= i < s.len(),
    ensures
        pairs_map(s).contains_key(s[i].0@),
        pairs_map(s)[s[i].0@] == s[i].1@,
    decreases s.len(),
{
    if i < s.len() - 1 {
        assert(s.drop_last()[i] == s[i]);
        lemma_pairs_map_value(s.drop_last(), i);
    }
}

proof fn lemma_pairs_map_update(s: Seq<(String, String)>, i: int, p: (String, String))
    requires
        distinct_names(s),
        0 <= i < s.len(),
        s[i].0@ == p.0@,
    ensures
        pairs_map(s.update(i, p)) == pairs_map(s).insert(p.0@, p.1@),
        distinct_names(s.update(i, p)),
    decreases s.len(),
{
    let u = s.update(i, p);
    if i == s.len() - 1 {
        assert(u.drop_last() =~= s.drop_last());
    } else {
        assert(u.drop_last() =~= s.drop_last().update(i, p));
        lemma_pairs_map_update(s.drop_last(), i, p);
        assert(s.last().0@ != p.0@);
    }
    assert(pairs_map(u) =~= pairs_map(s).insert(p.0@, p.1@));
}

/// A flattened mapping from CSS-like property names to values.
pub struct ResolvedStyle {
    props: Vec<(String, String)>,
}

impl View for ResolvedStyle {
    type V = Map<Seq<char>, Seq<char>>;

    closed spec fn view(&self) -> Map<Seq<char>, Seq<char>> {
        pairs_map(self.props@)
    }
}

impl ResolvedStyle {
    pub closed spec fn wf(&self) -> bool {
        distinct_names(self.props@)
    }

    /// A style with no property.
    pub fn new() -> (r: ResolvedStyle)
        ensures
            r.wf(),
            r@ == Map::<Seq<char>, Seq<char>>::empty(),
    {
        ResolvedStyle { props: Vec::new() }
    }

    /// A copy of this style.
    pub fn copy(&self) -> (r: ResolvedStyle)
        requires
            self.wf(),
        ensures
            r.wf(),
            r@ == self@,
    {
        let mut props: Vec<(String, String)> = Vec::new();
        let mut i: usize = 0;
        while i < self.props.len()
            invariant
                i <= self.props.len(),
                props@ == self.props@.subrange(0, i as int),
            decreases self.props.len() - i,
        {
            props.push((self.props[i].0.clone(), self.props[i].1.clone()));
            assert(props@ =~= self.props@.subrange(0, i + 1));
            i = i + 1;
        }
        assert(props@ =~= self.props@);
        ResolvedStyle { props }
    }

    /// The properties, each name once; they denote this style.
    pub fn entries(&self) -> (r: &Vec<(String, String)>)
        requires
            self.wf(),
        ensures
            pairs_map(r@) == self@,
            distinct_names(r@),
    {
        &self.props
    }

    /// The value of property `name`, if it is set.
    pub fn get(&self, name: &str) -> (r: Option<&String>)
        requires
            self.wf(),
        ensures
            match r {
                Some(v) => self@.contains_key(name@) && v@ == self@[name@],
                None => !self@.contains_key(name@),
            },
    {
        let mut i: usize = 0;
        while i < self.props.len()
            invariant
                self.wf(),
                i <= self.props.len(),
                forall|j: int| 0 <= j < i ==> (#[trigger] self.props@[j]).0@ != name@,
            decreases self.props.len() - i,
        {
            if same_text(self.props[i].0.as_str(), name) {
                proof {
                    lemma_pairs_map_value(self.props@, i as int);
                }
                return Some(&self.props[i].1);
            }
            i = i + 1;
        }
        proof {
            lemma_pairs_map_keys(self.props@, name@);
        }
        None
    }

    /// Sets property `name` to `value`, replacing any earlier value.
    pub fn set(&mut self, name: String, value: String)
        requires
            old(self).wf(),
        ensures
            final(self).wf(),
            final(self)@ == old(self)@.insert(name@, value@),
    {
        let mut i: usize = 0;
        while i < self.props.len()
            invariant
                self.wf(),
                self.props@ == old(self).props@,
                i <= self.props.len(),
                forall|j: int| 0 <= j < i ==> (#[trigger] self.props@[j]).0@ != name@,
            decreases self.props.len() - i,
        {
            if self.props[i].0 == name {
                proof {
                    lemma_pairs_map_update(self.props@, i as int, (name, value));
                }
                self.props.set(i, (name, value));
                return;
            }
            i = i + 1;
        }
        let ghost before = self.props@;
        self.props.push((name, value));
        assert(self.props@.drop_last() =~= before);
        assert forall|a: int, b: int|
            0 <= a < self.props@.len() && 0 <= b < self.props@.len() && a != b implies self.props@[a].0@
            != self.props@[b].0@ by {
            if a < before.len() {
                assert(self.props@[a] == before[a]);
            }
            if b < before.len() {
                assert(self.props@[b] == before[b]);
            }
        }
    }

    /// Copies every property of `other` over this style: the names that
    /// `other` sets take its values, the others keep theirs.
    pub fn merge(&mut self, other: &ResolvedStyle)
        requires
            old(self).wf(),
        ensures
            final(self).wf(),
            final(self)@ == old(self)@.union_prefer_right(other@),
    {
        let ghost start = self@;
        let mut i: usize = 0;
        while i < other.props.len()
            invariant
                self.wf(),
                i <= other.props.len(),
                self@ == start.union_prefer_right(pairs_map(other.props@.subrange(0, i as int))),
            decreases other.props.len() - i,
        {
            let ghost sub = other.props@.subrange(0, i as int);
            assert(other.props@.subrange(0, i + 1).drop_last() =~= sub);
            let name = other.props[i].0.clone();
            let value = other.props[i].1.clone();
            self.set(name, value);
            assert(self@ =~= start.union_prefer_right(pairs_map(other.props@.subrange(0, i + 1))));
            i = i + 1;
        }
        assert(other.props@.subrange(0, other.props.len() as int) =~= other.props@);
    }
}

} // verus!
