use vstd::prelude::*;
use vstd::std_specs::iter::IteratorSpec;
use linked_hash_map::LinkedHashMap;
pub use crate::loader::StrictYamlLoader;
use crate::tree::{find, has_key, Tree};

verus! {

/// A mapping from node to node that keeps the order of insertion.
///
/// It is a `LinkedHashMap` of the crate `linked_hash_map`.  Verus does not look
/// inside: what the map holds is `entries_of`, and the methods whose names
/// begin with `raw_` say, in terms of it, what the methods of `LinkedHashMap`
/// do.  The map finds a key by the equality and the hash that `StrictYaml`
/// derives: two nodes are equal exactly where their trees are.
#[verifier::external_body]
#[derive(PartialEq, Eq, PartialOrd, Ord, Hash, Debug)]
pub struct Hash {
    map: LinkedHashMap<StrictYaml, StrictYaml>,
}

/// The entries of a `Hash`, oldest first, each key and value as a `Tree`.
pub uninterp spec fn entries_of(h: Hash) -> Seq<(Tree, Tree)>;

/// The items of a sequence.
pub type Array = Vec<StrictYaml>;

/// A node of a document.
#[derive(PartialEq, Eq, PartialOrd, Ord, Hash, Debug)]
pub enum StrictYaml {
    /// A scalar: the text as it was written.
    String(std::string::String),
    /// A sequence.
    Array(Array),
    /// A mapping; iteration follows the order of insertion.
    Hash(Hash),
    /// What a lookup gives where there is nothing to find.
    BadValue,
}

/// The nodes of `items` as trees.
pub open spec fn trees_of(items: Seq<StrictYaml>) -> Seq<Tree> {
    Seq::new(items.len(), |i: int| items[i]@)
}

impl View for StrictYaml {
    type V = Tree;

    open spec fn view(&self) -> Tree
        decreases self,
    {
        match self {
            StrictYaml::String(s) => Tree::Text(s@),
            StrictYaml::Array(v) => Tree::List(
                Seq::new(
                    v@.len(),
                    |i: int|
                        if 0 <= i < v@.len() {
                            v@[i].view()
                        } else {
                            Tree::Absent
                        },
                ),
            ),
            StrictYaml::Hash(h) => Tree::Table(entries_of(*h)),
            StrictYaml::BadValue => Tree::Absent,
        }
    }
}

/// The tree of an array is the list of the trees of its items.
pub proof fn lemma_array_view(v: Vec<StrictYaml>)
    ensures
        StrictYaml::Array(v)@ == Tree::List(trees_of(v@)),
{
    assert(StrictYaml::Array(v)@->List_0 =~= trees_of(v@));
}

impl Hash {
    /// `LinkedHashMap::new`: a map without entries.
    #[verifier::external_body]
    pub(crate) fn new() -> (h: Hash)
        ensures
            entries_of(h) == Seq::<(Tree, Tree)>::empty(),
    {
        Hash { map: LinkedHashMap::new() }
    }

    /// `LinkedHashMap::len`: the number of entries.
    #[verifier::external_body]
    pub(crate) fn raw_len(&self) -> (n: usize)
        ensures
            n == entries_of(*self).len(),
    {
        self.map.len()
    }

    /// `LinkedHashMap::contains_key`: whether an entry has a key equal to `key`.
    /// Two nodes are equal where their trees are.
    #[verifier::external_body]
    pub(crate) fn raw_contains_key(&self, key: &StrictYaml) -> (b: bool)
        ensures
            b == has_key(entries_of(*self), key@),
    {
        self.map.contains_key(key)
    }

    /// `LinkedHashMap::get`: the value of the entry whose key equals `key`.
    #[verifier::external_body]
    pub(crate) fn raw_get(&self, key: &StrictYaml) -> (r: Option<&StrictYaml>)
        ensures
            match r {
                Some(v) => find(entries_of(*self), key@) == Some(v@),
                None => find(entries_of(*self), key@) is None,
            },
    {
        self.map.get(key)
    }

    /// `LinkedHashMap::insert`: a new key goes to the end with its value, and
    /// nothing is returned.  A key that the map has already keeps its place in
    /// no way: its entry is taken out, the old key goes to the end with the new
    /// value, and the old value is returned.
    #[verifier::external_body]
    pub(crate) fn raw_insert(&mut self, key: StrictYaml, value: StrictYaml) -> (r: Option<
        StrictYaml,
    >)
        ensures
            !has_key(entries_of(*old(self)), key@) ==> r is None && entries_of(*final(self))
                == entries_of(*old(self)).push((key@, value@)),
            has_key(entries_of(*old(self)), key@) ==> r is Some && exists|i: int|
                0 <= i < entries_of(*old(self)).len() && (#[trigger] entries_of(*old(self))[i])
                    == (key@, r->0@) && entries_of(*final(self)) == entries_of(
                    *old(self),
                ).remove(i).push((key@, value@)),
    {
        self.map.insert(key, value)
    }

    /// `LinkedHashMap::into_iter`, collected: the entries, oldest first.
    #[verifier::external_body]
    pub(crate) fn raw_into_vec(self) -> (v: Vec<(StrictYaml, StrictYaml)>)
        ensures
            v@.len() == entries_of(self).len(),
            forall|i: int|
                0 <= i < v@.len() ==> (#[trigger] v@[i]).0@ == entries_of(self)[i].0 && v@[i].1@
                    == entries_of(self)[i].1,
    {
        self.map.into_iter().collect()
    }

    /// `LinkedHashMap::iter`, collected: the entries, oldest first.
    #[verifier::external_body]
    pub(crate) fn raw_to_vec(&self) -> (v: Vec<(&StrictYaml, &StrictYaml)>)
        ensures
            v@.len() == entries_of(*self).len(),
            forall|i: int|
                0 <= i < v@.len() ==> (#[trigger] v@[i]).0@ == entries_of(*self)[i].0 && v@[i].1@
                    == entries_of(*self)[i].1,
    {
        self.map.iter().collect()
    }

    /// `LinkedHashMap::clone`: a map with equal entries in the same order.
    #[verifier::external_body]
    pub(crate) fn raw_clone(&self) -> (h: Hash)
        ensures
            entries_of(h) == entries_of(*self),
    {
        Hash { map: self.map.clone() }
    }

    /// The number of entries.
    pub fn len(&self) -> (n: usize)
        ensures
            n == entries_of(*self).len(),
    {
        self.raw_len()
    }

    /// Whether the mapping has no entry.
    pub fn is_empty(&self) -> (b: bool)
        ensures
            b == (entries_of(*self).len() == 0),
    {
        self.raw_len() == 0
    }

    /// Whether some entry has the key `key`.
    pub fn contains_key(&self, key: &StrictYaml) -> (b: bool)
        ensures
            b == has_key(entries_of(*self), key@),
    {
        self.raw_contains_key(key)
    }

    /// The value under `key`, if the mapping has that key.
    pub fn get(&self, key: &StrictYaml) -> (r: Option<&StrictYaml>)
        ensures
            match r {
                Some(v) => find(entries_of(*self), key@) == Some(v@),
                None => find(entries_of(*self), key@) is None,
            },
    {
        self.raw_get(key)
    }

    /// The entries in the order of insertion.
    pub fn entries(&self) -> (v: Vec<(&StrictYaml, &StrictYaml)>)
        ensures
            v@.len() == entries_of(*self).len(),
            forall|i: int|
                0 <= i < v@.len() ==> (#[trigger] v@[i]).0@ == entries_of(*self)[i].0 && v@[i].1@
                    == entries_of(*self)[i].1,
    {
        self.raw_to_vec()
    }

    /// An iterator over the entries in the order of insertion, by value.
    pub fn into_iter(self) -> (it: std::vec::IntoIter<(StrictYaml, StrictYaml)>)
        ensures
            it.remaining().len() == entries_of(self).len(),
            forall|i: int|
                0 <= i < it.remaining().len() ==> (#[trigger] it.remaining()[i]).0@ == entries_of(
                    self,
                )[i].0 && it.remaining()[i].1@ == entries_of(self)[i].1,
    {
        let v = self.raw_into_vec();
        proof {
            vstd::std_specs::vec::axiom_spec_into_iter(v);
        }
        v.into_iter()
    }

    /// The entries in the order of insertion, by value.
    pub fn into_vec(self) -> (v: Vec<(StrictYaml, StrictYaml)>)
        ensures
            v@.len() == entries_of(self).len(),
            forall|i: int|
                0 <= i < v@.len() ==> (#[trigger] v@[i]).0@ == entries_of(self)[i].0 && v@[i].1@
                    == entries_of(self)[i].1,
    {
        self.raw_into_vec()
    }
}

impl Clone for Hash {
    fn clone(&self) -> (h: Hash)
        ensures
            entries_of(h) == entries_of(*self),
    {
        self.raw_clone()
    }
}

impl Clone for StrictYaml {
    fn clone(&self) -> (r: StrictYaml)
        ensures
            r@ == self@,
        decreases *self,
    {
        match self {
            StrictYaml::String(s) => StrictYaml::String(s.clone()),
            StrictYaml::Array(v) => {
                let mut out: Vec<StrictYaml> = Vec::new();
                let mut i: usize = 0;
                while i < v.len()
                    invariant
                        *self == StrictYaml::Array(*v),
                        i <= v.len(),
                        out.len() == i,
                        forall|j: int| 0 <= j < i ==> out@[j]@ == v@[j]@,
                    decreases v.len() - i,
                {
                    proof {
                        vstd::std_specs::vec::axiom_vec_index_decreases(*v, i as int);
                        assert(decreases_to!(*self => self->Array_0));
                    }
                    let item = v[i].clone();
                    out.push(item);
                    i += 1;
                }
                let r = StrictYaml::Array(out);
                assert(r@->List_0 =~= self@->List_0);
                r
            },
            StrictYaml::Hash(h) => StrictYaml::Hash(h.clone()),
            StrictYaml::BadValue => StrictYaml::BadValue,
        }
    }
}

impl StrictYaml {
    /// The text of a scalar.
    pub fn as_str(&self) -> (r: Option<&str>)
        ensures
            match r {
                Some(s) => self@ == Tree::Text(s@),
                None => !(self@ is Text),
            },
    {
        match self {
            StrictYaml::String(v) => Some(v.as_str()),
            _ => None,
        }
    }

    /// The mapping that this node is.
    pub fn as_hash(&self) -> (r: Option<&Hash>)
        ensures
            match r {
                Some(h) => *self == StrictYaml::Hash(*h),
                None => !(self@ is Table),
            },
    {
        match self {
            StrictYaml::Hash(v) => Some(v),
            _ => None,
        }
    }

    /// The items of the sequence that this node is.
    pub fn as_vec(&self) -> (r: Option<&Array>)
        ensures
            match r {
                Some(v) => *self == StrictYaml::Array(*v),
                None => !(self@ is List),
            },
    {
        match self {
            StrictYaml::Array(v) => Some(v),
            _ => None,
        }
    }

    /// The text of a scalar, by value.
    pub fn into_string(self) -> (r: Option<std::string::String>)
        ensures
            match r {
                Some(s) => self == StrictYaml::String(s),
                None => !(self@ is Text),
            },
    {
        match self {
            StrictYaml::String(v) => Some(v),
            _ => None,
        }
    }

    /// The mapping that this node is, by value.
    pub fn into_hash(self) -> (r: Option<Hash>)
        ensures
            match r {
                Some(h) => self == StrictYaml::Hash(h),
                None => !(self@ is Table),
            },
    {
        match self {
            StrictYaml::Hash(v) => Some(v),
            _ => None,
        }
    }

    /// The items of the sequence that this node is, by value.
    pub fn into_vec(self) -> (r: Option<Array>)
        ensures
            match r {
                Some(v) => self == StrictYaml::Array(v),
                None => !(self@ is List),
            },
    {
        match self {
            StrictYaml::Array(v) => Some(v),
            _ => None,
        }
    }

    /// Whether this is the absent node.
    pub fn is_badvalue(&self) -> (b: bool)
        ensures
            b == (self@ is Absent),
    {
        matches!(*self, StrictYaml::BadValue)
    }

    /// Whether this node is a sequence.
    pub fn is_array(&self) -> (b: bool)
        ensures
            b == (self@ is List),
    {
        matches!(*self, StrictYaml::Array(_))
    }

    /// The scalar with the text `v`: no text is read as a number, a truth value or null.
    pub fn from_str(v: &str) -> (r: StrictYaml)
        ensures
            r@ == Tree::Text(v@),
    {
        StrictYaml::String(v.to_owned())
    }

    /// The items of a sequence, first to last; of any other node, nothing.
    pub fn into_iter(self) -> (it: YamlIter)
        ensures
            trees_of(it.remaining()) == match self@ {
                Tree::List(items) => items,
                _ => Seq::<Tree>::empty(),
            },
            it.remaining().len() == match self@ {
                Tree::List(items) => items.len(),
                _ => 0,
            },
    {
        let mut items: Vec<StrictYaml> = match self {
            StrictYaml::Array(v) => v,
            _ => Vec::new(),
        };
        let ghost all = items@;
        proof {
            if self is Array {
                lemma_array_view(self->Array_0);
            }
        }
        let mut rest: Vec<StrictYaml> = Vec::new();
        while items.len() > 0
            invariant
                items@ + rest@.reverse() =~= all,
            decreases items.len(),
        {
            let ghost before = items@;
            let ghost done = rest@;
            let item = items.pop().unwrap();
            rest.push(item);
            proof {
                assert(before =~= items@.push(item));
                assert(rest@.reverse() =~= seq![item] + done.reverse());
            }
        }
        assert(rest@.reverse() =~= all);
        YamlIter { rest }
    }
}

/// The items of a sequence that are still to come.
pub struct YamlIter {
    /// What is left, the next item last.
    rest: Vec<StrictYaml>,
}

impl YamlIter {
    /// The items still to come, the next one first.
    pub closed spec fn remaining(&self) -> Seq<StrictYaml> {
        self.rest@.reverse()
    }

    /// Hands out the next item, if one is left.
    pub fn next(&mut self) -> (r: Option<StrictYaml>)
        ensures
            old(self).remaining().len() == 0 ==> r is None
                && final(self).remaining() == old(self).remaining(),
            old(self).remaining().len() > 0 ==> r == Some(old(self).remaining()[0])
                && final(self).remaining() == old(self).remaining().drop_first(),
    {
        let r = self.rest.pop();
        proof {
            if old(self).rest@.len() > 0 {
                assert(self.rest@.reverse() =~= old(self).rest@.reverse().drop_first());
            }
        }
        r
    }
}

impl vstd::std_specs::core::IndexSpecImpl<usize> for StrictYaml {
    /// Every position may be asked for.
    open spec fn index_req(&self, index: &usize) -> bool {
        true
    }
}

impl<'a> vstd::std_specs::core::IndexSpecImpl<&'a str> for StrictYaml {
    /// Every key may be asked for.
    open spec fn index_req(&self, index: &&'a str) -> bool {
        true
    }
}

impl std::ops::Index<usize> for StrictYaml {
    type Output = StrictYaml;

    /// The item at `idx` of a sequence; the absent node where there is none.
    fn index(&self, idx: usize) -> (r: &StrictYaml)
        ensures
            r@ == match self@ {
                Tree::List(items) => if idx < items.len() {
                    items[idx as int]
                } else {
                    Tree::Absent
                },
                _ => Tree::Absent,
            },
    {
        match self {
            StrictYaml::Array(v) => if idx < v.len() {
                &v[idx]
            } else {
                &StrictYaml::BadValue
            },
            _ => &StrictYaml::BadValue,
        }
    }
}

impl<'a> std::ops::Index<&'a str> for StrictYaml {
    type Output = StrictYaml;

    /// The value under the scalar key `idx` of a mapping; the absent node where there is none.
    fn index(&self, idx: &'a str) -> (r: &StrictYaml)
        ensures
            r@ == match self@ {
                Tree::Table(entries) => match find(entries, Tree::Text(idx@)) {
                    Some(v) => v,
                    None => Tree::Absent,
                },
                _ => Tree::Absent,
            },
    {
        let key = StrictYaml::String(idx.to_owned());
        match self {
            StrictYaml::Hash(h) => match h.get(&key) {
                Some(v) => v,
                None => &StrictYaml::BadValue,
            },
            _ => &StrictYaml::BadValue,
        }
    }
}

} // verus!
