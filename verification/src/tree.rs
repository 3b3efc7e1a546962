use vstd::prelude::*;

verus! {

/// What a document node is, as a mathematical value: the contracts of the
/// library speak of nodes through this type.
pub enum Tree {
    /// A scalar, with its text.
    Text(Seq<char>),
    /// A sequence, with its items in order.
    List(Seq<Tree>),
    /// A mapping, with its entries (key, value) in the order in which they were inserted.
    Table(Seq<(Tree, Tree)>),
    /// The node that a failed lookup gives.
    Absent,
}

/// The value under the first entry of `entries` whose key is `key`.
pub open spec fn find(entries: Seq<(Tree, Tree)>, key: Tree) -> Option<Tree>
    decreases entries.len(),
{
    if entries.len() == 0 {
        None
    } else if entries[0].0 == key {
        Some(entries[0].1)
    } else {
        find(entries.drop_first(), key)
    }
}

/// Some entry of `entries` has the key `key`.
pub open spec fn has_key(entries: Seq<(Tree, Tree)>, key: Tree) -> bool {
    exists|i: int| 0 <= i < entries.len() && (#[trigger] entries[i]).0 == key
}

/// No two entries of `entries` have the same key.
pub open spec fn distinct_keys(entries: Seq<(Tree, Tree)>) -> bool {
    forall|i: int, j: int|
        0 <= i < j < entries.len() ==> (#[trigger] entries[i]).0 != (#[trigger] entries[j]).0
}

/// Every leaf of `t` is a scalar: the absent node occurs nowhere in it.
pub open spec fn all_text(t: Tree) -> bool
    decreases t,
{
    match t {
        Tree::Text(_) => true,
        Tree::List(items) => forall|i: int| 0 <= i < items.len() ==> all_text(#[trigger] items[i]),
        Tree::Table(entries) => forall|i: int|
            0 <= i < entries.len() ==> all_text((#[trigger] entries[i]).0) && all_text(
                entries[i].1,
            ),
        Tree::Absent => false,
    }
}

/// In every mapping of `t`, at any depth, no key occurs twice.
pub open spec fn unique_keys(t: Tree) -> bool
    decreases t,
{
    match t {
        Tree::Text(_) => true,
        Tree::List(items) => forall|i: int|
            0 <= i < items.len() ==> unique_keys(#[trigger] items[i]),
        Tree::Table(entries) => distinct_keys(entries) && forall|i: int|
            0 <= i < entries.len() ==> unique_keys((#[trigger] entries[i]).0) && unique_keys(
                entries[i].1,
            ),
        Tree::Absent => true,
    }
}

/// What a loaded document is: scalars at the leaves, no key twice in a mapping.
pub open spec fn well_formed(t: Tree) -> bool {
    all_text(t) && unique_keys(t)
}

/// The number of containers on the longest path from `t` down to a leaf.
pub open spec fn depth(t: Tree) -> nat
    decreases t,
{
    match t {
        Tree::Text(_) => 0,
        Tree::List(items) => 1 + deepest(items),
        Tree::Table(entries) => 1 + deepest_entry(entries),
        Tree::Absent => 0,
    }
}

/// The depth of the deepest of `items`.
pub open spec fn deepest(items: Seq<Tree>) -> nat
    decreases items, 0nat,
{
    if items.len() == 0 {
        0
    } else {
        let rest = deepest(items.drop_last());
        let last = depth(items.last());
        if rest >= last {
            rest
        } else {
            last
        }
    }
}

/// The depth of the deepest key or value of `entries`.
pub open spec fn deepest_entry(entries: Seq<(Tree, Tree)>) -> nat
    decreases entries, 0nat,
{
    if entries.len() == 0 {
        0
    } else {
        let rest = deepest_entry(entries.drop_last());
        let k = depth(entries.last().0);
        let v = depth(entries.last().1);
        let m = if k >= v { k } else { v };
        if rest >= m {
            rest
        } else {
            m
        }
    }
}

/// `find` gives a value exactly where some entry has the key.
pub proof fn lemma_find_has_key(entries: Seq<(Tree, Tree)>, key: Tree)
    ensures
        find(entries, key) is Some <==> has_key(entries, key),
        find(entries, key) is Some ==> exists|i: int|
            0 <= i < entries.len() && (#[trigger] entries[i]) == (key, find(entries, key)->0),
    decreases entries.len(),
{
    if entries.len() == 0 {
    } else if entries[0].0 == key {
        assert(entries[0] == (key, find(entries, key)->0));
    } else {
        let rest = entries.drop_first();
        lemma_find_has_key(rest, key);
        if find(rest, key) is Some {
            let i = choose|i: int| 0 <= i < rest.len()
                && (#[trigger] rest[i]) == (key, find(rest, key)->0);
            assert(entries[i + 1] == rest[i]);
        }
        if has_key(entries, key) {
            let i = choose|i: int| 0 <= i < entries.len() && (#[trigger] entries[i]).0 == key;
            assert(rest[i - 1] == entries[i]);
        }
    }
}

/// Where no key occurs twice, `find` gives the value of the one entry with the key.
pub proof fn lemma_find_entry(entries: Seq<(Tree, Tree)>, i: int)
    requires
        distinct_keys(entries),
        0 <= i < entries.len(),
    ensures
        find(entries, entries[i].0) == Some(entries[i].1),
{
    lemma_find_has_key(entries, entries[i].0);
    let j = choose|j: int|
        0 <= j < entries.len() && (#[trigger] entries[j]) == (
            entries[i].0,
            find(entries, entries[i].0)->0,
        );
    assert(j == i);
}

/// A new key after distinct keys leaves them distinct.
pub proof fn lemma_push_distinct(entries: Seq<(Tree, Tree)>, key: Tree, value: Tree)
    requires
        distinct_keys(entries),
        !has_key(entries, key),
    ensures
        distinct_keys(entries.push((key, value))),
{
    let after = entries.push((key, value));
    assert forall|i: int, j: int| 0 <= i < j < after.len() implies (#[trigger] after[i]).0 != (
        #[trigger] after[j]
    ).0 by {
        if j == entries.len() {
            assert(after[i] == entries[i]);
        } else {
            assert(after[i] == entries[i]);
            assert(after[j] == entries[j]);
        }
    }
}

} // verus!
