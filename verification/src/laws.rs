use vstd::prelude::*;
use crate::event::{
    advance, advanced_all, node_done, peak, permitted, permitted_all, EventView, Nesting,
};
use crate::loader::{
    inserted, lemma_received_all_concat, loaded, received, received_all, stream, LoaderView,
    StrictYamlLoader,
};
use crate::machine::{begins, lemma_run_extends, run, stack_ok, Ran, State};
use crate::lexeme::{Lex, Lexeme};
use crate::marker::{Marker, ScanError};
use crate::scanner::{
    indicator_fetched,
    first_state, gap, more_fetched, next_fetched, scan_after, scanned_next, stale, stream_ended,
    stream_started, token_at, token_fetched, unrolled, Fetched, ScanState, SimpleKey,
};
use crate::reader::padded;
use crate::strict_yaml::{trees_of, StrictYaml};
use crate::token::TScalarStyle;
use crate::tree::{deepest, deepest_entry, depth, distinct_keys, has_key, well_formed, Tree};

verus! {

/// The events that a node gives rise to, in document order.
pub open spec fn events_of(t: Tree) -> Seq<EventView>
    decreases t,
{
    match t {
        Tree::Text(text) => seq![EventView::Scalar(text, TScalarStyle::Plain, 0)],
        Tree::List(items) => seq![EventView::SequenceStart(0)] + events_of_items(items)
            + seq![EventView::SequenceEnd],
        Tree::Table(entries) => seq![EventView::MappingStart(0)] + events_of_entries(entries)
            + seq![EventView::MappingEnd],
        Tree::Absent => Seq::empty(),
    }
}

/// The events of the items of a sequence.
pub open spec fn events_of_items(items: Seq<Tree>) -> Seq<EventView>
    decreases items, 0nat,
{
    if items.len() == 0 {
        Seq::empty()
    } else {
        events_of_items(items.drop_last()) + events_of(items.last())
    }
}

/// The events of the entries of a mapping: key, value, key, value.
pub open spec fn events_of_entries(entries: Seq<(Tree, Tree)>) -> Seq<EventView>
    decreases entries, 0nat,
{
    if entries.len() == 0 {
        Seq::empty()
    } else {
        events_of_entries(entries.drop_last()) + events_of(entries.last().0) + events_of(
            entries.last().1,
        )
    }
}

/// Going through `a` and then through `b` is going through `a + b`: for the
/// place reached, for what is permitted on the way, and for the greatest
/// number of containers open at once.
pub proof fn lemma_advanced_all_concat(n: Nesting, a: Seq<EventView>, b: Seq<EventView>)
    ensures
        advanced_all(n, a + b) == advanced_all(advanced_all(n, a), b),
        permitted_all(n, a + b) == (permitted_all(n, a) && permitted_all(advanced_all(n, a), b)),
        peak(n, a + b) == if peak(n, a) >= peak(advanced_all(n, a), b) {
            peak(n, a)
        } else {
            peak(advanced_all(n, a), b)
        },
        peak(n, a) >= advanced_all(n, a).open.len(),
    decreases b.len(),
{
    lemma_peak_covers(n, a);
    if b.len() == 0 {
        assert(a + b =~= a);
    } else {
        assert((a + b).drop_last() =~= a + b.drop_last());
        assert((a + b).last() == b.last());
        lemma_advanced_all_concat(n, a, b.drop_last());
    }
}

/// The greatest number of open containers is at least the number at the
/// start and the number at the end.
pub proof fn lemma_peak_covers(n: Nesting, a: Seq<EventView>)
    ensures
        peak(n, a) >= advanced_all(n, a).open.len(),
        peak(n, a) >= n.open.len(),
    decreases a.len(),
{
    if a.len() > 0 {
        lemma_peak_covers(n, a.drop_last());
    }
}

/// `v` with one more container in progress.
pub open spec fn with_list(v: LoaderView, items: Seq<Tree>) -> LoaderView {
    LoaderView { stack: v.stack.push(Tree::List(items)), ..v }
}

/// `v` with one more mapping in progress, which waits for a key.
pub open spec fn with_table(v: LoaderView, entries: Seq<(Tree, Tree)>) -> LoaderView {
    LoaderView {
        stack: v.stack.push(Tree::Table(entries)),
        keys: v.keys.push(Tree::Absent),
        ..v
    }
}

/// Receiving the events of a well-formed node is storing the node.  So a
/// loaded sequence has its items, and a loaded mapping its entries, in the
/// order in which their events came.
pub proof fn lemma_tree_received(v: LoaderView, t: Tree)
    requires
        well_formed(t),
    ensures
        received_all(v, events_of(t)) == inserted(v, t),
    decreases t, 1nat,
{
    match t {
        Tree::Text(text) => {
            let evs = events_of(t);
            assert(evs.drop_last() =~= Seq::<EventView>::empty());
            assert(received_all(v, evs.drop_last()) == (v, true));
        },
        Tree::List(items) => {
            let start = seq![EventView::SequenceStart(0)];
            let body = events_of_items(items);
            let end = seq![EventView::SequenceEnd];
            assert(start.drop_last() =~= Seq::<EventView>::empty());
            assert(received_all(v, start.drop_last()) == (v, true));
            assert(received_all(v, start) == (with_list(v, Seq::empty()), true));
            lemma_items_received(v, items);
            lemma_received_all_concat(v, start, body);
            assert(received_all(v, start + body) == (with_list(v, items), true));
            lemma_received_all_concat(v, start + body, end);
            assert(end.drop_last() =~= Seq::<EventView>::empty());
            let w = with_list(v, items);
            assert(received_all(w, end.drop_last()) == (w, true));
            assert(w.stack.drop_last() =~= v.stack);
            assert(LoaderView { stack: w.stack.drop_last(), ..w } == v);
        },
        Tree::Table(entries) => {
            let start = seq![EventView::MappingStart(0)];
            let body = events_of_entries(entries);
            let end = seq![EventView::MappingEnd];
            assert(start.drop_last() =~= Seq::<EventView>::empty());
            assert(received_all(v, start.drop_last()) == (v, true));
            assert(received_all(v, start) == (with_table(v, Seq::empty()), true));
            lemma_entries_received(v, entries);
            lemma_received_all_concat(v, start, body);
            lemma_received_all_concat(v, start + body, end);
            assert(end.drop_last() =~= Seq::<EventView>::empty());
            let w = with_table(v, entries);
            assert(received_all(w, end.drop_last()) == (w, true));
            assert(w.stack.drop_last() =~= v.stack);
            assert(w.keys.drop_last() =~= v.keys);
            assert(LoaderView { stack: w.stack.drop_last(), keys: w.keys.drop_last(), ..w } == v);
        },
        Tree::Absent => {},
    }
}

/// A sequence in progress takes the items whose events it receives, in their order.
pub proof fn lemma_items_received(v: LoaderView, items: Seq<Tree>)
    requires
        forall|i: int| 0 <= i < items.len() ==> well_formed(#[trigger] items[i]),
    ensures
        received_all(with_list(v, Seq::empty()), events_of_items(items)) == (
            with_list(v, items),
            true,
        ),
    decreases items, 0nat,
{
    let w = with_list(v, Seq::empty());
    if items.len() == 0 {
        assert(items =~= Seq::<Tree>::empty());
    } else {
        let init = items.drop_last();
        let last = items.last();
        assert forall|i: int| 0 <= i < init.len() implies well_formed(#[trigger] init[i]) by {
            assert(init[i] == items[i]);
        }
        lemma_items_received(v, init);
        lemma_tree_received(with_list(v, init), last);
        lemma_received_all_concat(w, events_of_items(init), events_of(last));
        let mid = with_list(v, init);
        assert(mid.stack.drop_last() =~= v.stack);
        assert(init.push(last) =~= items);
        assert(mid.stack.drop_last().push(Tree::List(items)) =~= with_list(v, items).stack);
    }
}

/// A mapping in progress takes the entries whose events it receives, in
/// their order, where no key comes twice.
pub proof fn lemma_entries_received(v: LoaderView, entries: Seq<(Tree, Tree)>)
    requires
        distinct_keys(entries),
        forall|i: int|
            0 <= i < entries.len() ==> well_formed((#[trigger] entries[i]).0) && well_formed(
                entries[i].1,
            ),
    ensures
        received_all(with_table(v, Seq::empty()), events_of_entries(entries)) == (
            with_table(v, entries),
            true,
        ),
    decreases entries, 0nat,
{
    let w = with_table(v, Seq::empty());
    if entries.len() == 0 {
        assert(entries =~= Seq::<(Tree, Tree)>::empty());
    } else {
        let init = entries.drop_last();
        let key = entries.last().0;
        let value = entries.last().1;
        assert forall|i: int| 0 <= i < init.len() implies well_formed((#[trigger] init[i]).0)
            && well_formed(init[i].1) by {
            assert(init[i] == entries[i]);
        }
        assert(distinct_keys(init)) by {
            assert forall|i: int, j: int| 0 <= i < j < init.len() implies (#[trigger] init[i]).0
                != (#[trigger] init[j]).0 by {
                assert(init[i] == entries[i]);
                assert(init[j] == entries[j]);
            }
        }
        assert(!has_key(init, key)) by {
            if has_key(init, key) {
                let i = choose|i: int| 0 <= i < init.len() && (#[trigger] init[i]).0 == key;
                assert(init[i] == entries[i]);
                assert(entries[i].0 != entries[entries.len() - 1].0);
            }
        }
        lemma_entries_received(v, init);
        let mid = with_table(v, init);
        lemma_tree_received(mid, key);
        let keyed = inserted(mid, key).0;
        assert(keyed.keys =~= v.keys.push(key));
        lemma_tree_received(keyed, value);
        lemma_received_all_concat(w, events_of_entries(init), events_of(key));
        lemma_received_all_concat(
            w,
            events_of_entries(init) + events_of(key),
            events_of(value),
        );
        let after = inserted(keyed, value).0;
        assert(init.push((key, value)) =~= entries);
        assert(after.stack =~= with_table(v, entries).stack);
        assert(after.keys =~= with_table(v, entries).keys);
    }
}

/// The events of a node come well nested, they leave the stream where a
/// complete node leaves it, and while they come the number of open
/// containers rises by the depth of the node and no further.
pub proof fn lemma_tree_nested(n: Nesting, t: Tree)
    requires
        n.in_document,
        !n.root_done,
        crate::tree::all_text(t),
    ensures
        permitted_all(n, events_of(t)),
        advanced_all(n, events_of(t)) == node_done(n),
        peak(n, events_of(t)) == n.open.len() + depth(t),
    decreases t, 1nat,
{
    match t {
        Tree::Text(text) => {
            let evs = events_of(t);
            assert(evs.drop_last() =~= Seq::<EventView>::empty());
            assert(advanced_all(n, evs.drop_last()) == n);
            assert(permitted_all(n, evs.drop_last()));
            assert(peak(n, evs.drop_last()) == n.open.len());
        },
        Tree::List(items) => {
            let start = seq![EventView::SequenceStart(0)];
            let body = events_of_items(items);
            let end = seq![EventView::SequenceEnd];
            let inner = Nesting { open: n.open.push(crate::event::Slot::Item), ..n };
            assert(start.drop_last() =~= Seq::<EventView>::empty());
            assert(advanced_all(n, start.drop_last()) == n);
            assert(advanced_all(n, start) == inner);
            lemma_items_nested(inner, items);
            lemma_advanced_all_concat(n, start, body);
            lemma_advanced_all_concat(n, start + body, end);
            assert(end.drop_last() =~= Seq::<EventView>::empty());
            assert(advanced_all(inner, end.drop_last()) == inner);
            assert(permitted_all(inner, end.drop_last()));
            assert(peak(inner, end.drop_last()) == inner.open.len());
            assert(permitted_all(n, start.drop_last()));
            assert(peak(n, start.drop_last()) == n.open.len());
            assert(inner.open.drop_last() =~= n.open);
            assert(Nesting { open: inner.open.drop_last(), ..inner } == n);
        },
        Tree::Table(entries) => {
            let start = seq![EventView::MappingStart(0)];
            let body = events_of_entries(entries);
            let end = seq![EventView::MappingEnd];
            let inner = Nesting { open: n.open.push(crate::event::Slot::Key), ..n };
            assert(start.drop_last() =~= Seq::<EventView>::empty());
            assert(advanced_all(n, start.drop_last()) == n);
            assert(advanced_all(n, start) == inner);
            lemma_entries_nested(inner, entries);
            lemma_advanced_all_concat(n, start, body);
            lemma_advanced_all_concat(n, start + body, end);
            assert(end.drop_last() =~= Seq::<EventView>::empty());
            assert(advanced_all(inner, end.drop_last()) == inner);
            assert(permitted_all(inner, end.drop_last()));
            assert(peak(inner, end.drop_last()) == inner.open.len());
            assert(permitted_all(n, start.drop_last()));
            assert(peak(n, start.drop_last()) == n.open.len());
            assert(inner.open.drop_last() =~= n.open);
            assert(Nesting { open: inner.open.drop_last(), ..inner } == n);
        },
        Tree::Absent => {},
    }
}

/// The events of the items of a sequence come well nested inside it, and
/// raise the number of open containers by the depth of the deepest item.
pub proof fn lemma_items_nested(n: Nesting, items: Seq<Tree>)
    requires
        n.in_document,
        !n.root_done,
        n.open.len() > 0,
        n.open.last() is Item,
        forall|i: int| 0 <= i < items.len() ==> crate::tree::all_text(#[trigger] items[i]),
    ensures
        permitted_all(n, events_of_items(items)),
        advanced_all(n, events_of_items(items)) == n,
        peak(n, events_of_items(items)) == n.open.len() + deepest(items),
    decreases items, 0nat,
{
    if items.len() > 0 {
        let init = items.drop_last();
        assert forall|i: int| 0 <= i < init.len() implies crate::tree::all_text(
            #[trigger] init[i],
        ) by {
            assert(init[i] == items[i]);
        }
        lemma_items_nested(n, init);
        lemma_tree_nested(n, items.last());
        lemma_advanced_all_concat(n, events_of_items(init), events_of(items.last()));
    }
}

/// The events of the entries of a mapping come well nested inside it, and
/// raise the number of open containers by the depth of the deepest key or value.
pub proof fn lemma_entries_nested(n: Nesting, entries: Seq<(Tree, Tree)>)
    requires
        n.in_document,
        !n.root_done,
        n.open.len() > 0,
        n.open.last() is Key,
        forall|i: int|
            0 <= i < entries.len() ==> crate::tree::all_text((#[trigger] entries[i]).0)
                && crate::tree::all_text(entries[i].1),
    ensures
        permitted_all(n, events_of_entries(entries)),
        advanced_all(n, events_of_entries(entries)) == n,
        peak(n, events_of_entries(entries)) == n.open.len() + deepest_entry(entries),
    decreases entries, 0nat,
{
    if entries.len() > 0 {
        let init = entries.drop_last();
        let key = entries.last().0;
        let value = entries.last().1;
        assert forall|i: int| 0 <= i < init.len() implies crate::tree::all_text(
            (#[trigger] init[i]).0,
        ) && crate::tree::all_text(init[i].1) by {
            assert(init[i] == entries[i]);
        }
        lemma_entries_nested(n, init);
        lemma_tree_nested(n, key);
        let keyed = node_done(n);
        assert(keyed.open.len() == n.open.len());
        lemma_tree_nested(keyed, value);
        assert(node_done(keyed).open =~= n.open);
        lemma_advanced_all_concat(n, events_of_entries(init), events_of(key));
        lemma_advanced_all_concat(
            n,
            events_of_entries(init) + events_of(key),
            events_of(value),
        );
    }
}

/// What loading a text comes to is decided by the text: where two results
/// are both what loading `text` comes to, for whatever numbers of tokens,
/// they are both documents, and the same, or both errors, and the same.
pub proof fn lemma_loaded_unique(
    text: Seq<char>,
    n: nat,
    m: nat,
    r: Result<Vec<StrictYaml>, ScanError>,
    s: Result<Vec<StrictYaml>, ScanError>,
)
    requires
        loaded(text, n, r),
        loaded(text, m, s),
    ensures
        r is Ok <==> s is Ok,
        r is Ok ==> trees_of(r->Ok_0@) == trees_of(s->Ok_0@),
        r is Err ==> r->Err_0.mark == s->Err_0.mark && r->Err_0.info@ == s->Err_0.info@,
{
    if n <= m {
        lemma_loaded_ordered(text, n, m, r, s);
    } else {
        lemma_loaded_ordered(text, m, n, s, r);
    }
}

proof fn lemma_loaded_ordered(
    text: Seq<char>,
    n: nat,
    m: nat,
    r: Result<Vec<StrictYaml>, ScanError>,
    s: Result<Vec<StrictYaml>, ScanError>,
)
    requires
        n <= m,
        loaded(text, n, r),
        loaded(text, m, s),
    ensures
        r is Ok <==> s is Ok,
        r is Ok ==> trees_of(r->Ok_0@) == trees_of(s->Ok_0@),
        r is Err ==> r->Err_0.mark == s->Err_0.mark && r->Err_0.info@ == s->Err_0.info@,
{
    let src = padded(text);
    let short = stream(src, n);
    let long = stream(src, m);
    assert(begins(short, long));
    assert(Seq::<State>::empty().len() == 0);
    lemma_run_extends::<StrictYamlLoader>(
        State::StreamStart,
        Seq::empty(),
        0,
        Seq::empty(),
        short,
        long,
        true,
    );
    let first = run::<StrictYamlLoader>(
        State::StreamStart,
        Seq::empty(),
        0,
        Seq::empty(),
        short,
        true,
    );
    if first is Paused {
        // the text has no token of index n, so m is n
        assert(n == m);
        assert(short =~= long);
    }
}

/// The text without characters has two tokens: the start and the end of the stream.
pub proof fn lemma_empty_text_tokens()
    ensures
        token_at(padded(Seq::empty()), 0) == Some(
            Lex { mark: Marker { index: 0, line: 1, col: 0 }, lexeme: Lexeme::StreamStart },
        ),
        token_at(padded(Seq::empty()), 1) == Some(
            Lex { mark: Marker { index: 0, line: 1, col: 0 }, lexeme: Lexeme::StreamEnd },
        ),
{
    let src = padded(Seq::empty());
    let origin = Marker { index: 0, line: 1, col: 0 };
    let first = Lex { mark: origin, lexeme: Lexeme::StreamStart };
    let last = Lex { mark: origin, lexeme: Lexeme::StreamEnd };
    assert(src.len() == 16);
    assert(src[0] == '\0');
    reveal(token_at);
    reveal(scanned_next);
    reveal_with_fuel(scan_after, 3);
    let s0 = first_state();
    assert(scan_after(src, 0) == s0);
    // the start of the stream
    let s1 = stream_started(src, s0);
    assert(s1.tokens =~= seq![first]);
    assert(next_fetched(src, s0) == Fetched::Next(s1));
    assert(more_fetched(src, s1) == Fetched::Next(stale(s1)));
    assert(more_fetched(src, s0) == Fetched::Next(stale(s1)));
    let t1 = scanned_next(src, s0).0;
    assert(scanned_next(src, s0).1 == Some(first));
    assert(t1.tokens =~= Seq::<Lex>::empty());
    assert(scan_after(src, 1) == t1);
    // the end of the stream
    assert(gap(src, t1.mark, t1.key_allowed) == crate::reader::Scan::<bool>::Done {
        mark: origin,
        value: true,
    });
    let u = unrolled(stale(t1), 1);
    assert(u == stale(t1));
    let e = stream_ended(u);
    assert(unrolled(ScanState { mark: origin, ..u }, 0) == u);
    assert(e.tokens =~= seq![last]);
    assert(token_fetched(src, t1) == Fetched::Next(e));
    assert(next_fetched(src, t1) == Fetched::Next(e));
    assert(more_fetched(src, e) == Fetched::Next(stale(e)));
    assert(more_fetched(src, t1) == Fetched::Next(stale(e)));
    assert(scanned_next(src, t1).1 == Some(last));
}

/// Where some first tokens of a text decide the drive, they decide what
/// loading the text comes to.
pub proof fn lemma_loaded_by(
    text: Seq<char>,
    n: nat,
    k: nat,
    r: Result<Vec<StrictYaml>, ScanError>,
)
    requires
        loaded(text, n, r),
        forall|i: nat| i < k ==> token_at(padded(text), i) is Some,
        run::<StrictYamlLoader>(
            State::StreamStart,
            Seq::empty(),
            0,
            Seq::empty(),
            stream(padded(text), k),
            true,
        ) is Done,
    ensures
        match run::<StrictYamlLoader>(
            State::StreamStart,
            Seq::empty(),
            0,
            Seq::empty(),
            stream(padded(text), k),
            true,
        ) {
            Ran::Done { log, result: Ok(_) } => r is Ok && trees_of(r->Ok_0@) == received_all(
                crate::loader::nothing(),
                log,
            ).0.docs,
            Ran::Done { log, result: Err(e) } => r is Err && (r->Err_0.mark, r->Err_0.info@) == e,
            Ran::Paused { .. } => false,
        },
{
    let src = padded(text);
    assert(Seq::<State>::empty().len() == 0);
    if n <= k {
        assert(begins(stream(src, n), stream(src, k)));
        lemma_run_extends::<StrictYamlLoader>(
            State::StreamStart,
            Seq::empty(),
            0,
            Seq::empty(),
            stream(src, n),
            stream(src, k),
            true,
        );
        let first = run::<StrictYamlLoader>(
            State::StreamStart,
            Seq::empty(),
            0,
            Seq::empty(),
            stream(src, n),
            true,
        );
        if first is Paused {
            assert(n == k);
            assert(stream(src, n) =~= stream(src, k));
        }
    } else {
        assert(begins(stream(src, k), stream(src, n)));
        lemma_run_extends::<StrictYamlLoader>(
            State::StreamStart,
            Seq::empty(),
            0,
            Seq::empty(),
            stream(src, k),
            stream(src, n),
            true,
        );
    }
}

/// Loading the text without characters gives no document.
pub proof fn lemma_empty_text_loads(r: Result<Vec<StrictYaml>, ScanError>)
    requires
        exists|n: nat| loaded(Seq::empty(), n, r),
    ensures
        r is Ok,
        r->Ok_0@.len() == 0,
{
    let n = choose|n: nat| loaded(Seq::empty(), n, r);
    let src = padded(Seq::empty());
    let origin = Marker { index: 0, line: 1, col: 0 };
    lemma_empty_text_tokens();
    let toks = stream(src, 2);
    assert(toks[0] == Lex { mark: origin, lexeme: Lexeme::StreamStart });
    assert(toks[1] == Lex { mark: origin, lexeme: Lexeme::StreamEnd });
    assert forall|i: nat| i < 2 implies token_at(src, i) is Some by {
        assert(i == 0 || i == 1);
    }
    let none = Seq::<EventView>::empty();
    let one = none.push(EventView::StreamStart);
    let two = one.push(EventView::StreamEnd);
    assert(one.drop_last() =~= none);
    assert(two.drop_last() =~= one);
    assert(received_all(crate::loader::nothing(), none) == (crate::loader::nothing(), true));
    assert(received_all(crate::loader::nothing(), one) == (crate::loader::nothing(), true));
    assert(received_all(crate::loader::nothing(), two) == (crate::loader::nothing(), true));
    let second = run::<StrictYamlLoader>(
        State::ImplicitDocumentStart,
        Seq::empty(),
        1,
        one,
        toks,
        true,
    );
    assert(second == Ran::Done { log: two, result: Ok(()) });
    let first = run::<StrictYamlLoader>(State::StreamStart, Seq::empty(), 0, none, toks, true);
    assert(first == second);
    lemma_loaded_by(Seq::empty(), n, 2, r);
    assert(trees_of(r->Ok_0@).len() == 0);
}

/// The three dashes, as a text.
pub open spec fn three_dashes() -> Seq<char> {
    seq!['-', '-', '-']
}

/// The text of three dashes has three tokens: the start of the stream, the
/// start of a document, and the end of the stream.
pub proof fn lemma_three_dashes_tokens()
    ensures
        token_at(padded(three_dashes()), 0) == Some(
            Lex { mark: Marker { index: 0, line: 1, col: 0 }, lexeme: Lexeme::StreamStart },
        ),
        token_at(padded(three_dashes()), 1) == Some(
            Lex { mark: Marker { index: 0, line: 1, col: 0 }, lexeme: Lexeme::DocumentStart },
        ),
        token_at(padded(three_dashes()), 2) == Some(
            Lex { mark: Marker { index: 3, line: 2, col: 0 }, lexeme: Lexeme::StreamEnd },
        ),
{
    let src = padded(three_dashes());
    let origin = Marker { index: 0, line: 1, col: 0 };
    let after = Marker { index: 3, line: 1, col: 3 };
    let end = Marker { index: 3, line: 2, col: 0 };
    let first = Lex { mark: origin, lexeme: Lexeme::StreamStart };
    let second = Lex { mark: origin, lexeme: Lexeme::DocumentStart };
    let last = Lex { mark: end, lexeme: Lexeme::StreamEnd };
    assert(src.len() == 19);
    assert(src[0] == '-' && src[1] == '-' && src[2] == '-' && src[3] == '\0' && src[4] == '\0');
    reveal(token_at);
    reveal(scanned_next);
    reveal_with_fuel(scan_after, 4);
    let s0 = first_state();
    // the start of the stream
    let s1 = stream_started(src, s0);
    assert(s1.tokens =~= seq![first]);
    assert(next_fetched(src, s0) == Fetched::Next(s1));
    assert(more_fetched(src, s1) == Fetched::Next(stale(s1)));
    assert(more_fetched(src, s0) == Fetched::Next(stale(s1)));
    let t1 = scanned_next(src, s0).0;
    assert(scanned_next(src, s0).1 == Some(first));
    assert(t1.tokens =~= Seq::<Lex>::empty());
    assert(scan_after(src, 1) == t1);
    // the start of the document
    assert(gap(src, t1.mark, t1.key_allowed) == crate::reader::Scan::<bool>::Done {
        mark: origin,
        value: true,
    });
    let u1 = unrolled(stale(t1), 1);
    assert(u1 == stale(t1));
    assert(unrolled(u1, 0) == u1);
    assert(crate::scalars::indicator_at(src, origin));
    let one = crate::reader::past_one(src, origin);
    let two = crate::reader::past_one(src, one);
    assert(one == Marker { index: 1, line: 1, col: 1 });
    assert(two == Marker { index: 2, line: 1, col: 2 });
    assert(crate::reader::past_one(src, two) == after);
    let d = indicator_fetched(src, u1, Lexeme::DocumentStart);
    assert(d.tokens =~= seq![second]);
    assert(d.mark == after);
    assert(token_fetched(src, t1) == Fetched::Next(d));
    assert(next_fetched(src, t1) == Fetched::Next(d));
    assert(more_fetched(src, d) == Fetched::Next(stale(d)));
    assert(more_fetched(src, t1) == Fetched::Next(stale(d)));
    let t2 = scanned_next(src, t1).0;
    assert(scanned_next(src, t1).1 == Some(second));
    assert(t2.tokens =~= Seq::<Lex>::empty());
    assert(scan_after(src, 2) == t2);
    // the end of the stream
    assert(gap(src, t2.mark, t2.key_allowed) == crate::reader::Scan::<bool>::Done {
        mark: after,
        value: false,
    });
    let u2 = unrolled(stale(t2), 4);
    assert(u2 == stale(t2));
    let e = stream_ended(u2);
    assert(unrolled(ScanState { mark: end, ..u2 }, 0) == (ScanState { mark: end, ..u2 }));
    assert(e.tokens =~= seq![last]);
    assert(token_fetched(src, t2) == Fetched::Next(e));
    assert(next_fetched(src, t2) == Fetched::Next(e));
    assert(more_fetched(src, e) == Fetched::Next(stale(e)));
    assert(more_fetched(src, t2) == Fetched::Next(stale(e)));
    assert(scanned_next(src, t2).1 == Some(last));
}

/// Loading the text of three dashes gives one document, whose root is the
/// scalar without text.
pub proof fn lemma_three_dashes_load(r: Result<Vec<StrictYaml>, ScanError>)
    requires
        exists|n: nat| loaded(three_dashes(), n, r),
    ensures
        r is Ok,
        r->Ok_0@.len() == 1,
        r->Ok_0@[0]@ == Tree::Text(Seq::empty()),
{
    let n = choose|n: nat| loaded(three_dashes(), n, r);
    let src = padded(three_dashes());
    let origin = Marker { index: 0, line: 1, col: 0 };
    let end = Marker { index: 3, line: 2, col: 0 };
    lemma_three_dashes_tokens();
    let toks = stream(src, 3);
    assert(toks[0] == Lex { mark: origin, lexeme: Lexeme::StreamStart });
    assert(toks[1] == Lex { mark: origin, lexeme: Lexeme::DocumentStart });
    assert(toks[2] == Lex { mark: end, lexeme: Lexeme::StreamEnd });
    assert forall|i: nat| i < 3 implies token_at(src, i) is Some by {
        assert(i == 0 || i == 1 || i == 2);
    }
    let nothing = crate::loader::nothing();
    let scalar = EventView::Scalar(Seq::empty(), TScalarStyle::Plain, 0);
    let l0 = Seq::<EventView>::empty();
    let l1 = l0.push(EventView::StreamStart);
    let l2 = l1.push(EventView::DocumentStart);
    let l3 = l2.push(scalar);
    let l4 = l3.push(EventView::DocumentEnd);
    let l5 = l4.push(EventView::StreamEnd);
    assert(l1.drop_last() =~= l0);
    assert(l2.drop_last() =~= l1);
    assert(l3.drop_last() =~= l2);
    assert(l4.drop_last() =~= l3);
    assert(l5.drop_last() =~= l4);
    let rooted = LoaderView { stack: seq![Tree::Text(Seq::empty())], ..nothing };
    let done = LoaderView { docs: seq![Tree::Text(Seq::empty())], ..nothing };
    assert(received_all(nothing, l0) == (nothing, true));
    assert(received_all(nothing, l1) == (nothing, true));
    assert(received_all(nothing, l2) == (nothing, true));
    assert(received_all(nothing, l3) == (rooted, true));
    assert(rooted.stack.drop_last() =~= nothing.stack);
    assert(nothing.docs.push(rooted.stack.last()) =~= done.docs);
    assert(received_all(nothing, l4) == (done, true));
    assert(received_all(nothing, l5) == (done, true));
    let none = Seq::<State>::empty();
    let ended = seq![State::DocumentEnd];
    assert(none.push(State::DocumentEnd) =~= ended);
    assert(ended.drop_last() =~= none);
    assert(crate::machine::after_directives(toks, 1) == 1);
    assert(crate::machine::after_document_ends(toks, 2) == 2);
    let fifth = run::<StrictYamlLoader>(State::DocumentStart, none, 2, l4, toks, true);
    assert(fifth == Ran::Done { log: l5, result: Ok(()) });
    let fourth = run::<StrictYamlLoader>(State::DocumentEnd, none, 2, l3, toks, true);
    assert(fourth == fifth);
    let third = run::<StrictYamlLoader>(State::DocumentContent, ended, 2, l2, toks, true);
    assert(third == fourth);
    let second = run::<StrictYamlLoader>(State::ImplicitDocumentStart, none, 1, l1, toks, true);
    assert(second == third);
    let first = run::<StrictYamlLoader>(State::StreamStart, none, 0, l0, toks, true);
    assert(first == second);
    lemma_loaded_by(three_dashes(), n, 3, r);
    assert(trees_of(r->Ok_0@) =~= done.docs);
    assert(trees_of(r->Ok_0@)[0] == r->Ok_0@[0]@);
}

} // verus!
