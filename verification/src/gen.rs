//! The traversal engine: walks a finished document tree in document order
//! and drives a caller-supplied visitor, as every renderer does.
//!
//! The walk is iterative, over an explicit stack, so that call-stack depth
//! does not grow with folder nesting.  A folder is seen twice: once before
//! its children and once after them.  The two sightings are told apart by
//! comparing node identities: each node is identified by its index path from
//! the root, and a folder whose last child's identity equals the identity of
//! the most recently completed node has just been returned to.

pub mod html;
pub mod tiddler_json;

use vstd::prelude::*;

use crate::ast::{EntryKind, EntryV, Folder, FolderV, Hotlist, Note, NoteV, entry_view};

verus! {

/// One visitation event, in document order.
#[derive(Clone, Copy)]
pub enum Event<'a> {
    RootPre,
    RootPost,
    FolderPre(&'a Folder),
    FolderPost(&'a Folder),
    FolderEmpty(&'a Folder),
    Note(&'a Note),
}

/// Mathematical view of a visitation event.
pub enum EventV {
    RootPre,
    RootPost,
    FolderPre(FolderV),
    FolderPost(FolderV),
    FolderEmpty(FolderV),
    Note(NoteV),
}

impl<'a> View for Event<'a> {
    type V = EventV;

    open spec fn view(&self) -> EventV {
        match *self {
            Event::RootPre => EventV::RootPre,
            Event::RootPost => EventV::RootPost,
            Event::FolderPre(f) => EventV::FolderPre(f@),
            Event::FolderPost(f) => EventV::FolderPost(f@),
            Event::FolderEmpty(f) => EventV::FolderEmpty(f@),
            Event::Note(n) => EventV::Note(n@),
        }
    }
}

/// The events a single entry's subtree produces, in document order.
pub open spec fn entry_events(e: EntryV) -> Seq<EventV>
    decreases e,
{
    match e {
        EntryV::Note(n) => seq![EventV::Note(n)],
        EntryV::Folder(f) => if f.entries.len() == 0 {
            seq![EventV::FolderEmpty(f)]
        } else {
            seq![EventV::FolderPre(f)] + entries_events(f.entries) + seq![EventV::FolderPost(f)]
        },
    }
}

/// The events of a sequence of sibling entries, in source order.
pub open spec fn entries_events(es: Seq<EntryV>) -> Seq<EventV>
    decreases es,
{
    if es.len() == 0 {
        Seq::empty()
    } else {
        entry_events(es[0]) + entries_events(es.drop_first())
    }
}

/// The full event sequence of one traversal: `root_pre`, every entry's
/// subtree in source order, `root_post`.
pub open spec fn spec_traversal(hl: crate::ast::HotlistV) -> Seq<EventV> {
    seq![EventV::RootPre] + entries_events(hl.entries) + seq![EventV::RootPost]
}

/// Traversal over an empty hotlist produces exactly `root_pre`, `root_post`.
pub proof fn lemma_traversal_of_empty(hl: crate::ast::HotlistV)
    requires
        hl.entries.len() == 0,
    ensures
        spec_traversal(hl) =~= seq![EventV::RootPre, EventV::RootPost],
{
}

pub proof fn lemma_entries_events_skip(es: Seq<EntryV>, j: int)
    requires
        0 <= j < es.len(),
    ensures
        entries_events(es.skip(j)) == entry_events(es[j]) + entries_events(es.skip(j + 1)),
{
    assert(es.skip(j).len() > 0);
    assert(es.skip(j)[0] == es[j]);
    assert(es.skip(j).drop_first() =~= es.skip(j + 1));
}

pub proof fn lemma_entry_events_len(e: EntryV)
    ensures
        entry_events(e).len() >= 1,
{
}

// ---------------------------------------------------------------------------
// One event per node
// ---------------------------------------------------------------------------

/// The six operation kinds of the visitation contract.
pub enum EventKind {
    RootPre,
    RootPost,
    FolderPre,
    FolderPost,
    FolderEmpty,
    Note,
}

pub open spec fn kind_of(e: EventV) -> EventKind {
    match e {
        EventV::RootPre => EventKind::RootPre,
        EventV::RootPost => EventKind::RootPost,
        EventV::FolderPre(_) => EventKind::FolderPre,
        EventV::FolderPost(_) => EventKind::FolderPost,
        EventV::FolderEmpty(_) => EventKind::FolderEmpty,
        EventV::Note(_) => EventKind::Note,
    }
}

/// How many events of kind `k` a sequence holds.
pub open spec fn count_kind(s: Seq<EventV>, k: EventKind) -> nat
    decreases s.len(),
{
    if s.len() == 0 {
        0
    } else {
        count_kind(s.drop_last(), k) + (if kind_of(s.last()) == k {
            1nat
        } else {
            0nat
        })
    }
}

/// How many nodes of each kind a subtree holds: notes, childless folders,
/// folders with children.
pub struct NodeCensus {
    pub notes: nat,
    pub empty_folders: nat,
    pub full_folders: nat,
}

pub open spec fn census_add(a: NodeCensus, b: NodeCensus) -> NodeCensus {
    NodeCensus {
        notes: a.notes + b.notes,
        empty_folders: a.empty_folders + b.empty_folders,
        full_folders: a.full_folders + b.full_folders,
    }
}

pub open spec fn census(e: EntryV) -> NodeCensus
    decreases e,
{
    match e {
        EntryV::Note(_) => NodeCensus { notes: 1, empty_folders: 0, full_folders: 0 },
        EntryV::Folder(f) => {
            let c = census_in(f.entries);
            if f.entries.len() == 0 {
                NodeCensus {
                    notes: c.notes,
                    empty_folders: c.empty_folders + 1,
                    full_folders: c.full_folders,
                }
            } else {
                NodeCensus {
                    notes: c.notes,
                    empty_folders: c.empty_folders,
                    full_folders: c.full_folders + 1,
                }
            }
        },
    }
}

pub open spec fn census_in(es: Seq<EntryV>) -> NodeCensus
    decreases es,
{
    if es.len() == 0 {
        NodeCensus { notes: 0, empty_folders: 0, full_folders: 0 }
    } else {
        census_add(census(es[0]), census_in(es.drop_first()))
    }
}

proof fn lemma_count_kind_concat(a: Seq<EventV>, b: Seq<EventV>, k: EventKind)
    ensures
        count_kind(a + b, k) == count_kind(a, k) + count_kind(b, k),
    decreases b.len(),
{
    if b.len() == 0 {
        assert(a + b =~= a);
    } else {
        assert((a + b).drop_last() =~= a + b.drop_last());
        assert((a + b).last() == b.last());
        lemma_count_kind_concat(a, b.drop_last(), k);
    }
}

proof fn lemma_count_kind_singleton(e: EventV, k: EventKind)
    ensures
        count_kind(seq![e], k) == (if kind_of(e) == k {
            1nat
        } else {
            0nat
        }),
{
    assert(seq![e].len() == 1);
    assert(seq![e].last() == e);
    assert(seq![e].drop_last() =~= Seq::<EventV>::empty());
    assert(count_kind(Seq::<EventV>::empty(), k) == 0);
    assert(count_kind(seq![e], k) == count_kind(seq![e].drop_last(), k) + (
    if kind_of(seq![e].last()) == k {
        1nat
    } else {
        0nat
    }));
}

/// A note is visited by exactly its one `note` event.
pub proof fn lemma_note_single_event(n: NoteV)
    ensures
        entry_events(EntryV::Note(n)) == seq![EventV::Note(n)],
{
}

/// A childless folder is visited by exactly its one `folder_empty` event.
pub proof fn lemma_empty_folder_single_event(f: FolderV)
    requires
        f.entries.len() == 0,
    ensures
        entry_events(EntryV::Folder(f)) == seq![EventV::FolderEmpty(f)],
{
}

/// The pre/post pair of a folder with children brackets exactly its
/// subtree: its opening event first, every event of its children in
/// source order strictly between, its closing event last, nothing else.
pub proof fn lemma_folder_events_bracketed(f: FolderV)
    requires
        f.entries.len() > 0,
    ensures
        entry_events(EntryV::Folder(f)) == seq![EventV::FolderPre(f)] + entries_events(f.entries)
            + seq![EventV::FolderPost(f)],
{
}

proof fn lemma_entry_events_total(e: EntryV)
    ensures
        entry_events(e).len() == census(e).notes + census(e).empty_folders + 2 * census(
            e,
        ).full_folders,
    decreases e, 1int,
{
    match e {
        EntryV::Note(_) => {},
        EntryV::Folder(f) => {
            if f.entries.len() == 0 {
            } else {
                lemma_entries_events_total(f.entries);
            }
        },
    }
}

proof fn lemma_entries_events_total(es: Seq<EntryV>)
    ensures
        entries_events(es).len() == census_in(es).notes + census_in(es).empty_folders + 2
            * census_in(es).full_folders,
    decreases es, 0int,
{
    if es.len() == 0 {
    } else {
        lemma_entry_events_total(es[0]);
        lemma_entries_events_total(es.drop_first());
    }
}

proof fn lemma_entry_events_census(e: EntryV)
    ensures
        count_kind(entry_events(e), EventKind::Note) == census(e).notes,
        count_kind(entry_events(e), EventKind::FolderEmpty) == census(e).empty_folders,
        count_kind(entry_events(e), EventKind::FolderPre) == census(e).full_folders,
        count_kind(entry_events(e), EventKind::FolderPost) == census(e).full_folders,
        count_kind(entry_events(e), EventKind::RootPre) == 0,
        count_kind(entry_events(e), EventKind::RootPost) == 0,
    decreases e, 1int,
{
    match e {
        EntryV::Note(n) => {
            lemma_count_kind_singleton(EventV::Note(n), EventKind::Note);
            lemma_count_kind_singleton(EventV::Note(n), EventKind::FolderEmpty);
            lemma_count_kind_singleton(EventV::Note(n), EventKind::FolderPre);
            lemma_count_kind_singleton(EventV::Note(n), EventKind::FolderPost);
            lemma_count_kind_singleton(EventV::Note(n), EventKind::RootPre);
            lemma_count_kind_singleton(EventV::Note(n), EventKind::RootPost);
        },
        EntryV::Folder(f) => {
            if f.entries.len() == 0 {
                lemma_count_kind_singleton(EventV::FolderEmpty(f), EventKind::Note);
                lemma_count_kind_singleton(EventV::FolderEmpty(f), EventKind::FolderEmpty);
                lemma_count_kind_singleton(EventV::FolderEmpty(f), EventKind::FolderPre);
                lemma_count_kind_singleton(EventV::FolderEmpty(f), EventKind::FolderPost);
                lemma_count_kind_singleton(EventV::FolderEmpty(f), EventKind::RootPre);
                lemma_count_kind_singleton(EventV::FolderEmpty(f), EventKind::RootPost);
                assert(census_in(f.entries) == NodeCensus {
                    notes: 0,
                    empty_folders: 0,
                    full_folders: 0,
                });
            } else {
                lemma_entries_events_census(f.entries);
                let pre = seq![EventV::FolderPre(f)];
                let mid = entries_events(f.entries);
                let post = seq![EventV::FolderPost(f)];
                assert(entry_events(e) == pre + mid + post);
                lemma_kind_counts_of_wrap(pre, mid, post, EventKind::Note);
                lemma_kind_counts_of_wrap(pre, mid, post, EventKind::FolderEmpty);
                lemma_kind_counts_of_wrap(pre, mid, post, EventKind::FolderPre);
                lemma_kind_counts_of_wrap(pre, mid, post, EventKind::FolderPost);
                lemma_kind_counts_of_wrap(pre, mid, post, EventKind::RootPre);
                lemma_kind_counts_of_wrap(pre, mid, post, EventKind::RootPost);
                lemma_count_kind_singleton(EventV::FolderPre(f), EventKind::Note);
                lemma_count_kind_singleton(EventV::FolderPre(f), EventKind::FolderEmpty);
                lemma_count_kind_singleton(EventV::FolderPre(f), EventKind::FolderPre);
                lemma_count_kind_singleton(EventV::FolderPre(f), EventKind::FolderPost);
                lemma_count_kind_singleton(EventV::FolderPre(f), EventKind::RootPre);
                lemma_count_kind_singleton(EventV::FolderPre(f), EventKind::RootPost);
                lemma_count_kind_singleton(EventV::FolderPost(f), EventKind::Note);
                lemma_count_kind_singleton(EventV::FolderPost(f), EventKind::FolderEmpty);
                lemma_count_kind_singleton(EventV::FolderPost(f), EventKind::FolderPre);
                lemma_count_kind_singleton(EventV::FolderPost(f), EventKind::FolderPost);
                lemma_count_kind_singleton(EventV::FolderPost(f), EventKind::RootPre);
                lemma_count_kind_singleton(EventV::FolderPost(f), EventKind::RootPost);
            }
        },
    }
}

// Counts distribute over a `pre + mid + post` wrapping.
proof fn lemma_kind_counts_of_wrap(
    pre: Seq<EventV>,
    mid: Seq<EventV>,
    post: Seq<EventV>,
    k: EventKind,
)
    ensures
        count_kind(pre + mid + post, k) == count_kind(pre, k) + count_kind(mid, k) + count_kind(
            post,
            k,
        ),
{
    lemma_count_kind_concat(pre + mid, post, k);
    lemma_count_kind_concat(pre, mid, k);
}

proof fn lemma_entries_events_census(es: Seq<EntryV>)
    ensures
        count_kind(entries_events(es), EventKind::Note) == census_in(es).notes,
        count_kind(entries_events(es), EventKind::FolderEmpty) == census_in(es).empty_folders,
        count_kind(entries_events(es), EventKind::FolderPre) == census_in(es).full_folders,
        count_kind(entries_events(es), EventKind::FolderPost) == census_in(es).full_folders,
        count_kind(entries_events(es), EventKind::RootPre) == 0,
        count_kind(entries_events(es), EventKind::RootPost) == 0,
    decreases es, 0int,
{
    if es.len() == 0 {
        assert(entries_events(es) =~= Seq::<EventV>::empty());
    } else {
        lemma_entry_events_census(es[0]);
        lemma_entries_events_census(es.drop_first());
        lemma_count_kind_concat(entry_events(es[0]), entries_events(es.drop_first()), EventKind::Note);
        lemma_count_kind_concat(
            entry_events(es[0]),
            entries_events(es.drop_first()),
            EventKind::FolderEmpty,
        );
        lemma_count_kind_concat(
            entry_events(es[0]),
            entries_events(es.drop_first()),
            EventKind::FolderPre,
        );
        lemma_count_kind_concat(
            entry_events(es[0]),
            entries_events(es.drop_first()),
            EventKind::FolderPost,
        );
        lemma_count_kind_concat(
            entry_events(es[0]),
            entries_events(es.drop_first()),
            EventKind::RootPre,
        );
        lemma_count_kind_concat(
            entry_events(es[0]),
            entries_events(es.drop_first()),
            EventKind::RootPost,
        );
    }
}

/// One event per node: over any hotlist, the event sequence opens with
/// its one `root_pre` and closes with its one `root_post`, and in between
/// holds exactly one `note` event per note, one `folder_empty` per
/// childless folder, and one `folder_pre` and one `folder_post` per
/// folder with children — no node is visited twice, none is skipped.
pub proof fn lemma_one_event_per_node(hl: crate::ast::HotlistV)
    ensures
        spec_traversal(hl).len() == 2 + census_in(hl.entries).notes + census_in(
            hl.entries,
        ).empty_folders + 2 * census_in(hl.entries).full_folders,
        spec_traversal(hl).first() == EventV::RootPre,
        spec_traversal(hl).last() == EventV::RootPost,
        count_kind(spec_traversal(hl), EventKind::RootPre) == 1,
        count_kind(spec_traversal(hl), EventKind::RootPost) == 1,
        count_kind(spec_traversal(hl), EventKind::Note) == census_in(hl.entries).notes,
        count_kind(spec_traversal(hl), EventKind::FolderEmpty) == census_in(
            hl.entries,
        ).empty_folders,
        count_kind(spec_traversal(hl), EventKind::FolderPre) == census_in(
            hl.entries,
        ).full_folders,
        count_kind(spec_traversal(hl), EventKind::FolderPost) == census_in(
            hl.entries,
        ).full_folders,
{
    let pre = seq![EventV::RootPre];
    let mid = entries_events(hl.entries);
    let post = seq![EventV::RootPost];
    assert(spec_traversal(hl) == pre + mid + post);
    assert((pre + mid + post).first() == EventV::RootPre);
    assert((pre + mid + post).last() == EventV::RootPost);
    lemma_entries_events_census(hl.entries);
    lemma_entries_events_total(hl.entries);
    lemma_kind_counts_of_wrap(pre, mid, post, EventKind::RootPre);
    lemma_kind_counts_of_wrap(pre, mid, post, EventKind::RootPost);
    lemma_kind_counts_of_wrap(pre, mid, post, EventKind::Note);
    lemma_kind_counts_of_wrap(pre, mid, post, EventKind::FolderEmpty);
    lemma_kind_counts_of_wrap(pre, mid, post, EventKind::FolderPre);
    lemma_kind_counts_of_wrap(pre, mid, post, EventKind::FolderPost);
    lemma_count_kind_singleton(EventV::RootPre, EventKind::RootPre);
    lemma_count_kind_singleton(EventV::RootPre, EventKind::RootPost);
    lemma_count_kind_singleton(EventV::RootPre, EventKind::Note);
    lemma_count_kind_singleton(EventV::RootPre, EventKind::FolderEmpty);
    lemma_count_kind_singleton(EventV::RootPre, EventKind::FolderPre);
    lemma_count_kind_singleton(EventV::RootPre, EventKind::FolderPost);
    lemma_count_kind_singleton(EventV::RootPost, EventKind::RootPre);
    lemma_count_kind_singleton(EventV::RootPost, EventKind::RootPost);
    lemma_count_kind_singleton(EventV::RootPost, EventKind::Note);
    lemma_count_kind_singleton(EventV::RootPost, EventKind::FolderEmpty);
    lemma_count_kind_singleton(EventV::RootPost, EventKind::FolderPre);
    lemma_count_kind_singleton(EventV::RootPost, EventKind::FolderPost);
}

pub open spec fn events_view(s: Seq<Event>) -> Seq<EventV> {
    Seq::new(
        s.len(),
        |i: int|
            if 0 <= i < s.len() {
                s[i]@
            } else {
                EventV::RootPre
            },
    )
}

// ---------------------------------------------------------------------------
// Node identity paths
// ---------------------------------------------------------------------------

/// Whether `p` is a valid index path into the forest `es`.
pub open spec fn path_valid(es: Seq<EntryV>, p: Seq<usize>) -> bool
    decreases p.len(),
{
    &&& p.len() >= 1
    &&& (p[0] as int) < es.len()
    &&& (p.len() == 1 || {
        match es[p[0] as int] {
            EntryV::Folder(f) => path_valid(f.entries, p.drop_first()),
            EntryV::Note(_) => false,
        }
    })
}

/// The node the index path `p` denotes in the forest `es`.
pub open spec fn node_at(es: Seq<EntryV>, p: Seq<usize>) -> EntryV
    decreases p.len(),
{
    if p.len() == 1 {
        if (p[0] as int) < es.len() {
            es[p[0] as int]
        } else {
            vstd::pervasive::arbitrary()
        }
    } else if p.len() > 1 {
        if (p[0] as int) < es.len() {
            match es[p[0] as int] {
                EntryV::Folder(f) => node_at(f.entries, p.drop_first()),
                EntryV::Note(_) => vstd::pervasive::arbitrary(),
            }
        } else {
            vstd::pervasive::arbitrary()
        }
    } else {
        vstd::pervasive::arbitrary()
    }
}

pub open spec fn is_folder(e: EntryV) -> bool {
    e is Folder
}

pub open spec fn as_folder(e: EntryV) -> FolderV {
    e->Folder_0
}

pub open spec fn child_count(e: EntryV) -> int {
    match e {
        EntryV::Folder(f) => f.entries.len() as int,
        EntryV::Note(_) => 0,
    }
}

pub proof fn lemma_node_at_push(es: Seq<EntryV>, p: Seq<usize>, j: usize)
    requires
        path_valid(es, p),
        is_folder(node_at(es, p)),
        (j as int) < as_folder(node_at(es, p)).entries.len(),
    ensures
        path_valid(es, p.push(j)),
        node_at(es, p.push(j)) == as_folder(node_at(es, p)).entries[j as int],
    decreases p.len(),
{
    let q = p.push(j);
    assert(q.len() == p.len() + 1);
    assert(q[0] == p[0]);
    if p.len() == 1 {
        assert(q.drop_first() =~= seq![j]);
        assert(node_at(es, p) == es[p[0] as int]);
        match es[p[0] as int] {
            EntryV::Folder(f) => {
                assert(path_valid(f.entries, q.drop_first()));
                assert(node_at(f.entries, seq![j]) == f.entries[j as int]);
            },
            EntryV::Note(_) => {
                assert(false);
            },
        }
    } else {
        match es[p[0] as int] {
            EntryV::Folder(f) => {
                assert(q.drop_first() =~= p.drop_first().push(j));
                lemma_node_at_push(f.entries, p.drop_first(), j);
            },
            EntryV::Note(_) => {
                assert(false);
            },
        }
    }
}

/// Whether `a` is a (possibly equal) prefix of `b`.
pub open spec fn is_prefix(a: Seq<usize>, b: Seq<usize>) -> bool {
    a.len() <= b.len() && b.take(a.len() as int) == a
}

pub proof fn lemma_prefix_drop_push(a: Seq<usize>, x: usize, b: Seq<usize>)
    requires
        is_prefix(a.push(x), b),
    ensures
        is_prefix(a, b),
{
    assert(b.take(a.len() as int) =~= b.take(a.len() as int + 1).take(a.len() as int));
    assert(a.push(x).take(a.len() as int) =~= a);
}

pub proof fn lemma_prefix_of_push(a: Seq<usize>, x: usize)
    ensures
        is_prefix(a, a.push(x)),
{
    assert(a.push(x).take(a.len() as int) =~= a);
}

pub proof fn lemma_prefix_same_len(a: Seq<usize>, b: Seq<usize>)
    requires
        is_prefix(a, b),
        a.len() == b.len(),
    ensures
        a == b,
{
    assert(b.take(a.len() as int) =~= b);
}

// ---------------------------------------------------------------------------
// The iterative walk
// ---------------------------------------------------------------------------

struct StackItem<'a> {
    node: &'a EntryKind,
    path: Vec<usize>,
    expanded: Ghost<bool>,
}

/// Mathematical view of one stack slot.
pub struct ItemV {
    pub node: EntryV,
    pub path: Seq<usize>,
    pub exp: bool,
}

spec fn item_view(it: StackItem) -> ItemV {
    ItemV { node: entry_view(*it.node), path: it.path@, exp: it.expanded@ }
}

spec fn stack_view(s: Seq<StackItem>) -> Seq<ItemV> {
    Seq::new(
        s.len(),
        |i: int|
            if 0 <= i < s.len() {
                item_view(s[i])
            } else {
                ItemV { node: EntryV::Note(vstd::pervasive::arbitrary()), path: Seq::empty(), exp: false }
            },
    )
}

/// The events a stack slot still owes: a whole subtree for a slot not yet
/// expanded, only the closing event for an expanded folder.
pub open spec fn item_ev(it: ItemV) -> Seq<EventV> {
    if it.exp {
        match it.node {
            EntryV::Folder(f) => seq![EventV::FolderPost(f)],
            EntryV::Note(_) => Seq::empty(),
        }
    } else {
        entry_events(it.node)
    }
}

/// The events the whole stack still owes, top slot first.
pub open spec fn pending(st: Seq<ItemV>) -> Seq<EventV>
    decreases st.len(),
{
    if st.len() == 0 {
        Seq::empty()
    } else {
        item_ev(st.last()) + pending(st.drop_last())
    }
}

pub proof fn lemma_pending_concat(a: Seq<ItemV>, b: Seq<ItemV>)
    ensures
        pending(a + b) == pending(b) + pending(a),
    decreases b.len(),
{
    if b.len() == 0 {
        assert(a + b =~= a);
        assert(pending(b) + pending(a) =~= pending(a));
    } else {
        assert((a + b).len() > 0);
        assert((a + b).last() == b.last());
        assert((a + b).drop_last() =~= a + b.drop_last());
        lemma_pending_concat(a, b.drop_last());
        assert(pending(a + b) =~= pending(b) + pending(a));
    }
}

pub proof fn lemma_pending_push(st: Seq<ItemV>, it: ItemV)
    ensures
        pending(st.push(it)) == item_ev(it) + pending(st),
{
    assert(st.push(it).last() == it);
    assert(st.push(it).drop_last() =~= st);
}

// Structural well-formedness of the stack with respect to the forest.
spec fn inv_items(es: Seq<EntryV>, sv: Seq<ItemV>) -> bool {
    forall|i: int|
        0 <= i < sv.len() ==> {
            &&& path_valid(es, (#[trigger] sv[i]).path)
            &&& node_at(es, sv[i].path) == sv[i].node
            &&& (sv[i].exp ==> is_folder(sv[i].node) && child_count(sv[i].node) >= 1)
        }
}

// Directly above an expanded folder stands its last child.
spec fn inv_adj(sv: Seq<ItemV>) -> bool {
    forall|i: int|
        0 <= i < sv.len() - 1 && (#[trigger] sv[i]).exp ==> sv[i + 1].path == sv[i].path.push(
            (child_count(sv[i].node) - 1) as usize,
        )
}

// Higher slots lie inside expanded folders and outside unexpanded ones.
spec fn inv_order(sv: Seq<ItemV>) -> bool {
    forall|i: int, j: int|
        0 <= i < j < sv.len() ==> {
            &&& !is_prefix((#[trigger] sv[j]).path, (#[trigger] sv[i]).path)
            &&& (sv[i].exp ==> is_prefix(sv[i].path, sv[j].path) && sv[i].path.len() < sv[j].path.len())
            &&& (!sv[i].exp ==> !is_prefix(sv[i].path, sv[j].path))
        }
}

// What the identity of the most recently completed node may be.
spec fn inv_last(sv: Seq<ItemV>, lv: Option<Seq<usize>>) -> bool {
    &&& (sv.len() > 0 && sv.last().exp ==> lv == Option::Some(
        sv.last().path.push((child_count(sv.last().node) - 1) as usize),
    ))
    &&& match lv {
        Option::None => true,
        Option::Some(q) => forall|i: int|
            0 <= i < sv.len() && !(#[trigger] sv[i]).exp ==> !is_prefix(sv[i].path, q),
    }
}

spec fn lv_view(l: Option<Vec<usize>>) -> Option<Seq<usize>> {
    match l {
        Option::None => Option::None,
        Option::Some(p) => Option::Some(p@),
    }
}

fn clone_path(p: &Vec<usize>) -> (r: Vec<usize>)
    ensures
        r@ == p@,
{
    let mut r: Vec<usize> = Vec::new();
    let mut i: usize = 0;
    while i < p.len()
        invariant
            0 <= i <= p@.len(),
            r@ =~= p@.take(i as int),
        decreases p@.len() - i,
    {
        r.push(p[i]);
        proof {
            assert(p@.take(i as int).push(p@[i as int]) =~= p@.take(i as int + 1));
        }
        i = i + 1;
    }
    proof {
        assert(p@.take(p@.len() as int) =~= p@);
    }
    r
}

// Whether q equals p extended by the child index j.
fn path_is_child(q: &Vec<usize>, p: &Vec<usize>, j: usize) -> (r: bool)
    ensures
        r == (q@ == p@.push(j)),
{
    if q.len() == 0 || q.len() - 1 != p.len() {
        proof {
            assert(p@.push(j).len() == p@.len() + 1);
        }
        return false;
    }
    let mut i: usize = 0;
    while i < p.len()
        invariant
            0 <= i <= p@.len(),
            q@.len() == p@.len() + 1,
            forall|k: int| 0 <= k < i ==> q@[k] == p@[k],
        decreases p@.len() - i,
    {
        if q[i] != p[i] {
            proof {
                assert(p@.push(j)[i as int] == p@[i as int]);
            }
            return false;
        }
        i = i + 1;
    }
    let last = q[p.len()];
    if last != j {
        proof {
            assert(p@.push(j)[p@.len() as int] == j);
        }
        return false;
    }
    proof {
        assert(q@ =~= p@.push(j));
    }
    true
}

// One slot of the children segment an expanding folder pushes: the child at
// index `idx`, not yet expanded.
spec fn child_item(fv: FolderV, p: Seq<usize>, idx: usize) -> ItemV {
    ItemV { node: fv.entries[idx as int], path: p.push(idx), exp: false }
}

// The children segment with children `k..c` still on the stack, deepest
// (last) child first, child `k` topmost.
spec fn child_tail(fv: FolderV, p: Seq<usize>, k: int) -> Seq<ItemV> {
    Seq::new(
        (fv.entries.len() - k) as nat,
        |m: int| child_item(fv, p, (fv.entries.len() - 1 - m) as usize),
    )
}

proof fn lemma_pending_child_tail(fv: FolderV, p: Seq<usize>, k: int)
    requires
        0 <= k <= fv.entries.len(),
        fv.entries.len() <= usize::MAX,
    ensures
        pending(child_tail(fv, p, k)) == entries_events(fv.entries.skip(k)),
    decreases fv.entries.len() - k,
{
    let c = fv.entries.len() as int;
    if k == c {
        assert(child_tail(fv, p, k) =~= Seq::<ItemV>::empty());
        assert(fv.entries.skip(k) =~= Seq::<EntryV>::empty());
        assert(pending(Seq::<ItemV>::empty()) =~= Seq::<EventV>::empty());
        assert(entries_events(Seq::<EntryV>::empty()) =~= Seq::<EventV>::empty());
    } else {
        let t = child_tail(fv, p, k);
        assert(t.len() == c - k);
        assert(t.last() == child_item(fv, p, k as usize));
        assert(t.drop_last() =~= child_tail(fv, p, k + 1));
        lemma_pending_child_tail(fv, p, k + 1);
        assert(item_ev(child_item(fv, p, k as usize)) == entry_events(fv.entries[k]));
        lemma_entries_events_skip(fv.entries, k);
    }
}

proof fn lemma_stack_view_push<'a>(s: Seq<StackItem<'a>>, it: StackItem<'a>)
    ensures
        stack_view(s.push(it)) =~= stack_view(s).push(item_view(it)),
{
}

proof fn lemma_events_view_push(s: Seq<Event>, e: Event)
    ensures
        events_view(s.push(e)) =~= events_view(s).push(e@),
{
}

// a + ([e] + r) == t entails a.push(e) + r == t.
proof fn lemma_step_eq(a: Seq<EventV>, e: EventV, r: Seq<EventV>, t: Seq<EventV>)
    requires
        a + (seq![e] + r) == t,
    ensures
        a.push(e) + r == t,
{
    assert(a.push(e) + r =~= a + (seq![e] + r));
}

// a + (([e1] + m + [e2]) + r) == t entails a.push(e1) + (m + ([e2] + r)) == t.
proof fn lemma_expand_step_eq(
    a: Seq<EventV>,
    e1: EventV,
    m: Seq<EventV>,
    e2: EventV,
    r: Seq<EventV>,
    t: Seq<EventV>,
)
    requires
        a + ((seq![e1] + m + seq![e2]) + r) == t,
    ensures
        a.push(e1) + (m + (seq![e2] + r)) == t,
{
    assert(a.push(e1) + (m + (seq![e2] + r)) =~= a + ((seq![e1] + m + seq![e2]) + r));
}

/// The full event sequence of the iterative walk over `hl`, equal to the
/// recursively specified document order.
proof fn lemma_item_ev_note(it: ItemV, nv: NoteV)
    requires
        it.node == EntryV::Note(nv),
        !it.exp,
    ensures
        item_ev(it) == seq![EventV::Note(nv)],
{
}

proof fn lemma_item_ev_empty(it: ItemV, fv: FolderV)
    requires
        it.node == EntryV::Folder(fv),
        fv.entries.len() == 0,
        !it.exp,
    ensures
        item_ev(it) == seq![EventV::FolderEmpty(fv)],
{
}

proof fn lemma_item_ev_post(it: ItemV, fv: FolderV)
    requires
        it.node == EntryV::Folder(fv),
        it.exp,
    ensures
        item_ev(it) == seq![EventV::FolderPost(fv)],
{
}

// The identity check: the folder on top has been returned to exactly when
// the most recently completed node is its last child.
#[verifier::rlimit(100)]
fn top_is_returned<'a>(
    stack: &Vec<StackItem<'a>>,
    last_visited: &Option<Vec<usize>>,
    c: usize,
    Ghost(es): Ghost<Seq<EntryV>>,
    Ghost(fv): Ghost<FolderV>,
)  -> (r: bool)
    requires
        stack@.len() > 0,
        inv_items(es, stack_view(stack@)),
        inv_last(stack_view(stack@), lv_view(*last_visited)),
        stack_view(stack@).last().node == EntryV::Folder(fv),
        c == fv.entries.len(),
        c >= 1,
    ensures
        r == stack_view(stack@).last().exp,
{
    let top_idx = stack.len() - 1;
    let r = match last_visited {
        Option::None => false,
        Option::Some(q) => path_is_child(q, &stack[top_idx].path, c - 1),
    };
    proof {
        let sv = stack_view(stack@);
        let top = sv.last();
        assert(top == item_view(stack@[top_idx as int]));
        assert(top.path == stack@[top_idx as int].path@);
        assert(child_count(top.node) == c);
        if top.exp {
            assert(lv_view(*last_visited) == Option::Some(top.path.push((c - 1) as usize)));
            assert(r);
        } else {
            if r {
                let q = lv_view(*last_visited)->0;
                assert(q == top.path.push((c - 1) as usize));
                lemma_prefix_of_push(top.path, (c - 1) as usize);
                assert(!is_prefix(top.path, q));
                assert(false);
            }
        }
    }
    r
}

// Pops the completed top slot, records `ev` for it, and makes its path the
// most recently completed identity.
#[verifier::rlimit(100)]
fn complete_top<'a>(
    stack: &mut Vec<StackItem<'a>>,
    events: &mut Vec<Event<'a>>,
    last_visited: &mut Option<Vec<usize>>,
    ev: Event<'a>,
    Ghost(es): Ghost<Seq<EntryV>>,
    Ghost(t): Ghost<Seq<EventV>>,
)
    requires
        old(stack)@.len() > 0,
        inv_items(es, stack_view(old(stack)@)),
        inv_adj(stack_view(old(stack)@)),
        inv_order(stack_view(old(stack)@)),
        item_ev(stack_view(old(stack)@).last()) == seq![ev@],
        events_view(old(events)@) + pending(stack_view(old(stack)@)) == t,
    ensures
        final(events)@ == old(events)@.push(ev),
        inv_items(es, stack_view(final(stack)@)),
        inv_adj(stack_view(final(stack)@)),
        inv_order(stack_view(final(stack)@)),
        inv_last(stack_view(final(stack)@), lv_view(*final(last_visited))),
        events_view(final(events)@) + pending(stack_view(final(stack)@)) == t,
        final(events)@.len() == old(events)@.len() + 1,
        final(stack)@.len() == old(stack)@.len() - 1,
{
    let ghost sv0 = stack_view(old(stack)@);
    let ghost ev0 = old(events)@;
    events.push(ev);
    let it = stack.pop().unwrap();
    proof {
        let popped = sv0.last();
        let rest = sv0.drop_last();
        assert(stack@ =~= old(stack)@.drop_last());
        assert(stack_view(stack@) =~= rest);
        assert(pending(sv0) == item_ev(popped) + pending(rest));
        lemma_events_view_push(ev0, ev);
        lemma_step_eq(events_view(ev0), ev@, pending(rest), t);
        assert(it.path@ == popped.path);
        complete_pop_invariants(es, sv0, popped.path);
    }
    *last_visited = Option::Some(it.path);
}

// Replaces the unexpanded folder on top by its expanded form, pushes its
// children above it (first child topmost), and records the opening event.
#[verifier::rlimit(100)]
fn expand_top<'a>(
    stack: &mut Vec<StackItem<'a>>,
    events: &mut Vec<Event<'a>>,
    ff: &'a Folder,
    Ghost(es): Ghost<Seq<EntryV>>,
    Ghost(lv0): Ghost<Option<Seq<usize>>>,
    Ghost(t): Ghost<Seq<EventV>>,
)
    requires
        old(stack)@.len() > 0,
        inv_items(es, stack_view(old(stack)@)),
        inv_adj(stack_view(old(stack)@)),
        inv_order(stack_view(old(stack)@)),
        inv_last(stack_view(old(stack)@), lv0),
        stack_view(old(stack)@).last().node == EntryV::Folder(crate::ast::folder_view(*ff)),
        !stack_view(old(stack)@).last().exp,
        ff.entries@.len() >= 1,
        events_view(old(events)@) + pending(stack_view(old(stack)@)) == t,
    ensures
        inv_items(es, stack_view(final(stack)@)),
        inv_adj(stack_view(final(stack)@)),
        inv_order(stack_view(final(stack)@)),
        inv_last(stack_view(final(stack)@), lv0),
        events_view(final(events)@) + pending(stack_view(final(stack)@)) == t,
        final(events)@.len() == old(events)@.len() + 1,
{
    let ghost sv0 = stack_view(old(stack)@);
    let ghost ev0 = old(events)@;
    let ghost fv = crate::ast::folder_view(*ff);
    let c = ff.entries.len();
    proof {
        assert(fv.entries.len() == ff.entries@.len());
    }
    events.push(Event::FolderPre(ff));
    let it = stack.pop().unwrap();
    let StackItem { node: tnode, path, expanded: _ } = it;
    let ghost p = path@;
    let ghost rest = sv0.drop_last();
    let ghost expitem = ItemV { node: EntryV::Folder(fv), path: p, exp: true };
    let ppath = clone_path(&path);
    proof {
        assert(stack@ =~= old(stack)@.drop_last());
        assert(stack_view(stack@) =~= rest);
        assert(p == sv0.last().path);
        lemma_stack_view_push(
            stack@,
            StackItem { node: tnode, path: path, expanded: Ghost(true) },
        );
    }
    stack.push(StackItem { node: tnode, path, expanded: Ghost(true) });
    let ghost base = stack_view(stack@);
    proof {
        assert(base =~= rest.push(expitem));
        assert(child_tail(fv, p, c as int) =~= Seq::<ItemV>::empty());
        assert(stack_view(stack@) =~= base + child_tail(fv, p, c as int));
    }
    let mut k: usize = c;
    while k > 0
        invariant
            0 <= k <= c,
            c == ff.entries@.len(),
            fv == crate::ast::folder_view(*ff),
            ppath@ == p,
            stack_view(stack@) =~= base + child_tail(fv, p, k as int),
        decreases k,
    {
        k = k - 1;
        let mut cp = clone_path(&ppath);
        cp.push(k);
        let ci = StackItem { node: &ff.entries[k], path: cp, expanded: Ghost(false) };
        proof {
            assert(cp@ =~= p.push(k));
            assert(entry_view(ff.entries@[k as int]) == fv.entries[k as int]);
            assert(item_view(ci) == child_item(fv, p, k));
            lemma_stack_view_push(stack@, ci);
            assert(child_tail(fv, p, k as int) =~= child_tail(fv, p, k as int + 1).push(
                child_item(fv, p, k),
            ));
        }
        stack.push(ci);
    }
    proof {
        let sv1 = stack_view(stack@);
        assert(sv1 =~= base + child_tail(fv, p, 0));
        lemma_events_view_push(ev0, Event::FolderPre(ff));
        expand_invariants(es, sv0, lv0, fv, p, sv1);
        lemma_pending_concat(base, child_tail(fv, p, 0));
        lemma_pending_child_tail(fv, p, 0);
        lemma_pending_push(rest, expitem);
        assert(fv.entries.skip(0) =~= fv.entries);
        assert(item_ev(expitem) =~= seq![EventV::FolderPost(fv)]);
        assert(item_ev(sv0.last()) =~= seq![EventV::FolderPre(fv)] + entries_events(fv.entries)
            + seq![EventV::FolderPost(fv)]);
        lemma_expand_step_eq(
            events_view(ev0),
            EventV::FolderPre(fv),
            entries_events(fv.entries),
            EventV::FolderPost(fv),
            pending(rest),
            t,
        );
        assert(pending(sv1) == entries_events(fv.entries) + (seq![EventV::FolderPost(fv)]
            + pending(rest)));
        assert(events_view(events@) + pending(sv1) == t);
    }
}

/// The full event sequence of the iterative walk over `hl`, equal to the
/// recursively specified document order.
#[verifier::rlimit(100)]
pub fn traversal_events<'a>(hl: &'a Hotlist) -> (r: Vec<Event<'a>>)
    ensures
        events_view(r@) == spec_traversal(hl@),
{
    let ghost es: Seq<EntryV> = hl@.entries;
    let ghost t: Seq<EventV> = seq![EventV::RootPre] + entries_events(es);
    let mut events: Vec<Event<'a>> = Vec::new();
    events.push(Event::RootPre);
    proof {
        assert(events_view(events@) =~= seq![EventV::RootPre]);
    }

    let mut stack: Vec<StackItem<'a>> = Vec::new();
    let n = hl.entries.len();
    proof {
        assert(es.len() == n);
        assert(stack_view(stack@) =~= Seq::<ItemV>::empty());
        assert(pending(Seq::<ItemV>::empty()) =~= Seq::<EventV>::empty());
        assert(es.skip(n as int) =~= Seq::<EntryV>::empty());
        assert(entries_events(Seq::<EntryV>::empty()) =~= Seq::<EventV>::empty());
    }
    let mut j: usize = n;
    while j > 0
        invariant
            es == hl@.entries,
            n == hl.entries@.len(),
            es.len() == n,
            0 <= j <= n,
            stack@.len() == n - j,
            forall|i: int|
                0 <= i < stack@.len() ==> {
                    &&& (#[trigger] stack_view(stack@)[i]).path == seq![(n - 1 - i) as usize]
                    &&& !stack_view(stack@)[i].exp
                    &&& stack_view(stack@)[i].node == es[n - 1 - i]
                },
            pending(stack_view(stack@)) == entries_events(es.skip(j as int)),
        decreases j,
    {
        j = j - 1;
        let mut p: Vec<usize> = Vec::new();
        p.push(j);
        let it = StackItem { node: &hl.entries[j], path: p, expanded: Ghost(false) };
        proof {
            assert(p@ =~= seq![j]);
            assert(item_view(it).node == es[j as int]);
            lemma_pending_push(stack_view(stack@), item_view(it));
            lemma_stack_view_push(stack@, it);
            assert(item_ev(item_view(it)) == entry_events(es[j as int]));
            lemma_entries_events_skip(es, j as int);
        }
        stack.push(it);
    }
    proof {
        let sv = stack_view(stack@);
        assert(es.skip(0) =~= es);
        assert(inv_items(es, sv)) by {
            assert forall|i: int| 0 <= i < sv.len() implies {
                &&& path_valid(es, (#[trigger] sv[i]).path)
                &&& node_at(es, sv[i].path) == sv[i].node
                &&& (sv[i].exp ==> is_folder(sv[i].node) && child_count(sv[i].node) >= 1)
            } by {
                assert(sv[i].path == seq![(n - 1 - i) as usize]);
                assert(sv[i].path.len() == 1);
                assert((sv[i].path[0] as int) == n - 1 - i < es.len());
            }
        }
        assert(inv_adj(sv));
        assert(inv_order(sv)) by {
            assert forall|i: int, j2: int| 0 <= i < j2 < sv.len() implies {
                &&& !is_prefix((#[trigger] sv[j2]).path, (#[trigger] sv[i]).path)
                &&& (sv[i].exp ==> is_prefix(sv[i].path, sv[j2].path) && sv[i].path.len()
                    < sv[j2].path.len())
                &&& (!sv[i].exp ==> !is_prefix(sv[i].path, sv[j2].path))
            } by {
                assert(sv[i].path == seq![(n - 1 - i) as usize]);
                assert(sv[j2].path == seq![(n - 1 - j2) as usize]);
                if is_prefix(sv[j2].path, sv[i].path) {
                    lemma_prefix_same_len(sv[j2].path, sv[i].path);
                }
                if is_prefix(sv[i].path, sv[j2].path) {
                    lemma_prefix_same_len(sv[i].path, sv[j2].path);
                }
            }
        }
    }

    let mut last_visited: Option<Vec<usize>> = Option::None;
    while stack.len() > 0
        invariant
            es == hl@.entries,
            t == seq![EventV::RootPre] + entries_events(es),
            inv_items(es, stack_view(stack@)),
            inv_adj(stack_view(stack@)),
            inv_order(stack_view(stack@)),
            inv_last(stack_view(stack@), lv_view(last_visited)),
            events_view(events@) + pending(stack_view(stack@)) == t,
        decreases t.len() - events@.len(),
    {
        let ghost sv0 = stack_view(stack@);
        let ghost lv0 = lv_view(last_visited);
        let top_idx = stack.len() - 1;
        let node = stack[top_idx].node;
        proof {
            assert(sv0.last() == item_view(stack@[top_idx as int]));
            assert(sv0.last().node == entry_view(*node));
            assert(pending(sv0) == item_ev(sv0.last()) + pending(sv0.drop_last()));
            lemma_entry_events_len(sv0.last().node);
            assert(events@.len() + pending(sv0).len() == t.len());
        }
        match node {
            EntryKind::Note(nn) => {
                proof {
                    assert(!sv0.last().exp);
                    lemma_item_ev_note(sv0.last(), nn@);
                }
                complete_top(
                    &mut stack,
                    &mut events,
                    &mut last_visited,
                    Event::Note(nn),
                    Ghost(es),
                    Ghost(t),
                );
            },
            EntryKind::Folder(ff) => {
                let ghost fv = crate::ast::folder_view(*ff);
                proof {
                    assert(sv0.last().node == EntryV::Folder(fv));
                    assert(child_count(sv0.last().node) == fv.entries.len());
                    assert(fv.entries.len() == ff.entries@.len());
                }
                let c = ff.entries.len();
                if c == 0 {
                    proof {
                        assert(!sv0.last().exp);
                        lemma_item_ev_empty(sv0.last(), fv);
                    }
                    complete_top(
                        &mut stack,
                        &mut events,
                        &mut last_visited,
                        Event::FolderEmpty(ff),
                        Ghost(es),
                        Ghost(t),
                    );
                } else {
                    let is_return = top_is_returned(&stack, &last_visited, c, Ghost(es), Ghost(fv));
                    if is_return {
                        proof {
                            lemma_item_ev_post(sv0.last(), fv);
                        }
                        complete_top(
                            &mut stack,
                            &mut events,
                            &mut last_visited,
                            Event::FolderPost(ff),
                            Ghost(es),
                            Ghost(t),
                        );
                    } else {
                        expand_top(&mut stack, &mut events, ff, Ghost(es), Ghost(lv0), Ghost(t));
                    }
                }
            },
        }
    }
    events.push(Event::RootPost);
    proof {
        assert(stack_view(stack@) =~= Seq::<ItemV>::empty());
        assert(pending(Seq::<ItemV>::empty()) =~= Seq::<EventV>::empty());
        assert(events_view(events@.drop_last()) + Seq::<EventV>::empty() == t);
        assert(events_view(events@.drop_last()) == t);
        lemma_events_view_push(events@.drop_last(), Event::RootPost);
        assert(events@.drop_last().push(Event::RootPost) =~= events@);
        assert(events_view(events@) =~= t + seq![EventV::RootPost]);
        assert(t + seq![EventV::RootPost] =~= spec_traversal(hl@));
    }
    events
}

/// The six-operation visitation contract a renderer supplies.  The engine
/// invokes each operation at the matching event of the document-order walk;
/// the first failure aborts the walk.
pub trait Visitor {
    type E;

    fn visit_folder_empty(&mut self, folder: &Folder) -> Result<(), Self::E>;

    fn visit_folder_pre(&mut self, folder: &Folder) -> Result<(), Self::E>;

    fn visit_folder_post(&mut self, folder: &Folder) -> Result<(), Self::E>;

    fn visit_note(&mut self, note: &Note) -> Result<(), Self::E>;

    fn visit_root_pre(&mut self, hotlist: &Hotlist) -> Result<(), Self::E>;

    fn visit_root_post(&mut self, hotlist: &Hotlist) -> Result<(), Self::E>;
}

/// Drives `visitor` over `hl` in document order.
///
/// The operations are invoked in exactly the order `spec_traversal(hl@)`
/// gives, one event per node (a pre/post pair for a non-empty folder); the
/// first visitor failure aborts the walk at once and is returned to the
/// caller unchanged.
pub fn traverse_hotlist<V: Visitor>(hl: &Hotlist, visitor: &mut V) -> (r: Result<(), V::E>) {
    let events = traversal_events(hl);
    let mut i: usize = 0;
    while i < events.len()
        invariant
            0 <= i <= events@.len(),
        decreases events@.len() - i,
    {
        let step = match events[i] {
            Event::RootPre => visitor.visit_root_pre(hl),
            Event::RootPost => visitor.visit_root_post(hl),
            Event::FolderPre(f) => visitor.visit_folder_pre(f),
            Event::FolderPost(f) => visitor.visit_folder_post(f),
            Event::FolderEmpty(f) => visitor.visit_folder_empty(f),
            Event::Note(n) => visitor.visit_note(n),
        };
        match step {
            Result::Ok(_) => {},
            Result::Err(e) => {
                return Result::Err(e);
            },
        }
        i = i + 1;
    }
    Result::Ok(())
}

// Re-establishes every loop invariant after a completed top slot is popped
// and its path becomes the most recently completed identity.
proof fn complete_pop_invariants(es: Seq<EntryV>, sv0: Seq<ItemV>, q: Seq<usize>)
    requires
        sv0.len() > 0,
        inv_items(es, sv0),
        inv_adj(sv0),
        inv_order(sv0),
        q == sv0.last().path,
    ensures
        inv_items(es, sv0.drop_last()),
        inv_adj(sv0.drop_last()),
        inv_order(sv0.drop_last()),
        inv_last(sv0.drop_last(), Option::Some(q)),
{
    let rest = sv0.drop_last();
    assert(inv_items(es, rest)) by {
        assert(forall|i: int| 0 <= i < rest.len() ==> rest[i] == sv0[i]);
    }
    assert(inv_adj(rest)) by {
        assert(forall|i: int|
            0 <= i < rest.len() - 1 ==> #[trigger] rest[i] == sv0[i] && rest[i + 1] == sv0[i + 1]);
    }
    assert(inv_order(rest)) by {
        assert(forall|i: int, j: int|
            0 <= i < j < rest.len() ==> rest[i] == sv0[i] && rest[j] == sv0[j]);
    }
    assert(inv_last(rest, Option::Some(q))) by {
        if rest.len() > 0 && rest.last().exp {
            assert(rest.last() == sv0[sv0.len() - 2]);
            assert(sv0[sv0.len() - 2].exp);
            assert(sv0[sv0.len() - 1].path == sv0[sv0.len() - 2].path.push(
                (child_count(sv0[sv0.len() - 2].node) - 1) as usize,
            ));
        }
        assert forall|i: int| 0 <= i < rest.len() && !(#[trigger] rest[i]).exp implies !is_prefix(
            rest[i].path,
            q,
        ) by {
            assert(rest[i] == sv0[i]);
            assert(!is_prefix(sv0[i].path, sv0[sv0.len() - 1].path));
        }
    }
}

// Re-establishes every loop invariant after an unexpanded folder on top is
// replaced by its expanded form with its children pushed above it.
#[verifier::rlimit(100)]
proof fn expand_invariants(
    es: Seq<EntryV>,
    sv0: Seq<ItemV>,
    lv0: Option<Seq<usize>>,
    fv: FolderV,
    p: Seq<usize>,
    sv1: Seq<ItemV>,
)
    requires
        sv0.len() > 0,
        inv_items(es, sv0),
        inv_adj(sv0),
        inv_order(sv0),
        inv_last(sv0, lv0),
        sv0.last().node == EntryV::Folder(fv),
        !sv0.last().exp,
        sv0.last().path == p,
        fv.entries.len() >= 1,
        fv.entries.len() <= usize::MAX,
        sv1 == sv0.drop_last().push(
            ItemV { node: EntryV::Folder(fv), path: p, exp: true },
        ) + child_tail(fv, p, 0),
    ensures
        inv_items(es, sv1),
        inv_adj(sv1),
        inv_order(sv1),
        inv_last(sv1, lv0),
{
    let rest = sv0.drop_last();
    let b = rest.len() as int;
    let c = fv.entries.len() as int;
    let expitem = ItemV { node: EntryV::Folder(fv), path: p, exp: true };
    assert(sv1.len() == b + 1 + c);
    assert(forall|i: int| 0 <= i < b ==> #[trigger] sv1[i] == sv0[i]);
    assert(sv1[b] == expitem);
    assert(forall|m: int| 0 <= m < c ==> #[trigger] sv1[b + 1 + m] == child_item(
        fv,
        p,
        (c - 1 - m) as usize,
    ));
    // index path of the child standing at stack slot b + 1 + m
    let cidx = |m: int| (c - 1 - m) as usize;
    assert(path_valid(es, p));
    assert(node_at(es, p) == EntryV::Folder(fv));
    assert(is_folder(EntryV::Folder(fv)));
    assert(as_folder(EntryV::Folder(fv)) == fv);

    assert(inv_items(es, sv1)) by {
        assert forall|i: int| 0 <= i < sv1.len() implies {
            &&& path_valid(es, (#[trigger] sv1[i]).path)
            &&& node_at(es, sv1[i].path) == sv1[i].node
            &&& (sv1[i].exp ==> is_folder(sv1[i].node) && child_count(sv1[i].node) >= 1)
        } by {
            if i < b {
                assert(sv1[i] == sv0[i]);
            } else if i == b {
                assert(sv1[i] == expitem);
                assert(node_at(es, p) == EntryV::Folder(fv));
            } else {
                let m = i - b - 1;
                assert(sv1[i] == child_item(fv, p, cidx(m)));
                lemma_node_at_push(es, p, cidx(m));
            }
        }
    }
    assert(inv_adj(sv1)) by {
        assert forall|i: int| 0 <= i < sv1.len() - 1 && (#[trigger] sv1[i]).exp implies sv1[i
            + 1].path == sv1[i].path.push((child_count(sv1[i].node) - 1) as usize) by {
            if i < b - 1 {
                assert(sv1[i] == sv0[i]);
                assert(sv1[i + 1] == sv0[i + 1]);
            } else if i == b - 1 {
                assert(sv1[i] == sv0[i]);
                assert(sv0[i].exp);
                assert(sv0[i + 1].path == sv0[i].path.push(
                    (child_count(sv0[i].node) - 1) as usize,
                ));
                assert(sv0[i + 1] == sv0.last());
                assert(sv1[i + 1].path == p);
            } else if i == b {
                assert(sv1[i] == expitem);
                assert(sv1[i + 1] == child_item(fv, p, cidx(0)));
                assert(sv1[i + 1].path == p.push((c - 1) as usize));
            } else {
                let m = i - b - 1;
                assert(sv1[i] == child_item(fv, p, cidx(m)));
                assert(!sv1[i].exp);
            }
        }
    }
    assert(inv_order(sv1)) by {
        assert forall|i: int, j: int| 0 <= i < j < sv1.len() implies {
            &&& !is_prefix((#[trigger] sv1[j]).path, (#[trigger] sv1[i]).path)
            &&& (sv1[i].exp ==> is_prefix(sv1[i].path, sv1[j].path) && sv1[i].path.len()
                < sv1[j].path.len())
            &&& (!sv1[i].exp ==> !is_prefix(sv1[i].path, sv1[j].path))
        } by {
            let last = sv0.len() - 1;
            if j < b {
                assert(sv1[i] == sv0[i] && sv1[j] == sv0[j]);
            } else if j == b {
                assert(sv1[i] == sv0[i]);
                assert(sv1[j].path == sv0[last].path && sv1[j].exp);
                assert(!is_prefix(sv0[last].path, sv0[i].path));
                assert(sv0[i].exp ==> is_prefix(sv0[i].path, sv0[last].path) && sv0[i].path.len()
                    < sv0[last].path.len());
                assert(!sv0[i].exp ==> !is_prefix(sv0[i].path, sv0[last].path));
            } else if i < b {
                // old slot against a new child
                let m = j - b - 1;
                let cp = p.push(cidx(m));
                assert(sv1[j] == child_item(fv, p, cidx(m)));
                assert(sv1[i] == sv0[i]);
                assert(!is_prefix(p, sv0[i].path));
                if is_prefix(cp, sv0[i].path) {
                    lemma_prefix_drop_push(p, cidx(m), sv0[i].path);
                }
                if sv0[i].exp {
                    assert(is_prefix(sv0[i].path, p) && sv0[i].path.len() < p.len());
                    assert(p.push(cidx(m)).take(sv0[i].path.len() as int) =~= p.take(
                        sv0[i].path.len() as int,
                    ));
                    assert(is_prefix(sv0[i].path, cp));
                } else {
                    assert(!is_prefix(sv0[i].path, p));
                    if is_prefix(sv0[i].path, cp) {
                        if sv0[i].path.len() <= p.len() {
                            assert(cp.take(sv0[i].path.len() as int) =~= p.take(
                                sv0[i].path.len() as int,
                            ));
                            assert(is_prefix(sv0[i].path, p));
                            assert(false);
                        } else {
                            assert(sv0[i].path.len() == p.len() + 1);
                            lemma_prefix_same_len(sv0[i].path, cp);
                            assert(sv0[i].path == cp);
                            lemma_prefix_of_push(p, cidx(m));
                            assert(is_prefix(p, sv0[i].path));
                            assert(false);
                        }
                    }
                }
            } else if i == b {
                // the expanded folder against one of its children
                let m = j - b - 1;
                let cp = p.push(cidx(m));
                assert(sv1[j] == child_item(fv, p, cidx(m)));
                lemma_prefix_of_push(p, cidx(m));
                assert(cp.len() > p.len());
                assert(!is_prefix(cp, p));
            } else {
                // two children
                let mi = i - b - 1;
                let mj = j - b - 1;
                let cpi = p.push(cidx(mi));
                let cpj = p.push(cidx(mj));
                assert(sv1[i] == child_item(fv, p, cidx(mi)));
                assert(sv1[j] == child_item(fv, p, cidx(mj)));
                assert(cidx(mi) != cidx(mj));
                assert(cpi[p.len() as int] != cpj[p.len() as int]);
                if is_prefix(cpi, cpj) {
                    lemma_prefix_same_len(cpi, cpj);
                }
                if is_prefix(cpj, cpi) {
                    lemma_prefix_same_len(cpj, cpi);
                }
                assert(!sv1[i].exp);
            }
        }
    }
    assert(inv_last(sv1, lv0)) by {
        assert(sv1.last() == child_item(fv, p, cidx(c - 1)));
        assert(!sv1.last().exp);
        match lv0 {
            Option::None => {},
            Option::Some(q) => {
                assert(!is_prefix(p, q));
                assert forall|i: int| 0 <= i < sv1.len() && !(#[trigger] sv1[i]).exp
                    implies !is_prefix(sv1[i].path, q) by {
                    if i < b {
                        assert(sv1[i] == sv0[i]);
                    } else if i == b {
                        assert(sv1[i].exp);
                    } else {
                        let m = i - b - 1;
                        assert(sv1[i] == child_item(fv, p, cidx(m)));
                        if is_prefix(p.push(cidx(m)), q) {
                            lemma_prefix_drop_push(p, cidx(m), q);
                        }
                    }
                }
            },
        }
    }
}

} // verus!
