//! The traversal engine: a breadth-first walk of a directory tree, bounded
//! by a maximum depth, filtered by entry kind and by a name pattern.
//!
//! The engine owns every decision of the walk but performs no filesystem
//! access itself. A driver repeatedly asks for the front of the queue
//! (`front`), looks the entry up, and calls `step` with what it found:
//! `meta` is `Some(is_directory)` when metadata could be read, `None` when
//! it could not; `children` holds the names listed in the entry when the
//! engine asked for them through `wants_children`. `step` answers with the
//! path to report, if the entry matched.

use std::collections::VecDeque;
use vstd::prelude::*;
use crate::matcher::{Pattern, compile, pattern_matches, regex_ok, regex_match};
use crate::paths::{base_name, base_name_spec, join_path, join_spec};

verus! {

/// Which kinds of entry are reported.
#[derive(Clone, Copy, Debug, PartialEq, Eq, Structural)]
pub enum EntryType {
    All,
    File,
    Directory,
}

/// Whether an entry of the given kind passes the filter.
pub open spec fn type_matches_spec(filter: EntryType, is_dir: bool) -> bool {
    match filter {
        EntryType::All => true,
        EntryType::File => !is_dir,
        EntryType::Directory => is_dir,
    }
}

/// Decides whether an entry of the given kind passes the filter.
pub fn type_matches(filter: EntryType, is_dir: bool) -> (r: bool)
    ensures
        r == type_matches_spec(filter, is_dir),
{
    match filter {
        EntryType::All => true,
        EntryType::File => !is_dir,
        EntryType::Directory => is_dir,
    }
}

/// One frontier item: a path and its distance from the start path.
#[verifier::ext_equal]
pub ghost struct ItemV {
    pub path: Seq<char>,
    pub depth: nat,
}

/// One reported match, together with what was known of the entry when it
/// was reported.
#[verifier::ext_equal]
pub ghost struct EmitRec {
    pub path: Seq<char>,
    pub depth: nat,
    pub is_dir: bool,
}

/// The whole state of a search: the queue of frontier items still to
/// visit, the fixed parameters, and the history of reported matches.
#[verifier::ext_equal]
pub ghost struct SearchState {
    pub queue: Seq<ItemV>,
    pub max_depth: nat,
    pub filter: EntryType,
    pub pattern: Seq<char>,
    pub emitted: Seq<EmitRec>,
}

/// What a driver observed of one frontier entry: its metadata, if readable,
/// and the names listed in it, if it was listed.
#[verifier::ext_equal]
pub ghost struct Event {
    pub meta: Option<bool>,
    pub children: Seq<Seq<char>>,
}

/// The state a search starts from: the start path alone, at depth zero.
pub open spec fn init_state(
    start: Seq<char>,
    pattern: Seq<char>,
    max_depth: nat,
    filter: EntryType,
) -> SearchState {
    SearchState {
        queue: seq![ItemV { path: start, depth: 0 }],
        max_depth,
        filter,
        pattern,
        emitted: Seq::empty(),
    }
}

/// The path reported by one step: the front entry, when metadata was
/// readable, the entry is within the depth bound, its kind passes the
/// filter, and its base name matches the pattern.
pub open spec fn step_emit(s: SearchState, meta: Option<bool>) -> Option<Seq<char>> {
    match meta {
        Some(is_dir) => {
            if s.queue.len() > 0 && s.queue.first().depth <= s.max_depth && type_matches_spec(
                s.filter,
                is_dir,
            ) && regex_match(s.pattern, base_name_spec(s.queue.first().path)) {
                Some(s.queue.first().path)
            } else {
                None
            }
        },
        None => None,
    }
}

/// The state after one step: the front entry leaves the queue; when it is a
/// directory strictly below the depth bound, its children join the back of
/// the queue one level deeper; a reported match joins the emission history.
pub open spec fn step_state(s: SearchState, meta: Option<bool>, kids: Seq<Seq<char>>) -> SearchState {
    if s.queue.len() == 0 {
        s
    } else {
        let front = s.queue.first();
        let rest = s.queue.drop_first();
        if front.depth > s.max_depth {
            SearchState { queue: rest, ..s }
        } else {
            match meta {
                None => SearchState { queue: rest, ..s },
                Some(is_dir) => {
                    let emitted = if type_matches_spec(s.filter, is_dir) && regex_match(
                        s.pattern,
                        base_name_spec(front.path),
                    ) {
                        s.emitted.push(
                            EmitRec { path: front.path, depth: front.depth, is_dir },
                        )
                    } else {
                        s.emitted
                    };
                    let queue = if is_dir && front.depth < s.max_depth {
                        rest + kids.map_values(
                            |name: Seq<char>|
                                ItemV {
                                    path: join_spec(front.path, name),
                                    depth: (front.depth + 1) as nat,
                                },
                        )
                    } else {
                        rest
                    };
                    SearchState { queue, emitted, ..s }
                },
            }
        }
    }
}

/// The invariant every reachable search state keeps: queued depths never
/// pass the bound and never decrease along the queue, the back of the queue
/// is at most one level below its front, reported matches appear in
/// never-decreasing depth order, within the bound, of the kind the filter
/// asks for, and never deeper than what is still queued.
pub open spec fn wf_state(s: SearchState) -> bool {
    &&& forall|i: int| 0 <= i < s.queue.len() ==> (#[trigger] s.queue[i]).depth <= s.max_depth
    &&& forall|i: int, j: int|
        0 <= i <= j < s.queue.len() ==> (#[trigger] s.queue[i]).depth <= (
        #[trigger] s.queue[j]).depth
    &&& s.queue.len() > 0 ==> s.queue.last().depth <= s.queue.first().depth + 1
    &&& forall|i: int| 0 <= i < s.emitted.len() ==> (#[trigger] s.emitted[i]).depth <= s.max_depth
    &&& forall|i: int, j: int|
        0 <= i <= j < s.emitted.len() ==> (#[trigger] s.emitted[i]).depth <= (
        #[trigger] s.emitted[j]).depth
    &&& forall|i: int|
        0 <= i < s.emitted.len() ==> type_matches_spec(s.filter, (#[trigger] s.emitted[i]).is_dir)
    &&& s.queue.len() > 0 && s.emitted.len() > 0 ==> s.emitted.last().depth
        <= s.queue.first().depth
}

/// One step keeps the invariant.
pub proof fn lemma_step_preserves_wf(s: SearchState, meta: Option<bool>, kids: Seq<Seq<char>>)
    requires
        wf_state(s),
    ensures
        wf_state(step_state(s, meta, kids)),
{
    if s.queue.len() > 0 {
        let front = s.queue.first();
        let rest = s.queue.drop_first();
        assert(forall|i: int|
            0 <= i < rest.len() ==> (#[trigger] rest[i]) == s.queue[i + 1]);
        let post = step_state(s, meta, kids);
        if front.depth <= s.max_depth && meta is Some {
            let is_dir = meta->Some_0;
            if is_dir && front.depth < s.max_depth {
                let added = kids.map_values(
                    |name: Seq<char>|
                        ItemV {
                            path: join_spec(front.path, name),
                            depth: (front.depth + 1) as nat,
                        },
                );
                assert(forall|i: int|
                    0 <= i < added.len() ==> (#[trigger] added[i]).depth == front.depth + 1);
                assert(forall|i: int|
                    0 <= i < post.queue.len() ==> (#[trigger] post.queue[i]) == (
                    if i < rest.len() {
                        rest[i]
                    } else {
                        added[i - rest.len()]
                    }));
            }
        }
    }
}

/// A whole search, as a fold of `step_state` over the stream of events the
/// driver observes: the search starts from `s` and takes one step per
/// event, in order.
pub open spec fn run_state(s: SearchState, events: Seq<Event>) -> SearchState
    decreases events.len(),
{
    if events.len() == 0 {
        s
    } else {
        run_state(
            step_state(s, events.first().meta, events.first().children),
            events.drop_first(),
        )
    }
}

/// Once the queue is empty the search is over: further events change
/// nothing.
pub proof fn lemma_run_empty_queue(s: SearchState, events: Seq<Event>)
    requires
        s.queue.len() == 0,
    ensures
        run_state(s, events) == s,
    decreases events.len(),
{
    if events.len() > 0 {
        assert(step_state(s, events.first().meta, events.first().children) == s);
        lemma_run_empty_queue(s, events.drop_first());
    }
}

/// Depth-bound law: no reported path lies deeper than `max_depth`; the
/// depth recorded for each reported match never passes the bound.
pub proof fn lemma_no_result_beyond_max_depth(s: &Searcher)
    requires
        s.wf(),
    ensures
        forall|i: int|
            0 <= i < s@.emitted.len() ==> (#[trigger] s@.emitted[i]).depth <= s@.max_depth,
{
}

/// Filter law: with the files-only filter no reported entry was a
/// directory, with the directories-only filter every reported entry was
/// one, as its metadata said when it was visited.
pub proof fn lemma_results_match_filter(s: &Searcher)
    requires
        s.wf(),
    ensures
        forall|i: int|
            0 <= i < s@.emitted.len() ==> type_matches_spec(
                s@.filter,
                (#[trigger] s@.emitted[i]).is_dir,
            ),
{
}

/// Ordering law: matches are reported in breadth-first order — a shallower
/// match never appears after a deeper one.
pub proof fn lemma_results_in_depth_order(s: &Searcher)
    requires
        s.wf(),
    ensures
        forall|i: int, j: int|
            0 <= i <= j < s@.emitted.len() ==> (#[trigger] s@.emitted[i]).depth <= (
            #[trigger] s@.emitted[j]).depth,
{
}

/// Idempotence law: against an unchanged tree the driver observes the same
/// event at every step, so any two searches over the same event stream
/// report the same sequence of matches — in particular the same multiset
/// of paths.
pub proof fn lemma_search_idempotent(
    s: SearchState,
    events: Seq<Event>,
    r1: Seq<EmitRec>,
    r2: Seq<EmitRec>,
)
    requires
        r1 == run_state(s, events).emitted,
        r2 == run_state(s, events).emitted,
    ensures
        r1 == r2,
        r1.map_values(|e: EmitRec| e.path).to_multiset() == r2.map_values(
            |e: EmitRec| e.path,
        ).to_multiset(),
{
}

/// Boundary law: with a depth bound of zero and a start entry that turns
/// out to be a file, the whole search reports the start path exactly when
/// its base name matches the pattern and the filter admits files, and
/// nothing otherwise; with the directories-only filter it reports nothing.
pub proof fn lemma_depth_zero_file(
    start: Seq<char>,
    pattern: Seq<char>,
    filter: EntryType,
    events: Seq<Event>,
)
    requires
        events.len() > 0,
        events.first().meta == Some(false),
    ensures
        ({
            let fin = run_state(init_state(start, pattern, 0, filter), events);
            &&& (filter != EntryType::Directory && regex_match(pattern, base_name_spec(start))
                ==> fin.emitted == seq![(EmitRec { path: start, depth: 0, is_dir: false })])
            &&& (filter == EntryType::Directory || !regex_match(pattern, base_name_spec(start))
                ==> fin.emitted.len() == 0)
        }),
{
    let s0 = init_state(start, pattern, 0, filter);
    let s1 = step_state(s0, events.first().meta, events.first().children);
    assert(s0.queue.drop_first() =~= Seq::<ItemV>::empty());
    lemma_run_empty_queue(s1, events.drop_first());
    if filter != EntryType::Directory && regex_match(pattern, base_name_spec(start)) {
        assert(s1.emitted =~= seq![(EmitRec { path: start, depth: 0, is_dir: false })]);
    }
}

/// One queued frontier entry.
struct QueueItem {
    path: String,
    depth: usize,
}

/// The view of one queued entry.
spec fn item_view(it: QueueItem) -> ItemV {
    ItemV { path: it.path@, depth: it.depth as nat }
}

/// The traversal engine. It holds the first-in-first-out frontier queue and
/// the fixed search parameters; `step` consumes the front of the queue.
pub struct Searcher {
    queue: VecDeque<QueueItem>,
    max_depth: usize,
    filter: EntryType,
    pattern: Pattern,
    emitted: Ghost<Seq<EmitRec>>,
}

impl View for Searcher {
    type V = SearchState;

    closed spec fn view(&self) -> SearchState {
        SearchState {
            queue: self.queue@.map_values(|it: QueueItem| item_view(it)),
            max_depth: self.max_depth as nat,
            filter: self.filter,
            pattern: self.pattern@,
            emitted: self.emitted@,
        }
    }
}

impl Searcher {
    /// Every searcher this module hands out keeps the search invariant.
    pub open spec fn wf(&self) -> bool {
        wf_state(self@)
    }

    /// Begins a search at `start`: the queue holds the start path alone, at
    /// depth zero. Returns `None` exactly when the pattern is not a valid
    /// regular expression.
    pub fn new(start: &str, pattern: &str, max_depth: usize, filter: EntryType) -> (r: Option<
        Searcher,
    >)
        ensures
            r is Some <==> regex_ok(pattern@),
            r matches Some(s) ==> s.wf() && s@ == init_state(
                start@,
                pattern@,
                max_depth as nat,
                filter,
            ),
    {
        match compile(pattern) {
            None => None,
            Some(p) => {
                let mut queue: VecDeque<QueueItem> = VecDeque::new();
                queue.push_back(QueueItem { path: start.to_owned(), depth: 0 });
                let s = Searcher {
                    queue,
                    max_depth,
                    filter,
                    pattern: p,
                    emitted: Ghost(Seq::empty()),
                };
                proof {
                    assert(s@.queue =~= init_state(
                        start@,
                        pattern@,
                        max_depth as nat,
                        filter,
                    ).queue);
                    assert(s@ =~= init_state(start@, pattern@, max_depth as nat, filter));
                }
                Some(s)
            },
        }
    }

    /// The search is over exactly when the queue is empty.
    pub fn is_done(&self) -> (r: bool)
        ensures
            r == (self@.queue.len() == 0),
    {
        self.queue.len() == 0
    }

    /// The path of the entry the driver must look up next, if any.
    pub fn front(&self) -> (r: Option<String>)
        ensures
            r is Some <==> self@.queue.len() > 0,
            r matches Some(p) ==> p@ == self@.queue.first().path,
    {
        if self.queue.len() == 0 {
            None
        } else {
            let p = self.queue[0].path.clone();
            proof {
                assert(self@.queue[0] == item_view(self.queue@[0]));
            }
            Some(p)
        }
    }

    /// Whether the driver should list the front entry's children: only a
    /// directory strictly below the depth bound is expanded.
    pub fn wants_children(&self, is_dir: bool) -> (r: bool)
        ensures
            r == (self@.queue.len() > 0 && is_dir && self@.queue.first().depth < self@.max_depth),
    {
        if self.queue.len() == 0 {
            false
        } else {
            proof {
                assert(self@.queue[0] == item_view(self.queue@[0]));
            }
            is_dir && self.queue[0].depth < self.max_depth
        }
    }

    /// Takes one step of the walk: the front entry leaves the queue and is
    /// judged. `meta` is what the driver could read of it (`None` when the
    /// lookup failed: the entry is skipped silently), `children` the names
    /// it listed when `wants_children` asked for them. The result is the
    /// path to report, if the entry matched; the state moves exactly as
    /// `step_state` says.
    pub fn step(&mut self, meta: Option<bool>, children: &Vec<String>) -> (r: Option<String>)
        requires
            old(self).wf(),
        ensures
            final(self).wf(),
            final(self)@ == step_state(
                old(self)@,
                meta,
                children@.map_values(|c: String| c@),
            ),
            (r is Some) == (step_emit(old(self)@, meta) is Some),
            r matches Some(p) ==> step_emit(old(self)@, meta) == Some(p@),
    {
        let ghost pre = self@;
        let ghost kids = children@.map_values(|c: String| c@);
        proof {
            lemma_step_preserves_wf(pre, meta, kids);
        }
        let popped = self.queue.pop_front();
        match popped {
            None => {
                proof {
                    assert(self@ =~= step_state(pre, meta, kids));
                }
                None
            },
            Some(item) => {
                proof {
                    assert(item_view(item) == pre.queue.first());
                    assert(self@.queue =~= pre.queue.drop_first());
                }
                let ghost front = pre.queue.first();
                let ghost rest = pre.queue.drop_first();
                if item.depth > self.max_depth {
                    proof {
                        assert(self@ =~= step_state(pre, meta, kids));
                    }
                    return None;
                }
                match meta {
                    None => {
                        proof {
                            assert(self@ =~= step_state(pre, meta, kids));
                        }
                        None
                    },
                    Some(is_dir) => {
                        let name = base_name(item.path.as_str());
                        let tm = type_matches(self.filter, is_dir);
                        let matched = tm && pattern_matches(&self.pattern, name.as_str());
                        if matched {
                            self.emitted = Ghost(
                                self.emitted@.push(
                                    EmitRec {
                                        path: item.path@,
                                        depth: item.depth as nat,
                                        is_dir,
                                    },
                                ),
                            );
                        }
                        let ghost emitted_now = self@.emitted;
                        let ghost mk = |nm: Seq<char>|
                            ItemV { path: join_spec(front.path, nm), depth: (front.depth + 1) as nat };
                        if is_dir && item.depth < self.max_depth {
                            let new_depth = item.depth + 1;
                            let mut i: usize = 0;
                            proof {
                                assert(self@.queue =~= rest + kids.subrange(0, 0).map_values(mk));
                            }
                            while i < children.len()
                                invariant
                                    i <= children.len(),
                                    kids == children@.map_values(|c: String| c@),
                                    forall|nm: Seq<char>| #[trigger] mk(nm) == (ItemV {
                                        path: join_spec(front.path, nm),
                                        depth: (front.depth + 1) as nat,
                                    }),
                                    new_depth == front.depth + 1,
                                    item.path@ == front.path,
                                    self@.queue == rest + kids.subrange(0, i as int).map_values(mk),
                                    self@.max_depth == pre.max_depth,
                                    self@.filter == pre.filter,
                                    self@.pattern == pre.pattern,
                                    self@.emitted == emitted_now,
                                decreases children.len() - i,
                            {
                                let child = join_path(item.path.as_str(), children[i].as_str());
                                let ghost childv = child@;
                                let ghost prev_mapped = rest + kids.subrange(0, i as int).map_values(
                                    mk,
                                );
                                self.queue.push_back(QueueItem { path: child, depth: new_depth });
                                proof {
                                    assert(kids[i as int] == children@[i as int]@);
                                    assert(childv == join_spec(front.path, kids[i as int]));
                                    assert(mk(kids[i as int]) == ItemV {
                                        path: childv,
                                        depth: (front.depth + 1) as nat,
                                    });
                                    assert(kids.subrange(0, i + 1) =~= kids.subrange(
                                        0,
                                        i as int,
                                    ).push(kids[i as int]));
                                    assert(kids.subrange(0, i + 1).map_values(mk) =~= kids.subrange(
                                        0,
                                        i as int,
                                    ).map_values(mk).push(mk(kids[i as int])));
                                    assert(self@.queue =~= prev_mapped.push(mk(kids[i as int])));
                                    assert(rest + kids.subrange(0, i + 1).map_values(mk)
                                        =~= prev_mapped.push(mk(kids[i as int])));
                                }
                                i = i + 1;
                            }
                            proof {
                                assert(kids.subrange(0, kids.len() as int) =~= kids);
                            }
                        }
                        proof {
                            let spec_post = step_state(pre, meta, kids);
                            assert(self@.queue =~= spec_post.queue);
                            assert(self@ =~= spec_post);
                        }
                        if matched {
                            Some(item.path)
                        } else {
                            None
                        }
                    },
                }
            },
        }
    }
}

} // verus!
