//! The traversal engine: the worker step applied to an in-memory directory
//! tree, driven by the work queue and the match counter.
//!
//! The concurrent run performs the same steps: each worker pops a node,
//! lists it, filters and enqueues the children, and tests each child name,
//! reserving a slot in the shared counter before emitting.  The decisions a
//! worker takes per entry are the functions of this module; listing a real
//! directory is input and output and stays outside.

use vstd::prelude::*;
use crate::matcher::MatchSpec;
use crate::queue::{joined, join_path, WorkQueue};
use crate::counter::MatchCount;
use crate::tree::{Entry, FsNode, node_size, entries_size};
use vstd::string::StrSliceExecFns;

verus! {

/// Whether the traversal may descend into an entry of this name: always
/// when hidden entries are included, otherwise only when the name neither
/// starts with the hidden-file marker nor is the reserved library
/// directory.  This governs recursion alone; whether the entry itself is
/// reported is decided independently by the matcher.
pub open spec fn may_descend(include_hidden: bool, name: Seq<char>) -> bool {
    include_hidden || (!(name.len() > 0 && name[0] == '.') && name != "Library"@)
}

/// Decides `may_descend` for one entry name.
pub fn should_descend(name: &String, include_hidden: bool) -> (r: bool)
    ensures
        r == may_descend(include_hidden, name@),
{
    if include_hidden {
        return true;
    }
    let s = name.as_str();
    if s.unicode_len() > 0 && s.get_char(0) == '.' {
        return false;
    }
    let reserved: String = "Library".to_owned();
    if *name == reserved {
        return false;
    }
    true
}

/// How many levels below a node at depth `depth` may still be tested when
/// the bound is `max_depth`.
pub open spec fn node_budget(max_depth: nat, depth: nat) -> nat {
    if depth <= max_depth {
        (max_depth - depth) as nat
    } else {
        0
    }
}

/// The number of entries the traversal of `n` tests and finds matching,
/// when `n` may still discover entries `budget` levels down: entries of a
/// directory are tested while the budget lasts, and only entries the
/// filter lets the traversal descend into contribute their own subtrees.
pub open spec fn match_total(n: FsNode, m: MatchSpec, include_hidden: bool, budget: nat) -> nat
    decreases n,
{
    match n {
        FsNode::Dir(es) => if budget == 0 {
            0
        } else {
            match_total_entries(es@, m, include_hidden, (budget - 1) as nat)
        },
        FsNode::File => 0,
        FsNode::DeniedDir => 0,
    }
}

/// The matching entries among `es` and their traversable subtrees, each
/// subtree with `budget` levels left.
pub open spec fn match_total_entries(
    es: Seq<Entry>,
    m: MatchSpec,
    include_hidden: bool,
    budget: nat,
) -> nat
    decreases es,
{
    if es.len() == 0 {
        0
    } else {
        (if m.accepts(es[0].name@) {
            1nat
        } else {
            0nat
        }) + (if may_descend(include_hidden, es[0].name@) {
            match_total(es[0].node, m, include_hidden, budget)
        } else {
            0nat
        }) + match_total_entries(es.drop_first(), m, include_hidden, budget)
    }
}

/// A pending node of the in-memory traversal: where it sits, how deep it
/// is, and what listing it finds.
pub struct TreeNode {
    pub path: String,
    pub depth: u8,
    pub node: FsNode,
}

/// The matching entries still to be found from the queued nodes.
pub open spec fn queue_total(
    q: Seq<TreeNode>,
    m: MatchSpec,
    include_hidden: bool,
    max_depth: nat,
) -> nat
    decreases q.len(),
{
    if q.len() == 0 {
        0
    } else {
        match_total(q[0].node, m, include_hidden, node_budget(max_depth, q[0].depth as nat))
            + queue_total(q.drop_first(), m, include_hidden, max_depth)
    }
}

/// The tree nodes still held by the queue, the measure that shrinks as the
/// traversal consumes work.
pub open spec fn queue_size(q: Seq<TreeNode>) -> nat
    decreases q.len(),
{
    if q.len() == 0 {
        0
    } else {
        node_size(q[0].node) + queue_size(q.drop_first())
    }
}

proof fn lemma_queue_total_push(
    q: Seq<TreeNode>,
    x: TreeNode,
    m: MatchSpec,
    include_hidden: bool,
    max_depth: nat,
)
    ensures
        queue_total(q.push(x), m, include_hidden, max_depth) == queue_total(
            q,
            m,
            include_hidden,
            max_depth,
        ) + match_total(x.node, m, include_hidden, node_budget(max_depth, x.depth as nat)),
    decreases q.len(),
{
    if q.len() == 0 {
        assert(q.push(x)[0] == x);
        assert(q.push(x).drop_first() =~= Seq::<TreeNode>::empty());
        assert(queue_total(q.push(x), m, include_hidden, max_depth) == match_total(
            x.node,
            m,
            include_hidden,
            node_budget(max_depth, x.depth as nat),
        ) + queue_total(q.push(x).drop_first(), m, include_hidden, max_depth));
        assert(queue_total(q.push(x).drop_first(), m, include_hidden, max_depth) == 0);
        assert(queue_total(q, m, include_hidden, max_depth) == 0);
    } else {
        assert(q.push(x)[0] == q[0]);
        assert(q.push(x).drop_first() =~= q.drop_first().push(x));
        lemma_queue_total_push(q.drop_first(), x, m, include_hidden, max_depth);
        assert(queue_total(q.push(x), m, include_hidden, max_depth) == match_total(
            q[0].node,
            m,
            include_hidden,
            node_budget(max_depth, q[0].depth as nat),
        ) + queue_total(q.drop_first().push(x), m, include_hidden, max_depth));
        assert(queue_total(q, m, include_hidden, max_depth) == match_total(
            q[0].node,
            m,
            include_hidden,
            node_budget(max_depth, q[0].depth as nat),
        ) + queue_total(q.drop_first(), m, include_hidden, max_depth));
    }
}

proof fn lemma_queue_size_push(q: Seq<TreeNode>, x: TreeNode)
    ensures
        queue_size(q.push(x)) == queue_size(q) + node_size(x.node),
    decreases q.len(),
{
    if q.len() == 0 {
        assert(q.push(x)[0] == x);
        assert(q.push(x).drop_first() =~= Seq::<TreeNode>::empty());
        assert(queue_size(q.push(x)) == node_size(x.node) + queue_size(
            q.push(x).drop_first(),
        ));
        assert(queue_size(q.push(x).drop_first()) == 0);
        assert(queue_size(q) == 0);
    } else {
        assert(q.push(x)[0] == q[0]);
        assert(q.push(x).drop_first() =~= q.drop_first().push(x));
        lemma_queue_size_push(q.drop_first(), x);
        assert(queue_size(q.push(x)) == node_size(q[0].node) + queue_size(
            q.drop_first().push(x),
        ));
        assert(queue_size(q) == node_size(q[0].node) + queue_size(q.drop_first()));
    }
}

/// A line the run emits: the path of some entry whose name the match
/// specification accepts.
pub open spec fn is_match_line(s: Seq<char>, m: MatchSpec) -> bool {
    exists|p: Seq<char>, n: Seq<char>| s == #[trigger] joined(p, n) && m.accepts(n)
}

/// The paths of every matching entry the traversal of `n` can reach, when
/// `n` sits at `parent` with `budget` levels left: the same reach as
/// `match_total`, as a collection of paths.
pub open spec fn match_paths(
    parent: Seq<char>,
    n: FsNode,
    m: MatchSpec,
    include_hidden: bool,
    budget: nat,
) -> Set<Seq<char>>
    decreases n,
{
    match n {
        FsNode::Dir(es) => if budget == 0 {
            Set::empty()
        } else {
            match_paths_entries(parent, es@, m, include_hidden, (budget - 1) as nat)
        },
        FsNode::File => Set::empty(),
        FsNode::DeniedDir => Set::empty(),
    }
}

/// The matching paths among the entries `es` of the directory at `parent`
/// and their traversable subtrees.
pub open spec fn match_paths_entries(
    parent: Seq<char>,
    es: Seq<Entry>,
    m: MatchSpec,
    include_hidden: bool,
    budget: nat,
) -> Set<Seq<char>>
    decreases es,
{
    if es.len() == 0 {
        Set::empty()
    } else {
        (if m.accepts(es[0].name@) {
            set![joined(parent, es[0].name@)]
        } else {
            Set::empty()
        }).union(
            if may_descend(include_hidden, es[0].name@) {
                match_paths(joined(parent, es[0].name@), es[0].node, m, include_hidden, budget)
            } else {
                Set::empty()
            },
        ).union(match_paths_entries(parent, es.drop_first(), m, include_hidden, budget))
    }
}

/// The matching paths still to be found from the queued nodes.
pub open spec fn queue_paths(
    q: Seq<TreeNode>,
    m: MatchSpec,
    include_hidden: bool,
    max_depth: nat,
) -> Set<Seq<char>>
    decreases q.len(),
{
    if q.len() == 0 {
        Set::empty()
    } else {
        match_paths(
            q[0].path@,
            q[0].node,
            m,
            include_hidden,
            node_budget(max_depth, q[0].depth as nat),
        ).union(queue_paths(q.drop_first(), m, include_hidden, max_depth))
    }
}

/// The paths of every directory the traversal of `n` tries to list and is
/// refused for lack of permission, when `n` sits at `parent` with `budget`
/// levels left.
pub open spec fn denied_paths(
    parent: Seq<char>,
    n: FsNode,
    include_hidden: bool,
    budget: nat,
) -> Set<Seq<char>>
    decreases n,
{
    match n {
        FsNode::Dir(es) => if budget == 0 {
            Set::empty()
        } else {
            denied_paths_entries(parent, es@, include_hidden, (budget - 1) as nat)
        },
        FsNode::File => Set::empty(),
        FsNode::DeniedDir => set![parent],
    }
}

/// The denied directories under the entries `es` of the directory at
/// `parent` that the traversal descends into.
pub open spec fn denied_paths_entries(
    parent: Seq<char>,
    es: Seq<Entry>,
    include_hidden: bool,
    budget: nat,
) -> Set<Seq<char>>
    decreases es,
{
    if es.len() == 0 {
        Set::empty()
    } else {
        (if may_descend(include_hidden, es[0].name@) {
            denied_paths(joined(parent, es[0].name@), es[0].node, include_hidden, budget)
        } else {
            Set::<Seq<char>>::empty()
        }).union(denied_paths_entries(parent, es.drop_first(), include_hidden, budget))
    }
}

/// The denied directories still to be met from the queued nodes.
pub open spec fn queue_denied(
    q: Seq<TreeNode>,
    include_hidden: bool,
    max_depth: nat,
) -> Set<Seq<char>>
    decreases q.len(),
{
    if q.len() == 0 {
        Set::empty()
    } else {
        denied_paths(
            q[0].path@,
            q[0].node,
            include_hidden,
            node_budget(max_depth, q[0].depth as nat),
        ).union(queue_denied(q.drop_first(), include_hidden, max_depth))
    }
}

proof fn lemma_queue_denied_push(q: Seq<TreeNode>, x: TreeNode, include_hidden: bool, max_depth: nat)
    ensures
        queue_denied(q.push(x), include_hidden, max_depth) =~= queue_denied(
            q,
            include_hidden,
            max_depth,
        ).union(denied_paths(x.path@, x.node, include_hidden, node_budget(max_depth, x.depth as nat))),
    decreases q.len(),
{
    if q.len() == 0 {
        assert(q.push(x)[0] == x);
        assert(q.push(x).drop_first() =~= Seq::<TreeNode>::empty());
        assert(queue_denied(q.push(x).drop_first(), include_hidden, max_depth) =~= Set::<
            Seq<char>,
        >::empty());
        assert(queue_denied(q, include_hidden, max_depth) =~= Set::<Seq<char>>::empty());
    } else {
        assert(q.push(x)[0] == q[0]);
        assert(q.push(x).drop_first() =~= q.drop_first().push(x));
        lemma_queue_denied_push(q.drop_first(), x, include_hidden, max_depth);
    }
}

/// The collection of lines held by a list of emitted paths.
pub open spec fn set_of_views(v: Seq<String>) -> Set<Seq<char>>
    decreases v.len(),
{
    if v.len() == 0 {
        Set::empty()
    } else {
        set_of_views(v.drop_last()).insert(v.last()@)
    }
}

proof fn lemma_queue_paths_push(
    q: Seq<TreeNode>,
    x: TreeNode,
    m: MatchSpec,
    include_hidden: bool,
    max_depth: nat,
)
    ensures
        queue_paths(q.push(x), m, include_hidden, max_depth) =~= queue_paths(
            q,
            m,
            include_hidden,
            max_depth,
        ).union(
            match_paths(x.path@, x.node, m, include_hidden, node_budget(max_depth, x.depth as nat)),
        ),
    decreases q.len(),
{
    if q.len() == 0 {
        assert(q.push(x)[0] == x);
        assert(q.push(x).drop_first() =~= Seq::<TreeNode>::empty());
        assert(queue_paths(q.push(x).drop_first(), m, include_hidden, max_depth) =~= Set::<
            Seq<char>,
        >::empty());
        assert(queue_paths(q, m, include_hidden, max_depth) =~= Set::<Seq<char>>::empty());
    } else {
        assert(q.push(x)[0] == q[0]);
        assert(q.push(x).drop_first() =~= q.drop_first().push(x));
        lemma_queue_paths_push(q.drop_first(), x, m, include_hidden, max_depth);
    }
}

/// A node that yields no matching count yields no matching path either.
proof fn lemma_no_matches_node(
    parent: Seq<char>,
    n: FsNode,
    m: MatchSpec,
    include_hidden: bool,
    budget: nat,
)
    requires
        match_total(n, m, include_hidden, budget) == 0,
    ensures
        match_paths(parent, n, m, include_hidden, budget) =~= Set::<Seq<char>>::empty(),
    decreases n,
{
    match n {
        FsNode::Dir(es) => {
            if budget > 0 {
                lemma_no_matches_entries(parent, es@, m, include_hidden, (budget - 1) as nat);
            }
        },
        FsNode::File => {},
        FsNode::DeniedDir => {},
    }
}

proof fn lemma_no_matches_entries(
    parent: Seq<char>,
    es: Seq<Entry>,
    m: MatchSpec,
    include_hidden: bool,
    budget: nat,
)
    requires
        match_total_entries(es, m, include_hidden, budget) == 0,
    ensures
        match_paths_entries(parent, es, m, include_hidden, budget) =~= Set::<Seq<char>>::empty(),
    decreases es,
{
    if es.len() > 0 {
        assert(!m.accepts(es[0].name@));
        if may_descend(include_hidden, es[0].name@) {
            lemma_no_matches_node(
                joined(parent, es[0].name@),
                es[0].node,
                m,
                include_hidden,
                budget,
            );
        }
        lemma_no_matches_entries(parent, es.drop_first(), m, include_hidden, budget);
    }
}

proof fn lemma_no_matches_queue(q: Seq<TreeNode>, m: MatchSpec, include_hidden: bool, max_depth: nat)
    requires
        queue_total(q, m, include_hidden, max_depth) == 0,
    ensures
        queue_paths(q, m, include_hidden, max_depth) =~= Set::<Seq<char>>::empty(),
    decreases q.len(),
{
    if q.len() > 0 {
        lemma_no_matches_node(
            q[0].path@,
            q[0].node,
            m,
            include_hidden,
            node_budget(max_depth, q[0].depth as nat),
        );
        lemma_no_matches_queue(q.drop_first(), m, include_hidden, max_depth);
    }
}

/// An entry the filter excludes contributes at most its own path to a
/// listing: its children are never discovered, though the entry itself may
/// still be matched.  Filtering governs recursion only; matching is
/// independent of it.
pub proof fn lemma_filter_governs_recursion_only(
    parent: Seq<char>,
    e: Entry,
    m: MatchSpec,
    include_hidden: bool,
    budget: nat,
)
    requires
        !may_descend(include_hidden, e.name@),
    ensures
        match_total_entries(seq![e], m, include_hidden, budget) == (if m.accepts(e.name@) {
            1nat
        } else {
            0nat
        }),
        match_paths_entries(parent, seq![e], m, include_hidden, budget) =~= (if m.accepts(
            e.name@,
        ) {
            set![joined(parent, e.name@)]
        } else {
            Set::<Seq<char>>::empty()
        }),
{
    let es = seq![e];
    assert(es.drop_first() =~= Seq::<Entry>::empty());
    assert(match_total_entries(es.drop_first(), m, include_hidden, budget) == 0);
    assert(match_paths_entries(parent, es.drop_first(), m, include_hidden, budget) =~= Set::<
        Seq<char>,
    >::empty());
}

/// What one run produces: the matched paths, in the order they were found,
/// and the directories whose listing was refused for lack of permission,
/// when those are asked for.
pub struct SearchOutcome {
    pub matched: Vec<String>,
    pub denied: Vec<String>,
}

/// Searches the tree rooted at `root_path` for entries the specification
/// accepts, within the depth bound, emitting at most `max_items` paths.
///
/// The count of emitted matches is exactly the smaller of `max_items` and
/// the number of matching entries the traversal can reach; each emitted
/// line is the path of an entry whose name matched; and without `verbose`
/// no diagnostic is produced.  Whenever the cap does not cut the run
/// short, the emitted lines are exactly the reachable matching paths, a
/// function of the tree and the configuration alone: two runs over an
/// unchanged tree produce the same collection.
pub fn search_tree(
    root_path: &String,
    root: FsNode,
    m: &MatchSpec,
    include_hidden: bool,
    max_depth: u8,
    max_items: u32,
    verbose: bool,
) -> (r: SearchOutcome)
    ensures
        r.matched@.len() == vstd::math::min(
            max_items as int,
            match_total(root, *m, include_hidden, max_depth as nat) as int,
        ),
        forall|i: int|
            0 <= i < r.matched@.len() ==> is_match_line(#[trigger] r.matched@[i]@, *m),
        max_items as nat >= match_total(root, *m, include_hidden, max_depth as nat)
            ==> set_of_views(r.matched@) == match_paths(
            root_path@,
            root,
            *m,
            include_hidden,
            max_depth as nat,
        ),
        !verbose ==> r.denied@.len() == 0,
        verbose && max_items as nat > match_total(root, *m, include_hidden, max_depth as nat)
            ==> set_of_views(r.denied@) == denied_paths(
            root_path@,
            root,
            include_hidden,
            max_depth as nat,
        ),
{
    let ghost md: nat = max_depth as nat;
    let ghost root_g: FsNode = root;
    let ghost total: nat = match_total(root, *m, include_hidden, md);
    let ghost all_paths: Set<Seq<char>> = match_paths(root_path@, root, *m, include_hidden, md);
    let ghost all_denied: Set<Seq<char>> = denied_paths(root_path@, root, include_hidden, md);
    let mut queue: WorkQueue<TreeNode> = WorkQueue::empty();
    let seed = TreeNode { path: root_path.clone(), depth: 0, node: root };
    proof {
        lemma_queue_total_push(Seq::<TreeNode>::empty(), seed, *m, include_hidden, md);
        lemma_queue_size_push(Seq::<TreeNode>::empty(), seed);
        lemma_queue_paths_push(Seq::<TreeNode>::empty(), seed, *m, include_hidden, md);
        lemma_queue_denied_push(Seq::<TreeNode>::empty(), seed, include_hidden, md);
    }
    queue.push_back(seed);
    let mut counter = MatchCount::new();
    let mut matched: Vec<String> = Vec::new();
    let mut denied: Vec<String> = Vec::new();
    let ghost mut found: nat = 0;
    loop
        invariant
            md == max_depth as nat,
            total == match_total(root_g, *m, include_hidden, md),
            all_paths == match_paths(root_path@, root_g, *m, include_hidden, md),
            found + queue_total(queue@, *m, include_hidden, md) == total,
            counter.count() == vstd::math::min(max_items as int, found as int),
            matched@.len() == counter.count(),
            forall|i: int| 0 <= i < matched@.len() ==> is_match_line(#[trigger] matched@[i]@, *m),
            max_items as nat >= total ==> set_of_views(matched@).union(
                queue_paths(queue@, *m, include_hidden, md),
            ) == all_paths,
            all_denied == denied_paths(root_path@, root_g, include_hidden, md),
            forall|i: int| 0 <= i < queue@.len() ==> (#[trigger] queue@[i].depth) <= max_depth,
            verbose && max_items as nat > total ==> set_of_views(denied@).union(
                queue_denied(queue@, include_hidden, md),
            ) == all_denied,
            !verbose ==> denied@.len() == 0,
        ensures
            counter.count() >= max_items as nat || queue@.len() == 0,
        decreases queue_size(queue@),
    {
        if counter.get() >= max_items {
            break;
        }
        if queue.is_empty() {
            break;
        }
        let ghost pre_size = queue_size(queue@);
        let ghost pre_q = queue@;
        let popped = queue.pop_front();
        let cur = match popped {
            Option::Some(c) => c,
            Option::None => {
                break;
            },
        };
        proof {
            assert(cur == pre_q[0] && queue@ == pre_q.drop_first());
            assert(queue_total(pre_q, *m, include_hidden, md) == match_total(
                cur.node,
                *m,
                include_hidden,
                node_budget(md, cur.depth as nat),
            ) + queue_total(queue@, *m, include_hidden, md));
            assert(queue_size(pre_q) == node_size(cur.node) + queue_size(queue@));
            assert(queue_paths(pre_q, *m, include_hidden, md) =~= match_paths(
                cur.path@,
                cur.node,
                *m,
                include_hidden,
                node_budget(md, cur.depth as nat),
            ).union(queue_paths(queue@, *m, include_hidden, md)));
            assert(queue_denied(pre_q, include_hidden, md) =~= denied_paths(
                cur.path@,
                cur.node,
                include_hidden,
                node_budget(md, cur.depth as nat),
            ).union(queue_denied(queue@, include_hidden, md)));
        }
        let ghost cur_ghost = cur;
        let TreeNode { path: cur_path, depth: cur_depth, node: cur_node } = cur;
        if cur_depth > max_depth {
            // a node past the bound is skipped by itself; siblings still
            // queued are unaffected.  Nothing deeper than the bound is ever
            // enqueued here, so this guard can in fact never fire.
            proof {
                assert(pre_q[0].depth <= max_depth);
                assert(false);
            }
        } else {
            match cur_node {
                FsNode::Dir(mut entries) => {
                    if cur_depth < max_depth {
                        let ghost cb: nat = node_budget(md, (cur_depth + 1) as nat);
                        proof {
                            assert(cur_ghost.node == FsNode::Dir(entries));
                            assert(md == max_depth as nat);
                            assert(node_budget(md, cur_depth as nat) >= 1);
                            assert(match_total(
                                cur_ghost.node,
                                *m,
                                include_hidden,
                                node_budget(md, cur_depth as nat),
                            ) == match_total_entries(entries@, *m, include_hidden, cb));
                            assert(node_size(cur_ghost.node) == 1 + entries_size(entries@));
                            assert(match_paths(
                                cur_ghost.path@,
                                cur_ghost.node,
                                *m,
                                include_hidden,
                                node_budget(md, cur_depth as nat),
                            ) =~= match_paths_entries(cur_path@, entries@, *m, include_hidden, cb));
                            if max_items as nat >= total {
                                assert(set_of_views(matched@).union(
                                    match_paths_entries(cur_path@, entries@, *m, include_hidden, cb),
                                ).union(queue_paths(queue@, *m, include_hidden, md)) =~= all_paths);
                            }
                            assert(denied_paths(
                                cur_ghost.path@,
                                cur_ghost.node,
                                include_hidden,
                                node_budget(md, cur_depth as nat),
                            ) =~= denied_paths_entries(cur_path@, entries@, include_hidden, cb));
                            if verbose && max_items as nat > total {
                                assert(set_of_views(denied@).union(
                                    denied_paths_entries(cur_path@, entries@, include_hidden, cb),
                                ).union(queue_denied(queue@, include_hidden, md)) =~= all_denied);
                            }
                        }
                        while entries.len() > 0
                            invariant
                                md == max_depth as nat,
                                cur_depth < max_depth,
                                cb == node_budget(md, (cur_depth + 1) as nat),
                                found + match_total_entries(entries@, *m, include_hidden, cb)
                                    + queue_total(queue@, *m, include_hidden, md) == total,
                                counter.count() == vstd::math::min(
                                    max_items as int,
                                    found as int,
                                ),
                                matched@.len() == counter.count(),
                                forall|i: int|
                                    0 <= i < matched@.len() ==> is_match_line(
                                        #[trigger] matched@[i]@,
                                        *m,
                                    ),
                                max_items as nat >= total ==> set_of_views(matched@).union(
                                    match_paths_entries(cur_path@, entries@, *m, include_hidden, cb),
                                ).union(queue_paths(queue@, *m, include_hidden, md)) == all_paths,
                                forall|i: int|
                                    0 <= i < queue@.len() ==> (#[trigger] queue@[i].depth)
                                        <= max_depth,
                                verbose && max_items as nat > total ==> set_of_views(denied@).union(
                                    denied_paths_entries(cur_path@, entries@, include_hidden, cb),
                                ).union(queue_denied(queue@, include_hidden, md)) == all_denied,
                                !verbose ==> denied@.len() == 0,
                                queue_size(queue@) + entries_size(entries@) <= pre_size - 1,
                            decreases entries.len(),
                        {
                            let ghost es_before = entries@;
                            let e = entries.remove(0);
                            proof {
                                assert(entries@ =~= es_before.drop_first());
                                assert(e == es_before[0]);
                                assert(match_total_entries(es_before, *m, include_hidden, cb) == (
                                if m.accepts(e.name@) {
                                    1nat
                                } else {
                                    0nat
                                }) + (if may_descend(include_hidden, e.name@) {
                                    match_total(e.node, *m, include_hidden, cb)
                                } else {
                                    0nat
                                }) + match_total_entries(entries@, *m, include_hidden, cb));
                                assert(entries_size(es_before) == node_size(e.node)
                                    + entries_size(entries@));
                                assert(match_paths_entries(
                                    cur_path@,
                                    es_before,
                                    *m,
                                    include_hidden,
                                    cb,
                                ) =~= (if m.accepts(e.name@) {
                                    set![joined(cur_path@, e.name@)]
                                } else {
                                    Set::<Seq<char>>::empty()
                                }).union(
                                    if may_descend(include_hidden, e.name@) {
                                        match_paths(
                                            joined(cur_path@, e.name@),
                                            e.node,
                                            *m,
                                            include_hidden,
                                            cb,
                                        )
                                    } else {
                                        Set::<Seq<char>>::empty()
                                    },
                                ).union(
                                    match_paths_entries(cur_path@, entries@, *m, include_hidden, cb),
                                ));
                                assert(denied_paths_entries(
                                    cur_path@,
                                    es_before,
                                    include_hidden,
                                    cb,
                                ) =~= (if may_descend(include_hidden, e.name@) {
                                    denied_paths(
                                        joined(cur_path@, e.name@),
                                        e.node,
                                        include_hidden,
                                        cb,
                                    )
                                } else {
                                    Set::<Seq<char>>::empty()
                                }).union(
                                    denied_paths_entries(cur_path@, entries@, include_hidden, cb),
                                ));
                            }
                            let Entry { name, node: subtree } = e;
                            let child_path = join_path(&cur_path, &name);
                            let descend = should_descend(&name, include_hidden);
                            if descend {
                                let child = TreeNode {
                                    path: child_path.clone(),
                                    depth: cur_depth + 1,
                                    node: subtree,
                                };
                                proof {
                                    lemma_queue_total_push(queue@, child, *m, include_hidden, md);
                                    lemma_queue_size_push(queue@, child);
                                    lemma_queue_paths_push(queue@, child, *m, include_hidden, md);
                                    lemma_queue_denied_push(queue@, child, include_hidden, md);
                                }
                                queue.push_back(child);
                            }
                            let hit = m.matches_name(&name);
                            if hit {
                                let ghost found_before = found;
                                let ghost matched_before = matched@;
                                let granted = counter.try_reserve(max_items);
                                proof {
                                    found = found + 1;
                                    if max_items as nat >= total {
                                        assert(found_before + 1 <= total);
                                        assert(granted);
                                    }
                                    assert(is_match_line(child_path@, *m));
                                }
                                if granted {
                                    matched.push(child_path);
                                    proof {
                                        assert(matched@.drop_last() =~= matched_before);
                                        assert(set_of_views(matched@) =~= set_of_views(
                                            matched_before,
                                        ).insert(child_path@));
                                    }
                                }
                            }
                            proof {
                                if max_items as nat >= total {
                                    assert(set_of_views(matched@).union(
                                        match_paths_entries(
                                            cur_path@,
                                            entries@,
                                            *m,
                                            include_hidden,
                                            cb,
                                        ),
                                    ).union(queue_paths(queue@, *m, include_hidden, md))
                                        =~= all_paths);
                                }
                                if verbose && max_items as nat > total {
                                    assert(set_of_views(denied@).union(
                                        denied_paths_entries(
                                            cur_path@,
                                            entries@,
                                            include_hidden,
                                            cb,
                                        ),
                                    ).union(queue_denied(queue@, include_hidden, md))
                                        =~= all_denied);
                                }
                            }
                        }
                        proof {
                            assert(match_total_entries(entries@, *m, include_hidden, cb) == 0);
                            if max_items as nat >= total {
                                assert(match_paths_entries(
                                    cur_path@,
                                    entries@,
                                    *m,
                                    include_hidden,
                                    cb,
                                ) =~= Set::<Seq<char>>::empty());
                                assert(set_of_views(matched@).union(
                                    queue_paths(queue@, *m, include_hidden, md),
                                ) =~= all_paths);
                            }
                            if verbose && max_items as nat > total {
                                assert(denied_paths_entries(cur_path@, entries@, include_hidden, cb)
                                    =~= Set::<Seq<char>>::empty());
                                assert(set_of_views(denied@).union(
                                    queue_denied(queue@, include_hidden, md),
                                ) =~= all_denied);
                            }
                        }
                    } else {
                        // with the bound reached, the children would sit
                        // past it: none is tested and none is enqueued
                        proof {
                            if max_items as nat >= total {
                                assert(match_paths(
                                    cur_ghost.path@,
                                    cur_ghost.node,
                                    *m,
                                    include_hidden,
                                    node_budget(md, cur_ghost.depth as nat),
                                ) =~= Set::<Seq<char>>::empty());
                                assert(set_of_views(matched@).union(
                                    queue_paths(queue@, *m, include_hidden, md),
                                ) =~= all_paths);
                            }
                            if verbose && max_items as nat > total {
                                assert(denied_paths(
                                    cur_ghost.path@,
                                    cur_ghost.node,
                                    include_hidden,
                                    node_budget(md, cur_ghost.depth as nat),
                                ) =~= Set::<Seq<char>>::empty());
                                assert(set_of_views(denied@).union(
                                    queue_denied(queue@, include_hidden, md),
                                ) =~= all_denied);
                            }
                        }
                    }
                },
                FsNode::File => {
                    proof {
                        if max_items as nat >= total {
                            assert(match_paths(
                                cur_ghost.path@,
                                cur_ghost.node,
                                *m,
                                include_hidden,
                                node_budget(md, cur_ghost.depth as nat),
                            ) =~= Set::<Seq<char>>::empty());
                            assert(set_of_views(matched@).union(
                                queue_paths(queue@, *m, include_hidden, md),
                            ) =~= all_paths);
                        }
                        if verbose && max_items as nat > total {
                            assert(denied_paths(
                                cur_ghost.path@,
                                cur_ghost.node,
                                include_hidden,
                                node_budget(md, cur_ghost.depth as nat),
                            ) =~= Set::<Seq<char>>::empty());
                            assert(set_of_views(denied@).union(
                                queue_denied(queue@, include_hidden, md),
                            ) =~= all_denied);
                        }
                    }
                },
                FsNode::DeniedDir => {
                    let ghost denied_before = denied@;
                    if verbose {
                        denied.push(cur_path);
                    }
                    proof {
                        if max_items as nat >= total {
                            assert(match_paths(
                                cur_ghost.path@,
                                cur_ghost.node,
                                *m,
                                include_hidden,
                                node_budget(md, cur_ghost.depth as nat),
                            ) =~= Set::<Seq<char>>::empty());
                            assert(set_of_views(matched@).union(
                                queue_paths(queue@, *m, include_hidden, md),
                            ) =~= all_paths);
                        }
                        if verbose && max_items as nat > total {
                            assert(denied_paths(
                                cur_ghost.path@,
                                cur_ghost.node,
                                include_hidden,
                                node_budget(md, cur_ghost.depth as nat),
                            ) =~= set![cur_ghost.path@]);
                            assert(denied@.drop_last() =~= denied_before);
                            assert(set_of_views(denied@) =~= set_of_views(denied_before).insert(
                                cur_ghost.path@,
                            ));
                            assert(set_of_views(denied@).union(
                                queue_denied(queue@, include_hidden, md),
                            ) =~= all_denied);
                        }
                    }
                },
            }
        }
    }
    proof {
        if counter.count() < max_items as nat {
            assert(queue@.len() == 0);
            assert(queue_total(queue@, *m, include_hidden, md) == 0);
        }
        if max_items as nat >= total {
            if counter.count() >= max_items as nat {
                assert(found == total);
                assert(queue_total(queue@, *m, include_hidden, md) == 0);
            }
            lemma_no_matches_queue(queue@, *m, include_hidden, md);
            assert(set_of_views(matched@) =~= all_paths);
        }
        if verbose && max_items as nat > total {
            assert(counter.count() < max_items as nat);
            assert(queue@.len() == 0);
            assert(queue_denied(queue@, include_hidden, md) =~= Set::<Seq<char>>::empty());
            assert(set_of_views(denied@) =~= all_denied);
        }
    }
    SearchOutcome { matched, denied }
}

/// Searching an unchanged tree twice under the same configuration emits
/// the same number of matches both times, and, whenever the cap does not
/// cut the runs short, the same collection of matched paths: the order of
/// emission may differ, the collection may not.  The premises are what the
/// search itself ensures of each outcome.
pub proof fn lemma_search_idempotent(
    r1: SearchOutcome,
    r2: SearchOutcome,
    root_path: Seq<char>,
    root: FsNode,
    m: MatchSpec,
    include_hidden: bool,
    max_depth: u8,
    max_items: u32,
)
    requires
        r1.matched@.len() == vstd::math::min(
            max_items as int,
            match_total(root, m, include_hidden, max_depth as nat) as int,
        ),
        r2.matched@.len() == vstd::math::min(
            max_items as int,
            match_total(root, m, include_hidden, max_depth as nat) as int,
        ),
        max_items as nat >= match_total(root, m, include_hidden, max_depth as nat)
            ==> set_of_views(r1.matched@) == match_paths(
            root_path,
            root,
            m,
            include_hidden,
            max_depth as nat,
        ),
        max_items as nat >= match_total(root, m, include_hidden, max_depth as nat)
            ==> set_of_views(r2.matched@) == match_paths(
            root_path,
            root,
            m,
            include_hidden,
            max_depth as nat,
        ),
    ensures
        r1.matched@.len() == r2.matched@.len(),
        max_items as nat >= match_total(root, m, include_hidden, max_depth as nat)
            ==> set_of_views(r1.matched@) == set_of_views(r2.matched@),
{
}

} // verus!
