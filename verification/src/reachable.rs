//! The pages of a page tree are its reachable `Page` nodes.
//!
//! A node is reachable from another when a chain of `Kids` entries of
//! `Pages` nodes leads to it. The walk of the page tree visits exactly the
//! nodes that are reachable from its start, and gives one page for each
//! `Page` node among them.
use crate::object::{Dict, dict_get, lemma_key_sets_are_finite, object_key, table_get, Value};
use crate::page::Page;
use crate::pagetree::{
    lemma_visit_more, lemma_visit_one, spec_collect, spec_collect_kids, spec_page_tree,
    unvisited, with_resources,
};
use vstd::prelude::*;

verus! {

/// The dictionary that the table holds under a key.
pub open spec fn node_at(table: Map<u64, Value>, key: u64) -> Option<Dict> {
    if table.contains_key(key) {
        match table[key] {
            Value::Dictionary(d) => Some(d),
            _ => None,
        }
    } else {
        None
    }
}

/// Whether the object under a key is a `Page` node.
pub open spec fn is_page_node(table: Map<u64, Value>, key: u64) -> bool {
    match node_at(table, key) {
        Some(d) => dict_get(d, "Type"@) == Some(Value::Name("Page"@)),
        None => false,
    }
}

/// The `Kids` array of the `Pages` node under a key; empty for anything
/// else.
pub open spec fn kids_of(table: Map<u64, Value>, key: u64) -> Seq<Value> {
    match node_at(table, key) {
        Some(d) => if dict_get(d, "Type"@) == Some(Value::Name("Pages"@)) {
            match dict_get(d, "Kids"@) {
                Some(Value::Array(kids)) => kids,
                _ => Seq::empty(),
            }
        } else {
            Seq::empty()
        },
        None => Seq::empty(),
    }
}

/// The key that an entry of a `Kids` array refers to.
pub open spec fn kid_key(v: Value) -> Option<u64> {
    match v {
        Value::Reference(r) => Some(object_key(r)),
        _ => None,
    }
}

/// Whether `kid` is one of the kids of the node under `parent`.
pub open spec fn is_kid(table: Map<u64, Value>, parent: u64, kid: u64) -> bool {
    exists|i: int|
        0 <= i < kids_of(table, parent).len() && #[trigger] kid_key(kids_of(table, parent)[i])
            == Some(kid)
}

/// Whether at most `steps` steps from a node to one of its kids lead from
/// `from` to `to`.
pub open spec fn reaches_within(table: Map<u64, Value>, from: u64, to: u64, steps: nat) -> bool
    decreases steps,
{
    from == to || (steps > 0 && exists|mid: u64|
        #[trigger] is_kid(table, from, mid) && reaches_within(table, mid, to, (steps - 1) as nat))
}

/// Whether `to` is reachable from `from`.
pub open spec fn reaches(table: Map<u64, Value>, from: u64, to: u64) -> bool {
    exists|steps: nat| reaches_within(table, from, to, steps)
}

/// The `Page` nodes that are reachable from `start`.
pub open spec fn reachable_pages(table: Map<u64, Value>, start: u64) -> Set<u64> {
    Set::new(|k: u64| reaches(table, start, k) && is_page_node(table, k))
}

/// Whether every kid of the node under `k` is among `nodes`.
pub open spec fn kids_within(table: Map<u64, Value>, k: u64, nodes: Set<u64>) -> bool {
    forall|kid: u64| is_kid(table, k, kid) ==> nodes.contains(kid)
}

/// What a walk from `start` adds to the visited nodes: only nodes that are
/// reachable from `start`, each of them with all its kids.
pub open spec fn walked(
    table: Map<u64, Value>,
    start: u64,
    before: Set<u64>,
    after: Set<u64>,
) -> bool {
    &&& before.subset_of(after)
    &&& forall|k: u64|
        #[trigger] after.contains(k) && !before.contains(k) ==> reaches(table, start, k)
            && kids_within(table, k, after)
}

/// The `Page` nodes among `nodes`.
pub open spec fn page_nodes(table: Map<u64, Value>, nodes: Set<u64>) -> Set<u64> {
    nodes.filter(|k: u64| is_page_node(table, k))
}

/// A node is reachable from itself.
pub proof fn lemma_reaches_itself(table: Map<u64, Value>, key: u64)
    ensures
        reaches(table, key, key),
{
    assert(reaches_within(table, key, key, 0));
}

/// What is reachable from a kid of a node is reachable from the node.
pub proof fn lemma_reaches_through_kid(table: Map<u64, Value>, parent: u64, kid: u64, to: u64)
    requires
        is_kid(table, parent, kid),
        reaches(table, kid, to),
    ensures
        reaches(table, parent, to),
{
    let steps = choose|steps: nat| reaches_within(table, kid, to, steps);
    let more: nat = steps + 1;
    assert((more - 1) as nat == steps);
    assert(is_kid(table, parent, kid) && reaches_within(table, kid, to, (more - 1) as nat));
    assert(reaches_within(table, parent, to, more));
}

/// A set of nodes that holds the kids of each of its nodes holds whatever is
/// reachable from one of its nodes.
pub proof fn lemma_closed_set_holds_what_is_reached(
    table: Map<u64, Value>,
    nodes: Set<u64>,
    from: u64,
    to: u64,
    steps: nat,
)
    requires
        nodes.contains(from),
        forall|k: u64| #[trigger] nodes.contains(k) ==> kids_within(table, k, nodes),
        reaches_within(table, from, to, steps),
    ensures
        nodes.contains(to),
    decreases steps,
{
    if from != to {
        let mid = choose|mid: u64|
            #[trigger] is_kid(table, from, mid) && reaches_within(
                table,
                mid,
                to,
                (steps - 1) as nat,
            );
        assert(kids_within(table, from, nodes));
        lemma_closed_set_holds_what_is_reached(table, nodes, mid, to, (steps - 1) as nat);
    }
}

/// A `Page` node is no `Pages` node.
proof fn lemma_page_is_not_pages()
    ensures
        "Page"@ != "Pages"@,
{
    reveal_strlit("Page");
    reveal_strlit("Pages");
    assert("Page"@.len() == 4);
    assert("Pages"@.len() == 5);
}

/// The `Page` nodes among the visited nodes after one more node was visited.
proof fn lemma_page_nodes_with(table: Map<u64, Value>, visited: Set<u64>, key: u64)
    requires
        !visited.contains(key),
    ensures
        page_nodes(table, visited).finite(),
        page_nodes(table, visited.insert(key)).len() == page_nodes(table, visited).len() + (
        if is_page_node(table, key) {
            1int
        } else {
            0int
        }),
{
    broadcast use vstd::set::group_set_axioms;

    lemma_key_sets_are_finite(page_nodes(table, visited));
    if is_page_node(table, key) {
        assert(page_nodes(table, visited.insert(key)) =~= page_nodes(table, visited).insert(key));
    } else {
        assert(page_nodes(table, visited.insert(key)) =~= page_nodes(table, visited));
    }
}

/// The walk from a node visits the node, and besides it only nodes that are
/// reachable from it, each with all its kids; and it adds one page for each
/// `Page` node that it visits.
pub proof fn lemma_walk(
    table: Map<u64, Value>,
    node_ref: (u32, u16),
    pages: Seq<Page>,
    visited: Set<u64>,
    inherited: Dict,
    fuel: nat,
)
    requires
        unvisited(table, visited).len() <= fuel,
    ensures
        match spec_collect(table, node_ref, pages, visited, inherited, fuel) {
            Ok((p, v)) => {
                &&& v.contains(object_key(node_ref))
                &&& walked(table, object_key(node_ref), visited, v)
                &&& p.len() + page_nodes(table, visited).len() == pages.len() + page_nodes(
                    table,
                    v,
                ).len()
            },
            Err(_) => true,
        },
    decreases fuel, 0nat, 0nat,
{
    let key = object_key(node_ref);
    lemma_page_is_not_pages();
    if !visited.contains(key) {
        match table_get(table, node_ref) {
            Some(Value::Dictionary(node)) => {
                lemma_visit_one(table, visited, key);
                lemma_page_nodes_with(table, visited, key);
                lemma_reaches_itself(table, key);
                let kind = dict_get(node, "Type"@);
                let with_key = visited.insert(key);
                assert(node_at(table, key) == Some(node));
                if kind != Some(Value::Name("Page"@)) && kind == Some(Value::Name("Pages"@)) {
                    match dict_get(node, "Kids"@) {
                        Some(Value::Array(kids)) => {
                            let resources = with_resources(inherited, node, table);
                            assert(kids_of(table, key) == kids);
                            lemma_walk_kids(
                                table,
                                key,
                                kids,
                                0,
                                pages,
                                with_key,
                                resources,
                                (fuel - 1) as nat,
                            );
                            match spec_collect_kids(
                                table,
                                kids,
                                0,
                                pages,
                                with_key,
                                resources,
                                (fuel - 1) as nat,
                            ) {
                                Ok((p, v)) => {
                                    assert(v.contains(key));
                                    assert(kids_within(table, key, v)) by {
                                        assert forall|kid: u64| is_kid(table, key, kid) implies v.contains(
                                            kid,
                                        ) by {
                                            let j = choose|j: int|
                                                0 <= j < kids.len() && #[trigger] kid_key(kids[j])
                                                    == Some(kid);
                                            assert(kid_key(kids[j]) is Some);
                                        }
                                    }
                                    assert(walked(table, key, visited, v));
                                },
                                Err(_) => {},
                            }
                        },
                        _ => {
                            assert(kids_within(table, key, with_key));
                            assert(walked(table, key, visited, with_key));
                        },
                    }
                } else {
                    assert(kids_of(table, key) =~= Seq::<Value>::empty());
                    assert(kids_within(table, key, with_key));
                    assert(walked(table, key, visited, with_key));
                }
            },
            _ => {},
        }
    }
}

/// The same for the walk over the kids of the node under `parent`, from the
/// kid at `i` on: every such kid that is a reference is visited afterwards.
pub proof fn lemma_walk_kids(
    table: Map<u64, Value>,
    parent: u64,
    kids: Seq<Value>,
    i: int,
    pages: Seq<Page>,
    visited: Set<u64>,
    inherited: Dict,
    fuel: nat,
)
    requires
        kids == kids_of(table, parent),
        0 <= i,
        unvisited(table, visited).len() <= fuel,
    ensures
        match spec_collect_kids(table, kids, i, pages, visited, inherited, fuel) {
            Ok((p, v)) => {
                &&& walked(table, parent, visited, v)
                &&& forall|j: int|
                    i <= j < kids.len() && (#[trigger] kid_key(kids[j])) is Some ==> v.contains(
                        kid_key(kids[j])->0,
                    )
                &&& p.len() + page_nodes(table, visited).len() == pages.len() + page_nodes(
                    table,
                    v,
                ).len()
            },
            Err(_) => true,
        },
    decreases fuel, 1nat, kids.len() - i,
{
    if i < kids.len() {
        match kids[i] {
            Value::Reference(r) => {
                let kid = object_key(r);
                assert(kid_key(kids[i]) == Some(kid));
                assert(is_kid(table, parent, kid));
                lemma_walk(table, r, pages, visited, inherited, fuel);
                match spec_collect(table, r, pages, visited, inherited, fuel) {
                    Ok((some, seen)) => {
                        lemma_visit_more(table, visited, seen);
                        lemma_walk_kids(table, parent, kids, i + 1, some, seen, inherited, fuel);
                        match spec_collect_kids(table, kids, i + 1, some, seen, inherited, fuel) {
                            Ok((all, done)) => {
                                assert forall|k: u64| #[trigger]
                                    done.contains(k) && !visited.contains(k) implies reaches(
                                    table,
                                    parent,
                                    k,
                                ) && kids_within(table, k, done) by {
                                    if seen.contains(k) {
                                        lemma_reaches_through_kid(table, parent, kid, k);
                                        assert(kids_within(table, k, seen));
                                    }
                                }
                                assert forall|j: int|
                                    i <= j < kids.len() && (#[trigger] kid_key(
                                        kids[j],
                                    )) is Some implies done.contains(kid_key(kids[j])->0) by {
                                    if j == i {
                                        assert(seen.contains(kid));
                                    }
                                }
                            },
                            Err(_) => {},
                        }
                    },
                    Err(_) => {},
                }
            },
            _ => {
                lemma_walk_kids(table, parent, kids, i + 1, pages, visited, inherited, fuel);
            },
        }
    }
}

/// The key of the root of the page tree: the node that the catalog names
/// under `Pages`.
pub open spec fn page_tree_root(table: Map<u64, Value>, root_ref: (u32, u16)) -> u64
    recommends
        spec_page_tree(table, root_ref) is Ok,
{
    object_key(
        dict_get(table_get(table, root_ref)->0->Dictionary_0, "Pages"@)->0->Reference_0,
    )
}

/// A page tree that can be walked gives as many pages as it has `Page`
/// nodes that are reachable from its root.
pub proof fn lemma_pages_are_the_reachable_page_nodes(
    table: Map<u64, Value>,
    root_ref: (u32, u16),
)
    requires
        spec_page_tree(table, root_ref) is Ok,
    ensures
        spec_page_tree(table, root_ref)->Ok_0.len() == reachable_pages(
            table,
            page_tree_root(table, root_ref),
        ).len(),
{
    broadcast use vstd::set::group_set_axioms;

    let pages_ref = dict_get(table_get(table, root_ref)->0->Dictionary_0, "Pages"@)->0->Reference_0;
    let start = object_key(pages_ref);
    let none = Set::<u64>::empty();
    assert(unvisited(table, none) =~= table.dom());
    lemma_walk(table, pages_ref, Seq::empty(), none, Seq::empty(), table.dom().len());
    let (pages, v) = spec_collect(
        table,
        pages_ref,
        Seq::empty(),
        none,
        Seq::empty(),
        table.dom().len(),
    )->Ok_0;
    assert(page_nodes(table, none) =~= Set::<u64>::empty());
    assert forall|k: u64| #[trigger] v.contains(k) implies kids_within(table, k, v) by {}
    assert forall|k: u64| reachable_pages(table, start).contains(k) implies page_nodes(
        table,
        v,
    ).contains(k) by {
        let steps = choose|steps: nat| reaches_within(table, start, k, steps);
        lemma_closed_set_holds_what_is_reached(table, v, start, k, steps);
    }
    assert(page_nodes(table, v) =~= reachable_pages(table, start));
}

} // verus!
