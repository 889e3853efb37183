//! The page tree: from the catalog to the content of every page.
//!
//! The tree is walked depth first, the kids of a node from left to right.
//! Resources go down from a node to its descendants, an entry of a
//! descendant winning over an inherited one. A node is visited once, so a
//! tree with a cycle in it is walked to the end as well.
use crate::error::{parse_error, PdfError};
use crate::font::{extract_fonts, FontMap, Fonts, spec_fonts};
use crate::object::{
    clone_dict, Dict, dict_get, dict_insert, lemma_key_sets_are_finite, make_object_key,
    obj_models, object_key, ObjectTable, PdfDict, PdfObj, table_get, Value,
};
use crate::page::{Page, page_models, PageContent, stream_models};
use crate::stream::{decoded, handle_stream_filters, spec_stream_filters};
use crate::text::{dict_under, dictionary_under};
use std::collections::BTreeSet;
use vstd::prelude::*;

verus! {

/// The kind of an error, without its message.
pub enum Fault {
    /// The structure of the file is faulty.
    Parse,
    /// A stream filter failed.
    Decompression,
}

/// The kind of an error.
pub open spec fn fault_of(e: PdfError) -> Fault {
    match e {
        PdfError::ParseError(_) => Fault::Parse,
        PdfError::DecompressionError(_) => Fault::Decompression,
    }
}

/// A dictionary with the entries of `overlay` from `i` on entered in their
/// order.
pub open spec fn merged(base: Dict, overlay: Dict, i: int) -> Dict
    decreases overlay.len() - i,
{
    if i < 0 || i >= overlay.len() {
        base
    } else {
        merged(dict_insert(base, overlay[i].0, overlay[i].1), overlay, i + 1)
    }
}

/// The resources at a node: the inherited ones with those of the node, its
/// `Resources` dictionary, entered over them.
pub open spec fn with_resources(inherited: Dict, node: Dict, table: Map<u64, Value>) -> Dict {
    match dict_under(node, "Resources"@, table) {
        Some(local) => merged(inherited, local, 0),
        None => inherited,
    }
}

#[verifier::loop_isolation(false)]
fn merge_into(target: &mut PdfDict, overlay: &PdfDict)
    ensures
        final(target).model() == merged(old(target).model(), overlay.model(), 0),
{
    let mut i: usize = 0;
    while i < overlay.entries.len()
        invariant
            i <= overlay.entries.len(),
            merged(target.model(), overlay.model(), i as int) == merged(
                old(target).model(),
                overlay.model(),
                0,
            ),
        decreases overlay.entries.len() - i,
    {
        let entry = &overlay.entries[i];
        target.insert(entry.key.clone(), entry.value.deep_clone());
        i += 1;
    }
}

fn resources_at(inherited: &PdfDict, node: &PdfDict, objects: &ObjectTable) -> (r: PdfDict)
    ensures
        r.model() == with_resources(inherited.model(), node.model(), objects.model()),
{
    let mut resources = clone_dict(inherited);
    match dictionary_under(node, "Resources", objects) {
        Some(local) => {
            merge_into(&mut resources, local);
        },
        None => {},
    }
    resources
}

/// The fonts of a page: those of the font dictionary of its resources.
pub open spec fn page_fonts(resources: Dict, table: Map<u64, Value>) -> Fonts {
    match dict_under(resources, "Font"@, table) {
        Some(fd) => spec_fonts(fd, table),
        None => Seq::empty(),
    }
}

fn fonts_at(resources: &PdfDict, objects: &ObjectTable) -> (r: FontMap)
    ensures
        r.model() == page_fonts(resources.model(), objects.model()),
{
    match dictionary_under(resources, "Font", objects) {
        Some(font_dict) => extract_fonts(font_dict, objects),
        None => FontMap::new(),
    }
}

/// The stream that a value refers to.
pub open spec fn referred_stream(v: Value, table: Map<u64, Value>) -> Option<(Dict, Seq<u8>)> {
    match v {
        Value::Reference(r) => match table_get(table, r) {
            Some(Value::Stream(d, data)) => Some((d, data)),
            _ => None,
        },
        _ => None,
    }
}

/// The content streams that the items from `i` on refer to, decoded and
/// appended to `acc`. An item that refers to no stream is passed over; a
/// stream whose filters fail is an error.
pub open spec fn content_of_items(
    items: Seq<Value>,
    table: Map<u64, Value>,
    i: int,
    acc: Seq<Seq<u8>>,
) -> Result<Seq<Seq<u8>>, Fault>
    decreases items.len() - i,
{
    if i < 0 || i >= items.len() {
        Ok(acc)
    } else {
        match referred_stream(items[i], table) {
            Some((d, data)) => match spec_stream_filters(d, data) {
                Some(bytes) => content_of_items(items, table, i + 1, acc.push(bytes)),
                None => Err(Fault::Decompression),
            },
            None => content_of_items(items, table, i + 1, acc),
        }
    }
}

/// The content streams of a page: `Contents` refers to one stream or to an
/// array of references to streams, or is such an array.
pub open spec fn page_contents(page: Dict, table: Map<u64, Value>) -> Result<
    Seq<Seq<u8>>,
    Fault,
> {
    match dict_get(page, "Contents"@) {
        Some(Value::Reference(r)) => match table_get(table, r) {
            Some(Value::Stream(d, data)) => match spec_stream_filters(d, data) {
                Some(bytes) => Ok(seq![bytes]),
                None => Err(Fault::Decompression),
            },
            Some(Value::Array(items)) => content_of_items(items, table, 0, Seq::empty()),
            _ => Ok(Seq::empty()),
        },
        Some(Value::Array(items)) => content_of_items(items, table, 0, Seq::empty()),
        _ => Ok(Seq::empty()),
    }
}

/// The value of the outcome of decoding content streams.
pub open spec fn streams_result(r: Result<Vec<Vec<u8>>, PdfError>) -> Result<Seq<Seq<u8>>, Fault> {
    match r {
        Ok(v) => Ok(stream_models(v@)),
        Err(e) => Err(fault_of(e)),
    }
}

fn referred<'a>(item: &PdfObj, objects: &'a ObjectTable) -> (r: Option<&'a crate::object::PdfStream>)
    ensures
        match referred_stream(item.model(), objects.model()) {
            Some((d, data)) => r is Some && r->0.dict.model() == d && r->0.data@ == data,
            None => r is None,
        },
{
    match item {
        PdfObj::Reference(reference) => match objects.get(reference) {
            Some(target) => target.as_stream(),
            None => None,
        },
        _ => None,
    }
}

#[verifier::loop_isolation(false)]
fn decode_items(items: &Vec<PdfObj>, objects: &ObjectTable) -> (r: Result<Vec<Vec<u8>>, PdfError>)
    ensures
        streams_result(r) == content_of_items(
            obj_models(items@),
            objects.model(),
            0,
            Seq::empty(),
        ),
{
    let mut out: Vec<Vec<u8>> = Vec::new();
    assert(stream_models(out@) =~= Seq::<Seq<u8>>::empty());
    let mut i: usize = 0;
    while i < items.len()
        invariant
            i <= items.len(),
            content_of_items(obj_models(items@), objects.model(), i as int, stream_models(out@))
                == content_of_items(obj_models(items@), objects.model(), 0, Seq::empty()),
        decreases items.len() - i,
    {
        match referred(&items[i], objects) {
            Some(stream) => {
                let ghost before = stream_models(out@);
                match handle_stream_filters(&stream.dict, stream.data.as_slice()) {
                    Ok(bytes) => {
                        out.push(bytes);
                        assert(stream_models(out@) =~= before.push(bytes@));
                    },
                    Err(e) => {
                        return Err(e);
                    },
                }
            },
            None => {},
        }
        i += 1;
    }
    Ok(out)
}

fn contents_of(page_dict: &PdfDict, objects: &ObjectTable) -> (r: Result<Vec<Vec<u8>>, PdfError>)
    ensures
        streams_result(r) == page_contents(page_dict.model(), objects.model()),
{
    let none: Vec<Vec<u8>> = Vec::new();
    assert(stream_models(none@) =~= Seq::<Seq<u8>>::empty());
    match page_dict.get("Contents") {
        Some(PdfObj::Reference(content_ref)) => match objects.get(content_ref) {
            Some(PdfObj::Stream(stream)) => {
                proof {
                    crate::object::lemma_model_of_stream(*stream);
                }
                match handle_stream_filters(&stream.dict, stream.data.as_slice()) {
                    Ok(bytes) => {
                        let mut one: Vec<Vec<u8>> = Vec::new();
                        one.push(bytes);
                        assert(stream_models(one@) =~= seq![bytes@]);
                        Ok(one)
                    },
                    Err(e) => Err(e),
                }
            },
            Some(PdfObj::Array(arr)) => {
                proof {
                    crate::object::lemma_model_of_array(*arr);
                }
                decode_items(arr, objects)
            },
            _ => Ok(none),
        },
        Some(PdfObj::Array(contents)) => {
            proof {
                crate::object::lemma_model_of_array(*contents);
            }
            decode_items(contents, objects)
        },
        _ => Ok(none),
    }
}

/// The pages under a node, appended to `pages`, and the nodes that have been
/// visited. A node that was visited adds nothing. A `Page` adds its content;
/// a `Pages` node adds the pages under its kids; any other node adds
/// nothing. A node that is missing, or is no dictionary, is an error.
/// `fuel` is how many levels may still be entered.
pub open spec fn spec_collect(
    table: Map<u64, Value>,
    node_ref: (u32, u16),
    pages: Seq<Page>,
    visited: Set<u64>,
    inherited: Dict,
    fuel: nat,
) -> Result<(Seq<Page>, Set<u64>), Fault>
    decreases fuel, 0nat, 0nat,
{
    let key = object_key(node_ref);
    if visited.contains(key) {
        Ok((pages, visited))
    } else {
        match table_get(table, node_ref) {
            Some(Value::Dictionary(node)) => {
                let kind = dict_get(node, "Type"@);
                if kind == Some(Value::Name("Page"@)) {
                    match page_contents(node, table) {
                        Ok(streams) => {
                            let resources = with_resources(inherited, node, table);
                            Ok(
                                (
                                    pages.push(
                                        Page {
                                            content_streams: streams,
                                            fonts: page_fonts(resources, table),
                                            resources,
                                        },
                                    ),
                                    visited.insert(key),
                                ),
                            )
                        },
                        Err(f) => Err(f),
                    }
                } else if kind == Some(Value::Name("Pages"@)) && fuel > 0 {
                    match dict_get(node, "Kids"@) {
                        Some(Value::Array(kids)) => spec_collect_kids(
                            table,
                            kids,
                            0,
                            pages,
                            visited.insert(key),
                            with_resources(inherited, node, table),
                            (fuel - 1) as nat,
                        ),
                        _ => Ok((pages, visited.insert(key))),
                    }
                } else {
                    Ok((pages, visited.insert(key)))
                }
            },
            _ => Err(Fault::Parse),
        }
    }
}

/// The pages under the kids from `i` on. A kid that is no reference is
/// passed over.
pub open spec fn spec_collect_kids(
    table: Map<u64, Value>,
    kids: Seq<Value>,
    i: int,
    pages: Seq<Page>,
    visited: Set<u64>,
    inherited: Dict,
    fuel: nat,
) -> Result<(Seq<Page>, Set<u64>), Fault>
    decreases fuel, 1nat, kids.len() - i,
{
    if i < 0 || i >= kids.len() {
        Ok((pages, visited))
    } else {
        match kids[i] {
            Value::Reference(r) => match spec_collect(table, r, pages, visited, inherited, fuel) {
                Ok((p, v)) => spec_collect_kids(table, kids, i + 1, p, v, inherited, fuel),
                Err(f) => Err(f),
            },
            _ => spec_collect_kids(table, kids, i + 1, pages, visited, inherited, fuel),
        }
    }
}

fn visited_has(visited: &BTreeSet<u64>, key: u64) -> (r: bool)
    ensures
        r == visited@.contains(key),
{
    broadcast use vstd::std_specs::btree::group_btree_axioms;
    broadcast use vstd::laws_cmp::group_laws_cmp;

    visited.contains(&key)
}

fn visited_add(visited: &mut BTreeSet<u64>, key: u64)
    ensures
        final(visited)@ == old(visited)@.insert(key),
{
    broadcast use vstd::std_specs::btree::group_btree_axioms;
    broadcast use vstd::laws_cmp::group_laws_cmp;

    visited.insert(key);
}

/// The pages and the visited nodes after a step of the walk that may fail.
pub open spec fn collected(
    status: Result<(), PdfError>,
    pages: Seq<PageContent>,
    visited: Set<u64>,
) -> Result<(Seq<Page>, Set<u64>), Fault> {
    match status {
        Ok(_) => Ok((page_models(pages), visited)),
        Err(e) => Err(fault_of(e)),
    }
}

fn node_kind(node: &PdfDict) -> (r: u8)
    ensures
        r == if dict_get(node.model(), "Type"@) == Some(Value::Name("Page"@)) {
            1u8
        } else if dict_get(node.model(), "Type"@) == Some(Value::Name("Pages"@)) {
            2u8
        } else {
            0u8
        },
{
    match node.get("Type") {
        Some(PdfObj::Name(name)) => {
            if crate::bytes::str_is(name, "Page") {
                1
            } else if crate::bytes::str_is(name, "Pages") {
                2
            } else {
                0
            }
        },
        _ => 0,
    }
}

fn make_page(node: &PdfDict, inherited: &PdfDict, objects: &ObjectTable) -> (r: Result<
    PageContent,
    PdfError,
>)
    ensures
        match page_contents(node.model(), objects.model()) {
            Ok(streams) => r is Ok && r->Ok_0.model() == (Page {
                content_streams: streams,
                fonts: page_fonts(
                    with_resources(inherited.model(), node.model(), objects.model()),
                    objects.model(),
                ),
                resources: with_resources(inherited.model(), node.model(), objects.model()),
            }),
            Err(f) => r is Err && fault_of(r->Err_0) == f,
        },
{
    let resources = resources_at(inherited, node, objects);
    let fonts = fonts_at(&resources, objects);
    match contents_of(node, objects) {
        Ok(content_streams) => Ok(PageContent { content_streams, fonts, resources }),
        Err(e) => Err(e),
    }
}

/// Collects the pages under a node.
pub fn collect_pages(
    objects: &ObjectTable,
    page_ref: &(u32, u16),
    pages: &mut Vec<PageContent>,
    visited: &mut BTreeSet<u64>,
    inherited_resources: &PdfDict,
    fuel: usize,
) -> (r: Result<(), PdfError>)
    ensures
        collected(r, final(pages)@, final(visited)@) == spec_collect(
            objects.model(),
            *page_ref,
            page_models(old(pages)@),
            old(visited)@,
            inherited_resources.model(),
            fuel as nat,
        ),
    decreases fuel, 0nat, 0nat,
{
    let key = make_object_key(*page_ref);
    if visited_has(visited, key) {
        return Ok(());
    }
    let page_dict = match resolve_dictionary(objects, page_ref) {
        Some(d) => d,
        None => {
            return Err(parse_error("Page is not a dictionary"));
        },
    };
    visited_add(visited, key);
    let kind = node_kind(page_dict);
    if kind == 1 {
        let ghost before = page_models(pages@);
        let page = match make_page(page_dict, inherited_resources, objects) {
            Ok(p) => p,
            Err(e) => {
                return Err(e);
            },
        };
        pages.push(page);
        assert(page_models(pages@) =~= before.push(page.model()));
        Ok(())
    } else if kind == 2 && fuel > 0 {
        match page_dict.get("Kids") {
            Some(PdfObj::Array(kids)) => {
                proof {
                    crate::object::lemma_model_of_array(*kids);
                }
                let new_inherited = resources_at(inherited_resources, page_dict, objects);
                collect_kids(objects, kids, pages, visited, &new_inherited, fuel - 1)
            },
            _ => Ok(()),
        }
    } else {
        Ok(())
    }
}

fn resolve_dictionary<'a>(objects: &'a ObjectTable, reference: &(u32, u16)) -> (r: Option<
    &'a PdfDict,
>)
    ensures
        match table_get(objects.model(), *reference) {
            Some(Value::Dictionary(d)) => r is Some && r->0.model() == d,
            _ => r is None,
        },
{
    match objects.get(reference) {
        Some(o) => o.as_dictionary(),
        None => None,
    }
}

fn collect_kids(
    objects: &ObjectTable,
    kids: &Vec<PdfObj>,
    pages: &mut Vec<PageContent>,
    visited: &mut BTreeSet<u64>,
    inherited: &PdfDict,
    fuel: usize,
) -> (r: Result<(), PdfError>)
    ensures
        collected(r, final(pages)@, final(visited)@) == spec_collect_kids(
            objects.model(),
            obj_models(kids@),
            0,
            page_models(old(pages)@),
            old(visited)@,
            inherited.model(),
            fuel as nat,
        ),
    decreases fuel, 1nat, kids@.len(),
{
    let ghost expected = spec_collect_kids(
        objects.model(),
        obj_models(kids@),
        0,
        page_models(pages@),
        visited@,
        inherited.model(),
        fuel as nat,
    );
    let mut i: usize = 0;
    while i < kids.len()
        invariant
            i <= kids.len(),
            expected == spec_collect_kids(
                objects.model(),
                obj_models(kids@),
                0,
                page_models(old(pages)@),
                old(visited)@,
                inherited.model(),
                fuel as nat,
            ),
            spec_collect_kids(
                objects.model(),
                obj_models(kids@),
                i as int,
                page_models(pages@),
                visited@,
                inherited.model(),
                fuel as nat,
            ) == expected,
        decreases kids.len() - i,
    {
        match &kids[i] {
            PdfObj::Reference(kid_ref) => {
                match collect_pages(objects, kid_ref, pages, visited, inherited, fuel) {
                    Ok(_) => {},
                    Err(e) => {
                        return Err(e);
                    },
                }
            },
            _ => {},
        }
        i += 1;
    }
    Ok(())
}

/// The pages of a document: the catalog that the trailer names must be a
/// dictionary with a reference to the root of the page tree under `Pages`.
pub open spec fn spec_page_tree(table: Map<u64, Value>, root_ref: (u32, u16)) -> Result<
    Seq<Page>,
    Fault,
> {
    match table_get(table, root_ref) {
        Some(Value::Dictionary(root)) => match dict_get(root, "Pages"@) {
            Some(Value::Reference(pages_ref)) => match spec_collect(
                table,
                pages_ref,
                Seq::empty(),
                Set::empty(),
                Seq::empty(),
                table.dom().len(),
            ) {
                Ok((pages, _)) => Ok(pages),
                Err(f) => Err(f),
            },
            _ => Err(Fault::Parse),
        },
        _ => Err(Fault::Parse),
    }
}

/// The value of the outcome of the walk.
pub open spec fn pages_result(r: Result<Vec<PageContent>, PdfError>) -> Result<Seq<Page>, Fault> {
    match r {
        Ok(v) => Ok(page_models(v@)),
        Err(e) => Err(fault_of(e)),
    }
}

fn new_visited() -> (r: BTreeSet<u64>)
    ensures
        r@ == Set::<u64>::empty(),
{
    BTreeSet::new()
}

/// Walks the page tree from the catalog.
pub fn parse_page_tree(objects: &ObjectTable, root_ref: &(u32, u16)) -> (r: Result<
    Vec<PageContent>,
    PdfError,
>)
    ensures
        pages_result(r) == spec_page_tree(objects.model(), *root_ref),
{
    let root_dict = match resolve_dictionary(objects, root_ref) {
        Some(d) => d,
        None => {
            return Err(parse_error("Root is not a dictionary"));
        },
    };
    let pages_ref = match root_dict.get("Pages") {
        Some(PdfObj::Reference(r)) => r,
        _ => {
            return Err(parse_error("No Pages in root"));
        },
    };
    let mut pages: Vec<PageContent> = Vec::new();
    assert(page_models(pages@) =~= Seq::<Page>::empty());
    let mut visited = new_visited();
    let none = PdfDict::new();
    let fuel = objects.len();
    assert(objects.model().dom() =~= objects.map@.dom());
    match collect_pages(objects, pages_ref, &mut pages, &mut visited, &none, fuel) {
        Ok(_) => Ok(pages),
        Err(e) => Err(e),
    }
}

/// The objects of a table that the walk has not visited.
pub open spec fn unvisited(table: Map<u64, Value>, visited: Set<u64>) -> Set<u64> {
    table.dom().difference(visited)
}

/// Visiting a node of the table leaves one node less to visit.
pub proof fn lemma_visit_one(table: Map<u64, Value>, visited: Set<u64>, key: u64)
    requires
        table.contains_key(key),
        !visited.contains(key),
    ensures
        unvisited(table, visited).len() >= 1,
        unvisited(table, visited.insert(key)).len() == unvisited(table, visited).len() - 1,
{
    broadcast use vstd::set::group_set_axioms;

    lemma_key_sets_are_finite(table.dom());
    assert(unvisited(table, visited).contains(key));
    assert(unvisited(table, visited.insert(key)) =~= unvisited(table, visited).remove(key));
}

/// The more nodes were visited, the fewer are left.
pub proof fn lemma_visit_more(table: Map<u64, Value>, visited: Set<u64>, later: Set<u64>)
    requires
        visited.subset_of(later),
    ensures
        unvisited(table, later).len() <= unvisited(table, visited).len(),
{
    broadcast use vstd::set::group_set_axioms;

    lemma_key_sets_are_finite(table.dom());
    vstd::set_lib::lemma_len_subset(unvisited(table, later), unvisited(table, visited));
}

/// The walk never runs out of fuel: with as much fuel as the table has
/// objects that were not visited, more fuel changes nothing. A walk only
/// adds to the visited nodes.
pub proof fn lemma_fuel_suffices(
    table: Map<u64, Value>,
    node_ref: (u32, u16),
    pages: Seq<Page>,
    visited: Set<u64>,
    inherited: Dict,
    fuel: nat,
    more: nat,
)
    requires
        unvisited(table, visited).len() <= fuel <= more,
    ensures
        spec_collect(table, node_ref, pages, visited, inherited, fuel) == spec_collect(
            table,
            node_ref,
            pages,
            visited,
            inherited,
            more,
        ),
        spec_collect(table, node_ref, pages, visited, inherited, fuel) is Ok ==> visited.subset_of(
            (spec_collect(table, node_ref, pages, visited, inherited, fuel)->Ok_0).1,
        ),
    decreases fuel, 0nat, 0nat,
{
    let key = object_key(node_ref);
    if !visited.contains(key) {
        match table_get(table, node_ref) {
            Some(Value::Dictionary(node)) => {
                lemma_visit_one(table, visited, key);
                let kind = dict_get(node, "Type"@);
                if kind != Some(Value::Name("Page"@)) && kind == Some(Value::Name("Pages"@)) {
                    match dict_get(node, "Kids"@) {
                        Some(Value::Array(kids)) => {
                            lemma_fuel_suffices_for_kids(
                                table,
                                kids,
                                0,
                                pages,
                                visited.insert(key),
                                with_resources(inherited, node, table),
                                (fuel - 1) as nat,
                                (more - 1) as nat,
                            );
                        },
                        _ => {},
                    }
                }
            },
            _ => {},
        }
    }
}

/// The same for the walk over the kids of a node.
pub proof fn lemma_fuel_suffices_for_kids(
    table: Map<u64, Value>,
    kids: Seq<Value>,
    i: int,
    pages: Seq<Page>,
    visited: Set<u64>,
    inherited: Dict,
    fuel: nat,
    more: nat,
)
    requires
        unvisited(table, visited).len() <= fuel <= more,
    ensures
        spec_collect_kids(table, kids, i, pages, visited, inherited, fuel) == spec_collect_kids(
            table,
            kids,
            i,
            pages,
            visited,
            inherited,
            more,
        ),
        spec_collect_kids(table, kids, i, pages, visited, inherited, fuel) is Ok
            ==> visited.subset_of(
            (spec_collect_kids(table, kids, i, pages, visited, inherited, fuel)->Ok_0).1,
        ),
    decreases fuel, 1nat, kids.len() - i,
{
    if 0 <= i < kids.len() {
        match kids[i] {
            Value::Reference(r) => {
                lemma_fuel_suffices(table, r, pages, visited, inherited, fuel, more);
                match spec_collect(table, r, pages, visited, inherited, fuel) {
                    Ok((p, v)) => {
                        lemma_visit_more(table, visited, v);
                        lemma_fuel_suffices_for_kids(table, kids, i + 1, p, v, inherited, fuel, more);
                    },
                    Err(_) => {},
                }
            },
            _ => {
                lemma_fuel_suffices_for_kids(
                    table,
                    kids,
                    i + 1,
                    pages,
                    visited,
                    inherited,
                    fuel,
                    more,
                );
            },
        }
    }
}

/// The pages of a document are those of the whole walk from the root of its
/// page tree: no bound on the depth of the walk changes them.
pub proof fn lemma_page_tree_is_walked_to_the_end(
    table: Map<u64, Value>,
    root_ref: (u32, u16),
    pages_ref: (u32, u16),
    fuel: nat,
)
    requires
        table_get(table, root_ref) is Some,
        table_get(table, root_ref)->0 is Dictionary,
        dict_get(table_get(table, root_ref)->0->Dictionary_0, "Pages"@) == Some(
            Value::Reference(pages_ref),
        ),
        fuel >= table.dom().len(),
    ensures
        spec_page_tree(table, root_ref) == match spec_collect(
            table,
            pages_ref,
            Seq::empty(),
            Set::empty(),
            Seq::empty(),
            fuel,
        ) {
            Ok((pages, _)) => Ok::<Seq<Page>, Fault>(pages),
            Err(f) => Err(f),
        },
{
    assert(unvisited(table, Set::empty()) =~= table.dom());
    lemma_fuel_suffices(
        table,
        pages_ref,
        Seq::empty(),
        Set::empty(),
        Seq::empty(),
        table.dom().len(),
        fuel,
    );
}

} // verus!
