//! The objects of a PDF file and the table of its indirect objects.
use crate::bytes::str_is;
use crate::number::PdfNumber;
use std::collections::BTreeMap;
use vstd::prelude::*;

verus! {

/// A PDF object.
#[derive(Debug)]
pub enum PdfObj {
    Null,
    Boolean(bool),
    Number(PdfNumber),
    Name(String),
    String(Vec<u8>),
    Array(Vec<PdfObj>),
    Dictionary(PdfDict),
    Stream(PdfStream),
    Reference((u32, u16)),
}

/// One entry of a dictionary.
#[derive(Debug)]
pub struct DictEntry {
    pub key: String,
    pub value: PdfObj,
}

/// A dictionary: entries in the order in which their keys first appeared.
/// Looking a key up gives the first entry that has it; entering a key that
/// is there replaces the value of that entry.
#[derive(Debug)]
pub struct PdfDict {
    pub entries: Vec<DictEntry>,
}

/// A stream: its dictionary and its bytes as they stand in the file.
#[derive(Debug)]
pub struct PdfStream {
    pub dict: PdfDict,
    pub data: Vec<u8>,
}

/// What an object holds, as a mathematical value.
pub enum Value {
    Null,
    Boolean(bool),
    Number(PdfNumber),
    Name(Seq<char>),
    String(Seq<u8>),
    Array(Seq<Value>),
    Dictionary(Seq<(Seq<char>, Value)>),
    Stream(Seq<(Seq<char>, Value)>, Seq<u8>),
    Reference((u32, u16)),
}

/// The entries of a dictionary as a value.
pub type Dict = Seq<(Seq<char>, Value)>;

impl PdfObj {
    /// The value of the object.
    pub open spec fn model(self) -> Value
        decreases self,
    {
        match self {
            PdfObj::Null => Value::Null,
            PdfObj::Boolean(b) => Value::Boolean(b),
            PdfObj::Number(n) => Value::Number(n),
            PdfObj::Name(s) => Value::Name(s@),
            PdfObj::String(d) => Value::String(d@),
            PdfObj::Array(items) => Value::Array(
                Seq::new(
                    items@.len(),
                    |i: int|
                        if 0 <= i < items@.len() {
                            items@[i].model()
                        } else {
                            Value::Null
                        },
                ),
            ),
            PdfObj::Dictionary(d) => Value::Dictionary(
                Seq::new(
                    d.entries@.len(),
                    |i: int|
                        if 0 <= i < d.entries@.len() {
                            (d.entries@[i].key@, d.entries@[i].value.model())
                        } else {
                            (Seq::empty(), Value::Null)
                        },
                ),
            ),
            PdfObj::Stream(s) => Value::Stream(
                Seq::new(
                    s.dict.entries@.len(),
                    |i: int|
                        if 0 <= i < s.dict.entries@.len() {
                            (s.dict.entries@[i].key@, s.dict.entries@[i].value.model())
                        } else {
                            (Seq::empty(), Value::Null)
                        },
                ),
                s.data@,
            ),
            PdfObj::Reference(r) => Value::Reference(r),
        }
    }
}

/// The values of a run of objects.
pub open spec fn obj_models(items: Seq<PdfObj>) -> Seq<Value> {
    Seq::new(items.len(), |i: int| items[i].model())
}

impl PdfDict {
    /// The entries of the dictionary as a value.
    pub open spec fn model(self) -> Dict {
        Seq::new(
            self.entries@.len(),
            |i: int| (self.entries@[i].key@, self.entries@[i].value.model()),
        )
    }
}

/// The value of an array is made of the values of its items.
pub proof fn lemma_model_of_array(items: Vec<PdfObj>)
    ensures
        PdfObj::Array(items).model() == Value::Array(obj_models(items@)),
{
    let a = PdfObj::Array(items).model();
    assert(a->Array_0 =~= obj_models(items@));
}

/// The value of a dictionary object is the value of its dictionary.
pub proof fn lemma_model_of_dictionary(d: PdfDict)
    ensures
        PdfObj::Dictionary(d).model() == Value::Dictionary(d.model()),
{
    let a = PdfObj::Dictionary(d).model();
    assert(a->Dictionary_0 =~= d.model());
}

/// The value of a stream object is made of its dictionary and its bytes.
pub proof fn lemma_model_of_stream(s: PdfStream)
    ensures
        PdfObj::Stream(s).model() == Value::Stream(s.dict.model(), s.data@),
{
    let a = PdfObj::Stream(s).model();
    assert(a->Stream_0 =~= s.dict.model());
}

/// The position of the first entry at or after `i` that has the key.
pub open spec fn dict_index_from(d: Dict, key: Seq<char>, i: int) -> Option<int>
    decreases d.len() - i,
{
    if i < 0 || i >= d.len() {
        None
    } else if d[i].0 == key {
        Some(i)
    } else {
        dict_index_from(d, key, i + 1)
    }
}

/// The value that a dictionary has for a key.
pub open spec fn dict_get(d: Dict, key: Seq<char>) -> Option<Value> {
    match dict_index_from(d, key, 0) {
        Some(at) => Some(d[at].1),
        None => None,
    }
}

/// A dictionary with `key` set to `value`.
pub open spec fn dict_insert(d: Dict, key: Seq<char>, value: Value) -> Dict {
    match dict_index_from(d, key, 0) {
        Some(at) => d.update(at, (key, value)),
        None => d.push((key, value)),
    }
}

impl PdfDict {
    /// A dictionary without entries.
    pub fn new() -> (r: PdfDict)
        ensures
            r.model() == Seq::<(Seq<char>, Value)>::empty(),
    {
        let r = PdfDict { entries: Vec::new() };
        assert(r.model() =~= Seq::<(Seq<char>, Value)>::empty());
        r
    }

    /// The number of entries.
    pub fn len(&self) -> (r: usize)
        ensures
            r == self.model().len(),
    {
        self.entries.len()
    }

    /// The position of the entry that has the key.
    #[verifier::loop_isolation(false)]
    pub fn position(&self, key: &str) -> (r: Option<usize>)
        ensures
            match r {
                Some(at) => at < self.entries@.len() && dict_index_from(self.model(), key@, 0)
                    == Some(at as int),
                None => dict_index_from(self.model(), key@, 0) is None,
            },
    {
        let mut i: usize = 0;
        while i < self.entries.len()
            invariant
                i <= self.entries.len(),
                dict_index_from(self.model(), key@, i as int) == dict_index_from(
                    self.model(),
                    key@,
                    0,
                ),
            decreases self.entries.len() - i,
        {
            if str_is(&self.entries[i].key, key) {
                return Some(i);
            }
            i += 1;
        }
        None
    }

    /// The value of a key.
    pub fn get(&self, key: &str) -> (r: Option<&PdfObj>)
        ensures
            match r {
                Some(v) => dict_get(self.model(), key@) == Some(v.model()),
                None => dict_get(self.model(), key@) is None,
            },
    {
        match self.position(key) {
            Some(at) => Some(&self.entries[at].value),
            None => None,
        }
    }

    /// Sets a key to a value.
    pub fn insert(&mut self, key: String, value: PdfObj)
        ensures
            final(self).model() == dict_insert(old(self).model(), key@, value.model()),
    {
        let ghost before = self.model();
        match self.position(key.as_str()) {
            Some(at) => {
                self.entries.set(at, DictEntry { key, value });
                assert(self.model() =~= before.update(at as int, (key@, value.model())));
            },
            None => {
                self.entries.push(DictEntry { key, value });
                assert(self.model() =~= before.push((key@, value.model())));
            },
        }
    }
}

impl PdfObj {
    /// A copy of the object with the same value.
    pub fn deep_clone(&self) -> (r: PdfObj)
        ensures
            r.model() == self.model(),
        decreases self,
    {
        match self {
            PdfObj::Null => PdfObj::Null,
            PdfObj::Boolean(b) => PdfObj::Boolean(*b),
            PdfObj::Number(n) => PdfObj::Number(*n),
            PdfObj::Name(s) => PdfObj::Name(s.clone()),
            PdfObj::String(d) => PdfObj::String(vstd::slice::slice_to_vec(d.as_slice())),
            PdfObj::Array(items) => {
                let copy = clone_objects(items);
                proof {
                    lemma_model_of_array(*items);
                    lemma_model_of_array(copy);
                }
                PdfObj::Array(copy)
            },
            PdfObj::Dictionary(d) => {
                let copy = clone_dict(d);
                proof {
                    lemma_model_of_dictionary(*d);
                    lemma_model_of_dictionary(copy);
                }
                PdfObj::Dictionary(copy)
            },
            PdfObj::Stream(s) => {
                let copy = PdfStream {
                    dict: clone_dict(&s.dict),
                    data: vstd::slice::slice_to_vec(s.data.as_slice()),
                };
                proof {
                    lemma_model_of_stream(*s);
                    lemma_model_of_stream(copy);
                }
                PdfObj::Stream(copy)
            },
            PdfObj::Reference(r) => PdfObj::Reference(*r),
        }
    }
}

/// A copy of a run of objects with the same values.
pub fn clone_objects(items: &Vec<PdfObj>) -> (r: Vec<PdfObj>)
    ensures
        obj_models(r@) == obj_models(items@),
    decreases items,
{
    let mut out: Vec<PdfObj> = Vec::new();
    let mut i: usize = 0;
    while i < items.len()
        invariant
            i <= items.len(),
            out@.len() == i,
            forall|j: int| 0 <= j < i ==> out@[j].model() == items@[j].model(),
        decreases items.len() - i,
    {
        proof {
            vstd::std_specs::vec::axiom_vec_index_decreases(*items, i as int);
        }
        out.push(items[i].deep_clone());
        i += 1;
    }
    assert(obj_models(out@) =~= obj_models(items@));
    out
}

/// A copy of a dictionary with the same value.
pub fn clone_dict(d: &PdfDict) -> (r: PdfDict)
    ensures
        r.model() == d.model(),
    decreases d,
{
    let mut out: Vec<DictEntry> = Vec::new();
    let mut i: usize = 0;
    while i < d.entries.len()
        invariant
            i <= d.entries.len(),
            out@.len() == i,
            forall|j: int|
                0 <= j < i ==> out@[j].key@ == d.entries@[j].key@ && out@[j].value.model()
                    == d.entries@[j].value.model(),
        decreases d.entries.len() - i,
    {
        proof {
            vstd::std_specs::vec::axiom_vec_index_decreases(d.entries, i as int);
        }
        let entry = &d.entries[i];
        out.push(DictEntry { key: entry.key.clone(), value: entry.value.deep_clone() });
        i += 1;
    }
    let r = PdfDict { entries: out };
    assert(r.model() =~= d.model());
    r
}

/// The key under which the table holds the object `(number, generation)`.
pub open spec fn object_key(reference: (u32, u16)) -> u64 {
    (reference.0 as u64 * 65536 + reference.1 as u64) as u64
}

/// The key under which the table holds the object of a reference.
pub fn make_object_key(reference: (u32, u16)) -> (r: u64)
    ensures
        r == object_key(reference),
{
    reference.0 as u64 * 65536 + reference.1 as u64
}

/// A set of object keys is finite.
pub proof fn lemma_key_sets_are_finite(s: Set<u64>)
    ensures
        s.finite(),
{
    broadcast use vstd::set_lib::full_set_properties;

    assert(Set::<u64>::full().finite());
    vstd::set_lib::lemma_len_subset(s, Set::<u64>::full());
}

/// Whether a value is a cross-reference stream: a stream whose dictionary
/// has the name `XRef` for `Type`.
pub open spec fn is_xref_stream(v: Value) -> bool {
    v is Stream && dict_get(v->Stream_0, "Type"@) == Some(Value::Name("XRef"@))
}

proof fn lemma_keys_after_push(before: Seq<u64>, after: Seq<u64>, key: u64)
    requires
        after == before.push(key),
    ensures
        after.contains(key),
        forall|k: u64| before.contains(k) ==> after.contains(k),
        forall|k: u64| after.contains(k) ==> before.contains(k) || k == key,
{
    assert(after[before.len() as int] == key);
    assert forall|k: u64| before.contains(k) implies after.contains(k) by {
        let i = choose|i: int| 0 <= i < before.len() && before[i] == k;
        assert(after[i] == k);
    }
    assert forall|k: u64| after.contains(k) implies before.contains(k) || k == key by {
        let i = choose|i: int| 0 <= i < after.len() && after[i] == k;
        if i < before.len() {
            assert(before[i] == k);
        }
    }
}

/// The table of the indirect objects of a file.
pub struct ObjectTable {
    pub map: BTreeMap<u64, PdfObj>,
    pub keys: Vec<u64>,
}

impl ObjectTable {
    /// The objects of the table by their keys.
    pub open spec fn model(&self) -> Map<u64, Value> {
        Map::new(|k: u64| self.map@.contains_key(k), |k: u64| self.map@[k].model())
    }

    /// Every key of the table is recorded.
    pub open spec fn wf(&self) -> bool {
        forall|k: u64| self.map@.contains_key(k) <==> self.keys@.contains(k)
    }

    /// A table without objects.
    pub fn new() -> (r: ObjectTable)
        ensures
            r.wf(),
            r.model() == Map::<u64, Value>::empty(),
    {
        let r = ObjectTable { map: BTreeMap::new(), keys: Vec::new() };
        assert(r.model() =~= Map::<u64, Value>::empty());
        r
    }

    /// The number of objects.
    pub fn len(&self) -> (r: usize)
        ensures
            r == self.map@.dom().len(),
    {
        broadcast use vstd::std_specs::btree::group_btree_axioms;

        self.map.len()
    }

    /// The object that a reference names.
    pub fn get(&self, reference: &(u32, u16)) -> (r: Option<&PdfObj>)
        ensures
            match r {
                Some(o) => self.model().contains_key(object_key(*reference)) && self.model()[object_key(
                    *reference,
                )] == o.model(),
                None => !self.model().contains_key(object_key(*reference)),
            },
    {
        broadcast use vstd::std_specs::btree::group_btree_axioms;
        broadcast use vstd::laws_cmp::group_laws_cmp;

        let key = make_object_key(*reference);
        self.map.get(&key)
    }

    /// Enters an object under a reference, in place of the one that was there.
    pub fn insert(&mut self, reference: (u32, u16), obj: PdfObj)
        requires
            old(self).wf(),
        ensures
            final(self).wf(),
            final(self).model() == old(self).model().insert(object_key(reference), obj.model()),
    {
        broadcast use vstd::std_specs::btree::group_btree_axioms;
        broadcast use vstd::laws_cmp::group_laws_cmp;

        let key = make_object_key(reference);
        let ghost before = self.model();
        let ghost keys_before = self.keys@;
        if !self.map.contains_key(&key) {
            self.keys.push(key);
            proof {
                lemma_keys_after_push(keys_before, self.keys@, key);
            }
        }
        self.map.insert(key, obj);
        assert(self.model() =~= before.insert(key, obj.model()));
    }
}

/// The object that a reference names, if the table has it.
pub fn resolve_reference<'a>(objects: &'a ObjectTable, reference: &(u32, u16)) -> (r: Option<
    &'a PdfObj,
>)
    ensures
        match r {
            Some(o) => objects.model().contains_key(object_key(*reference))
                && objects.model()[object_key(*reference)] == o.model(),
            None => !objects.model().contains_key(object_key(*reference)),
        },
{
    objects.get(reference)
}

impl PdfObj {
    /// The dictionary that the object is, if it is one.
    pub fn as_dictionary(&self) -> (r: Option<&PdfDict>)
        ensures
            match self.model() {
                Value::Dictionary(d) => r is Some && r->0.model() == d,
                _ => r is None,
            },
    {
        match self {
            PdfObj::Dictionary(d) => {
                proof {
                    lemma_model_of_dictionary(*d);
                }
                Some(d)
            },
            _ => None,
        }
    }

    /// The items of the array that the object is, if it is one.
    pub fn as_array(&self) -> (r: Option<&Vec<PdfObj>>)
        ensures
            match self.model() {
                Value::Array(items) => r is Some && obj_models(r->0@) == items,
                _ => r is None,
            },
    {
        match self {
            PdfObj::Array(items) => {
                proof {
                    lemma_model_of_array(*items);
                }
                Some(items)
            },
            _ => None,
        }
    }

    /// The stream that the object is, if it is one.
    pub fn as_stream(&self) -> (r: Option<&PdfStream>)
        ensures
            match self.model() {
                Value::Stream(d, data) => r is Some && r->0.dict.model() == d && r->0.data@ == data,
                _ => r is None,
            },
    {
        match self {
            PdfObj::Stream(s) => {
                proof {
                    lemma_model_of_stream(*s);
                }
                Some(s)
            },
            _ => None,
        }
    }

    /// The name that the object is, if it is one.
    pub fn as_name(&self) -> (r: Option<&String>)
        ensures
            match self.model() {
                Value::Name(n) => r is Some && r->0@ == n,
                _ => r is None,
            },
    {
        match self {
            PdfObj::Name(n) => Some(n),
            _ => None,
        }
    }

}

/// The object that a table has for a reference.
pub open spec fn table_get(table: Map<u64, Value>, reference: (u32, u16)) -> Option<Value> {
    if table.contains_key(object_key(reference)) {
        Some(table[object_key(reference)])
    } else {
        None
    }
}

/// The value of an optional object.
pub open spec fn obj_option_model(o: Option<&PdfObj>) -> Option<Value> {
    match o {
        Some(o) => Some(o.model()),
        None => None,
    }
}

/// The object itself, or the object that it refers to when it is a
/// reference. One reference is followed, not a chain.
pub open spec fn spec_resolved(v: Value, table: Map<u64, Value>) -> Option<Value> {
    match v {
        Value::Reference(r) => table_get(table, r),
        _ => Some(v),
    }
}

/// The object itself, or the object that it refers to.
pub fn resolved<'a>(obj: &'a PdfObj, objects: &'a ObjectTable) -> (r: Option<&'a PdfObj>)
    ensures
        obj_option_model(r) == spec_resolved(obj.model(), objects.model()),
{
    match obj {
        PdfObj::Reference(reference) => objects.get(reference),
        _ => Some(obj),
    }
}

/// Whether `k` is the least key of the table under which a cross-reference
/// stream stands.
pub open spec fn is_least_xref_key(table: Map<u64, Value>, k: u64) -> bool {
    &&& table.contains_key(k)
    &&& is_xref_stream(table[k])
    &&& forall|j: u64| j < k && table.contains_key(j) ==> !is_xref_stream(#[trigger] table[j])
}

/// Whether the table holds a cross-reference stream.
pub open spec fn has_xref_stream(table: Map<u64, Value>) -> bool {
    exists|k: u64| table.contains_key(k) && is_xref_stream(#[trigger] table[k])
}

/// The least key under which a cross-reference stream stands.
pub open spec fn least_xref_key(table: Map<u64, Value>) -> u64 {
    choose|k: u64| is_least_xref_key(table, k)
}

/// There is one least key at most.
pub proof fn lemma_least_xref_key_unique(table: Map<u64, Value>, a: u64, b: u64)
    requires
        is_least_xref_key(table, a),
        is_least_xref_key(table, b),
    ensures
        a == b,
{
    if a < b {
        assert(!is_xref_stream(table[a]));
    } else if b < a {
        assert(!is_xref_stream(table[b]));
    }
}

fn obj_is_xref_stream(o: &PdfObj) -> (r: bool)
    ensures
        r == is_xref_stream(o.model()),
{
    match o.as_stream() {
        Some(stream) => match stream.dict.get("Type") {
            Some(PdfObj::Name(name)) => str_is(name, "XRef"),
            _ => false,
        },
        None => false,
    }
}

impl ObjectTable {
    fn get_by_key(&self, key: u64) -> (r: Option<&PdfObj>)
        ensures
            match r {
                Some(o) => self.model().contains_key(key) && self.model()[key] == o.model(),
                None => !self.model().contains_key(key),
            },
    {
        broadcast use vstd::std_specs::btree::group_btree_axioms;
        broadcast use vstd::laws_cmp::group_laws_cmp;

        self.map.get(&key)
    }

    /// The cross-reference stream with the least key.
    #[verifier::loop_isolation(false)]
    pub fn first_xref_stream(&self) -> (r: Option<&PdfStream>)
        requires
            self.wf(),
        ensures
            match r {
                Some(s) => is_least_xref_key(self.model(), least_xref_key(self.model()))
                    && self.model()[least_xref_key(self.model())] == Value::Stream(
                    s.dict.model(),
                    s.data@,
                ),
                None => !has_xref_stream(self.model()),
            },
    {
        let ghost table = self.model();
        let mut best: Option<u64> = None;
        let mut i: usize = 0;
        while i < self.keys.len()
            invariant
                i <= self.keys.len(),
                match best {
                    Some(b) => table.contains_key(b) && is_xref_stream(table[b]),
                    None => true,
                },
                forall|j: int|
                    0 <= j < i && table.contains_key(#[trigger] self.keys@[j]) && is_xref_stream(
                        table[self.keys@[j]],
                    ) ==> best is Some && best->0 <= self.keys@[j],
            decreases self.keys.len() - i,
        {
            let key = self.keys[i];
            match self.get_by_key(key) {
                Some(o) => {
                    if obj_is_xref_stream(o) {
                        match best {
                            Some(b) => {
                                if key < b {
                                    best = Some(key);
                                }
                            },
                            None => {
                                best = Some(key);
                            },
                        }
                    }
                },
                None => {},
            }
            i += 1;
        }
        match best {
            Some(b) => {
                proof {
                    assert forall|j: u64| j < b && table.contains_key(j) implies !is_xref_stream(
                        #[trigger] table[j],
                    ) by {
                        assert(self.keys@.contains(j));
                        let at = choose|at: int| 0 <= at < self.keys@.len() && self.keys@[at] == j;
                        assert(self.keys@[at] == j);
                    }
                    assert(is_least_xref_key(table, b));
                    lemma_least_xref_key_unique(table, b, least_xref_key(table));
                }
                match self.get_by_key(b) {
                    Some(o) => o.as_stream(),
                    None => None,
                }
            },
            None => {
                proof {
                    assert forall|k: u64| table.contains_key(k) implies !is_xref_stream(
                        #[trigger] table[k],
                    ) by {
                        assert(self.keys@.contains(k));
                        let at = choose|at: int| 0 <= at < self.keys@.len() && self.keys@[at] == k;
                        assert(self.keys@[at] == k);
                    }
                }
                None
            },
        }
    }
}

} // verus!
