//! Edits and the dictionaries that index their identifiers.
//!
//! On the wire an operation refers to properties, relation types, languages
//! and objects by their index in four dictionaries. The encoder builds the
//! dictionaries in first-seen order with a `DictionaryBuilder`; the decoder
//! reads them into `WireDictionaries`.

use std::collections::HashMap;
use vstd::prelude::*;
use crate::codec::primitives::ids_view;
use crate::codec::primitives::ids_well_formed;
use crate::model::id::Id;
use crate::model::id::opt_id_view;
use crate::model::op::Op;
use crate::model::op::OpView;
use crate::model::op::ops_view;
use crate::model::value::DataType;
use crate::model::value::be_nat;
use crate::model::value::pow256;
use crate::model::value::lemma_be_nat_bound;

verus! {

broadcast use vstd::std_specs::hash::group_hash_axioms;

// ---------------------------------------------------------------------------
// Edit
// ---------------------------------------------------------------------------

/// A batch of operations that is applied as one.
#[derive(Debug, Clone, PartialEq)]
pub struct Edit {
    /// The edit's identifier.
    pub id: Id,
    /// A name for readers.
    pub name: String,
    /// The authors of the edit.
    pub authors: Vec<Id>,
    /// Creation time in microseconds since the Unix epoch.
    pub created_at: i64,
    /// The operations, in the order in which they apply.
    pub ops: Vec<Op>,
}

/// The view of an edit.
pub struct EditView {
    pub id: Seq<u8>,
    pub name: Seq<char>,
    pub authors: Seq<Seq<u8>>,
    pub created_at: i64,
    pub ops: Seq<OpView>,
}

impl View for Edit {
    type V = EditView;

    open spec fn view(&self) -> EditView {
        EditView {
            id: self.id@,
            name: self.name@,
            authors: ids_view(self.authors@),
            created_at: self.created_at,
            ops: ops_view(self.ops@),
        }
    }
}

// ---------------------------------------------------------------------------
// Dictionaries
// ---------------------------------------------------------------------------

/// The view of the four dictionaries: lists in insertion order. The type of
/// the `i`-th property stands at index `i` of `property_types`.
pub struct DictView {
    pub property_ids: Seq<Seq<u8>>,
    pub property_types: Seq<DataType>,
    pub relation_types: Seq<Seq<u8>>,
    pub languages: Seq<Seq<u8>>,
    pub objects: Seq<Seq<u8>>,
}

/// `list` with `id` behind it, unless it holds `id` already.
pub open spec fn intern_list(list: Seq<Seq<u8>>, id: Seq<u8>) -> Seq<Seq<u8>> {
    if list.contains(id) {
        list
    } else {
        list.push(id)
    }
}

impl DictView {
    /// No dictionary holds anything.
    pub open spec fn empty() -> DictView {
        DictView {
            property_ids: Seq::empty(),
            property_types: Seq::empty(),
            relation_types: Seq::empty(),
            languages: Seq::empty(),
            objects: Seq::empty(),
        }
    }

    /// Every identifier has sixteen bytes and stands once in its dictionary,
    /// and every property has a type.
    pub open spec fn well_formed(self) -> bool {
        &&& self.property_ids.len() == self.property_types.len()
        &&& self.property_ids.no_duplicates()
        &&& self.relation_types.no_duplicates()
        &&& self.languages.no_duplicates()
        &&& self.objects.no_duplicates()
        &&& ids_well_formed(self.property_ids)
        &&& ids_well_formed(self.relation_types)
        &&& ids_well_formed(self.languages)
        &&& ids_well_formed(self.objects)
    }

    /// The dictionaries after a property was added: a property already known
    /// keeps its place and its type.
    pub open spec fn add_property(self, id: Seq<u8>, data_type: DataType) -> DictView {
        if self.property_ids.contains(id) {
            self
        } else {
            DictView {
                property_ids: self.property_ids.push(id),
                property_types: self.property_types.push(data_type),
                ..self
            }
        }
    }

    /// The dictionaries after a relation type was added.
    pub open spec fn add_relation_type(self, id: Seq<u8>) -> DictView {
        DictView { relation_types: intern_list(self.relation_types, id), ..self }
    }

    /// The dictionaries after a language was added; the default language
    /// takes no entry.
    pub open spec fn add_language(self, id: Option<Seq<u8>>) -> DictView {
        match id {
            Some(id) => DictView { languages: intern_list(self.languages, id), ..self },
            None => self,
        }
    }

    /// The dictionaries after an object was added.
    pub open spec fn add_object(self, id: Seq<u8>) -> DictView {
        DictView { objects: intern_list(self.objects, id), ..self }
    }

    /// The wire index of a language: 0 for the default language, else one
    /// more than the language's place in the dictionary.
    pub open spec fn language_index(self, id: Option<Seq<u8>>) -> int {
        match id {
            Some(id) => self.languages.index_of(id) + 1,
            None => 0,
        }
    }
}

/// Where `id` stands in a list, given one place where it does and that no
/// identifier stands twice.
pub proof fn lemma_index_of_unique(list: Seq<Seq<u8>>, id: Seq<u8>, i: int)
    requires
        list.no_duplicates(),
        0 <= i < list.len(),
        list[i] == id,
    ensures
        list.index_of(id) == i,
        list.contains(id),
{
    let j = list.index_of(id);
    assert(0 <= j < list.len() && list[j] == id);
}

/// Adding to a list keeps it well formed, and the identifier then stands in it.
pub proof fn lemma_intern_list(list: Seq<Seq<u8>>, id: Seq<u8>)
    requires
        list.no_duplicates(),
        ids_well_formed(list),
        id.len() == 16,
    ensures
        intern_list(list, id).no_duplicates(),
        ids_well_formed(intern_list(list, id)),
        intern_list(list, id).contains(id),
        forall|other: Seq<u8>| list.contains(other) ==> intern_list(list, id).contains(other)
            && intern_list(list, id).index_of(other) == list.index_of(other),
{
    let next = intern_list(list, id);
    if !list.contains(id) {
        assert(next[list.len() as int] == id);
        assert forall|i: int, j: int| 0 <= i < next.len() && 0 <= j < next.len() && i != j implies next[i]
            != next[j] by {
            if i < list.len() && j < list.len() {
            } else if i < list.len() {
                assert(list.contains(list[i]));
            } else {
                assert(list.contains(list[j]));
            }
        }
    } else {
        let i = list.index_of(id);
        assert(next[i] == id);
    }
    assert forall|other: Seq<u8>| list.contains(other) implies next.contains(other) && next.index_of(other)
        == list.index_of(other) by {
        let i = list.index_of(other);
        assert(next[i] == other);
        lemma_index_of_unique(next, other, i);
    }
}

/// The dictionaries as the decoder reads them: four insertion-ordered lists.
#[derive(Debug, Clone, PartialEq)]
pub struct WireDictionaries {
    /// Properties with their data types.
    pub properties: Vec<(Id, DataType)>,
    /// Relation types.
    pub relation_types: Vec<Id>,
    /// Languages; wire index `i >= 1` selects entry `i - 1`.
    pub languages: Vec<Id>,
    /// Objects.
    pub objects: Vec<Id>,
}

impl View for WireDictionaries {
    type V = DictView;

    open spec fn view(&self) -> DictView {
        DictView {
            property_ids: Seq::new(self.properties@.len(), |i: int| self.properties@[i].0@),
            property_types: Seq::new(self.properties@.len(), |i: int| self.properties@[i].1),
            relation_types: ids_view(self.relation_types@),
            languages: ids_view(self.languages@),
            objects: ids_view(self.objects@),
        }
    }
}

impl WireDictionaries {
    /// Dictionaries that hold nothing.
    pub fn new() -> (d: Self)
        ensures
            d@ == DictView::empty(),
    {
        let d = WireDictionaries {
            properties: Vec::new(),
            relation_types: Vec::new(),
            languages: Vec::new(),
            objects: Vec::new(),
        };
        proof {
            assert(d@.property_ids =~= Seq::<Seq<u8>>::empty());
            assert(d@.property_types =~= Seq::<DataType>::empty());
            assert(d@.relation_types =~= Seq::<Seq<u8>>::empty());
            assert(d@.languages =~= Seq::<Seq<u8>>::empty());
            assert(d@.objects =~= Seq::<Seq<u8>>::empty());
        }
        d
    }
}

impl Default for WireDictionaries {
    fn default() -> (d: Self)
        ensures
            d@ == DictView::empty(),
    {
        WireDictionaries::new()
    }
}

// ---------------------------------------------------------------------------
// Identifier table
// ---------------------------------------------------------------------------

/// The number that the bytes of an identifier stand for, big-endian: the key
/// under which the side table finds the identifier.
pub open spec fn id_key(id: Seq<u8>) -> u128 {
    be_nat(id) as u128
}

/// Byte sequences of one length that stand for one number are equal.
pub proof fn lemma_be_nat_injective(a: Seq<u8>, b: Seq<u8>)
    requires
        a.len() == b.len(),
        be_nat(a) == be_nat(b),
    ensures
        a == b,
    decreases a.len(),
{
    if a.len() > 0 {
        lemma_be_nat_injective(a.drop_last(), b.drop_last());
        assert(a =~= a.drop_last().push(a.last()));
        assert(b =~= b.drop_last().push(b.last()));
    } else {
        assert(a =~= b);
    }
}

/// 256 to the sixteenth power is 2^128.
pub proof fn lemma_pow256_16()
    ensures
        pow256(16) == 0x1_0000_0000_0000_0000_0000_0000_0000_0000,
        forall|n: nat| #![trigger pow256(n)] n < 16 ==> pow256(n) * 256 == pow256(n + 1) && pow256(n) * 256
            <= 0x1_0000_0000_0000_0000_0000_0000_0000_0000,
{
    reveal_with_fuel(pow256, 18);
    assert forall|n: nat| #![trigger pow256(n)] n < 16 implies pow256(n) * 256 == pow256(n + 1) && pow256(n)
        * 256 <= 0x1_0000_0000_0000_0000_0000_0000_0000_0000 by {
        if n == 0 {
        } else if n == 1 {
        } else if n == 2 {
        } else if n == 3 {
        } else if n == 4 {
        } else if n == 5 {
        } else if n == 6 {
        } else if n == 7 {
        } else if n == 8 {
        } else if n == 9 {
        } else if n == 10 {
        } else if n == 11 {
        } else if n == 12 {
        } else if n == 13 {
        } else if n == 14 {
        } else {
        }
    }
}

/// Identifiers with one key are equal.
pub proof fn lemma_id_key_injective(a: Seq<u8>, b: Seq<u8>)
    requires
        a.len() == 16,
        b.len() == 16,
        id_key(a) == id_key(b),
    ensures
        a == b,
{
    lemma_be_nat_bound(a);
    lemma_be_nat_bound(b);
    lemma_pow256_16();
    lemma_be_nat_injective(a, b);
}

/// Computes the key of an identifier.
pub fn key_of(id: &Id) -> (key: u128)
    ensures
        key == id_key(id@),
{
    let mut acc: u128 = 0;
    let mut i: usize = 0;
    proof {
        assert(id@.take(0) =~= Seq::<u8>::empty());
    }
    while i < 16
        invariant
            i <= 16,
            acc == be_nat(id@.take(i as int)),
        decreases 16 - i,
    {
        proof {
            lemma_pow256_16();
            lemma_be_nat_bound(id@.take(i as int));
            crate::model::value::lemma_be_nat_step(id@, i as int);
        }
        acc = acc * 256 + id[i] as u128;
        i = i + 1;
    }
    proof {
        assert(id@.take(16) =~= id@);
    }
    acc
}

/// An insertion-ordered list of distinct identifiers, each with a payload,
/// and a side table from each identifier's key to its index, so that both the
/// identifier at an index and the index of an identifier are found in
/// constant time. Its view is the list of identifiers.
pub struct IdTable<T> {
    ids: Vec<Id>,
    payloads: Vec<T>,
    index: HashMap<u128, usize>,
}

impl<T> View for IdTable<T> {
    type V = Seq<Seq<u8>>;

    closed spec fn view(&self) -> Seq<Seq<u8>> {
        ids_view(self.ids@)
    }
}

impl<T> IdTable<T> {
    #[verifier::type_invariant]
    spec fn consistent(self) -> bool {
        &&& self.payloads@.len() == self.ids@.len()
        &&& forall|i: int|
            0 <= i < self.ids@.len() ==> self.index@.contains_key(id_key(#[trigger] self.ids@[i]@))
                && self.index@[id_key(self.ids@[i]@)] == i
        &&& forall|k: u128| #[trigger]
            self.index@.contains_key(k) ==> self.index@[k] < self.ids@.len() && id_key(
                self.ids@[self.index@[k] as int]@,
            ) == k
    }

    /// The payloads, in the order of the identifiers.
    pub closed spec fn payloads(&self) -> Seq<T> {
        self.payloads@
    }

    /// An empty table.
    pub fn new() -> (t: Self)
        ensures
            t@ == Seq::<Seq<u8>>::empty(),
            t.payloads() == Seq::<T>::empty(),
    {
        let t = IdTable { ids: Vec::new(), payloads: Vec::new(), index: HashMap::new() };
        proof {
            assert(t@ =~= Seq::<Seq<u8>>::empty());
            assert(t.payloads() =~= Seq::<T>::empty());
        }
        t
    }

    /// Shows that no identifier stands twice in the table, that each has
    /// sixteen bytes and each a payload. Does nothing when run.
    pub fn distinct(&self)
        ensures
            self@.no_duplicates(),
            ids_well_formed(self@),
            self.payloads().len() == self@.len(),
    {
        proof {
            use_type_invariant(self);
            assert forall|i: int, j: int|
                0 <= i < self@.len() && 0 <= j < self@.len() && i != j implies self@[i] != self@[j] by {
                assert(self.index@[id_key(self.ids@[i]@)] == i);
                assert(self.index@[id_key(self.ids@[j]@)] == j);
            }
        }
    }

    /// The number of identifiers.
    pub fn len(&self) -> (n: usize)
        ensures
            n == self@.len(),
    {
        self.ids.len()
    }

    /// The identifiers in insertion order.
    pub fn ids(&self) -> (ids: &Vec<Id>)
        ensures
            ids_view(ids@) == self@,
    {
        &self.ids
    }

    /// The payloads in the order of the identifiers.
    pub fn payload_list(&self) -> (payloads: &Vec<T>)
        ensures
            payloads@ == self.payloads(),
            payloads@.len() == self@.len(),
    {
        proof {
            use_type_invariant(self);
        }
        &self.payloads
    }

    /// Gives up the table for its identifiers and payloads, in insertion order.
    pub fn into_parts(self) -> (parts: (Vec<Id>, Vec<T>))
        ensures
            ids_view(parts.0@) == self@,
            parts.1@ == self.payloads(),
            parts.1@.len() == parts.0@.len(),
    {
        proof {
            use_type_invariant(&self);
        }
        (self.ids, self.payloads)
    }

    /// The index of `id`, if the table holds it.
    #[verifier::rlimit(50)]
    pub fn find(&self, id: &Id) -> (res: Option<usize>)
        ensures
            res is Some <==> self@.contains(id@),
            res is Some ==> res->0 == self@.index_of(id@) && res->0 < self@.len(),
    {
        self.distinct();
        proof {
            use_type_invariant(self);
        }
        let key: u128 = key_of(id);
        match self.index.get(&key) {
            Some(i) => {
                proof {
                    lemma_id_key_injective(self.ids@[*i as int]@, id@);
                    assert(self@[*i as int] == id@);
                    lemma_index_of_unique(self@, id@, *i as int);
                }
                Some(*i)
            },
            None => {
                proof {
                    if self@.contains(id@) {
                        let i = self@.index_of(id@);
                        assert(self.ids@[i]@ == id@);
                        assert(self.index@.contains_key(id_key(self.ids@[i]@)));
                    }
                }
                None
            },
        }
    }

    /// Adds `id` with `payload` unless the table holds `id`, and returns the
    /// index of `id`. An identifier already held keeps its payload.
    #[verifier::rlimit(50)]
    pub fn intern(&mut self, id: Id, payload: T) -> (idx: usize)
        ensures
            final(self)@ == intern_list(old(self)@, id@),
            final(self).payloads() == (if old(self)@.contains(id@) {
                old(self).payloads()
            } else {
                old(self).payloads().push(payload)
            }),
            idx == final(self)@.index_of(id@),
            idx < final(self)@.len(),
    {
        self.distinct();
        proof {
            use_type_invariant(&*self);
            lemma_intern_list(self@, id@);
        }
        match self.find(&id) {
            Some(i) => i,
            None => {
                let key: u128 = key_of(&id);
                let idx: usize = self.ids.len();
                let ghost before = self.ids@;
                proof {
                    if self.index@.contains_key(key) {
                        let j = self.index@[key] as int;
                        lemma_id_key_injective(self.ids@[j]@, id@);
                        assert(ids_view(self.ids@)[j] == id@);
                    }
                }
                let mut taken: IdTable<T> = IdTable::new();
                std::mem::swap(self, &mut taken);
                let IdTable { ids: mut ids, payloads: mut payloads, index: mut index } = taken;
                ids.push(id);
                payloads.push(payload);
                index.insert(key, idx);
                proof {
                    assert(ids_view(ids@) =~= ids_view(before).push(id@));
                    assert forall|i: int| 0 <= i < ids@.len() implies index@.contains_key(
                        id_key(#[trigger] ids@[i]@),
                    ) && index@[id_key(ids@[i]@)] == i by {
                        if i < before.len() {
                            assert(ids@[i] == before[i]);
                            assert(id_key(before[i]@) != key);
                        }
                    }
                    lemma_index_of_unique(ids_view(ids@), id@, idx as int);
                }
                *self = IdTable { ids, payloads, index };
                idx
            },
        }
    }
}

// ---------------------------------------------------------------------------
// Dictionary builder
// ---------------------------------------------------------------------------

/// Builds the dictionaries of one edit in first-seen order.
///
/// Each `add_` method returns the wire index of the identifier and adds the
/// identifier first where the dictionary does not hold it yet, so the index
/// of an identifier never changes.
pub struct DictionaryBuilder {
    properties: IdTable<DataType>,
    relation_types: IdTable<()>,
    languages: IdTable<()>,
    objects: IdTable<()>,
}

impl View for DictionaryBuilder {
    type V = DictView;

    closed spec fn view(&self) -> DictView {
        DictView {
            property_ids: self.properties@,
            property_types: self.properties.payloads(),
            relation_types: self.relation_types@,
            languages: self.languages@,
            objects: self.objects@,
        }
    }
}

impl DictionaryBuilder {
    /// A builder with empty dictionaries.
    pub fn new() -> (b: Self)
        ensures
            b@ == DictView::empty(),
    {
        DictionaryBuilder {
            properties: IdTable::new(),
            relation_types: IdTable::new(),
            languages: IdTable::new(),
            objects: IdTable::new(),
        }
    }

    /// Shows that the dictionaries are well formed. Does nothing when run.
    pub fn well_formed(&self)
        ensures
            self@.well_formed(),
    {
        self.properties.distinct();
        self.relation_types.distinct();
        self.languages.distinct();
        self.objects.distinct();
    }

    /// Adds a property with its data type and returns its index. A property
    /// already known keeps the type it was first added with.
    pub fn add_property(&mut self, id: Id, data_type: DataType) -> (idx: usize)
        ensures
            final(self)@ == old(self)@.add_property(id@, data_type),
            idx == final(self)@.property_ids.index_of(id@),
            idx < final(self)@.property_ids.len(),
    {
        self.properties.intern(id, data_type)
    }

    /// Adds a relation type and returns its index.
    pub fn add_relation_type(&mut self, id: Id) -> (idx: usize)
        ensures
            final(self)@ == old(self)@.add_relation_type(id@),
            idx == final(self)@.relation_types.index_of(id@),
            idx < final(self)@.relation_types.len(),
    {
        self.relation_types.intern(id, ())
    }

    /// Adds a language and returns its wire index: 0 for the default
    /// language, else one more than the language's index in the dictionary.
    pub fn add_language(&mut self, id: Option<Id>) -> (idx: usize)
        ensures
            final(self)@ == old(self)@.add_language(opt_id_view(id)),
            idx == final(self)@.language_index(opt_id_view(id)),
            idx <= final(self)@.languages.len(),
    {
        match id {
            Some(id) => {
                let i: usize = self.languages.intern(id, ());
                let n: usize = self.languages.len();
                assert(i < n);
                i + 1
            },
            None => 0,
        }
    }

    /// Adds an object and returns its index.
    pub fn add_object(&mut self, id: Id) -> (idx: usize)
        ensures
            final(self)@ == old(self)@.add_object(id@),
            idx == final(self)@.objects.index_of(id@),
            idx < final(self)@.objects.len(),
    {
        self.objects.intern(id, ())
    }

    /// The properties in insertion order.
    pub fn property_ids(&self) -> (ids: &Vec<Id>)
        ensures
            ids_view(ids@) == self@.property_ids,
    {
        self.properties.ids()
    }

    /// The data types of the properties, in the order of the properties.
    pub fn property_types(&self) -> (types: &Vec<DataType>)
        ensures
            types@ == self@.property_types,
            types@.len() == self@.property_ids.len(),
    {
        self.properties.payload_list()
    }

    /// The relation types in insertion order.
    pub fn relation_types(&self) -> (ids: &Vec<Id>)
        ensures
            ids_view(ids@) == self@.relation_types,
    {
        self.relation_types.ids()
    }

    /// The languages in insertion order.
    pub fn languages(&self) -> (ids: &Vec<Id>)
        ensures
            ids_view(ids@) == self@.languages,
    {
        self.languages.ids()
    }

    /// The objects in insertion order.
    pub fn objects(&self) -> (ids: &Vec<Id>)
        ensures
            ids_view(ids@) == self@.objects,
    {
        self.objects.ids()
    }

    /// The index of a property, if the dictionaries hold it.
    pub fn find_property(&self, id: &Id) -> (res: Option<usize>)
        ensures
            res is Some <==> self@.property_ids.contains(id@),
            res is Some ==> res->0 == self@.property_ids.index_of(id@) && res->0 < self@.property_ids.len(),
    {
        self.properties.find(id)
    }

    /// The index of a relation type, if the dictionaries hold it.
    pub fn find_relation_type(&self, id: &Id) -> (res: Option<usize>)
        ensures
            res is Some <==> self@.relation_types.contains(id@),
            res is Some ==> res->0 == self@.relation_types.index_of(id@) && res->0
                < self@.relation_types.len(),
    {
        self.relation_types.find(id)
    }

    /// The wire index of a language, if it is the default language or the
    /// dictionaries hold it.
    pub fn find_language(&self, id: &Option<Id>) -> (res: Option<usize>)
        ensures
            res is Some <==> (id is Some ==> self@.languages.contains(id->0@)),
            res is Some ==> res->0 == self@.language_index(opt_id_view(*id)) && res->0
                <= self@.languages.len(),
    {
        match id {
            Some(id) => match self.languages.find(id) {
                Some(i) => {
                    let n: usize = self.languages.len();
                    assert(i < n);
                    Some(i + 1)
                },
                None => None,
            },
            None => Some(0),
        }
    }

    /// The index of an object, if the dictionaries hold it.
    pub fn find_object(&self, id: &Id) -> (res: Option<usize>)
        ensures
            res is Some <==> self@.objects.contains(id@),
            res is Some ==> res->0 == self@.objects.index_of(id@) && res->0 < self@.objects.len(),
    {
        self.objects.find(id)
    }

    /// Gives up the builder for the dictionaries it has built.
    #[verifier::rlimit(50)]
    pub fn build(self) -> (dicts: WireDictionaries)
        ensures
            dicts@ == self@,
            dicts@.well_formed(),
    {
        self.well_formed();
        let (property_ids, property_types) = self.properties.into_parts();
        let (relation_types, _) = self.relation_types.into_parts();
        let (languages, _) = self.languages.into_parts();
        let (objects, _) = self.objects.into_parts();
        let mut properties: Vec<(Id, DataType)> = Vec::new();
        let mut i: usize = 0;
        while i < property_ids.len()
            invariant
                i <= property_ids.len(),
                property_types@.len() == property_ids@.len(),
                properties@.len() == i,
                forall|j: int| 0 <= j < i ==> properties@[j] == (property_ids@[j], property_types@[j]),
            decreases property_ids.len() - i,
        {
            properties.push((property_ids[i], property_types[i]));
            i = i + 1;
        }
        let dicts = WireDictionaries { properties, relation_types, languages, objects };
        proof {
            assert(dicts@.property_ids =~= ids_view(property_ids@));
            assert(dicts@.property_types =~= property_types@);
        }
        dicts
    }
}


// ---------------------------------------------------------------------------
// Property types
// ---------------------------------------------------------------------------

/// A table from property identifiers to data types. Its view is the map.
pub struct TypeTable {
    types: HashMap<u128, DataType>,
}

impl View for TypeTable {
    type V = Map<Seq<u8>, DataType>;

    closed spec fn view(&self) -> Map<Seq<u8>, DataType> {
        Map::new(
            |id: Seq<u8>| id.len() == 16 && self.types@.contains_key(id_key(id)),
            |id: Seq<u8>| self.types@[id_key(id)],
        )
    }
}

/// The data type that a table gives a property, if any.
pub open spec fn type_of(types: Map<Seq<u8>, DataType>, id: Seq<u8>) -> Option<DataType> {
    if types.contains_key(id) {
        Some(types[id])
    } else {
        None
    }
}

impl TypeTable {
    /// An empty table.
    pub fn new() -> (t: Self)
        ensures
            t@ == Map::<Seq<u8>, DataType>::empty(),
    {
        let t = TypeTable { types: HashMap::new() };
        proof {
            assert(t@ =~= Map::<Seq<u8>, DataType>::empty());
        }
        t
    }

    /// Gives `id` the data type `data_type`, in place of any it had.
    pub fn insert(&mut self, id: Id, data_type: DataType)
        ensures
            final(self)@ == old(self)@.insert(id@, data_type),
    {
        let key: u128 = key_of(&id);
        self.types.insert(key, data_type);
        proof {
            assert forall|other: Seq<u8>| other.len() == 16 && id_key(other) == key implies other == id@ by {
                lemma_id_key_injective(other, id@);
            }
            assert(self@ =~= old(self)@.insert(id@, data_type));
        }
    }

    /// The data type of `id`, if the table has one.
    pub fn get(&self, id: &Id) -> (res: Option<DataType>)
        ensures
            res == type_of(self@, id@),
    {
        let key: u128 = key_of(id);
        match self.types.get(&key) {
            Some(data_type) => Some(*data_type),
            None => None,
        }
    }

    /// A copy of the table.
    pub fn duplicate(&self) -> (t: Self)
        ensures
            t@ == self@,
    {
        TypeTable { types: self.types.clone() }
    }
}

} // verus!
