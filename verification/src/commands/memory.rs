//! Offline heap-snapshot analysis: schema resolution, node lookup, per-class
//! aggregation, the class diff between two snapshots and its text renderings.
use crate::text::{
    str_eq,
    chars_less, chars_lt, chars_of, dec, dec_signed, i64_dec, lemma_chars_lt_total,
    lemma_chars_lt_transitive, matches_at, owned, push_str, string_from_chars, u64_dec,
};
use crate::error::{CliError, ErrorCode};
use std::collections::{HashMap, HashSet};
use vstd::prelude::*;

verus! {

// ---------------------------------------------------------------------
// Snapshot model
// ---------------------------------------------------------------------

/// One entry of the snapshot meta's `node_types` list: either the enum of
/// type names (a JSON array, whose non-string members read as `None`) or any
/// other descriptor.
pub enum NodeTypeMeta {
    Names(Vec<Option<String>>),
    Other,
}

/// The parts of a `.heapsnapshot` file that the analysis reads.
pub struct HeapSnapshot {
    pub node_fields: Vec<String>,
    pub node_types: Vec<NodeTypeMeta>,
    pub nodes: Vec<u64>,
    pub strings: Vec<String>,
}

/// The three node fields every snapshot schema must name.
#[derive(Clone, Copy, Debug, PartialEq, Eq)]
pub enum SchemaField {
    Id,
    Name,
    SelfSize,
}

/// Why a snapshot could not be read or analysed.
#[derive(Clone, Copy, Debug, PartialEq, Eq)]
pub enum SnapshotError {
    MissingField(SchemaField),
    EmptySchema,
    Truncated { nodes_len: usize, node_size: usize },
    NodeNotFound(u64),
    StringIndexOverflow,
    StringIndexOutOfBounds { index: usize, len: usize },
}

/// Offsets into the flat `nodes` array, and its record stride.
#[derive(Clone, Copy, Debug, PartialEq, Eq)]
pub struct NodeFieldOffsets {
    pub id_offset: usize,
    pub name_offset: usize,
    pub self_size_offset: usize,
    pub node_size: usize,
    pub type_offset: Option<usize>,
}

pub open spec fn string_views(v: Seq<String>) -> Seq<Seq<char>> {
    Seq::new(v.len(), |i: int| v[i]@)
}

/// Position of the first occurrence of `name` in `fields`.
#[verifier::opaque]
pub open spec fn field_pos(fields: Seq<Seq<char>>, name: Seq<char>) -> Option<int> {
    if exists|i: int| 0 <= i < fields.len() && fields[i] == name {
        Some(choose|i: int| 0 <= i < fields.len() && fields[i] == name
            && forall|j: int| 0 <= j < i ==> fields[j] != name)
    } else {
        None
    }
}

/// The offsets `resolve_node_field_offsets` computes for a schema and a
/// `nodes` array of length `nodes_len`, or the error it reports.
pub open spec fn offsets_spec(fields: Seq<Seq<char>>, nodes_len: nat) -> Result<
    NodeFieldOffsets,
    SnapshotError,
> {
    match (field_pos(fields, "id"@), field_pos(fields, "name"@), field_pos(fields, "self_size"@)) {
        (None, _, _) => Err(SnapshotError::MissingField(SchemaField::Id)),
        (Some(_), None, _) => Err(SnapshotError::MissingField(SchemaField::Name)),
        (Some(_), Some(_), None) => Err(SnapshotError::MissingField(SchemaField::SelfSize)),
        (Some(i), Some(n), Some(s)) => if fields.len() == 0 {
            Err(SnapshotError::EmptySchema)
        } else if nodes_len % fields.len() != 0 {
            Err(
                SnapshotError::Truncated {
                    nodes_len: nodes_len as usize,
                    node_size: fields.len() as usize,
                },
            )
        } else {
            Ok(
                NodeFieldOffsets {
                    id_offset: i as usize,
                    name_offset: n as usize,
                    self_size_offset: s as usize,
                    node_size: fields.len() as usize,
                    type_offset: match field_pos(fields, "type"@) {
                        Some(t) => Some(t as usize),
                        None => None,
                    },
                },
            )
        },
    }
}

proof fn lemma_field_pos_is(fields: Seq<Seq<char>>, name: Seq<char>, i: int)
    requires
        0 <= i < fields.len(),
        fields[i] == name,
        forall|j: int| 0 <= j < i ==> fields[j] != name,
    ensures
        field_pos(fields, name) == Some(i),
{
    reveal(field_pos);
    let w = choose|w: int| 0 <= w < fields.len() && fields[w] == name
        && forall|j: int| 0 <= j < w ==> fields[j] != name;
    assert(0 <= w < fields.len() && fields[w] == name && forall|j: int|
        0 <= j < w ==> fields[j] != name);
    if w < i {
        assert(fields[w] != name);
    } else if w > i {
        assert(fields[i] != name);
    }
}

proof fn lemma_field_pos_none(fields: Seq<Seq<char>>, name: Seq<char>)
    requires
        forall|j: int| 0 <= j < fields.len() ==> fields[j] != name,
    ensures
        field_pos(fields, name) is None,
{
    reveal(field_pos);
}


/// Position of the first field named `name`.
fn position_of(fields: &Vec<String>, name: &str) -> (r: Option<usize>)
    ensures
        r == (match field_pos(string_views(fields@), name@) {
            Some(i) => Some(i as usize),
            None => None,
        }),
        r matches Some(i) ==> i < fields@.len(),
{
    let ghost fv = string_views(fields@);
    let mut i: usize = 0;
    while i < fields.len()
        invariant
            0 <= i <= fields@.len(),
            fv == string_views(fields@),
            forall|j: int| 0 <= j < i ==> fv[j] != name@,
        decreases fields@.len() - i,
    {
        if str_eq(fields[i].as_str(), name) {
            proof {
                assert(fv[i as int] == name@);
                lemma_field_pos_is(fv, name@, i as int);
            }
            return Some(i);
        }
        i = i + 1;
    }
    proof {
        lemma_field_pos_none(fv, name@);
    }
    None
}

/// Parses the snapshot's `node_fields` schema into the offsets used to walk
/// the flat `nodes` array, rejecting a `nodes` length that is not a whole
/// number of records.
pub fn resolve_node_field_offsets(node_fields: &Vec<String>, nodes_len: usize) -> (r: Result<
    NodeFieldOffsets,
    SnapshotError,
>)
    ensures
        r == offsets_spec(string_views(node_fields@), nodes_len as nat),
        r matches Ok(o) ==> o.node_size == node_fields@.len() && o.node_size > 0
            && o.id_offset < o.node_size && o.name_offset < o.node_size
            && o.self_size_offset < o.node_size && (o.type_offset matches Some(t) ==> t
            < o.node_size) && nodes_len % o.node_size == 0,
{
    let ghost fv = string_views(node_fields@);
    let id_offset = match position_of(node_fields, "id") {
        Some(i) => i,
        None => {
            return Err(SnapshotError::MissingField(SchemaField::Id));
        },
    };
    let name_offset = match position_of(node_fields, "name") {
        Some(i) => i,
        None => {
            return Err(SnapshotError::MissingField(SchemaField::Name));
        },
    };
    let self_size_offset = match position_of(node_fields, "self_size") {
        Some(i) => i,
        None => {
            return Err(SnapshotError::MissingField(SchemaField::SelfSize));
        },
    };
    let node_size = node_fields.len();
    assert(fv.len() == node_size);
    if node_size == 0 {
        return Err(SnapshotError::EmptySchema);
    }
    if nodes_len % node_size != 0 {
        return Err(SnapshotError::Truncated { nodes_len, node_size });
    }
    let type_offset = position_of(node_fields, "type");
    Ok(NodeFieldOffsets { id_offset, name_offset, self_size_offset, node_size, type_offset })
}

// ---------------------------------------------------------------------
// Node lookup
// ---------------------------------------------------------------------

/// Field `off` of record `k` in a flat array of records of `size` fields.
pub open spec fn field_of(nodes: Seq<u64>, size: int, k: int, off: int) -> u64 {
    nodes[k * size + off]
}

/// The record index (a multiple of `node_size`) of the first node whose id is `node_id`.
#[verifier::opaque]
pub open spec fn first_record_with_id(nodes: Seq<u64>, o: NodeFieldOffsets, node_id: u64) -> Option<
    int,
> {
    if exists|k: int|
        0 <= k < (nodes.len() as int) / (o.node_size as int) && field_of(nodes, o.node_size as int, k, o.id_offset as int)
            == node_id {
        Some(choose|k: int|
            0 <= k < (nodes.len() as int) / (o.node_size as int) && field_of(nodes, o.node_size as int, k, o.id_offset as int)
                == node_id && forall|j: int|
                0 <= j < k ==> field_of(nodes, o.node_size as int, j, o.id_offset as int) != node_id)
    } else {
        None
    }
}

/// Resolves a string-table index held in a node field.
pub open spec fn string_at(strings: Seq<Seq<char>>, raw: u64) -> Result<Seq<char>, SnapshotError> {
    if raw > usize::MAX {
        Err(SnapshotError::StringIndexOverflow)
    } else if raw >= strings.len() {
        Err(SnapshotError::StringIndexOutOfBounds { index: raw as usize, len: strings.len() as usize })
    } else {
        Ok(strings[raw as int])
    }
}

/// What `find_node_in_snapshot` answers: the name and self size of the first
/// node with the given id, or the error.
pub open spec fn find_node_spec(snap: HeapSnapshot, node_id: u64) -> Result<
    (Seq<char>, u64),
    SnapshotError,
> {
    match offsets_spec(string_views(snap.node_fields@), snap.nodes@.len()) {
        Err(e) => Err(e),
        Ok(o) => match first_record_with_id(snap.nodes@, o, node_id) {
            None => Err(SnapshotError::NodeNotFound(node_id)),
            Some(k) => match string_at(
                string_views(snap.strings@),
                field_of(snap.nodes@, o.node_size as int, k, o.name_offset as int),
            ) {
                Err(e) => Err(e),
                Ok(name) => Ok((name, field_of(snap.nodes@, o.node_size as int, k, o.self_size_offset as int))),
            },
        },
    }
}

proof fn lemma_record_bounds(k: int, size: int, off: int, len: int)
    requires
        0 <= k < len / size,
        0 <= off < size,
        size > 0,
        len >= 0,
    ensures
        0 <= k * size + off < len,
        k * size + off < (k + 1) * size,
{
    assert(k * size + off < (k + 1) * size) by (nonlinear_arith)
        requires
            off < size,
    ;
    assert((k + 1) * size <= (len / size) * size) by (nonlinear_arith)
        requires
            k + 1 <= len / size,
            size > 0,
    ;
    assert((len / size) * size <= len) by (nonlinear_arith)
        requires
            size > 0,
            len >= 0,
    ;
    assert(0 <= k * size) by (nonlinear_arith)
        requires
            k >= 0,
            size > 0,
    ;
}

proof fn lemma_first_record_is(nodes: Seq<u64>, o: NodeFieldOffsets, node_id: u64, k: int)
    requires
        0 <= k < (nodes.len() as int) / (o.node_size as int),
        field_of(nodes, o.node_size as int, k, o.id_offset as int) == node_id,
        forall|j: int|
            0 <= j < k ==> field_of(nodes, o.node_size as int, j, o.id_offset as int) != node_id,
    ensures
        first_record_with_id(nodes, o, node_id) == Some(k),
{
    reveal(first_record_with_id);
    let w = choose|w: int|
        0 <= w < (nodes.len() as int) / (o.node_size as int) && field_of(
            nodes,
            o.node_size as int,
            w,
            o.id_offset as int,
        ) == node_id && forall|j: int|
            0 <= j < w ==> field_of(nodes, o.node_size as int, j, o.id_offset as int) != node_id;
    assert(0 <= w < (nodes.len() as int) / (o.node_size as int));
    if w < k {
        assert(field_of(nodes, o.node_size as int, w, o.id_offset as int) != node_id);
    } else if w > k {
        assert(field_of(nodes, o.node_size as int, k, o.id_offset as int) != node_id);
    }
}

proof fn lemma_first_record_none(nodes: Seq<u64>, o: NodeFieldOffsets, node_id: u64)
    requires
        forall|j: int|
            0 <= j < (nodes.len() as int) / (o.node_size as int) ==> field_of(
                nodes,
                o.node_size as int,
                j,
                o.id_offset as int,
            ) != node_id,
    ensures
        first_record_with_id(nodes, o, node_id) is None,
{
    reveal(first_record_with_id);
}

/// Index of the first record whose id field equals `node_id`.
fn find_record(nodes: &Vec<u64>, offs: NodeFieldOffsets, node_id: u64) -> (r: Option<usize>)
    requires
        offs.node_size > 0,
        offs.id_offset < offs.node_size,
    ensures
        r == (match first_record_with_id(nodes@, offs, node_id) {
            Some(k) => Some(k as usize),
            None => None,
        }),
        r matches Some(k) ==> k < (nodes@.len() as int) / (offs.node_size as int)
            && first_record_with_id(nodes@, offs, node_id) == Some(k as int),
        r is None ==> first_record_with_id(nodes@, offs, node_id) is None,
{
    let ns = offs.node_size;
    let count = nodes.len() / ns;
    let mut k: usize = 0;
    while k < count
        invariant
            ns == offs.node_size,
            ns > 0,
            offs.id_offset < ns,
            nodes@.len() == nodes.len(),
            count == (nodes@.len() as int) / (ns as int),
            0 <= k <= count,
            forall|j: int|
                0 <= j < k ==> field_of(nodes@, ns as int, j, offs.id_offset as int) != node_id,
        decreases count - k,
    {
        proof {
            lemma_record_bounds(k as int, ns as int, offs.id_offset as int, nodes@.len() as int);
        }
        if nodes[k * ns + offs.id_offset] == node_id {
            proof {
                assert(field_of(nodes@, ns as int, k as int, offs.id_offset as int) == node_id);
                lemma_first_record_is(nodes@, offs, node_id, k as int);
            }
            return Some(k);
        }
        k = k + 1;
    }
    proof {
        lemma_first_record_none(nodes@, offs, node_id);
    }
    None
}

/// Looks up the node with id `node_id` and returns its name and self size.
pub fn find_node_in_snapshot(snap: &HeapSnapshot, node_id: u64) -> (r: Result<
    (String, u64),
    SnapshotError,
>)
    ensures
        match (r, find_node_spec(*snap, node_id)) {
            (Ok((name, size)), Ok((n, s))) => name@ == n && size == s,
            (Err(e), Err(f)) => e == f,
            _ => false,
        },
{
    let offs = match resolve_node_field_offsets(&snap.node_fields, snap.nodes.len()) {
        Ok(o) => o,
        Err(e) => {
            return Err(e);
        },
    };
    let ns = offs.node_size;
    let k = match find_record(&snap.nodes, offs, node_id) {
        None => {
            return Err(SnapshotError::NodeNotFound(node_id));
        },
        Some(k) => k,
    };
    proof {
        lemma_record_bounds(k as int, ns as int, offs.name_offset as int, snap.nodes@.len() as int);
        lemma_record_bounds(
            k as int,
            ns as int,
            offs.self_size_offset as int,
            snap.nodes@.len() as int,
        );
    }
    let raw = snap.nodes[k * ns + offs.name_offset];
    let size = snap.nodes[k * ns + offs.self_size_offset];
    assert(raw == field_of(snap.nodes@, ns as int, k as int, offs.name_offset as int));
    assert(size == field_of(snap.nodes@, ns as int, k as int, offs.self_size_offset as int));
    let ghost sv = string_views(snap.strings@);
    if raw > usize::MAX as u64 {
        return Err(SnapshotError::StringIndexOverflow);
    }
    let idx = raw as usize;
    if idx >= snap.strings.len() {
        return Err(SnapshotError::StringIndexOutOfBounds { index: idx, len: snap.strings.len() });
    }
    let name = owned(snap.strings[idx].as_str());
    assert(name@ == sv[idx as int]);
    Ok((name, size))
}

/// Looks up `node_id` in a parsed heap snapshot, returning the node's name and
/// self size.
pub fn parse_node_from_snapshot(snap: &HeapSnapshot, node_id: u64) -> (r: Result<
    (String, u64),
    SnapshotError,
>)
    ensures
        match (r, find_node_spec(*snap, node_id)) {
            (Ok((name, size)), Ok((n, s))) => name@ == n && size == s,
            (Err(e), Err(f)) => e == f,
            _ => false,
        },
{
    find_node_in_snapshot(snap, node_id)
}


// ---------------------------------------------------------------------
// Sums over sets of node ids
// ---------------------------------------------------------------------

/// The sum of `m[id]` over the ids in `s`.
pub open spec fn set_sum(s: Set<u64>, m: Map<u64, u64>) -> int
    decreases s.len(),
{
    if s.finite() && s.len() > 0 {
        let x = s.choose();
        m[x] + set_sum(s.remove(x), m)
    } else {
        0
    }
}

pub proof fn lemma_set_sum_remove(s: Set<u64>, m: Map<u64, u64>, y: u64)
    requires
        s.finite(),
        s.contains(y),
    ensures
        set_sum(s, m) == m[y] + set_sum(s.remove(y), m),
    decreases s.len(),
{
    assert(s.len() > 0);
    let x = s.choose();
    if x != y {
        lemma_set_sum_remove(s.remove(x), m, y);
        lemma_set_sum_remove(s.remove(y), m, x);
        assert(s.remove(x).remove(y) =~= s.remove(y).remove(x));
    }
}

pub proof fn lemma_set_sum_insert(s: Set<u64>, m: Map<u64, u64>, y: u64)
    requires
        s.finite(),
        !s.contains(y),
    ensures
        set_sum(s.insert(y), m) == m[y] + set_sum(s, m),
{
    lemma_set_sum_remove(s.insert(y), m, y);
    assert(s.insert(y).remove(y) =~= s);
}

pub proof fn lemma_set_sum_nonneg(s: Set<u64>, m: Map<u64, u64>)
    ensures
        set_sum(s, m) >= 0,
    decreases s.len(),
{
    if s.finite() && s.len() > 0 {
        lemma_set_sum_nonneg(s.remove(s.choose()), m);
    }
}

pub proof fn lemma_set_sum_subset(a: Set<u64>, b: Set<u64>, m: Map<u64, u64>)
    requires
        b.finite(),
        a.subset_of(b),
    ensures
        set_sum(a, m) <= set_sum(b, m),
    decreases b.len(),
{
    vstd::set_lib::lemma_len_subset(a, b);
    if !(b =~= a) {
        let y = choose|y: u64| b.contains(y) && !a.contains(y);
        lemma_set_sum_remove(b, m, y);
        lemma_set_sum_subset(a, b.remove(y), m);
    }
}

pub proof fn lemma_set_sum_same_values(s: Set<u64>, m1: Map<u64, u64>, m2: Map<u64, u64>)
    requires
        forall|x: u64| s.contains(x) ==> m1[x] == m2[x],
    ensures
        set_sum(s, m1) == set_sum(s, m2),
    decreases s.len(),
{
    if s.finite() && s.len() > 0 {
        lemma_set_sum_same_values(s.remove(s.choose()), m1, m2);
    }
}

/// The ids among the first `k` entries of `e` that `other` lacks.
pub open spec fn fresh_prefix(e: Seq<(u64, u64)>, other: Map<u64, u64>, k: nat) -> Set<u64>
    decreases k,
{
    if k == 0 {
        Set::empty()
    } else {
        let r = fresh_prefix(e, other, (k - 1) as nat);
        if other.contains_key(e[k - 1].0) {
            r
        } else {
            r.insert(e[k - 1].0)
        }
    }
}

pub proof fn lemma_fresh_prefix(e: Seq<(u64, u64)>, other: Map<u64, u64>, k: nat)
    requires
        k <= e.len(),
    ensures
        fresh_prefix(e, other, k).finite(),
        fresh_prefix(e, other, k).len() <= k,
        forall|id: u64| #[trigger]
            fresh_prefix(e, other, k).contains(id) <==> (!other.contains_key(id) && exists|i: int|
                0 <= i < k && e[i].0 == id),
    decreases k,
{
    broadcast use vstd::set::group_set_axioms;

    if k > 0 {
        lemma_fresh_prefix(e, other, (k - 1) as nat);
        assert forall|id: u64| #[trigger]
            fresh_prefix(e, other, k).contains(id) <==> (!other.contains_key(id) && exists|i: int|
                0 <= i < k && e[i].0 == id) by {
            if exists|i: int| 0 <= i < k && e[i].0 == id {
                let i = choose|i: int| 0 <= i < k && e[i].0 == id;
                if i < k - 1 {
                    assert(0 <= i < k - 1 && e[i].0 == id);
                }
            }
            if exists|i: int| 0 <= i < k - 1 && e[i].0 == id {
                let i = choose|i: int| 0 <= i < k - 1 && e[i].0 == id;
                assert(0 <= i < k && e[i].0 == id);
            }
            if id == e[k - 1].0 {
                assert(0 <= k - 1 < k && e[k - 1].0 == id);
            }
        }
    }
}

// ---------------------------------------------------------------------
// Per-class aggregates
// ---------------------------------------------------------------------

/// The nodes of one class: node id to self size.
pub struct ClassAggregate {
    entries: Vec<(u64, u64)>,
    positions: HashMap<u64, usize>,
}

impl View for ClassAggregate {
    type V = Map<u64, u64>;

    closed spec fn view(&self) -> Map<u64, u64> {
        Map::new(
            |id: u64| self.positions@.contains_key(id),
            |id: u64| self.entries@[self.positions@[id] as int].1,
        )
    }
}

impl ClassAggregate {
    /// The representation invariant: `positions` indexes `entries` by id.
    pub closed spec fn wf(&self) -> bool {
        &&& forall|id: u64| #[trigger]
            self.positions@.contains_key(id) ==> self.positions@[id] < self.entries@.len()
                && self.entries@[self.positions@[id] as int].0 == id
        &&& forall|i: int|
            0 <= i < self.entries@.len() ==> #[trigger] self.positions@.contains_key(
                self.entries@[i].0,
            ) && self.positions@[self.entries@[i].0] == i
    }

    /// The entries in insertion order, as a sequence of (id, size) pairs.
    pub closed spec fn entry_seq(&self) -> Seq<(u64, u64)> {
        self.entries@
    }

    pub proof fn lemma_entries(&self)
        requires
            self.wf(),
        ensures
            self@.dom().finite(),
            self@.dom().len() == self.entry_seq().len(),
            forall|i: int|
                0 <= i < self.entry_seq().len() ==> #[trigger] self@.contains_key(
                    self.entry_seq()[i].0,
                ) && self@[self.entry_seq()[i].0] == self.entry_seq()[i].1,
            forall|i: int, j: int|
                0 <= i < j < self.entry_seq().len() ==> #[trigger] self.entry_seq()[i].0
                    != #[trigger] self.entry_seq()[j].0,
            forall|id: u64| #[trigger]
                self@.contains_key(id) ==> exists|i: int|
                    0 <= i < self.entry_seq().len() && self.entry_seq()[i].0 == id,
    {
        broadcast use vstd::std_specs::hash::group_hash_axioms;

        let ids = Seq::new(self.entries@.len(), |i: int| self.entries@[i].0);
        assert forall|i: int, j: int|
            0 <= i < j < self.entry_seq().len() implies #[trigger] self.entry_seq()[i].0
            != #[trigger] self.entry_seq()[j].0 by {
            assert(self.positions@.contains_key(self.entries@[i].0));
            assert(self.positions@.contains_key(self.entries@[j].0));
            assert(self.positions@[self.entries@[i].0] == i);
            assert(self.positions@[self.entries@[j].0] == j);
        }
        assert(self@.dom() =~= ids.to_set()) by {
            assert forall|id: u64| self@.dom().contains(id) implies ids.to_set().contains(id) by {
                let p = self.positions@[id] as int;
                assert(ids[p] == id);
            }
            assert forall|id: u64| ids.to_set().contains(id) implies self@.dom().contains(id) by {
                let i = choose|i: int| 0 <= i < ids.len() && ids[i] == id;
                assert(self.positions@.contains_key(self.entries@[i].0));
            }
        }
        assert(ids.no_duplicates()) by {
            assert forall|i: int, j: int|
                0 <= i < ids.len() && 0 <= j < ids.len() && i != j implies ids[i] != ids[j] by {
                if i < j {
                    assert(self.entry_seq()[i].0 != self.entry_seq()[j].0);
                } else {
                    assert(self.entry_seq()[j].0 != self.entry_seq()[i].0);
                }
            }
        }
        ids.unique_seq_to_set();
        assert forall|id: u64| #[trigger] self@.contains_key(id) implies exists|i: int|
            0 <= i < self.entry_seq().len() && self.entry_seq()[i].0 == id by {
            let p = self.positions@[id] as int;
            assert(self.entry_seq()[p].0 == id);
        }
    }

    /// An empty class.
    pub fn new() -> (r: Self)
        ensures
            r.wf(),
            r@ == Map::<u64, u64>::empty(),
    {
        let r = ClassAggregate { entries: Vec::new(), positions: HashMap::new() };
        proof {
            broadcast use vstd::std_specs::hash::group_hash_axioms;

            assert(r@ =~= Map::<u64, u64>::empty());
        }
        r
    }

    /// Records (or overwrites) the self size of node `id`.
    pub fn insert(&mut self, id: u64, size: u64)
        requires
            old(self).wf(),
        ensures
            final(self).wf(),
            final(self)@ == old(self)@.insert(id, size),
    {
        broadcast use vstd::std_specs::hash::group_hash_axioms;

        match self.positions.get(&id) {
            Some(p) => {
                let p = *p;
                proof {
                    assert(self.positions@.contains_key(id));
                }
                self.entries.set(p, (id, size));
                proof {
                    assert forall|k: u64| #[trigger]
                        self.positions@.contains_key(k) implies self.positions@[k]
                        < self.entries@.len() && self.entries@[self.positions@[k] as int].0 == k by {
                        assert(old(self).positions@.contains_key(k));
                    }
                    assert forall|i: int|
                        0 <= i < self.entries@.len() implies #[trigger] self.positions@.contains_key(
                        self.entries@[i].0,
                    ) && self.positions@[self.entries@[i].0] == i by {
                        if i != p {
                            assert(old(self).positions@.contains_key(old(self).entries@[i].0));
                        }
                    }
                    assert(self@ =~= old(self)@.insert(id, size));
                    assert(self.wf());
                }
            },
            None => {
                let n = self.entries.len();
                self.entries.push((id, size));
                self.positions.insert(id, n);
                proof {
                    assert forall|k: u64| #[trigger]
                        self.positions@.contains_key(k) implies self.positions@[k]
                        < self.entries@.len() && self.entries@[self.positions@[k] as int].0 == k by {
                        if k != id {
                            assert(old(self).positions@.contains_key(k));
                        }
                    }
                    assert forall|i: int|
                        0 <= i < self.entries@.len() implies #[trigger] self.positions@.contains_key(
                        self.entries@[i].0,
                    ) && self.positions@[self.entries@[i].0] == i by {
                        if i < n {
                            assert(old(self).positions@.contains_key(old(self).entries@[i].0));
                        }
                    }
                    assert(self@ =~= old(self)@.insert(id, size));
                    assert(self.wf());
                }
            },
        }
    }

    /// The self size recorded for node `id`, if any.
    pub fn get(&self, id: u64) -> (r: Option<u64>)
        requires
            self.wf(),
        ensures
            r == (if self@.contains_key(id) {
                Some(self@[id])
            } else {
                None
            }),
    {
        broadcast use vstd::std_specs::hash::group_hash_axioms;

        match self.positions.get(&id) {
            Some(p) => Some(self.entries[*p].1),
            None => None,
        }
    }

    /// Whether node `id` belongs to the class.
    pub fn contains(&self, id: u64) -> (r: bool)
        requires
            self.wf(),
        ensures
            r == self@.contains_key(id),
    {
        broadcast use vstd::std_specs::hash::group_hash_axioms;

        self.positions.contains_key(&id)
    }

    /// The number of nodes in the class.
    pub fn len(&self) -> (r: usize)
        requires
            self.wf(),
        ensures
            r == self@.len(),
    {
        proof {
            self.lemma_entries();
        }
        self.entries.len()
    }

    /// The `i`-th (id, size) pair in insertion order.
    pub fn entry(&self, i: usize) -> (r: (u64, u64))
        requires
            i < self.entry_seq().len(),
        ensures
            r == self.entry_seq()[i as int],
    {
        self.entries[i]
    }

    /// How many of this class's nodes `other` lacks, and their total self
    /// size; `None` when that total does not fit in a `u64`.
    pub fn fresh_totals(&self, other: &ClassAggregate) -> (r: Option<(usize, u64)>)
        requires
            self.wf(),
            other.wf(),
        ensures
            match r {
                Some((n, sz)) => n == self@.dom().difference(other@.dom()).len() && sz == set_sum(
                    self@.dom().difference(other@.dom()),
                    self@,
                ),
                None => set_sum(self@.dom().difference(other@.dom()), self@) > u64::MAX,
            },
    {
        broadcast use vstd::set::group_set_axioms;

        proof {
            self.lemma_entries();
        }
        let n = self.entries.len();
        let ghost e = self.entry_seq();
        let ghost full = self@.dom().difference(other@.dom());
        let mut cnt: usize = 0;
        let mut sum: u64 = 0;
        let mut i: usize = 0;
        proof {
            lemma_fresh_prefix(e, other@, 0);
        }
        while i < n
            invariant
                self.wf(),
                other.wf(),
                e == self.entry_seq(),
                n == e.len(),
                0 <= i <= n,
                full == self@.dom().difference(other@.dom()),
                fresh_prefix(e, other@, i as nat).finite(),
                fresh_prefix(e, other@, i as nat).len() <= i,
                cnt == fresh_prefix(e, other@, i as nat).len(),
                sum == set_sum(fresh_prefix(e, other@, i as nat), self@),
            decreases n - i,
        {
            let (id, size) = self.entries[i];
            proof {
                self.lemma_entries();
                lemma_fresh_prefix(e, other@, i as nat);
                lemma_fresh_prefix(e, other@, (i + 1) as nat);
            }
            if !other.contains(id) {
                proof {
                    let pre = fresh_prefix(e, other@, i as nat);
                    if pre.contains(id) {
                        let j = choose|j: int| 0 <= j < i && e[j].0 == id;
                        assert(e[j].0 != e[i as int].0);
                    }
                    assert(self@.contains_key(e[i as int].0));
                    lemma_set_sum_insert(pre, self@, id);
                    assert(fresh_prefix(e, other@, (i + 1) as nat) == pre.insert(id));
                }
                match sum.checked_add(size) {
                    Some(s2) => {
                        sum = s2;
                        cnt = cnt + 1;
                    },
                    None => {
                        proof {
                            let next = fresh_prefix(e, other@, (i + 1) as nat);
                            assert(next.subset_of(full)) by {
                                assert forall|x: u64| next.contains(x) implies full.contains(x) by {
                                    let j = choose|j: int| 0 <= j < i + 1 && e[j].0 == x;
                                    assert(self@.contains_key(e[j].0));
                                }
                            }
                            lemma_set_sum_subset(next, full, self@);
                        }
                        return None;
                    },
                }
            } else {
                proof {
                    assert(fresh_prefix(e, other@, (i + 1) as nat) == fresh_prefix(
                        e,
                        other@,
                        i as nat,
                    ));
                }
            }
            i = i + 1;
        }
        proof {
            lemma_fresh_prefix(e, other@, n as nat);
            assert forall|x: u64| full.contains(x) implies fresh_prefix(e, other@, n as nat).contains(
                x,
            ) by {
                let j = choose|j: int| 0 <= j < e.len() && e[j].0 == x;
            }
            assert(fresh_prefix(e, other@, n as nat) =~= full);
        }
        Some((cnt, sum))
    }

    /// The number of entries (equal to `len`).
    pub fn entry_count(&self) -> (r: usize)
        ensures
            r == self.entry_seq().len(),
    {
        self.entries.len()
    }
}

/// Position of the first class named `n` in a class list.
#[verifier::opaque]
pub open spec fn class_index(s: Seq<(Seq<char>, Map<u64, u64>)>, n: Seq<char>) -> Option<int> {
    if exists|i: int| 0 <= i < s.len() && s[i].0 == n {
        Some(choose|i: int| 0 <= i < s.len() && s[i].0 == n
            && forall|j: int| 0 <= j < i ==> s[j].0 != n)
    } else {
        None
    }
}

proof fn lemma_first_witness(s: Seq<(Seq<char>, Map<u64, u64>)>, n: Seq<char>, w: int)
    requires
        0 <= w < s.len(),
        s[w].0 == n,
    ensures
        exists|i: int|
            0 <= i < s.len() && s[i].0 == n && forall|j: int| 0 <= j < i ==> s[j].0 != n,
    decreases w,
{
    if exists|j: int| 0 <= j < w && s[j].0 == n {
        let j = choose|j: int| 0 <= j < w && s[j].0 == n;
        lemma_first_witness(s, n, j);
    } else {
        assert(0 <= w < s.len() && s[w].0 == n && forall|j: int| 0 <= j < w ==> s[j].0 != n);
    }
}

pub proof fn lemma_class_index_is(s: Seq<(Seq<char>, Map<u64, u64>)>, n: Seq<char>, i: int)
    requires
        0 <= i < s.len(),
        s[i].0 == n,
        forall|j: int| 0 <= j < i ==> s[j].0 != n,
    ensures
        class_index(s, n) == Some(i),
{
    reveal(class_index);
    lemma_first_witness(s, n, i);
    let w = choose|w: int| 0 <= w < s.len() && s[w].0 == n
        && forall|j: int| 0 <= j < w ==> s[j].0 != n;
    assert(0 <= w < s.len() && s[w].0 == n);
    if w < i {
        assert(s[w].0 != n);
    } else if w > i {
        assert(s[i].0 != n);
    }
}

pub proof fn lemma_class_index_none(s: Seq<(Seq<char>, Map<u64, u64>)>, n: Seq<char>)
    requires
        forall|j: int| 0 <= j < s.len() ==> s[j].0 != n,
    ensures
        class_index(s, n) is None,
{
    reveal(class_index);
}

pub proof fn lemma_class_index_some(s: Seq<(Seq<char>, Map<u64, u64>)>, n: Seq<char>)
    ensures
        class_index(s, n) matches Some(i) ==> 0 <= i < s.len() && s[i].0 == n,
        class_index(s, n) is None ==> forall|j: int| 0 <= j < s.len() ==> s[j].0 != n,
{
    reveal(class_index);
    if exists|w: int| 0 <= w < s.len() && s[w].0 == n {
        let w = choose|w: int| 0 <= w < s.len() && s[w].0 == n;
        lemma_first_witness(s, n, w);
    }
}

/// Class names are pairwise distinct.
pub open spec fn distinct_names(s: Seq<(Seq<char>, Map<u64, u64>)>) -> bool {
    forall|i: int, j: int| 0 <= i < j < s.len() ==> #[trigger] s[i].0 != #[trigger] s[j].0
}

/// The per-class node maps of a snapshot, in order of each class's first
/// appearance among the nodes.
pub struct ClassAggregates {
    names: Vec<Vec<char>>,
    classes: Vec<ClassAggregate>,
}

impl View for ClassAggregates {
    type V = Seq<(Seq<char>, Map<u64, u64>)>;

    closed spec fn view(&self) -> Seq<(Seq<char>, Map<u64, u64>)> {
        Seq::new(self.names@.len(), |i: int| (self.names@[i]@, self.classes@[i]@))
    }
}

impl ClassAggregates {
    /// The representation invariant.
    pub closed spec fn wf(&self) -> bool {
        &&& self.names@.len() == self.classes@.len()
        &&& forall|i: int| 0 <= i < self.classes@.len() ==> #[trigger] self.classes@[i].wf()
        &&& distinct_names(self@)
    }

    /// No classes.
    pub fn new() -> (r: Self)
        ensures
            r.wf(),
            r@ == Seq::<(Seq<char>, Map<u64, u64>)>::empty(),
    {
        let r = ClassAggregates { names: Vec::new(), classes: Vec::new() };
        assert(r@ =~= Seq::<(Seq<char>, Map<u64, u64>)>::empty());
        r
    }

    /// The number of classes.
    pub fn len(&self) -> (r: usize)
        ensures
            r == self@.len(),
    {
        self.names.len()
    }

    /// Index of the class named `name`.
    pub fn find(&self, name: &[char]) -> (r: Option<usize>)
        requires
            self.wf(),
        ensures
            match r {
                Some(i) => class_index(self@, name@) == Some(i as int),
                None => class_index(self@, name@) is None,
            },
    {
        let mut i: usize = 0;
        while i < self.names.len()
            invariant
                self.wf(),
                0 <= i <= self@.len(),
                forall|j: int| 0 <= j < i ==> self@[j].0 != name@,
            decreases self@.len() - i,
        {
            if self.names[i].len() == name.len() && crate::text::matches_at(
                self.names[i].as_slice(),
                name,
                0,
            ) {
                proof {
                    assert(self.names@[i as int]@.subrange(0, name@.len() as int) =~= self.names@[i as int]@);
                    assert(self@[i as int].0 == name@);
                    lemma_class_index_is(self@, name@, i as int);
                }
                return Some(i);
            }
            proof {
                if self@[i as int].0 == name@ {
                    assert(self.names@[i as int]@.subrange(0, name@.len() as int) =~= self.names@[i as int]@);
                }
            }
            i = i + 1;
        }
        proof {
            lemma_class_index_none(self@, name@);
        }
        None
    }

    /// The name of class `i`.
    pub fn name(&self, i: usize) -> (r: String)
        requires
            i < self@.len(),
        ensures
            r@ == self@[i as int].0,
    {
        string_from_chars(self.names[i].as_slice())
    }

    /// Class `i`.
    pub fn class(&self, i: usize) -> (r: &ClassAggregate)
        requires
            self.wf(),
            i < self@.len(),
        ensures
            r.wf(),
            r@ == self@[i as int].1,
    {
        &self.classes[i]
    }

    /// The class named `name`, if present.
    pub fn get(&self, name: &str) -> (r: Option<&ClassAggregate>)
        requires
            self.wf(),
        ensures
            match class_index(self@, name@) {
                Some(i) => r matches Some(c) && c.wf() && c@ == self@[i].1,
                None => r is None,
            },
    {
        let n = chars_of(name);
        match self.find(n.as_slice()) {
            Some(i) => {
                proof {
                    lemma_class_index_some(self@, name@);
                    assert(self.classes@[i as int].wf());
                    assert(self@[i as int].1 == self.classes@[i as int]@);
                }
                Some(&self.classes[i])
            },
            None => None,
        }
    }

    /// Index of the class named `name`, adding an empty class when absent.
    fn position_or_add(&mut self, name: &[char]) -> (r: usize)
        requires
            old(self).wf(),
        ensures
            final(self).wf(),
            r < final(self)@.len(),
            final(self)@[r as int].0 == name@,
            match class_index(old(self)@, name@) {
                Some(i) => r == i && final(self)@ == old(self)@,
                None => r == old(self)@.len() && final(self)@ == old(self)@.push(
                    (name@, Map::<u64, u64>::empty()),
                ),
            },
    {
        match self.find(name) {
            Some(i) => {
                proof {
                    lemma_class_index_some(self@, name@);
                    assert(class_index(self@, name@) == Some(i as int));
                }
                i
            },
            None => {
                proof {
                    lemma_class_index_some(self@, name@);
                }
                let n = self.names.len();
                let mut v: Vec<char> = Vec::new();
                crate::text::push_all(&mut v, name);
                self.names.push(v);
                self.classes.push(ClassAggregate::new());
                proof {
                    assert(self@ =~= old(self)@.push((name@, Map::<u64, u64>::empty())));
                    assert forall|i: int, j: int| 0 <= i < j < self@.len() implies #[trigger] self@[i].0
                        != #[trigger] self@[j].0 by {
                        if j == n {
                            assert(old(self)@[i].0 != name@);
                        } else {
                            assert(old(self)@[i].0 != old(self)@[j].0);
                        }
                    }
                }
                n
            },
        }
    }

    /// Records node `id` with `size` in class `pos`.
    fn insert_at(&mut self, pos: usize, id: u64, size: u64)
        requires
            old(self).wf(),
            pos < old(self)@.len(),
        ensures
            final(self).wf(),
            final(self)@ == old(self)@.update(
                pos as int,
                (old(self)@[pos as int].0, old(self)@[pos as int].1.insert(id, size)),
            ),
    {
        self.classes[pos].insert(id, size);
        proof {
            assert(self@ =~= old(self)@.update(
                pos as int,
                (old(self)@[pos as int].0, old(self)@[pos as int].1.insert(id, size)),
            ));
            assert forall|i: int| 0 <= i < self.classes@.len() implies #[trigger] self.classes@[i].wf() by {
                if i != pos {
                    assert(self.classes@[i] == old(self).classes@[i]);
                }
            }
        }
    }
}

// ---------------------------------------------------------------------
// Building the aggregates
// ---------------------------------------------------------------------

/// The type-name enum from the snapshot meta, when the schema has a `type` field
/// whose `node_types` entry is an array (non-string members read as "unknown").
pub open spec fn meta_type_names(snap: HeapSnapshot, o: NodeFieldOffsets) -> Option<
    Seq<Seq<char>>,
> {
    match o.type_offset {
        Some(t) => if t < snap.node_types@.len() {
            match snap.node_types@[t as int] {
                NodeTypeMeta::Names(v) => Some(
                    Seq::new(
                        v@.len(),
                        |i: int|
                            match v@[i] {
                                Some(s) => s@,
                                None => "unknown"@,
                            },
                    ),
                ),
                NodeTypeMeta::Other => None,
            }
        } else {
            None
        },
        None => None,
    }
}

/// Entry `ti` of the type enum, or "unknown" past its end.
pub open spec fn type_name_at(names: Seq<Seq<char>>, ti: int) -> Seq<char> {
    if 0 <= ti < names.len() {
        names[ti]
    } else {
        "unknown"@
    }
}

/// Types whose `name` field holds a constructor/class label.
pub open spec fn is_object_like(t: Seq<char>) -> bool {
    t == "object"@ || t == "native"@ || t == "closure"@
}

/// The class of record `k`: its name for object-like types (or when the
/// snapshot has no type enum), otherwise its type name.
pub open spec fn record_class(
    snap: HeapSnapshot,
    o: NodeFieldOffsets,
    tn: Option<Seq<Seq<char>>>,
    k: int,
) -> Result<Seq<char>, SnapshotError> {
    match string_at(
        string_views(snap.strings@),
        field_of(snap.nodes@, o.node_size as int, k, o.name_offset as int),
    ) {
        Err(e) => Err(e),
        Ok(name) => match (tn, o.type_offset) {
            (Some(names), Some(to)) => {
                let ti = (field_of(snap.nodes@, o.node_size as int, k, to as int) as usize) as int;
                let tname = type_name_at(names, ti);
                if is_object_like(tname) {
                    Ok(name)
                } else {
                    Ok(tname)
                }
            },
            _ => Ok(name),
        },
    }
}

/// The class list after the first `k` records.
pub open spec fn agg_prefix(
    snap: HeapSnapshot,
    o: NodeFieldOffsets,
    tn: Option<Seq<Seq<char>>>,
    k: nat,
) -> Result<Seq<(Seq<char>, Map<u64, u64>)>, SnapshotError>
    decreases k,
{
    if k == 0 {
        Ok(Seq::empty())
    } else {
        match agg_prefix(snap, o, tn, (k - 1) as nat) {
            Err(e) => Err(e),
            Ok(s) => match record_class(snap, o, tn, k - 1) {
                Err(e) => Err(e),
                Ok(key) => {
                    let id = field_of(snap.nodes@, o.node_size as int, k - 1, o.id_offset as int);
                    let size = field_of(
                        snap.nodes@,
                        o.node_size as int,
                        k - 1,
                        o.self_size_offset as int,
                    );
                    match class_index(s, key) {
                        Some(i) => Ok(s.update(i, (key, s[i].1.insert(id, size)))),
                        None => Ok(s.push((key, Map::<u64, u64>::empty().insert(id, size)))),
                    }
                },
            },
        }
    }
}

/// What `build_class_aggregates` computes: every node grouped under its class
/// (a later node with an id already seen in its class overwrites the size).
pub open spec fn aggregates_spec(snap: HeapSnapshot) -> Result<
    Seq<(Seq<char>, Map<u64, u64>)>,
    SnapshotError,
> {
    match offsets_spec(string_views(snap.node_fields@), snap.nodes@.len()) {
        Err(e) => Err(e),
        Ok(o) => agg_prefix(
            snap,
            o,
            meta_type_names(snap, o),
            ((snap.nodes@.len() as int) / (o.node_size as int)) as nat,
        ),
    }
}

/// A failed prefix fails every longer one.
proof fn lemma_agg_prefix_ok_below(
    snap: HeapSnapshot,
    o: NodeFieldOffsets,
    tn: Option<Seq<Seq<char>>>,
    j: nat,
    n: nat,
)
    requires
        j <= n,
        agg_prefix(snap, o, tn, n) is Ok,
    ensures
        agg_prefix(snap, o, tn, j) is Ok,
    decreases n - j,
{
    if j < n {
        lemma_agg_prefix_ok_below(snap, o, tn, (j + 1) as nat, n);
    }
}

/// Once record `k` is grouped, its id stays in its class.
proof fn lemma_record_stays_grouped(
    snap: HeapSnapshot,
    o: NodeFieldOffsets,
    tn: Option<Seq<Seq<char>>>,
    k: int,
    j: nat,
)
    requires
        0 <= k < j,
        agg_prefix(snap, o, tn, j) is Ok,
    ensures
        record_class(snap, o, tn, k) is Ok,
        exists|i: int|
            0 <= i < agg_prefix(snap, o, tn, j)->Ok_0.len() && (#[trigger] agg_prefix(snap, o, tn, j)->Ok_0[i]).0
                == record_class(snap, o, tn, k)->Ok_0 && agg_prefix(snap, o, tn, j)->Ok_0[i].1.contains_key(
                field_of(snap.nodes@, o.node_size as int, k, o.id_offset as int),
            ),
    decreases j,
{
    let id = field_of(snap.nodes@, o.node_size as int, k, o.id_offset as int);
    lemma_agg_prefix_ok_below(snap, o, tn, (j - 1) as nat, j);
    let s = agg_prefix(snap, o, tn, (j - 1) as nat)->Ok_0;
    let t = agg_prefix(snap, o, tn, j)->Ok_0;
    let key2 = record_class(snap, o, tn, j - 1)->Ok_0;
    lemma_class_index_some(s, key2);
    if k == j - 1 {
        match class_index(s, key2) {
            Some(i) => {
                assert(t[i].0 == key2 && t[i].1.contains_key(id));
            },
            None => {
                assert(t[s.len() as int].0 == key2 && t[s.len() as int].1.contains_key(id));
            },
        }
    } else {
        lemma_record_stays_grouped(snap, o, tn, k, (j - 1) as nat);
        let key = record_class(snap, o, tn, k)->Ok_0;
        let i = choose|i: int| 0 <= i < s.len() && (#[trigger] s[i]).0 == key && s[i].1.contains_key(id);
        match class_index(s, key2) {
            Some(i2) => {
                if i2 == i {
                    assert(t[i].0 == key && t[i].1.contains_key(id));
                } else {
                    assert(t[i] == s[i]);
                }
            },
            None => {
                assert(t[i] == s[i]);
            },
        }
    }
}

/// Every node of the snapshot is grouped, under its class: the string its
/// `name` field points to for `object`, `native` and `closure` nodes (and
/// for every node when the snapshot has no type enum), and otherwise its
/// type's own name.
pub proof fn lemma_nodes_grouped_by_class(snap: HeapSnapshot, k: int)
    requires
        aggregates_spec(snap) is Ok,
        0 <= k < (snap.nodes@.len() as int) / (offsets_spec(
            string_views(snap.node_fields@),
            snap.nodes@.len(),
        )->Ok_0.node_size as int),
    ensures
        ({
            let o = offsets_spec(string_views(snap.node_fields@), snap.nodes@.len())->Ok_0;
            let classes = aggregates_spec(snap)->Ok_0;
            let name = string_views(snap.strings@)[field_of(
                snap.nodes@,
                o.node_size as int,
                k,
                o.name_offset as int,
            ) as int];
            let key = match (meta_type_names(snap, o), o.type_offset) {
                (Some(names), Some(to)) => {
                    let tname = type_name_at(
                        names,
                        (field_of(snap.nodes@, o.node_size as int, k, to as int) as usize) as int,
                    );
                    if tname == "object"@ || tname == "native"@ || tname == "closure"@ {
                        name
                    } else {
                        tname
                    }
                },
                _ => name,
            };
            exists|i: int|
                0 <= i < classes.len() && (#[trigger] classes[i]).0 == key && classes[i].1.contains_key(
                    field_of(snap.nodes@, o.node_size as int, k, o.id_offset as int),
                )
        }),
{
    let o = offsets_spec(string_views(snap.node_fields@), snap.nodes@.len())->Ok_0;
    let tn = meta_type_names(snap, o);
    let n = ((snap.nodes@.len() as int) / (o.node_size as int)) as nat;
    lemma_record_stays_grouped(snap, o, tn, k, n);
}

/// The type names as character vectors.
fn type_names_of(snap: &HeapSnapshot, o: NodeFieldOffsets) -> (r: Option<Vec<Vec<char>>>)
    ensures
        match (r, meta_type_names(*snap, o)) {
            (Some(v), Some(t)) => v@.len() == t.len() && forall|i: int|
                0 <= i < t.len() ==> #[trigger] v@[i]@ == t[i],
            (None, None) => true,
            _ => false,
        },
{
    match o.type_offset {
        Some(t) => {
            if t < snap.node_types.len() {
                match &snap.node_types[t] {
                    NodeTypeMeta::Names(v) => {
                        let ghost tn = meta_type_names(*snap, o).unwrap();
                        let mut out: Vec<Vec<char>> = Vec::new();
                        let mut i: usize = 0;
                        while i < v.len()
                            invariant
                                0 <= i <= v@.len(),
                                tn.len() == v@.len(),
                                tn == meta_type_names(*snap, o).unwrap(),
                                snap.node_types@[t as int] == NodeTypeMeta::Names(*v),
                                o.type_offset == Some(t),
                                t < snap.node_types@.len(),
                                out@.len() == i,
                                forall|j: int| 0 <= j < i ==> #[trigger] out@[j]@ == tn[j],
                            decreases v@.len() - i,
                        {
                            let c = match &v[i] {
                                Some(s) => chars_of(s.as_str()),
                                None => chars_of("unknown"),
                            };
                            out.push(c);
                            i = i + 1;
                        }
                        Some(out)
                    },
                    NodeTypeMeta::Other => None,
                }
            } else {
                None
            }
        },
        None => None,
    }
}

/// Whether a type name is one whose nodes are grouped by their own name.
fn object_like(t: &[char]) -> (b: bool)
    ensures
        b == is_object_like(t@),
{
    let o = chars_of("object");
    let n = chars_of("native");
    let c = chars_of("closure");
    let b1 = t.len() == o.len() && matches_at(t, o.as_slice(), 0);
    let b2 = t.len() == n.len() && matches_at(t, n.as_slice(), 0);
    let b3 = t.len() == c.len() && matches_at(t, c.as_slice(), 0);
    proof {
        assert(t@.subrange(0, t@.len() as int) =~= t@);
    }
    b1 || b2 || b3
}

/// Entry `ti` of the type-name table, or "unknown".
fn type_name_slice<'a>(tnames: &'a Option<Vec<Vec<char>>>, unknown: &'a [char], ti: usize) -> (r: &'a [char])
    requires
        tnames is Some,
        unknown@ == "unknown"@,
    ensures
        r@ == type_name_at(tnames.unwrap()@.map_values(|v: Vec<char>| v@), ti as int),
{
    match tnames {
        Some(v) => {
            if ti < v.len() {
                v[ti].as_slice()
            } else {
                unknown
            }
        },
        None => unknown,
    }
}

/// Whether record `k` is grouped under its type name (`Some(type index)`)
/// rather than under its own name (`None`).
fn record_key(
    snap: &HeapSnapshot,
    offs: NodeFieldOffsets,
    tnames: &Option<Vec<Vec<char>>>,
    unknown: &[char],
    k: usize,
) -> (r: Option<usize>)
    requires
        offs.node_size > 0,
        offs.type_offset matches Some(t) ==> t < offs.node_size,
        k < (snap.nodes@.len() as int) / (offs.node_size as int),
        unknown@ == "unknown"@,
        match (*tnames, meta_type_names(*snap, offs)) {
            (Some(v), Some(t)) => v@.len() == t.len() && forall|i: int|
                0 <= i < t.len() ==> #[trigger] v@[i]@ == t[i],
            (None, None) => true,
            _ => false,
        },
        string_at(
            string_views(snap.strings@),
            field_of(snap.nodes@, offs.node_size as int, k as int, offs.name_offset as int),
        ) is Ok,
    ensures
        ({
            let tn = meta_type_names(*snap, offs);
            let name = string_at(
                string_views(snap.strings@),
                field_of(snap.nodes@, offs.node_size as int, k as int, offs.name_offset as int),
            ).unwrap();
            match r {
                None => record_class(*snap, offs, tn, k as int) == Ok::<Seq<char>, SnapshotError>(name),
                Some(ti) => tn is Some && tnames is Some && record_class(*snap, offs, tn, k as int) == Ok::<
                    Seq<char>,
                    SnapshotError,
                >(type_name_at(tn.unwrap(), ti as int)),
            }
        }),
{
    match (tnames, offs.type_offset) {
        (Some(names), Some(to)) => {
            proof {
                lemma_record_bounds(k as int, offs.node_size as int, to as int, snap.nodes@.len() as int);
            }
            let len = snap.nodes.len();
            let base = k * offs.node_size;
            let traw = snap.nodes[base + to];
            assert(traw == field_of(snap.nodes@, offs.node_size as int, k as int, to as int));
            let ti = traw as usize;
            let tname = type_name_slice(tnames, unknown, ti);
            proof {
                let tn = meta_type_names(*snap, offs).unwrap();
                assert(names@.map_values(|v: Vec<char>| v@) =~= tn);
            }
            if object_like(tname) {
                None
            } else {
                Some(ti)
            }
        },
        _ => None,
    }
}

/// Groups every node of the snapshot by class name. For object, native and
/// closure nodes the class is the node's name (its constructor); for the
/// other types (strings, arrays, code, ...) it is the type name, so that one
/// class does not split into a class per string value.
pub fn build_class_aggregates(snap: &HeapSnapshot) -> (r: Result<ClassAggregates, SnapshotError>)
    ensures
        match (r, aggregates_spec(*snap)) {
            (Ok(a), Ok(s)) => a.wf() && a@ == s,
            (Err(e), Err(f)) => e == f,
            _ => false,
        },
{
    broadcast use vstd::std_specs::hash::group_hash_axioms;

    let offs = match resolve_node_field_offsets(&snap.node_fields, snap.nodes.len()) {
        Ok(o) => o,
        Err(e) => {
            return Err(e);
        },
    };
    let ghost sv = string_views(snap.strings@);
    let ghost tn = meta_type_names(*snap, offs);
    let tnames = type_names_of(snap, offs);
    let unknown = chars_of("unknown");
    let ns = offs.node_size;
    let count = snap.nodes.len() / ns;
    let mut aggs = ClassAggregates::new();
    let mut name_cache: HashMap<u64, usize> = HashMap::new();
    let mut type_cache: HashMap<usize, usize> = HashMap::new();
    let mut k: usize = 0;
    while k < count
        invariant
            offs == offsets_spec(string_views(snap.node_fields@), snap.nodes@.len()).unwrap(),
            offsets_spec(string_views(snap.node_fields@), snap.nodes@.len()) is Ok,
            ns == offs.node_size,
            ns > 0,
            offs.id_offset < ns,
            offs.name_offset < ns,
            offs.self_size_offset < ns,
            offs.type_offset matches Some(t) ==> t < ns,
            snap.nodes@.len() == snap.nodes.len(),
            count == (snap.nodes@.len() as int) / (ns as int),
            0 <= k <= count,
            sv == string_views(snap.strings@),
            tn == meta_type_names(*snap, offs),
            unknown@ == "unknown"@,
            match (tnames, tn) {
                (Some(v), Some(t)) => v@.len() == t.len() && forall|i: int|
                    0 <= i < t.len() ==> #[trigger] v@[i]@ == t[i],
                (None, None) => true,
                _ => false,
            },
            aggs.wf(),
            agg_prefix(*snap, offs, tn, k as nat) == Ok::<
                Seq<(Seq<char>, Map<u64, u64>)>,
                SnapshotError,
            >(aggs@),
            forall|raw: u64| #[trigger]
                name_cache@.contains_key(raw) ==> raw < sv.len() && name_cache@[raw] < aggs@.len()
                    && aggs@[name_cache@[raw] as int].0 == sv[raw as int],
            forall|ti: usize| #[trigger]
                type_cache@.contains_key(ti) ==> type_cache@[ti] < aggs@.len() && tn is Some
                    && aggs@[type_cache@[ti] as int].0 == type_name_at(tn.unwrap(), ti as int),
        decreases count - k,
    {
        proof {
            lemma_record_bounds(k as int, ns as int, offs.name_offset as int, snap.nodes@.len() as int);
            lemma_record_bounds(k as int, ns as int, offs.id_offset as int, snap.nodes@.len() as int);
            lemma_record_bounds(
                k as int,
                ns as int,
                offs.self_size_offset as int,
                snap.nodes@.len() as int,
            );
        }
        let base = k * ns;
        let raw = snap.nodes[base + offs.name_offset];
        let id = snap.nodes[base + offs.id_offset];
        let size = snap.nodes[base + offs.self_size_offset];
        assert(raw == field_of(snap.nodes@, ns as int, k as int, offs.name_offset as int));
        assert(id == field_of(snap.nodes@, ns as int, k as int, offs.id_offset as int));
        assert(size == field_of(snap.nodes@, ns as int, k as int, offs.self_size_offset as int));
        if raw > usize::MAX as u64 {
            proof {
                lemma_agg_prefix_err_propagates(*snap, offs, tn, (k + 1) as nat, count as nat);
            }
            return Err(SnapshotError::StringIndexOverflow);
        }
        let idx = raw as usize;
        if idx >= snap.strings.len() {
            proof {
                lemma_agg_prefix_err_propagates(*snap, offs, tn, (k + 1) as nat, count as nat);
            }
            return Err(SnapshotError::StringIndexOutOfBounds { index: idx, len: snap.strings.len() });
        }
        let by_type = record_key(snap, offs, &tnames, unknown.as_slice(), k);
        let ghost key = record_class(*snap, offs, tn, k as int).unwrap();
        let ghost mid0 = aggs@;
        let pos = match by_type {
            None => {
                match name_cache.get(&raw) {
                    Some(p) => {
                        let p = *p;
                        proof {
                            lemma_distinct_index(mid0, key, p as int);
                        }
                        p
                    },
                    None => {
                        let name = chars_of(snap.strings[idx].as_str());
                        let p = aggs.position_or_add(name.as_slice());
                        name_cache.insert(raw, p);
                        p
                    },
                }
            },
            Some(ti) => {
                match type_cache.get(&ti) {
                    Some(p) => {
                        let p = *p;
                        proof {
                            lemma_distinct_index(mid0, key, p as int);
                        }
                        p
                    },
                    None => {
                        let tname = type_name_slice(&tnames, unknown.as_slice(), ti);
                        let p = aggs.position_or_add(tname);
                        type_cache.insert(ti, p);
                        p
                    },
                }
            },
        };
        let ghost mid = aggs@;
        aggs.insert_at(pos, id, size);
        proof {
            lemma_agg_prefix_step(*snap, offs, tn, k as nat, mid0, key);
            if class_index(mid0, key) is None {
                assert(aggs@ =~= mid0.push((key, Map::<u64, u64>::empty().insert(id, size))));
            }
            assert forall|r: u64| #[trigger]
                name_cache@.contains_key(r) implies r < sv.len() && name_cache@[r] < aggs@.len()
                    && aggs@[name_cache@[r] as int].0 == sv[r as int] by {
                assert(mid[name_cache@[r] as int].0 == sv[r as int]);
            }
            assert forall|t: usize| #[trigger]
                type_cache@.contains_key(t) implies type_cache@[t] < aggs@.len() && tn is Some
                    && aggs@[type_cache@[t] as int].0 == type_name_at(tn.unwrap(), t as int) by {
                assert(mid[type_cache@[t] as int].0 == type_name_at(tn.unwrap(), t as int));
            }
        }
        k = k + 1;
    }
    Ok(aggs)
}

proof fn lemma_agg_prefix_step(
    snap: HeapSnapshot,
    o: NodeFieldOffsets,
    tn: Option<Seq<Seq<char>>>,
    k: nat,
    before: Seq<(Seq<char>, Map<u64, u64>)>,
    key: Seq<char>,
)
    requires
        agg_prefix(snap, o, tn, k) == Ok::<Seq<(Seq<char>, Map<u64, u64>)>, SnapshotError>(before),
        record_class(snap, o, tn, k as int) == Ok::<Seq<char>, SnapshotError>(key),
    ensures
        ({
            let id = field_of(snap.nodes@, o.node_size as int, k as int, o.id_offset as int);
            let size = field_of(snap.nodes@, o.node_size as int, k as int, o.self_size_offset as int);
            agg_prefix(snap, o, tn, k + 1) == Ok::<Seq<(Seq<char>, Map<u64, u64>)>, SnapshotError>(
                match class_index(before, key) {
                    Some(i) => before.update(i, (key, before[i].1.insert(id, size))),
                    None => before.push((key, Map::<u64, u64>::empty().insert(id, size))),
                },
            )
        }),
{
}

proof fn lemma_distinct_index(s: Seq<(Seq<char>, Map<u64, u64>)>, n: Seq<char>, p: int)
    requires
        distinct_names(s),
        0 <= p < s.len(),
        s[p].0 == n,
    ensures
        class_index(s, n) == Some(p),
{
    assert forall|j: int| 0 <= j < p implies s[j].0 != n by {
        assert(s[j].0 != s[p].0);
    }
    lemma_class_index_is(s, n, p);
}

proof fn lemma_agg_prefix_err_propagates(
    snap: HeapSnapshot,
    o: NodeFieldOffsets,
    tn: Option<Seq<Seq<char>>>,
    k: nat,
    n: nat,
)
    requires
        k <= n,
        agg_prefix(snap, o, tn, k) is Err,
    ensures
        agg_prefix(snap, o, tn, n) == agg_prefix(snap, o, tn, k),
    decreases n - k,
{
    if k < n {
        lemma_agg_prefix_err_propagates(snap, o, tn, k + 1, n);
    }
}


// ---------------------------------------------------------------------
// Class diff
// ---------------------------------------------------------------------

/// One row of the class diff: how a class's node population changed.
#[derive(Clone, Debug)]
pub struct HeapSnapshotClassDiff {
    pub class_name: String,
    pub added_count: usize,
    pub removed_count: usize,
    pub count_delta: i64,
    pub added_size: u64,
    pub removed_size: u64,
    pub size_delta: i64,
}

/// Ids in `cm` that `bm` lacks.
pub open spec fn added_set(cm: Map<u64, u64>, bm: Map<u64, u64>) -> Set<u64> {
    cm.dom().difference(bm.dom())
}

/// The node map of class `n`, empty when the class is absent.
pub open spec fn class_map(s: Seq<(Seq<char>, Map<u64, u64>)>, n: Seq<char>) -> Map<u64, u64> {
    match class_index(s, n) {
        Some(i) => s[i].1,
        None => Map::empty(),
    }
}

/// A class changed when a node was added to it or removed from it.
pub open spec fn class_changed(cm: Map<u64, u64>, bm: Map<u64, u64>) -> bool {
    added_set(cm, bm).len() > 0 || added_set(bm, cm).len() > 0
}

/// The counters of `r` are those of a class going from `bm` to `cm`.
pub open spec fn row_matches(r: HeapSnapshotClassDiff, cm: Map<u64, u64>, bm: Map<u64, u64>) -> bool {
    let a = added_set(cm, bm);
    let d = added_set(bm, cm);
    &&& r.added_count == a.len()
    &&& r.removed_count == d.len()
    &&& r.added_size == set_sum(a, cm)
    &&& r.removed_size == set_sum(d, bm)
    &&& r.count_delta == a.len() - d.len()
    &&& r.size_delta == set_sum(a, cm) - set_sum(d, bm)
}

/// `r` is the diff row of a changed class of either snapshot.
pub open spec fn diff_row_ok(
    r: HeapSnapshotClassDiff,
    base: Seq<(Seq<char>, Map<u64, u64>)>,
    current: Seq<(Seq<char>, Map<u64, u64>)>,
) -> bool {
    let n = r.class_name@;
    &&& (class_index(current, n) is Some || class_index(base, n) is Some)
    &&& class_changed(class_map(current, n), class_map(base, n))
    &&& row_matches(r, class_map(current, n), class_map(base, n))
}

/// Row order: larger size delta first, then class name ascending.
pub open spec fn row_before(a: HeapSnapshotClassDiff, b: HeapSnapshotClassDiff) -> bool {
    a.size_delta > b.size_delta || (a.size_delta == b.size_delta && chars_lt(
        a.class_name@,
        b.class_name@,
    ))
}

/// Every class's node count and total self size fit in an `i64`.
pub open spec fn totals_fit(s: Seq<(Seq<char>, Map<u64, u64>)>) -> bool {
    forall|i: int|
        0 <= i < s.len() ==> #[trigger] s[i].1.dom().len() <= i64::MAX && set_sum(
            s[i].1.dom(),
            s[i].1,
        ) <= i64::MAX
}

proof fn lemma_row_before_transitive(a: HeapSnapshotClassDiff, b: HeapSnapshotClassDiff, c: HeapSnapshotClassDiff)
    requires
        row_before(a, b),
        row_before(b, c),
    ensures
        row_before(a, c),
{
    if a.size_delta == b.size_delta && b.size_delta == c.size_delta {
        lemma_chars_lt_transitive(a.class_name@, b.class_name@, c.class_name@);
    }
}

proof fn lemma_row_before_total(a: HeapSnapshotClassDiff, b: HeapSnapshotClassDiff)
    requires
        a.class_name@ != b.class_name@,
    ensures
        row_before(a, b) || row_before(b, a),
{
    lemma_chars_lt_total(a.class_name@, b.class_name@);
}

/// Whether row `a` sorts before row `b`.
fn row_before_exec(a: &HeapSnapshotClassDiff, b: &HeapSnapshotClassDiff) -> (r: bool)
    ensures
        r == row_before(*a, *b),
{
    if a.size_delta != b.size_delta {
        a.size_delta > b.size_delta
    } else {
        let x = chars_of(a.class_name.as_str());
        let y = chars_of(b.class_name.as_str());
        chars_less(x.as_slice(), y.as_slice())
    }
}

proof fn lemma_class_totals_bound(cm: Map<u64, u64>, bm: Map<u64, u64>)
    requires
        cm.dom().finite(),
    ensures
        added_set(cm, bm).finite(),
        added_set(cm, bm).len() <= cm.dom().len(),
        set_sum(added_set(cm, bm), cm) <= set_sum(cm.dom(), cm),
{
    vstd::set_lib::lemma_len_subset(added_set(cm, bm), cm.dom());
    lemma_set_sum_subset(added_set(cm, bm), cm.dom(), cm);
}

/// The diff row of the class `name`, which goes from `b` to `c`; `None` when
/// the class did not change.
fn make_row(name: String, c: &ClassAggregate, b: &ClassAggregate) -> (r: Option<HeapSnapshotClassDiff>)
    requires
        c.wf(),
        b.wf(),
        c@.dom().len() <= i64::MAX,
        set_sum(c@.dom(), c@) <= i64::MAX,
        b@.dom().len() <= i64::MAX,
        set_sum(b@.dom(), b@) <= i64::MAX,
    ensures
        match r {
            Some(row) => row.class_name@ == name@ && row_matches(row, c@, b@) && class_changed(c@, b@),
            None => !class_changed(c@, b@),
        },
{
    proof {
        c.lemma_entries();
        b.lemma_entries();
        lemma_class_totals_bound(c@, b@);
        lemma_class_totals_bound(b@, c@);
    }
    let (ac, asz) = match c.fresh_totals(b) {
        Some(t) => t,
        None => {
            return None;
        },
    };
    let (rc, rsz) = match b.fresh_totals(c) {
        Some(t) => t,
        None => {
            return None;
        },
    };
    if ac == 0 && rc == 0 {
        return None;
    }
    Some(
        HeapSnapshotClassDiff {
            class_name: name,
            added_count: ac,
            removed_count: rc,
            count_delta: ac as i64 - rc as i64,
            added_size: asz,
            removed_size: rsz,
            size_delta: asz as i64 - rsz as i64,
        },
    )
}

/// Rows in strictly increasing `row_before` order.
pub open spec fn rows_sorted(s: Seq<HeapSnapshotClassDiff>) -> bool {
    forall|i: int, j: int| 0 <= i < j < s.len() ==> row_before(#[trigger] s[i], #[trigger] s[j])
}

/// Pairwise distinct class names.
pub open spec fn row_names_distinct(s: Seq<HeapSnapshotClassDiff>) -> bool {
    forall|i: int, j: int|
        0 <= i < j < s.len() ==> #[trigger] s[i].class_name@ != #[trigger] s[j].class_name@
}

/// `a` holds exactly the rows `rows[from..]`, each once.
#[verifier::opaque]
pub open spec fn holds_rows_from(
    a: Seq<HeapSnapshotClassDiff>,
    rows: Seq<HeapSnapshotClassDiff>,
    from: int,
) -> bool {
    &&& a.len() == rows.len() - from
    &&& forall|i: int|
        #![trigger a[i]]
        0 <= i < a.len() ==> exists|k: int|
            #![trigger rows[k]]
            from <= k < rows.len() && a[i] == rows[k]
    &&& forall|k: int|
        #![trigger rows[k]]
        from <= k < rows.len() ==> exists|i: int|
            #![trigger a[i]]
            0 <= i < a.len() && a[i] == rows[k]
}

/// Inserts `x` into the sorted rows `out` at its place; returns the place.
#[verifier::rlimit(30)]
fn insert_sorted(out: &mut Vec<HeapSnapshotClassDiff>, x: HeapSnapshotClassDiff) -> (p: usize)
    requires
        rows_sorted(old(out)@),
        forall|i: int| 0 <= i < old(out)@.len() ==> old(out)@[i].class_name@ != x.class_name@,
    ensures
        p <= old(out)@.len(),
        final(out)@ == old(out)@.insert(p as int, x),
        rows_sorted(final(out)@),
{
    let ghost before = out@;
    let mut lo: usize = 0;
    let mut hi: usize = out.len();
    while lo < hi
        invariant
            0 <= lo <= hi <= out@.len(),
            out@ == before,
            rows_sorted(before),
            forall|i: int| 0 <= i < before.len() ==> before[i].class_name@ != x.class_name@,
            forall|i: int| 0 <= i < lo ==> row_before(#[trigger] before[i], x),
            forall|i: int| hi <= i < before.len() ==> row_before(x, #[trigger] before[i]),
        decreases hi - lo,
    {
        let mid = lo + (hi - lo) / 2;
        if row_before_exec(&out[mid], &x) {
            proof {
                assert forall|i: int| 0 <= i < mid + 1 implies row_before(#[trigger] before[i], x) by {
                    if i < mid {
                        lemma_row_before_transitive(before[i], before[mid as int], x);
                    }
                }
            }
            lo = mid + 1;
        } else {
            proof {
                lemma_row_before_total(before[mid as int], x);
                assert forall|i: int| mid <= i < before.len() implies row_before(x, #[trigger] before[i]) by {
                    if i > mid {
                        lemma_row_before_transitive(x, before[mid as int], before[i]);
                    }
                }
            }
            hi = mid;
        }
    }
    out.insert(lo, x);
    proof {
        let p = lo as int;
        let after = out@;
        assert forall|i: int, j: int| 0 <= i < j < after.len() implies row_before(#[trigger] after[i], #[trigger] after[j]) by {
            if j < p {
                assert(after[i] == before[i]);
                assert(after[j] == before[j]);
            } else if j == p {
                assert(after[i] == before[i]);
            } else if i < p {
                assert(after[i] == before[i]);
                assert(after[j] == before[j - 1]);
            } else if i == p {
                assert(after[j] == before[j - 1]);
            } else {
                assert(after[i] == before[i - 1]);
                assert(after[j] == before[j - 1]);
            }
        }
    }
    lo
}

/// Sorts changed-class rows by `row_before`, keeping each row.
fn sort_rows(rows: Vec<HeapSnapshotClassDiff>) -> (out: Vec<HeapSnapshotClassDiff>)
    requires
        row_names_distinct(rows@),
    ensures
        holds_rows_from(out@, rows@, 0),
        rows_sorted(out@),
{
    let ghost rows0 = rows@;
    let mut rest = rows;
    let mut out: Vec<HeapSnapshotClassDiff> = Vec::new();
    proof {
        reveal(holds_rows_from);
    }
    while rest.len() > 0
        invariant
            rest@.len() <= rows0.len(),
            rest@ == rows0.take(rest@.len() as int),
            row_names_distinct(rows0),
            holds_rows_from(out@, rows0, rest@.len() as int),
            rows_sorted(out@),
        decreases rest@.len(),
    {
        let ghost before = out@;
        let ghost l = (rest@.len() - 1) as int;
        let x = match rest.pop() {
            Some(x) => x,
            None => {
                return out;
            },
        };
        proof {
            assert(rest@ =~= rows0.take(l));
            lemma_sort_names(rows0, before, l);
        }
        let p = insert_sorted(&mut out, x);
        proof {
            lemma_sort_step(rows0, before, out@, l, p as int);
        }
    }
    out
}

proof fn lemma_sort_names(rows0: Seq<HeapSnapshotClassDiff>, before: Seq<HeapSnapshotClassDiff>, l: int)
    requires
        0 <= l < rows0.len(),
        row_names_distinct(rows0),
        holds_rows_from(before, rows0, l + 1),
    ensures
        forall|i: int| 0 <= i < before.len() ==> before[i].class_name@ != rows0[l].class_name@,
{
    reveal(holds_rows_from);
    assert forall|i: int| 0 <= i < before.len() implies before[i].class_name@ != rows0[l].class_name@ by {
        assert(before[i] == before[i]);
        let k = choose|k: int| #![trigger rows0[k]] l + 1 <= k < rows0.len() && before[i] == rows0[k];
        assert(rows0[l].class_name@ != rows0[k].class_name@);
    }
}

proof fn lemma_sort_step(
    rows0: Seq<HeapSnapshotClassDiff>,
    before: Seq<HeapSnapshotClassDiff>,
    after: Seq<HeapSnapshotClassDiff>,
    l: int,
    p: int,
)
    requires
        0 <= l < rows0.len(),
        0 <= p <= before.len(),
        after == before.insert(p, rows0[l]),
        holds_rows_from(before, rows0, l + 1),
    ensures
        holds_rows_from(after, rows0, l),
{
    reveal(holds_rows_from);
    assert forall|i: int| #![trigger after[i]] 0 <= i < after.len() implies exists|k: int|
        #![trigger rows0[k]]
        l <= k < rows0.len() && after[i] == rows0[k] by {
        if i < p {
            assert(after[i] == before[i]);
        } else if i == p {
            assert(after[i] == rows0[l]);
        } else {
            assert(after[i] == before[i - 1]);
        }
    }
    assert forall|k: int| #![trigger rows0[k]] l <= k < rows0.len() implies exists|i: int|
        #![trigger after[i]]
        0 <= i < after.len() && after[i] == rows0[k] by {
        if k == l {
            assert(after[p] == rows0[k]);
        } else {
            let i = choose|i: int| #![trigger before[i]] 0 <= i < before.len() && before[i] == rows0[k];
            if i < p {
                assert(after[i] == rows0[k]);
            } else {
                assert(after[i + 1] == rows0[k]);
            }
        }
    }
}

/// Class `n` exists in either snapshot and changed between them.
pub open spec fn changed_class(
    base: Seq<(Seq<char>, Map<u64, u64>)>,
    current: Seq<(Seq<char>, Map<u64, u64>)>,
    n: Seq<char>,
) -> bool {
    &&& (class_index(current, n) is Some || class_index(base, n) is Some)
    &&& class_changed(class_map(current, n), class_map(base, n))
}

/// The per-class diff between two snapshots' aggregates: one row for each
/// class of either snapshot that gained or lost nodes, largest size growth
/// first and, among equal growth, by class name.
pub fn diff_snapshots(base: &ClassAggregates, current: &ClassAggregates) -> (r: Vec<
    HeapSnapshotClassDiff,
>)
    requires
        base.wf(),
        current.wf(),
        totals_fit(base@),
        totals_fit(current@),
    ensures
        forall|i: int| 0 <= i < r@.len() ==> #[trigger] diff_row_ok(r@[i], base@, current@),
        rows_sorted(r@),
        forall|n: Seq<char>|
            changed_class(base@, current@, n) ==> exists|i: int|
                0 <= i < r@.len() && #[trigger] r@[i].class_name@ == n,
{
    let empty = ClassAggregate::new();
    proof {
        assert(empty@.dom() =~= Set::<u64>::empty());
    }
    let mut rows: Vec<HeapSnapshotClassDiff> = Vec::new();
    let mut i: usize = 0;
    while i < current.len()
        invariant
            base.wf(),
            current.wf(),
            totals_fit(base@),
            totals_fit(current@),
            empty.wf(),
            empty@ == Map::<u64, u64>::empty(),
            empty@.dom() == Set::<u64>::empty(),
            0 <= i <= current@.len(),
            forall|k: int| 0 <= k < rows@.len() ==> #[trigger] diff_row_ok(rows@[k], base@, current@),
            row_names_distinct(rows@),
            forall|k: int|
                0 <= k < rows@.len() ==> (class_index(current@, #[trigger] rows@[k].class_name@) matches Some(
                    m,
                ) && m < i),
            forall|m: int|
                0 <= m < i && changed_class(base@, current@, #[trigger] current@[m].0) ==> exists|k: int|
                    0 <= k < rows@.len() && #[trigger] rows@[k].class_name@ == current@[m].0,
        decreases current@.len() - i,
    {
        let name = current.name(i);
        let cname = chars_of(name.as_str());
        let c = current.class(i);
        proof {
            lemma_distinct_index(current@, current@[i as int].0, i as int);
            assert(current@[i as int].1.dom().len() <= i64::MAX);
        }
        let row = match base.find(cname.as_slice()) {
            Some(j) => {
                proof {
                    lemma_class_index_some(base@, name@);
                    assert(base@[j as int].1.dom().len() <= i64::MAX);
                }
                make_row(name, c, base.class(j))
            },
            None => make_row(name, c, &empty),
        };
        let ghost before = rows@;
        match row {
            Some(rw) => {
                rows.push(rw);
                proof {
                    assert forall|k: int, l: int|
                        0 <= k < l < rows@.len() implies #[trigger] rows@[k].class_name@
                        != #[trigger] rows@[l].class_name@ by {
                        if l == before.len() {
                            assert(rows@[k] == before[k]);
                        } else {
                            assert(rows@[k] == before[k]);
                            assert(rows@[l] == before[l]);
                        }
                    }
                    assert(rows@[before.len() as int].class_name@ == current@[i as int].0);
                }
            },
            None => {},
        }
        proof {
            assert forall|m: int|
                0 <= m < i + 1 && changed_class(base@, current@, #[trigger] current@[m].0) implies exists|k: int|
                0 <= k < rows@.len() && #[trigger] rows@[k].class_name@ == current@[m].0 by {
                if m < i {
                    let k = choose|k: int|
                        0 <= k < before.len() && #[trigger] before[k].class_name@ == current@[m].0;
                    assert(rows@[k] == before[k]);
                } else {
                    assert(rows@[before.len() as int].class_name@ == current@[m].0);
                }
            }
        }
        i = i + 1;
    }
    let mut j: usize = 0;
    while j < base.len()
        invariant
            base.wf(),
            current.wf(),
            totals_fit(base@),
            totals_fit(current@),
            empty.wf(),
            empty@ == Map::<u64, u64>::empty(),
            empty@.dom() == Set::<u64>::empty(),
            0 <= j <= base@.len(),
            forall|k: int| 0 <= k < rows@.len() ==> #[trigger] diff_row_ok(rows@[k], base@, current@),
            row_names_distinct(rows@),
            forall|k: int|
                0 <= k < rows@.len() ==> (class_index(current@, #[trigger] rows@[k].class_name@) is Some
                    || (class_index(base@, rows@[k].class_name@) matches Some(m) && m < j)),
            forall|m: int|
                0 <= m < current@.len() && changed_class(base@, current@, #[trigger] current@[m].0) ==> exists|
                    k: int,
                | 0 <= k < rows@.len() && #[trigger] rows@[k].class_name@ == current@[m].0,
            forall|m: int|
                0 <= m < j && changed_class(base@, current@, #[trigger] base@[m].0) ==> exists|k: int|
                    0 <= k < rows@.len() && #[trigger] rows@[k].class_name@ == base@[m].0,
        decreases base@.len() - j,
    {
        let name = base.name(j);
        let bname = chars_of(name.as_str());
        let b = base.class(j);
        proof {
            lemma_distinct_index(base@, base@[j as int].0, j as int);
            assert(base@[j as int].1.dom().len() <= i64::MAX);
        }
        let ghost before = rows@;
        match current.find(bname.as_slice()) {
            Some(ci) => {
                proof {
                    lemma_class_index_some(current@, name@);
                    let k = choose|k: int|
                        0 <= k < before.len() && #[trigger] before[k].class_name@ == current@[ci as int].0;
                }
            },
            None => {
                let row = make_row(name, &empty, b);
                match row {
                    Some(rw) => {
                        rows.push(rw);
                        proof {
                            assert forall|k: int, l: int|
                                0 <= k < l < rows@.len() implies #[trigger] rows@[k].class_name@
                                != #[trigger] rows@[l].class_name@ by {
                                if l == before.len() {
                                    assert(rows@[k] == before[k]);
                                } else {
                                    assert(rows@[k] == before[k]);
                                    assert(rows@[l] == before[l]);
                                }
                            }
                            assert(rows@[before.len() as int].class_name@ == base@[j as int].0);
                        }
                    },
                    None => {},
                }
            },
        }
        proof {
            assert forall|m: int|
                0 <= m < current@.len() && changed_class(base@, current@, #[trigger] current@[m].0) implies exists|
                k: int,
            | 0 <= k < rows@.len() && #[trigger] rows@[k].class_name@ == current@[m].0 by {
                let k = choose|k: int|
                    0 <= k < before.len() && #[trigger] before[k].class_name@ == current@[m].0;
                assert(rows@[k] == before[k]);
            }
            assert forall|m: int|
                0 <= m < j + 1 && changed_class(base@, current@, #[trigger] base@[m].0) implies exists|k: int|
                0 <= k < rows@.len() && #[trigger] rows@[k].class_name@ == base@[m].0 by {
                if m < j {
                    let k = choose|k: int|
                        0 <= k < before.len() && #[trigger] before[k].class_name@ == base@[m].0;
                    assert(rows@[k] == before[k]);
                } else if rows@.len() > before.len() {
                    assert(rows@[before.len() as int].class_name@ == base@[m].0);
                } else {
                    lemma_class_index_some(current@, base@[m].0);
                    let ci = class_index(current@, base@[m].0).unwrap();
                    let k = choose|k: int|
                        0 <= k < before.len() && #[trigger] before[k].class_name@ == current@[ci].0;
                    assert(rows@[k] == before[k]);
                }
            }
        }
        j = j + 1;
    }
    proof {
        assert forall|n: Seq<char>| changed_class(base@, current@, n) implies exists|k: int|
            0 <= k < rows@.len() && #[trigger] rows@[k].class_name@ == n by {
            lemma_class_index_some(current@, n);
            lemma_class_index_some(base@, n);
            match class_index(current@, n) {
                Some(m) => {
                    assert(changed_class(base@, current@, current@[m].0));
                },
                None => {
                    let m = class_index(base@, n).unwrap();
                    assert(changed_class(base@, current@, base@[m].0));
                },
            }
        }
    }
    let ghost unsorted = rows@;
    let out = sort_rows(rows);
    proof {
        reveal(holds_rows_from);
        assert forall|i: int| 0 <= i < out@.len() implies #[trigger] diff_row_ok(out@[i], base@, current@) by {
            let k = choose|k: int| #![trigger unsorted[k]] 0 <= k < unsorted.len() && out@[i] == unsorted[k];
        }
        assert forall|n: Seq<char>| changed_class(base@, current@, n) implies exists|i: int|
            0 <= i < out@.len() && #[trigger] out@[i].class_name@ == n by {
            let k = choose|k: int| 0 <= k < unsorted.len() && #[trigger] unsorted[k].class_name@ == n;
            let i = choose|i: int| #![trigger out@[i]] 0 <= i < out@.len() && out@[i] == unsorted[k];
        }
    }
    out
}

// ---------------------------------------------------------------------
// Per-node detail of one class
// ---------------------------------------------------------------------

/// `s` lists, by increasing id, each node of `cm` that `bm` lacks, with its
/// self size, once.
pub open spec fn node_list_ok(s: Seq<(u64, u64)>, cm: Map<u64, u64>, bm: Map<u64, u64>) -> bool {
    &&& forall|i: int, j: int| 0 <= i < j < s.len() ==> (#[trigger] s[i]).0 < (#[trigger] s[j]).0
    &&& forall|i: int|
        0 <= i < s.len() ==> cm.contains_key((#[trigger] s[i]).0) && !bm.contains_key(s[i].0)
            && s[i].1 == cm[s[i].0]
    &&& forall|id: u64|
        #[trigger] added_set(cm, bm).contains(id) ==> exists|i: int| 0 <= i < s.len() && s[i].0 == id
}

/// The sum of the sizes in a node list.
pub open spec fn pairs_total(s: Seq<(u64, u64)>) -> int
    decreases s.len(),
{
    if s.len() == 0 {
        0
    } else {
        pairs_total(s.drop_last()) + s.last().1
    }
}

/// The map of an optional class, empty when absent.
pub open spec fn opt_map(a: Option<&ClassAggregate>) -> Map<u64, u64> {
    match a {
        Some(c) => c@,
        None => Map::empty(),
    }
}

/// Inserts `(id, size)` into a list sorted by id that lacks `id`.
fn insert_by_id(out: &mut Vec<(u64, u64)>, id: u64, size: u64) -> (p: usize)
    requires
        forall|i: int, j: int| 0 <= i < j < old(out)@.len() ==> (#[trigger] old(out)@[i]).0 < (#[trigger] old(out)@[j]).0,
        forall|i: int| 0 <= i < old(out)@.len() ==> (#[trigger] old(out)@[i]).0 != id,
    ensures
        p <= old(out)@.len(),
        final(out)@ == old(out)@.insert(p as int, (id, size)),
        forall|i: int, j: int| 0 <= i < j < final(out)@.len() ==> (#[trigger] final(out)@[i]).0 < (#[trigger] final(out)@[j]).0,
{
    let ghost before = out@;
    let mut lo: usize = 0;
    let mut hi: usize = out.len();
    while lo < hi
        invariant
            0 <= lo <= hi <= before.len(),
            out@ == before,
            forall|i: int, j: int| 0 <= i < j < before.len() ==> (#[trigger] before[i]).0 < (#[trigger] before[j]).0,
            forall|i: int| 0 <= i < before.len() ==> (#[trigger] before[i]).0 != id,
            forall|i: int| 0 <= i < lo ==> (#[trigger] before[i]).0 < id,
            forall|i: int| hi <= i < before.len() ==> (#[trigger] before[i]).0 > id,
        decreases hi - lo,
    {
        let mid = lo + (hi - lo) / 2;
        if out[mid].0 < id {
            proof {
                assert forall|i: int| 0 <= i < mid + 1 implies (#[trigger] before[i]).0 < id by {
                    if i < mid {
                        assert(before[i].0 < before[mid as int].0);
                    }
                }
            }
            lo = mid + 1;
        } else {
            proof {
                assert forall|i: int| mid <= i < before.len() implies (#[trigger] before[i]).0 > id by {
                    if i > mid {
                        assert(before[mid as int].0 < before[i].0);
                    }
                }
            }
            hi = mid;
        }
    }
    out.insert(lo, (id, size));
    proof {
        let p = lo as int;
        let after = out@;
        assert forall|i: int, j: int| 0 <= i < j < after.len() implies (#[trigger] after[i]).0 < (#[trigger] after[j]).0 by {
            if j < p {
                assert(after[i] == before[i]);
                assert(after[j] == before[j]);
            } else if j == p {
                assert(after[i] == before[i]);
            } else if i < p {
                assert(after[i] == before[i]);
                assert(after[j] == before[j - 1]);
            } else if i == p {
                assert(after[j] == before[j - 1]);
            } else {
                assert(after[i] == before[i - 1]);
                assert(after[j] == before[j - 1]);
            }
        }
    }
    lo
}

/// The nodes of `c` that `b` lacks, by increasing id.
fn fresh_nodes(c: &ClassAggregate, b: &ClassAggregate) -> (r: Vec<(u64, u64)>)
    requires
        c.wf(),
        b.wf(),
    ensures
        node_list_ok(r@, c@, b@),
{
    proof {
        c.lemma_entries();
    }
    let n = c.entry_count();
    let ghost e = c.entry_seq();
    let mut out: Vec<(u64, u64)> = Vec::new();
    let mut i: usize = 0;
    while i < n
        invariant
            c.wf(),
            b.wf(),
            e == c.entry_seq(),
            n == e.len(),
            0 <= i <= n,
            forall|x: int, y: int| 0 <= x < y < out@.len() ==> (#[trigger] out@[x]).0 < (#[trigger] out@[y]).0,
            forall|x: int|
                0 <= x < out@.len() ==> c@.contains_key((#[trigger] out@[x]).0) && !b@.contains_key(out@[x].0)
                    && out@[x].1 == c@[out@[x].0] && exists|k: int| 0 <= k < i && e[k].0 == out@[x].0,
            forall|k: int|
                0 <= k < i && !b@.contains_key(#[trigger] e[k].0) ==> exists|x: int|
                    0 <= x < out@.len() && out@[x].0 == e[k].0,
        decreases n - i,
    {
        let (id, size) = c.entry(i);
        proof {
            c.lemma_entries();
        }
        let ghost before = out@;
        assert(e[i as int] == (id, size));
        if !b.contains(id) {
            proof {
                assert(c@.contains_key(e[i as int].0));
                assert forall|x: int| 0 <= x < out@.len() implies (#[trigger] out@[x]).0 != id by {
                    let k = choose|k: int| 0 <= k < i && e[k].0 == out@[x].0;
                    assert(e[k].0 != e[i as int].0);
                }
            }
            let p = insert_by_id(&mut out, id, size);
            proof {
                lemma_fresh_nodes_step(c@, b@, e, before, out@, i as int, p as int);
            }
        }
        i = i + 1;
    }
    proof {
        assert forall|id: u64| #[trigger] added_set(c@, b@).contains(id) implies exists|x: int|
            0 <= x < out@.len() && out@[x].0 == id by {
            let k = choose|k: int| 0 <= k < e.len() && e[k].0 == id;
            assert(!b@.contains_key(e[k].0));
        }
    }
    out
}

proof fn lemma_fresh_nodes_step(
    cm: Map<u64, u64>,
    bm: Map<u64, u64>,
    e: Seq<(u64, u64)>,
    before: Seq<(u64, u64)>,
    after: Seq<(u64, u64)>,
    i: int,
    p: int,
)
    requires
        0 <= i < e.len(),
        0 <= p <= before.len(),
        after == before.insert(p, e[i]),
        cm.contains_key(e[i].0),
        !bm.contains_key(e[i].0),
        cm[e[i].0] == e[i].1,
        forall|x: int|
            0 <= x < before.len() ==> cm.contains_key((#[trigger] before[x]).0) && !bm.contains_key(before[x].0)
                && before[x].1 == cm[before[x].0] && exists|k: int| 0 <= k < i && e[k].0 == before[x].0,
        forall|k: int|
            0 <= k < i && !bm.contains_key(#[trigger] e[k].0) ==> exists|x: int|
                0 <= x < before.len() && before[x].0 == e[k].0,
    ensures
        forall|x: int|
            0 <= x < after.len() ==> cm.contains_key((#[trigger] after[x]).0) && !bm.contains_key(after[x].0)
                && after[x].1 == cm[after[x].0] && exists|k: int| 0 <= k < i + 1 && e[k].0 == after[x].0,
        forall|k: int|
            0 <= k < i + 1 && !bm.contains_key(#[trigger] e[k].0) ==> exists|x: int|
                0 <= x < after.len() && after[x].0 == e[k].0,
{
    assert forall|x: int|
        0 <= x < after.len() implies cm.contains_key((#[trigger] after[x]).0) && !bm.contains_key(after[x].0)
            && after[x].1 == cm[after[x].0] && exists|k: int| 0 <= k < i + 1 && e[k].0 == after[x].0 by {
        if x < p {
            assert(after[x] == before[x]);
            let k = choose|k: int| 0 <= k < i && e[k].0 == before[x].0;
            assert(0 <= k < i + 1 && e[k].0 == after[x].0);
        } else if x == p {
            assert(0 <= i < i + 1 && e[i].0 == after[x].0);
        } else {
            assert(after[x] == before[x - 1]);
            let k = choose|k: int| 0 <= k < i && e[k].0 == before[x - 1].0;
            assert(0 <= k < i + 1 && e[k].0 == after[x].0);
        }
    }
    assert forall|k: int|
        0 <= k < i + 1 && !bm.contains_key(#[trigger] e[k].0) implies exists|x: int|
            0 <= x < after.len() && after[x].0 == e[k].0 by {
        if k == i {
            assert(after[p].0 == e[k].0);
        } else {
            let x = choose|x: int| 0 <= x < before.len() && before[x].0 == e[k].0;
            if x < p {
                assert(after[x] == before[x]);
            } else {
                assert(after[x + 1] == before[x]);
            }
        }
    }
}

/// The per-node detail of one class: the nodes added to it and the nodes
/// removed from it, each list by increasing node id. An absent class counts
/// as empty, so a class new in `cur_agg` lists every node as added and a
/// class gone from it lists every node as removed.
pub fn compute_class_node_detail(
    base_agg: Option<&ClassAggregate>,
    cur_agg: Option<&ClassAggregate>,
) -> (r: (Vec<(u64, u64)>, Vec<(u64, u64)>))
    requires
        base_agg matches Some(b) ==> b.wf(),
        cur_agg matches Some(c) ==> c.wf(),
    ensures
        node_list_ok(r.0@, opt_map(cur_agg), opt_map(base_agg)),
        node_list_ok(r.1@, opt_map(base_agg), opt_map(cur_agg)),
{
    let empty = ClassAggregate::new();
    let c = match cur_agg {
        Some(c) => c,
        None => &empty,
    };
    let b = match base_agg {
        Some(b) => b,
        None => &empty,
    };
    (fresh_nodes(c, b), fresh_nodes(b, c))
}

proof fn lemma_pairs_total_set(s: Seq<(u64, u64)>, m: Map<u64, u64>)
    requires
        forall|i: int, j: int| 0 <= i < j < s.len() ==> (#[trigger] s[i]).0 < (#[trigger] s[j]).0,
        forall|i: int| 0 <= i < s.len() ==> (#[trigger] s[i]).1 == m[s[i].0],
    ensures
        Set::new(|id: u64| exists|i: int| 0 <= i < s.len() && s[i].0 == id).finite(),
        Set::new(|id: u64| exists|i: int| 0 <= i < s.len() && s[i].0 == id).len() == s.len(),
        pairs_total(s) == set_sum(Set::new(|id: u64| exists|i: int| 0 <= i < s.len() && s[i].0 == id), m),
    decreases s.len(),
{
    broadcast use vstd::set::group_set_axioms;

    let ids = Set::new(|id: u64| exists|i: int| 0 <= i < s.len() && s[i].0 == id);
    if s.len() == 0 {
        assert(ids =~= Set::<u64>::empty());
    } else {
        let t = s.drop_last();
        let tids = Set::new(|id: u64| exists|i: int| 0 <= i < t.len() && t[i].0 == id);
        assert forall|i: int, j: int| 0 <= i < j < t.len() implies (#[trigger] t[i]).0 < (#[trigger] t[j]).0 by {
            assert(t[i] == s[i]);
            assert(t[j] == s[j]);
        }
        assert forall|i: int| 0 <= i < t.len() implies (#[trigger] t[i]).1 == m[t[i].0] by {
            assert(t[i] == s[i]);
        }
        lemma_pairs_total_set(t, m);
        let x = s.last().0;
        assert(!tids.contains(x)) by {
            if tids.contains(x) {
                let i = choose|i: int| 0 <= i < t.len() && t[i].0 == x;
                assert(s[i].0 < s[s.len() - 1].0);
            }
        }
        assert(ids =~= tids.insert(x)) by {
            assert forall|id: u64| ids.contains(id) implies tids.insert(x).contains(id) by {
                let i = choose|i: int| 0 <= i < s.len() && s[i].0 == id;
                if i < s.len() - 1 {
                    assert(t[i].0 == id);
                }
            }
            assert forall|id: u64| tids.insert(x).contains(id) implies ids.contains(id) by {
                if id != x {
                    let i = choose|i: int| 0 <= i < t.len() && t[i].0 == id;
                    assert(s[i].0 == id);
                } else {
                    assert(s[s.len() - 1].0 == id);
                }
            }
        }
        lemma_set_sum_insert(tids, m, x);
        assert(s.last().1 == m[x]);
    }
}

/// The per-node detail of a class agrees with its summary row: it lists
/// exactly as many nodes as the row counts, and their sizes add up to the
/// row's total.
pub proof fn lemma_detail_agrees_with_summary(
    s: Seq<(u64, u64)>,
    cm: Map<u64, u64>,
    bm: Map<u64, u64>,
    row: HeapSnapshotClassDiff,
)
    requires
        cm.dom().finite(),
        node_list_ok(s, cm, bm),
        row_matches(row, cm, bm),
    ensures
        s.len() == row.added_count,
        pairs_total(s) == row.added_size,
{
    broadcast use vstd::set::group_set_axioms;

    lemma_pairs_total_set(s, cm);
    let ids = Set::new(|id: u64| exists|i: int| 0 <= i < s.len() && s[i].0 == id);
    assert(ids =~= added_set(cm, bm)) by {
        assert forall|id: u64| ids.contains(id) implies added_set(cm, bm).contains(id) by {
            let i = choose|i: int| 0 <= i < s.len() && s[i].0 == id;
            assert(cm.contains_key(s[i].0));
        }
    }
}

/// A class has a diff row exactly when its node detail lists a node. Given
/// rows as `diff_snapshots` returns them (each the row of a changed class,
/// and a row for every changed class) and the added and removed lists that
/// `compute_class_node_detail` returns for class `n` (a missing class
/// counting as empty), some row is `n`'s exactly when one of the lists is
/// non-empty.
pub proof fn lemma_row_exists_iff_nodes_listed(
    base: Seq<(Seq<char>, Map<u64, u64>)>,
    current: Seq<(Seq<char>, Map<u64, u64>)>,
    rows: Seq<HeapSnapshotClassDiff>,
    n: Seq<char>,
    added: Seq<(u64, u64)>,
    removed: Seq<(u64, u64)>,
)
    requires
        forall|i: int| 0 <= i < base.len() ==> (#[trigger] base[i]).1.dom().finite(),
        forall|i: int| 0 <= i < current.len() ==> (#[trigger] current[i]).1.dom().finite(),
        forall|i: int| 0 <= i < rows.len() ==> #[trigger] diff_row_ok(rows[i], base, current),
        forall|m: Seq<char>|
            changed_class(base, current, m) ==> exists|i: int|
                0 <= i < rows.len() && #[trigger] rows[i].class_name@ == m,
        node_list_ok(added, class_map(current, n), class_map(base, n)),
        node_list_ok(removed, class_map(base, n), class_map(current, n)),
    ensures
        (exists|i: int| 0 <= i < rows.len() && rows[i].class_name@ == n) <==> (added.len() > 0
            || removed.len() > 0),
{
    broadcast use vstd::set::group_set_axioms;

    let cm = class_map(current, n);
    let bm = class_map(base, n);
    lemma_class_index_some(current, n);
    lemma_class_index_some(base, n);
    assert(cm.dom().finite()) by {
        if class_index(current, n) is None {
            assert(cm.dom() =~= Set::<u64>::empty());
        }
    }
    assert(bm.dom().finite()) by {
        if class_index(base, n) is None {
            assert(bm.dom() =~= Set::<u64>::empty());
        }
    }
    if exists|i: int| 0 <= i < rows.len() && rows[i].class_name@ == n {
        let i = choose|i: int| 0 <= i < rows.len() && rows[i].class_name@ == n;
        assert(diff_row_ok(rows[i], base, current));
        assert(class_changed(cm, bm));
        if added_set(cm, bm).len() > 0 {
            let id = added_set(cm, bm).choose();
            assert(added_set(cm, bm).contains(id));
        } else {
            let id = added_set(bm, cm).choose();
            assert(added_set(bm, cm).contains(id));
        }
    }
    if added.len() > 0 || removed.len() > 0 {
        if added.len() > 0 {
            let id = added[0].0;
            assert(added_set(cm, bm).contains(id));
            assert(cm.contains_key(id));
            assert(class_index(current, n) is Some);
        } else {
            let id = removed[0].0;
            assert(added_set(bm, cm).contains(id));
            assert(bm.contains_key(id));
            assert(class_index(base, n) is Some);
        }
        assert(class_changed(cm, bm));
        assert(changed_class(base, current, n));
    }
}

// ---------------------------------------------------------------------
// Cross-session check and size limits
// ---------------------------------------------------------------------

/// Node `id` belongs to some class.
pub open spec fn in_some_class(s: Seq<(Seq<char>, Map<u64, u64>)>, id: u64) -> bool {
    exists|i: int| 0 <= i < s.len() && #[trigger] s[i].1.contains_key(id)
}

/// Some class has a node.
pub open spec fn has_nodes(s: Seq<(Seq<char>, Map<u64, u64>)>) -> bool {
    exists|id: u64| #[trigger] in_some_class(s, id)
}

impl ClassAggregates {
    /// Whether some class has a node.
    pub fn any_nodes(&self) -> (r: bool)
        requires
            self.wf(),
        ensures
            r == has_nodes(self@),
    {
        let mut i: usize = 0;
        while i < self.classes.len()
            invariant
                self.wf(),
                0 <= i <= self@.len(),
                forall|j: int| 0 <= j < i ==> #[trigger] self@[j].1.dom().len() == 0,
            decreases self@.len() - i,
        {
            proof {
                self.classes@[i as int].lemma_entries();
            }
            if self.classes[i].len() > 0 {
                proof {
                    let c = self.classes@[i as int];
                    c.lemma_entries();
                    let id = c.entry_seq()[0].0;
                    assert(self@[i as int].1.contains_key(id));
                    assert(in_some_class(self@, id));
                }
                return true;
            }
            i = i + 1;
        }
        proof {
            assert forall|id: u64| !in_some_class(self@, id) by {
                assert forall|j: int| 0 <= j < self@.len() implies !(#[trigger] self@[j].1.contains_key(id)) by {
                    self.classes@[j].lemma_entries();
                    if self@[j].1.contains_key(id) {
                        assert(self@[j].1.dom().contains(id));
                    }
                }
            }
        }
        false
    }

    /// The ids of all nodes of all classes.
    pub fn all_ids(&self) -> (r: HashSet<u64>)
        requires
            self.wf(),
        ensures
            forall|id: u64| #[trigger] r@.contains(id) <==> in_some_class(self@, id),
    {
        broadcast use vstd::std_specs::hash::group_hash_axioms;

        let mut set: HashSet<u64> = HashSet::new();
        let mut j: usize = 0;
        while j < self.classes.len()
            invariant
                self.wf(),
                0 <= j <= self@.len(),
                forall|id: u64| #[trigger]
                    set@.contains(id) <==> exists|i: int| 0 <= i < j && self@[i].1.contains_key(id),
            decreases self@.len() - j,
        {
            let c = &self.classes[j];
            proof {
                c.lemma_entries();
            }
            let n = c.entry_count();
            let mut k: usize = 0;
            while k < n
                invariant
                    self.wf(),
                    0 <= j < self@.len(),
                    c == self.classes@[j as int],
                    c.wf(),
                    n == c.entry_seq().len(),
                    0 <= k <= n,
                    forall|id: u64| #[trigger]
                        set@.contains(id) <==> (exists|i: int| 0 <= i < j && self@[i].1.contains_key(id))
                            || exists|t: int| 0 <= t < k && c.entry_seq()[t].0 == id,
                decreases n - k,
            {
                let (id, _) = c.entry(k);
                set.insert(id);
                proof {
                    assert forall|x: u64| #[trigger]
                        set@.contains(x) <==> (exists|i: int| 0 <= i < j && self@[i].1.contains_key(x))
                            || exists|t: int| 0 <= t < k + 1 && c.entry_seq()[t].0 == x by {
                        if x == id {
                            assert(0 <= k < k + 1 && c.entry_seq()[k as int].0 == x);
                        }
                        if exists|t: int| 0 <= t < k + 1 && c.entry_seq()[t].0 == x {
                            let t = choose|t: int| 0 <= t < k + 1 && c.entry_seq()[t].0 == x;
                            if t < k {
                                assert(0 <= t < k && c.entry_seq()[t].0 == x);
                            }
                        }
                    }
                }
                k = k + 1;
            }
            proof {
                c.lemma_entries();
                assert(self@[j as int].1 == c@);
                assert forall|x: u64| #[trigger]
                    set@.contains(x) <==> exists|i: int| 0 <= i < j + 1 && self@[i].1.contains_key(x) by {
                    if exists|t: int| 0 <= t < n && c.entry_seq()[t].0 == x {
                        let t = choose|t: int| 0 <= t < n && c.entry_seq()[t].0 == x;
                        assert(self@[j as int].1.contains_key(x));
                    }
                    if exists|i: int| 0 <= i < j + 1 && self@[i].1.contains_key(x) {
                        let i = choose|i: int| 0 <= i < j + 1 && self@[i].1.contains_key(x);
                        if i == j {
                            assert(c@.contains_key(x));
                        } else {
                            assert(0 <= i < j && self@[i].1.contains_key(x));
                        }
                    }
                }
            }
            j = j + 1;
        }
        set
    }

    /// Whether every class's node count and total self size fit in an `i64`.
    pub fn totals_fit_check(&self) -> (r: bool)
        requires
            self.wf(),
        ensures
            r == totals_fit(self@),
    {
        let empty = ClassAggregate::new();
        proof {
            assert(empty@.dom() =~= Set::<u64>::empty());
        }
        let mut i: usize = 0;
        while i < self.classes.len()
            invariant
                self.wf(),
                empty.wf(),
                empty@ == Map::<u64, u64>::empty(),
                0 <= i <= self@.len(),
                forall|j: int|
                    0 <= j < i ==> #[trigger] self@[j].1.dom().len() <= i64::MAX && set_sum(
                        self@[j].1.dom(),
                        self@[j].1,
                    ) <= i64::MAX,
            decreases self@.len() - i,
        {
            let c = &self.classes[i];
            proof {
                c.lemma_entries();
                assert(c@.dom().difference(empty@.dom()) =~= c@.dom());
            }
            let n = c.len();
            let ok = match c.fresh_totals(&empty) {
                Some((_, total)) => (n as u64) <= (i64::MAX as u64) && total <= (i64::MAX as u64),
                None => false,
            };
            if !ok {
                proof {
                    assert(self@[i as int].1 == c@);
                    assert(!(self@[i as int].1.dom().len() <= i64::MAX && set_sum(
                        self@[i as int].1.dom(),
                        self@[i as int].1,
                    ) <= i64::MAX));
                }
                return false;
            }
            i = i + 1;
        }
        true
    }
}

/// Whether two snapshots look like different browser sessions: both have
/// nodes and no node id occurs in both (ids are only stable within one
/// session, and a same-session pair always shares its root nodes).
pub fn snapshots_share_no_node_ids(base: &ClassAggregates, current: &ClassAggregates) -> (r: bool)
    requires
        base.wf(),
        current.wf(),
    ensures
        r == (has_nodes(base@) && has_nodes(current@) && forall|id: u64|
            #[trigger] in_some_class(current@, id) ==> !in_some_class(base@, id)),
{
    broadcast use vstd::std_specs::hash::group_hash_axioms;

    if !base.any_nodes() || !current.any_nodes() {
        return false;
    }
    let base_ids = base.all_ids();
    let mut j: usize = 0;
    while j < current.classes.len()
        invariant
            current.wf(),
            0 <= j <= current@.len(),
            forall|id: u64| #[trigger] base_ids@.contains(id) <==> in_some_class(base@, id),
            forall|i: int, id: u64|
                0 <= i < j && #[trigger] current@[i].1.contains_key(id) ==> !in_some_class(base@, id),
        decreases current@.len() - j,
    {
        let c = &current.classes[j];
        proof {
            c.lemma_entries();
        }
        let n = c.entry_count();
        let mut k: usize = 0;
        while k < n
            invariant
                current.wf(),
                0 <= j < current@.len(),
                c == current.classes@[j as int],
                c.wf(),
                n == c.entry_seq().len(),
                0 <= k <= n,
                forall|id: u64| #[trigger] base_ids@.contains(id) <==> in_some_class(base@, id),
                forall|t: int| 0 <= t < k ==> !in_some_class(base@, #[trigger] c.entry_seq()[t].0),
            decreases n - k,
        {
            let (id, _) = c.entry(k);
            if base_ids.contains(&id) {
                proof {
                    c.lemma_entries();
                    assert(current@[j as int].1.contains_key(id));
                    assert(in_some_class(current@, id));
                }
                return false;
            }
            k = k + 1;
        }
        proof {
            c.lemma_entries();
            assert forall|i: int, id: u64|
                0 <= i < j + 1 && #[trigger] current@[i].1.contains_key(id) implies !in_some_class(base@, id) by {
                if i == j {
                    assert(c@.contains_key(id));
                    let t = choose|t: int| 0 <= t < c.entry_seq().len() && c.entry_seq()[t].0 == id;
                    assert(!in_some_class(base@, c.entry_seq()[t].0));
                }
            }
        }
        j = j + 1;
    }
    true
}

// ---------------------------------------------------------------------
// Text renderings
// ---------------------------------------------------------------------

/// `s` with every double quote doubled.
pub open spec fn double_quotes(s: Seq<char>) -> Seq<char>
    decreases s.len(),
{
    if s.len() == 0 {
        Seq::empty()
    } else {
        double_quotes(s.drop_last()) + (if s.last() == '"' {
            seq!['"', '"']
        } else {
            seq![s.last()]
        })
    }
}

/// A field needs quoting when it holds a comma, a quote or a line break.
pub open spec fn csv_needs_quotes(s: Seq<char>) -> bool {
    s.contains(',') || s.contains('"') || s.contains('\n') || s.contains('\r')
}

/// A CSV field: quoted, with its quotes doubled, when it needs quoting.
pub open spec fn csv_field(s: Seq<char>) -> Seq<char> {
    if csv_needs_quotes(s) {
        seq!['"'] + double_quotes(s) + seq!['"']
    } else {
        s
    }
}

/// Escapes `s` as one CSV field.
pub fn csv_escape(s: &str) -> (r: Vec<char>)
    ensures
        r@ == csv_field(s@),
{
    let cs = chars_of(s);
    let mut needs = false;
    let mut i: usize = 0;
    while i < cs.len()
        invariant
            cs@ == s@,
            0 <= i <= cs@.len(),
            needs == exists|j: int|
                0 <= j < i && (cs@[j] == ',' || cs@[j] == '"' || cs@[j] == '\n' || cs@[j] == '\r'),
        decreases cs@.len() - i,
    {
        let c = cs[i];
        if c == ',' || c == '"' || c == '\n' || c == '\r' {
            needs = true;
        }
        i = i + 1;
    }
    proof {
        if needs {
            let j = choose|j: int|
                0 <= j < cs@.len() && (cs@[j] == ',' || cs@[j] == '"' || cs@[j] == '\n' || cs@[j] == '\r');
            assert(s@[j] == cs@[j]);
        } else {
            assert(!s@.contains(',') && !s@.contains('"') && !s@.contains('\n') && !s@.contains('\r')) by {
                if s@.contains(',') || s@.contains('"') || s@.contains('\n') || s@.contains('\r') {
                    let j = choose|j: int|
                        0 <= j < s@.len() && (s@[j] == ',' || s@[j] == '"' || s@[j] == '\n' || s@[j]
                            == '\r');
                }
            }
        }
    }
    if !needs {
        return cs;
    }
    let mut out: Vec<char> = Vec::new();
    out.push('"');
    let mut k: usize = 0;
    while k < cs.len()
        invariant
            cs@ == s@,
            0 <= k <= cs@.len(),
            out@ == seq!['"'] + double_quotes(cs@.take(k as int)),
        decreases cs@.len() - k,
    {
        let c = cs[k];
        proof {
            assert(cs@.take(k + 1).drop_last() =~= cs@.take(k as int));
        }
        if c == '"' {
            out.push('"');
            out.push('"');
        } else {
            out.push(c);
        }
        k = k + 1;
    }
    out.push('"');
    proof {
        assert(cs@.take(cs@.len() as int) =~= cs@);
    }
    out
}

/// Appends a character sequence.
fn append(v: &mut Vec<char>, b: &Vec<char>)
    ensures
        final(v)@ == old(v)@ + b@,
{
    crate::text::push_all(v, b.as_slice());
}

/// `nodeId,nodeName,selfSize` CSV for one node.
pub open spec fn node_details_text(node_id: u64, name: Seq<char>, self_size: u64) -> Seq<char> {
    "nodeId,nodeName,selfSize\n"@ + dec(node_id as nat) + seq![','] + csv_field(name) + seq![',']
        + dec(self_size as nat) + seq!['\n']
}

/// The text (CSV) rendering of one inspected node.
pub fn format_node_details(node_id: u64, name: &str, self_size: u64) -> (r: String)
    ensures
        r@ == node_details_text(node_id, name@, self_size),
{
    let mut v: Vec<char> = Vec::new();
    push_str(&mut v, "nodeId,nodeName,selfSize\n");
    append(&mut v, &u64_dec(node_id));
    v.push(',');
    append(&mut v, &csv_escape(name));
    v.push(',');
    append(&mut v, &u64_dec(self_size));
    v.push('\n');
    proof {
        assert(v@ =~= node_details_text(node_id, name@, self_size));
    }
    string_from_chars(v.as_slice())
}

/// The counters of a row, comma-separated, after its escaped class name.
pub open spec fn row_fields(r: HeapSnapshotClassDiff) -> Seq<char> {
    csv_field(r.class_name@) + seq![','] + dec(r.added_count as nat) + seq![','] + dec(
        r.removed_count as nat,
    ) + seq![','] + dec_signed(r.count_delta as int) + seq![','] + dec(r.added_size as nat)
        + seq![','] + dec(r.removed_size as nat) + seq![','] + dec_signed(r.size_delta as int)
}

/// The summary table's header line.
pub open spec fn summary_header() -> Seq<char> {
    "idx,className,addedCount,removedCount,countDelta,addedSize,removedSize,sizeDelta\n"@
}

/// The summary lines of the first `k` rows, each prefixed by its index.
pub open spec fn summary_lines(rows: Seq<HeapSnapshotClassDiff>, k: nat) -> Seq<char>
    decreases k,
{
    if k == 0 {
        Seq::empty()
    } else {
        summary_lines(rows, (k - 1) as nat) + dec((k - 1) as nat) + seq![','] + row_fields(
            rows[k - 1],
        ) + seq!['\n']
    }
}

/// Appends `row_fields(r)`.
fn push_row_fields(v: &mut Vec<char>, r: &HeapSnapshotClassDiff)
    ensures
        final(v)@ == old(v)@ + row_fields(*r),
{
    append(v, &csv_escape(r.class_name.as_str()));
    v.push(',');
    append(v, &u64_dec(r.added_count as u64));
    v.push(',');
    append(v, &u64_dec(r.removed_count as u64));
    v.push(',');
    append(v, &i64_dec(r.count_delta));
    v.push(',');
    append(v, &u64_dec(r.added_size));
    v.push(',');
    append(v, &u64_dec(r.removed_size));
    v.push(',');
    append(v, &i64_dec(r.size_delta));
    proof {
        assert(final(v)@ =~= old(v)@ + row_fields(*r));
    }
}

/// The text (CSV) rendering of the class diff: a header, then one line per
/// row with its index, which the detail view takes to select a class.
pub fn format_class_diff_summary(diffs: &[HeapSnapshotClassDiff]) -> (r: String)
    ensures
        r@ == summary_header() + summary_lines(diffs@, diffs@.len()),
{
    let mut v: Vec<char> = Vec::new();
    push_str(
        &mut v,
        "idx,className,addedCount,removedCount,countDelta,addedSize,removedSize,sizeDelta\n",
    );
    let mut i: usize = 0;
    while i < diffs.len()
        invariant
            0 <= i <= diffs@.len(),
            v@ == summary_header() + summary_lines(diffs@, i as nat),
        decreases diffs@.len() - i,
    {
        append(&mut v, &u64_dec(i as u64));
        v.push(',');
        push_row_fields(&mut v, &diffs[i]);
        v.push('\n');
        proof {
            assert(v@ =~= summary_header() + summary_lines(diffs@, (i + 1) as nat));
        }
        i = i + 1;
    }
    string_from_chars(v.as_slice())
}

/// The detail view's first line: the selected row, field by field.
pub open spec fn detail_header(idx: nat, r: HeapSnapshotClassDiff) -> Seq<char> {
    "idx:"@ + dec(idx) + ",className:"@ + csv_field(r.class_name@) + ",addedCount:"@ + dec(
        r.added_count as nat,
    ) + ",removedCount:"@ + dec(r.removed_count as nat) + ",countDelta:"@ + dec_signed(
        r.count_delta as int,
    ) + ",addedSize:"@ + dec(r.added_size as nat) + ",removedSize:"@ + dec(r.removed_size as nat)
        + ",sizeDelta:"@ + dec_signed(r.size_delta as int) + seq!['\n']
}

/// One `op,nodeId,selfSize` line per node of `s`.
pub open spec fn node_lines(op: char, s: Seq<(u64, u64)>) -> Seq<char>
    decreases s.len(),
{
    if s.len() == 0 {
        Seq::empty()
    } else {
        node_lines(op, s.drop_last()) + seq![op, ','] + dec(s.last().0 as nat) + seq![','] + dec(
            s.last().1 as nat,
        ) + seq!['\n']
    }
}

/// Appends `node_lines(op, s)`.
fn push_node_lines(v: &mut Vec<char>, op: char, s: &[(u64, u64)])
    ensures
        final(v)@ == old(v)@ + node_lines(op, s@),
{
    let mut i: usize = 0;
    while i < s.len()
        invariant
            0 <= i <= s@.len(),
            v@ == old(v)@ + node_lines(op, s@.take(i as int)),
        decreases s@.len() - i,
    {
        let (id, size) = s[i];
        v.push(op);
        v.push(',');
        append(v, &u64_dec(id));
        v.push(',');
        append(v, &u64_dec(size));
        v.push('\n');
        proof {
            assert(s@.take(i + 1).drop_last() =~= s@.take(i as int));
            assert(v@ =~= old(v)@ + node_lines(op, s@.take(i + 1)));
        }
        i = i + 1;
    }
    proof {
        assert(s@.take(s@.len() as int) =~= s@);
    }
}

/// The text rendering of one class's detail: its row, then each added
/// (`+`) and removed (`-`) node.
pub fn format_class_diff_detail(
    idx: usize,
    diff: &HeapSnapshotClassDiff,
    added_nodes: &[(u64, u64)],
    deleted_nodes: &[(u64, u64)],
) -> (r: String)
    ensures
        r@ == detail_header(idx as nat, *diff) + "\nop,nodeId,selfSize\n"@ + node_lines('+', added_nodes@)
            + node_lines('-', deleted_nodes@),
{
    let mut v: Vec<char> = Vec::new();
    push_str(&mut v, "idx:");
    append(&mut v, &u64_dec(idx as u64));
    push_str(&mut v, ",className:");
    append(&mut v, &csv_escape(diff.class_name.as_str()));
    push_str(&mut v, ",addedCount:");
    append(&mut v, &u64_dec(diff.added_count as u64));
    push_str(&mut v, ",removedCount:");
    append(&mut v, &u64_dec(diff.removed_count as u64));
    push_str(&mut v, ",countDelta:");
    append(&mut v, &i64_dec(diff.count_delta));
    push_str(&mut v, ",addedSize:");
    append(&mut v, &u64_dec(diff.added_size));
    push_str(&mut v, ",removedSize:");
    append(&mut v, &u64_dec(diff.removed_size));
    push_str(&mut v, ",sizeDelta:");
    append(&mut v, &i64_dec(diff.size_delta));
    v.push('\n');
    proof {
        assert(v@ =~= detail_header(idx as nat, *diff));
    }
    push_str(&mut v, "\nop,nodeId,selfSize\n");
    push_node_lines(&mut v, '+', added_nodes);
    push_node_lines(&mut v, '-', deleted_nodes);
    proof {
        assert(v@ =~= detail_header(idx as nat, *diff) + "\nop,nodeId,selfSize\n"@ + node_lines(
            '+',
            added_nodes@,
        ) + node_lines('-', deleted_nodes@));
    }
    string_from_chars(v.as_slice())
}


// ---------------------------------------------------------------------
// Errors and reports
// ---------------------------------------------------------------------

/// Telling sessions apart does not depend on which snapshot is the base:
/// two snapshots share no node id exactly when, both having nodes, no node
/// of either occurs in the other.
pub proof fn lemma_disjoint_sessions_symmetric(
    a: Seq<(Seq<char>, Map<u64, u64>)>,
    b: Seq<(Seq<char>, Map<u64, u64>)>,
)
    ensures
        (has_nodes(a) && has_nodes(b) && forall|id: u64| #[trigger] in_some_class(b, id) ==> !in_some_class(a, id))
            == (has_nodes(b) && has_nodes(a) && forall|id: u64|
            #[trigger] in_some_class(a, id) ==> !in_some_class(b, id)),
{
}

/// The name a schema field goes by in the snapshot file.
pub open spec fn field_name(f: SchemaField) -> Seq<char> {
    match f {
        SchemaField::Id => "id"@,
        SchemaField::Name => "name"@,
        SchemaField::SelfSize => "self_size"@,
    }
}

impl SnapshotError {
    /// The text of the error.
    pub open spec fn message_spec(self) -> Seq<char> {
        match self {
            SnapshotError::MissingField(f) => "Invalid snapshot schema: '"@ + field_name(f)
                + "' node field meta is missing"@,
            SnapshotError::EmptySchema => "Invalid snapshot: node_fields schema is empty"@,
            SnapshotError::Truncated { nodes_len, node_size } => "Corrupt snapshot: nodes array length ("@
                + dec(nodes_len as nat) + ") is not a multiple of node_size ("@ + dec(
                node_size as nat,
            ) + "); the file is truncated or malformed"@,
            SnapshotError::NodeNotFound(id) => "Node with ID "@ + dec(id as nat)
                + " not found in snapshot file"@,
            SnapshotError::StringIndexOverflow => "Corrupt snapshot: string index overflow on 32-bit architecture"@,
            SnapshotError::StringIndexOutOfBounds { index, len } => "Corrupt snapshot: string index "@
                + dec(index as nat) + " out of bounds (strings len "@ + dec(len as nat) + ")"@,
        }
    }

    /// The text of the error (see `message_spec`).
    pub fn message(&self) -> (r: String)
        ensures
            r@ == self.message_spec(),
    {
        let mut m: Vec<char> = Vec::new();
        match *self {
            SnapshotError::MissingField(f) => {
                push_str(&mut m, "Invalid snapshot schema: '");
                match f {
                    SchemaField::Id => push_str(&mut m, "id"),
                    SchemaField::Name => push_str(&mut m, "name"),
                    SchemaField::SelfSize => push_str(&mut m, "self_size"),
                }
                push_str(&mut m, "' node field meta is missing");
            },
            SnapshotError::EmptySchema => {
                push_str(&mut m, "Invalid snapshot: node_fields schema is empty");
            },
            SnapshotError::Truncated { nodes_len, node_size } => {
                push_str(&mut m, "Corrupt snapshot: nodes array length (");
                let a = u64_dec(nodes_len as u64);
                crate::text::push_all(&mut m, a.as_slice());
                push_str(&mut m, ") is not a multiple of node_size (");
                let b = u64_dec(node_size as u64);
                crate::text::push_all(&mut m, b.as_slice());
                push_str(&mut m, "); the file is truncated or malformed");
            },
            SnapshotError::NodeNotFound(id) => {
                push_str(&mut m, "Node with ID ");
                let a = u64_dec(id);
                crate::text::push_all(&mut m, a.as_slice());
                push_str(&mut m, " not found in snapshot file");
            },
            SnapshotError::StringIndexOverflow => {
                push_str(&mut m, "Corrupt snapshot: string index overflow on 32-bit architecture");
            },
            SnapshotError::StringIndexOutOfBounds { index, len } => {
                push_str(&mut m, "Corrupt snapshot: string index ");
                let a = u64_dec(index as u64);
                crate::text::push_all(&mut m, a.as_slice());
                push_str(&mut m, " out of bounds (strings len ");
                let b = u64_dec(len as u64);
                crate::text::push_all(&mut m, b.as_slice());
                push_str(&mut m, ")");
            },
        }
        string_from_chars(m.as_slice())
    }
}

/// Checks a requested class index against the number of changed classes;
/// out of range it is refused as invalid input.
pub fn check_class_index(index: usize, class_count: usize) -> (r: Result<(), CliError>)
    ensures
        index < class_count ==> r is Ok,
        index >= class_count ==> (r matches Err(e) && e.code_spec() == ErrorCode::InvalidInput
            && e.message_spec() == "Invalid classIndex: "@ + dec(index as nat)
            + ". Total classes with changes: "@ + dec(class_count as nat)),
{
    if index < class_count {
        Ok(())
    } else {
        let mut m = chars_of("Invalid classIndex: ");
        let a = u64_dec(index as u64);
        crate::text::push_all(&mut m, a.as_slice());
        push_str(&mut m, ". Total classes with changes: ");
        let b = u64_dec(class_count as u64);
        crate::text::push_all(&mut m, b.as_slice());
        let text = string_from_chars(m.as_slice());
        Err(CliError::new(ErrorCode::InvalidInput, text.as_str()))
    }
}

/// `Heap snapshot successfully saved to <path>`.
pub fn heap_snapshot_saved_message(output: &str) -> (r: String)
    ensures
        r@ == "Heap snapshot successfully saved to "@ + output@,
{
    let mut m = chars_of("Heap snapshot successfully saved to ");
    push_str(&mut m, output);
    string_from_chars(m.as_slice())
}

/// What to do with one message read while a heap snapshot streams in.
#[derive(Clone, Copy, Debug, PartialEq, Eq)]
pub enum StreamStep {
    /// The reply to the snapshot request: the snapshot is complete.
    Finished,
    /// The reply to the snapshot request reports an error.
    Failed,
    /// A chunk of the snapshot: append its text to the file.
    WriteChunk,
    /// Some other event: hand it to the event buffers.
    Route,
    /// Neither a reply to the request nor an event: drop it.
    Skip,
}

/// Classifies a message of the snapshot stream: the reply to request
/// `request_id` ends the stream (failed when it carries an error); a chunk
/// event with chunk text is written; other events are routed; the rest is
/// dropped. `method` is the message's method where it has a string one;
/// `has_method` whether it has a method field at all.
pub fn stream_step(
    message_id: Option<u64>,
    request_id: u64,
    has_error: bool,
    method: Option<&str>,
    has_method: bool,
    has_chunk: bool,
) -> (r: StreamStep)
    ensures
        message_id == Some(request_id) ==> r == (if has_error {
            StreamStep::Failed
        } else {
            StreamStep::Finished
        }),
        message_id != Some(request_id) ==> r == (if (method matches Some(m)
            && m@ == "HeapProfiler.addHeapSnapshotChunk"@) {
            if has_chunk {
                StreamStep::WriteChunk
            } else {
                StreamStep::Skip
            }
        } else if has_method {
            StreamStep::Route
        } else {
            StreamStep::Skip
        }),
{
    match message_id {
        Some(id) => {
            if id == request_id {
                return if has_error {
                    StreamStep::Failed
                } else {
                    StreamStep::Finished
                };
            }
        },
        None => {},
    }
    let is_chunk = match method {
        Some(m) => str_eq(m, "HeapProfiler.addHeapSnapshotChunk"),
        None => false,
    };
    if is_chunk {
        if has_chunk {
            StreamStep::WriteChunk
        } else {
            StreamStep::Skip
        }
    } else if has_method {
        StreamStep::Route
    } else {
        StreamStep::Skip
    }
}

} // verus!
