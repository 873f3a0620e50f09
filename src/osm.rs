//! The decoded OSM PBF records that element blocks are built from.
use vstd::prelude::*;

verus! {

/// Kind of element that a relation member refers to.
#[derive(Clone, Copy, Debug, PartialEq, Eq, Structural)]
pub enum MemberType {
    Node,
    Way,
    Relation,
}

/// The wire code of a member kind: 0 for a node, 1 for a way, 2 for a
/// relation.
pub open spec fn member_code(t: MemberType) -> u8 {
    match t {
        MemberType::Node => 0,
        MemberType::Way => 1,
        MemberType::Relation => 2,
    }
}

impl MemberType {
    /// The wire code of the kind.
    pub fn code(&self) -> (r: u8)
        ensures
            r == member_code(*self),
    {
        match self {
            MemberType::Node => 0,
            MemberType::Way => 1,
            MemberType::Relation => 2,
        }
    }
}

/// Dense nodes: parallel delta-encoded columns and one interleaved,
/// zero-terminated `(key, value)` run per node.
pub struct DenseNodes {
    pub id: Vec<i64>,
    pub lat: Vec<i64>,
    pub lon: Vec<i64>,
    pub keys_vals: Vec<i32>,
}

/// A node record; `lat` and `lon` are deltas from the previous node of its
/// group.
pub struct Node {
    pub id: i64,
    pub keys: Vec<u32>,
    pub vals: Vec<u32>,
    pub lat: i64,
    pub lon: i64,
}

/// A way record; `refs` are delta-encoded node ids.
pub struct Way {
    pub id: i64,
    pub keys: Vec<u32>,
    pub vals: Vec<u32>,
    pub refs: Vec<i64>,
}

/// A relation record; `memids` are delta-encoded member ids, and `roles_sid`
/// and `types` give each member's role (a string-table index) and kind.
pub struct Relation {
    pub id: i64,
    pub keys: Vec<u32>,
    pub vals: Vec<u32>,
    pub roles_sid: Vec<i32>,
    pub memids: Vec<i64>,
    pub types: Vec<MemberType>,
}

/// A primitive group: meant to carry one of dense nodes, nodes, ways or
/// relations.
pub struct PrimitiveGroup {
    pub nodes: Vec<Node>,
    pub dense: Option<DenseNodes>,
    pub ways: Vec<Way>,
    pub relations: Vec<Relation>,
}

/// A decompressed primitive block: string table, coordinate scaling and
/// groups.
pub struct PrimitiveBlock {
    pub stringtable: Vec<Vec<u8>>,
    pub primitivegroup: Vec<PrimitiveGroup>,
    pub granularity: i64,
    pub lat_offset: i64,
    pub lon_offset: i64,
}

} // verus!
