//! Columnar element blocks and the lazy, delta-decoding iterators over them.
use std::sync::Arc;
use vstd::prelude::*;
use vstd::slice::slice_subrange;

use crate::columns::{
    concat, dense_raw_tags, element_tags, push_dense_tags, firsts, lemma_concat_take, lemma_pairs_split, offsets_u32, push_all, push_codes,
    push_tags, seconds,
};
use crate::delta::{decode_deltas, prefix_sums, running_sum};
use crate::osm::{member_code, DenseNodes, MemberType, Node, Relation, Way};
use crate::filter::copy_bytes;
use crate::tags::{dense_run, list_run, table_view, DenseNodeTagIter, TagIter};

verus! {

/// Relies on `Arc::clone`: the new handle refers to the same value.
#[verifier::external_body]
pub(crate) fn share<T>(a: &Arc<T>) -> (r: Arc<T>)
    ensures
        r == *a,
{
    Arc::clone(a)
}

/// Which element kinds are decoded; a kind set to `false` yields no blocks.
#[derive(Clone, Copy, Debug, PartialEq, Eq, Structural)]
pub struct ElementFilter {
    /// Whether dense nodes and nodes are decoded.
    pub nodes: bool,
    /// Whether ways are decoded.
    pub ways: bool,
    /// Whether relations are decoded.
    pub relations: bool,
}

/// The string table of a primitive block, shared by every element block
/// derived from it, with the ids of its strings that are tag-filter keys and
/// the size of the registered tag filter.
pub struct BlockTable {
    table: Arc<Vec<Vec<u8>>>,
    cached_tag_ids: Arc<Vec<u32>>,
    filter_len: Option<usize>,
}

impl BlockTable {
    /// The strings, by index.
    pub closed spec fn strings(&self) -> Seq<Seq<u8>> {
        table_view(self.table@)
    }

    /// Indices of the strings that equal a key of the tag filter.
    pub closed spec fn ids(&self) -> Seq<u32> {
        self.cached_tag_ids@
    }

    /// Number of keys of the registered tag filter, if one is registered.
    pub closed spec fn filter_len(&self) -> Option<usize> {
        self.filter_len
    }

    pub(crate) fn new(table: Arc<Vec<Vec<u8>>>, cached_tag_ids: Arc<Vec<u32>>, filter_len: Option<usize>) -> (r: Self)
        ensures
            r.strings() == table_view(table@),
            r.ids() == cached_tag_ids@,
            r.filter_len() == filter_len,
    {
        BlockTable { table, cached_tag_ids, filter_len }
    }

    pub(crate) fn share(&self) -> (r: Self)
        ensures
            r.strings() == self.strings(),
            r.ids() == self.ids(),
            r.filter_len() == self.filter_len(),
    {
        BlockTable { table: share(&self.table), cached_tag_ids: share(&self.cached_tag_ids), filter_len: self.filter_len }
    }

    /// A copy of the strings.
    pub fn copy_strings(&self) -> (r: Vec<Vec<u8>>)
        ensures
            table_view(r@) == self.strings(),
    {
        let t = self.table.as_slice();
        let mut out: Vec<Vec<u8>> = Vec::with_capacity(t.len());
        let mut i: usize = 0;
        while i < t.len()
            invariant
                0 <= i <= t@.len(),
                table_view(t@) == self.strings(),
                table_view(out@) == table_view(t@).take(i as int),
            decreases t@.len() - i,
        {
            let ghost before = out@;
            out.push(copy_bytes(t[i].as_slice()));
            i += 1;
            proof {
                assert(table_view(out@) =~= table_view(before).push(t@[i - 1]@));
                assert(table_view(out@) =~= table_view(t@).take(i as int));
            }
        }
        proof {
            assert(table_view(t@).take(i as int) =~= table_view(t@));
        }
        out
    }

    fn dense_tags<'a>(&'a self, slice: &'a [i32]) -> (r: DenseNodeTagIter<'a>)
        ensures
            r.table() == self.strings(),
            r.pending() == dense_run(slice@, self.strings().len() as int, self.ids(), self.filter_len(), 0),
            r.filter_len() == self.filter_len(),
    {
        DenseNodeTagIter::new(slice, self.table.as_slice(), self.cached_tag_ids.as_slice(), self.filter_len)
    }

    fn list_tags<'a>(&'a self, keys: &'a [u32], vals: &'a [u32]) -> (r: TagIter<'a>)
        ensures
            r.table() == self.strings(),
            r.pending() == list_run(keys@, vals@, self.strings().len() as int, self.ids(), self.filter_len(), 0),
            r.filter_len() == self.filter_len(),
    {
        TagIter::new(keys, vals, self.table.as_slice(), self.cached_tag_ids.as_slice(), self.filter_len)
    }
}

/// A block of elements of one kind, as decoded from one primitive group.
pub enum ElementBlock {
    DenseNodeBlock(DenseNodeBlock),
    NodeBlock(NodeBlock),
    WayBlock(WayBlock),
    RelationBlock(RelationBlock),
}

/// The kind of an [`ElementBlock`].
#[derive(Clone, Copy, Debug, PartialEq, Eq, Structural)]
pub enum BlockKind {
    DenseNode,
    Node,
    Way,
    Relation,
}

/// The kind of a block.
pub open spec fn kind_of(b: ElementBlock) -> BlockKind {
    match b {
        ElementBlock::DenseNodeBlock(_) => BlockKind::DenseNode,
        ElementBlock::NodeBlock(_) => BlockKind::Node,
        ElementBlock::WayBlock(_) => BlockKind::Way,
        ElementBlock::RelationBlock(_) => BlockKind::Relation,
    }
}

impl ElementBlock {
    /// The kind of elements the block holds.
    pub fn kind(&self) -> (r: BlockKind)
        ensures
            r == kind_of(*self),
    {
        match self {
            ElementBlock::DenseNodeBlock(_) => BlockKind::DenseNode,
            ElementBlock::NodeBlock(_) => BlockKind::Node,
            ElementBlock::WayBlock(_) => BlockKind::Way,
            ElementBlock::RelationBlock(_) => BlockKind::Relation,
        }
    }

    /// Number of elements in the block.
    pub fn len(&self) -> (r: usize)
        ensures
            r == match *self {
                ElementBlock::DenseNodeBlock(b) => b.spec_len(),
                ElementBlock::NodeBlock(b) => b.spec_len(),
                ElementBlock::WayBlock(b) => b.spec_len(),
                ElementBlock::RelationBlock(b) => b.spec_len(),
            },
    {
        match self {
            ElementBlock::DenseNodeBlock(b) => b.len(),
            ElementBlock::NodeBlock(b) => b.len(),
            ElementBlock::WayBlock(b) => b.len(),
            ElementBlock::RelationBlock(b) => b.len(),
        }
    }
}

// ------------------------------ dense nodes ------------------------------

/// Well-formed dense columns: one latitude and longitude per id, and `n + 1`
/// non-decreasing run boundaries within the key/value stream.
pub open spec fn dense_wf(d: DenseNodes, off: Seq<usize>) -> bool {
    let n = d.id@.len();
    &&& d.lat@.len() == n
    &&& d.lon@.len() == n
    &&& off.len() == n + 1
    &&& forall|i: int| 0 <= i < n ==> off[i] <= #[trigger] off[i + 1] <= d.keys_vals@.len()
    &&& off[0] <= d.keys_vals@.len()
}

/// Running values (id, lat, lon) after the first `i` dense nodes.
pub open spec fn dense_acc(d: DenseNodes, i: int) -> (i64, i64, i64) {
    (running_sum(0, d.id@, i), running_sum(0, d.lat@, i), running_sum(0, d.lon@, i))
}

/// A coordinate in nanodegrees: `sum * granularity + offset`, wrapping.
pub open spec fn nano_coord(sum: i64, granularity: i64, offset: i64) -> i64 {
    sum.wrapping_mul(granularity).wrapping_add(offset)
}

/// The admitted tag id pairs of each node of a dense block, read from its
/// key/value run.
pub open spec fn dense_tag_lists(b: &DenseNodeBlock) -> Seq<Seq<(u32, u32)>> {
    Seq::new(
        b.spec_len(),
        |i: int| dense_raw_tags(b.data().keys_vals@, b.table().ids(), b.table().filter_len(), b.kv_offsets()[i] as int, b.kv_offsets()[i + 1] as int),
    )
}

/// Dense nodes with a shared string table; iterate with [`DenseNodeBlock::iter`].
pub struct DenseNodeBlock {
    nodes: Arc<DenseNodes>,
    strings: BlockTable,
    granularity: i64,
    lat_offset: i64,
    lon_offset: i64,
    kv_offsets: Vec<usize>,
}

impl DenseNodeBlock {
    #[verifier::type_invariant]
    spec fn inv(self) -> bool {
        dense_wf(*self.nodes, self.kv_offsets@)
    }

    /// The dense columns.
    pub closed spec fn data(&self) -> DenseNodes {
        *self.nodes
    }

    /// The shared string table.
    pub closed spec fn table(&self) -> BlockTable {
        self.strings
    }

    /// Boundaries of each node's key/value run.
    pub closed spec fn kv_offsets(&self) -> Seq<usize> {
        self.kv_offsets@
    }

    /// Coordinate scaling: granularity, latitude offset, longitude offset.
    pub closed spec fn scale(&self) -> (i64, i64, i64) {
        (self.granularity, self.lat_offset, self.lon_offset)
    }

    /// Number of nodes.
    pub open spec fn spec_len(&self) -> nat {
        self.data().id@.len()
    }

    /// The index pairs of the admitted tags of node `i`.
    pub open spec fn node_tags(&self, i: int) -> Seq<(int, int)> {
        dense_run(
            self.data().keys_vals@.subrange(self.kv_offsets()[i] as int, self.kv_offsets()[i + 1] as int),
            self.table().strings().len() as int,
            self.table().ids(),
            self.table().filter_len(),
            0,
        )
    }

    pub(crate) fn new(nodes: DenseNodes, strings: BlockTable, granularity: i64, lat_offset: i64, lon_offset: i64, kv_offsets: Vec<usize>) -> (r: Self)
        requires
            dense_wf(nodes, kv_offsets@),
        ensures
            r.data() == nodes,
            r.table() == strings,
            r.kv_offsets() == kv_offsets@,
            r.scale() == (granularity, lat_offset, lon_offset),
    {
        DenseNodeBlock { nodes: Arc::new(nodes), strings, granularity, lat_offset, lon_offset, kv_offsets }
    }

    /// An iterator over the nodes, from the first.
    pub fn iter(&self) -> (r: DenseNodeIter<'_>)
        ensures
            r.block() == self,
            r.index() == 0,
            r.remaining() == self.spec_len(),
            r.remaining_ids() == prefix_sums(0, self.data().id@),
    {
        proof {
            assert(prefix_sums(0, self.data().id@).skip(0) =~= prefix_sums(0, self.data().id@));
        }
        DenseNodeIter { block: self, index: 0, prev_id: 0, prev_lat: 0, prev_lon: 0 }
    }

    /// Number of nodes.
    pub fn len(&self) -> (r: usize)
        ensures
            r == self.spec_len(),
    {
        self.nodes.id.len()
    }

    /// A copy of the block's string table.
    pub fn get_string_table(&self) -> (r: Vec<Vec<u8>>)
        ensures
            table_view(r@) == self.table().strings(),
    {
        self.strings.copy_strings()
    }
    /// The block as columns, decoded by walking the block's iterator: the
    /// absolute ids; latitudes and longitudes in nanodegrees (granularity
    /// and offsets applied); the admitted tag key ids and value ids of all
    /// nodes, one after the other, with each node's start (and the end) in
    /// `kv_offsets`.
    pub fn get_raw_data(&self) -> (r: (Vec<i64>, Vec<i64>, Vec<i64>, Vec<u32>, Vec<u32>, Vec<u32>))
        ensures
            r.0@ == prefix_sums(0, self.data().id@),
            r.0@.len() == self.spec_len(),
            r.1@ == Seq::new(self.spec_len(), |i: int| nano_coord(running_sum(0, self.data().lat@, i + 1), self.scale().0, self.scale().1)),
            r.2@ == Seq::new(self.spec_len(), |i: int| nano_coord(running_sum(0, self.data().lon@, i + 1), self.scale().0, self.scale().2)),
            r.3@ == firsts(concat(dense_tag_lists(self))),
            r.4@ == seconds(concat(dense_tag_lists(self))),
            r.5@ == offsets_u32(dense_tag_lists(self)),
    {
        proof {
            use_type_invariant(self);
        }
        let ghost d = self.data();
        let ghost n = self.spec_len() as int;
        let ghost tl = dense_tag_lists(self);
        let ids_col = self.strings.cached_tag_ids.as_slice();
        let fl = self.strings.filter_len;
        let kv = self.nodes.keys_vals.as_slice();
        let len = self.nodes.id.len();
        let mut ids: Vec<i64> = Vec::with_capacity(len);
        let mut lats: Vec<i64> = Vec::with_capacity(len);
        let mut lons: Vec<i64> = Vec::with_capacity(len);
        let mut key_ids: Vec<u32> = Vec::new();
        let mut val_ids: Vec<u32> = Vec::new();
        let mut kv_offsets: Vec<u32> = Vec::new();
        kv_offsets.push(0);
        proof {
            assert(offsets_u32(tl.take(0)) =~= seq![0u32]);
        }
        let mut it = self.iter();
        loop
            invariant
                it.block() == self,
                d == self.data(),
                n == self.spec_len(),
                len == n,
                dense_wf(d, self.kv_offsets()),
                tl == dense_tag_lists(self),
                tl.len() == n,
                kv@ == d.keys_vals@,
                ids_col@ == self.table().ids(),
                fl == self.table().filter_len(),
                it.index() <= n,
                ids@ == prefix_sums(0, d.id@).take(it.index() as int),
                lats@ == Seq::new(it.index(), |i: int| nano_coord(running_sum(0, d.lat@, i + 1), self.scale().0, self.scale().1)),
                lons@ == Seq::new(it.index(), |i: int| nano_coord(running_sum(0, d.lon@, i + 1), self.scale().0, self.scale().2)),
                key_ids@ == firsts(concat(tl.take(it.index() as int))),
                val_ids@ == seconds(concat(tl.take(it.index() as int))),
                kv_offsets@ == offsets_u32(tl.take(it.index() as int)),
            ensures
                it.index() == n,
                ids@ == prefix_sums(0, d.id@).take(n),
                lats@ == Seq::new(n as nat, |i: int| nano_coord(running_sum(0, d.lat@, i + 1), self.scale().0, self.scale().1)),
                lons@ == Seq::new(n as nat, |i: int| nano_coord(running_sum(0, d.lon@, i + 1), self.scale().0, self.scale().2)),
                key_ids@ == firsts(concat(tl.take(n))),
                val_ids@ == seconds(concat(tl.take(n))),
                kv_offsets@ == offsets_u32(tl.take(n)),
            decreases n - it.index(),
        {
            let ghost i = it.index() as int;
            match it.next() {
                None => {
                    break;
                },
                Some(mut node) => {
                    let idx = node.index;
                    ids.push(node.id());
                    lats.push(node.lat_nano());
                    lons.push(node.lon_nano());
                    push_dense_tags(kv, self.kv_offsets[idx], self.kv_offsets[idx + 1], ids_col, fl, &mut key_ids, &mut val_ids);
                    proof {
                        lemma_concat_take(tl, i);
                        lemma_pairs_split(concat(tl.take(i)), tl[i]);
                        lemma_pairs_split(concat(tl.take(i + 1)), Seq::empty());
                        assert(ids@ =~= prefix_sums(0, d.id@).take(i + 1));
                        assert(lats@ =~= Seq::new((i + 1) as nat, |j: int| nano_coord(running_sum(0, d.lat@, j + 1), self.scale().0, self.scale().1)));
                        assert(lons@ =~= Seq::new((i + 1) as nat, |j: int| nano_coord(running_sum(0, d.lon@, j + 1), self.scale().0, self.scale().2)));
                    }
                    kv_offsets.push(key_ids.len() as u32);
                },
            }
        }
        proof {
            assert(prefix_sums(0, d.id@).take(n) =~= prefix_sums(0, d.id@));
            assert(tl.take(n) =~= tl);
        }
        (ids, lats, lons, key_ids, val_ids, kv_offsets)
    }
}

/// Iterator over the nodes of a [`DenseNodeBlock`]; decodes the deltas as it
/// goes.
pub struct DenseNodeIter<'a> {
    block: &'a DenseNodeBlock,
    index: usize,
    prev_id: i64,
    prev_lat: i64,
    prev_lon: i64,
}

impl<'a> DenseNodeIter<'a> {
    #[verifier::type_invariant]
    spec fn inv(self) -> bool {
        &&& self.index <= self.block.spec_len()
        &&& (self.prev_id, self.prev_lat, self.prev_lon) == dense_acc(self.block.data(), self.index as int)
    }

    /// The block iterated over.
    pub closed spec fn block(&self) -> &'a DenseNodeBlock {
        self.block
    }

    /// Index of the next node.
    pub closed spec fn index(&self) -> nat {
        self.index as nat
    }

    /// The ids of the nodes still to be yielded, each as `id()` gives it on
    /// the yielded reference: the prefix sums of the id deltas, from the next
    /// node on.
    pub open spec fn remaining_ids(&self) -> Seq<i64> {
        prefix_sums(0, self.block().data().id@).skip(self.index() as int)
    }

    /// How many elements are still to be yielded.
    pub open spec fn remaining(&self) -> nat {
        (self.block().spec_len() - self.index()) as nat
    }

    /// Yields the next node, or `None` after the last one.
    pub fn next(&mut self) -> (r: Option<DenseNodeRef<'a>>)
        ensures
            r matches Some(n) ==> n.fresh_id() == old(self).remaining_ids()[0],
            r is Some ==> final(self).remaining_ids() == old(self).remaining_ids().drop_first(),
            r is Some <==> old(self).remaining() > 0,
            r is Some ==> final(self).remaining() == old(self).remaining() - 1,
            r is None ==> final(self).remaining() == 0,
            final(self).block() == old(self).block(),
            old(self).index() < old(self).block().spec_len() ==> {
                &&& final(self).index() == old(self).index() + 1
                &&& r is Some
                &&& r.unwrap().block() == old(self).block()
                &&& r.unwrap().index() == old(self).index()
                &&& r.unwrap().acc() == dense_acc(old(self).block().data(), old(self).index() as int)
            },
            old(self).index() >= old(self).block().spec_len() ==> r is None && final(self).index() == old(self).index(),
    {
        proof {
            use_type_invariant(&*self);
            use_type_invariant(self.block);
        }
        if self.index >= self.block.nodes.id.len() {
            return None;
        }
        let i = self.index;
        let out = DenseNodeRef { block: self.block, index: i, prev_id: self.prev_id, prev_lat: self.prev_lat, prev_lon: self.prev_lon };
        let d = &self.block.nodes;
        let id = self.prev_id.wrapping_add(d.id[i]);
        let lat = self.prev_lat.wrapping_add(d.lat[i]);
        let lon = self.prev_lon.wrapping_add(d.lon[i]);
        proof {
            let ps = prefix_sums(0, self.block.data().id@);
            assert(ps.skip(i + 1) =~= ps.skip(i as int).drop_first());
        }
        *self = DenseNodeIter { block: self.block, index: i + 1, prev_id: id, prev_lat: lat, prev_lon: lon };
        Some(out)
    }
}

/// One node of a [`DenseNodeBlock`], with the running values of the nodes
/// before it.
pub struct DenseNodeRef<'a> {
    block: &'a DenseNodeBlock,
    index: usize,
    prev_id: i64,
    prev_lat: i64,
    prev_lon: i64,
}

impl<'a> DenseNodeRef<'a> {
    #[verifier::type_invariant]
    spec fn inv(self) -> bool {
        self.index < self.block.spec_len()
    }

    /// The block the node belongs to.
    pub closed spec fn block(&self) -> &'a DenseNodeBlock {
        self.block
    }

    /// Position of the node in its block.
    pub closed spec fn index(&self) -> nat {
        self.index as nat
    }

    /// The running (id, lat, lon) values held by this reference.
    pub closed spec fn acc(&self) -> (i64, i64, i64) {
        (self.prev_id, self.prev_lat, self.prev_lon)
    }

    /// The running id plus this node's id delta: on a reference fresh from
    /// the iterator, the node's id.
    pub open spec fn fresh_id(&self) -> i64 {
        self.acc().0.wrapping_add(self.block().data().id@[self.index() as int])
    }

    /// Adds this node's id delta to the running id and returns it: on a
    /// reference fresh from the iterator, the node's id.
    pub fn id(&mut self) -> (r: i64)
        ensures
            r == old(self).fresh_id(),
            final(self).acc() == (r, old(self).acc().1, old(self).acc().2),
            final(self).block() == old(self).block(),
            final(self).index() == old(self).index(),
    {
        proof {
            use_type_invariant(&*self);
            use_type_invariant(self.block);
        }
        let v = self.prev_id.wrapping_add(self.block.nodes.id[self.index]);
        *self = DenseNodeRef { block: self.block, index: self.index, prev_id: v, prev_lat: self.prev_lat, prev_lon: self.prev_lon };
        v
    }

    /// Adds this node's latitude delta to the running latitude and returns
    /// it in nanodegrees, with the block's granularity and offset applied.
    pub fn lat_nano(&mut self) -> (r: i64)
        ensures
            final(self).acc() == (
                old(self).acc().0,
                old(self).acc().1.wrapping_add(old(self).block().data().lat@[old(self).index() as int]),
                old(self).acc().2,
            ),
            r == nano_coord(final(self).acc().1, old(self).block().scale().0, old(self).block().scale().1),
            final(self).block() == old(self).block(),
            final(self).index() == old(self).index(),
    {
        proof {
            use_type_invariant(&*self);
            use_type_invariant(self.block);
        }
        let v = self.prev_lat.wrapping_add(self.block.nodes.lat[self.index]);
        *self = DenseNodeRef { block: self.block, index: self.index, prev_id: self.prev_id, prev_lat: v, prev_lon: self.prev_lon };
        v.wrapping_mul(self.block.granularity).wrapping_add(self.block.lat_offset)
    }

    /// Adds this node's longitude delta to the running longitude and returns
    /// it in nanodegrees, with the block's granularity and offset applied.
    pub fn lon_nano(&mut self) -> (r: i64)
        ensures
            final(self).acc() == (
                old(self).acc().0,
                old(self).acc().1,
                old(self).acc().2.wrapping_add(old(self).block().data().lon@[old(self).index() as int]),
            ),
            r == nano_coord(final(self).acc().2, old(self).block().scale().0, old(self).block().scale().2),
            final(self).block() == old(self).block(),
            final(self).index() == old(self).index(),
    {
        proof {
            use_type_invariant(&*self);
            use_type_invariant(self.block);
        }
        let v = self.prev_lon.wrapping_add(self.block.nodes.lon[self.index]);
        *self = DenseNodeRef { block: self.block, index: self.index, prev_id: self.prev_id, prev_lat: self.prev_lat, prev_lon: v };
        v.wrapping_mul(self.block.granularity).wrapping_add(self.block.lon_offset)
    }

    /// The node's tags: the pairs of its key/value run.
    pub fn tags(&self) -> (r: DenseNodeTagIter<'a>)
        ensures
            r.table() == self.block().table().strings(),
            r.filter_len() == self.block().table().filter_len(),
            r.pending() == self.block().node_tags(self.index() as int),
    {
        proof {
            use_type_invariant(self);
            use_type_invariant(self.block);
        }
        let b: &'a DenseNodeBlock = self.block;
        proof {
            assert(b.kv_offsets.len() == b.kv_offsets@.len());
        }
        let start = b.kv_offsets[self.index];
        let end = b.kv_offsets[self.index + 1];
        let slice = slice_subrange(b.nodes.keys_vals.as_slice(), start, end);
        b.strings.dense_tags(slice)
    }
}

// --------------------------------- nodes ---------------------------------

/// The latitude deltas of a node list.
pub open spec fn node_lats(nodes: Seq<Node>) -> Seq<i64> {
    nodes.map_values(|n: Node| n.lat)
}

/// The longitude deltas of a node list.
pub open spec fn node_lons(nodes: Seq<Node>) -> Seq<i64> {
    nodes.map_values(|n: Node| n.lon)
}

/// Running (lat, lon) values after the first `i` nodes.
pub open spec fn node_acc(nodes: Seq<Node>, i: int) -> (i64, i64) {
    (running_sum(0, node_lats(nodes), i), running_sum(0, node_lons(nodes), i))
}

/// The admitted tag id pairs of each node.
pub open spec fn node_tag_lists(ns: Seq<Node>, ids: Seq<u32>, fl: Option<usize>) -> Seq<Seq<(u32, u32)>> {
    ns.map_values(|x: Node| element_tags(x.keys@, x.vals@, ids, fl))
}

/// Nodes with a shared string table; iterate with [`NodeBlock::iter`].
pub struct NodeBlock {
    nodes: Arc<Vec<Node>>,
    strings: BlockTable,
    granularity: i64,
    lat_offset: i64,
    lon_offset: i64,
}

impl NodeBlock {
    /// The node records.
    pub closed spec fn data(&self) -> Seq<Node> {
        self.nodes@
    }

    /// The shared string table.
    pub closed spec fn table(&self) -> BlockTable {
        self.strings
    }

    /// Coordinate scaling: granularity, latitude offset, longitude offset.
    pub closed spec fn scale(&self) -> (i64, i64, i64) {
        (self.granularity, self.lat_offset, self.lon_offset)
    }

    /// Number of nodes.
    pub open spec fn spec_len(&self) -> nat {
        self.data().len()
    }

    pub(crate) fn new(nodes: Vec<Node>, strings: BlockTable, granularity: i64, lat_offset: i64, lon_offset: i64) -> (r: Self)
        ensures
            r.data() == nodes@,
            r.table() == strings,
            r.scale() == (granularity, lat_offset, lon_offset),
    {
        NodeBlock { nodes: Arc::new(nodes), strings, granularity, lat_offset, lon_offset }
    }

    /// An iterator over the nodes, from the first.
    pub fn iter(&self) -> (r: NodeIter<'_>)
        ensures
            r.block() == self,
            r.index() == 0,
            r.remaining() == self.spec_len(),
    {
        NodeIter { block: self, index: 0, prev_lat: 0, prev_lon: 0 }
    }

    /// Number of nodes.
    pub fn len(&self) -> (r: usize)
        ensures
            r == self.spec_len(),
    {
        self.nodes.len()
    }

    /// A copy of the block's string table.
    pub fn get_string_table(&self) -> (r: Vec<Vec<u8>>)
        ensures
            table_view(r@) == self.table().strings(),
    {
        self.strings.copy_strings()
    }
    /// The block as columns, decoded by walking the block's iterator: the
    /// ids; latitudes and longitudes in nanodegrees (granularity and offsets
    /// applied); the admitted tag key ids and value ids of all nodes, one
    /// after the other, with each node's start (and the end) in
    /// `kv_offsets`.
    pub fn get_raw_data(&self) -> (r: (Vec<i64>, Vec<i64>, Vec<i64>, Vec<u32>, Vec<u32>, Vec<u32>))
        ensures
            r.0@ == self.data().map_values(|x: Node| x.id),
            r.1@ == Seq::new(self.spec_len(), |i: int| nano_coord(running_sum(0, node_lats(self.data()), i + 1), self.scale().0, self.scale().1)),
            r.2@ == Seq::new(self.spec_len(), |i: int| nano_coord(running_sum(0, node_lons(self.data()), i + 1), self.scale().0, self.scale().2)),
            r.3@ == firsts(concat(node_tag_lists(self.data(), self.table().ids(), self.table().filter_len()))),
            r.4@ == seconds(concat(node_tag_lists(self.data(), self.table().ids(), self.table().filter_len()))),
            r.5@ == offsets_u32(node_tag_lists(self.data(), self.table().ids(), self.table().filter_len())),
    {
        let ghost d = self.data();
        let ghost n = self.spec_len() as int;
        let ghost tl = node_tag_lists(d, self.table().ids(), self.table().filter_len());
        let ids_col = self.strings.cached_tag_ids.as_slice();
        let fl = self.strings.filter_len;
        let len = self.nodes.len();
        let mut ids: Vec<i64> = Vec::with_capacity(len);
        let mut lats: Vec<i64> = Vec::with_capacity(len);
        let mut lons: Vec<i64> = Vec::with_capacity(len);
        let mut key_ids: Vec<u32> = Vec::new();
        let mut val_ids: Vec<u32> = Vec::new();
        let mut kv_offsets: Vec<u32> = Vec::new();
        kv_offsets.push(0);
        proof {
            assert(offsets_u32(tl.take(0)) =~= seq![0u32]);
        }
        let mut it = self.iter();
        loop
            invariant
                it.block() == self,
                d == self.data(),
                n == self.spec_len(),
                len == n,
                tl == node_tag_lists(d, ids_col@, fl),
                ids_col@ == self.table().ids(),
                fl == self.table().filter_len(),
                it.index() <= n,
                ids@ == d.take(it.index() as int).map_values(|x: Node| x.id),
                lats@ == Seq::new(it.index(), |i: int| nano_coord(running_sum(0, node_lats(d), i + 1), self.scale().0, self.scale().1)),
                lons@ == Seq::new(it.index(), |i: int| nano_coord(running_sum(0, node_lons(d), i + 1), self.scale().0, self.scale().2)),
                key_ids@ == firsts(concat(tl.take(it.index() as int))),
                val_ids@ == seconds(concat(tl.take(it.index() as int))),
                kv_offsets@ == offsets_u32(tl.take(it.index() as int)),
            ensures
                it.index() == n,
                ids@ == d.take(n).map_values(|x: Node| x.id),
                lats@ == Seq::new(n as nat, |i: int| nano_coord(running_sum(0, node_lats(d), i + 1), self.scale().0, self.scale().1)),
                lons@ == Seq::new(n as nat, |i: int| nano_coord(running_sum(0, node_lons(d), i + 1), self.scale().0, self.scale().2)),
                key_ids@ == firsts(concat(tl.take(n))),
                val_ids@ == seconds(concat(tl.take(n))),
                kv_offsets@ == offsets_u32(tl.take(n)),
            decreases n - it.index(),
        {
            let ghost i = it.index() as int;
            match it.next() {
                None => {
                    break;
                },
                Some(mut node) => {
                    let idx = node.index;
                    let record = &self.nodes[idx];
                    ids.push(node.id());
                    lats.push(node.lat_nano());
                    lons.push(node.lon_nano());
                    push_tags(record.keys.as_slice(), record.vals.as_slice(), ids_col, fl, &mut key_ids, &mut val_ids);
                    proof {
                        lemma_concat_take(tl, i);
                        lemma_pairs_split(concat(tl.take(i)), tl[i]);
                        lemma_pairs_split(concat(tl.take(i + 1)), Seq::empty());
                        assert(ids@ =~= d.take(i + 1).map_values(|x: Node| x.id));
                        assert(lats@ =~= Seq::new((i + 1) as nat, |j: int| nano_coord(running_sum(0, node_lats(d), j + 1), self.scale().0, self.scale().1)));
                        assert(lons@ =~= Seq::new((i + 1) as nat, |j: int| nano_coord(running_sum(0, node_lons(d), j + 1), self.scale().0, self.scale().2)));
                    }
                    kv_offsets.push(key_ids.len() as u32);
                },
            }
        }
        proof {
            assert(d.take(n) =~= d);
            assert(tl.take(n) =~= tl);
        }
        (ids, lats, lons, key_ids, val_ids, kv_offsets)
    }
}

/// Iterator over the nodes of a [`NodeBlock`]; decodes the coordinate deltas
/// as it goes.
pub struct NodeIter<'a> {
    block: &'a NodeBlock,
    index: usize,
    prev_lat: i64,
    prev_lon: i64,
}

impl<'a> NodeIter<'a> {
    #[verifier::type_invariant]
    spec fn inv(self) -> bool {
        &&& self.index <= self.block.spec_len()
        &&& (self.prev_lat, self.prev_lon) == node_acc(self.block.data(), self.index as int)
    }

    /// The block iterated over.
    pub closed spec fn block(&self) -> &'a NodeBlock {
        self.block
    }

    /// Index of the next node.
    pub closed spec fn index(&self) -> nat {
        self.index as nat
    }

    /// How many elements are still to be yielded.
    pub open spec fn remaining(&self) -> nat {
        (self.block().spec_len() - self.index()) as nat
    }

    /// Yields the next node, or `None` after the last one.
    pub fn next(&mut self) -> (r: Option<NodeRef<'a>>)
        ensures
            r is Some <==> old(self).remaining() > 0,
            r is Some ==> final(self).remaining() == old(self).remaining() - 1,
            r is None ==> final(self).remaining() == 0,
            final(self).block() == old(self).block(),
            old(self).index() < old(self).block().spec_len() ==> {
                &&& final(self).index() == old(self).index() + 1
                &&& r is Some
                &&& r.unwrap().block() == old(self).block()
                &&& r.unwrap().index() == old(self).index()
                &&& r.unwrap().acc() == node_acc(old(self).block().data(), old(self).index() as int)
            },
            old(self).index() >= old(self).block().spec_len() ==> r is None && final(self).index() == old(self).index(),
    {
        proof {
            use_type_invariant(&*self);
        }
        if self.index >= self.block.nodes.len() {
            return None;
        }
        let i = self.index;
        let out = NodeRef { block: self.block, index: i, prev_lat: self.prev_lat, prev_lon: self.prev_lon };
        let node = &self.block.nodes[i];
        let lat = self.prev_lat.wrapping_add(node.lat);
        let lon = self.prev_lon.wrapping_add(node.lon);
        *self = NodeIter { block: self.block, index: i + 1, prev_lat: lat, prev_lon: lon };
        Some(out)
    }
}

/// One node of a [`NodeBlock`], with the running coordinates of the nodes
/// before it.
pub struct NodeRef<'a> {
    block: &'a NodeBlock,
    index: usize,
    prev_lat: i64,
    prev_lon: i64,
}

impl<'a> NodeRef<'a> {
    #[verifier::type_invariant]
    spec fn inv(self) -> bool {
        self.index < self.block.spec_len()
    }

    /// The block the node belongs to.
    pub closed spec fn block(&self) -> &'a NodeBlock {
        self.block
    }

    /// Position of the node in its block.
    pub closed spec fn index(&self) -> nat {
        self.index as nat
    }

    /// The running (lat, lon) values held by this reference.
    pub closed spec fn acc(&self) -> (i64, i64) {
        (self.prev_lat, self.prev_lon)
    }

    /// The node's id.
    pub fn id(&self) -> (r: i64)
        ensures
            r == self.block().data()[self.index() as int].id,
    {
        proof {
            use_type_invariant(self);
        }
        self.block.nodes[self.index].id
    }

    /// Adds this node's latitude delta to the running latitude and returns
    /// it in nanodegrees, with the block's granularity and offset applied.
    pub fn lat_nano(&mut self) -> (r: i64)
        ensures
            final(self).acc() == (
                old(self).acc().0.wrapping_add(old(self).block().data()[old(self).index() as int].lat),
                old(self).acc().1,
            ),
            r == nano_coord(final(self).acc().0, old(self).block().scale().0, old(self).block().scale().1),
            final(self).block() == old(self).block(),
            final(self).index() == old(self).index(),
    {
        proof {
            use_type_invariant(&*self);
        }
        let v = self.prev_lat.wrapping_add(self.block.nodes[self.index].lat);
        *self = NodeRef { block: self.block, index: self.index, prev_lat: v, prev_lon: self.prev_lon };
        v.wrapping_mul(self.block.granularity).wrapping_add(self.block.lat_offset)
    }

    /// Adds this node's longitude delta to the running longitude and returns
    /// it in nanodegrees, with the block's granularity and offset applied.
    pub fn lon_nano(&mut self) -> (r: i64)
        ensures
            final(self).acc() == (
                old(self).acc().0,
                old(self).acc().1.wrapping_add(old(self).block().data()[old(self).index() as int].lon),
            ),
            r == nano_coord(final(self).acc().1, old(self).block().scale().0, old(self).block().scale().2),
            final(self).block() == old(self).block(),
            final(self).index() == old(self).index(),
    {
        proof {
            use_type_invariant(&*self);
        }
        let v = self.prev_lon.wrapping_add(self.block.nodes[self.index].lon);
        *self = NodeRef { block: self.block, index: self.index, prev_lat: self.prev_lat, prev_lon: v };
        v.wrapping_mul(self.block.granularity).wrapping_add(self.block.lon_offset)
    }

    /// The node's tags, paired positionally from its keys and values.
    pub fn tags(&self) -> (r: TagIter<'a>)
        ensures
            r.table() == self.block().table().strings(),
            r.filter_len() == self.block().table().filter_len(),
            r.pending() == list_run(
                self.block().data()[self.index() as int].keys@,
                self.block().data()[self.index() as int].vals@,
                self.block().table().strings().len() as int,
                self.block().table().ids(),
                self.block().table().filter_len(),
                0,
            ),
    {
        proof {
            use_type_invariant(self);
        }
        let b: &'a NodeBlock = self.block;
        let node = &b.nodes[self.index];
        b.strings.list_tags(node.keys.as_slice(), node.vals.as_slice())
    }
}

// ---------------------------------- ways ----------------------------------

/// The admitted tag id pairs of each way.
pub open spec fn way_tag_lists(ws: Seq<Way>, ids: Seq<u32>, fl: Option<usize>) -> Seq<Seq<(u32, u32)>> {
    ws.map_values(|w: Way| element_tags(w.keys@, w.vals@, ids, fl))
}

/// The absolute node ids of each way.
pub open spec fn way_node_lists(ws: Seq<Way>) -> Seq<Seq<i64>> {
    ws.map_values(|w: Way| prefix_sums(0, w.refs@))
}

/// Ways with a shared string table; iterate with [`WayBlock::iter`].
pub struct WayBlock {
    ways: Arc<Vec<Way>>,
    strings: BlockTable,
}

impl WayBlock {
    /// The way records.
    pub closed spec fn data(&self) -> Seq<Way> {
        self.ways@
    }

    /// The shared string table.
    pub closed spec fn table(&self) -> BlockTable {
        self.strings
    }

    /// Number of ways.
    pub open spec fn spec_len(&self) -> nat {
        self.data().len()
    }

    pub(crate) fn new(ways: Vec<Way>, strings: BlockTable) -> (r: Self)
        ensures
            r.data() == ways@,
            r.table() == strings,
    {
        WayBlock { ways: Arc::new(ways), strings }
    }

    /// An iterator over the ways, from the first.
    pub fn iter(&self) -> (r: WayIter<'_>)
        ensures
            r.block() == self,
            r.index() == 0,
            r.remaining() == self.spec_len(),
    {
        WayIter { block: self, index: 0 }
    }

    /// Number of ways.
    pub fn len(&self) -> (r: usize)
        ensures
            r == self.spec_len(),
    {
        self.ways.len()
    }

    /// A copy of the block's string table.
    pub fn get_string_table(&self) -> (r: Vec<Vec<u8>>)
        ensures
            table_view(r@) == self.table().strings(),
    {
        self.strings.copy_strings()
    }
    /// The block as columns: way ids; the admitted tag key ids and value
    /// ids of all ways, one after the other, with each way's start (and the
    /// end) in `kv_offsets`; the absolute node ids of all ways, with each
    /// way's start (and the end) in `node_offsets`.
    pub fn get_raw_data(&self) -> (r: (Vec<i64>, Vec<u32>, Vec<u32>, Vec<u32>, Vec<i64>, Vec<u32>))
        ensures
            r.0@ == self.data().map_values(|w: Way| w.id),
            r.1@ == firsts(concat(way_tag_lists(self.data(), self.table().ids(), self.table().filter_len()))),
            r.2@ == seconds(concat(way_tag_lists(self.data(), self.table().ids(), self.table().filter_len()))),
            r.3@ == offsets_u32(way_tag_lists(self.data(), self.table().ids(), self.table().filter_len())),
            r.4@ == concat(way_node_lists(self.data())),
            r.5@ == offsets_u32(way_node_lists(self.data())),
    {
        let ghost ws = self.data();
        let ghost tl = way_tag_lists(ws, self.table().ids(), self.table().filter_len());
        let ghost nl = way_node_lists(ws);
        let ids_col = self.strings.cached_tag_ids.as_slice();
        let fl = self.strings.filter_len;
        let len = self.ways.len();
        let mut ids: Vec<i64> = Vec::with_capacity(len);
        let mut key_ids: Vec<u32> = Vec::new();
        let mut val_ids: Vec<u32> = Vec::new();
        let mut kv_offsets: Vec<u32> = Vec::new();
        kv_offsets.push(0);
        let mut node_ids: Vec<i64> = Vec::new();
        let mut node_offsets: Vec<u32> = Vec::new();
        node_offsets.push(0);
        proof {
            assert(offsets_u32(tl.take(0)) =~= seq![0u32]);
            assert(offsets_u32(nl.take(0)) =~= seq![0u32]);
        }
        let mut i: usize = 0;
        while i < len
            invariant
                len == ws.len(),
                ws == self.data(),
                tl == way_tag_lists(ws, ids_col@, fl),
                nl == way_node_lists(ws),
                ids_col@ == self.table().ids(),
                fl == self.table().filter_len(),
                0 <= i <= len,
                ids@ == ws.take(i as int).map_values(|w: Way| w.id),
                key_ids@ == firsts(concat(tl.take(i as int))),
                val_ids@ == seconds(concat(tl.take(i as int))),
                kv_offsets@ == offsets_u32(tl.take(i as int)),
                node_ids@ == concat(nl.take(i as int)),
                node_offsets@ == offsets_u32(nl.take(i as int)),
            decreases len - i,
        {
            let way = &self.ways[i];
            ids.push(way.id);
            push_tags(way.keys.as_slice(), way.vals.as_slice(), ids_col, fl, &mut key_ids, &mut val_ids);
            let mut decoded = decode_deltas(way.refs.as_slice());
            node_ids.append(&mut decoded);
            proof {
                lemma_concat_take(tl, i as int);
                lemma_concat_take(nl, i as int);
                lemma_pairs_split(concat(tl.take(i as int)), tl[i as int]);
                lemma_pairs_split(concat(tl.take(i + 1)), Seq::empty());
                assert(ws.take(i + 1).map_values(|w: Way| w.id) =~= ws.take(i as int).map_values(|w: Way| w.id).push(way.id));
            }
            kv_offsets.push(key_ids.len() as u32);
            node_offsets.push(node_ids.len() as u32);
            i += 1;
        }
        proof {
            assert(ws.take(len as int) =~= ws);
            assert(tl.take(len as int) =~= tl);
            assert(nl.take(len as int) =~= nl);
        }
        (ids, key_ids, val_ids, kv_offsets, node_ids, node_offsets)
    }
}

/// Iterator over the ways of a [`WayBlock`].
pub struct WayIter<'a> {
    block: &'a WayBlock,
    index: usize,
}

impl<'a> WayIter<'a> {
    #[verifier::type_invariant]
    spec fn inv(self) -> bool {
        self.index <= self.block.spec_len()
    }

    /// The block iterated over.
    pub closed spec fn block(&self) -> &'a WayBlock {
        self.block
    }

    /// Index of the next way.
    pub closed spec fn index(&self) -> nat {
        self.index as nat
    }

    /// How many elements are still to be yielded.
    pub open spec fn remaining(&self) -> nat {
        (self.block().spec_len() - self.index()) as nat
    }

    /// Yields the next way, or `None` after the last one.
    pub fn next(&mut self) -> (r: Option<WayRef<'a>>)
        ensures
            r is Some <==> old(self).remaining() > 0,
            r is Some ==> final(self).remaining() == old(self).remaining() - 1,
            r is None ==> final(self).remaining() == 0,
            final(self).block() == old(self).block(),
            old(self).index() < old(self).block().spec_len() ==> {
                &&& final(self).index() == old(self).index() + 1
                &&& r is Some
                &&& r.unwrap().block() == old(self).block()
                &&& r.unwrap().index() == old(self).index()
            },
            old(self).index() >= old(self).block().spec_len() ==> r is None && final(self).index() == old(self).index(),
    {
        proof {
            use_type_invariant(&*self);
        }
        if self.index >= self.block.ways.len() {
            return None;
        }
        let out = WayRef { block: self.block, index: self.index };
        *self = WayIter { block: self.block, index: self.index + 1 };
        Some(out)
    }
}

/// One way of a [`WayBlock`].
pub struct WayRef<'a> {
    block: &'a WayBlock,
    index: usize,
}

impl<'a> WayRef<'a> {
    #[verifier::type_invariant]
    spec fn inv(self) -> bool {
        self.index < self.block.spec_len()
    }

    /// The block the way belongs to.
    pub closed spec fn block(&self) -> &'a WayBlock {
        self.block
    }

    /// Position of the way in its block.
    pub closed spec fn index(&self) -> nat {
        self.index as nat
    }

    /// The way record.
    pub open spec fn way(&self) -> Way {
        self.block().data()[self.index() as int]
    }

    /// The way's id.
    pub fn id(&self) -> (r: i64)
        ensures
            r == self.way().id,
    {
        proof {
            use_type_invariant(self);
        }
        self.block.ways[self.index].id
    }

    /// The way's node ids, decoded from its delta-encoded refs.
    pub fn node_ids(&self) -> (r: NodeIdIter<'a>)
        ensures
            r.deltas() == self.way().refs@,
            r.index() == 0,
            r.remaining() == prefix_sums(0, self.way().refs@),
    {
        proof {
            assert(prefix_sums(0, self.way().refs@).skip(0) =~= prefix_sums(0, self.way().refs@));
        }
        proof {
            use_type_invariant(self);
        }
        let b: &'a WayBlock = self.block;
        NodeIdIter { refs: b.ways[self.index].refs.as_slice(), index: 0, last: 0 }
    }

    /// The way's tags, paired positionally from its keys and values.
    pub fn tags(&self) -> (r: TagIter<'a>)
        ensures
            r.table() == self.block().table().strings(),
            r.filter_len() == self.block().table().filter_len(),
            r.pending() == list_run(
                self.way().keys@,
                self.way().vals@,
                self.block().table().strings().len() as int,
                self.block().table().ids(),
                self.block().table().filter_len(),
                0,
            ),
    {
        proof {
            use_type_invariant(self);
        }
        let b: &'a WayBlock = self.block;
        let way = &b.ways[self.index];
        b.strings.list_tags(way.keys.as_slice(), way.vals.as_slice())
    }
}

/// Yields the absolute node ids of a way: the running sum of its deltas.
pub struct NodeIdIter<'a> {
    refs: &'a [i64],
    index: usize,
    last: i64,
}

impl<'a> NodeIdIter<'a> {
    #[verifier::type_invariant]
    spec fn inv(self) -> bool {
        &&& self.index <= self.refs@.len()
        &&& self.last == running_sum(0, self.refs@, self.index as int)
    }

    /// The delta-encoded ids.
    pub closed spec fn deltas(&self) -> Seq<i64> {
        self.refs@
    }

    /// How many ids were yielded.
    pub closed spec fn index(&self) -> nat {
        self.index as nat
    }

    /// The absolute node ids still to be yielded, in order.
    pub open spec fn remaining(&self) -> Seq<i64> {
        prefix_sums(0, self.deltas()).skip(self.index() as int)
    }

    /// Yields the next absolute node id, or `None` after the last one.
    pub fn next(&mut self) -> (r: Option<i64>)
        ensures
            old(self).remaining().len() == 0 ==> r is None && final(self).remaining() == old(self).remaining(),
            old(self).remaining().len() > 0 ==> r == Some(old(self).remaining()[0])
                && final(self).remaining() == old(self).remaining().drop_first(),
            final(self).deltas() == old(self).deltas(),
            old(self).index() < old(self).deltas().len() ==> {
                &&& final(self).index() == old(self).index() + 1
                &&& r == Some(running_sum(0, old(self).deltas(), old(self).index() as int + 1))
            },
            old(self).index() >= old(self).deltas().len() ==> r is None && final(self).index() == old(self).index(),
    {
        proof {
            use_type_invariant(&*self);
        }
        if self.index >= self.refs.len() {
            return None;
        }
        let v = self.last.wrapping_add(self.refs[self.index]);
        proof {
            let ps = prefix_sums(0, self.refs@);
            assert(ps.skip(self.index + 1) =~= ps.skip(self.index as int).drop_first());
        }
        *self = NodeIdIter { refs: self.refs, index: self.index + 1, last: v };
        Some(v)
    }
}

// -------------------------------- relations --------------------------------

/// The admitted tag id pairs of each relation.
pub open spec fn relation_tag_lists(rs: Seq<Relation>, ids: Seq<u32>, fl: Option<usize>) -> Seq<Seq<(u32, u32)>> {
    rs.map_values(|x: Relation| element_tags(x.keys@, x.vals@, ids, fl))
}

/// The absolute member ids of each relation.
pub open spec fn member_id_lists(rs: Seq<Relation>) -> Seq<Seq<i64>> {
    rs.map_values(|x: Relation| prefix_sums(0, x.memids@))
}

/// Relations with a shared string table; iterate with [`RelationBlock::iter`].
pub struct RelationBlock {
    relations: Arc<Vec<Relation>>,
    strings: BlockTable,
}

impl RelationBlock {
    /// The relation records.
    pub closed spec fn data(&self) -> Seq<Relation> {
        self.relations@
    }

    /// The shared string table.
    pub closed spec fn table(&self) -> BlockTable {
        self.strings
    }

    /// Number of relations.
    pub open spec fn spec_len(&self) -> nat {
        self.data().len()
    }

    pub(crate) fn new(relations: Vec<Relation>, strings: BlockTable) -> (r: Self)
        ensures
            r.data() == relations@,
            r.table() == strings,
    {
        RelationBlock { relations: Arc::new(relations), strings }
    }

    /// An iterator over the relations, from the first.
    pub fn iter(&self) -> (r: RelationIter<'_>)
        ensures
            r.block() == self,
            r.index() == 0,
            r.remaining() == self.spec_len(),
    {
        RelationIter { block: self, index: 0 }
    }

    /// Number of relations.
    pub fn len(&self) -> (r: usize)
        ensures
            r == self.spec_len(),
    {
        self.relations.len()
    }

    /// A copy of the block's string table.
    pub fn get_string_table(&self) -> (r: Vec<Vec<u8>>)
        ensures
            table_view(r@) == self.table().strings(),
    {
        self.strings.copy_strings()
    }
    /// The block as columns: relation ids; the admitted tag key ids and
    /// value ids of all relations, one after the other, with each
    /// relation's start (and the end) in `kv_offsets`; the absolute member
    /// ids, member kind codes and member role ids of all relations, with
    /// each relation's start in the member ids (and the end) in
    /// `member_offsets`.
    pub fn get_raw_data(&self) -> (r: (Vec<i64>, Vec<u32>, Vec<u32>, Vec<u32>, Vec<i64>, Vec<u8>, Vec<i32>, Vec<u32>))
        ensures
            r.0@ == self.data().map_values(|x: Relation| x.id),
            r.1@ == firsts(concat(relation_tag_lists(self.data(), self.table().ids(), self.table().filter_len()))),
            r.2@ == seconds(concat(relation_tag_lists(self.data(), self.table().ids(), self.table().filter_len()))),
            r.3@ == offsets_u32(relation_tag_lists(self.data(), self.table().ids(), self.table().filter_len())),
            r.4@ == concat(member_id_lists(self.data())),
            r.5@ == concat(self.data().map_values(|x: Relation| x.types@.map_values(|t: MemberType| member_code(t)))),
            r.6@ == concat(self.data().map_values(|x: Relation| x.roles_sid@)),
            r.7@ == offsets_u32(member_id_lists(self.data())),
    {
        let ghost rs = self.data();
        let ghost tl = relation_tag_lists(rs, self.table().ids(), self.table().filter_len());
        let ghost ml = member_id_lists(rs);
        let ghost cl = rs.map_values(|x: Relation| x.types@.map_values(|t: MemberType| member_code(t)));
        let ghost rl = rs.map_values(|x: Relation| x.roles_sid@);
        let ids_col = self.strings.cached_tag_ids.as_slice();
        let fl = self.strings.filter_len;
        let len = self.relations.len();
        let mut ids: Vec<i64> = Vec::with_capacity(len);
        let mut key_ids: Vec<u32> = Vec::new();
        let mut val_ids: Vec<u32> = Vec::new();
        let mut kv_offsets: Vec<u32> = Vec::new();
        kv_offsets.push(0);
        let mut member_ids: Vec<i64> = Vec::new();
        let mut member_types: Vec<u8> = Vec::new();
        let mut member_roles: Vec<i32> = Vec::new();
        let mut member_offsets: Vec<u32> = Vec::new();
        member_offsets.push(0);
        proof {
            assert(offsets_u32(tl.take(0)) =~= seq![0u32]);
            assert(offsets_u32(ml.take(0)) =~= seq![0u32]);
        }
        let mut i: usize = 0;
        while i < len
            invariant
                len == rs.len(),
                rs == self.data(),
                tl == relation_tag_lists(rs, ids_col@, fl),
                ml == member_id_lists(rs),
                cl == rs.map_values(|x: Relation| x.types@.map_values(|t: MemberType| member_code(t))),
                rl == rs.map_values(|x: Relation| x.roles_sid@),
                ids_col@ == self.table().ids(),
                fl == self.table().filter_len(),
                0 <= i <= len,
                ids@ == rs.take(i as int).map_values(|x: Relation| x.id),
                key_ids@ == firsts(concat(tl.take(i as int))),
                val_ids@ == seconds(concat(tl.take(i as int))),
                kv_offsets@ == offsets_u32(tl.take(i as int)),
                member_ids@ == concat(ml.take(i as int)),
                member_types@ == concat(cl.take(i as int)),
                member_roles@ == concat(rl.take(i as int)),
                member_offsets@ == offsets_u32(ml.take(i as int)),
            decreases len - i,
        {
            let rel = &self.relations[i];
            ids.push(rel.id);
            push_tags(rel.keys.as_slice(), rel.vals.as_slice(), ids_col, fl, &mut key_ids, &mut val_ids);
            let mut decoded = decode_deltas(rel.memids.as_slice());
            member_ids.append(&mut decoded);
            push_codes(rel.types.as_slice(), &mut member_types);
            push_all(rel.roles_sid.as_slice(), &mut member_roles);
            proof {
                lemma_concat_take(tl, i as int);
                lemma_concat_take(ml, i as int);
                lemma_concat_take(cl, i as int);
                lemma_concat_take(rl, i as int);
                lemma_pairs_split(concat(tl.take(i as int)), tl[i as int]);
                lemma_pairs_split(concat(tl.take(i + 1)), Seq::empty());
                assert(rs.take(i + 1).map_values(|x: Relation| x.id) =~= rs.take(i as int).map_values(|x: Relation| x.id).push(rel.id));
            }
            kv_offsets.push(key_ids.len() as u32);
            member_offsets.push(member_ids.len() as u32);
            i += 1;
        }
        proof {
            assert(rs.take(len as int) =~= rs);
            assert(tl.take(len as int) =~= tl);
            assert(ml.take(len as int) =~= ml);
            assert(cl.take(len as int) =~= cl);
            assert(rl.take(len as int) =~= rl);
        }
        (ids, key_ids, val_ids, kv_offsets, member_ids, member_types, member_roles, member_offsets)
    }
}

/// Iterator over the relations of a [`RelationBlock`].
pub struct RelationIter<'a> {
    block: &'a RelationBlock,
    index: usize,
}

impl<'a> RelationIter<'a> {
    #[verifier::type_invariant]
    spec fn inv(self) -> bool {
        self.index <= self.block.spec_len()
    }

    /// The block iterated over.
    pub closed spec fn block(&self) -> &'a RelationBlock {
        self.block
    }

    /// Index of the next relation.
    pub closed spec fn index(&self) -> nat {
        self.index as nat
    }

    /// How many elements are still to be yielded.
    pub open spec fn remaining(&self) -> nat {
        (self.block().spec_len() - self.index()) as nat
    }

    /// Yields the next relation, or `None` after the last one.
    pub fn next(&mut self) -> (r: Option<RelationRef<'a>>)
        ensures
            r is Some <==> old(self).remaining() > 0,
            r is Some ==> final(self).remaining() == old(self).remaining() - 1,
            r is None ==> final(self).remaining() == 0,
            final(self).block() == old(self).block(),
            old(self).index() < old(self).block().spec_len() ==> {
                &&& final(self).index() == old(self).index() + 1
                &&& r is Some
                &&& r.unwrap().block() == old(self).block()
                &&& r.unwrap().index() == old(self).index()
            },
            old(self).index() >= old(self).block().spec_len() ==> r is None && final(self).index() == old(self).index(),
    {
        proof {
            use_type_invariant(&*self);
        }
        if self.index >= self.block.relations.len() {
            return None;
        }
        let out = RelationRef { block: self.block, index: self.index };
        *self = RelationIter { block: self.block, index: self.index + 1 };
        Some(out)
    }
}

/// One relation of a [`RelationBlock`].
pub struct RelationRef<'a> {
    block: &'a RelationBlock,
    index: usize,
}

impl<'a> RelationRef<'a> {
    #[verifier::type_invariant]
    spec fn inv(self) -> bool {
        self.index < self.block.spec_len()
    }

    /// The block the relation belongs to.
    pub closed spec fn block(&self) -> &'a RelationBlock {
        self.block
    }

    /// Position of the relation in its block.
    pub closed spec fn index(&self) -> nat {
        self.index as nat
    }

    /// The relation record.
    pub open spec fn relation(&self) -> Relation {
        self.block().data()[self.index() as int]
    }

    /// The relation's id.
    pub fn id(&self) -> (r: i64)
        ensures
            r == self.relation().id,
    {
        proof {
            use_type_invariant(self);
        }
        self.block.relations[self.index].id
    }

    /// The relation's members, with ids decoded from the delta-encoded
    /// member ids and roles resolved through the string table.
    pub fn members(&self) -> (r: RelationMemberIter<'a>)
        ensures
            r.remaining() == member_seq(
                self.relation().memids@,
                self.relation().roles_sid@,
                self.relation().types@,
                self.block().table().strings(),
                0,
            ),
            r.memids() == self.relation().memids@,
            r.roles() == self.relation().roles_sid@,
            r.types() == self.relation().types@,
            r.table() == self.block().table().strings(),
            r.index() == 0,
    {
        proof {
            use_type_invariant(self);
        }
        let b: &'a RelationBlock = self.block;
        let rel = &b.relations[self.index];
        RelationMemberIter {
            memids: rel.memids.as_slice(),
            roles: rel.roles_sid.as_slice(),
            types: rel.types.as_slice(),
            table: b.strings.table.as_slice(),
            index: 0,
            prev_memid: 0,
        }
    }

    /// The relation's tags, paired positionally from its keys and values.
    pub fn tags(&self) -> (r: TagIter<'a>)
        ensures
            r.table() == self.block().table().strings(),
            r.filter_len() == self.block().table().filter_len(),
            r.pending() == list_run(
                self.relation().keys@,
                self.relation().vals@,
                self.block().table().strings().len() as int,
                self.block().table().ids(),
                self.block().table().filter_len(),
                0,
            ),
    {
        proof {
            use_type_invariant(self);
        }
        let b: &'a RelationBlock = self.block;
        let rel = &b.relations[self.index];
        b.strings.list_tags(rel.keys.as_slice(), rel.vals.as_slice())
    }
}

/// A member of a relation: its absolute id, its role and its kind.
pub struct RelationMember<'a> {
    memid: i64,
    role: &'a [u8],
    member_type: MemberType,
}

impl<'a> RelationMember<'a> {
    /// The member's absolute id.
    pub closed spec fn spec_id(&self) -> i64 {
        self.memid
    }

    /// The bytes of the member's role.
    pub closed spec fn spec_role(&self) -> Seq<u8> {
        self.role@
    }

    /// The kind of element the member is.
    pub closed spec fn spec_member_type(&self) -> MemberType {
        self.member_type
    }

    /// The member's absolute id.
    pub fn id(&self) -> (r: i64)
        ensures
            r == self.spec_id(),
    {
        self.memid
    }

    /// The kind of element the member is.
    pub fn member_type(&self) -> (r: MemberType)
        ensures
            r == self.spec_member_type(),
    {
        self.member_type
    }

    /// The member's role, as bytes.
    pub fn role(&self) -> (r: &'a [u8])
        ensures
            r@ == self.spec_role(),
    {
        self.role
    }
}

/// Whether member `i` can be read: all three columns reach it and its role
/// is an index into a table of `nt` strings.
pub open spec fn member_readable(memids: Seq<i64>, roles: Seq<i32>, types: Seq<MemberType>, nt: int, i: int) -> bool {
    &&& 0 <= i
    &&& i < memids.len()
    &&& i < roles.len()
    &&& i < types.len()
    &&& 0 <= roles[i] < nt
}

/// The members of a relation from position `i` on, as (absolute id, role
/// bytes, kind), up to the first member that cannot be read.
pub open spec fn member_seq(memids: Seq<i64>, roles: Seq<i32>, types: Seq<MemberType>, table: Seq<Seq<u8>>, i: int) -> Seq<(i64, Seq<u8>, MemberType)>
    decreases memids.len() - i,
{
    if !member_readable(memids, roles, types, table.len() as int, i) {
        Seq::empty()
    } else {
        seq![(running_sum(0, memids, i + 1), table[roles[i] as int], types[i])] + member_seq(memids, roles, types, table, i + 1)
    }
}

proof fn lemma_member_seq_from(memids: Seq<i64>, roles: Seq<i32>, types: Seq<MemberType>, table: Seq<Seq<u8>>, i: int)
    requires
        0 <= i <= memids.len(),
        roles.len() == memids.len(),
        types.len() == memids.len(),
        forall|j: int| 0 <= j < roles.len() ==> 0 <= #[trigger] roles[j] < table.len(),
    ensures
        member_seq(memids, roles, types, table, i) == Seq::new(
            (memids.len() - i) as nat,
            |j: int| (running_sum(0, memids, i + j + 1), table[roles[i + j] as int], types[i + j]),
        ),
    decreases memids.len() - i,
{
    if i < memids.len() {
        lemma_member_seq_from(memids, roles, types, table, i + 1);
        assert(member_seq(memids, roles, types, table, i) =~= Seq::new(
            (memids.len() - i) as nat,
            |j: int| (running_sum(0, memids, i + j + 1), table[roles[i + j] as int], types[i + j]),
        ));
    } else {
        assert(member_seq(memids, roles, types, table, i) =~= Seq::new(
            (memids.len() - i) as nat,
            |j: int| (running_sum(0, memids, i + j + 1), table[roles[i + j] as int], types[i + j]),
        ));
    }
}

/// Relation members round trip: when the member ids, roles and kinds have
/// one entry per member and every role is a string-table index, a member
/// iterator yields every member, the `i`-th with the prefix sum of the first
/// `i + 1` id deltas as id, `table[roles_sid[i]]` as role and `types[i]` as
/// kind.
pub proof fn lemma_members_whole(memids: Seq<i64>, roles: Seq<i32>, types: Seq<MemberType>, table: Seq<Seq<u8>>)
    requires
        roles.len() == memids.len(),
        types.len() == memids.len(),
        forall|j: int| 0 <= j < roles.len() ==> 0 <= #[trigger] roles[j] < table.len(),
    ensures
        member_seq(memids, roles, types, table, 0) == Seq::new(
            memids.len(),
            |i: int| (prefix_sums(0, memids)[i], table[roles[i] as int], types[i]),
        ),
{
    lemma_member_seq_from(memids, roles, types, table, 0);
    assert(member_seq(memids, roles, types, table, 0) =~= Seq::new(
        memids.len(),
        |i: int| (prefix_sums(0, memids)[i], table[roles[i] as int], types[i]),
    ));
}

/// Yields the members of a relation, in order; stops at the first member
/// that cannot be read.
pub struct RelationMemberIter<'a> {
    memids: &'a [i64],
    roles: &'a [i32],
    types: &'a [MemberType],
    table: &'a [Vec<u8>],
    index: usize,
    prev_memid: i64,
}

impl<'a> RelationMemberIter<'a> {
    #[verifier::type_invariant]
    spec fn inv(self) -> bool {
        &&& self.index <= self.memids@.len()
        &&& self.prev_memid == running_sum(0, self.memids@, self.index as int)
    }

    /// The delta-encoded member ids.
    pub closed spec fn memids(&self) -> Seq<i64> {
        self.memids@
    }

    /// The members' role string-table indices.
    pub closed spec fn roles(&self) -> Seq<i32> {
        self.roles@
    }

    /// The members' kinds.
    pub closed spec fn types(&self) -> Seq<MemberType> {
        self.types@
    }

    /// The string table that roles resolve through.
    pub closed spec fn table(&self) -> Seq<Seq<u8>> {
        table_view(self.table@)
    }

    /// Index of the next member.
    pub closed spec fn index(&self) -> nat {
        self.index as nat
    }

    /// The members still to be yielded, in order.
    pub open spec fn remaining(&self) -> Seq<(i64, Seq<u8>, MemberType)> {
        member_seq(self.memids(), self.roles(), self.types(), self.table(), self.index() as int)
    }

    /// Whether the next member can be read.
    pub open spec fn readable(&self) -> bool {
        member_readable(self.memids(), self.roles(), self.types(), self.table().len() as int, self.index() as int)
    }

    /// Yields the next member, or `None` at the end of the list or at a
    /// member that cannot be read.
    pub fn next(&mut self) -> (r: Option<RelationMember<'a>>)
        ensures
            old(self).remaining().len() == 0 ==> r is None && final(self).remaining() == old(self).remaining(),
            old(self).remaining().len() > 0 ==> {
                &&& r is Some
                &&& (r.unwrap().spec_id(), r.unwrap().spec_role(), r.unwrap().spec_member_type()) == old(self).remaining()[0]
                &&& final(self).remaining() == old(self).remaining().drop_first()
            },
            final(self).memids() == old(self).memids(),
            final(self).roles() == old(self).roles(),
            final(self).types() == old(self).types(),
            final(self).table() == old(self).table(),
            old(self).readable() ==> {
                &&& final(self).index() == old(self).index() + 1
                &&& r is Some
                &&& r.unwrap().spec_id() == running_sum(0, old(self).memids(), old(self).index() as int + 1)
                &&& r.unwrap().spec_role() == old(self).table()[old(self).roles()[old(self).index() as int] as int]
                &&& r.unwrap().spec_member_type() == old(self).types()[old(self).index() as int]
            },
            !old(self).readable() ==> r is None && final(self).index() == old(self).index(),
    {
        proof {
            use_type_invariant(&*self);
        }
        let i = self.index;
        if i >= self.memids.len() || i >= self.roles.len() || i >= self.types.len() {
            return None;
        }
        let role_sid = self.roles[i];
        if role_sid < 0 || role_sid as usize >= self.table.len() {
            return None;
        }
        let memid = self.prev_memid.wrapping_add(self.memids[i]);
        let role = self.table[role_sid as usize].as_slice();
        let member_type = self.types[i];
        *self = RelationMemberIter {
            memids: self.memids,
            roles: self.roles,
            types: self.types,
            table: self.table,
            index: i + 1,
            prev_memid: memid,
        };
        Some(RelationMember { memid, role, member_type })
    }
}

} // verus!
