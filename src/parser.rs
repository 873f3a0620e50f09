//! Turns blob payloads into element blocks: decompression, the tag-key id
//! cache, dense run boundaries and per-group block assembly.
use std::io::Read;
use std::sync::Arc;
use vstd::prelude::*;

use crate::element::{
    dense_wf, kind_of, BlockKind, BlockTable, DenseNodeBlock, ElementBlock, ElementFilter,
    NodeBlock, RelationBlock, WayBlock,
};
use crate::filter::{contains_key, FilterConfig};
use crate::offsets::{kv_offsets_of, lemma_kv_offsets_shape, run_end};
use crate::osm::{DenseNodes, PrimitiveBlock, PrimitiveGroup};
use crate::tags::{in_ids, is_tag_id_set, table_view};

verus! {

/// Largest decompressed block size that is preallocated for.
pub const MAX_BLOB_SIZE: usize = 32 * 1024 * 1024;

/// A blob: one payload, raw or compressed, with the size it decompresses to.
pub struct Blob {
    pub raw_size: Option<i32>,
    pub raw: Option<Vec<u8>>,
    pub zlib_data: Option<Vec<u8>>,
    pub lzma_data: Option<Vec<u8>>,
}

/// Why a blob could not be decoded.
#[derive(Clone, Copy, Debug, PartialEq, Eq, Structural)]
pub enum DecodeError {
    /// The blob carries no payload.
    EmptyBlob,
    /// The compressed payload is corrupt.
    Decompression,
    /// A dense-node group whose id, lat and lon columns differ in length.
    MalformedDense,
}

/// The bytes a zlib stream decompresses to; `None` for a corrupt stream.
pub uninterp spec fn zlib_inflated(data: Seq<u8>) -> Option<Seq<u8>>;

/// The bytes an xz stream decompresses to; `None` for a corrupt stream.
pub uninterp spec fn xz_decompressed(data: Seq<u8>) -> Option<Seq<u8>>;

/// Relies on flate2's `ZlibDecoder`, read to the end: the decompressed bytes
/// of the zlib stream, or an error for a corrupt one.
#[verifier::external_body]
fn inflate_zlib(data: &[u8], capacity: usize) -> (r: Option<Vec<u8>>)
    ensures
        r matches Some(v) ==> zlib_inflated(data@) == Some(v@),
        r is None ==> zlib_inflated(data@) is None,
{
    let mut out = Vec::with_capacity(capacity);
    let mut decoder = flate2::read::ZlibDecoder::new(data);
    decoder.read_to_end(&mut out).ok().map(|_| out)
}

/// Relies on xz2's `XzDecoder`, read to the end: the decompressed bytes of
/// the xz stream, or an error for a corrupt one.
#[verifier::external_body]
fn inflate_xz(data: &[u8], capacity: usize) -> (r: Option<Vec<u8>>)
    ensures
        r matches Some(v) ==> xz_decompressed(data@) == Some(v@),
        r is None ==> xz_decompressed(data@) is None,
{
    let mut out = Vec::with_capacity(capacity);
    let mut decoder = xz2::read::XzDecoder::new(data);
    decoder.read_to_end(&mut out).ok().map(|_| out)
}

/// The payload a blob decodes to: the raw bytes, else the decompressed zlib
/// data, else the decompressed xz data.
pub open spec fn payload_of(b: Blob) -> Result<Seq<u8>, DecodeError> {
    if b.raw is Some {
        Ok(b.raw.unwrap()@)
    } else if b.zlib_data is Some {
        match zlib_inflated(b.zlib_data.unwrap()@) {
            Some(o) => Ok(o),
            None => Err(DecodeError::Decompression),
        }
    } else if b.lzma_data is Some {
        match xz_decompressed(b.lzma_data.unwrap()@) {
            Some(o) => Ok(o),
            None => Err(DecodeError::Decompression),
        }
    } else {
        Err(DecodeError::EmptyBlob)
    }
}

/// Preallocation for a payload: the declared raw size, else twice the
/// compressed size, each capped.
pub open spec fn capacity_for(raw_size: Option<i32>, compressed_len: int) -> int {
    match raw_size {
        Some(n) if n >= 0 => if n <= MAX_BLOB_SIZE { n as int } else { MAX_BLOB_SIZE as int },
        _ => if compressed_len <= MAX_BLOB_SIZE { 2 * compressed_len } else { 2 * MAX_BLOB_SIZE },
    }
}

/// Whether a block of kind `k` passes the element-kind filter `f`.
pub open spec fn kind_admitted(k: BlockKind, f: Option<ElementFilter>) -> bool {
    match f {
        None => true,
        Some(f) => match k {
            BlockKind::DenseNode => f.nodes,
            BlockKind::Node => f.nodes,
            BlockKind::Way => f.ways,
            BlockKind::Relation => f.relations,
        },
    }
}

/// The blocks that group `g` (at position `i`) yields under filter `f`, by
/// group position and kind: its dense nodes, nodes, ways and relations, each
/// when present and admitted.
pub open spec fn group_emits(g: PrimitiveGroup, f: Option<ElementFilter>, i: int) -> Seq<(int, BlockKind)> {
    let s0 = Seq::<(int, BlockKind)>::empty();
    let s1 = if g.dense is Some && kind_admitted(BlockKind::DenseNode, f) {
        s0.push((i, BlockKind::DenseNode))
    } else {
        s0
    };
    let s2 = if g.nodes@.len() > 0 && kind_admitted(BlockKind::Node, f) {
        s1.push((i, BlockKind::Node))
    } else {
        s1
    };
    let s3 = if g.ways@.len() > 0 && kind_admitted(BlockKind::Way, f) {
        s2.push((i, BlockKind::Way))
    } else {
        s2
    };
    if g.relations@.len() > 0 && kind_admitted(BlockKind::Relation, f) {
        s3.push((i, BlockKind::Relation))
    } else {
        s3
    }
}

/// The blocks that the groups `gs` yield under filter `f`, in order.
pub open spec fn emitted(gs: Seq<PrimitiveGroup>, f: Option<ElementFilter>) -> Seq<(int, BlockKind)>
    decreases gs.len(),
{
    if gs.len() == 0 {
        Seq::empty()
    } else {
        emitted(gs.drop_last(), f) + group_emits(gs.last(), f, gs.len() - 1)
    }
}

/// Whether dense columns have one latitude and longitude per id.
pub open spec fn dense_columns_ok(d: DenseNodes) -> bool {
    d.lat@.len() == d.id@.len() && d.lon@.len() == d.id@.len()
}

/// Whether group `g` holds dense nodes that are decoded under `f` but whose
/// columns do not line up.
pub open spec fn bad_dense(g: PrimitiveGroup, f: Option<ElementFilter>) -> bool {
    g.dense is Some && kind_admitted(BlockKind::DenseNode, f) && !dense_columns_ok(g.dense.unwrap())
}

/// The shared string table of the blocks of one primitive block: its
/// strings, the ids of the tag-filter keys among them (none without a tag
/// filter), and the filter's size.
pub open spec fn table_built(t: BlockTable, table: Seq<Seq<u8>>, keys: Option<Seq<Seq<u8>>>) -> bool {
    &&& t.strings() == table
    &&& match keys {
        Some(k) => is_tag_id_set(t.ids(), table, k) && t.filter_len() == Some(k.len() as usize),
        None => t.ids().len() == 0 && t.filter_len() is None,
    }
}

/// Whether block `b` is the block of kind `k` of group `g`, over the block
/// table described by `table` and `keys`, with coordinate scaling `scale`.
pub open spec fn built_from(
    b: ElementBlock,
    k: BlockKind,
    g: PrimitiveGroup,
    table: Seq<Seq<u8>>,
    keys: Option<Seq<Seq<u8>>>,
    scale: (i64, i64, i64),
) -> bool {
    &&& kind_of(b) == k
    &&& match b {
        ElementBlock::DenseNodeBlock(d) => {
            &&& g.dense == Some(d.data())
            &&& d.scale() == scale
            &&& table_built(d.table(), table, keys)
            &&& d.kv_offsets().len() == d.data().id@.len() + 1
            &&& forall|i: int| 0 <= i < d.kv_offsets().len() ==>
                #[trigger] d.kv_offsets()[i] == kv_offsets_of(d.data().keys_vals@, d.data().id@.len())[i]
        },
        ElementBlock::NodeBlock(n) => n.data() == g.nodes@ && n.scale() == scale && table_built(n.table(), table, keys),
        ElementBlock::WayBlock(w) => w.data() == g.ways@ && table_built(w.table(), table, keys),
        ElementBlock::RelationBlock(r) => r.data() == g.relations@ && table_built(r.table(), table, keys),
    }
}

/// Whether `out` are the blocks listed in `em`, built from the groups `gs`.
pub open spec fn blocks_built(
    out: Seq<ElementBlock>,
    em: Seq<(int, BlockKind)>,
    gs: Seq<PrimitiveGroup>,
    table: Seq<Seq<u8>>,
    keys: Option<Seq<Seq<u8>>>,
    scale: (i64, i64, i64),
) -> bool {
    &&& out.len() == em.len()
    &&& forall|j: int| 0 <= j < out.len() ==> 0 <= #[trigger] em[j].0 < gs.len()
    &&& forall|j: int| 0 <= j < out.len() ==> built_from(#[trigger] out[j], em[j].1, gs[em[j].0], table, keys, scale)
}

fn kind_allowed(f: Option<ElementFilter>, k: BlockKind) -> (r: bool)
    ensures
        r == kind_admitted(k, f),
{
    match f {
        None => true,
        Some(f) => match k {
            BlockKind::DenseNode => f.nodes,
            BlockKind::Node => f.nodes,
            BlockKind::Way => f.ways,
            BlockKind::Relation => f.relations,
        },
    }
}

/// Decoding of blob payloads into element blocks.
pub struct OsmParser;

impl OsmParser {
    /// Decompresses a blob: its raw bytes, else its zlib data, else its xz
    /// data. Fails with [`DecodeError::EmptyBlob`] when it has no payload and
    /// with [`DecodeError::Decompression`] when the payload is corrupt.
    pub fn decompress_blob(blob: Blob) -> (r: Result<Vec<u8>, DecodeError>)
        ensures
            match r {
                Ok(v) => payload_of(blob) == Ok::<Seq<u8>, DecodeError>(v@),
                Err(e) => payload_of(blob) == Err::<Seq<u8>, DecodeError>(e),
            },
    {
        let ghost b = blob;
        let Blob { raw_size, raw, zlib_data, lzma_data } = blob;
        match raw {
            Some(v) => {
                return Ok(v);
            },
            None => {},
        }
        match zlib_data {
            Some(z) => {
                let cap = Self::capacity_hint(raw_size, z.len());
                return match inflate_zlib(z.as_slice(), cap) {
                    Some(v) => Ok(v),
                    None => Err(DecodeError::Decompression),
                };
            },
            None => {},
        }
        match lzma_data {
            Some(z) => {
                let cap = Self::capacity_hint(raw_size, z.len());
                match inflate_xz(z.as_slice(), cap) {
                    Some(v) => Ok(v),
                    None => Err(DecodeError::Decompression),
                }
            },
            None => Err(DecodeError::EmptyBlob),
        }
    }

    /// Buffer size to preallocate for a decompressed payload: the declared
    /// raw size when there is one (at most [`MAX_BLOB_SIZE`]), else twice
    /// the compressed size.
    pub fn capacity_hint(raw_size: Option<i32>, compressed_len: usize) -> (r: usize)
        ensures
            r == capacity_for(raw_size, compressed_len as int),
    {
        match raw_size {
            Some(n) if n >= 0 => {
                if n as usize <= MAX_BLOB_SIZE {
                    n as usize
                } else {
                    MAX_BLOB_SIZE
                }
            },
            _ => {
                if compressed_len <= MAX_BLOB_SIZE {
                    2 * compressed_len
                } else {
                    2 * MAX_BLOB_SIZE
                }
            },
        }
    }

    /// The indices of the strings of `table` that equal one of `keys`, in
    /// increasing order (indices past `u32::MAX` cannot be tag keys and are
    /// not scanned).
    pub fn get_tag_ids(table: &[Vec<u8>], keys: &[Vec<u8>]) -> (r: Vec<u32>)
        ensures
            is_tag_id_set(r@, table_view(table@), table_view(keys@)),
    {
        let ghost t = table_view(table@);
        let ghost k = table_view(keys@);
        proof {
            assert(t.len() == table@.len());
        }
        let mut ids: Vec<u32> = Vec::new();
        let mut i: usize = 0;
        let last: usize = u32::MAX as usize;
        while i < table.len() && i <= last
            invariant
                last == u32::MAX,
                t == table_view(table@),
                t.len() == table@.len(),
                k == table_view(keys@),
                0 <= i <= table@.len(),
                forall|j: int| 0 <= j < ids@.len() ==> #[trigger] ids@[j] < i && k.contains(t[ids@[j] as int]),
                forall|x: int| 0 <= x < i && x <= u32::MAX && k.contains(#[trigger] t[x]) ==> in_ids(x, ids@),
                forall|a: int, b: int| 0 <= a < b < ids@.len() ==> ids@[a] < ids@[b],
            decreases table@.len() - i,
        {
            if contains_key(keys, table[i].as_slice()) {
                let ghost before = ids@;
                ids.push(i as u32);
                proof {
                    assert(t[i as int] == table@[i as int]@);
                    assert(ids@ == before.push(i as u32));
                    assert(ids@.len() == before.len() + 1);
                    assert(ids@[before.len() as int] == i as u32);
                    assert(ids@[before.len() as int] as int == i as int);
                    assert(k.contains(t[i as int]));
                    assert(forall|j: int| 0 <= j < before.len() ==> ids@[j] == before[j]);
                    assert forall|j: int| 0 <= j < ids@.len() implies #[trigger] ids@[j] < i + 1 && k.contains(t[ids@[j] as int]) by {
                        if j < before.len() {
                            assert(ids@[j] == before[j]);
                        }
                    }
                    assert forall|a: int, b: int| 0 <= a < b < ids@.len() implies ids@[a] < ids@[b] by {
                        assert(ids@[a] == before[a]);
                        if b < before.len() {
                            assert(ids@[b] == before[b]);
                        }
                    }
                    assert forall|x: int| 0 <= x < i + 1 && x <= u32::MAX && k.contains(#[trigger] t[x]) implies in_ids(x, ids@) by {
                        if x < i {
                            let j = choose|j: int| 0 <= j < before.len() && before[j] as int == x;
                            assert(ids@[j] == before[j]);
                        } else {
                            assert(ids@[before.len() as int] as int == x);
                        }
                    }
                }
            }
            i += 1;
        }
        proof {
            assert forall|x: int| 0 <= x < t.len() && x <= u32::MAX && k.contains(#[trigger] t[x]) implies in_ids(x, ids@) by {
                assert(x < i);
            }
        }
        ids
    }

    /// Computes the run boundaries of `node_count` dense nodes over the
    /// interleaved stream `keys_vals`: `[0, end of run 0, end of run 1, ...]`.
    /// A missing terminator ends the run after its last whole pair.
    pub fn compute_offsets(keys_vals: &[i32], node_count: usize) -> (r: Vec<usize>)
        ensures
            r@.len() == node_count + 1,
            kv_offsets_of(keys_vals@, node_count as nat).len() == node_count + 1,
            forall|i: int| 0 <= i < r@.len() ==> r@[i] as int == #[trigger] kv_offsets_of(keys_vals@, node_count as nat)[i],
    {
        let ghost kv = keys_vals@;
        let mut offsets: Vec<usize> = Vec::new();
        offsets.push(0);
        let len = keys_vals.len();
        let mut idx: usize = 0;
        let mut node: usize = 0;
        while node < node_count
            invariant
                kv == keys_vals@,
                len == kv.len(),
                0 <= node <= node_count,
                offsets@.len() == node + 1,
                kv_offsets_of(kv, node as nat).len() == node + 1,
                idx as int == kv_offsets_of(kv, node as nat).last(),
                forall|i: int| 0 <= i < offsets@.len() ==> offsets@[i] as int == #[trigger] kv_offsets_of(kv, node as nat)[i],
            decreases node_count - node,
        {
            proof {
                lemma_kv_offsets_shape(kv, node as nat);
            }
            let ghost start = idx as int;
            while idx < len && keys_vals[idx] != 0 && len - idx >= 2
                invariant
                    kv == keys_vals@,
                    len == kv.len(),
                    idx <= len,
                    run_end(kv, idx as int) == run_end(kv, start),
                decreases len - idx,
            {
                idx += 2;
            }
            if idx < len && keys_vals[idx] == 0 {
                idx += 1;
            }
            offsets.push(idx);
            proof {
                let prev = kv_offsets_of(kv, node as nat);
                assert(kv_offsets_of(kv, (node + 1) as nat) == prev.push(run_end(kv, prev.last())));
            }
            node += 1;
        }
        offsets
    }

    /// Builds the element blocks of a decoded primitive block, in group
    /// order: for each group its dense nodes, nodes, ways and relations, each
    /// when present and admitted by the element-kind filter. All blocks share
    /// the block's string table and the ids of its tag-filter keys. Fails
    /// with [`DecodeError::MalformedDense`] when an admitted dense group has
    /// id, lat and lon columns of different lengths.
    pub fn parse_blob(block: PrimitiveBlock, config: &FilterConfig) -> (r: Result<Vec<ElementBlock>, DecodeError>)
        ensures
            r is Err <==> exists|j: int|
                0 <= j < block.primitivegroup@.len() && bad_dense(#[trigger] block.primitivegroup@[j], config.element()),
            r matches Err(e) ==> e == DecodeError::MalformedDense,
            r matches Ok(v) ==> blocks_built(
                v@,
                emitted(block.primitivegroup@, config.element()),
                block.primitivegroup@,
                table_view(block.stringtable@),
                config.tag_keys(),
                (block.granularity, block.lat_offset, block.lon_offset),
            ),
    {
        let ghost gs = block.primitivegroup@;
        let ghost table = table_view(block.stringtable@);
        let ghost keys = config.tag_keys();
        let ghost f = config.element();
        let ghost scale = (block.granularity, block.lat_offset, block.lon_offset);
        let PrimitiveBlock { stringtable, primitivegroup, granularity, lat_offset, lon_offset } = block;
        let (ids, filter_len) = match config.tag_filter() {
            Some(k) => (Self::get_tag_ids(stringtable.as_slice(), k.as_slice()), Some(k.len())),
            None => (Vec::new(), None),
        };
        let shared = BlockTable::new(Arc::new(stringtable), Arc::new(ids), filter_len);
        let element_filter = config.element_filter();
        let total = primitivegroup.len();
        let mut groups = primitivegroup;
        let mut out: Vec<ElementBlock> = Vec::new();
        let mut i: usize = 0;
        #[verifier::loop_isolation(false)]
        while groups.len() > 0
            invariant
                groups@ == gs.skip(i as int),
                0 <= i <= gs.len(),
                total == gs.len(),
                table_built(shared, table, keys),
                element_filter == f,
                scale == (granularity, lat_offset, lon_offset),
                forall|j: int| 0 <= j < i ==> !bad_dense(#[trigger] gs[j], f),
                blocks_built(out@, emitted(gs.take(i as int), f), gs, table, keys, scale),
            decreases groups@.len(),
        {
            proof {
                assert(gs.skip(i as int).len() > 0);
            }
            let g = groups.remove(0);
            proof {
                assert(g == gs[i as int]);
                assert(groups@ =~= gs.skip(i + 1));
            }
            let ghost em0 = emitted(gs.take(i as int), f);
            let ghost mut local = Seq::<(int, BlockKind)>::empty();
            let ghost mut em = em0;
            let PrimitiveGroup { nodes, dense, ways, relations } = g;
            match dense {
                Some(d) => {
                    if kind_allowed(element_filter, BlockKind::DenseNode) {
                        if d.lat.len() != d.id.len() || d.lon.len() != d.id.len() {
                            proof {
                                assert(bad_dense(gs[i as int], f));
                                assert(exists|j: int| 0 <= j < gs.len() && bad_dense(#[trigger] gs[j], f));
                            }
                            return Err(DecodeError::MalformedDense);
                        }
                        let n = d.id.len();
                        let offs = Self::compute_offsets(d.keys_vals.as_slice(), n);
                        proof {
                            lemma_kv_offsets_shape(d.keys_vals@, n as nat);
                            assert forall|x: int| 0 <= x < n implies offs@[x] <= #[trigger] offs@[x + 1] <= d.keys_vals@.len() by {
                                assert(offs@[x] as int == kv_offsets_of(d.keys_vals@, n as nat)[x]);
                                assert(offs@[x + 1] as int == kv_offsets_of(d.keys_vals@, n as nat)[x + 1]);
                            }
                            assert(offs@[0] as int == kv_offsets_of(d.keys_vals@, n as nat)[0]);
                        }
                        let b = ElementBlock::DenseNodeBlock(DenseNodeBlock::new(d, shared.share(), granularity, lat_offset, lon_offset, offs));
                        proof {
                            lemma_blocks_built_push(out@, em, gs, table, keys, scale, b, (i as int, BlockKind::DenseNode));
                            local = local.push((i as int, BlockKind::DenseNode));
                            em = em.push((i as int, BlockKind::DenseNode));
                        }
                        out.push(b);
                    }
                },
                None => {},
            }
            if nodes.len() > 0 && kind_allowed(element_filter, BlockKind::Node) {
                let b = ElementBlock::NodeBlock(NodeBlock::new(nodes, shared.share(), granularity, lat_offset, lon_offset));
                proof {
                    lemma_blocks_built_push(out@, em, gs, table, keys, scale, b, (i as int, BlockKind::Node));
                    local = local.push((i as int, BlockKind::Node));
                    em = em.push((i as int, BlockKind::Node));
                }
                out.push(b);
            }
            if ways.len() > 0 && kind_allowed(element_filter, BlockKind::Way) {
                let b = ElementBlock::WayBlock(WayBlock::new(ways, shared.share()));
                proof {
                    lemma_blocks_built_push(out@, em, gs, table, keys, scale, b, (i as int, BlockKind::Way));
                    local = local.push((i as int, BlockKind::Way));
                    em = em.push((i as int, BlockKind::Way));
                }
                out.push(b);
            }
            if relations.len() > 0 && kind_allowed(element_filter, BlockKind::Relation) {
                let b = ElementBlock::RelationBlock(RelationBlock::new(relations, shared.share()));
                proof {
                    lemma_blocks_built_push(out@, em, gs, table, keys, scale, b, (i as int, BlockKind::Relation));
                    local = local.push((i as int, BlockKind::Relation));
                    em = em.push((i as int, BlockKind::Relation));
                }
                out.push(b);
            }
            proof {
                assert(gs.take(i + 1).drop_last() =~= gs.take(i as int));
                assert(gs.take(i + 1).last() == gs[i as int]);
                assert(local =~= group_emits(gs[i as int], f, i as int));
                assert(em =~= em0 + local);
                assert(emitted(gs.take(i + 1), f) == em0 + group_emits(gs[i as int], f, i as int));
            }
            i += 1;
        }
        proof {
            assert(gs.skip(i as int).len() == 0);
            assert(gs.take(i as int) =~= gs);
        }
        Ok(out)
    }
}

proof fn lemma_blocks_built_push(
    out: Seq<ElementBlock>,
    em: Seq<(int, BlockKind)>,
    gs: Seq<PrimitiveGroup>,
    table: Seq<Seq<u8>>,
    keys: Option<Seq<Seq<u8>>>,
    scale: (i64, i64, i64),
    b: ElementBlock,
    e: (int, BlockKind),
)
    requires
        blocks_built(out, em, gs, table, keys, scale),
        0 <= e.0 < gs.len(),
        built_from(b, e.1, gs[e.0], table, keys, scale),
    ensures
        blocks_built(out.push(b), em.push(e), gs, table, keys, scale),
{
    let o2 = out.push(b);
    let e2 = em.push(e);
    assert forall|j: int| 0 <= j < o2.len() implies 0 <= #[trigger] e2[j].0 < gs.len() by {
        if j < out.len() {
            assert(e2[j] == em[j]);
        }
    }
    assert forall|j: int| 0 <= j < o2.len() implies built_from(#[trigger] o2[j], e2[j].1, gs[e2[j].0], table, keys, scale) by {
        if j < out.len() {
            assert(o2[j] == out[j]);
            assert(e2[j] == em[j]);
        }
    }
}

proof fn lemma_emitted_admitted(gs: Seq<PrimitiveGroup>, f: Option<ElementFilter>)
    ensures
        forall|j: int| 0 <= j < emitted(gs, f).len() ==> kind_admitted((#[trigger] emitted(gs, f)[j]).1, f),
    decreases gs.len(),
{
    if gs.len() > 0 {
        lemma_emitted_admitted(gs.drop_last(), f);
        let a = emitted(gs.drop_last(), f);
        let b = group_emits(gs.last(), f, gs.len() - 1);
        assert forall|j: int| 0 <= j < emitted(gs, f).len() implies kind_admitted((#[trigger] emitted(gs, f)[j]).1, f) by {
            if j >= a.len() {
                assert(emitted(gs, f)[j] == b[j - a.len()]);
            } else {
                assert(emitted(gs, f)[j] == a[j]);
            }
        }
    }
}

/// Element-kind filter: every block built from groups `gs` under filter `f`
/// is of a kind that `f` admits. With `nodes` off no dense-node or node block
/// is built, with `ways` off no way block, with `relations` off no relation
/// block. (That each present component of an admitted kind still yields one
/// block, in group order, is what `emitted` lists.)
pub proof fn lemma_kind_filter(
    out: Seq<ElementBlock>,
    gs: Seq<PrimitiveGroup>,
    f: Option<ElementFilter>,
    table: Seq<Seq<u8>>,
    keys: Option<Seq<Seq<u8>>>,
    scale: (i64, i64, i64),
)
    requires
        blocks_built(out, emitted(gs, f), gs, table, keys, scale),
    ensures
        forall|j: int| 0 <= j < out.len() ==> kind_admitted(kind_of(#[trigger] out[j]), f),
        f matches Some(ff) && !ff.nodes ==> forall|j: int|
            0 <= j < out.len() ==> kind_of(#[trigger] out[j]) != BlockKind::DenseNode && kind_of(out[j]) != BlockKind::Node,
        f matches Some(ff) && !ff.ways ==> forall|j: int| 0 <= j < out.len() ==> kind_of(#[trigger] out[j]) != BlockKind::Way,
        f matches Some(ff) && !ff.relations ==> forall|j: int|
            0 <= j < out.len() ==> kind_of(#[trigger] out[j]) != BlockKind::Relation,
{
    lemma_emitted_admitted(gs, f);
    assert forall|j: int| 0 <= j < out.len() implies kind_admitted(kind_of(#[trigger] out[j]), f) by {
        assert(built_from(out[j], emitted(gs, f)[j].1, gs[emitted(gs, f)[j].0], table, keys, scale));
        assert(kind_admitted(emitted(gs, f)[j].1, f));
    }
}

} // verus!
