//! Streaming reader core for OpenStreetMap PBF data: delta decoding, blob
//! framing decisions, blob decompression, columnar element blocks with lazy
//! iterators, and tag / element-kind filters.
use vstd::prelude::*;

pub mod columns;
pub mod delta;
pub mod element;
pub mod filter;
pub mod framer;
pub mod offsets;
pub mod osm;
pub mod parser;
pub mod tags;

pub use delta::{decode_deltas, delta_decode_i64, delta_decode_lanes, delta_decode_scalar};
pub use element::{
    BlockKind, BlockTable, DenseNodeBlock, DenseNodeIter, DenseNodeRef, ElementBlock, ElementFilter, NodeBlock,
    NodeIdIter, NodeIter, NodeRef, RelationBlock, RelationIter, RelationMember, RelationMemberIter, RelationRef,
    WayBlock, WayIter, WayRef,
};
pub use filter::{FilterConfig, FilterError, MAX_TAGS};
pub use framer::{frame_action, grown_len, header_size, BlobHeader, FrameAction, FrameError, MAX_HEADER_SIZE};
pub use osm::{DenseNodes, MemberType, Node, PrimitiveBlock, PrimitiveGroup, Relation, Way};
pub use parser::{Blob, DecodeError, OsmParser, MAX_BLOB_SIZE};
pub use tags::{DenseNodeTagIter, TagIter};

verus! {

} // verus!
