use fast_osmpbf::{
    Blob, DecodeError, DenseNodes, ElementBlock, ElementFilter, FilterConfig, FilterError, Node, OsmParser,
    PrimitiveBlock, PrimitiveGroup, MAX_BLOB_SIZE,
};
use std::io::Write;

fn empty_group() -> PrimitiveGroup {
    PrimitiveGroup { nodes: Vec::new(), dense: None, ways: Vec::new(), relations: Vec::new() }
}

fn primitive(strings: &[&str], groups: Vec<PrimitiveGroup>) -> PrimitiveBlock {
    PrimitiveBlock {
        stringtable: strings.iter().map(|s| s.as_bytes().to_vec()).collect(),
        primitivegroup: groups,
        granularity: 100,
        lat_offset: 0,
        lon_offset: 0,
    }
}

fn tagged_nodes() -> PrimitiveBlock {
    let mut g = empty_group();
    g.nodes = vec![Node { id: 1, keys: vec![1, 3, 5], vals: vec![2, 4, 6], lat: 0, lon: 0 }];
    primitive(&["", "name", "Main", "highway", "primary", "oneway", "yes"], vec![g])
}

fn node_tags(cfg: &FilterConfig) -> Vec<(Vec<u8>, Vec<u8>)> {
    let blocks = OsmParser::parse_blob(tagged_nodes(), cfg).unwrap();
    let b = match &blocks[0] {
        ElementBlock::NodeBlock(b) => b,
        _ => panic!("expected a node block"),
    };
    let node = b.iter().next().unwrap();
    let mut tags = node.tags();
    let mut out = Vec::new();
    while let Some((k, v)) = tags.next() {
        out.push((k.to_vec(), v.to_vec()));
    }
    out
}

fn pair(k: &str, v: &str) -> (Vec<u8>, Vec<u8>) {
    (k.as_bytes().to_vec(), v.as_bytes().to_vec())
}

#[test]
fn element_filter_is_write_once() {
    let mut cfg = FilterConfig::new();
    assert_eq!(cfg.element_filter(), None);
    let f = ElementFilter { nodes: true, ways: false, relations: true };
    assert_eq!(cfg.apply_element_filter(f), Ok(()));
    let g = ElementFilter { nodes: false, ways: false, relations: false };
    assert_eq!(cfg.apply_element_filter(g), Err(FilterError::AlreadySet));
    assert_eq!(cfg.element_filter(), Some(f));
}

#[test]
fn tag_filter_is_write_once() {
    let mut cfg = FilterConfig::new();
    assert_eq!(cfg.apply_tag_filter(&["name"]), Ok(()));
    assert_eq!(cfg.apply_tag_filter(&["highway"]), Err(FilterError::AlreadySet));
    assert_eq!(cfg.tag_filter().unwrap(), &vec![b"name".to_vec()]);
}

#[test]
fn tag_filter_rejects_more_than_eight_keys() {
    let mut cfg = FilterConfig::new();
    let keys = ["a", "b", "c", "d", "e", "f", "g", "h", "i"];
    assert_eq!(cfg.apply_tag_filter(&keys), Err(FilterError::TooManyKeys));
    assert!(cfg.tag_filter().is_none());
    assert_eq!(cfg.apply_tag_filter(&keys[..8]), Ok(()));
    assert_eq!(cfg.tag_filter().unwrap().len(), 8);
}

#[test]
fn tag_filter_keeps_each_key_once() {
    let mut cfg = FilterConfig::new();
    cfg.apply_tag_filter(&["name", "name", "oneway"]).unwrap();
    assert_eq!(cfg.tag_filter().unwrap(), &vec![b"name".to_vec(), b"oneway".to_vec()]);
}

#[test]
fn tag_filter_keys_are_sorted() {
    let mut cfg = FilterConfig::new();
    cfg.apply_tag_filter(&["oneway", "name", "highway", "name", "addr:street"]).unwrap();
    let keys: Vec<&[u8]> = cfg.tag_filter().unwrap().iter().map(|k| k.as_slice()).collect();
    assert_eq!(keys, vec![&b"addr:street"[..], b"highway", b"name", b"oneway"]);
}

#[test]
fn tag_filter_admits_only_filter_keys() {
    let mut cfg = FilterConfig::new();
    cfg.apply_tag_filter(&["oneway", "name"]).unwrap();
    assert_eq!(node_tags(&cfg), vec![pair("name", "Main"), pair("oneway", "yes")]);
}

#[test]
fn no_or_empty_tag_filter_yields_every_tag() {
    let all = vec![pair("name", "Main"), pair("highway", "primary"), pair("oneway", "yes")];
    assert_eq!(node_tags(&FilterConfig::new()), all);
    let mut empty = FilterConfig::new();
    empty.apply_tag_filter(&[]).unwrap();
    assert_eq!(node_tags(&empty), all);
}

#[test]
fn has_all_filter_keys_follows_the_filter() {
    let has_all = |keys: &[&str]| {
        let mut cfg = FilterConfig::new();
        cfg.apply_tag_filter(keys).unwrap();
        let blocks = OsmParser::parse_blob(tagged_nodes(), &cfg).unwrap();
        match &blocks[0] {
            ElementBlock::NodeBlock(b) => b.iter().next().unwrap().tags().has_all_filter_keys(),
            _ => panic!("expected a node block"),
        }
    };
    assert!(has_all(&["name", "oneway"]));
    assert!(has_all(&["name", "highway", "oneway"]));
    assert!(!has_all(&["name", "surface"]));
    assert!(!has_all(&[]));
}

#[test]
fn malformed_dense_terminator() {
    let offsets = OsmParser::compute_offsets(&[1, 2, 1, 3], 2);
    assert_eq!(offsets, vec![0, 4, 4]);
    let mut g = empty_group();
    g.dense = Some(DenseNodes { id: vec![1, 1], lat: vec![0, 0], lon: vec![0, 0], keys_vals: vec![1, 2, 1, 3] });
    let blocks = OsmParser::parse_blob(primitive(&["", "a", "b", "c"], vec![g]), &FilterConfig::new()).unwrap();
    let b = match &blocks[0] {
        ElementBlock::DenseNodeBlock(b) => b,
        _ => panic!("expected a dense block"),
    };
    let mut it = b.iter();
    let first = it.next().unwrap();
    let mut tags = first.tags();
    assert_eq!(tags.next(), Some((&b"a"[..], &b"b"[..])));
    assert_eq!(tags.next(), Some((&b"a"[..], &b"c"[..])));
    assert_eq!(tags.next(), None);
    let second = it.next().unwrap();
    assert_eq!(second.tags().len(), 0);
    assert!(it.next().is_none());
}

#[test]
fn dense_offsets_cover_terminated_runs() {
    assert_eq!(OsmParser::compute_offsets(&[1, 2, 0, 3, 4, 5, 6, 0, 0], 3), vec![0, 3, 8, 9]);
    assert_eq!(OsmParser::compute_offsets(&[], 2), vec![0, 0, 0]);
    assert_eq!(OsmParser::compute_offsets(&[1, 2, 1], 1), vec![0, 2]);
    assert_eq!(OsmParser::compute_offsets(&[1, 2, 1], 2), vec![0, 2, 2]);
    assert_eq!(OsmParser::compute_offsets(&[1, 2, 3, 4], 1), vec![0, 4]);
}

#[test]
fn out_of_table_tag_ends_iteration() {
    let mut g = empty_group();
    g.nodes = vec![Node { id: 1, keys: vec![1, 9, 1], vals: vec![2, 2, 2], lat: 0, lon: 0 }];
    let blocks = OsmParser::parse_blob(primitive(&["", "k", "v"], vec![g]), &FilterConfig::new()).unwrap();
    match &blocks[0] {
        ElementBlock::NodeBlock(b) => assert_eq!(b.iter().next().unwrap().tags().len(), 1),
        _ => panic!("expected a node block"),
    }
}

#[test]
fn tag_ids_are_the_filter_key_indices() {
    let table: Vec<Vec<u8>> = ["", "name", "x", "name", "oneway"].iter().map(|s| s.as_bytes().to_vec()).collect();
    let keys = vec![b"oneway".to_vec(), b"name".to_vec()];
    assert_eq!(OsmParser::get_tag_ids(&table, &keys), vec![1, 3, 4]);
    assert!(OsmParser::get_tag_ids(&table, &[]).is_empty());
}

#[test]
fn mismatched_dense_columns_are_refused() {
    let mut g = empty_group();
    g.dense = Some(DenseNodes { id: vec![1, 2], lat: vec![0], lon: vec![0, 0], keys_vals: vec![] });
    let r = OsmParser::parse_blob(primitive(&[""], vec![g]), &FilterConfig::new());
    assert!(matches!(r, Err(DecodeError::MalformedDense)));

    let mut g = empty_group();
    g.dense = Some(DenseNodes { id: vec![1, 2], lat: vec![0], lon: vec![0, 0], keys_vals: vec![] });
    let mut cfg = FilterConfig::new();
    cfg.apply_element_filter(ElementFilter { nodes: false, ways: true, relations: true }).unwrap();
    assert!(OsmParser::parse_blob(primitive(&[""], vec![g]), &cfg).unwrap().is_empty());
}

fn blob() -> Blob {
    Blob { raw_size: None, raw: None, zlib_data: None, lzma_data: None }
}

#[test]
fn raw_blob_passes_through() {
    let mut b = blob();
    b.raw = Some(vec![1, 2, 3]);
    assert_eq!(OsmParser::decompress_blob(b), Ok(vec![1, 2, 3]));
}

#[test]
fn zlib_blob_is_inflated() {
    let payload: Vec<u8> = (0..2000u32).map(|i| (i % 7) as u8).collect();
    let mut enc = flate2::write::ZlibEncoder::new(Vec::new(), flate2::Compression::default());
    enc.write_all(&payload).unwrap();
    let mut b = blob();
    b.raw_size = Some(payload.len() as i32);
    b.zlib_data = Some(enc.finish().unwrap());
    assert_eq!(OsmParser::decompress_blob(b), Ok(payload));
}

#[test]
fn xz_blob_is_decompressed() {
    let payload: Vec<u8> = (0..3000u32).map(|i| (i % 11) as u8).collect();
    let mut enc = xz2::write::XzEncoder::new(Vec::new(), 6);
    enc.write_all(&payload).unwrap();
    let mut b = blob();
    b.lzma_data = Some(enc.finish().unwrap());
    assert_eq!(OsmParser::decompress_blob(b), Ok(payload));
}

#[test]
fn corrupt_payload_fails_decompression() {
    let mut b = blob();
    b.zlib_data = Some(vec![0xde, 0xad, 0xbe, 0xef]);
    assert_eq!(OsmParser::decompress_blob(b), Err(DecodeError::Decompression));
    let mut b = blob();
    b.lzma_data = Some(vec![1, 2, 3]);
    assert_eq!(OsmParser::decompress_blob(b), Err(DecodeError::Decompression));
}

#[test]
fn blob_without_payload_is_empty() {
    assert_eq!(OsmParser::decompress_blob(blob()), Err(DecodeError::EmptyBlob));
}

#[test]
fn capacity_hint_prefers_raw_size() {
    assert_eq!(OsmParser::capacity_hint(Some(1234), 10), 1234);
    assert_eq!(OsmParser::capacity_hint(None, 10), 20);
    assert_eq!(OsmParser::capacity_hint(Some(-5), 10), 20);
    assert_eq!(OsmParser::capacity_hint(Some(i32::MAX), 10), MAX_BLOB_SIZE);
}
