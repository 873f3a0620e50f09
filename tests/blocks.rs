use fast_osmpbf::{
    BlockKind, DenseNodes, ElementBlock, ElementFilter, FilterConfig, MemberType, Node, OsmParser, PrimitiveBlock,
    PrimitiveGroup, Relation, Way,
};

fn table(strings: &[&str]) -> Vec<Vec<u8>> {
    strings.iter().map(|s| s.as_bytes().to_vec()).collect()
}

fn empty_group() -> PrimitiveGroup {
    PrimitiveGroup { nodes: Vec::new(), dense: None, ways: Vec::new(), relations: Vec::new() }
}

fn primitive(strings: &[&str], groups: Vec<PrimitiveGroup>) -> PrimitiveBlock {
    PrimitiveBlock { stringtable: table(strings), primitivegroup: groups, granularity: 100, lat_offset: 0, lon_offset: 0 }
}

fn single_dense() -> PrimitiveBlock {
    let mut g = empty_group();
    g.dense = Some(DenseNodes { id: vec![42], lat: vec![515000000], lon: vec![134000000], keys_vals: vec![1, 2, 0] });
    primitive(&["", "name", "main"], vec![g])
}

fn parse(block: PrimitiveBlock, cfg: &FilterConfig) -> Vec<ElementBlock> {
    OsmParser::parse_blob(block, cfg).expect("well-formed block")
}

fn dense_has_all(cfg: &FilterConfig) -> bool {
    let blocks = parse(single_dense(), cfg);
    match &blocks[0] {
        ElementBlock::DenseNodeBlock(b) => {
            let mut it = b.iter();
            let node = it.next().unwrap();
            node.tags().has_all_filter_keys()
        }
        _ => panic!("expected a dense block"),
    }
}

#[test]
fn single_dense_node() {
    let cfg = FilterConfig::new();
    let blocks = parse(single_dense(), &cfg);
    assert_eq!(blocks.len(), 1);
    let b = match &blocks[0] {
        ElementBlock::DenseNodeBlock(b) => b,
        _ => panic!("expected a dense block"),
    };
    assert_eq!(b.len(), 1);
    let mut it = b.iter();
    let mut node = it.next().unwrap();
    assert!(it.next().is_none());
    let mut tags = node.tags();
    let (k, v) = tags.next().unwrap();
    assert_eq!(k, b"name");
    assert_eq!(v, b"main");
    assert!(tags.next().is_none());
    assert_eq!(node.id(), 42);
    let lat = node.lat_nano();
    let lon = node.lon_nano();
    assert_eq!(lat, 51_500_000_000);
    assert_eq!(lon, 13_400_000_000);
    assert!((lat as f64 * 1e-9 - 51.5).abs() < 1e-9);
    assert!((lon as f64 * 1e-9 - 13.4).abs() < 1e-9);
}

#[test]
fn single_dense_node_has_all_filter_keys() {
    let mut exact = FilterConfig::new();
    exact.apply_tag_filter(&["name"]).unwrap();
    assert!(dense_has_all(&exact));

    let mut wider = FilterConfig::new();
    wider.apply_tag_filter(&["name", "highway"]).unwrap();
    assert!(!dense_has_all(&wider));

    let none = FilterConfig::new();
    assert!(!dense_has_all(&none));

    let mut other = FilterConfig::new();
    other.apply_tag_filter(&["highway"]).unwrap();
    assert!(!dense_has_all(&other));

    let mut empty = FilterConfig::new();
    empty.apply_tag_filter(&[]).unwrap();
    assert!(!dense_has_all(&empty));
}

#[test]
fn dense_ids_are_prefix_sums() {
    let mut g = empty_group();
    g.dense = Some(DenseNodes {
        id: vec![100, 1, 1, -50],
        lat: vec![10, 10, 10, 10],
        lon: vec![-5, 0, 5, 0],
        keys_vals: vec![0, 0, 0, 0],
    });
    let blocks = parse(primitive(&[""], vec![g]), &FilterConfig::new());
    let b = match &blocks[0] {
        ElementBlock::DenseNodeBlock(b) => b,
        _ => panic!("expected a dense block"),
    };
    let mut ids = Vec::new();
    let mut lats = Vec::new();
    let mut it = b.iter();
    while let Some(mut n) = it.next() {
        ids.push(n.id());
        lats.push(n.lat_nano());
    }
    assert_eq!(ids, vec![100, 101, 102, 52]);
    assert_eq!(lats, vec![1000, 2000, 3000, 4000]);
    assert_eq!(ids.len(), b.len());
    let (rids, rlats, rlons, keys, vals, offs) = b.get_raw_data();
    assert_eq!(rids, ids);
    assert_eq!(rlats, lats);
    assert_eq!(rlons, vec![-500, -500, 0, 0]);
    assert!(keys.is_empty() && vals.is_empty());
    assert_eq!(offs, vec![0, 0, 0, 0, 0]);
}

#[test]
fn way_with_deltas() {
    let mut g = empty_group();
    g.ways = vec![Way { id: 7, keys: vec![1], vals: vec![2], refs: vec![10, 5, -3, 2] }];
    let blocks = parse(primitive(&["", "highway", "primary"], vec![g]), &FilterConfig::new());
    assert_eq!(blocks.len(), 1);
    assert_eq!(blocks[0].kind(), BlockKind::Way);
    let b = match &blocks[0] {
        ElementBlock::WayBlock(b) => b,
        _ => panic!("expected a way block"),
    };
    let mut it = b.iter();
    let way = it.next().unwrap();
    assert_eq!(way.id(), 7);
    let mut refs = way.node_ids();
    let mut ids = Vec::new();
    while let Some(id) = refs.next() {
        ids.push(id);
    }
    assert_eq!(ids, vec![10, 15, 12, 14]);
    let mut tags = way.tags();
    assert_eq!(tags.next(), Some((&b"highway"[..], &b"primary"[..])));
    assert!(tags.next().is_none());
    assert!(it.next().is_none());
}

#[test]
fn way_columns() {
    let mut g = empty_group();
    g.ways = vec![
        Way { id: 7, keys: vec![1], vals: vec![2], refs: vec![10, 5, -3, 2] },
        Way { id: 8, keys: vec![1, 3], vals: vec![2, 4], refs: vec![1] },
    ];
    let blocks = parse(primitive(&["", "highway", "primary", "name", "x"], vec![g]), &FilterConfig::new());
    let b = match &blocks[0] {
        ElementBlock::WayBlock(b) => b,
        _ => panic!("expected a way block"),
    };
    let (ids, keys, vals, kv_offsets, node_ids, node_offsets) = b.get_raw_data();
    assert_eq!(ids, vec![7, 8]);
    assert_eq!(keys, vec![1, 1, 3]);
    assert_eq!(vals, vec![2, 2, 4]);
    assert_eq!(kv_offsets, vec![0, 1, 3]);
    assert_eq!(node_ids, vec![10, 15, 12, 14, 1]);
    assert_eq!(node_offsets, vec![0, 4, 5]);
}

fn relation_block() -> PrimitiveBlock {
    let mut g = empty_group();
    g.relations = vec![Relation {
        id: 1,
        keys: vec![1],
        vals: vec![2],
        roles_sid: vec![3, 4],
        memids: vec![100, 50],
        types: vec![MemberType::Way, MemberType::Node],
    }];
    primitive(&["", "type", "route", "outer", "stop"], vec![g])
}

#[test]
fn relation_with_roles() {
    let blocks = parse(relation_block(), &FilterConfig::new());
    let b = match &blocks[0] {
        ElementBlock::RelationBlock(b) => b,
        _ => panic!("expected a relation block"),
    };
    let mut it = b.iter();
    let rel = it.next().unwrap();
    assert_eq!(rel.id(), 1);
    let mut members = rel.members();
    let m = members.next().unwrap();
    assert_eq!((m.id(), m.member_type(), m.role()), (100, MemberType::Way, &b"outer"[..]));
    let m = members.next().unwrap();
    assert_eq!((m.id(), m.member_type(), m.role()), (150, MemberType::Node, &b"stop"[..]));
    assert!(members.next().is_none());
    assert_eq!(rel.tags().len(), 1);
}

#[test]
fn relation_columns() {
    let blocks = parse(relation_block(), &FilterConfig::new());
    let b = match &blocks[0] {
        ElementBlock::RelationBlock(b) => b,
        _ => panic!("expected a relation block"),
    };
    let (ids, keys, vals, kv_offsets, member_ids, types, roles, member_offsets) = b.get_raw_data();
    assert_eq!(ids, vec![1]);
    assert_eq!(keys, vec![1]);
    assert_eq!(vals, vec![2]);
    assert_eq!(kv_offsets, vec![0, 1]);
    assert_eq!(member_ids, vec![100, 150]);
    assert_eq!(types, vec![1, 0]);
    assert_eq!(roles, vec![3, 4]);
    assert_eq!(member_offsets, vec![0, 2]);
}

#[test]
fn negative_role_ends_member_list() {
    let mut g = empty_group();
    g.relations = vec![Relation {
        id: 2,
        keys: vec![],
        vals: vec![],
        roles_sid: vec![1, -1, 1],
        memids: vec![5, 5, 5],
        types: vec![MemberType::Relation, MemberType::Node, MemberType::Node],
    }];
    let blocks = parse(primitive(&["", "inner"], vec![g]), &FilterConfig::new());
    let b = match &blocks[0] {
        ElementBlock::RelationBlock(b) => b,
        _ => panic!("expected a relation block"),
    };
    let rel = b.iter().next().unwrap();
    let mut members = rel.members();
    let m = members.next().unwrap();
    assert_eq!((m.id(), m.member_type(), m.role()), (5, MemberType::Relation, &b"inner"[..]));
    assert!(members.next().is_none());
}

#[test]
fn node_block_applies_scaling() {
    let mut g = empty_group();
    g.nodes = vec![
        Node { id: 5, keys: vec![1], vals: vec![2], lat: 10, lon: 20 },
        Node { id: 9, keys: vec![], vals: vec![], lat: 5, lon: -20 },
    ];
    let mut p = primitive(&["", "amenity", "cafe"], vec![g]);
    p.granularity = 1000;
    p.lat_offset = 7;
    p.lon_offset = -7;
    let blocks = parse(p, &FilterConfig::new());
    let b = match &blocks[0] {
        ElementBlock::NodeBlock(b) => b,
        _ => panic!("expected a node block"),
    };
    assert_eq!(b.len(), 2);
    let mut it = b.iter();
    let mut first = it.next().unwrap();
    assert_eq!(first.id(), 5);
    assert_eq!(first.lat_nano(), 10_007);
    assert_eq!(first.lon_nano(), 19_993);
    let mut second = it.next().unwrap();
    assert_eq!(second.id(), 9);
    assert_eq!(second.lat_nano(), 15_007);
    assert_eq!(second.lon_nano(), -7);
    assert!(it.next().is_none());
    let (ids, lats, lons, keys, vals, offs) = b.get_raw_data();
    assert_eq!(ids, vec![5, 9]);
    assert_eq!(lats, vec![10_007, 15_007]);
    assert_eq!(lons, vec![19_993, -7]);
    assert_eq!(keys, vec![1]);
    assert_eq!(vals, vec![2]);
    assert_eq!(offs, vec![0, 1, 1]);
}

#[test]
fn block_len_matches_iteration_count() {
    let mut g = empty_group();
    g.ways = (0..5).map(|i| Way { id: i, keys: vec![], vals: vec![], refs: vec![] }).collect();
    g.nodes = (0..3).map(|i| Node { id: i, keys: vec![], vals: vec![], lat: 0, lon: 0 }).collect();
    let blocks = parse(primitive(&[""], vec![g]), &FilterConfig::new());
    assert_eq!(blocks.len(), 2);
    for block in &blocks {
        let count = match block {
            ElementBlock::NodeBlock(b) => {
                let mut it = b.iter();
                let mut n = 0;
                while it.next().is_some() {
                    n += 1;
                }
                n
            }
            ElementBlock::WayBlock(b) => {
                let mut it = b.iter();
                let mut n = 0;
                while it.next().is_some() {
                    n += 1;
                }
                n
            }
            _ => panic!("unexpected kind"),
        };
        assert_eq!(count, block.len());
    }
}

#[test]
fn groups_emit_in_order() {
    let mut g1 = empty_group();
    g1.dense = Some(DenseNodes { id: vec![1], lat: vec![0], lon: vec![0], keys_vals: vec![0] });
    let mut g2 = empty_group();
    g2.relations = relation_block().primitivegroup.remove(0).relations;
    let mut g3 = empty_group();
    g3.ways = vec![Way { id: 1, keys: vec![], vals: vec![], refs: vec![] }];
    let blocks = parse(primitive(&["", "a", "b", "c", "d"], vec![g1, g2, empty_group(), g3]), &FilterConfig::new());
    let kinds: Vec<BlockKind> = blocks.iter().map(|b| b.kind()).collect();
    assert_eq!(kinds, vec![BlockKind::DenseNode, BlockKind::Relation, BlockKind::Way]);
}

#[test]
fn element_filter_drops_kinds() {
    let build = || {
        let mut g1 = empty_group();
        g1.dense = Some(DenseNodes { id: vec![1], lat: vec![0], lon: vec![0], keys_vals: vec![0] });
        let mut g2 = empty_group();
        g2.nodes = vec![Node { id: 1, keys: vec![], vals: vec![], lat: 0, lon: 0 }];
        let mut g3 = empty_group();
        g3.ways = vec![Way { id: 1, keys: vec![], vals: vec![], refs: vec![] }];
        let mut g4 = empty_group();
        g4.relations = relation_block().primitivegroup.remove(0).relations;
        primitive(&["", "a", "b", "c", "d"], vec![g1, g2, g3, g4])
    };
    let mut no_nodes = FilterConfig::new();
    no_nodes.apply_element_filter(ElementFilter { nodes: false, ways: true, relations: true }).unwrap();
    let kinds: Vec<BlockKind> = parse(build(), &no_nodes).iter().map(|b| b.kind()).collect();
    assert_eq!(kinds, vec![BlockKind::Way, BlockKind::Relation]);

    let mut only_ways = FilterConfig::new();
    only_ways.apply_element_filter(ElementFilter { nodes: false, ways: true, relations: false }).unwrap();
    let kinds: Vec<BlockKind> = parse(build(), &only_ways).iter().map(|b| b.kind()).collect();
    assert_eq!(kinds, vec![BlockKind::Way]);

    let kinds: Vec<BlockKind> = parse(build(), &FilterConfig::new()).iter().map(|b| b.kind()).collect();
    assert_eq!(kinds, vec![BlockKind::DenseNode, BlockKind::Node, BlockKind::Way, BlockKind::Relation]);
}

#[test]
fn empty_primitive_block_yields_no_blocks() {
    let blocks = parse(primitive(&[""], vec![]), &FilterConfig::new());
    assert!(blocks.is_empty());
    let blocks = parse(primitive(&[""], vec![empty_group()]), &FilterConfig::new());
    assert!(blocks.is_empty());
}

#[test]
fn blocks_share_the_string_table() {
    let mut g = empty_group();
    g.ways = vec![Way { id: 1, keys: vec![], vals: vec![], refs: vec![] }];
    g.nodes = vec![Node { id: 1, keys: vec![], vals: vec![], lat: 0, lon: 0 }];
    let blocks = parse(primitive(&["", "a", "bc"], vec![g]), &FilterConfig::new());
    let expected = vec![b"".to_vec(), b"a".to_vec(), b"bc".to_vec()];
    for block in &blocks {
        let t = match block {
            ElementBlock::NodeBlock(b) => b.get_string_table(),
            ElementBlock::WayBlock(b) => b.get_string_table(),
            _ => panic!("unexpected kind"),
        };
        assert_eq!(t, expected);
    }
}

#[test]
fn relation_members_round_trip() {
    let mut g = empty_group();
    g.relations = vec![Relation {
        id: 3,
        keys: vec![],
        vals: vec![],
        roles_sid: vec![1, 2, 1],
        memids: vec![-4, 10, 1],
        types: vec![MemberType::Node, MemberType::Relation, MemberType::Way],
    }];
    let blocks = parse(primitive(&["", "from", "to"], vec![g]), &FilterConfig::new());
    let b = match &blocks[0] {
        ElementBlock::RelationBlock(b) => b,
        _ => panic!("expected a relation block"),
    };
    let rel = b.iter().next().unwrap();
    let mut members = rel.members();
    let mut got = Vec::new();
    while let Some(m) = members.next() {
        got.push((m.id(), m.role().to_vec(), m.member_type()));
    }
    assert_eq!(
        got,
        vec![
            (-4, b"from".to_vec(), MemberType::Node),
            (6, b"to".to_vec(), MemberType::Relation),
            (7, b"from".to_vec(), MemberType::Way),
        ]
    );
}
