use osm2rdf::cache::CoordCache;
use osm2rdf::transform::{NodeData, Parser};
use osm2rdf::Statement;

fn node(tags: Vec<(Vec<u8>, Vec<u8>)>, deleted: bool) -> NodeData {
    NodeData {
        id: 1,
        decimicro_lat: 515074000,
        decimicro_lon: -1278000,
        deleted,
        tags,
        version: 3,
        user: b"u".to_vec(),
        milli_timestamp: 1600000000000,
        changeset: 42,
    }
}

#[test]
fn tagged_node_creates_full_body() {
    let mut parser = Parser::new();
    let mut cache = CoordCache::new(1024);
    let n = node(vec![(b"name".to_vec(), b"London".to_vec())], false);
    let st = parser.on_node(&mut cache, &n);
    match st {
        Statement::Create { id, ts, val, .. } => {
            assert_eq!(id, 1);
            assert_eq!(ts, 1600000000000);
            let expected: Vec<u8> = b"osmt:name \"London\";\n\
osmm:loc \"Point(-0.1278 51.5074)\"^^geo:wktLiteral;\n\
osmm:type \"n\";\n\
osmm:version \"3\"^^xsd:integer;\n\
osmm:user \"u\";\n\
osmm:timestamp \"2020-09-13T12:26:40Z\"^^xsd:dateTime;\n\
osmm:changeset \"42\"^^xsd:integer.\n"
                .to_vec();
            assert_eq!(val, expected);
        }
        other => panic!("expected Create, got {:?}", statement_kind(&other)),
    }
    assert_eq!(parser.stats.added_nodes, 1);
    assert_eq!(cache.get_lat_long(1), (515074000, -1278000));
}

fn statement_kind(s: &Statement) -> &'static str {
    match s {
        Statement::Skip => "Skip",
        Statement::Delete { .. } => "Delete",
        Statement::Create { .. } => "Create",
    }
}

#[test]
fn tagless_node_is_skipped() {
    let mut parser = Parser::new();
    let mut cache = CoordCache::new(1024);
    let st = parser.on_node(&mut cache, &node(vec![], false));
    assert!(matches!(st, Statement::Skip));
    assert_eq!(parser.stats.skipped_nodes, 1);
    assert_eq!(parser.stats.added_nodes, 0);
    // The coordinates still reach the cache.
    assert_eq!(cache.get_lat_long(1), (515074000, -1278000));
}

#[test]
fn deleted_node_emits_nothing() {
    let mut parser = Parser::new();
    let mut cache = CoordCache::new(1024);
    let st = parser.on_node(&mut cache, &node(vec![(b"name".to_vec(), b"x".to_vec())], true));
    assert!(matches!(st, Statement::Delete { .. }));
    assert_eq!(parser.stats.deleted_nodes, 1);
    assert_eq!(parser.stats.added_nodes, 0);
}

#[test]
fn created_by_only_node_is_skipped() {
    let mut parser = Parser::new();
    let mut cache = CoordCache::new(1024);
    let tags = vec![(b"created_by".to_vec(), b"JOSM".to_vec())];
    let st = parser.on_node(&mut cache, &node(tags, false));
    assert!(matches!(st, Statement::Skip));
    assert_eq!(parser.stats.skipped_nodes, 1);
}
