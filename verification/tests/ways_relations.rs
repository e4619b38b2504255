use osm2rdf::cache::CoordCache;
use osm2rdf::transform::{Parser, RelData, RelMember, WayData};
use osm2rdf::{Element, Statement};

fn way(refs: Vec<i64>, deleted: bool) -> WayData {
    WayData {
        id: 7,
        deleted,
        tags: vec![(b"name".to_vec(), b"X".to_vec())],
        version: 1,
        user: b"u".to_vec(),
        milli_timestamp: 0,
        changeset: 9,
        refs,
    }
}

#[test]
fn way_geometry_uses_cached_coordinates() {
    let mut parser = Parser::new();
    let mut cache = CoordCache::new(64);
    cache.set_value_i32(10, 100000000, 200000000);
    cache.set_value_i32(11, 100000000, 210000000);
    let st = parser.on_way(&cache, &way(vec![10, 11], false));
    match st {
        Statement::Create { id, val, .. } => {
            assert_eq!(id, 7);
            let expected: Vec<u8> = b"osmt:name \"X\";\n\
osmm:type \"w\";\n\
osmm:version \"1\"^^xsd:integer;\n\
osmm:user \"u\";\n\
osmm:timestamp \"1970-01-01T00:00:00Z\"^^xsd:dateTime;\n\
osmm:changeset \"9\"^^xsd:integer.\n\
osmm:isClosed \"false\"^^xsd:boolean;\n\
osmm:loc \"Point(20 10)\"^^geo:wktLiteral;\n"
                .to_vec();
            assert_eq!(val, expected);
        }
        _ => panic!("expected Create"),
    }
    assert_eq!(parser.stats.added_ways, 1);
}

#[test]
fn closed_way_reports_true() {
    let mut parser = Parser::new();
    let mut cache = CoordCache::new(64);
    cache.set_value_i32(1, 5, 6);
    cache.set_value_i32(2, 7, 8);
    let st = parser.on_way(&cache, &way(vec![1, 2, 1], false));
    match st {
        Statement::Create { val, .. } => {
            let text = String::from_utf8(val).unwrap();
            assert!(text.contains("osmm:isClosed \"true\"^^xsd:boolean;\n"));
        }
        _ => panic!("expected Create"),
    }
}

#[test]
fn short_way_reports_geometry_error() {
    let mut parser = Parser::new();
    let cache = CoordCache::new(64);
    let st = parser.on_way(&cache, &way(vec![5], false));
    match st {
        Statement::Create { val, .. } => {
            let text = String::from_utf8(val).unwrap();
            assert!(text.contains("osmm:loc:error \"fewer than two points\";\n"));
            assert!(!text.contains("isClosed"));
        }
        _ => panic!("expected Create"),
    }
}

#[test]
fn deleted_way_counts() {
    let mut parser = Parser::new();
    let cache = CoordCache::new(64);
    let st = parser.on_way(&cache, &way(vec![1, 2], true));
    assert!(matches!(st, Statement::Delete { elem: Element::Way, id: 7 }));
    assert_eq!(parser.stats.deleted_ways, 1);
}

#[test]
fn relation_emits_member_clauses() {
    let mut parser = Parser::new();
    let rel = RelData {
        id: 123,
        deleted: false,
        tags: vec![(b"type".to_vec(), b"multipolygon".to_vec())],
        version: 2,
        user: b"u".to_vec(),
        milli_timestamp: 0,
        changeset: 3,
        members: vec![
            RelMember { member_type: Element::Way, member_id: 456, role: b"inner".to_vec() },
            RelMember { member_type: Element::Node, member_id: 9, role: b"".to_vec() },
        ],
    };
    let st = parser.on_relation(&rel);
    match st {
        Statement::Create { id, val, .. } => {
            assert_eq!(id, 123);
            let text = String::from_utf8(val).unwrap();
            assert!(text.contains("osmm:has osmway:456;\nosmway:456 \"inner\";\n"));
            assert!(text.contains("osmm:has osmnode:9;\nosmnode:9 \"\";\n"));
            assert!(text.contains("osmm:type \"r\";\n"));
        }
        _ => panic!("expected Create"),
    }
    assert_eq!(parser.stats.added_rels, 1);
}

#[test]
fn deleted_relation_keeps_way_kind() {
    // A deleted relation's Delete is filed under the Way kind; the
    // writer drops Deletes either way.
    let mut parser = Parser::new();
    let rel = RelData {
        id: 5,
        deleted: true,
        tags: vec![],
        version: 1,
        user: b"u".to_vec(),
        milli_timestamp: 0,
        changeset: 1,
        members: vec![],
    };
    let st = parser.on_relation(&rel);
    assert!(matches!(st, Statement::Delete { elem: Element::Way, id: 5 }));
    assert_eq!(parser.stats.deleted_rels, 1);
}
