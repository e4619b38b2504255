use osm2rdf::cache::CoordCache;
use osm2rdf::transform::{NodeData, Parser, PrimitiveGroup};
use osm2rdf::writer::{file_name, Writer};
use osm2rdf::{Element, Statement, Stats};

fn create(val: &[u8], ts: i64) -> Statement {
    Statement::Create { elem: Element::Node, id: 1, ts, val: val.to_vec() }
}

#[test]
fn empty_input_yields_single_summary_file() {
    let mut w = Writer::new(100 * 1024 * 1024);
    let (index, line) = w.finish();
    assert_eq!(index, 0);
    assert_eq!(line, b"osmroot: schema:dateModified 1970-01-01T00:00:00Z.\n".to_vec());
    assert_eq!(file_name(index), b"osm-000000.ttl.gz".to_vec());
}

#[test]
fn writer_rotates_only_past_threshold() {
    let mut w = Writer::new(10);
    let op1 = w.on_statement(create(b"12345678", 5));
    assert_eq!(op1.open_index, Some(0));
    assert!(!op1.close_after);
    assert_eq!(op1.bytes, b"osmnode:1\n12345678\n".to_vec());

    // Eight more bytes pass the threshold of ten: the file closes.
    let op2 = w.on_statement(create(b"12345678", 3));
    assert_eq!(op2.open_index, None);
    assert!(op2.close_after);

    // The next statement opens the next numbered file.
    let op3 = w.on_statement(create(b"x", 9));
    assert_eq!(op3.open_index, Some(1));
    assert!(!op3.close_after);

    let (index, line) = w.finish();
    assert_eq!(index, 2);
    assert_eq!(file_name(index), b"osm-000002.ttl.gz".to_vec());
    // The summary carries the largest timestamp seen.
    assert_eq!(line, b"osmroot: schema:dateModified 1970-01-01T00:00:00.009Z.\n".to_vec());
}

#[test]
fn skip_and_delete_write_nothing() {
    let mut w = Writer::new(10);
    let op = w.on_statement(Statement::Skip);
    assert_eq!(op.open_index, None);
    assert!(op.bytes.is_empty());
    assert!(!op.close_after);
    let op = w.on_statement(Statement::Delete { elem: Element::Way, id: 4 });
    assert_eq!(op.open_index, None);
    assert!(op.bytes.is_empty());
    assert!(!op.close_after);
}

fn plain_node(id: i64, tags: Vec<(Vec<u8>, Vec<u8>)>, deleted: bool) -> NodeData {
    NodeData {
        id,
        decimicro_lat: 10,
        decimicro_lon: 20,
        deleted,
        tags,
        version: 1,
        user: b"u".to_vec(),
        milli_timestamp: 1000,
        changeset: 1,
    }
}

#[test]
fn group_statement_counts_match_stats() {
    let mut parser = Parser::new();
    let mut cache = CoordCache::new(64);
    let group = PrimitiveGroup {
        nodes: vec![
            plain_node(1, vec![(b"name".to_vec(), b"a".to_vec())], false),
            plain_node(2, vec![], false),
            plain_node(3, vec![], true),
        ],
        dense_nodes: vec![plain_node(4, vec![(b"name".to_vec(), b"b".to_vec())], false)],
        ways: vec![],
        relations: vec![],
    };
    let stmts = parser.process_group(&mut cache, &group);
    assert_eq!(stmts.len(), 4);
    let creates = stmts
        .iter()
        .filter(|s| matches!(s, Statement::Create { elem: Element::Node, .. }))
        .count();
    assert_eq!(creates as u64, parser.stats.added_nodes);
    assert_eq!(parser.stats.added_nodes, 2);
    assert_eq!(parser.stats.skipped_nodes, 1);
    assert_eq!(parser.stats.deleted_nodes, 1);
}

#[test]
fn stats_combine_sums_counters_and_counts_blocks() {
    let mut total = Stats::new();
    let mut a = Stats::new();
    a.added_nodes = 3;
    a.deleted_ways = 2;
    let mut b = Stats::new();
    b.added_nodes = 4;
    b.skipped_nodes = 7;
    total.combine(a);
    total.combine(b);
    assert_eq!(total.added_nodes, 7);
    assert_eq!(total.deleted_ways, 2);
    assert_eq!(total.skipped_nodes, 7);
    assert_eq!(total.blocks, 2);
}
