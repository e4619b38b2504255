//! Turns OpenStreetMap records into Turtle RDF statements.
//!
//! The library holds the verified core of the converter: formatting of
//! RDF clauses, per-record transformation into statements, the dense
//! node-coordinate cache, statistics, and the rotating-writer logic.
//! File, channel and thread plumbing lives outside, in the application
//! shell, which feeds the library plain values.
pub mod bytes;
pub mod cache;
pub mod dates;
pub mod escape;
pub mod names;
pub mod rdf;
pub mod transform;
pub mod writer;

use vstd::prelude::*;

verus! {

/// The three kinds of OSM primitive.
pub enum Element {
    Node,
    Way,
    Relation,
}

/// The unit of work that crosses from the record transformer to the writer.
pub enum Statement {
    /// The record carried nothing worth emitting; only statistics move.
    Skip,
    /// The record was flagged deleted upstream; no RDF body is emitted.
    Delete { elem: Element, id: i64 },
    /// A fully formatted Turtle body, with the record's millisecond
    /// timestamp for the "latest modification" summary.
    Create { elem: Element, id: i64, ts: i64, val: Vec<u8> },
}

/// Counters kept per worker and merged into a shared total.
pub struct Stats {
    pub added_nodes: u64,
    pub added_rels: u64,
    pub added_ways: u64,
    pub skipped_nodes: u64,
    pub deleted_nodes: u64,
    pub deleted_rels: u64,
    pub deleted_ways: u64,
    pub blocks: u64,
}

/// Every counter still has room to count one more record.
pub open spec fn stats_room(s: Stats) -> bool {
    &&& s.added_nodes < u64::MAX
    &&& s.added_rels < u64::MAX
    &&& s.added_ways < u64::MAX
    &&& s.skipped_nodes < u64::MAX
    &&& s.deleted_nodes < u64::MAX
    &&& s.deleted_rels < u64::MAX
    &&& s.deleted_ways < u64::MAX
    &&& s.blocks < u64::MAX
}

/// All eight counters fit when `other` is added pointwise to `self`.
pub open spec fn stats_fit(a: Stats, b: Stats) -> bool {
    &&& a.added_nodes + b.added_nodes <= u64::MAX
    &&& a.added_rels + b.added_rels <= u64::MAX
    &&& a.added_ways + b.added_ways <= u64::MAX
    &&& a.skipped_nodes + b.skipped_nodes <= u64::MAX
    &&& a.deleted_nodes + b.deleted_nodes <= u64::MAX
    &&& a.deleted_rels + b.deleted_rels <= u64::MAX
    &&& a.deleted_ways + b.deleted_ways <= u64::MAX
    &&& a.blocks + 1 <= u64::MAX
}

impl Stats {
    /// A fresh bundle with every counter at zero.
    pub fn new() -> (r: Stats)
        ensures
            r.added_nodes == 0 && r.added_rels == 0 && r.added_ways == 0,
            r.skipped_nodes == 0 && r.deleted_nodes == 0 && r.deleted_rels == 0,
            r.deleted_ways == 0 && r.blocks == 0,
    {
        Stats {
            added_nodes: 0,
            added_rels: 0,
            added_ways: 0,
            skipped_nodes: 0,
            deleted_nodes: 0,
            deleted_rels: 0,
            deleted_ways: 0,
            blocks: 0,
        }
    }

    /// Merge one worker's counters into this bundle: the seven record
    /// counters add pointwise, and `blocks` counts the merges themselves.
    pub fn combine(&mut self, other: Stats)
        requires
            stats_fit(*old(self), other),
        ensures
            final(self).added_nodes == old(self).added_nodes + other.added_nodes,
            final(self).added_rels == old(self).added_rels + other.added_rels,
            final(self).added_ways == old(self).added_ways + other.added_ways,
            final(self).skipped_nodes == old(self).skipped_nodes + other.skipped_nodes,
            final(self).deleted_nodes == old(self).deleted_nodes + other.deleted_nodes,
            final(self).deleted_rels == old(self).deleted_rels + other.deleted_rels,
            final(self).deleted_ways == old(self).deleted_ways + other.deleted_ways,
            final(self).blocks == old(self).blocks + 1,
    {
        self.added_nodes = self.added_nodes + other.added_nodes;
        self.added_rels = self.added_rels + other.added_rels;
        self.added_ways = self.added_ways + other.added_ways;
        self.skipped_nodes = self.skipped_nodes + other.skipped_nodes;
        self.deleted_nodes = self.deleted_nodes + other.deleted_nodes;
        self.deleted_rels = self.deleted_rels + other.deleted_rels;
        self.deleted_ways = self.deleted_ways + other.deleted_ways;
        self.blocks = self.blocks + 1;
    }
}

/// The command-line surface the application shell fills in.
pub struct Opt {
    /// Verbose output was asked for.
    pub verbose: bool,
    /// Path of the node-coordinate cache file.
    pub cache: String,
    /// The subcommand to run.
    pub cmd: Command,
}

/// Subcommands of the converter.
pub enum Command {
    /// Parse a PBF file into rotating compressed Turtle files.
    Parse {
        /// Approximate maximum uncompressed size per output file, in MB.
        max_file_size: usize,
        /// Worker count override.
        workers: Option<usize>,
        /// The OSM input PBF file.
        input_file: String,
        /// The directory the output files go to.
        output_dir: String,
    },
}

/// Accept `path` as the output directory exactly when it names an
/// existing directory; the caller supplies that fact, having asked the
/// file system.
pub fn parse_outdir(path: String, is_dir: bool) -> (r: Result<String, &'static str>)
    ensures
        is_dir ==> r == Result::<String, &'static str>::Ok(path),
        !is_dir ==> r is Err,
{
    if is_dir {
        Ok(path)
    } else {
        Err("Output directory does not exist")
    }
}

} // verus!
