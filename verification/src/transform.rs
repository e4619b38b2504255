//! The record transformer: turns one decoded OSM record into one
//! Statement, updating the per-worker statistics and the coordinate
//! cache on the way.
use vstd::prelude::*;

use crate::bytes::{dec_i, push_ascii, push_dec_i, sb};
use crate::cache::CoordCache;
use crate::dates::is_ts_render;
use crate::rdf::{
    bool_value_clause, char_value_clause, metadata_body, point_clause, push_bool_value,
    push_char_value, push_metadata, push_point, push_quoted_str, push_str_value, push_tag,
    quoted_str, str_value_clause, tag_clause,
};
use crate::{stats_room, Element, Statement, Stats};

verus! {

/// One tag: a key and a value, as UTF-8 bytes.
pub type Tag = (Vec<u8>, Vec<u8>);

/// A decoded node, sparse or dense: its id, fixed-point coordinates,
/// delete flag, tags and metadata.
pub struct NodeData {
    pub id: i64,
    pub decimicro_lat: i32,
    pub decimicro_lon: i32,
    pub deleted: bool,
    pub tags: Vec<Tag>,
    pub version: i32,
    pub user: Vec<u8>,
    pub milli_timestamp: i64,
    pub changeset: i64,
}

/// A decoded way: its id, delete flag, tags, metadata and the ids of
/// the nodes it runs through.
pub struct WayData {
    pub id: i64,
    pub deleted: bool,
    pub tags: Vec<Tag>,
    pub version: i32,
    pub user: Vec<u8>,
    pub milli_timestamp: i64,
    pub changeset: i64,
    pub refs: Vec<i64>,
}

/// One member of a relation.
pub struct RelMember {
    pub member_type: Element,
    pub member_id: i64,
    pub role: Vec<u8>,
}

/// A decoded relation.
pub struct RelData {
    pub id: i64,
    pub deleted: bool,
    pub tags: Vec<Tag>,
    pub version: i32,
    pub user: Vec<u8>,
    pub milli_timestamp: i64,
    pub changeset: i64,
    pub members: Vec<RelMember>,
}

/// The clauses all tags of a record become, in order; tags keyed
/// `created_by` are dropped.
pub open spec fn tags_body(tags: Seq<Tag>) -> Seq<u8>
    decreases tags.len(),
{
    if tags.len() == 0 {
        Seq::empty()
    } else {
        (if tags[0].0@ == sb("created_by") {
            Seq::<u8>::empty()
        } else {
            tag_clause(tags[0].0@, tags[0].1@)
        }) + tags_body(tags.drop_first())
    }
}

proof fn lemma_tags_body_concat(a: Seq<Tag>, b: Seq<Tag>)
    ensures
        tags_body(a + b) == tags_body(a) + tags_body(b),
    decreases a.len(),
{
    if a.len() == 0 {
        assert(a + b =~= b);
        assert(tags_body(a) + tags_body(b) =~= tags_body(b));
    } else {
        assert((a + b).drop_first() =~= a.drop_first() + b);
        lemma_tags_body_concat(a.drop_first(), b);
        assert(tags_body(a + b) =~= tags_body(a) + tags_body(b));
    }
}

proof fn lemma_tags_body_take_step(tags: Seq<Tag>, i: int)
    requires
        0 <= i < tags.len(),
    ensures
        tags_body(tags.take(i + 1)) == tags_body(tags.take(i)) + (if tags[i].0@ == sb(
            "created_by",
        ) {
            Seq::<u8>::empty()
        } else {
            tag_clause(tags[i].0@, tags[i].1@)
        }),
{
    assert(tags.take(i + 1) =~= tags.take(i) + seq![tags[i]]);
    lemma_tags_body_concat(tags.take(i), seq![tags[i]]);
    assert(seq![tags[i]].drop_first() =~= Seq::<Tag>::empty());
    assert(tags_body(seq![tags[i]].drop_first()) == Seq::<u8>::empty());
    assert(tags_body(seq![tags[i]]) =~= (if tags[i].0@ == sb("created_by") {
        Seq::<u8>::empty()
    } else {
        tag_clause(tags[i].0@, tags[i].1@)
    }));
}

/// If every tag is keyed `created_by`, nothing is emitted for the tags.
pub proof fn lemma_tags_body_all_created_by(tags: Seq<Tag>)
    requires
        forall|i: int| 0 <= i < tags.len() ==> #[trigger] tags[i].0@ == sb("created_by"),
    ensures
        tags_body(tags) == Seq::<u8>::empty(),
    decreases tags.len(),
{
    if tags.len() > 0 {
        assert(tags[0].0@ == sb("created_by"));
        lemma_tags_body_all_created_by(tags.drop_first());
        assert(tags_body(tags) =~= Seq::<u8>::empty());
    }
}

/// Compare a byte vector with an ASCII literal.
pub fn eq_ascii(v: &Vec<u8>, s: &str) -> (r: bool)
    requires
        s.is_ascii(),
    ensures
        r == (v@ == sb(s)),
{
    broadcast use vstd::string::is_ascii_spec_bytes;

    let bytes: &[u8] = s.as_bytes();
    if v.len() != bytes.len() {
        return false;
    }
    let mut i: usize = 0;
    while i < v.len()
        invariant
            bytes@ == sb(s),
            v@.len() == bytes@.len(),
            i <= v@.len(),
            forall|j: int| 0 <= j < i ==> v@[j] == sb(s)[j],
        decreases v.len() - i,
    {
        if v[i] != bytes[i] {
            return false;
        }
        i += 1;
    }
    proof {
        assert(v@ =~= sb(s));
    }
    true
}

/// Append the clauses for all tags of a record, dropping `created_by`.
pub fn push_all_tags(out: &mut Vec<u8>, tags: &Vec<Tag>)
    ensures
        final(out)@ == old(out)@ + tags_body(tags@),
{
    let mut i: usize = 0;
    while i < tags.len()
        invariant
            i <= tags@.len(),
            out@ == old(out)@ + tags_body(tags@.take(i as int)),
        decreases tags.len() - i,
    {
        proof {
            reveal_strlit("created_by");
            lemma_tags_body_take_step(tags@, i as int);
        }
        if !eq_ascii(&tags[i].0, "created_by") {
            push_tag(out, &tags[i].0, &tags[i].1);
        }
        proof {
            assert(out@ =~= old(out)@ + tags_body(tags@.take(i as int + 1)));
        }
        i += 1;
    }
    proof {
        assert(tags@.take(tags@.len() as int) =~= tags@);
    }
}

/// The one-letter element-type clause.
pub open spec fn elem_type_clause(e: Element) -> Seq<u8> {
    char_value_clause(
        sb("osmm:type"),
        match e {
            Element::Node => 'n' as u8,
            Element::Way => 'w' as u8,
            Element::Relation => 'r' as u8,
        },
    )
}

/// Append the element-type clause.
pub fn push_elem_type(out: &mut Vec<u8>, element: &Element)
    ensures
        final(out)@ == old(out)@ + elem_type_clause(*element),
{
    proof {
        reveal_strlit("osmm:type");
    }
    match element {
        Element::Node => push_char_value(out, "osmm:type", 'n' as u8),
        Element::Way => push_char_value(out, "osmm:type", 'w' as u8),
        Element::Relation => push_char_value(out, "osmm:type", 'r' as u8),
    }
}

/// The coordinate pair a way reference resolves to: what the cache
/// holds for it, or the zero pair for an id outside the cache's index
/// range.
pub open spec fn coord_of(cache: CoordCache, r: int) -> (i32, i32) {
    if 0 <= r <= usize::MAX {
        cache.entry(r)
    } else {
        (0i32, 0i32)
    }
}

/// The function from reference ids to coordinate pairs, as a value.
pub open spec fn coord_fn(cache: CoordCache) -> spec_fn(i64) -> (i32, i32) {
    |r: i64| coord_of(cache, r as int)
}

/// All coordinates of a way's references, in order.
pub open spec fn coords_of(cache: CoordCache, refs: Seq<i64>) -> Seq<(i32, i32)> {
    refs.map_values(coord_fn(cache))
}

/// The geometry clauses of a way: whether the line is closed (first
/// and last points equal) and a point of the line, or an error clause
/// when fewer than two points exist.
pub open spec fn way_geometry_body(coords: Seq<(i32, i32)>) -> Seq<u8> {
    if coords.len() < 2 {
        str_value_clause(sb("osmm:loc:error"), sb("fewer than two points"))
    } else {
        bool_value_clause(sb("osmm:isClosed"), coords[0] == coords[coords.len() - 1])
            + point_clause(
            sb("osmm:loc"),
            coords[(coords.len() - 1) as int / 2].0 as int,
            coords[(coords.len() - 1) as int / 2].1 as int,
        )
    }
}

/// Append the geometry clauses for a way, resolving its references
/// against the cache. The emitted point lies on the line: it is the
/// middle vertex.
pub fn parse_way_geometry(out: &mut Vec<u8>, cache: &CoordCache, refs: &Vec<i64>)
    ensures
        final(out)@ == old(out)@ + way_geometry_body(coords_of(*cache, refs@)),
{
    proof {
        reveal_strlit("osmm:loc:error");
        reveal_strlit("fewer than two points");
        reveal_strlit("osmm:isClosed");
        reveal_strlit("osmm:loc");
    }
    let mut coords: Vec<(i32, i32)> = Vec::new();
    let mut i: usize = 0;
    while i < refs.len()
        invariant
            i <= refs@.len(),
            coords@ == coords_of(*cache, refs@.take(i as int)),
        decreases refs.len() - i,
    {
        let r = refs[i];
        let c: (i32, i32) = if r >= 0 && (r as u64) <= (usize::MAX as u64) {
            cache.get_lat_long(r as usize)
        } else {
            (0, 0)
        };
        proof {
            assert(refs@.take(i as int + 1) =~= refs@.take(i as int).push(refs@[i as int]));
            assert(coords_of(*cache, refs@.take(i as int + 1)) =~= coords_of(
                *cache,
                refs@.take(i as int),
            ).push(coord_fn(*cache)(refs@[i as int])));
            assert(c == coord_fn(*cache)(refs@[i as int]));
        }
        coords.push(c);
        i += 1;
    }
    proof {
        assert(refs@.take(refs@.len() as int) =~= refs@);
    }
    if coords.len() < 2 {
        let reason: Vec<u8> = {
            let mut v: Vec<u8> = Vec::new();
            push_ascii(&mut v, "fewer than two points");
            v
        };
        push_str_value(out, "osmm:loc:error", &reason);
    } else {
        let a = coords[0];
        let b = coords[coords.len() - 1];
        push_bool_value(out, "osmm:isClosed", a.0 == b.0 && a.1 == b.1);
        let mid = coords[(coords.len() - 1) / 2];
        push_point(out, "osmm:loc", mid.0, mid.1);
    }
    proof {
        assert(out@ =~= old(out)@ + way_geometry_body(coords_of(*cache, refs@)));
    }
}

/// The body of a node's Create statement, given a rendering `t` of its
/// timestamp: tag clauses, location point, element type, metadata.
pub open spec fn node_body(n: NodeData, t: Seq<u8>) -> Seq<u8> {
    tags_body(n.tags@) + point_clause(
        sb("osmm:loc"),
        n.decimicro_lat as int,
        n.decimicro_lon as int,
    ) + elem_type_clause(Element::Node) + metadata_body(
        n.version as int,
        n.user@,
        t,
        n.changeset as int,
    )
}

/// The body of a way's Create statement, given a rendering `t` of its
/// timestamp and the cache its references resolve against.
pub open spec fn way_body(w: WayData, t: Seq<u8>, cache: CoordCache) -> Seq<u8> {
    tags_body(w.tags@) + elem_type_clause(Element::Way) + metadata_body(
        w.version as int,
        w.user@,
        t,
        w.changeset as int,
    ) + way_geometry_body(coords_of(cache, w.refs@))
}

/// The prefix naming a member's kind.
pub open spec fn member_prefix(e: Element) -> Seq<u8> {
    match e {
        Element::Node => sb("osmnode:"),
        Element::Way => sb("osmway:"),
        Element::Relation => sb("osmrel:"),
    }
}

/// The two clauses one member becomes: membership, then its role.
pub open spec fn member_clause(m: RelMember) -> Seq<u8> {
    sb("osmm:has ") + member_prefix(m.member_type) + dec_i(m.member_id as int) + sb(";\n")
        + member_prefix(m.member_type) + dec_i(m.member_id as int) + sb(" ") + quoted_str(m.role@)
}

/// The clauses of all members of a relation, in order.
pub open spec fn members_body(ms: Seq<RelMember>) -> Seq<u8>
    decreases ms.len(),
{
    if ms.len() == 0 {
        Seq::empty()
    } else {
        member_clause(ms[0]) + members_body(ms.drop_first())
    }
}

proof fn lemma_members_body_concat(a: Seq<RelMember>, b: Seq<RelMember>)
    ensures
        members_body(a + b) == members_body(a) + members_body(b),
    decreases a.len(),
{
    if a.len() == 0 {
        assert(a + b =~= b);
        assert(members_body(a) + members_body(b) =~= members_body(b));
    } else {
        assert((a + b).drop_first() =~= a.drop_first() + b);
        lemma_members_body_concat(a.drop_first(), b);
        assert(members_body(a + b) =~= members_body(a) + members_body(b));
    }
}

/// Append the exec prefix for a member's kind.
fn push_member_prefix(out: &mut Vec<u8>, e: &Element)
    ensures
        final(out)@ == old(out)@ + member_prefix(*e),
{
    proof {
        reveal_strlit("osmnode:");
        reveal_strlit("osmway:");
        reveal_strlit("osmrel:");
    }
    match e {
        Element::Node => push_ascii(out, "osmnode:"),
        Element::Way => push_ascii(out, "osmway:"),
        Element::Relation => push_ascii(out, "osmrel:"),
    }
}

/// Append the clauses for all members of a relation.
pub fn push_members(out: &mut Vec<u8>, members: &Vec<RelMember>)
    ensures
        final(out)@ == old(out)@ + members_body(members@),
{
    let mut i: usize = 0;
    while i < members.len()
        invariant
            i <= members@.len(),
            out@ == old(out)@ + members_body(members@.take(i as int)),
        decreases members.len() - i,
    {
        proof {
            reveal_strlit("osmm:has ");
            reveal_strlit(";\n");
            reveal_strlit(" ");
            assert(members@.take(i as int + 1) =~= members@.take(i as int) + seq![
                members@[i as int],
            ]);
            lemma_members_body_concat(members@.take(i as int), seq![members@[i as int]]);
            assert(seq![members@[i as int]].drop_first() =~= Seq::<RelMember>::empty());
            assert(members_body(seq![members@[i as int]].drop_first()) == Seq::<u8>::empty());
            assert(members_body(seq![members@[i as int]]) =~= member_clause(members@[i as int]));
        }
        let m = &members[i];
        push_ascii(out, "osmm:has ");
        push_member_prefix(out, &m.member_type);
        push_dec_i(out, m.member_id);
        push_ascii(out, ";\n");
        push_member_prefix(out, &m.member_type);
        push_dec_i(out, m.member_id);
        push_ascii(out, " ");
        push_quoted_str(out, &m.role);
        proof {
            assert(out@ =~= old(out)@ + members_body(members@.take(i as int + 1)));
        }
        i += 1;
    }
    proof {
        assert(members@.take(members@.len() as int) =~= members@);
    }
}

/// The body of a relation's Create statement, given a rendering `t` of
/// its timestamp.
pub open spec fn relation_body(r: RelData, t: Seq<u8>) -> Seq<u8> {
    tags_body(r.tags@) + elem_type_clause(Element::Relation) + metadata_body(
        r.version as int,
        r.user@,
        t,
        r.changeset as int,
    ) + members_body(r.members@)
}

/// One worker's record transformer: owns that worker's statistics.
pub struct Parser {
    pub stats: Stats,
}

impl Parser {
    /// A transformer with all counters at zero.
    pub fn new() -> (r: Parser)
        ensures
            r.stats.added_nodes == 0 && r.stats.added_rels == 0 && r.stats.added_ways == 0,
            r.stats.skipped_nodes == 0 && r.stats.deleted_nodes == 0,
            r.stats.deleted_rels == 0 && r.stats.deleted_ways == 0 && r.stats.blocks == 0,
    {
        Parser { stats: Stats::new() }
    }

    /// Decide what one node record becomes, without its metadata block:
    /// deleted nodes yield Delete, tagless nodes Skip, the rest a
    /// Create whose body ends with the element-type clause.
    pub fn process_node(
        &mut self,
        is_deleted: bool,
        id: i64,
        tags: &Vec<Tag>,
        lat_dmc: i32,
        lon_dmc: i32,
    ) -> (r: Statement)
        requires
            stats_room(old(self).stats),
        ensures
            is_deleted ==> r == (Statement::Delete { elem: Element::Node, id })
                && final(self).stats == (Stats {
                deleted_nodes: (old(self).stats.deleted_nodes + 1) as u64,
                ..old(self).stats
            }),
            !is_deleted && tags_body(tags@).len() == 0 ==> r == Statement::Skip && final(self).stats == (Stats {
                skipped_nodes: (old(self).stats.skipped_nodes + 1) as u64,
                ..old(self).stats
            }),
            !is_deleted && tags_body(tags@).len() != 0 ==> (match r {
                Statement::Create { elem, id: rid, ts, val } => {
                    &&& elem == Element::Node
                    &&& rid == id
                    &&& ts == 0
                    &&& val@ == tags_body(tags@) + point_clause(
                        sb("osmm:loc"),
                        lat_dmc as int,
                        lon_dmc as int,
                    ) + elem_type_clause(Element::Node)
                },
                _ => false,
            }) && final(self).stats == (Stats {
                added_nodes: (old(self).stats.added_nodes + 1) as u64,
                ..old(self).stats
            }),
    {
        proof {
            reveal_strlit("osmm:loc");
        }
        if is_deleted {
            self.stats.deleted_nodes = self.stats.deleted_nodes + 1;
            Statement::Delete { elem: Element::Node, id }
        } else {
            let mut value: Vec<u8> = Vec::new();
            push_all_tags(&mut value, tags);
            if value.len() == 0 {
                self.stats.skipped_nodes = self.stats.skipped_nodes + 1;
                Statement::Skip
            } else {
                push_point(&mut value, "osmm:loc", lat_dmc, lon_dmc);
                push_elem_type(&mut value, &Element::Node);
                self.stats.added_nodes = self.stats.added_nodes + 1;
                proof {
                    assert(value@ =~= tags_body(tags@) + point_clause(
                        sb("osmm:loc"),
                        lat_dmc as int,
                        lon_dmc as int,
                    ) + elem_type_clause(Element::Node));
                }
                Statement::Create { elem: Element::Node, id, ts: 0, val: value }
            }
        }
    }

    /// Transform one node record, sparse or dense: its coordinates go
    /// to the cache unconditionally; the statement follows
    /// `process_node`, completed with the metadata block and the
    /// record's timestamp.
    pub fn on_node(&mut self, cache: &mut CoordCache, node: &NodeData) -> (r: Statement)
        requires
            stats_room(old(self).stats),
            old(cache).wf(),
            node.id >= 0,
            node.id + old(cache).page <= usize::MAX,
        ensures
            final(cache).wf(),
            final(cache).page == old(cache).page,
            final(cache).entry(node.id as int) == (node.decimicro_lat, node.decimicro_lon),
            forall|j: int| j != node.id ==> final(cache).entry(j) == old(cache).entry(j),
            node.deleted ==> r == (Statement::Delete { elem: Element::Node, id: node.id })
                && final(self).stats == (Stats {
                deleted_nodes: (old(self).stats.deleted_nodes + 1) as u64,
                ..old(self).stats
            }),
            !node.deleted && tags_body(node.tags@).len() == 0 ==> r == Statement::Skip && final(self).stats == (Stats {
                skipped_nodes: (old(self).stats.skipped_nodes + 1) as u64,
                ..old(self).stats
            }),
            !node.deleted && tags_body(node.tags@).len() != 0 ==> (match r {
                Statement::Create { elem, id: rid, ts, val } => {
                    &&& elem == Element::Node
                    &&& rid == node.id
                    &&& ts == node.milli_timestamp
                    &&& exists|t: Seq<u8>|
                        is_ts_render(node.milli_timestamp as int, t) && val@ == #[trigger] node_body(
                            *node,
                            t,
                        )
                },
                _ => false,
            }) && final(self).stats == (Stats {
                added_nodes: (old(self).stats.added_nodes + 1) as u64,
                ..old(self).stats
            }),
    {
        let _grown = cache.set_value_i32(
            node.id as usize,
            node.decimicro_lat,
            node.decimicro_lon,
        );
        let statement = self.process_node(
            node.deleted,
            node.id,
            &node.tags,
            node.decimicro_lat,
            node.decimicro_lon,
        );
        match statement {
            Statement::Create { elem, id, ts: _, mut val } => {
                push_metadata(
                    &mut val,
                    node.version,
                    &node.user,
                    node.milli_timestamp,
                    node.changeset,
                );
                proof {
                    let t = choose|t: Seq<u8>|
                        is_ts_render(node.milli_timestamp as int, t) && val@ == tags_body(
                            node.tags@,
                        ) + point_clause(
                            sb("osmm:loc"),
                            node.decimicro_lat as int,
                            node.decimicro_lon as int,
                        ) + elem_type_clause(Element::Node) + #[trigger] metadata_body(
                            node.version as int,
                            node.user@,
                            t,
                            node.changeset as int,
                        );
                    assert(val@ =~= node_body(*node, t));
                }
                Statement::Create { elem, id, ts: node.milli_timestamp, val }
            },
            other => other,
        }
    }

    /// Transform one way record: deleted ways yield Delete, the rest a
    /// Create holding tags, element type, metadata and the geometry
    /// resolved against the cache.
    pub fn on_way(&mut self, cache: &CoordCache, way: &WayData) -> (r: Statement)
        requires
            stats_room(old(self).stats),
        ensures
            way.deleted ==> r == (Statement::Delete { elem: Element::Way, id: way.id }) && final(self).stats == (Stats {
                deleted_ways: (old(self).stats.deleted_ways + 1) as u64,
                ..old(self).stats
            }),
            !way.deleted ==> (match r {
                Statement::Create { elem, id: rid, ts, val } => {
                    &&& elem == Element::Way
                    &&& rid == way.id
                    &&& ts == way.milli_timestamp
                    &&& exists|t: Seq<u8>|
                        is_ts_render(way.milli_timestamp as int, t) && val@ == #[trigger] way_body(
                            *way,
                            t,
                            *cache,
                        )
                },
                _ => false,
            }) && final(self).stats == (Stats {
                added_ways: (old(self).stats.added_ways + 1) as u64,
                ..old(self).stats
            }),
    {
        if way.deleted {
            self.stats.deleted_ways = self.stats.deleted_ways + 1;
            return Statement::Delete { elem: Element::Way, id: way.id };
        }
        let mut value: Vec<u8> = Vec::new();
        push_all_tags(&mut value, &way.tags);
        push_elem_type(&mut value, &Element::Way);
        push_metadata(&mut value, way.version, &way.user, way.milli_timestamp, way.changeset);
        parse_way_geometry(&mut value, cache, &way.refs);
        self.stats.added_ways = self.stats.added_ways + 1;
        proof {
            let t = choose|t: Seq<u8>|
                is_ts_render(way.milli_timestamp as int, t) && value@ == tags_body(way.tags@)
                    + elem_type_clause(Element::Way) + #[trigger] metadata_body(
                    way.version as int,
                    way.user@,
                    t,
                    way.changeset as int,
                ) + way_geometry_body(coords_of(*cache, way.refs@));
            assert(value@ =~= way_body(*way, t, *cache));
        }
        Statement::Create { elem: Element::Way, id: way.id, ts: way.milli_timestamp, val: value }
    }

    /// Transform one relation record: deleted relations yield a Delete
    /// that names the Way kind — a quirk the writer hides, since it
    /// drops every Delete; the rest
    /// a Create holding tags, element type, metadata and two clauses
    /// per member.
    pub fn on_relation(&mut self, rel: &RelData) -> (r: Statement)
        requires
            stats_room(old(self).stats),
        ensures
            rel.deleted ==> r == (Statement::Delete { elem: Element::Way, id: rel.id }) && final(self).stats == (Stats {
                deleted_rels: (old(self).stats.deleted_rels + 1) as u64,
                ..old(self).stats
            }),
            !rel.deleted ==> (match r {
                Statement::Create { elem, id: rid, ts, val } => {
                    &&& elem == Element::Relation
                    &&& rid == rel.id
                    &&& ts == rel.milli_timestamp
                    &&& exists|t: Seq<u8>|
                        is_ts_render(rel.milli_timestamp as int, t) && val@
                            == #[trigger] relation_body(*rel, t)
                },
                _ => false,
            }) && final(self).stats == (Stats {
                added_rels: (old(self).stats.added_rels + 1) as u64,
                ..old(self).stats
            }),
    {
        if rel.deleted {
            self.stats.deleted_rels = self.stats.deleted_rels + 1;
            return Statement::Delete { elem: Element::Way, id: rel.id };
        }
        let mut value: Vec<u8> = Vec::new();
        push_all_tags(&mut value, &rel.tags);
        push_elem_type(&mut value, &Element::Relation);
        push_metadata(&mut value, rel.version, &rel.user, rel.milli_timestamp, rel.changeset);
        push_members(&mut value, &rel.members);
        self.stats.added_rels = self.stats.added_rels + 1;
        proof {
            let t = choose|t: Seq<u8>|
                is_ts_render(rel.milli_timestamp as int, t) && value@ == tags_body(rel.tags@)
                    + elem_type_clause(Element::Relation) + #[trigger] metadata_body(
                    rel.version as int,
                    rel.user@,
                    t,
                    rel.changeset as int,
                ) + members_body(rel.members@);
            assert(value@ =~= relation_body(*rel, t));
        }
        Statement::Create {
            elem: Element::Relation,
            id: rel.id,
            ts: rel.milli_timestamp,
            val: value,
        }
    }
}

/// One primitive group of a decoded block: sparse nodes, dense nodes,
/// ways and relations, in the canonical processing order.
pub struct PrimitiveGroup {
    pub nodes: Vec<NodeData>,
    pub dense_nodes: Vec<NodeData>,
    pub ways: Vec<WayData>,
    pub relations: Vec<RelData>,
}

/// `s` is a Create statement of kind `e`.
pub open spec fn is_create_of(s: Statement, e: Element) -> bool {
    match s {
        Statement::Create { elem, .. } => elem == e,
        _ => false,
    }
}

/// How many Create statements of kind `e` a sequence holds.
pub open spec fn count_creates(stmts: Seq<Statement>, e: Element) -> int
    decreases stmts.len(),
{
    if stmts.len() == 0 {
        0
    } else {
        (if is_create_of(stmts[0], e) {
            1int
        } else {
            0int
        }) + count_creates(stmts.drop_first(), e)
    }
}

/// How many Skip statements a sequence holds.
pub open spec fn count_skips(stmts: Seq<Statement>) -> int
    decreases stmts.len(),
{
    if stmts.len() == 0 {
        0
    } else {
        (if stmts[0] is Skip {
            1int
        } else {
            0int
        }) + count_skips(stmts.drop_first())
    }
}

proof fn lemma_count_creates_snoc(s: Seq<Statement>, x: Statement, e: Element)
    ensures
        count_creates(s.push(x), e) == count_creates(s, e) + (if is_create_of(x, e) {
            1int
        } else {
            0int
        }),
    decreases s.len(),
{
    if s.len() == 0 {
        assert(s.push(x).drop_first() =~= s);
    } else {
        assert(s.push(x).drop_first() =~= s.drop_first().push(x));
        lemma_count_creates_snoc(s.drop_first(), x, e);
    }
}

proof fn lemma_count_skips_snoc(s: Seq<Statement>, x: Statement)
    ensures
        count_skips(s.push(x)) == count_skips(s) + (if x is Skip {
            1int
        } else {
            0int
        }),
    decreases s.len(),
{
    if s.len() == 0 {
        assert(s.push(x).drop_first() =~= s);
    } else {
        assert(s.push(x).drop_first() =~= s.drop_first().push(x));
        lemma_count_skips_snoc(s.drop_first(), x);
    }
}

/// How many nodes of a list would yield a Create: not deleted, with
/// at least one emitted tag clause.
pub open spec fn node_creates(ns: Seq<NodeData>) -> int
    decreases ns.len(),
{
    if ns.len() == 0 {
        0
    } else {
        (if !ns[0].deleted && tags_body(ns[0].tags@).len() != 0 {
            1int
        } else {
            0int
        }) + node_creates(ns.drop_first())
    }
}

/// How many nodes of a list would be skipped: not deleted, nothing to
/// emit.
pub open spec fn node_skips(ns: Seq<NodeData>) -> int
    decreases ns.len(),
{
    if ns.len() == 0 {
        0
    } else {
        (if !ns[0].deleted && tags_body(ns[0].tags@).len() == 0 {
            1int
        } else {
            0int
        }) + node_skips(ns.drop_first())
    }
}

/// How many nodes of a list are flagged deleted.
pub open spec fn node_deletes(ns: Seq<NodeData>) -> int
    decreases ns.len(),
{
    if ns.len() == 0 {
        0
    } else {
        (if ns[0].deleted {
            1int
        } else {
            0int
        }) + node_deletes(ns.drop_first())
    }
}

/// How many ways of a list are flagged deleted.
pub open spec fn way_deletes(ws: Seq<WayData>) -> int
    decreases ws.len(),
{
    if ws.len() == 0 {
        0
    } else {
        (if ws[0].deleted {
            1int
        } else {
            0int
        }) + way_deletes(ws.drop_first())
    }
}

/// How many relations of a list are flagged deleted.
pub open spec fn rel_deletes(rs: Seq<RelData>) -> int
    decreases rs.len(),
{
    if rs.len() == 0 {
        0
    } else {
        (if rs[0].deleted {
            1int
        } else {
            0int
        }) + rel_deletes(rs.drop_first())
    }
}

proof fn lemma_node_counts_snoc(ns: Seq<NodeData>, x: NodeData)
    ensures
        node_creates(ns.push(x)) == node_creates(ns) + (if !x.deleted && tags_body(x.tags@).len()
            != 0 {
            1int
        } else {
            0int
        }),
        node_skips(ns.push(x)) == node_skips(ns) + (if !x.deleted && tags_body(x.tags@).len()
            == 0 {
            1int
        } else {
            0int
        }),
        node_deletes(ns.push(x)) == node_deletes(ns) + (if x.deleted {
            1int
        } else {
            0int
        }),
    decreases ns.len(),
{
    if ns.len() == 0 {
        assert(ns.push(x).drop_first() =~= ns);
    } else {
        assert(ns.push(x).drop_first() =~= ns.drop_first().push(x));
        lemma_node_counts_snoc(ns.drop_first(), x);
    }
}

proof fn lemma_way_deletes_snoc(ws: Seq<WayData>, x: WayData)
    ensures
        way_deletes(ws.push(x)) == way_deletes(ws) + (if x.deleted {
            1int
        } else {
            0int
        }),
    decreases ws.len(),
{
    if ws.len() == 0 {
        assert(ws.push(x).drop_first() =~= ws);
    } else {
        assert(ws.push(x).drop_first() =~= ws.drop_first().push(x));
        lemma_way_deletes_snoc(ws.drop_first(), x);
    }
}

proof fn lemma_rel_deletes_snoc(rs: Seq<RelData>, x: RelData)
    ensures
        rel_deletes(rs.push(x)) == rel_deletes(rs) + (if x.deleted {
            1int
        } else {
            0int
        }),
    decreases rs.len(),
{
    if rs.len() == 0 {
        assert(rs.push(x).drop_first() =~= rs);
    } else {
        assert(rs.push(x).drop_first() =~= rs.drop_first().push(x));
        lemma_rel_deletes_snoc(rs.drop_first(), x);
    }
}

/// The seven record counters each grew by at most `n`, and the block
/// counter stands still.
pub open spec fn stats_grew_by_at_most(now: Stats, was: Stats, n: int) -> bool {
    &&& was.added_nodes <= now.added_nodes <= was.added_nodes + n
    &&& was.added_rels <= now.added_rels <= was.added_rels + n
    &&& was.added_ways <= now.added_ways <= was.added_ways + n
    &&& was.skipped_nodes <= now.skipped_nodes <= was.skipped_nodes + n
    &&& was.deleted_nodes <= now.deleted_nodes <= was.deleted_nodes + n
    &&& was.deleted_rels <= now.deleted_rels <= was.deleted_rels + n
    &&& was.deleted_ways <= now.deleted_ways <= was.deleted_ways + n
    &&& now.blocks == was.blocks
}

impl Parser {
    /// Process one primitive group in canonical order and collect the
    /// statements. The number of Create statements of each kind in the
    /// result equals the growth of the matching `added` counter, and
    /// the number of Skip statements the growth of `skipped_nodes`.
    pub fn process_group(&mut self, cache: &mut CoordCache, group: &PrimitiveGroup) -> (r: Vec<
        Statement,
    >)
        requires
            old(cache).wf(),
            old(self).stats.added_nodes + group.nodes@.len() + group.dense_nodes@.len()
                + group.ways@.len() + group.relations@.len() < u64::MAX,
            old(self).stats.added_rels + group.nodes@.len() + group.dense_nodes@.len()
                + group.ways@.len() + group.relations@.len() < u64::MAX,
            old(self).stats.added_ways + group.nodes@.len() + group.dense_nodes@.len()
                + group.ways@.len() + group.relations@.len() < u64::MAX,
            old(self).stats.skipped_nodes + group.nodes@.len() + group.dense_nodes@.len()
                + group.ways@.len() + group.relations@.len() < u64::MAX,
            old(self).stats.deleted_nodes + group.nodes@.len() + group.dense_nodes@.len()
                + group.ways@.len() + group.relations@.len() < u64::MAX,
            old(self).stats.deleted_rels + group.nodes@.len() + group.dense_nodes@.len()
                + group.ways@.len() + group.relations@.len() < u64::MAX,
            old(self).stats.deleted_ways + group.nodes@.len() + group.dense_nodes@.len()
                + group.ways@.len() + group.relations@.len() < u64::MAX,
            old(self).stats.blocks < u64::MAX,
            forall|i: int|
                0 <= i < group.nodes@.len() ==> #[trigger] group.nodes@[i].id >= 0
                    && group.nodes@[i].id + old(cache).page <= usize::MAX,
            forall|i: int|
                0 <= i < group.dense_nodes@.len() ==> #[trigger] group.dense_nodes@[i].id >= 0
                    && group.dense_nodes@[i].id + old(cache).page <= usize::MAX,
        ensures
            final(cache).wf(),
            final(cache).page == old(cache).page,
            r@.len() == group.nodes@.len() + group.dense_nodes@.len() + group.ways@.len()
                + group.relations@.len(),
            count_creates(r@, Element::Node) == final(self).stats.added_nodes - old(
                self,
            ).stats.added_nodes,
            count_creates(r@, Element::Way) == final(self).stats.added_ways - old(
                self,
            ).stats.added_ways,
            count_creates(r@, Element::Relation) == final(self).stats.added_rels - old(
                self,
            ).stats.added_rels,
            count_skips(r@) == final(self).stats.skipped_nodes - old(self).stats.skipped_nodes,
            final(self).stats.blocks == old(self).stats.blocks,
            final(self).stats.added_nodes == old(self).stats.added_nodes + node_creates(
                group.nodes@,
            ) + node_creates(group.dense_nodes@),
            final(self).stats.skipped_nodes == old(self).stats.skipped_nodes + node_skips(
                group.nodes@,
            ) + node_skips(group.dense_nodes@),
            final(self).stats.deleted_nodes == old(self).stats.deleted_nodes + node_deletes(
                group.nodes@,
            ) + node_deletes(group.dense_nodes@),
            final(self).stats.added_ways == old(self).stats.added_ways + group.ways@.len()
                - way_deletes(group.ways@),
            final(self).stats.deleted_ways == old(self).stats.deleted_ways + way_deletes(
                group.ways@,
            ),
            final(self).stats.added_rels == old(self).stats.added_rels + group.relations@.len()
                - rel_deletes(group.relations@),
            final(self).stats.deleted_rels == old(self).stats.deleted_rels + rel_deletes(
                group.relations@,
            ),
    {
        let ghost total = group.nodes@.len() + group.dense_nodes@.len() + group.ways@.len()
            + group.relations@.len();
        let mut stmts: Vec<Statement> = Vec::new();
        let mut i: usize = 0;
        while i < group.nodes.len()
            invariant
                i <= group.nodes@.len(),
                stmts@.len() == i,
                cache.wf(),
                cache.page == old(cache).page,
                stats_grew_by_at_most(self.stats, old(self).stats, stmts@.len() as int),
                old(self).stats.added_nodes + total < u64::MAX,
                old(self).stats.added_rels + total < u64::MAX,
                old(self).stats.added_ways + total < u64::MAX,
                old(self).stats.skipped_nodes + total < u64::MAX,
                old(self).stats.deleted_nodes + total < u64::MAX,
                old(self).stats.deleted_rels + total < u64::MAX,
                old(self).stats.deleted_ways + total < u64::MAX,
                old(self).stats.blocks < u64::MAX,
                total == group.nodes@.len() + group.dense_nodes@.len() + group.ways@.len()
                    + group.relations@.len(),
                count_creates(stmts@, Element::Node) == self.stats.added_nodes - old(
                    self,
                ).stats.added_nodes,
                count_creates(stmts@, Element::Way) == self.stats.added_ways - old(
                    self,
                ).stats.added_ways,
                count_creates(stmts@, Element::Relation) == self.stats.added_rels - old(
                    self,
                ).stats.added_rels,
                count_skips(stmts@) == self.stats.skipped_nodes - old(self).stats.skipped_nodes,
                self.stats.added_nodes == old(self).stats.added_nodes + node_creates(
                    group.nodes@.take(i as int),
                ),
                self.stats.skipped_nodes == old(self).stats.skipped_nodes + node_skips(
                    group.nodes@.take(i as int),
                ),
                self.stats.deleted_nodes == old(self).stats.deleted_nodes + node_deletes(
                    group.nodes@.take(i as int),
                ),
                self.stats.added_ways == old(self).stats.added_ways,
                self.stats.deleted_ways == old(self).stats.deleted_ways,
                self.stats.added_rels == old(self).stats.added_rels,
                self.stats.deleted_rels == old(self).stats.deleted_rels,
                forall|j: int|
                    0 <= j < group.nodes@.len() ==> #[trigger] group.nodes@[j].id >= 0
                        && group.nodes@[j].id + cache.page <= usize::MAX,
            decreases group.nodes.len() - i,
        {
            let s = self.on_node(cache, &group.nodes[i]);
            proof {
                lemma_count_creates_snoc(stmts@, s, Element::Node);
                lemma_count_creates_snoc(stmts@, s, Element::Way);
                lemma_count_creates_snoc(stmts@, s, Element::Relation);
                lemma_count_skips_snoc(stmts@, s);
                assert(group.nodes@.take(i as int + 1) =~= group.nodes@.take(i as int).push(
                    group.nodes@[i as int],
                ));
                lemma_node_counts_snoc(group.nodes@.take(i as int), group.nodes@[i as int]);
            }
            stmts.push(s);
            i += 1;
        }
        proof {
            assert(group.nodes@.take(group.nodes@.len() as int) =~= group.nodes@);
        }
        let mut i2: usize = 0;
        while i2 < group.dense_nodes.len()
            invariant
                i2 <= group.dense_nodes@.len(),
                stmts@.len() == group.nodes@.len() + i2,
                cache.wf(),
                cache.page == old(cache).page,
                stats_grew_by_at_most(self.stats, old(self).stats, stmts@.len() as int),
                old(self).stats.added_nodes + total < u64::MAX,
                old(self).stats.added_rels + total < u64::MAX,
                old(self).stats.added_ways + total < u64::MAX,
                old(self).stats.skipped_nodes + total < u64::MAX,
                old(self).stats.deleted_nodes + total < u64::MAX,
                old(self).stats.deleted_rels + total < u64::MAX,
                old(self).stats.deleted_ways + total < u64::MAX,
                old(self).stats.blocks < u64::MAX,
                total == group.nodes@.len() + group.dense_nodes@.len() + group.ways@.len()
                    + group.relations@.len(),
                count_creates(stmts@, Element::Node) == self.stats.added_nodes - old(
                    self,
                ).stats.added_nodes,
                count_creates(stmts@, Element::Way) == self.stats.added_ways - old(
                    self,
                ).stats.added_ways,
                count_creates(stmts@, Element::Relation) == self.stats.added_rels - old(
                    self,
                ).stats.added_rels,
                count_skips(stmts@) == self.stats.skipped_nodes - old(self).stats.skipped_nodes,
                self.stats.added_nodes == old(self).stats.added_nodes + node_creates(group.nodes@)
                    + node_creates(group.dense_nodes@.take(i2 as int)),
                self.stats.skipped_nodes == old(self).stats.skipped_nodes + node_skips(
                    group.nodes@,
                ) + node_skips(group.dense_nodes@.take(i2 as int)),
                self.stats.deleted_nodes == old(self).stats.deleted_nodes + node_deletes(
                    group.nodes@,
                ) + node_deletes(group.dense_nodes@.take(i2 as int)),
                self.stats.added_ways == old(self).stats.added_ways,
                self.stats.deleted_ways == old(self).stats.deleted_ways,
                self.stats.added_rels == old(self).stats.added_rels,
                self.stats.deleted_rels == old(self).stats.deleted_rels,
                forall|j: int|
                    0 <= j < group.dense_nodes@.len() ==> #[trigger] group.dense_nodes@[j].id >= 0
                        && group.dense_nodes@[j].id + cache.page <= usize::MAX,
            decreases group.dense_nodes.len() - i2,
        {
            let s = self.on_node(cache, &group.dense_nodes[i2]);
            proof {
                lemma_count_creates_snoc(stmts@, s, Element::Node);
                lemma_count_creates_snoc(stmts@, s, Element::Way);
                lemma_count_creates_snoc(stmts@, s, Element::Relation);
                lemma_count_skips_snoc(stmts@, s);
                assert(group.dense_nodes@.take(i2 as int + 1) =~= group.dense_nodes@.take(
                    i2 as int,
                ).push(group.dense_nodes@[i2 as int]));
                lemma_node_counts_snoc(
                    group.dense_nodes@.take(i2 as int),
                    group.dense_nodes@[i2 as int],
                );
            }
            stmts.push(s);
            i2 += 1;
        }
        proof {
            assert(group.dense_nodes@.take(group.dense_nodes@.len() as int)
                =~= group.dense_nodes@);
        }
        let mut i3: usize = 0;
        while i3 < group.ways.len()
            invariant
                i3 <= group.ways@.len(),
                stmts@.len() == group.nodes@.len() + group.dense_nodes@.len() + i3,
                cache.wf(),
                cache.page == old(cache).page,
                stats_grew_by_at_most(self.stats, old(self).stats, stmts@.len() as int),
                old(self).stats.added_nodes + total < u64::MAX,
                old(self).stats.added_rels + total < u64::MAX,
                old(self).stats.added_ways + total < u64::MAX,
                old(self).stats.skipped_nodes + total < u64::MAX,
                old(self).stats.deleted_nodes + total < u64::MAX,
                old(self).stats.deleted_rels + total < u64::MAX,
                old(self).stats.deleted_ways + total < u64::MAX,
                old(self).stats.blocks < u64::MAX,
                total == group.nodes@.len() + group.dense_nodes@.len() + group.ways@.len()
                    + group.relations@.len(),
                count_creates(stmts@, Element::Node) == self.stats.added_nodes - old(
                    self,
                ).stats.added_nodes,
                count_creates(stmts@, Element::Way) == self.stats.added_ways - old(
                    self,
                ).stats.added_ways,
                count_creates(stmts@, Element::Relation) == self.stats.added_rels - old(
                    self,
                ).stats.added_rels,
                count_skips(stmts@) == self.stats.skipped_nodes - old(self).stats.skipped_nodes,
                self.stats.added_nodes == old(self).stats.added_nodes + node_creates(group.nodes@)
                    + node_creates(group.dense_nodes@),
                self.stats.skipped_nodes == old(self).stats.skipped_nodes + node_skips(
                    group.nodes@,
                ) + node_skips(group.dense_nodes@),
                self.stats.deleted_nodes == old(self).stats.deleted_nodes + node_deletes(
                    group.nodes@,
                ) + node_deletes(group.dense_nodes@),
                self.stats.added_ways == old(self).stats.added_ways + i3 - way_deletes(
                    group.ways@.take(i3 as int),
                ),
                self.stats.deleted_ways == old(self).stats.deleted_ways + way_deletes(
                    group.ways@.take(i3 as int),
                ),
                self.stats.added_rels == old(self).stats.added_rels,
                self.stats.deleted_rels == old(self).stats.deleted_rels,
            decreases group.ways.len() - i3,
        {
            let s = self.on_way(cache, &group.ways[i3]);
            proof {
                lemma_count_creates_snoc(stmts@, s, Element::Node);
                lemma_count_creates_snoc(stmts@, s, Element::Way);
                lemma_count_creates_snoc(stmts@, s, Element::Relation);
                lemma_count_skips_snoc(stmts@, s);
                assert(group.ways@.take(i3 as int + 1) =~= group.ways@.take(i3 as int).push(
                    group.ways@[i3 as int],
                ));
                lemma_way_deletes_snoc(group.ways@.take(i3 as int), group.ways@[i3 as int]);
            }
            stmts.push(s);
            i3 += 1;
        }
        proof {
            assert(group.ways@.take(group.ways@.len() as int) =~= group.ways@);
        }
        let mut i4: usize = 0;
        while i4 < group.relations.len()
            invariant
                i4 <= group.relations@.len(),
                stmts@.len() == group.nodes@.len() + group.dense_nodes@.len() + group.ways@.len()
                    + i4,
                cache.wf(),
                cache.page == old(cache).page,
                stats_grew_by_at_most(self.stats, old(self).stats, stmts@.len() as int),
                old(self).stats.added_nodes + total < u64::MAX,
                old(self).stats.added_rels + total < u64::MAX,
                old(self).stats.added_ways + total < u64::MAX,
                old(self).stats.skipped_nodes + total < u64::MAX,
                old(self).stats.deleted_nodes + total < u64::MAX,
                old(self).stats.deleted_rels + total < u64::MAX,
                old(self).stats.deleted_ways + total < u64::MAX,
                old(self).stats.blocks < u64::MAX,
                total == group.nodes@.len() + group.dense_nodes@.len() + group.ways@.len()
                    + group.relations@.len(),
                count_creates(stmts@, Element::Node) == self.stats.added_nodes - old(
                    self,
                ).stats.added_nodes,
                count_creates(stmts@, Element::Way) == self.stats.added_ways - old(
                    self,
                ).stats.added_ways,
                count_creates(stmts@, Element::Relation) == self.stats.added_rels - old(
                    self,
                ).stats.added_rels,
                count_skips(stmts@) == self.stats.skipped_nodes - old(self).stats.skipped_nodes,
                self.stats.added_nodes == old(self).stats.added_nodes + node_creates(group.nodes@)
                    + node_creates(group.dense_nodes@),
                self.stats.skipped_nodes == old(self).stats.skipped_nodes + node_skips(
                    group.nodes@,
                ) + node_skips(group.dense_nodes@),
                self.stats.deleted_nodes == old(self).stats.deleted_nodes + node_deletes(
                    group.nodes@,
                ) + node_deletes(group.dense_nodes@),
                self.stats.added_ways == old(self).stats.added_ways + group.ways@.len()
                    - way_deletes(group.ways@),
                self.stats.deleted_ways == old(self).stats.deleted_ways + way_deletes(
                    group.ways@,
                ),
                self.stats.added_rels == old(self).stats.added_rels + i4 - rel_deletes(
                    group.relations@.take(i4 as int),
                ),
                self.stats.deleted_rels == old(self).stats.deleted_rels + rel_deletes(
                    group.relations@.take(i4 as int),
                ),
            decreases group.relations.len() - i4,
        {
            let s = self.on_relation(&group.relations[i4]);
            proof {
                lemma_count_creates_snoc(stmts@, s, Element::Node);
                lemma_count_creates_snoc(stmts@, s, Element::Way);
                lemma_count_creates_snoc(stmts@, s, Element::Relation);
                lemma_count_skips_snoc(stmts@, s);
                assert(group.relations@.take(i4 as int + 1) =~= group.relations@.take(
                    i4 as int,
                ).push(group.relations@[i4 as int]));
                lemma_rel_deletes_snoc(
                    group.relations@.take(i4 as int),
                    group.relations@[i4 as int],
                );
            }
            stmts.push(s);
            i4 += 1;
        }
        proof {
            assert(group.relations@.take(group.relations@.len() as int) =~= group.relations@);
        }
        stmts
    }
}

} // verus!
