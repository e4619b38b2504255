//! The RDF emitter: formatting helpers that append one predicate-object
//! clause each to a growing byte buffer, and the tag-emission rules.
use vstd::prelude::*;

use crate::bytes::{
    dec_i, dec_u, push_ascii, push_bytes, push_dec_i, push_dec_padded, push_dec_u, sb, zero_pad,
};
use crate::dates::{format_ts, is_ts_render};
use crate::escape::{json_escaped, push_json_escaped, wiki_encoded, push_wiki_encoded};
use crate::names::{
    contains_ascii, contains_sub, find_byte, find_semi, is_simple_local_name,
    is_wikidata_multi_value, is_wikidata_value, simple_local_name, wikidata_multi_value,
    wikidata_value, wikipedia_split, wikipedia_split_point,
};

verus! {

/// A JSON-quoted string object with the clause terminator: quote,
/// escaped text, quote, semicolon, line break.
pub open spec fn quoted_str(value: Seq<u8>) -> Seq<u8> {
    seq!['"' as u8] + json_escaped(value) + sb("\";\n")
}

/// `PRED "escaped-value";\n`
pub open spec fn str_value_clause(pred: Seq<u8>, value: Seq<u8>) -> Seq<u8> {
    pred + sb(" ") + quoted_str(value)
}

/// `PRED "C";\n`
pub open spec fn char_value_clause(pred: Seq<u8>, c: u8) -> Seq<u8> {
    pred + sb(" \"") + seq![c] + sb("\";\n")
}

/// `PRED "true|false"^^xsd:boolean;\n`
pub open spec fn bool_value_clause(pred: Seq<u8>, v: bool) -> Seq<u8> {
    pred + sb(" \"") + (if v {
        sb("true")
    } else {
        sb("false")
    }) + sb("\"^^xsd:boolean;\n")
}

/// `PRED "N"^^xsd:integer;\n`
pub open spec fn int_value_clause(pred: Seq<u8>, v: int) -> Seq<u8> {
    pred + sb(" \"") + dec_i(v) + sb("\"^^xsd:integer;\n")
}

/// `PRED "TS"^^xsd:dateTime;\n` for a given rendering `t` of the stamp.
pub open spec fn date_value_clause(pred: Seq<u8>, t: Seq<u8>) -> Seq<u8> {
    pred + sb(" \"") + t + sb("\"^^xsd:dateTime;\n")
}

/// Append the quoted-string object for `value`.
pub fn push_quoted_str(out: &mut Vec<u8>, value: &Vec<u8>)
    ensures
        final(out)@ == old(out)@ + quoted_str(value@),
{
    proof {
        reveal_strlit("\";\n");
    }
    out.push(0x22);
    push_json_escaped(out, value);
    push_ascii(out, "\";\n");
    proof {
        assert(out@ =~= old(out)@ + quoted_str(value@));
    }
}

/// Append `PRED "escaped-value";\n`.
pub fn push_str_value(out: &mut Vec<u8>, pred: &str, value: &Vec<u8>)
    requires
        pred.is_ascii(),
    ensures
        final(out)@ == old(out)@ + str_value_clause(sb(pred), value@),
{
    proof {
        reveal_strlit(" ");
    }
    push_ascii(out, pred);
    push_ascii(out, " ");
    push_quoted_str(out, value);
    proof {
        assert(out@ =~= old(out)@ + str_value_clause(sb(pred), value@));
    }
}

/// Append `PRED "C";\n`.
pub fn push_char_value(out: &mut Vec<u8>, pred: &str, c: u8)
    requires
        pred.is_ascii(),
    ensures
        final(out)@ == old(out)@ + char_value_clause(sb(pred), c),
{
    proof {
        reveal_strlit(" \"");
        reveal_strlit("\";\n");
    }
    push_ascii(out, pred);
    push_ascii(out, " \"");
    out.push(c);
    push_ascii(out, "\";\n");
    proof {
        assert(out@ =~= old(out)@ + char_value_clause(sb(pred), c));
    }
}

/// Append `PRED "true|false"^^xsd:boolean;\n`.
pub fn push_bool_value(out: &mut Vec<u8>, pred: &str, v: bool)
    requires
        pred.is_ascii(),
    ensures
        final(out)@ == old(out)@ + bool_value_clause(sb(pred), v),
{
    proof {
        reveal_strlit(" \"");
        reveal_strlit("true");
        reveal_strlit("false");
        reveal_strlit("\"^^xsd:boolean;\n");
    }
    push_ascii(out, pred);
    push_ascii(out, " \"");
    if v {
        push_ascii(out, "true");
    } else {
        push_ascii(out, "false");
    }
    push_ascii(out, "\"^^xsd:boolean;\n");
    proof {
        assert(out@ =~= old(out)@ + bool_value_clause(sb(pred), v));
    }
}

/// Append `PRED "N"^^xsd:integer;\n`.
pub fn push_int_value(out: &mut Vec<u8>, pred: &str, v: i64)
    requires
        pred.is_ascii(),
    ensures
        final(out)@ == old(out)@ + int_value_clause(sb(pred), v as int),
{
    proof {
        reveal_strlit(" \"");
        reveal_strlit("\"^^xsd:integer;\n");
    }
    push_ascii(out, pred);
    push_ascii(out, " \"");
    push_dec_i(out, v);
    push_ascii(out, "\"^^xsd:integer;\n");
    proof {
        assert(out@ =~= old(out)@ + int_value_clause(sb(pred), v as int));
    }
}

/// Append `PRED "TS"^^xsd:dateTime;\n`, rendering the millisecond
/// timestamp in UTC.
pub fn push_date_value(out: &mut Vec<u8>, pred: &str, milli_timestamp: i64)
    requires
        pred.is_ascii(),
    ensures
        exists|t: Seq<u8>|
            is_ts_render(milli_timestamp as int, t) && final(out)@ == old(out)@
                + #[trigger] date_value_clause(sb(pred), t),
{
    proof {
        reveal_strlit(" \"");
        reveal_strlit("\"^^xsd:dateTime;\n");
    }
    push_ascii(out, pred);
    push_ascii(out, " \"");
    let ts = format_ts(milli_timestamp);
    push_bytes(out, &ts);
    push_ascii(out, "\"^^xsd:dateTime;\n");
    proof {
        assert(out@ =~= old(out)@ + date_value_clause(sb(pred), ts@));
    }
}

/// Trailing ASCII zeroes removed.
pub open spec fn trim_zeros(s: Seq<u8>) -> Seq<u8>
    decreases s.len(),
{
    if s.len() > 0 && s.last() == '0' as u8 {
        trim_zeros(s.drop_last())
    } else {
        s
    }
}

/// A decimicro-degree coordinate as plain decimal text: the integer
/// part, and the fractional digits without trailing zeroes when there
/// are any.
pub open spec fn dmc_str(v: int) -> Seq<u8> {
    let a = (if v < 0 {
        -v
    } else {
        v
    });
    let sign = (if v < 0 {
        seq!['-' as u8]
    } else {
        Seq::<u8>::empty()
    });
    sign + dec_u((a / 10000000) as nat) + (if a % 10000000 == 0 {
        Seq::<u8>::empty()
    } else {
        seq!['.' as u8] + trim_zeros(zero_pad(dec_u((a % 10000000) as nat), 7))
    })
}

/// Append the decimal rendering of one decimicro coordinate.
pub fn push_dmc(out: &mut Vec<u8>, v: i32)
    ensures
        final(out)@ == old(out)@ + dmc_str(v as int),
{
    let mag: u64 = if v < 0 {
        out.push('-' as u8);
        (-(v as i64)) as u64
    } else {
        v as u64
    };
    let whole: u64 = mag / 10000000;
    let frac: u64 = mag % 10000000;
    push_dec_u(out, whole);
    if frac > 0 {
        out.push('.' as u8);
        let mut fd: Vec<u8> = Vec::new();
        push_dec_padded(&mut fd, frac, 7);
        let ghost fd0 = fd@;
        while fd.len() > 0 && fd[fd.len() - 1] == 0x30
            invariant
                trim_zeros(fd@) == trim_zeros(fd0),
            decreases fd.len(),
        {
            proof {
                assert(fd@.last() == '0' as u8);
                assert(trim_zeros(fd@) == trim_zeros(fd@.drop_last()));
            }
            fd.pop();
        }
        proof {
            assert(trim_zeros(fd@) == fd@);
        }
        push_bytes(out, &fd);
    }
    proof {
        assert(out@ =~= old(out)@ + dmc_str(v as int));
    }
}

/// `PRED "Point(LON LAT)"^^geo:wktLiteral;\n`, longitude first, both
/// as decimicro fixed-point decimals.
pub open spec fn point_clause(pred: Seq<u8>, lat_dmc: int, lon_dmc: int) -> Seq<u8> {
    pred + sb(" \"Point(") + dmc_str(lon_dmc) + sb(" ") + dmc_str(lat_dmc) + sb(
        ")\"^^geo:wktLiteral;\n",
    )
}

/// Append the point clause for one coordinate pair.
pub fn push_point(out: &mut Vec<u8>, pred: &str, lat_dmc: i32, lon_dmc: i32)
    requires
        pred.is_ascii(),
    ensures
        final(out)@ == old(out)@ + point_clause(sb(pred), lat_dmc as int, lon_dmc as int),
{
    proof {
        reveal_strlit(" \"Point(");
        reveal_strlit(" ");
        reveal_strlit(")\"^^geo:wktLiteral;\n");
    }
    push_ascii(out, pred);
    push_ascii(out, " \"Point(");
    push_dmc(out, lon_dmc);
    push_ascii(out, " ");
    push_dmc(out, lat_dmc);
    push_ascii(out, ")\"^^geo:wktLiteral;\n");
    proof {
        assert(out@ =~= old(out)@ + point_clause(sb(pred), lat_dmc as int, lon_dmc as int));
    }
}

/// `<https://LANG.wikipedia.org/wiki/ENCODED-TITLE>;\n`
pub open spec fn wiki_url_clause(lang: Seq<u8>, title: Seq<u8>) -> Seq<u8> {
    sb("<https://") + lang + sb(".wikipedia.org/wiki/") + wiki_encoded(title) + sb(">;\n")
}

/// Append a wiki URL object for a language and title.
pub fn push_wiki_url(out: &mut Vec<u8>, lang: &Vec<u8>, title: &Vec<u8>)
    ensures
        final(out)@ == old(out)@ + wiki_url_clause(lang@, title@),
{
    proof {
        reveal_strlit("<https://");
        reveal_strlit(".wikipedia.org/wiki/");
        reveal_strlit(">;\n");
    }
    push_ascii(out, "<https://");
    push_bytes(out, lang);
    push_ascii(out, ".wikipedia.org/wiki/");
    push_wiki_encoded(out, title);
    push_ascii(out, ">;\n");
    proof {
        assert(out@ =~= old(out)@ + wiki_url_clause(lang@, title@));
    }
}

/// The comma-separated `wd:` list for a semicolon-separated value,
/// with no trailing comma.
pub open spec fn wd_list_body(s: Seq<u8>) -> Seq<u8>
    decreases s.len(),
{
    let i = find_byte(s, ';' as u8);
    if 0 <= i < s.len() {
        sb("wd:") + s.take(i) + sb(",") + wd_list_body(s.skip(i + 1))
    } else {
        sb("wd:") + s
    }
}

/// Append a copy of the range `[a, b)` of `src`.
pub fn push_range(out: &mut Vec<u8>, src: &Vec<u8>, a: usize, b: usize)
    requires
        a <= b <= src@.len(),
    ensures
        final(out)@ == old(out)@ + src@.subrange(a as int, b as int),
{
    let mut i: usize = a;
    while i < b
        invariant
            a <= i <= b <= src@.len(),
            out@ == old(out)@ + src@.subrange(a as int, i as int),
        decreases b - i,
    {
        proof {
            assert(src@.subrange(a as int, i as int + 1) =~= src@.subrange(
                a as int,
                i as int,
            ).push(src@[i as int]));
        }
        out.push(src[i]);
        i += 1;
    }
}

/// Append the `wd:` list for a semicolon-separated value.
pub fn push_wd_list(out: &mut Vec<u8>, s: &Vec<u8>)
    ensures
        final(out)@ == old(out)@ + wd_list_body(s@),
{
    proof {
        reveal_strlit("wd:");
        reveal_strlit(",");
        assert(s@.skip(0) =~= s@);
    }
    let mut start: usize = 0;
    loop
        invariant
            start <= s@.len(),
            old(out)@ + wd_list_body(s@) == out@ + wd_list_body(s@.skip(start as int)),
        decreases s@.len() - start,
    {
        proof {
            reveal_strlit("wd:");
            reveal_strlit(",");
        }
        let k = find_semi(s, start);
        push_ascii(out, "wd:");
        push_range(out, s, start, k);
        proof {
            assert(s@.skip(start as int).take(k - start) =~= s@.subrange(start as int, k as int));
        }
        if k == s.len() {
            proof {
                assert(s@.skip(start as int) =~= s@.subrange(start as int, k as int));
            }
            return ;
        }
        push_ascii(out, ",");
        proof {
            assert(s@.skip(start as int).skip(k - start + 1) =~= s@.skip(k + 1));
        }
        start = k + 1;
    }
}

/// The whole clause one tag becomes, by the emission rules: a bad key
/// becomes an `osmm:badkey` string clause; a wikidata key with a
/// matching value becomes a `wd:` object or list; a wikipedia key with
/// a matching value becomes a wiki URL; everything else a quoted string.
pub open spec fn tag_clause(key: Seq<u8>, value: Seq<u8>) -> Seq<u8> {
    if !is_simple_local_name(key) {
        str_value_clause(sb("osmm:badkey"), value)
    } else {
        sb("osmt:") + key + sb(" ") + (if contains_sub(key, sb("wikidata")) {
            if is_wikidata_value(value) {
                sb("wd:") + value + sb(";\n")
            } else if is_wikidata_multi_value(value) {
                wd_list_body(value) + sb(";\n")
            } else {
                quoted_str(value)
            }
        } else if contains_sub(key, sb("wikipedia")) {
            match wikipedia_split(value) {
                Some(parts) => wiki_url_clause(parts.0, parts.1),
                None => quoted_str(value),
            }
        } else {
            quoted_str(value)
        })
    }
}

/// A tag whose key is a simple local name holding neither `wikidata`
/// nor `wikipedia` becomes exactly `osmt:KEY "ESCAPED-VALUE";\n`.
pub proof fn lemma_tag_plain(key: Seq<u8>, value: Seq<u8>)
    requires
        is_simple_local_name(key),
        !contains_sub(key, sb("wikidata")),
        !contains_sub(key, sb("wikipedia")),
    ensures
        tag_clause(key, value) == sb("osmt:") + key + sb(" ") + quoted_str(value),
{
}

/// A tag whose key is a simple local name holding `wikidata`, with a
/// value matching the wikidata identifier shape, becomes exactly
/// `osmt:KEY wd:VALUE;\n`, unquoted.
pub proof fn lemma_tag_wikidata(key: Seq<u8>, value: Seq<u8>)
    requires
        is_simple_local_name(key),
        contains_sub(key, sb("wikidata")),
        is_wikidata_value(value),
    ensures
        tag_clause(key, value) == sb("osmt:") + key + sb(" ") + (sb("wd:") + value + sb(";\n")),
{
}

/// Append the clause for one tag.
pub fn push_tag(out: &mut Vec<u8>, key: &Vec<u8>, value: &Vec<u8>)
    ensures
        final(out)@ == old(out)@ + tag_clause(key@, value@),
{
    proof {
        reveal_strlit("osmm:badkey");
        reveal_strlit("osmt:");
        reveal_strlit(" ");
        reveal_strlit("wikidata");
        reveal_strlit("wikipedia");
        reveal_strlit("wd:");
        reveal_strlit(";\n");
    }
    if !simple_local_name(key) {
        push_str_value(out, "osmm:badkey", value);
        return ;
    }
    push_ascii(out, "osmt:");
    push_bytes(out, key);
    push_ascii(out, " ");
    if contains_ascii(key, "wikidata") {
        if wikidata_value(value) {
            push_ascii(out, "wd:");
            push_bytes(out, value);
            push_ascii(out, ";\n");
        } else if wikidata_multi_value(value) {
            push_wd_list(out, value);
            push_ascii(out, ";\n");
        } else {
            push_quoted_str(out, value);
        }
    } else if contains_ascii(key, "wikipedia") {
        match wikipedia_split_point(value) {
            Some(p) => {
                let vl = value.len();
                let lang = copy_range(value, 0, p);
                let title = copy_range(value, p + 1, vl);
                proof {
                    assert(value@.take(p as int) =~= value@.subrange(0, p as int));
                    assert(value@.skip(p as int + 1) =~= value@.subrange(
                        p as int + 1,
                        value@.len() as int,
                    ));
                }
                push_wiki_url(out, &lang, &title);
            },
            None => {
                push_quoted_str(out, value);
            },
        }
    } else {
        push_quoted_str(out, value);
    }
    proof {
        assert(out@ =~= old(out)@ + tag_clause(key@, value@));
    }
}

/// A copy of the range `[a, b)` of `src` as a fresh vector.
pub fn copy_range(src: &Vec<u8>, a: usize, b: usize) -> (r: Vec<u8>)
    requires
        a <= b <= src@.len(),
    ensures
        r@ == src@.subrange(a as int, b as int),
{
    let mut r: Vec<u8> = Vec::new();
    push_range(&mut r, src, a, b);
    r
}

/// The metadata block: version, user, timestamp and changeset clauses,
/// with the final separator rewritten to `.` and a line break.
pub open spec fn metadata_body(version: int, user: Seq<u8>, t: Seq<u8>, changeset: int) -> Seq<u8> {
    int_value_clause(sb("osmm:version"), version) + str_value_clause(sb("osmm:user"), user)
        + date_value_clause(sb("osmm:timestamp"), t) + sb("osmm:changeset") + sb(" \"") + dec_i(
        changeset,
    ) + sb("\"^^xsd:integer.\n")
}

/// Append the metadata block for one record.
#[verifier::rlimit(60)]
pub fn push_metadata(out: &mut Vec<u8>, version: i32, user: &Vec<u8>, milli_timestamp: i64, changeset: i64)
    ensures
        exists|t: Seq<u8>|
            is_ts_render(milli_timestamp as int, t) && final(out)@ == old(out)@
                + #[trigger] metadata_body(version as int, user@, t, changeset as int),
{
    proof {
        reveal_strlit("osmm:version");
        reveal_strlit("osmm:user");
        reveal_strlit("osmm:timestamp");
        reveal_strlit("osmm:changeset");
        reveal_strlit(" \"");
        reveal_strlit("\"^^xsd:dateTime;\n");
        reveal_strlit("\"^^xsd:integer.\n");
    }
    push_int_value(out, "osmm:version", version as i64);
    push_str_value(out, "osmm:user", user);
    push_ascii(out, "osmm:timestamp");
    push_ascii(out, " \"");
    let ts = format_ts(milli_timestamp);
    push_bytes(out, &ts);
    push_ascii(out, "\"^^xsd:dateTime;\n");
    push_ascii(out, "osmm:changeset");
    push_ascii(out, " \"");
    push_dec_i(out, changeset);
    push_ascii(out, "\"^^xsd:integer.\n");
    proof {
        assert(out@ =~= old(out)@ + metadata_body(version as int, user@, ts@, changeset as int));
    }
}

} // verus!
