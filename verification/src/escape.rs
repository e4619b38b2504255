//! JSON string escaping and the percent-encoding used for wiki URLs.
use vstd::prelude::*;

use crate::bytes::{
    expand, hex_lower, hex_lower_digit, hex_upper, hex_upper_digit, lemma_expand_take_all,
    lemma_expand_take_step, sb,
};

verus! {

/// What JSON string escaping turns one byte into: the short escapes for
/// quote, backslash and the common controls, `\u00xx` with lowercase hex
/// for the remaining controls, and every other byte unchanged.
pub open spec fn json_esc_byte(b: u8) -> Seq<u8> {
    if b == '"' as u8 {
        seq!['\\' as u8, '"' as u8]
    } else if b == '\\' as u8 {
        seq!['\\' as u8, '\\' as u8]
    } else if b == 0x08 {
        seq!['\\' as u8, 'b' as u8]
    } else if b == '\t' as u8 {
        seq!['\\' as u8, 't' as u8]
    } else if b == '\n' as u8 {
        seq!['\\' as u8, 'n' as u8]
    } else if b == 0x0c {
        seq!['\\' as u8, 'f' as u8]
    } else if b == '\r' as u8 {
        seq!['\\' as u8, 'r' as u8]
    } else if b < 0x20 {
        seq!['\\' as u8, 'u' as u8, '0' as u8, '0' as u8, hex_lower((b / 16) as nat), hex_lower(
            (b % 16) as nat,
        )]
    } else {
        seq![b]
    }
}

/// The escaping function as a value, so that every use names one closure.
pub open spec fn json_esc_fn() -> spec_fn(u8) -> Seq<u8> {
    |b: u8| json_esc_byte(b)
}

/// The JSON escaping of a whole byte string.
pub open spec fn json_escaped(s: Seq<u8>) -> Seq<u8> {
    expand(s, json_esc_fn())
}

proof fn lemma_json_take_step(s: Seq<u8>, i: int)
    requires
        0 <= i < s.len(),
    ensures
        json_escaped(s.take(i + 1)) == json_escaped(s.take(i)) + json_esc_byte(s[i]),
{
    lemma_expand_take_step(s, json_esc_fn(), i);
}

/// Append the JSON escaping of `s` to `out`.
pub fn push_json_escaped(out: &mut Vec<u8>, s: &Vec<u8>)
    ensures
        final(out)@ == old(out)@ + json_escaped(s@),
{
    let mut i: usize = 0;
    while i < s.len()
        invariant
            i <= s.len(),
            out@ == old(out)@ + json_escaped(s@.take(i as int)),
        decreases s.len() - i,
    {
        proof {
            lemma_json_take_step(s@, i as int);
        }
        let b = s[i];
        if b == 0x22 {
            out.push(0x5c);
            out.push(0x22);
        } else if b == 0x5c {
            out.push(0x5c);
            out.push(0x5c);
        } else if b == 0x08 {
            out.push(0x5c);
            out.push('b' as u8);
        } else if b == 0x09 {
            out.push(0x5c);
            out.push('t' as u8);
        } else if b == 0x0a {
            out.push(0x5c);
            out.push('n' as u8);
        } else if b == 0x0c {
            out.push(0x5c);
            out.push('f' as u8);
        } else if b == 0x0d {
            out.push(0x5c);
            out.push('r' as u8);
        } else if b < 0x20 {
            out.push(0x5c);
            out.push('u' as u8);
            out.push('0' as u8);
            out.push('0' as u8);
            out.push(hex_lower_digit(b / 16));
            out.push(hex_lower_digit(b % 16));
        } else {
            out.push(b);
        }
        proof {
            assert(out@ =~= old(out)@ + json_escaped(s@.take(i as int)) + json_esc_byte(
                s@[i as int],
            ));
            assert(out@ =~= old(out)@ + json_escaped(s@.take(i as int + 1)));
        }
        i += 1;
    }
    proof {
        lemma_expand_take_all(s@, json_esc_fn());
    }
}

/// The bytes that the wiki-URL percent-encoding replaces: everything
/// outside printable ASCII, and a fixed set of printable characters.
pub open spec fn wiki_enc_set(b: u8) -> bool {
    ||| b < 0x20
    ||| b >= 0x7f
    ||| b == ';' as u8
    ||| b == '@' as u8
    ||| b == '$' as u8
    ||| b == '!' as u8
    ||| b == '*' as u8
    ||| b == '(' as u8
    ||| b == ')' as u8
    ||| b == ',' as u8
    ||| b == '/' as u8
    ||| b == '~' as u8
    ||| b == ':' as u8
    ||| b == '#' as u8
}

/// Executable membership test for the percent-encoding set.
pub fn in_wiki_enc_set(b: u8) -> (r: bool)
    ensures
        r == wiki_enc_set(b),
{
    b < 0x20 || b >= 0x7f || b == 0x3b || b == 0x40 || b == 0x24 || b == 0x21 || b == 0x2a || b
        == 0x28 || b == 0x29 || b == 0x2c || b == 0x2f || b == 0x7e || b == 0x3a || b == 0x23
}

/// What the wiki-URL encoding turns one byte into: a space becomes an
/// underscore, a byte of the set becomes `%` and two uppercase hex
/// digits, anything else stays.
pub open spec fn wiki_enc_byte(b: u8) -> Seq<u8> {
    if b == ' ' as u8 {
        seq!['_' as u8]
    } else if wiki_enc_set(b) {
        seq!['%' as u8, hex_upper((b / 16) as nat), hex_upper((b % 16) as nat)]
    } else {
        seq![b]
    }
}

/// The encoding function as a value, so that every use names one closure.
pub open spec fn wiki_enc_fn() -> spec_fn(u8) -> Seq<u8> {
    |b: u8| wiki_enc_byte(b)
}

/// The wiki-URL encoding of a whole title.
pub open spec fn wiki_encoded(s: Seq<u8>) -> Seq<u8> {
    expand(s, wiki_enc_fn())
}

proof fn lemma_wiki_take_step(s: Seq<u8>, i: int)
    requires
        0 <= i < s.len(),
    ensures
        wiki_encoded(s.take(i + 1)) == wiki_encoded(s.take(i)) + wiki_enc_byte(s[i]),
{
    lemma_expand_take_step(s, wiki_enc_fn(), i);
}

/// Append the wiki-URL encoding of `s` to `out`.
pub fn push_wiki_encoded(out: &mut Vec<u8>, s: &Vec<u8>)
    ensures
        final(out)@ == old(out)@ + wiki_encoded(s@),
{
    let mut i: usize = 0;
    while i < s.len()
        invariant
            i <= s.len(),
            out@ == old(out)@ + wiki_encoded(s@.take(i as int)),
        decreases s.len() - i,
    {
        proof {
            lemma_wiki_take_step(s@, i as int);
        }
        let b = s[i];
        if b == 0x20 {
            out.push('_' as u8);
        } else if in_wiki_enc_set(b) {
            out.push('%' as u8);
            out.push(hex_upper_digit(b / 16));
            out.push(hex_upper_digit(b % 16));
        } else {
            out.push(b);
        }
        proof {
            assert(out@ =~= old(out)@ + wiki_encoded(s@.take(i as int)) + wiki_enc_byte(
                s@[i as int],
            ));
            assert(out@ =~= old(out)@ + wiki_encoded(s@.take(i as int + 1)));
        }
        i += 1;
    }
    proof {
        lemma_expand_take_all(s@, wiki_enc_fn());
    }
}

/// In an encoded wiki title no space survives, and no byte of the
/// percent-encoding set survives: a space comes out as an underscore,
/// and a byte of the set only as a percent sign with two hex digits,
/// none of which the set contains.
pub proof fn lemma_wiki_encoding_clean(s: Seq<u8>)
    ensures
        forall|i: int|
            0 <= i < wiki_encoded(s).len() ==> #[trigger] wiki_encoded(s)[i] != ' ' as u8
                && !wiki_enc_set(wiki_encoded(s)[i]),
    decreases s.len(),
{
    if s.len() > 0 {
        lemma_wiki_encoding_clean(s.drop_first());
        assert forall|i: int| 0 <= i < wiki_encoded(s).len() implies #[trigger] wiki_encoded(s)[i]
            != ' ' as u8 && !wiki_enc_set(wiki_encoded(s)[i]) by {
            assert(wiki_encoded(s) == wiki_enc_byte(s[0]) + wiki_encoded(s.drop_first()));
            if i < wiki_enc_byte(s[0]).len() {
                assert(wiki_encoded(s)[i] == wiki_enc_byte(s[0])[i]);
            } else {
                assert(wiki_encoded(s)[i] == wiki_encoded(s.drop_first())[i - wiki_enc_byte(
                    s[0],
                ).len()]);
            }
        }
    }
}

} // verus!
