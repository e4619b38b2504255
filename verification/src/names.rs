//! The small grammars that tag emission needs: simple local names,
//! wikidata identifiers and identifier lists, wikipedia values, and
//! substring search for the special key families.
use vstd::prelude::*;

use crate::bytes::sb;

verus! {

/// A letter, digit or underscore.
pub open spec fn word_byte(b: u8) -> bool {
    ||| 0x30 <= b <= 0x39
    ||| 0x41 <= b <= 0x5a
    ||| 0x61 <= b <= 0x7a
    ||| b == '_' as u8
}

/// A byte allowed in the middle of a simple local name.
pub open spec fn mid_byte(b: u8) -> bool {
    word_byte(b) || b == '-' as u8 || b == ':' as u8
}

/// Executable test for `word_byte`.
pub fn is_word_byte(b: u8) -> (r: bool)
    ensures
        r == word_byte(b),
{
    (0x30 <= b && b <= 0x39) || (0x41 <= b && b <= 0x5a) || (0x61 <= b && b <= 0x7a) || b == 0x5f
}

/// A simple local name: at most sixty bytes, a word byte at either end,
/// and only word bytes, dashes and colons between them.
pub open spec fn is_simple_local_name(s: Seq<u8>) -> bool {
    &&& 1 <= s.len() <= 60
    &&& word_byte(s[0])
    &&& word_byte(s[s.len() - 1])
    &&& forall|i: int| 0 < i < s.len() - 1 ==> mid_byte(#[trigger] s[i])
}

/// Executable test for `is_simple_local_name`.
pub fn simple_local_name(s: &Vec<u8>) -> (r: bool)
    ensures
        r == is_simple_local_name(s@),
{
    if s.len() < 1 || s.len() > 60 {
        return false;
    }
    if !is_word_byte(s[0]) || !is_word_byte(s[s.len() - 1]) {
        return false;
    }
    let mut i: usize = 1;
    while i + 1 < s.len()
        invariant
            1 <= i <= s@.len() <= 60,
            forall|j: int| 0 < j < i ==> mid_byte(#[trigger] s@[j]),
        decreases s.len() - i,
    {
        let b = s[i];
        if !(is_word_byte(b) || b == 0x2d || b == 0x3a) {
            return false;
        }
        i += 1;
    }
    true
}

/// A wikidata identifier: `Q`, a nonzero digit, then at most eighteen
/// more digits.
pub open spec fn is_wikidata_value(s: Seq<u8>) -> bool {
    &&& 2 <= s.len() <= 20
    &&& s[0] == 'Q' as u8
    &&& 0x31 <= s[1] <= 0x39
    &&& forall|i: int| 2 <= i < s.len() ==> 0x30 <= #[trigger] s[i] <= 0x39
}

/// Executable test for `is_wikidata_value` on the range `[from, to)` of `s`.
pub fn wikidata_value_range(s: &Vec<u8>, from: usize, to: usize) -> (r: bool)
    requires
        from <= to <= s@.len(),
    ensures
        r == is_wikidata_value(s@.subrange(from as int, to as int)),
{
    let n = to - from;
    if n < 2 || n > 20 {
        return false;
    }
    if s[from] != 0x51 {
        return false;
    }
    let b1 = s[from + 1];
    if !(0x31 <= b1 && b1 <= 0x39) {
        return false;
    }
    let mut i: usize = 2;
    while i < n
        invariant
            2 <= i <= n,
            n == to - from,
            from <= to <= s@.len(),
            forall|j: int| 2 <= j < i ==> 0x30 <= #[trigger] s@[from + j] <= 0x39,
        decreases n - i,
    {
        let b = s[from + i];
        if !(0x30 <= b && b <= 0x39) {
            proof {
                assert(s@.subrange(from as int, to as int)[i as int] == s@[from + i]);
            }
            return false;
        }
        i += 1;
    }
    proof {
        assert forall|j: int| 2 <= j < n implies 0x30 <= #[trigger] s@.subrange(
            from as int,
            to as int,
        )[j] <= 0x39 by {
            assert(s@.subrange(from as int, to as int)[j] == s@[from + j]);
        }
    }
    true
}

/// Executable test for `is_wikidata_value` on a whole vector.
pub fn wikidata_value(s: &Vec<u8>) -> (r: bool)
    ensures
        r == is_wikidata_value(s@),
{
    let r = wikidata_value_range(s, 0, s.len());
    proof {
        assert(s@.subrange(0, s@.len() as int) =~= s@);
    }
    r
}

/// The index of the first occurrence of `b` in `s`, or the length of
/// `s` when `b` does not occur.
pub open spec fn find_byte(s: Seq<u8>, b: u8) -> int
    decreases s.len(),
{
    if s.len() == 0 {
        0
    } else if s[0] == b {
        0
    } else {
        1 + find_byte(s.drop_first(), b)
    }
}

/// A position that carries `b` with nothing equal before it is what
/// `find_byte` returns.
pub proof fn lemma_find_byte_is(s: Seq<u8>, b: u8, k: int)
    requires
        0 <= k <= s.len(),
        k < s.len() ==> s[k] == b,
        forall|m: int| 0 <= m < k ==> s[m] != b,
    ensures
        find_byte(s, b) == k,
    decreases s.len(),
{
    if s.len() > 0 && s[0] != b {
        lemma_find_byte_is(s.drop_first(), b, k - 1);
    }
}

/// The rest of a wikidata identifier list: one identifier, or one
/// identifier, a semicolon and another such rest.
pub open spec fn wd_list_tail(s: Seq<u8>) -> bool
    decreases s.len(),
{
    let i = find_byte(s, ';' as u8);
    if 0 <= i < s.len() {
        is_wikidata_value(s.take(i)) && wd_list_tail(s.skip(i + 1))
    } else {
        is_wikidata_value(s)
    }
}

/// A wikidata identifier list: two or more identifiers separated by
/// single semicolons.
pub open spec fn is_wikidata_multi_value(s: Seq<u8>) -> bool {
    let i = find_byte(s, ';' as u8);
    0 <= i < s.len() && is_wikidata_value(s.take(i)) && wd_list_tail(s.skip(i + 1))
}

/// The first position at or after `from` that carries a semicolon, or
/// the length of `s`.
pub fn find_semi(s: &Vec<u8>, from: usize) -> (k: usize)
    requires
        from <= s@.len(),
    ensures
        from <= k <= s@.len(),
        k < s@.len() ==> s@[k as int] == ';' as u8,
        forall|m: int| from <= m < k ==> s@[m] != ';' as u8,
        find_byte(s@.skip(from as int), ';' as u8) == k - from,
{
    let mut k: usize = from;
    while k < s.len()
        invariant
            from <= k <= s@.len(),
            forall|m: int| from <= m < k ==> s@[m] != ';' as u8,
        ensures
            from <= k <= s@.len(),
            k < s@.len() ==> s@[k as int] == ';' as u8,
            forall|m: int| from <= m < k ==> s@[m] != ';' as u8,
        decreases s.len() - k,
    {
        if s[k] == 0x3b {
            break ;
        }
        k += 1;
    }
    proof {
        assert forall|m: int| 0 <= m < k - from implies s@.skip(from as int)[m]
            != ';' as u8 by {
            assert(s@.skip(from as int)[m] == s@[from + m]);
        }
        lemma_find_byte_is(s@.skip(from as int), ';' as u8, k - from);
    }
    k
}

/// Executable test for `is_wikidata_multi_value`.
pub fn wikidata_multi_value(s: &Vec<u8>) -> (r: bool)
    ensures
        r == is_wikidata_multi_value(s@),
{
    proof {
        assert(s@.skip(0) =~= s@);
    }
    let k = find_semi(s, 0);
    if k == s.len() {
        return false;
    }
    proof {
        assert(s@.take(k as int) =~= s@.subrange(0, k as int));
    }
    if !wikidata_value_range(s, 0, k) {
        return false;
    }
    let mut start: usize = k + 1;
    loop
        invariant
            0 < start <= s@.len(),
            is_wikidata_multi_value(s@) == wd_list_tail(s@.skip(start as int)),
        decreases s@.len() - start,
    {
        let k2 = find_semi(s, start);
        proof {
            assert(s@.skip(start as int).take(k2 - start) =~= s@.subrange(
                start as int,
                k2 as int,
            ));
        }
        if k2 == s.len() {
            proof {
                assert(s@.skip(start as int) =~= s@.subrange(start as int, k2 as int));
            }
            return wikidata_value_range(s, start, k2);
        }
        if !wikidata_value_range(s, start, k2) {
            return false;
        }
        proof {
            assert(s@.skip(start as int).skip(k2 - start + 1) =~= s@.skip(k2 + 1));
        }
        start = k2 + 1;
    }
}

/// `s` holds `p` as a contiguous run.
pub open spec fn contains_sub(s: Seq<u8>, p: Seq<u8>) -> bool {
    exists|i: int| 0 <= i <= s.len() - p.len() && #[trigger] s.subrange(i, i + p.len()) == p
}

/// Executable substring search: does `s` hold the bytes of the ASCII
/// literal `p` anywhere?
pub fn contains_ascii(s: &Vec<u8>, p: &str) -> (r: bool)
    requires
        p.is_ascii(),
        p@.len() >= 1,
    ensures
        r == contains_sub(s@, sb(p)),
{
    broadcast use vstd::string::is_ascii_spec_bytes;

    let pb: &[u8] = p.as_bytes();
    let plen: usize = pb.len();
    let slen: usize = s.len();
    if slen < plen {
        return false;
    }
    let mut i: usize = 0;
    while i <= slen - plen
        invariant
            pb@ == sb(p),
            plen == pb@.len() >= 1,
            slen == s@.len(),
            plen <= slen,
            0 <= i <= slen - plen + 1,
            forall|ii: int| 0 <= ii < i ==> #[trigger] s@.subrange(ii, ii + sb(p).len()) != sb(p),
        decreases slen - i,
    {
        let mut j: usize = 0;
        let mut ok: bool = true;
        while j < plen
            invariant
                pb@ == sb(p),
                plen == pb@.len(),
                slen == s@.len(),
                0 <= i <= slen - plen,
                0 <= j <= plen,
                ok ==> forall|m: int| 0 <= m < j ==> s@[i + m] == sb(p)[m],
                !ok ==> s@.subrange(i as int, i + sb(p).len()) != sb(p),
            decreases plen - j,
        {
            if s[i + j] != pb[j] {
                proof {
                    assert(s@.subrange(i as int, i + sb(p).len())[j as int] == s@[i + j]);
                }
                ok = false;
                j = plen;
            } else {
                j += 1;
            }
        }
        if ok {
            proof {
                assert(s@.subrange(i as int, i + sb(p).len()) =~= sb(p));
            }
            return true;
        }
        i += 1;
    }
    false
}

/// A byte the language part of a wikipedia value may carry: a dash or
/// a lowercase letter.
pub open spec fn lang_byte(b: u8) -> bool {
    b == '-' as u8 || 0x61 <= b <= 0x7a
}

/// The index of the first byte that the language part may not carry,
/// or the length of `s`.
pub open spec fn find_not_lang(s: Seq<u8>) -> int
    decreases s.len(),
{
    if s.len() == 0 {
        0
    } else if !lang_byte(s[0]) {
        0
    } else {
        1 + find_not_lang(s.drop_first())
    }
}

/// A wikipedia value splits into a nonempty all-lowercase language, a
/// colon, and a nonempty title without a line break.
pub open spec fn wikipedia_split(s: Seq<u8>) -> Option<(Seq<u8>, Seq<u8>)> {
    let p = find_not_lang(s);
    if 1 <= p < s.len() && s[p] == ':' as u8 && p + 1 < s.len() && !s.skip(p + 1).contains(
        '\n' as u8,
    ) {
        Some((s.take(p), s.skip(p + 1)))
    } else {
        None
    }
}

proof fn lemma_find_not_lang_is(s: Seq<u8>, k: int)
    requires
        0 <= k <= s.len(),
        k < s.len() ==> !lang_byte(s[k]),
        forall|m: int| 0 <= m < k ==> lang_byte(#[trigger] s[m]),
    ensures
        find_not_lang(s) == k,
    decreases s.len(),
{
    if s.len() > 0 && lang_byte(s[0]) {
        lemma_find_not_lang_is(s.drop_first(), k - 1);
    }
}

/// Find the split point of a wikipedia value: `Some(p)` exactly when
/// the value matches, with the language before `p` and the title after
/// the colon at `p`.
pub fn wikipedia_split_point(s: &Vec<u8>) -> (r: Option<usize>)
    ensures
        match r {
            Some(p) => wikipedia_split(s@) == Some(
                (s@.take(p as int), s@.skip(p as int + 1)),
            ) && 1 <= p < s@.len(),
            None => wikipedia_split(s@) is None,
        },
{
    let mut p: usize = 0;
    loop
        invariant
            0 <= p <= s@.len(),
            forall|m: int| 0 <= m < p ==> lang_byte(#[trigger] s@[m]),
        ensures
            0 <= p <= s@.len(),
            forall|m: int| 0 <= m < p ==> lang_byte(#[trigger] s@[m]),
            p < s@.len() ==> !lang_byte(s@[p as int]),
        decreases s@.len() - p,
    {
        if p >= s.len() {
            break ;
        }
        let b = s[p];
        if !(b == 0x2d || (0x61 <= b && b <= 0x7a)) {
            break ;
        }
        p += 1;
    }
    proof {
        lemma_find_not_lang_is(s@, p as int);
    }
    if p < 1 || p >= s.len() || s[p] != 0x3a || p + 1 >= s.len() {
        return None;
    }
    let mut m: usize = p + 1;
    while m < s.len()
        invariant
            find_not_lang(s@) == p,
            1 <= p < s@.len(),
            s@[p as int] == ':' as u8,
            p + 1 < s@.len(),
            p + 1 <= m <= s@.len(),
            forall|j: int| p + 1 <= j < m ==> s@[j] != '\n' as u8,
        decreases s.len() - m,
    {
        if s[m] == 0x0a {
            proof {
                assert(s@.skip(p as int + 1)[m - (p + 1)] == s@[m as int]);
                assert(s@.skip(p as int + 1).contains('\n' as u8));
            }
            return None;
        }
        m += 1;
    }
    proof {
        assert forall|j: int| 0 <= j < s@.skip(p as int + 1).len() implies #[trigger] s@.skip(
            p as int + 1,
        )[j] != '\n' as u8 by {
            assert(s@.skip(p as int + 1)[j] == s@[p + 1 + j]);
        }
        assert(!s@.skip(p as int + 1).contains('\n' as u8));
    }
    Some(p)
}

} // verus!
