use vstd::prelude::*;
use vstd::string::StrSliceExecFns;

verus! {

/// Character-for-character string comparison; the standard comparison on
/// `&str` carries no specification, so the library spells it out.
pub fn str_eq(a: &str, b: &str) -> (r: bool)
    ensures
        r == (a@ == b@),
{
    let alen = a.unicode_len();
    let blen = b.unicode_len();
    if alen != blen {
        return false;
    }
    let mut i: usize = 0;
    while i < alen
        invariant
            alen == a@.len(),
            blen == b@.len(),
            alen == blen,
            i <= alen,
            forall|k: int| 0 <= k < i ==> a@[k] == b@[k],
        decreases alen - i,
    {
        if a.get_char(i) != b.get_char(i) {
            return false;
        }
        i = i + 1;
    }
    proof {
        assert(a@ =~= b@);
    }
    true
}

/// A word character as the mention grammar counts them: an ASCII letter,
/// digit, or underscore.
pub open spec fn is_word_char(c: char) -> bool {
    ||| ('a' as u32) <= (c as u32) && (c as u32) <= ('z' as u32)
    ||| ('A' as u32) <= (c as u32) && (c as u32) <= ('Z' as u32)
    ||| ('0' as u32) <= (c as u32) && (c as u32) <= ('9' as u32)
    ||| c == '_'
}

pub fn is_word_char_exec(c: char) -> (r: bool)
    ensures
        r == is_word_char(c),
{
    let u = c as u32;
    (97 <= u && u <= 122) || (65 <= u && u <= 90) || (48 <= u && u <= 57) || c == '_'
}

/// ASCII case folding of a single character, as a code point.
pub open spec fn lower_u32(c: char) -> int {
    if ('A' as u32) <= (c as u32) && (c as u32) <= ('Z' as u32) {
        (c as u32) + 32
    } else {
        (c as u32) as int
    }
}

pub fn lower_u32_exec(c: char) -> (r: u32)
    ensures
        r == lower_u32(c),
{
    let u = c as u32;
    if 65 <= u && u <= 90 {
        u + 32
    } else {
        u
    }
}

/// The token "everyone", compared without regard to ASCII case.
pub open spec fn is_everyone_word(t: Seq<char>) -> bool {
    &&& t.len() == 8
    &&& lower_u32(t[0]) == 'e' as u32
    &&& lower_u32(t[1]) == 'v' as u32
    &&& lower_u32(t[2]) == 'e' as u32
    &&& lower_u32(t[3]) == 'r' as u32
    &&& lower_u32(t[4]) == 'y' as u32
    &&& lower_u32(t[5]) == 'o' as u32
    &&& lower_u32(t[6]) == 'n' as u32
    &&& lower_u32(t[7]) == 'e' as u32
}

pub fn is_everyone_token(t: &str) -> (r: bool)
    ensures
        r == is_everyone_word(t@),
{
    let len = t.unicode_len();
    if len != 8 {
        return false;
    }
    lower_u32_exec(t.get_char(0)) == 101 && lower_u32_exec(t.get_char(1)) == 118
        && lower_u32_exec(t.get_char(2)) == 101 && lower_u32_exec(t.get_char(3)) == 114
        && lower_u32_exec(t.get_char(4)) == 121 && lower_u32_exec(t.get_char(5)) == 111
        && lower_u32_exec(t.get_char(6)) == 110 && lower_u32_exec(t.get_char(7)) == 101
}

/// The literal token "@everyone" starts at position i, compared without
/// regard to ASCII case.
pub open spec fn everyone_at(s: Seq<char>, i: int) -> bool {
    &&& 0 <= i
    &&& i + 9 <= s.len()
    &&& s[i] == '@'
    &&& is_everyone_word(s.subrange(i + 1, i + 9))
}

/// Whether the content contains the literal token "@everyone" anywhere,
/// without regard to ASCII case.
pub open spec fn everyone_mentioned(s: Seq<char>) -> bool {
    exists|i: int| everyone_at(s, i)
}

fn everyone_at_exec(s: &str, i: usize, len: usize) -> (r: bool)
    requires
        len == s@.len(),
        i + 9 <= len,
    ensures
        r == everyone_at(s@, i as int),
{
    let w = s.substring_char(i + 1, i + 9);
    let r = s.get_char(i) == '@' && is_everyone_token(w);
    proof {
        assert(w@ == s@.subrange(i as int + 1, i as int + 9));
    }
    r
}

/// Scans the content for the literal token "@everyone" (any ASCII case).
pub fn contains_everyone(content: &str) -> (r: bool)
    ensures
        r == everyone_mentioned(content@),
{
    let len = content.unicode_len();
    if len < 9 {
        proof {
            assert(forall|i: int| !everyone_at(content@, i));
        }
        return false;
    }
    let mut i: usize = 0;
    while i <= len - 9
        invariant
            len == content@.len(),
            9 <= len,
            i <= len - 9 + 1,
            forall|k: int| 0 <= k < i ==> !everyone_at(content@, k),
        decreases len - i,
    {
        if everyone_at_exec(content, i, len) {
            return true;
        }
        i = i + 1;
    }
    proof {
        assert forall|k: int| !everyone_at(content@, k) by {
            if 0 <= k && k + 9 <= len {
                assert(k < i);
            }
        }
    }
    false
}

/// The index just past the run of word characters that starts at j.
pub open spec fn word_end(s: Seq<char>, j: int) -> int
    decreases s.len() - j,
{
    if 0 <= j && j < s.len() && is_word_char(s[j]) {
        word_end(s, j + 1)
    } else {
        j
    }
}

pub proof fn lemma_word_end_bounds(s: Seq<char>, j: int)
    requires
        0 <= j <= s.len(),
    ensures
        j <= word_end(s, j) <= s.len(),
    decreases s.len() - j,
{
    if j < s.len() && is_word_char(s[j]) {
        lemma_word_end_bounds(s, j + 1);
    }
}

/// The "@word" mention tokens of the content, in order of appearance, with
/// the token "everyone" (any ASCII case) left out. A token is the longest
/// run of word characters directly after an "@".
pub open spec fn mentions_from(s: Seq<char>, i: int) -> Seq<Seq<char>>
    decreases s.len() - i,
        via mentions_from_decreases
{
    if i < 0 || i >= s.len() {
        Seq::empty()
    } else if s[i] == '@' && i + 1 < s.len() && is_word_char(s[i + 1]) {
        let e = word_end(s, i + 1);
        let tok = s.subrange(i + 1, e);
        if is_everyone_word(tok) {
            mentions_from(s, e)
        } else {
            seq![tok] + mentions_from(s, e)
        }
    } else {
        mentions_from(s, i + 1)
    }
}

#[via_fn]
proof fn mentions_from_decreases(s: Seq<char>, i: int) {
    if 0 <= i && i < s.len() && s[i] == '@' && i + 1 < s.len() && is_word_char(s[i + 1]) {
        lemma_word_end_bounds(s, i + 1);
        assert(word_end(s, i + 1) == word_end(s, i + 2));
    }
}

/// All mention tokens of the content.
pub open spec fn mention_tokens(s: Seq<char>) -> Seq<Seq<char>> {
    mentions_from(s, 0)
}

/// The views of the strings in a vector.
pub open spec fn views_of(v: Seq<String>) -> Seq<Seq<char>> {
    v.map_values(|t: String| t@)
}

/// Collects every "@word" token of the content, in order, leaving out the
/// token "everyone" in any ASCII case.
pub fn extract_mention_tokens(content: &str) -> (r: Vec<String>)
    ensures
        views_of(r@) == mention_tokens(content@),
{
    let ghost s = content@;
    let len = content.unicode_len();
    let mut out: Vec<String> = Vec::new();
    let mut i: usize = 0;
    while i < len
        invariant
            len == s.len(),
            s == content@,
            i <= len,
            mentions_from(s, 0) == views_of(out@) + mentions_from(s, i as int),
        decreases len - i,
    {
        if content.get_char(i) == '@' && i + 1 < len && is_word_char_exec(content.get_char(i + 1))
        {
            let mut j = i + 1;
            while j < len && is_word_char_exec(content.get_char(j))
                invariant
                    len == s.len(),
                    s == content@,
                    i + 1 <= j <= len,
                    word_end(s, i as int + 1) == word_end(s, j as int),
                decreases len - j,
            {
                j = j + 1;
            }
            proof {
                assert(word_end(s, j as int) == j);
            }
            let tok = content.substring_char(i + 1, j);
            let ghost old_out = out@;
            if !is_everyone_token(tok) {
                out.push(tok.to_owned());
                proof {
                    assert(views_of(out@) =~= views_of(old_out) + seq![tok@]);
                    assert(views_of(out@) + mentions_from(s, j as int) =~= views_of(old_out) + (
                    seq![tok@] + mentions_from(s, j as int)));
                }
            }
            i = j;
        } else {
            i = i + 1;
        }
    }
    proof {
        assert(mentions_from(s, len as int) =~= Seq::empty());
        assert(views_of(out@) + mentions_from(s, len as int) =~= views_of(out@));
    }
    out
}

} // verus!

verus! {

/// Code-point order on strings: the order memcmp gives UTF-8 bytes, and
/// the order the store's member listing is served in.
pub open spec fn lex_le(a: Seq<char>, b: Seq<char>) -> bool
    decreases a.len(),
{
    if a.len() == 0 {
        true
    } else if b.len() == 0 {
        false
    } else if (a[0] as u32) < (b[0] as u32) {
        true
    } else if (a[0] as u32) > (b[0] as u32) {
        false
    } else {
        lex_le(a.drop_first(), b.drop_first())
    }
}

/// Any two strings compare, one way or the other.
pub proof fn lemma_lex_total(a: Seq<char>, b: Seq<char>)
    ensures
        lex_le(a, b) || lex_le(b, a),
    decreases a.len(),
{
    if a.len() > 0 && b.len() > 0 && a[0] as u32 == b[0] as u32 {
        lemma_lex_total(a.drop_first(), b.drop_first());
    }
}

/// Code-point order is transitive.
pub proof fn lemma_lex_trans(a: Seq<char>, b: Seq<char>, c: Seq<char>)
    requires
        lex_le(a, b),
        lex_le(b, c),
    ensures
        lex_le(a, c),
    decreases a.len(),
{
    if a.len() > 0 && b.len() > 0 && c.len() > 0 {
        if a[0] as u32 == b[0] as u32 && b[0] as u32 == c[0] as u32 {
            lemma_lex_trans(a.drop_first(), b.drop_first(), c.drop_first());
        }
    }
}

/// Compares two strings in code-point order.
pub fn str_lex_le(a: &str, b: &str) -> (r: bool)
    ensures
        r == lex_le(a@, b@),
{
    let alen = a.unicode_len();
    let blen = b.unicode_len();
    proof {
        assert(a@.skip(0) =~= a@);
        assert(b@.skip(0) =~= b@);
    }
    let mut i: usize = 0;
    while i < alen && i < blen
        invariant
            alen == a@.len(),
            blen == b@.len(),
            i <= alen,
            i <= blen,
            lex_le(a@, b@) == lex_le(a@.skip(i as int), b@.skip(i as int)),
            lex_le(b@, a@) == lex_le(b@.skip(i as int), a@.skip(i as int)),
        decreases alen - i,
    {
        let ca = a.get_char(i) as u32;
        let cb = b.get_char(i) as u32;
        proof {
            assert(a@.skip(i as int)[0] == a@[i as int]);
            assert(b@.skip(i as int)[0] == b@[i as int]);
            assert(a@.skip(i as int).drop_first() =~= a@.skip(i as int + 1));
            assert(b@.skip(i as int).drop_first() =~= b@.skip(i as int + 1));
        }
        if ca < cb {
            return true;
        }
        if ca > cb {
            return false;
        }
        i = i + 1;
    }
    proof {
        if i >= alen {
            assert(a@.skip(i as int).len() == 0);
        } else {
            assert(b@.skip(i as int).len() == 0);
            assert(a@.skip(i as int).len() > 0);
        }
    }
    i >= alen
}

} // verus!
