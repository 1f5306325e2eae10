//! Character, byte and decimal-digit helpers shared by the parser and the
//! serializers: ASCII case folding, UTF-8 conversion, and decimal rendering
//! and reading of unsigned numbers.
use vstd::prelude::*;

verus! {

use vstd::string::StringExecFns;
use vstd::utf8::{valid_utf8, decode_utf8, encode_utf8, is_ascii_chars};

/// ASCII lower-casing of one byte: `A`..`Z` map to `a`..`z`, all else is kept.
pub open spec fn lower_byte(b: u8) -> u8 {
    if 'A' as u8 <= b && b <= 'Z' as u8 {
        (b + 32) as u8
    } else {
        b
    }
}

/// ASCII lower-casing of one character.
pub open spec fn lower_char(c: char) -> char {
    if 'A' <= c && c <= 'Z' {
        ((c as u8) + 32) as u8 as char
    } else {
        c
    }
}

/// ASCII lower-casing of a character sequence.
pub open spec fn lower_chars(s: Seq<char>) -> Seq<char> {
    s.map_values(|c: char| lower_char(c))
}

/// ASCII lower-casing of a byte sequence.
pub open spec fn lower_bytes(s: Seq<u8>) -> Seq<u8> {
    s.map_values(|b: u8| lower_byte(b))
}

/// Lower-case one byte, ASCII-style.
pub fn lower_u8(b: u8) -> (r: u8)
    ensures
        r == lower_byte(b),
{
    if 'A' as u8 <= b && b <= 'Z' as u8 {
        b + 32
    } else {
        b
    }
}

/// Lower-case one character, ASCII-style.
pub fn lower_char_of(c: char) -> (r: char)
    ensures
        r == lower_char(c),
{
    if 'A' <= c && c <= 'Z' {
        ((c as u8) + 32) as char
    } else {
        c
    }
}

/// Lower-case a string, ASCII-style: every ASCII upper-case letter is
/// replaced by its lower-case equivalent and every other character is kept.
#[verifier::loop_isolation(false)]
pub fn ascii_lowercase(s: &str) -> (r: String)
    ensures
        r@ == lower_chars(s@),
{
    let cs = chars_vec(s);
    let mut out: Vec<char> = Vec::new();
    let mut i: usize = 0;
    proof {
        assert(out@ =~= lower_chars(s@).take(0));
    }
    while i < cs.len()
        invariant
            0 <= i <= cs@.len(),
            cs@ == s@,
            out@ == lower_chars(s@).take(i as int),
        decreases cs@.len() - i,
    {
        out.push(lower_char_of(cs[i]));
        i = i + 1;
        proof {
            assert(out@ =~= lower_chars(s@).take(i as int));
        }
    }
    proof {
        assert(lower_chars(s@).take(s@.len() as int) =~= lower_chars(s@));
    }
    string_from_chars(out.as_slice())
}

/// Relies on String::from_utf8: returns the string decoded from the given
/// bytes exactly when they are valid UTF-8, and nothing otherwise.
#[verifier::external_body]
pub fn bytes_to_string(v: Vec<u8>) -> (r: Option<String>)
    ensures
        r is Some <==> valid_utf8(v@),
        r is Some ==> r->Some_0@ == decode_utf8(v@),
{
    match String::from_utf8(v) {
        Ok(s) => Some(s),
        Err(_) => None,
    }
}

/// A byte sequence lies in the ASCII range.
pub open spec fn is_ascii_bytes(s: Seq<u8>) -> bool {
    forall|i: int| 0 <= i < s.len() ==> s[i] < 128
}

/// The characters an ASCII byte sequence stands for.
pub open spec fn ascii_view(s: Seq<u8>) -> Seq<char> {
    s.map_values(|b: u8| b as char)
}

/// An ASCII byte sequence is valid UTF-8 and decodes to its own bytes read
/// as characters.
pub proof fn lemma_ascii_decode(s: Seq<u8>)
    requires
        is_ascii_bytes(s),
    ensures
        valid_utf8(s),
        decode_utf8(s) == ascii_view(s),
        is_ascii_chars(ascii_view(s)),
    decreases s.len(),
{
    let cs = ascii_view(s);
    assert forall|i: int| 0 <= i < cs.len() implies (cs[i] as nat) <= 0x7F by {
        assert(s[i] < 128);
    }
    assert(is_ascii_chars(cs));
    vstd::utf8::is_ascii_chars_encode_utf8(cs);
    assert(encode_utf8(cs) =~= s);
    vstd::utf8::encode_utf8_valid_utf8(cs);
    vstd::utf8::encode_utf8_decode_utf8(cs);
}

/// Lower-casing a character twice is the same as doing it once.
pub proof fn lemma_lower_char_idem(c: char)
    ensures
        lower_char(lower_char(c)) == lower_char(c),
{
}

/// Lower-casing a character sequence twice is the same as doing it once.
pub proof fn lemma_lower_chars_idem(s: Seq<char>)
    ensures
        lower_chars(lower_chars(s)) == lower_chars(s),
{
    assert forall|i: int| 0 <= i < s.len() implies lower_chars(lower_chars(s))[i] == lower_chars(
        s,
    )[i] by {
        lemma_lower_char_idem(s[i]);
    }
    assert(lower_chars(lower_chars(s)) =~= lower_chars(s));
}

/// String pairs (such as header name/value lists) as pairs of character
/// sequences.
pub open spec fn pairs_view(v: Seq<(String, String)>) -> Seq<(Seq<char>, Seq<char>)> {
    v.map_values(|p: (String, String)| (p.0@, p.1@))
}

/// Relies on String::push: appends one character at the end of the string.
#[verifier::external_body]
pub fn push_char(s: &mut String, c: char)
    ensures
        final(s)@ == old(s)@.push(c),
{
    s.push(c);
}

/// Relies on str::chars: yields the characters of the string, in order.
#[verifier::external_body]
pub fn chars_vec(s: &str) -> (r: Vec<char>)
    ensures
        r@ == s@,
{
    s.chars().collect()
}

/// A string holding exactly the given characters.
pub fn string_from_chars(cs: &[char]) -> (r: String)
    ensures
        r@ == cs@,
{
    let mut s = String::new();
    let mut i: usize = 0;
    while i < cs.len()
        invariant
            0 <= i <= cs@.len(),
            s@ == cs@.take(i as int),
        decreases cs@.len() - i,
    {
        push_char(&mut s, cs[i]);
        i = i + 1;
        proof {
            assert(s@ =~= cs@.take(i as int));
        }
    }
    proof {
        assert(cs@.take(cs@.len() as int) =~= cs@);
    }
    s
}

/// Whether two character vectors hold the same characters.
pub fn chars_eq(a: &Vec<char>, b: &Vec<char>) -> (r: bool)
    ensures
        r == (a@ == b@),
{
    if a.len() != b.len() {
        return false;
    }
    let mut i: usize = 0;
    while i < a.len()
        invariant
            0 <= i <= a@.len(),
            a@.len() == b@.len(),
            forall|k: int| 0 <= k < i ==> a@[k] == b@[k],
        decreases a@.len() - i,
    {
        if a[i] != b[i] {
            return false;
        }
        i = i + 1;
    }
    proof {
        assert(a@ =~= b@);
    }
    true
}

/// Whether two string slices hold the same characters.
pub fn str_eq(a: &str, b: &str) -> (r: bool)
    ensures
        r == (a@ == b@),
{
    chars_eq(&chars_vec(a), &chars_vec(b))
}

/// Whether a character is ASCII space or tab.
pub open spec fn is_blank(c: char) -> bool {
    c == ' ' || c == '\t'
}

/// The longest prefix of blanks.
pub open spec fn leading_blanks(s: Seq<char>) -> int
    decreases s.len(),
{
    if s.len() > 0 && is_blank(s[0]) {
        1 + leading_blanks(s.drop_first())
    } else {
        0
    }
}

/// A sequence with leading and trailing ASCII blanks removed.
pub open spec fn trim_chars(s: Seq<char>) -> Seq<char>
    decreases s.len(),
{
    if s.len() > 0 && is_blank(s[0]) {
        trim_chars(s.drop_first())
    } else if s.len() > 0 && is_blank(s.last()) {
        trim_chars(s.drop_last())
    } else {
        s
    }
}

/// Remove leading and trailing ASCII blanks.
pub fn trim(cs: &Vec<char>) -> (r: Vec<char>)
    ensures
        r@ == trim_chars(cs@),
{
    let mut lo: usize = 0;
    let mut hi: usize = cs.len();
    proof {
        assert(cs@.subrange(0, cs@.len() as int) =~= cs@);
    }
    while lo < hi && (cs[lo] == ' ' || cs[lo] == '\t')
        invariant
            0 <= lo <= hi <= cs@.len(),
            trim_chars(cs@) == trim_chars(cs@.subrange(lo as int, hi as int)),
            hi == cs@.len(),
        decreases hi - lo,
    {
        proof {
            assert(cs@.subrange(lo as int, hi as int).drop_first() =~= cs@.subrange(
                lo as int + 1,
                hi as int,
            ));
        }
        lo = lo + 1;
    }
    while lo < hi && (cs[hi - 1] == ' ' || cs[hi - 1] == '\t')
        invariant
            0 <= lo <= hi <= cs@.len(),
            trim_chars(cs@) == trim_chars(cs@.subrange(lo as int, hi as int)),
            lo < hi ==> !is_blank(cs@[lo as int]),
        decreases hi - lo,
    {
        proof {
            let part = cs@.subrange(lo as int, hi as int);
            assert(part[0] == cs@[lo as int]);
            assert(part.last() == cs@[hi as int - 1]);
            assert(part.drop_last() =~= cs@.subrange(lo as int, hi as int - 1));
        }
        hi = hi - 1;
    }
    let mut out: Vec<char> = Vec::new();
    let mut i: usize = lo;
    while i < hi
        invariant
            lo <= i <= hi <= cs@.len(),
            out@ == cs@.subrange(lo as int, i as int),
        decreases hi - i,
    {
        out.push(cs[i]);
        i = i + 1;
        proof {
            assert(out@ =~= cs@.subrange(lo as int, i as int));
        }
    }
    proof {
        let part = cs@.subrange(lo as int, hi as int);
        if part.len() > 0 {
            assert(part[0] == cs@[lo as int]);
            assert(part.last() == cs@[hi as int - 1]);
        }
        assert(trim_chars(part) =~= part);
    }
    out
}

/// The position of the first occurrence of a separator, if it occurs.
pub open spec fn idx_of(s: Seq<char>, sep: char) -> Option<int>
    decreases s.len(),
{
    if s.len() == 0 {
        None
    } else if s[0] == sep {
        Some(0)
    } else {
        match idx_of(s.drop_first(), sep) {
            None => None,
            Some(j) => Some(j + 1),
        }
    }
}

/// Where the first `k` characters are no separator and the character at `k`
/// is one, the first occurrence is at `k`.
pub proof fn lemma_idx_of_at(s: Seq<char>, sep: char, k: int)
    requires
        0 <= k < s.len(),
        forall|j: int| 0 <= j < k ==> s[j] != sep,
        s[k] == sep,
    ensures
        idx_of(s, sep) == Some(k),
    decreases k,
{
    if k > 0 {
        lemma_idx_of_at(s.drop_first(), sep, k - 1);
    }
}

/// Where no character is a separator, there is no first occurrence.
pub proof fn lemma_idx_of_none(s: Seq<char>, sep: char)
    requires
        forall|j: int| 0 <= j < s.len() ==> s[j] != sep,
    ensures
        idx_of(s, sep) is None,
    decreases s.len(),
{
    if s.len() > 0 {
        lemma_idx_of_none(s.drop_first(), sep);
    }
}

/// The pieces of a character sequence split at every separator: one piece
/// more than there are separators, each piece free of the separator. An
/// empty sequence yields one empty piece.
pub open spec fn spec_split(s: Seq<char>, sep: char) -> Seq<Seq<char>>
    decreases s.len(),
{
    match idx_of(s, sep) {
        None => seq![s],
        Some(i) => if 0 <= i < s.len() {
            seq![s.take(i)] + spec_split(s.skip(i + 1), sep)
        } else {
            seq![s]
        },
    }
}

/// The first occurrence, where there is one, lies in bounds, holds the
/// separator, and nothing before it does.
pub proof fn lemma_idx_of_bounds(s: Seq<char>, sep: char)
    requires
        idx_of(s, sep) is Some,
    ensures
        0 <= idx_of(s, sep)->Some_0 < s.len(),
        s[idx_of(s, sep)->Some_0] == sep,
        forall|j: int| 0 <= j < idx_of(s, sep)->Some_0 ==> s[j] != sep,
    decreases s.len(),
{
    if s.len() > 0 && s[0] != sep {
        lemma_idx_of_bounds(s.drop_first(), sep);
        let j = idx_of(s.drop_first(), sep)->Some_0;
        assert(s[j + 1] == s.drop_first()[j]);
        assert forall|k: int| 0 <= k < j + 1 implies s[k] != sep by {
            if k > 0 {
                assert(s[k] == s.drop_first()[k - 1]);
            }
        }
    }
}

/// Split a character vector at every occurrence of a separator.
pub fn split_chars(cs: &Vec<char>, sep: char) -> (r: Vec<Vec<char>>)
    ensures
        r.deep_view() == spec_split(cs@, sep),
{
    let mut out: Vec<Vec<char>> = Vec::new();
    let mut cur: Vec<char> = Vec::new();
    let ghost s = cs@;
    let mut i: usize = 0;
    let ghost mut start: int = 0;
    proof {
        assert(s.skip(0) =~= s);
        assert(out.deep_view() + spec_split(s.skip(0), sep) =~= spec_split(s, sep));
    }
    while i < cs.len()
        invariant
            0 <= start <= i <= s.len(),
            s == cs@,
            cur@ == s.subrange(start, i as int),
            forall|j: int| start <= j < i ==> s[j] != sep,
            spec_split(s, sep) == out.deep_view() + spec_split(s.skip(start), sep),
        decreases s.len() - i,
    {
        let c = cs[i];
        if c == sep {
            proof {
                let tail = s.skip(start);
                assert(forall|j: int| 0 <= j < i - start ==> tail[j] != sep);
                assert(tail[i - start] == sep);
                lemma_idx_of_at(tail, sep, i - start);
                assert(tail.take(i - start) =~= s.subrange(start, i as int));
                assert(tail.skip(i - start + 1) =~= s.skip(i as int + 1));
            }
            let ghost pre_out = out.deep_view();
            out.push(cur);
            cur = Vec::new();
            proof {
                let tail = s.skip(start);
                assert(out.deep_view() =~~= pre_out.push(s.subrange(start, i as int)));
                assert(spec_split(tail, sep) =~~= seq![s.subrange(start, i as int)] + spec_split(
                    s.skip(i as int + 1),
                    sep,
                ));
                assert(spec_split(s, sep) =~~= out.deep_view() + spec_split(
                    s.skip(i as int + 1),
                    sep,
                ));
                start = i as int + 1;
            }
            i = i + 1;
            proof {
                assert(cur@ =~= s.subrange(start, i as int));
            }
        } else {
            cur.push(c);
            i = i + 1;
            proof {
                assert(cur@ =~= s.subrange(start, i as int));
            }
        }
    }
    proof {
        let tail = s.skip(start);
        assert(forall|j: int| 0 <= j < tail.len() ==> tail[j] != sep);
        lemma_idx_of_none(tail, sep);
        assert(cur@ =~= tail);
    }
    let ghost pre_out = out.deep_view();
    out.push(cur);
    proof {
        assert(out.deep_view() =~~= pre_out.push(s.skip(start)));
        assert(out.deep_view() =~~= spec_split(s, sep));
    }
    out
}

/// The character for one decimal digit.
pub open spec fn digit_char(d: int) -> char {
    if d == 0 {
        '0'
    } else if d == 1 {
        '1'
    } else if d == 2 {
        '2'
    } else if d == 3 {
        '3'
    } else if d == 4 {
        '4'
    } else if d == 5 {
        '5'
    } else if d == 6 {
        '6'
    } else if d == 7 {
        '7'
    } else if d == 8 {
        '8'
    } else {
        '9'
    }
}

/// The decimal rendering of a number, as characters.
pub open spec fn dec_chars(n: int) -> Seq<char>
    decreases n,
{
    if n < 10 {
        seq![digit_char(n)]
    } else {
        dec_chars(n / 10).push(digit_char(n % 10))
    }
}

/// Append the character of one decimal digit to a string.
pub fn append_digit(s: &mut String, d: u64)
    requires
        d < 10,
    ensures
        final(s)@ == old(s)@.push(digit_char(d as int)),
{
    if d == 0 {
        s.append("0");
        proof { reveal_strlit("0"); }
    } else if d == 1 {
        s.append("1");
        proof { reveal_strlit("1"); }
    } else if d == 2 {
        s.append("2");
        proof { reveal_strlit("2"); }
    } else if d == 3 {
        s.append("3");
        proof { reveal_strlit("3"); }
    } else if d == 4 {
        s.append("4");
        proof { reveal_strlit("4"); }
    } else if d == 5 {
        s.append("5");
        proof { reveal_strlit("5"); }
    } else if d == 6 {
        s.append("6");
        proof { reveal_strlit("6"); }
    } else if d == 7 {
        s.append("7");
        proof { reveal_strlit("7"); }
    } else if d == 8 {
        s.append("8");
        proof { reveal_strlit("8"); }
    } else {
        s.append("9");
        proof { reveal_strlit("9"); }
    }
    proof {
        assert(s@ =~= old(s)@.push(digit_char(d as int)));
    }
}

/// Append the decimal rendering of a number to a string.
pub fn append_dec(s: &mut String, n: u64)
    ensures
        final(s)@ == old(s)@ + dec_chars(n as int),
    decreases n,
{
    if n < 10 {
        append_digit(s, n);
        proof {
            assert(s@ =~= old(s)@ + dec_chars(n as int));
        }
    } else {
        append_dec(s, n / 10);
        append_digit(s, n % 10);
        proof {
            assert(s@ =~= old(s)@ + dec_chars(n as int));
        }
    }
}

/// The decimal rendering of a number, as its own string.
pub fn dec_string(n: u64) -> (r: String)
    ensures
        r@ == dec_chars(n as int),
{
    let mut s = String::new();
    append_dec(&mut s, n);
    proof {
        assert(s@ =~= dec_chars(n as int));
    }
    s
}

/// The number a sequence of decimal-digit bytes stands for, or nothing where
/// a byte is no digit or the value passes the given bound. An empty sequence
/// stands for nothing. `acc` carries the value of the digits already read.
pub open spec fn dec_value(s: Seq<u8>, acc: int, bound: int) -> Option<int>
    decreases s.len(),
{
    if s.len() == 0 {
        Some(acc)
    } else if '0' as u8 <= s[0] && s[0] <= '9' as u8 {
        let v = acc * 10 + (s[0] - '0' as u8);
        if v > bound {
            None
        } else {
            dec_value(s.skip(1), v, bound)
        }
    } else {
        None
    }
}

/// What reading a byte sequence as a decimal `usize` yields: the value where
/// every byte is a digit, there is at least one, and the value fits.
pub open spec fn spec_parse_usize(s: Seq<u8>) -> Option<int> {
    if s.len() == 0 {
        None
    } else {
        dec_value(s, 0, usize::MAX as int)
    }
}

/// Read a decimal `usize` from bytes: all bytes must be digits, at least one,
/// and the value must fit in `usize`.
pub fn parse_usize(v: &[u8]) -> (r: Option<usize>)
    ensures
        match r {
            Some(n) => spec_parse_usize(v@) == Some(n as int),
            None => spec_parse_usize(v@) is None,
        },
{
    if v.len() == 0 {
        return None;
    }
    let mut acc: usize = 0;
    let mut i: usize = 0;
    proof {
        assert(v@.skip(0) =~= v@);
    }
    while i < v.len()
        invariant
            0 <= i <= v@.len(),
            dec_value(v@, 0, usize::MAX as int) == dec_value(
                v@.skip(i as int),
                acc as int,
                usize::MAX as int,
            ),
        decreases v@.len() - i,
    {
        let b = v[i];
        if b < '0' as u8 || b > '9' as u8 {
            proof {
                assert(v@.skip(i as int)[0] == b);
            }
            return None;
        }
        let d = (b - '0' as u8) as usize;
        let next = match acc.checked_mul(10) {
            Some(m) => m.checked_add(d),
            None => None,
        };
        match next {
            Some(m) => {
                proof {
                    assert(v@.skip(i as int)[0] == b);
                    assert(v@.skip(i as int).skip(1) =~= v@.skip(i as int + 1));
                }
                acc = m;
                i = i + 1;
            },
            None => {
                proof {
                    assert(v@.skip(i as int)[0] == b);
                }
                return None;
            },
        }
    }
    proof {
        assert(v@.skip(i as int).len() == 0);
        assert(v@.skip(i as int) =~= Seq::<u8>::empty());
    }
    Some(acc)
}

} // verus!
