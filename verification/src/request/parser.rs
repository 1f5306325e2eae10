//! The HTTP/1.x wire parser: a one-byte-lookahead reader over the bytes of
//! one request, producing a structured request or an error naming the byte
//! offset and the reason.
use vstd::prelude::*;

verus! {

use vstd::string::StringExecFns;
use vstd::utf8::{decode_utf8, valid_utf8};
use crate::request::{Method, Param, ParamKey, ParamKind, Params, Request};
use crate::text::{
    ascii_view, bytes_to_string, chars_vec, dec_chars, idx_of, is_ascii_bytes,
    lemma_ascii_decode, lower_bytes, lower_u8, pairs_view, push_char, spec_split,
    string_from_chars,
};

/// Carriage return.
pub open spec fn cr() -> u8 {
    13
}

/// Line feed.
pub open spec fn lf() -> u8 {
    10
}

/// ASCII space or horizontal tab.
pub open spec fn is_ws(b: u8) -> bool {
    b == 32 || b == 9
}

/// An ASCII upper-case letter.
pub open spec fn is_upper(b: u8) -> bool {
    'A' as u8 <= b && b <= 'Z' as u8
}

/// An ASCII letter.
pub open spec fn is_alpha(b: u8) -> bool {
    is_upper(b) || ('a' as u8 <= b && b <= 'z' as u8)
}

/// An ASCII digit.
pub open spec fn is_digit_b(b: u8) -> bool {
    '0' as u8 <= b && b <= '9' as u8
}

/// A byte allowed in a request path: `/`, letters, digits, and `-._~`.
pub open spec fn is_path_b(b: u8) -> bool {
    b == '/' as u8 || is_alpha(b) || is_digit_b(b) || b == '-' as u8 || b == '.' as u8 || b
        == '_' as u8 || b == '~' as u8
}

/// A byte allowed in a query string: letters, digits, and
/// ``-._~!$&'()*+,;=``.
pub open spec fn is_query_b(b: u8) -> bool {
    is_alpha(b) || is_digit_b(b) || b == '-' as u8 || b == '.' as u8 || b == '_' as u8 || b
        == '~' as u8 || b == '!' as u8 || b == '$' as u8 || b == '&' as u8 || b == 39 || b
        == '(' as u8 || b == ')' as u8 || b == '*' as u8 || b == '+' as u8 || b == ',' as u8 || b
        == ';' as u8 || b == '=' as u8
}

/// A byte allowed in a fragment: everything a query allows, and `?/:@`.
pub open spec fn is_fragment_b(b: u8) -> bool {
    is_query_b(b) || b == '?' as u8 || b == '/' as u8 || b == ':' as u8 || b == '@' as u8
}

/// A zero or one digit, as allowed for the HTTP version minor.
pub open spec fn is_zero_one(b: u8) -> bool {
    b == '0' as u8 || b == '1' as u8
}

/// Whether a byte is ASCII space or horizontal tab. The argument-level
/// counterpart of the optional-whitespace character class.
pub fn whitespace(b: u8) -> (r: bool)
    ensures
        r == is_ws(b),
{
    b == 32 || b == 9
}

/// Whether a byte is an ASCII upper-case letter.
pub fn upper_byte(b: u8) -> (r: bool)
    ensures
        r == is_upper(b),
{
    'A' as u8 <= b && b <= 'Z' as u8
}

/// Whether a byte lies in the path character class.
pub fn path_byte(b: u8) -> (r: bool)
    ensures
        r == is_path_b(b),
{
    b == '/' as u8 || ('A' as u8 <= b && b <= 'Z' as u8) || ('a' as u8 <= b && b <= 'z' as u8) || (
    '0' as u8 <= b && b <= '9' as u8) || b == '-' as u8 || b == '.' as u8 || b == '_' as u8 || b
        == '~' as u8
}

/// Whether a byte lies in the query character class.
pub fn query_byte(b: u8) -> (r: bool)
    ensures
        r == is_query_b(b),
{
    ('A' as u8 <= b && b <= 'Z' as u8) || ('a' as u8 <= b && b <= 'z' as u8) || ('0' as u8 <= b
        && b <= '9' as u8) || b == '-' as u8 || b == '.' as u8 || b == '_' as u8 || b == '~' as u8
        || b == '!' as u8 || b == '$' as u8 || b == '&' as u8 || b == 39 || b == '(' as u8 || b
        == ')' as u8 || b == '*' as u8 || b == '+' as u8 || b == ',' as u8 || b == ';' as u8 || b
        == '=' as u8
}

/// Whether a byte lies in the fragment character class.
pub fn fragment_byte(b: u8) -> (r: bool)
    ensures
        r == is_fragment_b(b),
{
    query_byte(b) || b == '?' as u8 || b == '/' as u8 || b == ':' as u8 || b == '@' as u8
}

/// Whether a byte is the digit `0` or `1`.
pub fn zero_one_byte(b: u8) -> (r: bool)
    ensures
        r == is_zero_one(b),
{
    b == '0' as u8 || b == '1' as u8
}

/// Every path byte is ASCII.
pub proof fn lemma_path_ascii(s: Seq<u8>)
    requires
        forall|k: int| 0 <= k < s.len() ==> is_path_b(#[trigger] s[k]),
    ensures
        is_ascii_bytes(s),
{
}

/// Every query byte is ASCII.
pub proof fn lemma_query_ascii(s: Seq<u8>)
    requires
        forall|k: int| 0 <= k < s.len() ==> is_query_b(#[trigger] s[k]),
    ensures
        is_ascii_bytes(s),
{
}

/// Every fragment byte is ASCII.
pub proof fn lemma_fragment_ascii(s: Seq<u8>)
    requires
        forall|k: int| 0 <= k < s.len() ==> is_fragment_b(#[trigger] s[k]),
    ensures
        is_ascii_bytes(s),
{
}

/// The byte offset an error raised at reading position `i` carries: the
/// count of bytes that have entered the lookahead.
pub open spec fn errpos(s: Seq<u8>, i: int) -> int {
    if i < s.len() {
        i + 1
    } else {
        i
    }
}

/// A parse error in spec form: offset and reason.
pub type ErrV = (int, Seq<char>);

/// Reading one byte: the byte at the position, advancing, or nothing at the
/// end of input.
pub open spec fn sp_next(s: Seq<u8>, i: int) -> (Option<u8>, int) {
    if i < s.len() {
        (Some(s[i]), i + 1)
    } else {
        (None, i)
    }
}

/// The reason an unexpected byte is reported with.
pub open spec fn expected_msg(b: u8) -> Seq<char> {
    "expected '"@ + seq![b as char] + "'"@
}

/// Requiring one given byte: consume it, or fail naming it.
pub open spec fn sp_expect(s: Seq<u8>, i: int, b: u8) -> Result<int, ErrV> {
    let (n, j) = sp_next(s, i);
    if n == Some(b) {
        Ok(j)
    } else {
        Err((errpos(s, j), expected_msg(b)))
    }
}

/// Requiring a given byte sequence, byte by byte.
pub open spec fn sp_expects(s: Seq<u8>, i: int, bs: Seq<u8>) -> Result<int, ErrV>
    decreases bs.len(),
{
    if bs.len() == 0 {
        Ok(i)
    } else {
        match sp_expect(s, i, bs[0]) {
            Ok(j) => sp_expects(s, j, bs.drop_first()),
            Err(e) => Err(e),
        }
    }
}

/// The longest run of bytes in a class, from a position: the bytes and the
/// position after them.
pub open spec fn sp_star(s: Seq<u8>, i: int, p: spec_fn(u8) -> bool) -> (Seq<u8>, int)
    decreases s.len() - i,
{
    if 0 <= i < s.len() && p(s[i]) {
        let (v, j) = sp_star(s, i + 1, p);
        (seq![s[i]] + v, j)
    } else {
        (Seq::<u8>::empty(), i)
    }
}

/// One byte of a class, or failure without consuming.
pub open spec fn sp_one(s: Seq<u8>, i: int, p: spec_fn(u8) -> bool) -> Result<int, ErrV> {
    if 0 <= i < s.len() && p(s[i]) {
        Ok(i + 1)
    } else {
        Err((errpos(s, i), "unexpected character"@))
    }
}

/// At least one byte of a class: the run, or failure without consuming.
pub open spec fn sp_plus(s: Seq<u8>, i: int, p: spec_fn(u8) -> bool) -> Result<
    (Seq<u8>, int),
    ErrV,
> {
    match sp_one(s, i, p) {
        Ok(j) => {
            let (v, k) = sp_star(s, j, p);
            Ok((seq![s[i]] + v, k))
        },
        Err(e) => Err(e),
    }
}

/// Everything before the next occurrence of a byte, leaving the byte
/// unread; failure at the end of input.
pub open spec fn sp_until(s: Seq<u8>, i: int, b: u8) -> Result<(Seq<u8>, int), ErrV>
    decreases s.len() - i,
{
    if i >= s.len() || i < 0 {
        Err((errpos(s, i), "unexpected end of input"@))
    } else if s[i] == b {
        Ok((Seq::<u8>::empty(), i))
    } else {
        match sp_until(s, i + 1, b) {
            Ok((v, j)) => Ok((seq![s[i]] + v, j)),
            Err(e) => Err(e),
        }
    }
}

/// A line ending: carriage return, line feed.
pub open spec fn sp_crlf(s: Seq<u8>, i: int) -> Result<int, ErrV> {
    sp_expects(s, i, seq![cr(), lf()])
}

/// The run of a class is in bounds, is exactly the bytes it covers, and
/// stops at the first byte out of the class.
pub proof fn lemma_star_bounds(s: Seq<u8>, i: int, p: spec_fn(u8) -> bool)
    requires
        0 <= i <= s.len(),
    ensures
        ({
            let (v, j) = sp_star(s, i, p);
            &&& i <= j <= s.len()
            &&& v == s.subrange(i, j)
            &&& forall|k: int| i <= k < j ==> p(#[trigger] s[k])
            &&& (j < s.len() ==> !p(s[j]))
        }),
    decreases s.len() - i,
{
    let (v, j) = sp_star(s, i, p);
    if 0 <= i < s.len() && p(s[i]) {
        lemma_star_bounds(s, i + 1, p);
        let (v2, j2) = sp_star(s, i + 1, p);
        assert(v =~= s.subrange(i, j));
    } else {
        assert(v =~= s.subrange(i, i));
    }
}

/// Reading until a byte is in bounds, covers exactly the bytes before the
/// first occurrence, and fails exactly when the byte never occurs.
pub proof fn lemma_until_bounds(s: Seq<u8>, i: int, b: u8)
    requires
        0 <= i <= s.len(),
    ensures
        match sp_until(s, i, b) {
            Ok((v, j)) => i <= j < s.len() && s[j] == b && v == s.subrange(i, j) && (forall|k: int|
                i <= k < j ==> s[k] != b),
            Err(e) => e == ((s.len() as int, "unexpected end of input"@)) && (forall|k: int|
                i <= k < s.len() ==> s[k] != b),
        },
    decreases s.len() - i,
{
    match sp_until(s, i, b) {
        Ok((v, j)) => {
            if s[i] == b {
                assert(v =~= s.subrange(i, i));
            } else {
                lemma_until_bounds(s, i + 1, b);
                assert(v =~= s.subrange(i, j));
            }
        },
        Err(e) => {
            if i < s.len() {
                lemma_until_bounds(s, i + 1, b);
            }
        },
    }
}

/// Requiring a byte sequence lands exactly past it on success.
pub proof fn lemma_expects_bounds(s: Seq<u8>, i: int, bs: Seq<u8>)
    requires
        0 <= i <= s.len(),
    ensures
        match sp_expects(s, i, bs) {
            Ok(j) => j == i + bs.len() && j <= s.len() && s.subrange(i, j) == bs,
            Err(e) => true,
        },
    decreases bs.len(),
{
    if bs.len() > 0 {
        match sp_expect(s, i, bs[0]) {
            Ok(j) => {
                assert(i < s.len() && s[i] == bs[0] && j == i + 1);
                lemma_expects_bounds(s, j, bs.drop_first());
                match sp_expects(s, j, bs.drop_first()) {
                    Ok(j2) => {
                        assert(s.subrange(j, j2) == bs.drop_first());
                        assert forall|k: int| 0 <= k < bs.len() implies s.subrange(i, j2)[k]
                            == bs[k] by {
                            if k > 0 {
                                assert(s.subrange(j, j2)[k - 1] == bs.drop_first()[k - 1]);
                            }
                        }
                        assert(s.subrange(i, j2) =~= bs);
                    },
                    Err(_) => {},
                }
            },
            Err(_) => {},
        }
    } else {
        match sp_expects(s, i, bs) {
            Ok(j) => {
                assert(s.subrange(i, j) =~= bs);
            },
            Err(_) => {},
        }
    }
}

/// Why a request failed to parse: the byte offset reached and the reason.
#[derive(Debug, Clone, PartialEq)]
pub struct RequestParserError {
    position: usize,
    reason: String,
}

impl View for RequestParserError {
    type V = (int, Seq<char>);

    closed spec fn view(&self) -> (int, Seq<char>) {
        (self.position as int, self.reason@)
    }
}

impl RequestParserError {
    /// Record where parsing failed, and why.
    pub fn new(position: usize, reason: &str) -> (r: Self)
        ensures
            r@ == (position as int, reason@),
    {
        Self { position, reason: reason.to_owned() }
    }

    /// The byte offset reached.
    pub fn position(&self) -> (r: usize)
        ensures
            r as int == self@.0,
    {
        self.position
    }

    /// The reason.
    pub fn reason(&self) -> (r: &String)
        ensures
            r@ == self@.1,
    {
        &self.reason
    }

    /// Whether the failure lies at the very end of the given input length:
    /// parsing stopped where the bytes ran out, so more input could move it
    /// past this point. The caller hands in how many bytes were available.
    pub fn needs_more_input(&self, available: usize) -> (r: bool)
        ensures
            r == (self@.0 == available as int),
    {
        self.position == available
    }
}

/// The outcome of parsing, shared by `Result` plumbing below.
pub type ParseResult<T> = Result<T, RequestParserError>;

/// A one-byte-lookahead reader over the bytes of one request. The bytes are
/// read from the connection by the caller; the parser itself never blocks.
pub struct RequestParser {
    input: Vec<u8>,
    pos: usize,
}

impl RequestParser {
    #[verifier::type_invariant]
    spec fn inv(self) -> bool {
        self.pos <= self.input@.len()
    }

    /// The bytes being parsed.
    pub closed spec fn stream(&self) -> Seq<u8> {
        self.input@
    }

    /// The reading position: how many bytes have been consumed.
    pub closed spec fn at(&self) -> int {
        self.pos as int
    }

    /// Start reading the given request bytes.
    pub fn new(input: Vec<u8>) -> (r: Self)
        ensures
            r.stream() == input@,
            r.at() == 0,
    {
        Self { input, pos: 0 }
    }

    /// An error at the current position.
    fn error(&self, reason: &str) -> (r: RequestParserError)
        ensures
            r@ == ((errpos(self.stream(), self.at()), reason@)),
    {
        proof {
            use_type_invariant(self);
        }
        let position = if self.pos < self.input.len() {
            self.pos + 1
        } else {
            self.pos
        };
        RequestParserError::new(position, reason)
    }

    /// Read the next byte, or nothing at the end of input.
    fn next(&mut self) -> (r: Option<u8>)
        ensures
            final(self).stream() == old(self).stream(),
            (r, final(self).at()) == sp_next(old(self).stream(), old(self).at()),
    {
        proof {
            use_type_invariant(&*self);
        }
        if self.pos < self.input.len() {
            let b = self.input[self.pos];
            self.pos = self.pos + 1;
            Some(b)
        } else {
            None
        }
    }

    /// Require one given byte.
    fn expect(&mut self, b: u8) -> (r: ParseResult<()>)
        ensures
            final(self).stream() == old(self).stream(),
            match sp_expect(old(self).stream(), old(self).at(), b) {
                Ok(j) => r is Ok && final(self).at() == j,
                Err(e) => r is Err && r->Err_0@ == e,
            },
    {
        let n = self.next();
        if n == Some(b) {
            Ok(())
        } else {
            let mut msg = "expected '".to_owned();
            push_char(&mut msg, b as char);
            msg.append("'");
            proof {
                assert(msg@ =~= expected_msg(b));
            }
            Err(self.error(msg.as_str()))
        }
    }

    /// Require a given byte sequence.
    #[verifier::loop_isolation(false)]
    fn expects(&mut self, bs: &[u8]) -> (r: ParseResult<()>)
        ensures
            final(self).stream() == old(self).stream(),
            match sp_expects(old(self).stream(), old(self).at(), bs@) {
                Ok(j) => r is Ok && final(self).at() == j,
                Err(e) => r is Err && r->Err_0@ == e,
            },
    {
        let ghost s = self.stream();
        let mut i: usize = 0;
        proof {
            assert(bs@.skip(0) =~= bs@);
        }
        while i < bs.len()
            invariant
                0 <= i <= bs@.len(),
                self.stream() == s,
                sp_expects(s, old(self).at(), bs@) == sp_expects(s, self.at(), bs@.skip(i as int)),
            decreases bs@.len() - i,
        {
            proof {
                assert(bs@.skip(i as int)[0] == bs@[i as int]);
                assert(bs@.skip(i as int).drop_first() =~= bs@.skip(i as int + 1));
            }
            match self.expect(bs[i]) {
                Ok(()) => {},
                Err(e) => {
                    return Err(e);
                },
            }
            i = i + 1;
        }
        proof {
            assert(bs@.skip(bs@.len() as int) =~= Seq::<u8>::empty());
        }
        Ok(())
    }

    /// A line ending.
    fn crlf(&mut self) -> (r: ParseResult<()>)
        ensures
            final(self).stream() == old(self).stream(),
            match sp_crlf(old(self).stream(), old(self).at()) {
                Ok(j) => r is Ok && final(self).at() == j,
                Err(e) => r is Err && r->Err_0@ == e,
            },
    {
        let mut bs: Vec<u8> = Vec::new();
        bs.push(13);
        bs.push(10);
        proof {
            assert(bs@ =~= seq![cr(), lf()]);
        }
        self.expects(bs.as_slice())
    }

    /// One byte of a class, or failure without consuming.
    fn one<F: Fn(u8) -> bool>(&mut self, predicate: &F, Ghost(p): Ghost<spec_fn(u8) -> bool>)
        -> (r: ParseResult<Vec<u8>>)
        requires
            forall|b: u8| #[trigger] call_requires(*predicate, (b,)),
            forall|b: u8, o: bool| #[trigger] call_ensures(*predicate, (b,), o) ==> o == p(b),
        ensures
            final(self).stream() == old(self).stream(),
            match sp_one(old(self).stream(), old(self).at(), p) {
                Ok(j) => r is Ok && final(self).at() == j && r->Ok_0@ == seq![
                    old(self).stream()[old(self).at()],
                ],
                Err(e) => r is Err && r->Err_0@ == e && final(self).at() == old(self).at(),
            },
    {
        proof {
            use_type_invariant(&*self);
        }
        if self.pos < self.input.len() {
            let b = self.input[self.pos];
            if predicate(b) {
                self.pos = self.pos + 1;
                let mut v: Vec<u8> = Vec::new();
                v.push(b);
                proof {
                    assert(v@ =~= seq![old(self).stream()[old(self).at()]]);
                }
                Ok(v)
            } else {
                Err(self.error("unexpected character"))
            }
        } else {
            Err(self.error("unexpected character"))
        }
    }

    /// The longest run of bytes of a class, possibly empty.
    fn star<F: Fn(u8) -> bool>(&mut self, predicate: &F, Ghost(p): Ghost<spec_fn(u8) -> bool>)
        -> (r: Vec<u8>)
        requires
            forall|b: u8| #[trigger] call_requires(*predicate, (b,)),
            forall|b: u8, o: bool| #[trigger] call_ensures(*predicate, (b,), o) ==> o == p(b),
        ensures
            final(self).stream() == old(self).stream(),
            (r@, final(self).at()) == sp_star(old(self).stream(), old(self).at(), p),
    {
        proof {
            use_type_invariant(&*self);
        }
        let ghost s = self.stream();
        let ghost start = self.at();
        proof {
            lemma_star_bounds(s, start, p);
        }
        let mut out: Vec<u8> = Vec::new();
        proof {
            assert(out@ =~= s.subrange(start, start));
        }
        loop
            invariant
                0 <= start <= self.at() <= s.len(),
                self.stream() == s,
                out@ == s.subrange(start, self.at()),
                forall|k: int| start <= k < self.at() ==> p(#[trigger] s[k]),
                forall|b: u8| #[trigger] call_requires(*predicate, (b,)),
                forall|b: u8, o: bool| #[trigger] call_ensures(*predicate, (b,), o) ==> o == p(b),
            ensures
                self.at() == s.len() || !p(s[self.at()]),
            decreases s.len() - self.at(),
        {
            proof {
                use_type_invariant(&*self);
            }
            if self.pos >= self.input.len() {
                break ;
            }
            let b = self.input[self.pos];
            if !predicate(b) {
                break ;
            }
            self.pos = self.pos + 1;
            out.push(b);
            proof {
                assert(out@ =~= s.subrange(start, self.at()));
            }
        }
        proof {
            let (v, j) = sp_star(s, start, p);
            if self.at() < j {
                assert(p(s[self.at()]));
            }
            if self.at() > j {
                assert(p(s[j]));
                assert(!p(s[j]));
            }
            assert(self.at() == j);
            assert(out@ =~= v);
        }
        out
    }
}

/// The single point the parsers' byte classes are named from, so that spec
/// and executable sides use one predicate value each.
pub open spec fn ws_pred() -> spec_fn(u8) -> bool {
    |b: u8| is_ws(b)
}

/// The upper-case letter class, as one predicate value.
pub open spec fn upper_pred() -> spec_fn(u8) -> bool {
    |b: u8| is_upper(b)
}

/// The path class, as one predicate value.
pub open spec fn path_pred() -> spec_fn(u8) -> bool {
    |b: u8| is_path_b(b)
}

/// The query class, as one predicate value.
pub open spec fn query_pred() -> spec_fn(u8) -> bool {
    |b: u8| is_query_b(b)
}

/// The fragment class, as one predicate value.
pub open spec fn fragment_pred() -> spec_fn(u8) -> bool {
    |b: u8| is_fragment_b(b)
}

/// The HTTP version minor digit class, as one predicate value.
pub open spec fn zero_one_pred() -> spec_fn(u8) -> bool {
    |b: u8| is_zero_one(b)
}

/// The bytes of each standard method token.
pub open spec fn method_bytes(m: Method) -> Seq<u8> {
    match m {
        Method::GET => seq!['G' as u8, 'E' as u8, 'T' as u8],
        Method::HEAD => seq!['H' as u8, 'E' as u8, 'A' as u8, 'D' as u8],
        Method::POST => seq!['P' as u8, 'O' as u8, 'S' as u8, 'T' as u8],
        Method::PUT => seq!['P' as u8, 'U' as u8, 'T' as u8],
        Method::PATCH => seq!['P' as u8, 'A' as u8, 'T' as u8, 'C' as u8, 'H' as u8],
        Method::DELETE => seq!['D' as u8, 'E' as u8, 'L' as u8, 'E' as u8, 'T' as u8, 'E' as u8],
        Method::CONNECT => seq![
            'C' as u8,
            'O' as u8,
            'N' as u8,
            'N' as u8,
            'E' as u8,
            'C' as u8,
            'T' as u8,
        ],
        Method::OPTIONS => seq![
            'O' as u8,
            'P' as u8,
            'T' as u8,
            'I' as u8,
            'O' as u8,
            'N' as u8,
            'S' as u8,
        ],
        Method::TRACE => seq!['T' as u8, 'R' as u8, 'A' as u8, 'C' as u8, 'E' as u8],
    }
}

/// The method a token stands for, if it is one of the nine standard verbs.
pub open spec fn spec_method_of(v: Seq<u8>) -> Option<Method> {
    if v == method_bytes(Method::GET) {
        Some(Method::GET)
    } else if v == method_bytes(Method::HEAD) {
        Some(Method::HEAD)
    } else if v == method_bytes(Method::POST) {
        Some(Method::POST)
    } else if v == method_bytes(Method::PUT) {
        Some(Method::PUT)
    } else if v == method_bytes(Method::PATCH) {
        Some(Method::PATCH)
    } else if v == method_bytes(Method::DELETE) {
        Some(Method::DELETE)
    } else if v == method_bytes(Method::CONNECT) {
        Some(Method::CONNECT)
    } else if v == method_bytes(Method::OPTIONS) {
        Some(Method::OPTIONS)
    } else if v == method_bytes(Method::TRACE) {
        Some(Method::TRACE)
    } else {
        None
    }
}

/// Read a method token.
pub fn method_of(v: &Vec<u8>) -> (r: Option<Method>)
    ensures
        r == spec_method_of(v@),
{
    let r = if v.len() == 3 && v[0] == 'G' as u8 && v[1] == 'E' as u8 && v[2] == 'T' as u8 {
        proof {
            assert(v@ =~= method_bytes(Method::GET));
        }
        Some(Method::GET)
    } else if v.len() == 4 && v[0] == 'H' as u8 && v[1] == 'E' as u8 && v[2] == 'A' as u8 && v[3]
        == 'D' as u8 {
        proof {
            assert(v@ =~= method_bytes(Method::HEAD));
        }
        Some(Method::HEAD)
    } else if v.len() == 4 && v[0] == 'P' as u8 && v[1] == 'O' as u8 && v[2] == 'S' as u8 && v[3]
        == 'T' as u8 {
        proof {
            assert(v@ =~= method_bytes(Method::POST));
        }
        Some(Method::POST)
    } else if v.len() == 3 && v[0] == 'P' as u8 && v[1] == 'U' as u8 && v[2] == 'T' as u8 {
        proof {
            assert(v@ =~= method_bytes(Method::PUT));
        }
        Some(Method::PUT)
    } else if v.len() == 5 && v[0] == 'P' as u8 && v[1] == 'A' as u8 && v[2] == 'T' as u8 && v[3]
        == 'C' as u8 && v[4] == 'H' as u8 {
        proof {
            assert(v@ =~= method_bytes(Method::PATCH));
        }
        Some(Method::PATCH)
    } else if v.len() == 6 && v[0] == 'D' as u8 && v[1] == 'E' as u8 && v[2] == 'L' as u8 && v[3]
        == 'E' as u8 && v[4] == 'T' as u8 && v[5] == 'E' as u8 {
        proof {
            assert(v@ =~= method_bytes(Method::DELETE));
        }
        Some(Method::DELETE)
    } else if v.len() == 7 && v[0] == 'C' as u8 && v[1] == 'O' as u8 && v[2] == 'N' as u8 && v[3]
        == 'N' as u8 && v[4] == 'E' as u8 && v[5] == 'C' as u8 && v[6] == 'T' as u8 {
        proof {
            assert(v@ =~= method_bytes(Method::CONNECT));
        }
        Some(Method::CONNECT)
    } else if v.len() == 7 && v[0] == 'O' as u8 && v[1] == 'P' as u8 && v[2] == 'T' as u8 && v[3]
        == 'I' as u8 && v[4] == 'O' as u8 && v[5] == 'N' as u8 && v[6] == 'S' as u8 {
        proof {
            assert(v@ =~= method_bytes(Method::OPTIONS));
        }
        Some(Method::OPTIONS)
    } else if v.len() == 5 && v[0] == 'T' as u8 && v[1] == 'R' as u8 && v[2] == 'A' as u8 && v[3]
        == 'C' as u8 && v[4] == 'E' as u8 {
        proof {
            assert(v@ =~= method_bytes(Method::TRACE));
        }
        Some(Method::TRACE)
    } else {
        proof {
            assert(v@ != method_bytes(Method::GET) && v@ != method_bytes(Method::HEAD) && v@
                != method_bytes(Method::POST) && v@ != method_bytes(Method::PUT) && v@
                != method_bytes(Method::PATCH) && v@ != method_bytes(Method::DELETE) && v@
                != method_bytes(Method::CONNECT) && v@ != method_bytes(Method::OPTIONS) && v@
                != method_bytes(Method::TRACE));
        }
        None
    };
    r
}

/// Reading the method token: at least one upper-case letter, recognized as
/// one of the nine standard verbs.
pub open spec fn sp_method(s: Seq<u8>, i: int) -> Result<(Method, int), ErrV> {
    match sp_plus(s, i, upper_pred()) {
        Err(e) => Err(e),
        Ok((v, j)) => match spec_method_of(v) {
            Some(m) => Ok((m, j)),
            None => Err((0, "invalid HTTP method"@)),
        },
    }
}

/// Reading the path: it must begin with `/` and is the longest run of path
/// bytes.
pub open spec fn sp_path(s: Seq<u8>, i: int) -> Result<(Seq<u8>, int), ErrV> {
    if !(0 <= i < s.len() && s[i] == '/' as u8) {
        Err((errpos(s, i), "expected path starting with /"@))
    } else {
        sp_plus(s, i, path_pred())
    }
}

/// Reading the query: nothing without a `?`; after one, at least one query
/// byte.
pub open spec fn sp_query(s: Seq<u8>, i: int) -> Result<(Seq<u8>, int), ErrV> {
    if 0 <= i < s.len() && s[i] == '?' as u8 {
        sp_plus(s, i + 1, query_pred())
    } else {
        Ok((Seq::<u8>::empty(), i))
    }
}

/// Reading the fragment: nothing without a `#`; after one, at least one
/// fragment byte.
pub open spec fn sp_fragment(s: Seq<u8>, i: int) -> Result<(Seq<u8>, int), ErrV> {
    if 0 <= i < s.len() && s[i] == '#' as u8 {
        sp_plus(s, i + 1, fragment_pred())
    } else {
        Ok((Seq::<u8>::empty(), i))
    }
}

/// A byte sequence with its trailing blanks removed.
pub open spec fn strip_blanks_end(v: Seq<u8>) -> Seq<u8>
    decreases v.len(),
{
    if v.len() > 0 && is_ws(v.last()) {
        strip_blanks_end(v.drop_last())
    } else {
        v
    }
}

/// Reading one header line: a name up to `:`, then the value up to the line
/// ending, trimmed of surrounding optional whitespace; the name is
/// lower-cased, and both sides must be valid UTF-8.
pub open spec fn sp_header(s: Seq<u8>, i: int) -> Result<((Seq<char>, Seq<char>), int), ErrV> {
    match sp_until(s, i, ':' as u8) {
        Err(e) => Err(e),
        Ok((name, j1)) => match sp_expects(s, j1, seq![':' as u8]) {
            Err(e) => Err(e),
            Ok(j2) => {
                let (ws, j3) = sp_star(s, j2, ws_pred());
                match sp_until(s, j3, cr()) {
                    Err(e) => Err(e),
                    Ok((value, j4)) => match sp_crlf(s, j4) {
                        Err(e) => Err(e),
                        Ok(j5) => {
                            let trimmed = strip_blanks_end(value);
                            if valid_utf8(lower_bytes(name)) && valid_utf8(trimmed) {
                                Ok(
                                    (
                                        (decode_utf8(lower_bytes(name)), decode_utf8(trimmed)),
                                        j5,
                                    ),
                                )
                            } else {
                                Err((0, "invalid UTF-8"@))
                            }
                        },
                    },
                }
            },
        },
    }
}

/// A parsed header line consumes at least its `:` and line ending.
pub proof fn lemma_header_bounds(s: Seq<u8>, i: int)
    requires
        0 <= i <= s.len(),
    ensures
        match sp_header(s, i) {
            Ok((h, j)) => i < j <= s.len(),
            Err(e) => true,
        },
{
    match sp_until(s, i, ':' as u8) {
        Err(_) => {},
        Ok((name, j1)) => {
            lemma_until_bounds(s, i, ':' as u8);
            lemma_expects_bounds(s, j1, seq![':' as u8]);
            match sp_expects(s, j1, seq![':' as u8]) {
                Err(_) => {},
                Ok(j2) => {
                    lemma_star_bounds(s, j2, ws_pred());
                    let (ws, j3) = sp_star(s, j2, ws_pred());
                    match sp_until(s, j3, cr()) {
                        Err(_) => {},
                        Ok((value, j4)) => {
                            lemma_until_bounds(s, j3, cr());
                            lemma_expects_bounds(s, j4, seq![cr(), lf()]);
                        },
                    }
                },
            }
        },
    }
}

/// Reading the header block: header lines until the line that begins the
/// blank-line terminator.
pub open spec fn sp_headers(s: Seq<u8>, i: int) -> Result<
    (Seq<(Seq<char>, Seq<char>)>, int),
    ErrV,
>
    decreases s.len() - i,
    via sp_headers_dec
{
    if 0 <= i < s.len() && s[i] == cr() {
        Ok((Seq::<(Seq<char>, Seq<char>)>::empty(), i))
    } else {
        match sp_header(s, i) {
            Err(e) => Err(e),
            Ok((h, j)) => {
                // A parsed header line always moves forward, so the guard
                // holds wherever this function is reached; it keeps the
                // recursion measure visibly decreasing.
                if 0 <= i && i < j <= s.len() {
                    match sp_headers(s, j) {
                        Err(e) => Err(e),
                        Ok((rest, k)) => Ok((seq![h] + rest, k)),
                    }
                } else {
                    Err((0, "invalid UTF-8"@))
                }
            },
        }
    }
}

#[via_fn]
proof fn sp_headers_dec(s: Seq<u8>, i: int) {
}

impl RequestParser {
    /// At least one byte of a class: the run of bytes read.
    fn plus<F: Fn(u8) -> bool>(&mut self, predicate: &F, Ghost(p): Ghost<spec_fn(u8) -> bool>)
        -> (r: ParseResult<Vec<u8>>)
        requires
            forall|b: u8| #[trigger] call_requires(*predicate, (b,)),
            forall|b: u8, o: bool| #[trigger] call_ensures(*predicate, (b,), o) ==> o == p(b),
        ensures
            final(self).stream() == old(self).stream(),
            match sp_plus(old(self).stream(), old(self).at(), p) {
                Ok((v, j)) => r is Ok && r->Ok_0@ == v && final(self).at() == j,
                Err(e) => r is Err && r->Err_0@ == e,
            },
    {
        let ghost s = self.stream();
        let ghost start = self.at();
        let mut out = match self.one(predicate, Ghost(p)) {
            Ok(v) => v,
            Err(e) => {
                return Err(e);
            },
        };
        let mut rest = self.star(predicate, Ghost(p));
        out.append(&mut rest);
        proof {
            let (v, j) = sp_star(s, start + 1, p);
            assert(out@ =~= seq![s[start]] + v);
        }
        Ok(out)
    }

    /// Everything before the next occurrence of a byte, leaving the byte
    /// unread.
    fn until(&mut self, b: u8) -> (r: ParseResult<Vec<u8>>)
        ensures
            final(self).stream() == old(self).stream(),
            match sp_until(old(self).stream(), old(self).at(), b) {
                Ok((v, j)) => r is Ok && r->Ok_0@ == v && final(self).at() == j,
                Err(e) => r is Err && r->Err_0@ == e,
            },
    {
        proof {
            use_type_invariant(&*self);
        }
        let ghost s = self.stream();
        let ghost start = self.at();
        proof {
            lemma_until_bounds(s, start, b);
        }
        let mut out: Vec<u8> = Vec::new();
        proof {
            assert(out@ =~= s.subrange(start, start));
        }
        loop
            invariant
                0 <= start <= self.at() <= s.len(),
                self.stream() == s,
                out@ == s.subrange(start, self.at()),
                forall|k: int| start <= k < self.at() ==> s[k] != b,
            ensures
                self.at() == s.len() || s[self.at()] == b,
                0 <= start <= self.at() <= s.len(),
                self.stream() == s,
                out@ == s.subrange(start, self.at()),
                forall|k: int| start <= k < self.at() ==> s[k] != b,
            decreases s.len() - self.at(),
        {
            proof {
                use_type_invariant(&*self);
            }
            if self.pos >= self.input.len() {
                break ;
            }
            let c = self.input[self.pos];
            if c == b {
                break ;
            }
            self.pos = self.pos + 1;
            out.push(c);
            proof {
                assert(out@ =~= s.subrange(start, self.at()));
            }
        }
        if self.pos < self.input.len() {
            proof {
                match sp_until(s, start, b) {
                    Ok((v, j)) => {
                        if self.at() < j {
                            assert(s[self.at()] == b);
                            assert(s[self.at()] != b);
                        }
                        if self.at() > j {
                            assert(s[j] == b);
                            assert(s[j] != b);
                        }
                        assert(out@ =~= v);
                    },
                    Err(e) => {
                        assert(s[self.at()] == b);
                        assert(s[self.at()] != b);
                    },
                }
            }
            Ok(out)
        } else {
            proof {
                match sp_until(s, start, b) {
                    Ok((v, j)) => {
                        assert(s[j] == b);
                        assert(s[j] != b);
                    },
                    Err(e) => {},
                }
            }
            Err(self.error("unexpected end of input"))
        }
    }

    /// Read the method token.
    fn method(&mut self) -> (r: ParseResult<Method>)
        ensures
            final(self).stream() == old(self).stream(),
            match sp_method(old(self).stream(), old(self).at()) {
                Ok((m, j)) => r is Ok && r->Ok_0 == m && final(self).at() == j,
                Err(e) => r is Err && r->Err_0@ == e,
            },
    {
        let v = match self.plus(&upper_byte, Ghost(upper_pred())) {
            Ok(v) => v,
            Err(e) => {
                return Err(e);
            },
        };
        match method_of(&v) {
            Some(m) => Ok(m),
            None => Err(RequestParserError::new(0, "invalid HTTP method")),
        }
    }

    /// Read the path.
    fn path(&mut self) -> (r: ParseResult<Vec<u8>>)
        ensures
            final(self).stream() == old(self).stream(),
            match sp_path(old(self).stream(), old(self).at()) {
                Ok((v, j)) => r is Ok && r->Ok_0@ == v && final(self).at() == j,
                Err(e) => r is Err && r->Err_0@ == e,
            },
    {
        proof {
            use_type_invariant(&*self);
        }
        if !(self.pos < self.input.len() && self.input[self.pos] == '/' as u8) {
            return Err(self.error("expected path starting with /"));
        }
        self.plus(&path_byte, Ghost(path_pred()))
    }

    /// Read the query, where the path is followed by `?`.
    fn query(&mut self) -> (r: ParseResult<Vec<u8>>)
        ensures
            final(self).stream() == old(self).stream(),
            match sp_query(old(self).stream(), old(self).at()) {
                Ok((v, j)) => r is Ok && r->Ok_0@ == v && final(self).at() == j,
                Err(e) => r is Err && r->Err_0@ == e,
            },
    {
        proof {
            use_type_invariant(&*self);
        }
        if self.pos < self.input.len() && self.input[self.pos] == '?' as u8 {
            self.pos = self.pos + 1;
            self.plus(&query_byte, Ghost(query_pred()))
        } else {
            let out: Vec<u8> = Vec::new();
            proof {
                assert(out@ =~= Seq::<u8>::empty());
            }
            Ok(out)
        }
    }

    /// Read the fragment, where the target is followed by `#`.
    fn fragment(&mut self) -> (r: ParseResult<Vec<u8>>)
        ensures
            final(self).stream() == old(self).stream(),
            match sp_fragment(old(self).stream(), old(self).at()) {
                Ok((v, j)) => r is Ok && r->Ok_0@ == v && final(self).at() == j,
                Err(e) => r is Err && r->Err_0@ == e,
            },
    {
        proof {
            use_type_invariant(&*self);
        }
        if self.pos < self.input.len() && self.input[self.pos] == '#' as u8 {
            self.pos = self.pos + 1;
            self.plus(&fragment_byte, Ghost(fragment_pred()))
        } else {
            let out: Vec<u8> = Vec::new();
            proof {
                assert(out@ =~= Seq::<u8>::empty());
            }
            Ok(out)
        }
    }

    /// Read the whole request target: path, query, fragment.
    fn uri(&mut self) -> (r: ParseResult<(Vec<u8>, Vec<u8>, Vec<u8>)>)
        ensures
            final(self).stream() == old(self).stream(),
            match sp_path(old(self).stream(), old(self).at()) {
                Err(e) => r is Err && r->Err_0@ == e,
                Ok((pv, j1)) => match sp_query(old(self).stream(), j1) {
                    Err(e) => r is Err && r->Err_0@ == e,
                    Ok((qv, j2)) => match sp_fragment(old(self).stream(), j2) {
                        Err(e) => r is Err && r->Err_0@ == e,
                        Ok((fv, j3)) => r is Ok && r->Ok_0.0@ == pv && r->Ok_0.1@ == qv
                            && r->Ok_0.2@ == fv && final(self).at() == j3,
                    },
                },
            },
    {
        let p = match self.path() {
            Ok(v) => v,
            Err(e) => {
                return Err(e);
            },
        };
        let q = match self.query() {
            Ok(v) => v,
            Err(e) => {
                return Err(e);
            },
        };
        let f = match self.fragment() {
            Ok(v) => v,
            Err(e) => {
                return Err(e);
            },
        };
        Ok((p, q, f))
    }

    /// Read one header line: the lower-cased name, and the value trimmed of
    /// surrounding optional whitespace, both as text.
    fn header(&mut self) -> (r: ParseResult<(String, String)>)
        ensures
            final(self).stream() == old(self).stream(),
            match sp_header(old(self).stream(), old(self).at()) {
                Ok((h, j)) => r is Ok && r->Ok_0.0@ == h.0 && r->Ok_0.1@ == h.1 && final(self).at()
                    == j,
                Err(e) => r is Err && r->Err_0@ == e,
            },
    {
        let name_raw = match self.until(':' as u8) {
            Ok(v) => v,
            Err(e) => {
                return Err(e);
            },
        };
        let mut colon: Vec<u8> = Vec::new();
        colon.push(':' as u8);
        proof {
            assert(colon@ =~= seq![':' as u8]);
        }
        match self.expects(colon.as_slice()) {
            Ok(()) => {},
            Err(e) => {
                return Err(e);
            },
        }
        let _ws = self.star(&whitespace, Ghost(ws_pred()));
        let mut value_raw = match self.until(13) {
            Ok(v) => v,
            Err(e) => {
                return Err(e);
            },
        };
        let ghost value_orig = value_raw@;
        while value_raw.len() > 0 && whitespace(value_raw[value_raw.len() - 1])
            invariant
                strip_blanks_end(value_orig) == strip_blanks_end(value_raw@),
            decreases value_raw@.len(),
        {
            let ghost pre = value_raw@;
            value_raw.pop();
            proof {
                assert(value_raw@ =~= pre.drop_last());
            }
        }
        proof {
            assert(strip_blanks_end(value_raw@) == value_raw@);
            assert(strip_blanks_end(value_orig) == value_raw@);
        }
        match self.crlf() {
            Ok(()) => {},
            Err(e) => {
                return Err(e);
            },
        }
        let mut lowered: Vec<u8> = Vec::new();
        let mut i: usize = 0;
        while i < name_raw.len()
            invariant
                0 <= i <= name_raw@.len(),
                lowered@ == lower_bytes(name_raw@).take(i as int),
            decreases name_raw@.len() - i,
        {
            lowered.push(lower_u8(name_raw[i]));
            i = i + 1;
            proof {
                assert(lowered@ =~= lower_bytes(name_raw@).take(i as int));
            }
        }
        proof {
            assert(lowered@ =~= lower_bytes(name_raw@));
        }
        let name = match bytes_to_string(lowered) {
            Some(n) => n,
            None => {
                return Err(RequestParserError::new(0, "invalid UTF-8"));
            },
        };
        let value = match bytes_to_string(value_raw) {
            Some(v) => v,
            None => {
                return Err(RequestParserError::new(0, "invalid UTF-8"));
            },
        };
        Ok((name, value))
    }

    /// Read the header block, in wire order.
    #[verifier::loop_isolation(false)]
    fn headers(&mut self) -> (r: ParseResult<Vec<(String, String)>>)
        ensures
            final(self).stream() == old(self).stream(),
            match sp_headers(old(self).stream(), old(self).at()) {
                Ok((hs, j)) => r is Ok && pairs_view(r->Ok_0@) == hs && final(self).at() == j,
                Err(e) => r is Err && r->Err_0@ == e,
            },
    {
        proof {
            use_type_invariant(&*self);
        }
        let ghost s = self.stream();
        let ghost start = self.at();
        let mut out: Vec<(String, String)> = Vec::new();
        proof {
            assert(pairs_view(out@) =~= Seq::<(Seq<char>, Seq<char>)>::empty());
        }
        loop
            invariant
                0 <= start <= self.at() <= s.len(),
                self.stream() == s,
                sp_headers(s, start) == match sp_headers(s, self.at()) {
                    Ok((rest, j)) => Ok::<(Seq<(Seq<char>, Seq<char>)>, int), ErrV>(
                        (pairs_view(out@) + rest, j),
                    ),
                    Err(e) => Err::<(Seq<(Seq<char>, Seq<char>)>, int), ErrV>(e),
                },
            decreases s.len() - self.at() + 1,
        {
            proof {
                use_type_invariant(&*self);
            }
            if self.pos < self.input.len() && self.input[self.pos] == 13 {
                proof {
                    assert(sp_headers(s, self.at()) == Ok::<
                        (Seq<(Seq<char>, Seq<char>)>, int),
                        ErrV,
                    >((Seq::<(Seq<char>, Seq<char>)>::empty(), self.at())));
                    assert(pairs_view(out@) + Seq::<(Seq<char>, Seq<char>)>::empty() =~= pairs_view(
                        out@,
                    ));
                }
                return Ok(out);
            }
            let ghost pre_at = self.at();
            let ghost pre = pairs_view(out@);
            proof {
                lemma_header_bounds(s, pre_at);
            }
            match self.header() {
                Ok((n, v)) => {
                    out.push((n, v));
                    proof {
                        let (h, j) = sp_header(s, pre_at)->Ok_0;
                        assert(pairs_view(out@) =~= pre.push(h));
                        assert(pairs_view(out@) + (match sp_headers(s, self.at()) {
                            Ok((rest, k)) => rest,
                            Err(e) => Seq::<(Seq<char>, Seq<char>)>::empty(),
                        }) =~= pre + (seq![h] + (match sp_headers(s, self.at()) {
                            Ok((rest, k)) => rest,
                            Err(e) => Seq::<(Seq<char>, Seq<char>)>::empty(),
                        })));
                    }
                },
                Err(e) => {
                    return Err(e);
                },
            }
        }
    }

    /// Read exactly the declared number of body bytes; fewer is an error
    /// naming the exact shortfall.
    #[verifier::loop_isolation(false)]
    fn body(&mut self, content_length: usize) -> (r: ParseResult<Vec<u8>>)
        ensures
            final(self).stream() == old(self).stream(),
            ({
                let s = old(self).stream();
                let i = old(self).at();
                if s.len() - i >= content_length {
                    r is Ok && r->Ok_0@ == s.subrange(i, i + content_length) && final(self).at()
                        == i + content_length
                } else {
                    r is Err && r->Err_0@ == ((
                        s.len() as int,
                        "expected "@ + dec_chars(content_length - (s.len() - i)) + " more bytes"@,
                    ))
                }
            }),
    {
        proof {
            use_type_invariant(&*self);
        }
        let ghost s = self.stream();
        let ghost start = self.at();
        let available = self.input.len() - self.pos;
        if available >= content_length {
            let mut out: Vec<u8> = Vec::new();
            let mut k: usize = 0;
            proof {
                assert(out@ =~= s.subrange(start, start));
            }
            while k < content_length
                invariant
                    0 <= k <= content_length,
                    0 <= start,
                    start + content_length <= s.len(),
                    self.stream() == s,
                    self.at() == start + k,
                    out@ == s.subrange(start, start + k),
                decreases content_length - k,
            {
                proof {
                    use_type_invariant(&*self);
                }
                let b = self.input[self.pos];
                self.pos = self.pos + 1;
                out.push(b);
                k = k + 1;
                proof {
                    assert(out@ =~= s.subrange(start, start + k));
                }
            }
            Ok(out)
        } else {
            let missing = content_length - available;
            let mut msg = "expected ".to_owned();
            crate::text::append_dec(&mut msg, missing as u64);
            msg.append(" more bytes");
            proof {
                assert(msg@ =~= "expected "@ + dec_chars(content_length - (s.len() - start))
                    + " more bytes"@);
            }
            let position = self.input.len();
            Err(RequestParserError::new(position, msg.as_str()))
        }
    }
}

/// Whether a character is a decimal digit.
pub open spec fn is_digit_c(c: char) -> bool {
    '0' <= c && c <= '9'
}

/// The number a sequence of decimal-digit characters stands for, or nothing
/// where a character is no digit or the value passes the bound. `acc`
/// carries the value of the digits already read.
pub open spec fn dec_value_c(s: Seq<char>, acc: int, bound: int) -> Option<int>
    decreases s.len(),
{
    if s.len() == 0 {
        Some(acc)
    } else if is_digit_c(s[0]) {
        let v = acc * 10 + (s[0] as u8 - '0' as u8);
        if v > bound {
            None
        } else {
            dec_value_c(s.skip(1), v, bound)
        }
    } else {
        None
    }
}

/// What reading characters as a decimal `usize` yields: the value where
/// every character is a digit, there is at least one, and the value fits.
pub open spec fn spec_usize_chars(s: Seq<char>) -> Option<int> {
    if s.len() == 0 {
        None
    } else {
        dec_value_c(s, 0, usize::MAX as int)
    }
}

/// Read a decimal `usize` out of characters: all must be digits, at least
/// one, and the value must fit.
#[verifier::loop_isolation(false)]
pub fn parse_usize_chars(v: &Vec<char>) -> (r: Option<usize>)
    ensures
        match r {
            Some(n) => spec_usize_chars(v@) == Some(n as int),
            None => spec_usize_chars(v@) is None,
        },
{
    if v.len() == 0 {
        return None;
    }
    let mut acc: usize = 0;
    let mut i: usize = 0;
    proof {
        assert(v@.skip(0) =~= v@);
    }
    while i < v.len()
        invariant
            0 <= i <= v@.len(),
            dec_value_c(v@, 0, usize::MAX as int) == dec_value_c(
                v@.skip(i as int),
                acc as int,
                usize::MAX as int,
            ),
        decreases v@.len() - i,
    {
        let c = v[i];
        if c < '0' || c > '9' {
            proof {
                assert(v@.skip(i as int)[0] == c);
            }
            return None;
        }
        let d = (c as u8 - '0' as u8) as usize;
        let next = match acc.checked_mul(10) {
            Some(m) => m.checked_add(d),
            None => None,
        };
        match next {
            Some(m) => {
                proof {
                    assert(v@.skip(i as int)[0] == c);
                    assert(v@.skip(i as int).skip(1) =~= v@.skip(i as int + 1));
                }
                acc = m;
                i = i + 1;
            },
            None => {
                proof {
                    assert(v@.skip(i as int)[0] == c);
                }
                return None;
            },
        }
    }
    proof {
        assert(v@.skip(i as int) =~= Seq::<char>::empty());
    }
    Some(acc)
}

/// The first value held under an exactly matching name.
pub open spec fn find_exact(hs: Seq<(Seq<char>, Seq<char>)>, name: Seq<char>) -> Option<Seq<char>>
    decreases hs.len(),
{
    if hs.len() == 0 {
        None
    } else if hs[0].0 == name {
        Some(hs[0].1)
    } else {
        find_exact(hs.drop_first(), name)
    }
}

/// Scan a header list for an exactly matching name.
#[verifier::loop_isolation(false)]
pub fn lookup_exact<'a>(headers: &'a Vec<(String, String)>, name: &str) -> (r: Option<&'a String>)
    ensures
        match r {
            Some(v) => find_exact(pairs_view(headers@), name@) == Some(v@),
            None => find_exact(pairs_view(headers@), name@) is None,
        },
{
    let ghost hs = pairs_view(headers@);
    let mut i: usize = 0;
    proof {
        assert(hs.skip(0) =~= hs);
    }
    while i < headers.len()
        invariant
            0 <= i <= headers@.len(),
            hs.len() == headers@.len(),
            forall|k: int| 0 <= k < hs.len() ==> #[trigger] hs[k] == (
                headers@[k].0@,
                headers@[k].1@,
            ),
            find_exact(hs, name@) == find_exact(hs.skip(i as int), name@),
        decreases headers@.len() - i,
    {
        proof {
            assert(hs.skip(i as int)[0] == hs[i as int]);
            assert(hs.skip(i as int).drop_first() =~= hs.skip(i as int + 1));
        }
        if crate::text::str_eq(headers[i].0.as_str(), name) {
            return Some(&headers[i].1);
        }
        i = i + 1;
    }
    proof {
        assert(hs.skip(headers@.len() as int).len() == 0);
    }
    None
}

/// Collecting one more header: replace the value of the first entry with
/// exactly the same name, else append.
pub open spec fn sp_insert_header(
    hs: Seq<(Seq<char>, Seq<char>)>,
    n: Seq<char>,
    v: Seq<char>,
) -> Seq<(Seq<char>, Seq<char>)>
    decreases hs.len(),
{
    if hs.len() == 0 {
        seq![(n, v)]
    } else if hs[0].0 == n {
        seq![(n, v)] + hs.drop_first()
    } else {
        seq![hs[0]] + sp_insert_header(hs.drop_first(), n, v)
    }
}

/// Collecting a parsed header block into the request's header list, in
/// order, later values replacing earlier ones under the same name.
pub open spec fn sp_collect(
    parsed: Seq<(Seq<char>, Seq<char>)>,
    acc: Seq<(Seq<char>, Seq<char>)>,
) -> Seq<(Seq<char>, Seq<char>)>
    decreases parsed.len(),
{
    if parsed.len() == 0 {
        acc
    } else {
        sp_collect(parsed.drop_first(), sp_insert_header(acc, parsed[0].0, parsed[0].1))
    }
}

/// Where the first `i` entries hold another name, inserting replaces the
/// first later exact match, or appends.
proof fn lemma_insert_at(
    hs: Seq<(Seq<char>, Seq<char>)>,
    n: Seq<char>,
    v: Seq<char>,
    i: int,
)
    requires
        0 <= i < hs.len(),
        forall|k: int| 0 <= k < i ==> #[trigger] hs[k].0 != n,
        hs[i].0 == n,
    ensures
        sp_insert_header(hs, n, v) == hs.update(i, (n, v)),
    decreases i,
{
    if i == 0 {
        assert(sp_insert_header(hs, n, v) =~= hs.update(0, (n, v)));
    } else {
        lemma_insert_at(hs.drop_first(), n, v, i - 1);
        assert(hs.drop_first().update(i - 1, (n, v)) =~= hs.update(i, (n, v)).drop_first());
        assert(sp_insert_header(hs, n, v) =~= hs.update(i, (n, v)));
    }
}

/// Where no entry holds the name, inserting appends.
proof fn lemma_insert_none(hs: Seq<(Seq<char>, Seq<char>)>, n: Seq<char>, v: Seq<char>)
    requires
        forall|k: int| 0 <= k < hs.len() ==> #[trigger] hs[k].0 != n,
    ensures
        sp_insert_header(hs, n, v) == hs.push((n, v)),
    decreases hs.len(),
{
    if hs.len() == 0 {
        assert(sp_insert_header(hs, n, v) =~= hs.push((n, v)));
    } else {
        lemma_insert_none(hs.drop_first(), n, v);
        assert(sp_insert_header(hs, n, v) =~= hs.push((n, v)));
    }
}

/// Add one header to the request's header list: replace the value of the
/// first entry with exactly the same name, else append.
#[verifier::loop_isolation(false)]
pub fn insert_header(headers: &mut Vec<(String, String)>, name: String, value: String)
    ensures
        pairs_view(final(headers)@) == sp_insert_header(
            pairs_view(old(headers)@),
            name@,
            value@,
        ),
{
    let ghost hs = pairs_view(headers@);
    let mut i: usize = 0;
    while i < headers.len()
        invariant
            0 <= i <= headers@.len(),
            headers@ == old(headers)@,
            hs == pairs_view(headers@),
            hs.len() == headers@.len(),
            forall|k: int| 0 <= k < hs.len() ==> #[trigger] hs[k] == (
                headers@[k].0@,
                headers@[k].1@,
            ),
            forall|k: int| 0 <= k < i ==> #[trigger] hs[k].0 != name@,
        decreases headers@.len() - i,
    {
        if crate::text::str_eq(headers[i].0.as_str(), name.as_str()) {
            let ghost pre = headers@;
            headers[i] = (name, value);
            proof {
                lemma_insert_at(hs, name@, value@, i as int);
                assert(pairs_view(headers@) =~= hs.update(i as int, (name@, value@)));
            }
            return;
        }
        i = i + 1;
    }
    headers.push((name, value));
    proof {
        lemma_insert_none(hs, name@, value@);
        assert(pairs_view(headers@) =~= hs.push((name@, value@)));
    }
}

/// The name/value pair one `name=value` piece stands for: split at the
/// first `=`; a piece without one stands for nothing.
pub open spec fn pair_of(piece: Seq<char>) -> Option<(Seq<char>, Seq<char>)> {
    match idx_of(piece, '=') {
        None => None,
        Some(k) => Some((piece.take(k), piece.skip(k + 1))),
    }
}

/// The name/value pairs of a piece list, in order, pieces without `=`
/// dropped.
pub open spec fn pairs_of_pieces(pieces: Seq<Seq<char>>) -> Seq<(Seq<char>, Seq<char>)>
    decreases pieces.len(),
{
    if pieces.len() == 0 {
        Seq::<(Seq<char>, Seq<char>)>::empty()
    } else {
        let head = match pair_of(pieces[0]) {
            Some(p) => seq![p],
            None => Seq::<(Seq<char>, Seq<char>)>::empty(),
        };
        head + pairs_of_pieces(pieces.drop_first())
    }
}

/// The name/value pairs a parameter string stands for: `name=value` pieces
/// joined by `&`, each split at its first `=`.
pub open spec fn spec_params(s: Seq<char>) -> Seq<(Seq<char>, Seq<char>)> {
    pairs_of_pieces(spec_split(s, '&'))
}

/// One more piece extends the pair list by its pair, where it has one.
proof fn lemma_pairs_of_step(pieces: Seq<Seq<char>>, i: int)
    requires
        0 < i <= pieces.len(),
    ensures
        pairs_of_pieces(pieces.take(i)) == pairs_of_pieces(pieces.take(i - 1)) + (match pair_of(
            pieces[i - 1],
        ) {
            Some(p) => seq![p],
            None => Seq::<(Seq<char>, Seq<char>)>::empty(),
        }),
    decreases i,
{
    if i == 1 {
        assert(pieces.take(1).drop_first() =~= Seq::<Seq<char>>::empty());
        assert(pieces.take(1)[0] == pieces[0]);
        assert(pairs_of_pieces(pieces.take(0)) =~= Seq::<(Seq<char>, Seq<char>)>::empty());
        assert(pairs_of_pieces(pieces.take(1).drop_first()) =~= Seq::<
            (Seq<char>, Seq<char>),
        >::empty());
        assert(pairs_of_pieces(pieces.take(1)) =~= pairs_of_pieces(pieces.take(0)) + (match pair_of(
            pieces[0],
        ) {
            Some(p) => seq![p],
            None => Seq::<(Seq<char>, Seq<char>)>::empty(),
        }));
    } else {
        lemma_pairs_of_step(pieces.drop_first(), i - 1);
        assert(pieces.take(i).drop_first() =~= pieces.drop_first().take(i - 1));
        assert(pieces.take(i - 1).drop_first() =~= pieces.drop_first().take(i - 2));
        assert(pieces.take(i)[0] == pieces[0]);
        assert(pieces.take(i - 1)[0] == pieces[0]);
        assert(pieces.drop_first()[i - 2] == pieces[i - 1]);
        assert(pairs_of_pieces(pieces.take(i)) =~= pairs_of_pieces(pieces.take(i - 1)) + (match
            pair_of(pieces[i - 1]) {
            Some(p) => seq![p],
            None => Seq::<(Seq<char>, Seq<char>)>::empty(),
        }));
    }
}

/// Read the `name=value` pairs of a parameter string: pieces joined by `&`,
/// each split at its first `=`, pieces without one dropped.
#[verifier::loop_isolation(false)]
pub fn parse_params(params_str: &str) -> (r: Vec<(String, String)>)
    ensures
        pairs_view(r@) == spec_params(params_str@),
{
    let cs = chars_vec(params_str);
    let pieces = crate::text::split_chars(&cs, '&');
    let ghost pv = pieces.deep_view();
    proof {
        assert(pv.len() == pieces@.len());
        assert(forall|k: int| 0 <= k < pieces@.len() ==> #[trigger] pieces@[k]@ == pv[k]);
    }
    let mut out: Vec<(String, String)> = Vec::new();
    let mut i: usize = 0;
    proof {
        assert(pairs_view(out@) =~= pairs_of_pieces(pv.take(0)));
    }
    while i < pieces.len()
        invariant
            0 <= i <= pieces@.len(),
            pairs_view(out@) == pairs_of_pieces(pv.take(i as int)),
        decreases pieces@.len() - i,
    {
        let ghost pre = pairs_view(out@);
        let piece = &pieces[i];
        let mut k: usize = 0;
        while k < piece.len() && piece[k] != '='
            invariant
                0 <= k <= piece@.len(),
                forall|j: int| 0 <= j < k ==> piece@[j] != '=',
            decreases piece@.len() - k,
        {
            k = k + 1;
        }
        if k < piece.len() {
            proof {
                crate::text::lemma_idx_of_at(piece@, '=', k as int);
            }
            let mut name: Vec<char> = Vec::new();
            let mut a: usize = 0;
            while a < k
                invariant
                    0 <= a <= k <= piece@.len(),
                    name@ == piece@.subrange(0, a as int),
                decreases k - a,
            {
                name.push(piece[a]);
                a = a + 1;
                proof {
                    assert(name@ =~= piece@.subrange(0, a as int));
                }
            }
            let mut value: Vec<char> = Vec::new();
            let mut b: usize = k + 1;
            while b < piece.len()
                invariant
                    k + 1 <= b <= piece@.len(),
                    value@ == piece@.subrange(k as int + 1, b as int),
                decreases piece@.len() - b,
            {
                value.push(piece[b]);
                b = b + 1;
                proof {
                    assert(value@ =~= piece@.subrange(k as int + 1, b as int));
                }
            }
            proof {
                assert(name@ =~= piece@.take(k as int));
                assert(value@ =~= piece@.skip(k as int + 1));
            }
            let ns = string_from_chars(name.as_slice());
            let vs = string_from_chars(value.as_slice());
            out.push((ns, vs));
            proof {
                assert(pairs_view(out@) =~= pre.push((piece@.take(k as int), piece@.skip(
                    k as int + 1,
                ))));
            }
        } else {
            proof {
                crate::text::lemma_idx_of_none(piece@, '=');
            }
        }
        i = i + 1;
        proof {
            lemma_pairs_of_step(pv, i as int);
            assert(pairs_view(out@) =~= pairs_of_pieces(pv.take(i as int)));
        }
    }
    proof {
        assert(pv.take(pv.len() as int) =~= pv);
    }
    out
}

/// The query pairs of a request, as query-kind parameter entries.
pub open spec fn query_params_of(query: Seq<char>) -> Seq<(ParamKey, Seq<char>)> {
    spec_params(query).map_values(
        |p: (Seq<char>, Seq<char>)| (ParamKey { kind: ParamKind::Query, name: p.0 }, p.1),
    )
}

/// The body pairs of a request, as body-kind parameter entries: only where
/// the declared content type is exactly `application/www-form-urlencoded`
/// and the payload is UTF-8 text.
pub open spec fn body_params_sq(
    headers: Seq<(Seq<char>, Seq<char>)>,
    payload: Option<Seq<u8>>,
) -> Seq<(ParamKey, Seq<char>)> {
    if find_exact(headers, "content-type"@) == Some("application/www-form-urlencoded"@)
        && payload is Some && valid_utf8(payload->Some_0) {
        spec_params(decode_utf8(payload->Some_0)).map_values(
            |p: (Seq<char>, Seq<char>)| (ParamKey { kind: ParamKind::Body, name: p.0 }, p.1),
        )
    } else {
        Seq::<(ParamKey, Seq<char>)>::empty()
    }
}

/// The body pairs of a request holding its payload as a byte vector.
pub open spec fn body_params_of(
    headers: Seq<(Seq<char>, Seq<char>)>,
    payload: Option<Vec<u8>>,
) -> Seq<(ParamKey, Seq<char>)> {
    match payload {
        Some(b) => body_params_sq(headers, Some(b@)),
        None => body_params_sq(headers, None),
    }
}

/// Record the request's query pairs as query parameters, in order, after
/// everything already recorded.
#[verifier::loop_isolation(false)]
pub fn parse_query_params<T>(req: &mut Request<T>)
    ensures
        final(req).params@ == old(req).params@ + query_params_of(old(req).query@),
        final(req).method == old(req).method,
        final(req).path == old(req).path,
        final(req).query == old(req).query,
        final(req).fragment == old(req).fragment,
        final(req).headers == old(req).headers,
        final(req).payload == old(req).payload,
        final(req).content_length == old(req).content_length,
{
    let pairs = parse_params(req.query.as_str());
    let ghost ps = pairs_view(pairs@);
    let ghost base = req.params@;
    let mut i: usize = 0;
    proof {
        assert(req.params@ =~= base + query_params_of(old(req).query@).take(0));
        assert(query_params_of(old(req).query@).len() == ps.len());
    }
    while i < pairs.len()
        invariant
            0 <= i <= pairs@.len(),
            ps == pairs_view(pairs@),
            ps.len() == pairs@.len(),
            forall|k: int| 0 <= k < pairs@.len() ==> #[trigger] ps[k] == (
                pairs@[k].0@,
                pairs@[k].1@,
            ),
            query_params_of(old(req).query@) == ps.map_values(
                |p: (Seq<char>, Seq<char>)| (ParamKey { kind: ParamKind::Query, name: p.0 }, p.1),
            ),
            req.params@ == base + query_params_of(old(req).query@).take(i as int),
            req.method == old(req).method,
            req.path == old(req).path,
            req.query == old(req).query,
            req.fragment == old(req).fragment,
            req.headers == old(req).headers,
            req.payload == old(req).payload,
            req.content_length == old(req).content_length,
        decreases pairs@.len() - i,
    {
        let name = pairs[i].0.clone();
        let value = pairs[i].1.clone();
        req.params.add(Param::Query(name), value);
        i = i + 1;
        proof {
            assert(req.params@ =~= base + query_params_of(old(req).query@).take(i as int));
        }
    }
    proof {
        assert(query_params_of(old(req).query@).take(pairs@.len() as int) =~= query_params_of(
            old(req).query@,
        ));
    }
}

/// Record the request's form-encoded body pairs as body parameters, in
/// order, after everything already recorded; a request without a
/// form-encoded UTF-8 body is left as it is.
#[verifier::loop_isolation(false)]
pub fn parse_body_params(req: &mut Request<Vec<u8>>)
    ensures
        final(req).params@ == old(req).params@ + body_params_of(
            pairs_view(old(req).headers@),
            old(req).payload,
        ),
        final(req).method == old(req).method,
        final(req).path == old(req).path,
        final(req).query == old(req).query,
        final(req).fragment == old(req).fragment,
        final(req).headers == old(req).headers,
        final(req).payload == old(req).payload,
        final(req).content_length == old(req).content_length,
{
    proof {
        reveal_strlit("content-type");
        reveal_strlit("application/www-form-urlencoded");
    }
    let ghost bp = body_params_of(pairs_view(req.headers@), req.payload);
    let declared = match lookup_exact(&req.headers, "content-type") {
        Some(v) => crate::text::str_eq(v.as_str(), "application/www-form-urlencoded"),
        None => false,
    };
    if !declared {
        proof {
            assert(req.params@ =~= old(req).params@ + bp);
        }
        return;
    }
    let body = match &req.payload {
        Some(b) => b.clone(),
        None => {
            proof {
                assert(req.params@ =~= old(req).params@ + bp);
            }
            return;
        },
    };
    let text = match bytes_to_string(body) {
        Some(t) => t,
        None => {
            proof {
                assert(req.params@ =~= old(req).params@ + bp);
            }
            return;
        },
    };
    let pairs = parse_params(text.as_str());
    let ghost ps = pairs_view(pairs@);
    let ghost base = req.params@;
    let mut i: usize = 0;
    proof {
        assert(req.params@ =~= base + bp.take(0));
        assert(bp.len() == ps.len());
    }
    while i < pairs.len()
        invariant
            0 <= i <= pairs@.len(),
            ps == pairs_view(pairs@),
            ps.len() == pairs@.len(),
            forall|k: int| 0 <= k < pairs@.len() ==> #[trigger] ps[k] == (
                pairs@[k].0@,
                pairs@[k].1@,
            ),
            bp == ps.map_values(
                |p: (Seq<char>, Seq<char>)| (ParamKey { kind: ParamKind::Body, name: p.0 }, p.1),
            ),
            req.params@ == base + bp.take(i as int),
            req.method == old(req).method,
            req.path == old(req).path,
            req.query == old(req).query,
            req.fragment == old(req).fragment,
            req.headers == old(req).headers,
            req.payload == old(req).payload,
            req.content_length == old(req).content_length,
        decreases pairs@.len() - i,
    {
        let name = pairs[i].0.clone();
        let value = pairs[i].1.clone();
        req.params.add(Param::Body(name), value);
        i = i + 1;
        proof {
            assert(req.params@ =~= base + bp.take(i as int));
        }
    }
    proof {
        assert(bp.take(pairs@.len() as int) =~= bp);
    }
}

/// Every byte of a run of a class lies in the class, and the run is in
/// bounds.
pub proof fn lemma_plus_class(s: Seq<u8>, i: int, p: spec_fn(u8) -> bool)
    requires
        0 <= i <= s.len(),
    ensures
        match sp_plus(s, i, p) {
            Ok((v, j)) => (forall|k: int| 0 <= k < v.len() ==> p(#[trigger] v[k])) && i <= j
                <= s.len(),
            Err(e) => true,
        },
{
    match sp_one(s, i, p) {
        Ok(j1) => {
            lemma_star_bounds(s, j1, p);
            let (v2, j2) = sp_star(s, j1, p);
            let v = seq![s[i]] + v2;
            assert(forall|k: int| 0 <= k < v2.len() ==> v2[k] == s[j1 + k]);
            assert(forall|k: int| 0 <= k < v.len() ==> p(#[trigger] v[k]));
        },
        Err(_) => {},
    }
}

/// The bytes of the fixed `HTTP/1.` marker of the request line.
pub open spec fn http_marker() -> Seq<u8> {
    seq!['H' as u8, 'T' as u8, 'T' as u8, 'P' as u8, '/' as u8, '1' as u8, '.' as u8]
}

/// What one fully parsed request is, mathematically.
pub struct SpecReq {
    pub method: Method,
    pub path: Seq<char>,
    pub query: Seq<char>,
    pub fragment: Seq<char>,
    pub headers: Seq<(Seq<char>, Seq<char>)>,
    pub payload: Option<Seq<u8>>,
    pub content_length: int,
    pub params: Seq<(ParamKey, Seq<char>)>,
}

/// Assemble the parsed pieces into the request they stand for.
pub open spec fn sp_assemble(
    m: Method,
    pb: Seq<u8>,
    qb: Seq<u8>,
    fb: Seq<u8>,
    headers: Seq<(Seq<char>, Seq<char>)>,
    payload: Option<Seq<u8>>,
    cl: int,
) -> SpecReq {
    SpecReq {
        method: m,
        path: ascii_view(pb),
        query: ascii_view(qb),
        fragment: ascii_view(fb),
        headers,
        payload,
        content_length: cl,
        params: query_params_of(ascii_view(qb)) + body_params_sq(headers, payload),
    }
}

/// What parsing one whole request from a position yields: the request-line
/// grammar, the header block, and exactly the declared number of body
/// bytes; or the offset and the reason of the first failure.
pub open spec fn sp_parse(s: Seq<u8>, i: int) -> Result<SpecReq, ErrV> {
    match sp_method(s, i) {
        Err(e) => Err(e),
        Ok((m, i1)) => match sp_plus(s, i1, ws_pred()) {
            Err(e) => Err(e),
            Ok((w1, i2)) => match sp_path(s, i2) {
                Err(e) => Err(e),
                Ok((pb, i3)) => match sp_query(s, i3) {
                    Err(e) => Err(e),
                    Ok((qb, i4)) => match sp_fragment(s, i4) {
                        Err(e) => Err(e),
                        Ok((fb, i5)) => match sp_plus(s, i5, ws_pred()) {
                            Err(e) => Err(e),
                            Ok((w2, i6)) => match sp_expects(s, i6, http_marker()) {
                                Err(e) => Err(e),
                                Ok(i7) => match sp_one(s, i7, zero_one_pred()) {
                                    Err(e) => Err(e),
                                    Ok(i8) => match sp_crlf(s, i8) {
                                        Err(e) => Err(e),
                                        Ok(i9) => match sp_headers(s, i9) {
                                            Err(e) => Err(e),
                                            Ok((hl, i10)) => sp_finish(
                                                s,
                                                i10,
                                                m,
                                                pb,
                                                qb,
                                                fb,
                                                sp_collect(
                                                    hl,
                                                    Seq::<(Seq<char>, Seq<char>)>::empty(),
                                                ),
                                            ),
                                        },
                                    },
                                },
                            },
                        },
                    },
                },
            },
        },
    }
}

/// The tail of parsing, after the header block: the declared length is
/// read, the blank line is required, and the body must hold exactly that
/// many bytes.
pub open spec fn sp_finish(
    s: Seq<u8>,
    i: int,
    m: Method,
    pb: Seq<u8>,
    qb: Seq<u8>,
    fb: Seq<u8>,
    headers: Seq<(Seq<char>, Seq<char>)>,
) -> Result<SpecReq, ErrV> {
    let clo = match find_exact(headers, "content-length"@) {
        None => Some(0int),
        Some(v) => spec_usize_chars(v),
    };
    match clo {
        None => Err((errpos(s, i), "invalid content-length"@)),
        Some(cl) => match sp_crlf(s, i) {
            Err(e) => Err(e),
            Ok(j) => if cl == 0 {
                Ok(sp_assemble(m, pb, qb, fb, headers, None, 0))
            } else if s.len() - j >= cl {
                Ok(sp_assemble(m, pb, qb, fb, headers, Some(s.subrange(j, j + cl)), cl))
            } else {
                Err(
                    (
                        s.len() as int,
                        "expected "@ + dec_chars(cl - (s.len() - j)) + " more bytes"@,
                    ),
                )
            },
        },
    }
}

/// Whether a parsed request value carries exactly the parse's meaning.
pub open spec fn req_matches(req: Request<Vec<u8>>, sr: SpecReq) -> bool {
    &&& req.method == sr.method
    &&& req.path@ == sr.path
    &&& req.query@ == sr.query
    &&& req.fragment@ == sr.fragment
    &&& pairs_view(req.headers@) == sr.headers
    &&& match (req.payload, sr.payload) {
        (Some(b), Some(sb)) => b@ == sb,
        (None, None) => true,
        _ => false,
    }
    &&& req.content_length == sr.content_length
    &&& req.params@ == sr.params
}

impl RequestParser {
    /// Parse one whole HTTP/1.x request from the current position: the
    /// request line, the lower-cased headers, and — exactly where a positive
    /// `Content-Length` was declared — that many body bytes. Query pairs,
    /// and the pairs of a form-encoded body, populate the request's
    /// parameters.
    #[verifier::loop_isolation(false)]
    #[verifier::rlimit(100)]
    pub fn parse(&mut self) -> (r: ParseResult<Request<Vec<u8>>>)
        ensures
            final(self).stream() == old(self).stream(),
            match sp_parse(old(self).stream(), old(self).at()) {
                Ok(sr) => r is Ok && req_matches(r->Ok_0, sr),
                Err(e) => r is Err && r->Err_0@ == e,
            },
    {
        proof {
            use_type_invariant(&*self);
        }
        let ghost s = self.stream();
        let ghost start = self.at();
        let method = match self.method() {
            Ok(m) => m,
            Err(e) => {
                return Err(e);
            },
        };
        match self.plus(&whitespace, Ghost(ws_pred())) {
            Ok(_) => {},
            Err(e) => {
                return Err(e);
            },
        }
        let ghost i2 = self.at();
        proof {
            use_type_invariant(&*self);
        }
        let (path_b, query_b, fragment_b) = match self.uri() {
            Ok(u) => u,
            Err(e) => {
                return Err(e);
            },
        };
        proof {
            let (pv, j1) = sp_path(s, i2)->Ok_0;
            lemma_plus_class(s, i2, path_pred());
            lemma_path_ascii(path_b@);
            lemma_ascii_decode(path_b@);
            let (qv, j2) = sp_query(s, j1)->Ok_0;
            if 0 <= j1 < s.len() && s[j1] == '?' as u8 {
                lemma_plus_class(s, j1 + 1, query_pred());
            }
            lemma_query_ascii(query_b@);
            lemma_ascii_decode(query_b@);
            let (fv, j3) = sp_fragment(s, j2)->Ok_0;
            if 0 <= j2 < s.len() && s[j2] == '#' as u8 {
                lemma_plus_class(s, j2 + 1, fragment_pred());
            }
            lemma_fragment_ascii(fragment_b@);
            lemma_ascii_decode(fragment_b@);
        }
        match self.plus(&whitespace, Ghost(ws_pred())) {
            Ok(_) => {},
            Err(e) => {
                return Err(e);
            },
        }
        let mut marker: Vec<u8> = Vec::new();
        marker.push('H' as u8);
        marker.push('T' as u8);
        marker.push('T' as u8);
        marker.push('P' as u8);
        marker.push('/' as u8);
        marker.push('1' as u8);
        marker.push('.' as u8);
        proof {
            assert(marker@ =~= http_marker());
        }
        match self.expects(marker.as_slice()) {
            Ok(()) => {},
            Err(e) => {
                return Err(e);
            },
        }
        match self.one(&zero_one_byte, Ghost(zero_one_pred())) {
            Ok(_) => {},
            Err(e) => {
                return Err(e);
            },
        }
        match self.crlf() {
            Ok(()) => {},
            Err(e) => {
                return Err(e);
            },
        }
        let parsed = match self.headers() {
            Ok(hs) => hs,
            Err(e) => {
                return Err(e);
            },
        };
        let ghost parsedv = pairs_view(parsed@);
        let mut headers: Vec<(String, String)> = Vec::new();
        let mut hi: usize = 0;
        proof {
            assert(pairs_view(headers@) =~= Seq::<(Seq<char>, Seq<char>)>::empty());
            assert(parsedv.skip(0) =~= parsedv);
        }
        while hi < parsed.len()
            invariant
                0 <= hi <= parsed@.len(),
                parsedv == pairs_view(parsed@),
                parsedv.len() == parsed@.len(),
                forall|k: int| 0 <= k < parsed@.len() ==> #[trigger] parsedv[k] == (
                    parsed@[k].0@,
                    parsed@[k].1@,
                ),
                sp_collect(parsedv, Seq::<(Seq<char>, Seq<char>)>::empty()) == sp_collect(
                    parsedv.skip(hi as int),
                    pairs_view(headers@),
                ),
            decreases parsed@.len() - hi,
        {
            let name = parsed[hi].0.clone();
            let value = parsed[hi].1.clone();
            proof {
                assert(parsedv.skip(hi as int)[0] == parsedv[hi as int]);
                assert(parsedv.skip(hi as int).drop_first() =~= parsedv.skip(hi as int + 1));
            }
            insert_header(&mut headers, name, value);
            hi = hi + 1;
        }
        proof {
            assert(parsedv.skip(parsed@.len() as int).len() == 0);
        }
        let ghost hdrs = pairs_view(headers@);
        proof {
            reveal_strlit("content-length");
        }
        let content_length: usize = match lookup_exact(&headers, "content-length") {
            Some(v) => {
                let cs = chars_vec(v.as_str());
                match parse_usize_chars(&cs) {
                    Some(n) => n,
                    None => {
                        return Err(self.error("invalid content-length"));
                    },
                }
            },
            None => 0,
        };
        match self.crlf() {
            Ok(()) => {},
            Err(e) => {
                return Err(e);
            },
        }
        let payload: Option<Vec<u8>> = if content_length == 0 {
            None
        } else {
            match self.body(content_length) {
                Ok(b) => Some(b),
                Err(e) => {
                    return Err(e);
                },
            }
        };
        let path = match bytes_to_string(path_b) {
            Some(p) => p,
            None => {
                proof {
                    assert(false);
                }
                return Err(RequestParserError::new(0, "invalid UTF-8"));
            },
        };
        let query = match bytes_to_string(query_b) {
            Some(q) => q,
            None => {
                proof {
                    assert(false);
                }
                return Err(RequestParserError::new(0, "invalid UTF-8"));
            },
        };
        let fragment = match bytes_to_string(fragment_b) {
            Some(f) => f,
            None => {
                proof {
                    assert(false);
                }
                return Err(RequestParserError::new(0, "invalid UTF-8"));
            },
        };
        let mut request = Request {
            method,
            path,
            query,
            fragment,
            headers,
            payload,
            content_length,
            params: Params::new(),
        };
        parse_query_params(&mut request);
        parse_body_params(&mut request);
        proof {
            assert(request.params@ =~= Seq::<(ParamKey, Seq<char>)>::empty() + query_params_of(
                request.query@,
            ) + body_params_of(hdrs, request.payload));
        }
        Ok(request)
    }
}

/// One request in component form, ready to be laid out on the wire: the
/// raw bytes of each piece, before any decoding.
pub struct WireParts {
    pub method: Method,
    pub path: Seq<u8>,
    pub query: Seq<u8>,
    pub fragment: Seq<u8>,
    pub headers: Seq<(Seq<u8>, Seq<u8>)>,
    pub body: Seq<u8>,
}

/// The wire bytes of one header line.
pub open spec fn wire_header_line(h: (Seq<u8>, Seq<u8>)) -> Seq<u8> {
    h.0 + seq![':' as u8] + h.1 + seq![cr(), lf()]
}

/// The wire bytes of a header block.
pub open spec fn wire_header_block(hs: Seq<(Seq<u8>, Seq<u8>)>) -> Seq<u8>
    decreases hs.len(),
{
    if hs.len() == 0 {
        Seq::<u8>::empty()
    } else {
        wire_header_line(hs[0]) + wire_header_block(hs.drop_first())
    }
}

/// The wire bytes of one whole request, per the request grammar.
pub open spec fn wire_bytes(w: WireParts) -> Seq<u8> {
    method_bytes(w.method) + seq![32u8] + w.path + (if w.query.len() > 0 {
        seq!['?' as u8] + w.query
    } else {
        Seq::<u8>::empty()
    }) + (if w.fragment.len() > 0 {
        seq!['#' as u8] + w.fragment
    } else {
        Seq::<u8>::empty()
    }) + seq![32u8] + http_marker() + seq!['1' as u8] + seq![cr(), lf()] + wire_header_block(
        w.headers,
    ) + seq![cr(), lf()] + w.body
}

/// The headers a wire header block is read as: names lower-cased and both
/// sides decoded.
pub open spec fn decoded_headers(hs: Seq<(Seq<u8>, Seq<u8>)>) -> Seq<(Seq<char>, Seq<char>)> {
    hs.map_values(
        |h: (Seq<u8>, Seq<u8>)| (decode_utf8(lower_bytes(h.0)), decode_utf8(h.1)),
    )
}

/// A well-formed request in component form: each piece within its character
/// class, header names free of colons, line breaks and blanks at the start
/// of values, all header names distinct after lower-casing, and a declared
/// length that reads as the body's length.
pub open spec fn wf_wire(w: WireParts) -> bool {
    &&& w.path.len() > 0 && w.path[0] == '/' as u8
    &&& (forall|k: int| 0 <= k < w.path.len() ==> is_path_b(#[trigger] w.path[k]))
    &&& (forall|k: int| 0 <= k < w.query.len() ==> is_query_b(#[trigger] w.query[k]))
    &&& (forall|k: int| 0 <= k < w.fragment.len() ==> is_fragment_b(#[trigger] w.fragment[k]))
    &&& (forall|i: int|
        0 <= i < w.headers.len() ==> wf_wire_header(#[trigger] w.headers[i]))
    &&& (forall|i: int, k: int|
        0 <= i < k < w.headers.len() ==> decoded_headers(w.headers)[i].0 != decoded_headers(
            w.headers,
        )[k].0)
    &&& (if w.body.len() > 0 {
        &&& find_exact(decoded_headers(w.headers), "content-length"@) is Some
        &&& spec_usize_chars(
            find_exact(decoded_headers(w.headers), "content-length"@)->Some_0,
        ) == Some(w.body.len() as int)
        &&& w.body.len() <= usize::MAX
    } else {
        match find_exact(decoded_headers(w.headers), "content-length"@) {
            None => true,
            Some(v) => spec_usize_chars(v) == Some(0int),
        }
    })
}

/// A well-formed wire header: the name is non-empty and free of colons and
/// carriage returns, the value is free of carriage returns and neither
/// begins nor ends with a blank (surrounding blanks would be trimmed away
/// on reading), and both sides decode.
pub open spec fn wf_wire_header(h: (Seq<u8>, Seq<u8>)) -> bool {
    &&& h.0.len() > 0
    &&& (forall|k: int| 0 <= k < h.0.len() ==> #[trigger] h.0[k] != ':' as u8 && h.0[k] != cr())
    &&& (forall|k: int| 0 <= k < h.1.len() ==> #[trigger] h.1[k] != cr())
    &&& (h.1.len() > 0 ==> !is_ws(h.1[0]) && !is_ws(h.1.last()))
    &&& valid_utf8(lower_bytes(h.0))
    &&& valid_utf8(h.1)
}

/// The query part as laid out on the wire: nothing, or `?` and the query.
pub open spec fn wire_qpart(w: WireParts) -> Seq<u8> {
    if w.query.len() > 0 {
        seq!['?' as u8] + w.query
    } else {
        Seq::<u8>::empty()
    }
}

/// The fragment part as laid out on the wire: nothing, or `#` and the
/// fragment.
pub open spec fn wire_fpart(w: WireParts) -> Seq<u8> {
    if w.fragment.len() > 0 {
        seq!['#' as u8] + w.fragment
    } else {
        Seq::<u8>::empty()
    }
}

/// Where the path begins on the wire.
pub open spec fn off_path(w: WireParts) -> int {
    method_bytes(w.method).len() + 1int
}

/// Where the query part begins on the wire.
pub open spec fn off_query(w: WireParts) -> int {
    off_path(w) + w.path.len()
}

/// Where the fragment part begins on the wire.
pub open spec fn off_frag(w: WireParts) -> int {
    off_query(w) + wire_qpart(w).len()
}

/// Where the blank before the version marker sits on the wire.
pub open spec fn off_blank(w: WireParts) -> int {
    off_frag(w) + wire_fpart(w).len()
}

/// Where the version marker begins on the wire.
pub open spec fn off_marker(w: WireParts) -> int {
    off_blank(w) + 1
}

/// Where the version minor digit sits on the wire.
pub open spec fn off_digit(w: WireParts) -> int {
    off_marker(w) + http_marker().len()
}

/// Where the request line's terminator begins on the wire.
pub open spec fn off_line_end(w: WireParts) -> int {
    off_digit(w) + 1
}

/// Where the header block begins on the wire.
pub open spec fn off_headers(w: WireParts) -> int {
    off_line_end(w) + 2
}

/// Where the blank line begins on the wire.
pub open spec fn off_blank_line(w: WireParts) -> int {
    off_headers(w) + wire_header_block(w.headers).len()
}

/// Where the body begins on the wire.
pub open spec fn off_body(w: WireParts) -> int {
    off_blank_line(w) + 2
}

/// Each piece of a laid-out request sits at its offset.
proof fn lemma_wire_layout(w: WireParts)
    ensures
        wire_bytes(w).len() == off_body(w) + w.body.len(),
        forall|k: int|
            0 <= k < method_bytes(w.method).len() ==> #[trigger] wire_bytes(w)[k] == method_bytes(
                w.method,
            )[k],
        wire_bytes(w)[off_path(w) - 1] == 32,
        forall|k: int|
            0 <= k < w.path.len() ==> #[trigger] wire_bytes(w)[off_path(w) + k] == w.path[k],
        forall|k: int|
            0 <= k < wire_qpart(w).len() ==> #[trigger] wire_bytes(w)[off_query(w) + k]
                == wire_qpart(w)[k],
        forall|k: int|
            0 <= k < wire_fpart(w).len() ==> #[trigger] wire_bytes(w)[off_frag(w) + k]
                == wire_fpart(w)[k],
        wire_bytes(w)[off_blank(w)] == 32,
        forall|k: int|
            0 <= k < http_marker().len() ==> #[trigger] wire_bytes(w)[off_marker(w) + k]
                == http_marker()[k],
        wire_bytes(w)[off_digit(w)] == '1' as u8,
        wire_bytes(w)[off_line_end(w)] == cr(),
        wire_bytes(w)[off_line_end(w) + 1] == lf(),
        forall|k: int|
            0 <= k < wire_header_block(w.headers).len() ==> #[trigger] wire_bytes(w)[
                off_headers(w) + k
            ] == wire_header_block(w.headers)[k],
        wire_bytes(w)[off_blank_line(w)] == cr(),
        wire_bytes(w)[off_blank_line(w) + 1] == lf(),
        forall|k: int|
            0 <= k < w.body.len() ==> #[trigger] wire_bytes(w)[off_body(w) + k] == w.body[k],
{
    let s = wire_bytes(w);
    let mb = method_bytes(w.method);
    let qpart = wire_qpart(w);
    let fpart = wire_fpart(w);
    let block = wire_header_block(w.headers);
    let i1 = mb.len() as int;
    let i2 = off_path(w);
    let i3 = off_query(w);
    let i4 = off_frag(w);
    let i5 = off_blank(w);
    let i6 = off_marker(w);
    let i7 = off_digit(w);
    let i8 = off_line_end(w);
    let i9 = off_headers(w);
    let i10 = off_blank_line(w);
    let i11 = off_body(w);
    let p1 = mb + seq![32u8];
    let p2 = p1 + w.path;
    let p3 = p2 + qpart;
    let p4 = p3 + fpart;
    let p5 = p4 + seq![32u8];
    let p6 = p5 + http_marker();
    let p7 = p6 + seq!['1' as u8];
    let p8 = p7 + seq![cr(), lf()];
    let p9 = p8 + block;
    let p10 = p9 + seq![cr(), lf()];
    assert(s =~= p10 + w.body);
    assert(p1.len() == i2 && p2.len() == i3 && p3.len() == i4 && p4.len() == i5 && p5.len() == i6
        && p6.len() == i7 && p7.len() == i8 && p8.len() == i9 && p9.len() == i10 && p10.len()
        == i11);
    assert(s.len() == i11 + w.body.len());

    assert forall|n: int| 0 <= n < p10.len() implies #[trigger] s[n] == p10[n] by {
        assert(s[n] == (p10 + w.body)[n]);
    }
    assert forall|k: int| 0 <= k < mb.len() implies #[trigger] s[k] == mb[k] by {
        assert(p10[k] == p9[k]);
        assert(p9[k] == p8[k]);
        assert(p8[k] == p7[k]);
        assert(p7[k] == p6[k]);
        assert(p6[k] == p5[k]);
        assert(p5[k] == p4[k]);
        assert(p4[k] == p3[k]);
        assert(p3[k] == p2[k]);
        assert(p2[k] == p1[k]);
        assert(p1[k] == mb[k]);
    }
    assert(s[i1] == 32) by {
        assert(p10[i1] == p9[i1]);
        assert(p9[i1] == p8[i1]);
        assert(p8[i1] == p7[i1]);
        assert(p7[i1] == p6[i1]);
        assert(p6[i1] == p5[i1]);
        assert(p5[i1] == p4[i1]);
        assert(p4[i1] == p3[i1]);
        assert(p3[i1] == p2[i1]);
        assert(p2[i1] == p1[i1]);
        assert(p1[i1] == seq![32u8][i1 - mb.len()]);
    }
    assert forall|k: int| 0 <= k < w.path.len() implies #[trigger] s[i2 + k] == w.path[k] by {
        let n = i2 + k;
        assert(p10[n] == p9[n]);
        assert(p9[n] == p8[n]);
        assert(p8[n] == p7[n]);
        assert(p7[n] == p6[n]);
        assert(p6[n] == p5[n]);
        assert(p5[n] == p4[n]);
        assert(p4[n] == p3[n]);
        assert(p3[n] == p2[n]);
        assert(p2[n] == w.path[n - p1.len()]);
    }
    assert forall|k: int| 0 <= k < qpart.len() implies #[trigger] s[i3 + k] == qpart[k] by {
        let n = i3 + k;
        assert(p10[n] == p9[n]);
        assert(p9[n] == p8[n]);
        assert(p8[n] == p7[n]);
        assert(p7[n] == p6[n]);
        assert(p6[n] == p5[n]);
        assert(p5[n] == p4[n]);
        assert(p4[n] == p3[n]);
        assert(p3[n] == qpart[n - p2.len()]);
    }
    assert forall|k: int| 0 <= k < fpart.len() implies #[trigger] s[i4 + k] == fpart[k] by {
        let n = i4 + k;
        assert(p10[n] == p9[n]);
        assert(p9[n] == p8[n]);
        assert(p8[n] == p7[n]);
        assert(p7[n] == p6[n]);
        assert(p6[n] == p5[n]);
        assert(p5[n] == p4[n]);
        assert(p4[n] == fpart[n - p3.len()]);
    }
    assert(s[i5] == 32) by {
        assert(p10[i5] == p9[i5]);
        assert(p9[i5] == p8[i5]);
        assert(p8[i5] == p7[i5]);
        assert(p7[i5] == p6[i5]);
        assert(p6[i5] == p5[i5]);
        assert(p5[i5] == seq![32u8][i5 - p4.len()]);
    }
    assert forall|k: int| 0 <= k < http_marker().len() implies #[trigger] s[i6 + k]
        == http_marker()[k] by {
        let n = i6 + k;
        assert(p10[n] == p9[n]);
        assert(p9[n] == p8[n]);
        assert(p8[n] == p7[n]);
        assert(p7[n] == p6[n]);
        assert(p6[n] == http_marker()[n - p5.len()]);
    }
    assert(s[i7] == '1' as u8) by {
        assert(p10[i7] == p9[i7]);
        assert(p9[i7] == p8[i7]);
        assert(p8[i7] == p7[i7]);
        assert(p7[i7] == seq!['1' as u8][i7 - p6.len()]);
    }
    assert(s[i8] == cr() && s[i8 + 1] == lf()) by {
        assert(p10[i8] == p9[i8]);
        assert(p9[i8] == p8[i8]);
        assert(p8[i8] == seq![cr(), lf()][i8 - p7.len()]);
        assert(p10[i8 + 1] == p9[i8 + 1]);
        assert(p9[i8 + 1] == p8[i8 + 1]);
        assert(p8[i8 + 1] == seq![cr(), lf()][i8 + 1 - p7.len()]);
    }
    assert forall|k: int| 0 <= k < block.len() implies #[trigger] s[i9 + k] == block[k] by {
        let n = i9 + k;
        assert(p10[n] == p9[n]);
        assert(p9[n] == block[n - p8.len()]);
    }
    assert(s[i10] == cr() && s[i10 + 1] == lf()) by {
        assert(p10[i10] == seq![cr(), lf()][i10 - p9.len()]);
        assert(p10[i10 + 1] == seq![cr(), lf()][i10 + 1 - p9.len()]);
    }
    assert forall|k: int| 0 <= k < w.body.len() implies #[trigger] s[i11 + k] == w.body[k] by {
        assert(s[i11 + k] == (p10 + w.body)[i11 + k]);
    }

}

/// Where exactly `n` bytes from a position lie in a class and the byte
/// after them does not, the class run is exactly those bytes.
proof fn lemma_star_exact(s: Seq<u8>, i: int, p: spec_fn(u8) -> bool, n: int)
    requires
        0 <= i,
        0 <= n,
        i + n <= s.len(),
        forall|k: int| 0 <= k < n ==> p(#[trigger] s[i + k]),
        i + n < s.len() ==> !p(s[i + n]),
    ensures
        sp_star(s, i, p) == (s.subrange(i, i + n), i + n),
{
    lemma_star_bounds(s, i, p);
    let (v, j) = sp_star(s, i, p);
    if j < i + n {
        assert(p(s[i + (j - i)]));
        assert(!p(s[j]));
    }
    if j > i + n {
        assert(p(s[i + n]));
    }
    assert(j == i + n);
    assert(v =~= s.subrange(i, i + n));
}

/// Where the bytes at a position are exactly the expected ones, requiring
/// them succeeds and lands after them.
proof fn lemma_expects_exact(s: Seq<u8>, i: int, bs: Seq<u8>)
    requires
        0 <= i,
        i + bs.len() <= s.len(),
        s.subrange(i, i + bs.len()) == bs,
    ensures
        sp_expects(s, i, bs) == Ok::<int, ErrV>(i + bs.len()),
    decreases bs.len(),
{
    if bs.len() > 0 {
        assert(s[i] == s.subrange(i, i + bs.len())[0]);
        assert(s.subrange(i + 1, i + bs.len()) =~= bs.drop_first());
        lemma_expects_exact(s, i + 1, bs.drop_first());
    }
}

/// Where the first occurrence of a byte is exactly `n` bytes away, reading
/// until it yields exactly the bytes before it.
proof fn lemma_until_exact(s: Seq<u8>, i: int, b: u8, n: int)
    requires
        0 <= i,
        0 <= n,
        i + n < s.len(),
        forall|k: int| 0 <= k < n ==> #[trigger] s[i + k] != b,
        s[i + n] == b,
    ensures
        sp_until(s, i, b) == Ok::<(Seq<u8>, int), ErrV>((s.subrange(i, i + n), i + n)),
{
    lemma_until_bounds(s, i, b);
    match sp_until(s, i, b) {
        Ok((v, j)) => {
            if j < i + n {
                assert(s[i + (j - i)] != b);
            }
            if j > i + n {
                assert(s[i + n] != b);
            }
            assert(j == i + n);
            assert(v =~= s.subrange(i, i + n));
        },
        Err(_) => {
            assert(s[i + n] == b);
            assert(s[i + n] != b);
        },
    }
}

/// Every standard method token is read back as its method.
proof fn lemma_method_token(m: Method)
    ensures
        spec_method_of(method_bytes(m)) == Some(m),
        method_bytes(m).len() > 0,
        forall|k: int| 0 <= k < method_bytes(m).len() ==> is_upper(#[trigger] method_bytes(m)[k]),
{
    match m {
        Method::GET => {
            assert(method_bytes(Method::GET) != method_bytes(Method::HEAD));
        },
        Method::HEAD => {
            assert(method_bytes(Method::HEAD) != method_bytes(Method::GET)) by {
                assert(method_bytes(Method::HEAD).len() == 4);
            }
        },
        Method::POST => {
            assert(method_bytes(Method::POST)[0] == 'P' as u8);
        },
        Method::PUT => {
            assert(method_bytes(Method::PUT)[1] == 'U' as u8);
        },
        Method::PATCH => {
            assert(method_bytes(Method::PATCH)[1] == 'A' as u8);
        },
        Method::DELETE => {
            assert(method_bytes(Method::DELETE)[0] == 'D' as u8);
        },
        Method::CONNECT => {
            assert(method_bytes(Method::CONNECT)[0] == 'C' as u8);
        },
        Method::OPTIONS => {
            assert(method_bytes(Method::OPTIONS)[0] == 'O' as u8);
        },
        Method::TRACE => {
            assert(method_bytes(Method::TRACE)[0] == 'T' as u8);
        },
    }
}

/// Reading the header block of a laid-out header list yields exactly its
/// decoded headers and stops at the terminator.
proof fn lemma_headers_round(s: Seq<u8>, i: int, hs: Seq<(Seq<u8>, Seq<u8>)>)
    requires
        0 <= i,
        i + wire_header_block(hs).len() < s.len(),
        s.subrange(i, i + wire_header_block(hs).len()) == wire_header_block(hs),
        s[i + wire_header_block(hs).len()] == cr(),
        forall|k: int| 0 <= k < hs.len() ==> wf_wire_header(#[trigger] hs[k]),
    ensures
        sp_headers(s, i) == Ok::<(Seq<(Seq<char>, Seq<char>)>, int), ErrV>(
            (decoded_headers(hs), i + wire_header_block(hs).len()),
        ),
    decreases hs.len(),
{
    if hs.len() == 0 {
        assert(decoded_headers(hs) =~= Seq::<(Seq<char>, Seq<char>)>::empty());
        assert(s[i] == cr());
    } else {
        let h = hs[0];
        let line = wire_header_line(h);
        let block = wire_header_block(hs);
        let rest = wire_header_block(hs.drop_first());
        assert(block =~= line + rest);
        assert(forall|k: int| 0 <= k < block.len() ==> #[trigger] s[i + k] == block[k]);
        let q1 = h.0 + seq![':' as u8];
        let q2 = q1 + h.1;
        assert(line =~= q2 + seq![cr(), lf()]);
        assert forall|k: int| 0 <= k < line.len() implies #[trigger] s[i + k] == line[k] by {
            assert(s[i + k] == block[k]);
            assert(block[k] == (line + rest)[k]);
        }
        assert forall|k: int| 0 <= k < h.0.len() implies #[trigger] s[i + k] == h.0[k] by {
            assert(line[k] == (q2 + seq![cr(), lf()])[k]);
            assert(q2[k] == q1[k]);
            assert(q1[k] == h.0[k]);
        }
        assert(s[i + h.0.len()] == ':' as u8) by {
            assert(line[h.0.len() as int] == (q2 + seq![cr(), lf()])[h.0.len() as int]);
            assert(q2[h.0.len() as int] == q1[h.0.len() as int]);
        }
        lemma_until_exact(s, i, ':' as u8, h.0.len() as int);
        assert(s.subrange(i, i + h.0.len()) =~= h.0);
        let j1 = i + h.0.len();
        assert(s.subrange(j1, j1 + 1) =~= seq![':' as u8]);
        lemma_expects_exact(s, j1, seq![':' as u8]);
        let j2 = j1 + 1;
        assert forall|k: int| 0 <= k < h.1.len() implies #[trigger] s[j2 + k] == h.1[k] by {
            let n = h.0.len() + 1 + k;
            assert(s[i + n] == line[n]);
            assert(line[n] == (q2 + seq![cr(), lf()])[n]);
            assert(q2[n] == h.1[n - q1.len()]);
            assert(i + n == j2 + k);
        }
        assert(h.1.len() > 0 ==> !is_ws(s[j2])) by {
            if h.1.len() > 0 {
                assert(s[j2 + 0] == h.1[0]);
            }
        }
        assert(s[j2 + h.1.len()] == cr()) by {
            let n = h.0.len() + 1 + h.1.len() as int;
            assert(s[i + n] == line[n]);
            assert(line[n] == (q2 + seq![cr(), lf()])[n]);
            assert((q2 + seq![cr(), lf()])[n] == seq![cr(), lf()][n - q2.len()]);
        }
        assert(s[j2 + h.1.len() + 1] == lf()) by {
            let n = h.0.len() + 2 + h.1.len() as int;
            assert(s[i + n] == line[n]);
            assert(line[n] == (q2 + seq![cr(), lf()])[n]);
            assert((q2 + seq![cr(), lf()])[n] == seq![cr(), lf()][n - q2.len()]);
        }
        assert(h.1.len() == 0 ==> !is_ws(s[j2]));
        lemma_star_exact(s, j2, ws_pred(), 0);
        lemma_until_exact(s, j2, cr(), h.1.len() as int);
        assert forall|k: int| 0 <= k < h.1.len() implies s.subrange(j2, j2 + h.1.len())[k]
            == h.1[k] by {
            assert(s[j2 + k] == h.1[k]);
        }
        assert(s.subrange(j2, j2 + h.1.len()) =~= h.1);
        let j4 = j2 + h.1.len();
        assert(s.subrange(j4, j4 + 2) =~= seq![cr(), lf()]);
        lemma_expects_exact(s, j4, seq![cr(), lf()]);
        let j5 = j4 + 2;
        assert(strip_blanks_end(h.1) == h.1);
        assert(sp_header(s, i) == Ok::<((Seq<char>, Seq<char>), int), ErrV>(
            ((decode_utf8(lower_bytes(h.0)), decode_utf8(h.1)), j5),
        ));
        assert(s.subrange(j5, j5 + rest.len()) =~= rest) by {
            assert(forall|k: int| 0 <= k < rest.len() ==> #[trigger] s.subrange(
                j5,
                j5 + rest.len(),
            )[k] == block[line.len() + k]);
            assert(forall|k: int| 0 <= k < rest.len() ==> #[trigger] block[line.len() + k]
                == rest[k]);
        }
        lemma_headers_round(s, j5, hs.drop_first());
        assert(s[i] == h.0[0]);
        assert(h.0[0] != cr());
        assert(decoded_headers(hs) =~= seq![
            (decode_utf8(lower_bytes(h.0)), decode_utf8(h.1)),
        ] + decoded_headers(hs.drop_first()));
    }
}

/// Collecting a header list whose names are pairwise distinct and disjoint
/// from those already collected appends it unchanged.
proof fn lemma_collect_distinct(
    hs: Seq<(Seq<char>, Seq<char>)>,
    acc: Seq<(Seq<char>, Seq<char>)>,
)
    requires
        forall|i: int, k: int| 0 <= i < k < hs.len() ==> #[trigger] hs[i].0 != #[trigger] hs[k].0,
        forall|i: int, k: int|
            0 <= i < acc.len() && 0 <= k < hs.len() ==> #[trigger] acc[i].0 != #[trigger] hs[k].0,
    ensures
        sp_collect(hs, acc) == acc + hs,
    decreases hs.len(),
{
    if hs.len() == 0 {
        assert(sp_collect(hs, acc) =~= acc + hs);
    } else {
        let h = hs[0];
        assert(forall|i: int| 0 <= i < acc.len() ==> #[trigger] acc[i].0 != h.0);
        lemma_insert_none(acc, h.0, h.1);
        assert(forall|i: int, k: int|
            0 <= i < k < hs.drop_first().len() ==> #[trigger] hs.drop_first()[i].0
                != #[trigger] hs.drop_first()[k].0);
        assert(forall|i: int, k: int|
            0 <= i < acc.push((h.0, h.1)).len() && 0 <= k < hs.drop_first().len()
                ==> #[trigger] acc.push((h.0, h.1))[i].0 != #[trigger] hs.drop_first()[k].0) by {
            assert(forall|k: int| 0 <= k < hs.drop_first().len() ==> #[trigger] hs.drop_first()[
                k
            ].0 == hs[k + 1].0);
        }
        lemma_collect_distinct(hs.drop_first(), acc.push((h.0, h.1)));
        assert(acc.push((h.0, h.1)) + hs.drop_first() =~= acc + hs);
    }
}

/// The request line of a laid-out request parses to its components and
/// ends where the header block begins.
#[verifier::rlimit(100)]
proof fn lemma_wire_request_line(w: WireParts)
    requires
        wf_wire(w),
    ensures
        sp_method(wire_bytes(w), 0) == Ok::<(Method, int), ErrV>(
            (w.method, method_bytes(w.method).len() as int),
        ),
        sp_plus(wire_bytes(w), method_bytes(w.method).len() as int, ws_pred()) is Ok,
        sp_plus(
            wire_bytes(w),
            method_bytes(w.method).len() as int,
            ws_pred(),
        )->Ok_0.1 == off_path(w),
        sp_path(wire_bytes(w), off_path(w)) == Ok::<(Seq<u8>, int), ErrV>(
            (w.path, off_query(w)),
        ),
        sp_query(wire_bytes(w), off_query(w)) == Ok::<(Seq<u8>, int), ErrV>(
            (w.query, off_frag(w)),
        ),
        sp_fragment(wire_bytes(w), off_frag(w)) == Ok::<(Seq<u8>, int), ErrV>(
            (w.fragment, off_blank(w)),
        ),
        sp_plus(wire_bytes(w), off_blank(w), ws_pred()) is Ok,
        sp_plus(wire_bytes(w), off_blank(w), ws_pred())->Ok_0.1 == off_marker(w),
        sp_expects(wire_bytes(w), off_marker(w), http_marker()) == Ok::<int, ErrV>(
            off_digit(w),
        ),
        sp_one(wire_bytes(w), off_digit(w), zero_one_pred()) == Ok::<int, ErrV>(
            off_line_end(w),
        ),
        sp_crlf(wire_bytes(w), off_line_end(w)) == Ok::<int, ErrV>(off_headers(w)),
{
    let s = wire_bytes(w);
    let mb = method_bytes(w.method);
    let qpart = wire_qpart(w);
    let fpart = wire_fpart(w);
    let block = wire_header_block(w.headers);
    lemma_method_token(w.method);
    lemma_wire_layout(w);

    let i1 = mb.len() as int;
    let i2 = off_path(w);
    let i3 = off_query(w);
    let i4 = off_frag(w);
    let i5 = off_blank(w);
    let i6 = off_marker(w);
    let i7 = off_digit(w);
    let i8 = off_line_end(w);
    let i9 = off_headers(w);
    let i10 = off_blank_line(w);
    let i11 = off_body(w);
    // Method token, then one blank.
    assert(is_upper(s[0])) by {
        assert(s[0] == mb[0]);
    }
    assert forall|k: int| 0 <= k < mb.len() - 1 implies upper_pred()(#[trigger] s[1 + k]) by {
        assert(s[1 + k] == mb[1 + k]);
    }
    assert(!is_upper(s[mb.len() as int]));
    lemma_star_exact(s, 1, upper_pred(), mb.len() - 1);
    assert(sp_plus(s, 0, upper_pred()) == Ok::<(Seq<u8>, int), ErrV>((
        seq![s[0]] + s.subrange(1, i1),
        i1,
    )));
    assert(seq![s[0]] + s.subrange(1, i1) =~= mb);
    assert(sp_method(s, 0) == Ok::<(Method, int), ErrV>((w.method, i1)));
    assert(!is_ws(s[i2]));
    lemma_star_exact(s, i1 + 1, ws_pred(), 0);
    assert(sp_plus(s, i1, ws_pred()) == Ok::<(Seq<u8>, int), ErrV>((
        seq![s[i1]] + s.subrange(i2, i2),
        i2,
    )));

    // Path, query, fragment.
    assert(s[i2] == '/' as u8);
    assert(i3 < s.len() ==> !is_path_b(s[i3]));
    lemma_star_exact(s, i2 + 1, path_pred(), w.path.len() - 1);
    assert(sp_path(s, i2) == Ok::<(Seq<u8>, int), ErrV>((
        seq![s[i2]] + s.subrange(i2 + 1, i3),
        i3,
    )));
    assert(seq![s[i2]] + s.subrange(i2 + 1, i3) =~= w.path);
    if w.query.len() > 0 {
        assert(s[i3] == '?' as u8);
        assert(i4 < s.len() ==> !is_query_b(s[i4]));
        lemma_star_exact(s, i3 + 2, query_pred(), w.query.len() - 1);
        assert(sp_query(s, i3) == Ok::<(Seq<u8>, int), ErrV>((
            seq![s[i3 + 1]] + s.subrange(i3 + 2, i4),
            i4,
        )));
        assert(seq![s[i3 + 1]] + s.subrange(i3 + 2, i4) =~= w.query);
    } else {
        if w.fragment.len() > 0 {
            assert(s[i4 + 0] == fpart[0]);
            assert(s[i3] == '#' as u8);
        } else {
            assert(s[i3] == 32);
        }
        assert(s[i3] != '?' as u8);
        assert(w.query =~= Seq::<u8>::empty());
        assert(sp_query(s, i3) == Ok::<(Seq<u8>, int), ErrV>((w.query, i4)));
    }
    if w.fragment.len() > 0 {
        assert(s[i4] == '#' as u8);
        assert(!is_fragment_b(s[i5]));
        lemma_star_exact(s, i4 + 2, fragment_pred(), w.fragment.len() - 1);
        assert(sp_fragment(s, i4) == Ok::<(Seq<u8>, int), ErrV>((
            seq![s[i4 + 1]] + s.subrange(i4 + 2, i5),
            i5,
        )));
        assert(seq![s[i4 + 1]] + s.subrange(i4 + 2, i5) =~= w.fragment);
    } else {
        assert(s[i4] == 32);
        assert(s[i4] != '#' as u8);
        assert(w.fragment =~= Seq::<u8>::empty());
        assert(sp_fragment(s, i4) == Ok::<(Seq<u8>, int), ErrV>((w.fragment, i5)));
    }

    // One blank, the version marker, the minor digit, the line break.
    assert(!is_ws(s[i6]));
    lemma_star_exact(s, i5 + 1, ws_pred(), 0);
    assert(sp_plus(s, i5, ws_pred()) == Ok::<(Seq<u8>, int), ErrV>((
        seq![s[i5]] + s.subrange(i6, i6),
        i6,
    )));
    assert(s.subrange(i6, i7) =~= http_marker());
    lemma_expects_exact(s, i6, http_marker());
    assert(is_zero_one(s[i7]));
    assert(sp_one(s, i7, zero_one_pred()) == Ok::<int, ErrV>(i8));
    assert(s.subrange(i8, i9) =~= seq![cr(), lf()]);
    lemma_expects_exact(s, i8, seq![cr(), lf()]);

}

#[verifier::rlimit(100)]
/// Parsing reproduces every well-formed request laid out per the grammar:
/// the method, the path, the query, the fragment, every header, and the
/// body come back exactly, and the parameters follow from the query and a
/// form-encoded body.
pub proof fn lemma_parse_round_trip(w: WireParts)
    requires
        wf_wire(w),
    ensures
        sp_parse(wire_bytes(w), 0) == Ok::<SpecReq, ErrV>(
            sp_assemble(
                w.method,
                w.path,
                w.query,
                w.fragment,
                decoded_headers(w.headers),
                if w.body.len() > 0 {
                    Some(w.body)
                } else {
                    None
                },
                if w.body.len() > 0 {
                    w.body.len() as int
                } else {
                    0
                },
            ),
        ),
{
    let s = wire_bytes(w);
    let block = wire_header_block(w.headers);
    let i9 = off_headers(w);
    let i10 = off_blank_line(w);
    let i11 = off_body(w);
    lemma_wire_layout(w);
    lemma_wire_request_line(w);

    // The header block and its collection.
    assert forall|k: int| 0 <= k < block.len() implies s.subrange(i9, i9 + block.len())[k]
        == block[k] by {
        assert(s[i9 + k] == block[k]);
    }
    assert(s.subrange(i9, i9 + block.len()) =~= block);
    lemma_headers_round(s, i9, w.headers);
    let decoded = decoded_headers(w.headers);
    lemma_collect_distinct(decoded, Seq::<(Seq<char>, Seq<char>)>::empty());
    assert(sp_collect(decoded, Seq::<(Seq<char>, Seq<char>)>::empty()) =~= decoded);

    // The blank line and the body.
    assert(s.subrange(i10, i11) =~= seq![cr(), lf()]);
    lemma_expects_exact(s, i10, seq![cr(), lf()]);
    if w.body.len() > 0 {
        let cl = find_exact(decoded, "content-length"@)->Some_0;
        assert(spec_usize_chars(cl) == Some(w.body.len() as int));
        assert(s.len() - i11 >= w.body.len());
        assert(s.subrange(i11, i11 + w.body.len()) =~= w.body);
    } else {
        assert(s.len() == i11);
    }
}

} // verus!
