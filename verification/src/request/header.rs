//! Typed views of individual headers: weighted media-type preferences from
//! `Accept`, and the request's declared `Content-Type`.
use vstd::prelude::*;

verus! {

use crate::text::{
    chars_eq, chars_vec, lower_chars, spec_split, split_chars, string_from_chars, trim,
    trim_chars,
};

/// A header name. Names compare without regard to ASCII case.
#[derive(Debug, Clone)]
pub struct Header(pub String);

impl View for Header {
    type V = Seq<char>;

    open spec fn view(&self) -> Seq<char> {
        self.0@
    }
}

impl Header {
    /// Wrap a header name.
    pub fn new(s: &str) -> (r: Self)
        ensures
            r@ == s@,
    {
        Self(s.to_owned())
    }

    /// Whether two header names are the same, without regard to ASCII case.
    pub fn same_as(&self, other: &Header) -> (r: bool)
        ensures
            r == (lower_chars(self@) == lower_chars(other@)),
    {
        let a = crate::text::ascii_lowercase(self.0.as_str());
        let b = crate::text::ascii_lowercase(other.0.as_str());
        a == b
    }
}

/// Why a header failed to parse: the header concerned and the reason.
#[derive(Debug)]
pub struct HeaderParseError {
    header: String,
    reason: String,
}

impl View for HeaderParseError {
    type V = (Seq<char>, Seq<char>);

    closed spec fn view(&self) -> (Seq<char>, Seq<char>) {
        (self.header@, self.reason@)
    }
}

impl HeaderParseError {
    /// Record which header failed to parse, and why.
    pub fn new(header: &str, reason: &str) -> (r: Self)
        ensures
            r@ == (header@, reason@),
    {
        Self { header: header.to_owned(), reason: reason.to_owned() }
    }

    /// The header concerned.
    pub fn header(&self) -> (r: &String)
        ensures
            r@ == self@.0,
    {
        &self.header
    }

    /// The reason.
    pub fn reason(&self) -> (r: &String)
        ensures
            r@ == self@.1,
    {
        &self.reason
    }
}

/// The meaning of one `Accept` entry: a media type, possibly with wildcard
/// parts, and a quality weight in thousandths (0 to 1000).
pub struct PrefV {
    pub mime_type: Seq<char>,
    pub mime_subtype: Seq<char>,
    pub quality: int,
}

/// One weighted entry of an `Accept` header. The quality weight is held in
/// thousandths: 1000 stands for the weight 1, 900 for 0.9, and so on.
#[derive(Debug, Clone)]
pub struct MediaTypePreference {
    pub mime_type: String,
    pub mime_subtype: String,
    pub quality: u16,
}

impl View for MediaTypePreference {
    type V = PrefV;

    open spec fn view(&self) -> PrefV {
        PrefV {
            mime_type: self.mime_type@,
            mime_subtype: self.mime_subtype@,
            quality: self.quality as int,
        }
    }
}

/// The numeric value of a decimal-digit character.
pub open spec fn digit_of(c: char) -> int {
    c as u8 - '0' as u8
}

/// Whether a character is a decimal digit.
pub open spec fn is_digit(c: char) -> bool {
    '0' <= c && c <= '9'
}

/// The value of up to three fraction digits, in thousandths.
pub open spec fn frac_value(d: Seq<char>) -> int {
    if d.len() == 0 {
        0
    } else if d.len() == 1 {
        digit_of(d[0]) * 100
    } else if d.len() == 2 {
        digit_of(d[0]) * 100 + digit_of(d[1]) * 10
    } else {
        digit_of(d[0]) * 100 + digit_of(d[1]) * 10 + digit_of(d[2])
    }
}

/// The thousandths a quality number stands for: one digit `0` or `1`,
/// optionally a dot and up to three fraction digits, the whole value at most
/// one.
pub open spec fn qnum_value(t: Seq<char>) -> Option<int> {
    if t.len() == 0 {
        None
    } else if t[0] != '0' && t[0] != '1' {
        None
    } else if t.len() == 1 {
        Some(digit_of(t[0]) * 1000)
    } else if t[1] != '.' || t.len() > 5 {
        None
    } else if !(forall|i: int| 2 <= i < t.len() ==> is_digit(#[trigger] t[i])) {
        None
    } else {
        let v = digit_of(t[0]) * 1000 + frac_value(t.skip(2));
        if v > 1000 {
            None
        } else {
            Some(v)
        }
    }
}

/// The thousandths a whole quality parameter stands for: `q=` followed by a
/// quality number.
pub open spec fn q_value(s: Seq<char>) -> Option<int> {
    if s.len() >= 2 && s[0] == 'q' && s[1] == '=' {
        qnum_value(s.skip(2))
    } else {
        None
    }
}

/// Read a quality parameter (`q=` and a quality number) as thousandths.
pub fn parse_q(cs: &Vec<char>) -> (r: Option<u16>)
    ensures
        match r {
            Some(q) => q_value(cs@) == Some(q as int),
            None => q_value(cs@) is None,
        },
{
    if cs.len() < 2 || cs[0] != 'q' || cs[1] != '=' {
        return None;
    }
    let ghost t = cs@.skip(2);
    proof {
        assert(t.len() == cs@.len() - 2);
        assert(forall|i: int| 0 <= i < t.len() ==> #[trigger] t[i] == cs@[i + 2]);
    }
    let n = cs.len() - 2;
    if n == 0 {
        return None;
    }
    let d0 = cs[2];
    if d0 != '0' && d0 != '1' {
        return None;
    }
    let head: u16 = if d0 == '1' {
        1000
    } else {
        0
    };
    if n == 1 {
        return Some(head);
    }
    if cs[3] != '.' || n > 5 {
        return None;
    }
    let mut frac: u16 = 0;
    if n >= 3 {
        let c = cs[4];
        if c < '0' || c > '9' {
            return None;
        }
        frac = frac + (c as u16 - '0' as u16) * 100;
    }
    if n >= 4 {
        let c = cs[5];
        if c < '0' || c > '9' {
            return None;
        }
        frac = frac + (c as u16 - '0' as u16) * 10;
    }
    if n == 5 {
        let c = cs[6];
        if c < '0' || c > '9' {
            return None;
        }
        frac = frac + (c as u16 - '0' as u16);
    }
    proof {
        assert(t.skip(2) =~= cs@.skip(4));
        assert(frac == frac_value(t.skip(2)));
    }
    let v = head + frac;
    if v > 1000 {
        return None;
    }
    Some(v)
}

/// The meaning of a media-type pair `type/subtype` with a given quality.
pub open spec fn spec_mime_pair(s: Seq<char>, q: int) -> Option<PrefV> {
    let mp = spec_split(s, '/');
    if mp.len() == 2 {
        Some(PrefV { mime_type: mp[0], mime_subtype: mp[1], quality: q })
    } else {
        None
    }
}

/// The meaning of one `Accept` entry: a media-type pair, optionally followed
/// by `;` and a quality parameter; the weight defaults to one.
pub open spec fn spec_media_pref(s: Seq<char>) -> Option<PrefV> {
    let pieces = spec_split(s, ';');
    if pieces.len() == 1 {
        spec_mime_pair(pieces[0], 1000)
    } else if pieces.len() == 2 {
        match q_value(trim_chars(pieces[1])) {
            None => None,
            Some(q) => spec_mime_pair(pieces[0], q),
        }
    } else {
        None
    }
}

impl MediaTypePreference {
    /// Whether this preference accepts a concrete media type: a `*` type
    /// accepts anything, a concrete type with a `*` subtype accepts every
    /// subtype of that type.
    pub open spec fn accepts(&self, mime_type: Seq<char>, mime_subtype: Seq<char>) -> bool {
        pref_accepts(self@, mime_type, mime_subtype)
    }

    /// Read one `Accept` entry: `type/subtype`, optionally `;` and a quality
    /// parameter (surrounding blanks allowed), as in `text/html; q=0.9`.
    pub fn from_str(s: &str) -> (r: Result<Self, HeaderParseError>)
        ensures
            match r {
                Ok(p) => spec_media_pref(s@) == Some(p@),
                Err(e) => spec_media_pref(s@) is None,
            },
    {
        let cs = chars_vec(s);
        let pieces = split_chars(&cs, ';');
        proof {
            assert(pieces.deep_view().len() == pieces@.len());
            assert(forall|k: int| 0 <= k < pieces@.len() ==> #[trigger] pieces@[k]@
                == pieces.deep_view()[k]);
        }
        let quality: u16;
        if pieces.len() == 1 {
            quality = 1000;
        } else if pieces.len() == 2 {
            let qpiece = trim(&pieces[1]);
            match parse_q(&qpiece) {
                Some(q) => {
                    quality = q;
                },
                None => {
                    return Err(HeaderParseError::new("Accept", "invalid q value"));
                },
            }
        } else {
            return Err(HeaderParseError::new("Accept", "invalid mimetype format"));
        }
        let mp = split_chars(&pieces[0], '/');
        proof {
            assert(mp.deep_view().len() == mp@.len());
            assert(forall|k: int| 0 <= k < mp@.len() ==> #[trigger] mp@[k]@ == mp.deep_view()[k]);
        }
        if mp.len() == 2 {
            let mime_type = string_from_chars(mp[0].as_slice());
            let mime_subtype = string_from_chars(mp[1].as_slice());
            Ok(MediaTypePreference { mime_type, mime_subtype, quality })
        } else {
            Err(HeaderParseError::new("Accept", "invalid mimetype format"))
        }
    }
}

/// Whether a preference accepts a concrete media type.
pub open spec fn pref_accepts(p: PrefV, mime_type: Seq<char>, mime_subtype: Seq<char>) -> bool {
    if p.mime_type == "*"@ {
        true
    } else if p.mime_type == mime_type {
        p.mime_subtype == "*"@ || p.mime_subtype == mime_subtype
    } else {
        false
    }
}

/// Stable insertion of a preference into a list sorted ascending by quality:
/// the new entry goes after every entry of equal or lower quality.
pub open spec fn insert_by_q(v: Seq<PrefV>, p: PrefV) -> Seq<PrefV>
    decreases v.len(),
{
    if v.len() == 0 {
        seq![p]
    } else if v.last().quality <= p.quality {
        v.push(p)
    } else {
        insert_by_q(v.drop_last(), p).push(v.last())
    }
}

/// Stable sort of preferences, ascending by quality: entries of equal
/// quality keep the order in which they were parsed.
pub open spec fn sort_by_q(v: Seq<PrefV>) -> Seq<PrefV>
    decreases v.len(),
{
    if v.len() == 0 {
        v
    } else {
        insert_by_q(sort_by_q(v.drop_last()), v.last())
    }
}

/// The preferences an `Accept` header's comma-separated entries stand for,
/// in header order: entries that fail to parse are dropped.
pub open spec fn prefs_of(pieces: Seq<Seq<char>>) -> Seq<PrefV>
    decreases pieces.len(),
{
    if pieces.len() == 0 {
        Seq::<PrefV>::empty()
    } else {
        let head = match spec_media_pref(trim_chars(pieces[0])) {
            Some(p) => seq![p],
            None => Seq::<PrefV>::empty(),
        };
        head + prefs_of(pieces.drop_first())
    }
}

/// The meaning of a whole `Accept` header: its parsed entries, sorted
/// ascending by quality, parse order kept among equal qualities.
pub open spec fn spec_accept(s: Seq<char>) -> Seq<PrefV> {
    sort_by_q(prefs_of(spec_split(s, ',')))
}

/// Preference lists as their meanings.
pub open spec fn prefs_view(v: Seq<MediaTypePreference>) -> Seq<PrefV> {
    v.map_values(|p: MediaTypePreference| p@)
}

/// The parsed `Accept` header: an ordered list of weighted media-type
/// preferences, sorted ascending by quality. The earliest entry is tried
/// first during content negotiation.
#[derive(Debug, Clone)]
pub struct Accept {
    pub prefs: Vec<MediaTypePreference>,
}

/// Stable insertion into a quality-sorted preference vector.
fn insert_pref(v: &mut Vec<MediaTypePreference>, p: MediaTypePreference)
    ensures
        prefs_view(final(v)@) == insert_by_q(prefs_view(old(v)@), p@),
    decreases old(v)@.len(),
{
    let ghost pre = prefs_view(v@);
    if v.len() == 0 {
        v.push(p);
        proof {
            assert(prefs_view(v@) =~= insert_by_q(pre, p@));
        }
    } else if v[v.len() - 1].quality <= p.quality {
        v.push(p);
        proof {
            assert(pre.last() == prefs_view(v@)[v@.len() - 2]);
            assert(prefs_view(v@) =~= insert_by_q(pre, p@));
        }
    } else {
        let last = v.pop().unwrap();
        proof {
            assert(prefs_view(v@) =~= pre.drop_last());
        }
        insert_pref(v, p);
        v.push(last);
        proof {
            assert(prefs_view(v@) =~= insert_by_q(pre.drop_last(), p@).push(pre.last()));
        }
    }
}

impl Accept {
    /// Read a whole `Accept` header: comma-separated weighted entries;
    /// entries that fail to parse are dropped; the result is sorted
    /// ascending by quality, parse order kept among equal qualities.
    #[verifier::loop_isolation(false)]
    pub fn from_str(s: &str) -> (r: Self)
        ensures
            prefs_view(r.prefs@) == spec_accept(s@),
    {
        let cs = chars_vec(s);
        let pieces = split_chars(&cs, ',');
        let ghost pv = pieces.deep_view();
        proof {
            assert(pv.len() == pieces@.len());
            assert(forall|k: int| 0 <= k < pieces@.len() ==> #[trigger] pieces@[k]@ == pv[k]);
        }
        let mut parsed: Vec<MediaTypePreference> = Vec::new();
        let mut i: usize = 0;
        proof {
            assert(prefs_view(parsed@) =~= prefs_of(pv.take(0)));
        }
        while i < pieces.len()
            invariant
                0 <= i <= pieces@.len(),
                prefs_view(parsed@) == prefs_of(pv.take(i as int)),
            decreases pieces@.len() - i,
        {
            let ghost pre = prefs_view(parsed@);
            let piece = trim(&pieces[i]);
            match MediaTypePreference::from_str(string_from_chars(piece.as_slice()).as_str()) {
                Ok(p) => {
                    parsed.push(p);
                },
                Err(_) => {},
            }
            i = i + 1;
            proof {
                lemma_prefs_of_step(pv, i as int);
                assert(prefs_view(parsed@) =~= prefs_of(pv.take(i as int)));
            }
        }
        proof {
            assert(pv.take(pv.len() as int) =~= pv);
        }
        let mut prefs: Vec<MediaTypePreference> = Vec::new();
        let ghost all = prefs_view(parsed@);
        let mut k: usize = 0;
        proof {
            assert(sort_by_q(all.take(0)) =~= prefs_view(prefs@));
        }
        while k < parsed.len()
            invariant
                0 <= k <= parsed@.len(),
                all == prefs_view(parsed@),
                all.len() == parsed@.len(),
                forall|j: int| 0 <= j < parsed@.len() ==> #[trigger] parsed@[j]@ == all[j],
                prefs_view(prefs@) == sort_by_q(all.take(k as int)),
            decreases parsed@.len() - k,
        {
            let p = MediaTypePreference {
                mime_type: parsed[k].mime_type.clone(),
                mime_subtype: parsed[k].mime_subtype.clone(),
                quality: parsed[k].quality,
            };
            proof {
                assert(p@ == all[k as int]);
                assert(all.take(k as int + 1).drop_last() =~= all.take(k as int));
                assert(all.take(k as int + 1).last() == all[k as int]);
            }
            insert_pref(&mut prefs, p);
            k = k + 1;
        }
        proof {
            assert(all.take(parsed@.len() as int) =~= all);
        }
        Accept { prefs }
    }
}

/// One more `Accept` entry extends the parsed preferences by its meaning,
/// where it has one.
proof fn lemma_prefs_of_step(pieces: Seq<Seq<char>>, i: int)
    requires
        0 < i <= pieces.len(),
    ensures
        prefs_of(pieces.take(i)) == prefs_of(pieces.take(i - 1)) + (match spec_media_pref(
            trim_chars(pieces[i - 1]),
        ) {
            Some(p) => seq![p],
            None => Seq::<PrefV>::empty(),
        }),
    decreases i,
{
    if i == 1 {
        assert(pieces.take(1).drop_first() =~= Seq::<Seq<char>>::empty());
        assert(pieces.take(1)[0] == pieces[0]);
        assert(prefs_of(pieces.take(0)) =~= Seq::<PrefV>::empty());
        assert(prefs_of(pieces.take(1).drop_first()) =~= Seq::<PrefV>::empty());
        assert(prefs_of(pieces.take(1)) =~= prefs_of(pieces.take(0)) + (match spec_media_pref(
            trim_chars(pieces[0]),
        ) {
            Some(p) => seq![p],
            None => Seq::<PrefV>::empty(),
        }));
    } else {
        lemma_prefs_of_step(pieces.drop_first(), i - 1);
        assert(pieces.take(i).drop_first() =~= pieces.drop_first().take(i - 1));
        assert(pieces.take(i - 1).drop_first() =~= pieces.drop_first().take(i - 2));
        assert(pieces.take(i)[0] == pieces[0]);
        assert(pieces.take(i - 1)[0] == pieces[0]);
        assert(pieces.drop_first()[i - 2] == pieces[i - 1]);
        assert(prefs_of(pieces.take(i)) =~= prefs_of(pieces.take(i - 1)) + (match spec_media_pref(
            trim_chars(pieces[i - 1]),
        ) {
            Some(p) => seq![p],
            None => Seq::<PrefV>::empty(),
        }));
    }
}

/// The meaning of a `Content-Type` header: the media type, and optional
/// charset and boundary parameters.
pub struct CtV {
    pub mime_type: Seq<char>,
    pub mime_subtype: Seq<char>,
    pub charset: Option<Seq<char>>,
    pub boundary: Option<Seq<char>>,
}

/// The request's declared `Content-Type`: a single media type with optional
/// charset and boundary parameters.
#[derive(Debug, Clone)]
pub struct ContentType {
    pub mime_type: String,
    pub mime_subtype: String,
    pub charset: Option<String>,
    pub boundary: Option<String>,
}

impl View for ContentType {
    type V = CtV;

    open spec fn view(&self) -> CtV {
        CtV {
            mime_type: self.mime_type@,
            mime_subtype: self.mime_subtype@,
            charset: match &self.charset {
                Some(c) => Some(c@),
                None => None,
            },
            boundary: match &self.boundary {
                Some(b) => Some(b@),
                None => None,
            },
        }
    }
}

/// The charset and boundary read from `key=value` parameter pieces, each
/// piece trimmed of blanks, later values replacing earlier ones; unknown
/// keys are ignored, and a piece that is no `key=value` pair fails.
pub open spec fn ct_params(
    pieces: Seq<Seq<char>>,
    charset: Option<Seq<char>>,
    boundary: Option<Seq<char>>,
) -> Option<(Option<Seq<char>>, Option<Seq<char>>)>
    decreases pieces.len(),
{
    if pieces.len() == 0 {
        Some((charset, boundary))
    } else {
        let kv = spec_split(trim_chars(pieces[0]), '=');
        if kv.len() != 2 {
            None
        } else if kv[0] == "charset"@ {
            ct_params(pieces.drop_first(), Some(kv[1]), boundary)
        } else if kv[0] == "boundary"@ {
            ct_params(pieces.drop_first(), charset, Some(kv[1]))
        } else {
            ct_params(pieces.drop_first(), charset, boundary)
        }
    }
}

/// The meaning of a whole `Content-Type` header: a media-type pair, then
/// `;`-separated `key=value` parameters.
pub open spec fn spec_content_type(s: Seq<char>) -> Option<CtV> {
    let pieces = spec_split(s, ';');
    let mp = spec_split(trim_chars(pieces[0]), '/');
    if mp.len() != 2 {
        None
    } else {
        match ct_params(pieces.drop_first(), None, None) {
            None => None,
            Some((charset, boundary)) => Some(
                CtV { mime_type: mp[0], mime_subtype: mp[1], charset, boundary },
            ),
        }
    }
}

impl ContentType {
    /// Whether the declared type is exactly the given media type; no
    /// wildcards count on the request side.
    pub open spec fn accepts(&self, mime_type: Seq<char>, mime_subtype: Seq<char>) -> bool {
        self@.mime_type == mime_type && self@.mime_subtype == mime_subtype
    }

    /// Read a `Content-Type` header, as in `text/html; charset=UTF-8`.
    #[verifier::loop_isolation(false)]
    #[verifier::rlimit(60)]
    pub fn from_str(s: &str) -> (r: Result<Self, HeaderParseError>)
        ensures
            match r {
                Ok(ct) => spec_content_type(s@) == Some(ct@),
                Err(e) => spec_content_type(s@) is None,
            },
    {
        let cs = chars_vec(s);
        let pieces = split_chars(&cs, ';');
        let ghost pv = pieces.deep_view();
        proof {
            assert(pv.len() == pieces@.len());
            assert(pv.len() > 0);
            assert(forall|k: int| 0 <= k < pieces@.len() ==> #[trigger] pieces@[k]@ == pv[k]);
        }
        let head = trim(&pieces[0]);
        let mp = split_chars(&head, '/');
        proof {
            assert(forall|k: int| 0 <= k < mp@.len() ==> #[trigger] mp@[k]@ == mp.deep_view()[k]);
        }
        if mp.len() != 2 {
            return Err(HeaderParseError::new("Content-Type", "invalid mimetype format"));
        }
        let mime_type = string_from_chars(mp[0].as_slice());
        let mime_subtype = string_from_chars(mp[1].as_slice());
        let mut charset: Option<String> = None;
        let mut boundary: Option<String> = None;
        let ghost params = pv.drop_first();
        let mut i: usize = 1;
        proof {
            assert(params.skip(0) =~= params);
        }
        while i < pieces.len()
            invariant
                1 <= i <= pieces@.len(),
                params.len() == pieces@.len() - 1,
                forall|k: int| 0 <= k < params.len() ==> #[trigger] params[k] == pv[k + 1],
                ct_params(params, None, None) == ct_params(
                    params.skip(i as int - 1),
                    match charset {
                        Some(ref c) => Some(c@),
                        None => None,
                    },
                    match boundary {
                        Some(ref b) => Some(b@),
                        None => None,
                    },
                ),
            decreases pieces@.len() - i,
        {
            let piece = trim(&pieces[i]);
            let kv = split_chars(&piece, '=');
            proof {
                assert(forall|k: int| 0 <= k < kv@.len() ==> #[trigger] kv@[k]@
                    == kv.deep_view()[k]);
                assert(params.skip(i as int - 1)[0] == params[i as int - 1]);
                assert(params.skip(i as int - 1).drop_first() =~= params.skip(i as int));
            }
            if kv.len() != 2 {
                return Err(HeaderParseError::new("Content-Type", "invalid key-value"));
            }
            let key = &kv[0];
            if chars_eq(key, &chars_vec("charset")) {
                charset = Some(string_from_chars(kv[1].as_slice()));
            } else if chars_eq(key, &chars_vec("boundary")) {
                boundary = Some(string_from_chars(kv[1].as_slice()));
            }
            i = i + 1;
        }
        proof {
            assert(params.skip(params.len() as int).len() == 0);
        }
        Ok(ContentType { mime_type, mime_subtype, charset, boundary })
    }
}

} // verus!
