//! Byte-stream utilities: newline normalization, and the pairing of a
//! read-only and a write-only stream into one duplex carrier.
use vstd::prelude::*;

verus! {

/// What newline conversion yields: every line feed becomes a carriage
/// return and line feed; every other byte is kept.
pub open spec fn crlf_expand(s: Seq<u8>) -> Seq<u8>
    decreases s.len(),
{
    if s.len() == 0 {
        Seq::<u8>::empty()
    } else {
        let head = if s[0] == 10 {
            seq![13u8, 10u8]
        } else {
            seq![s[0]]
        };
        head + crlf_expand(s.drop_first())
    }
}

/// One more input byte extends the conversion by its expansion.
proof fn lemma_crlf_expand_step(s: Seq<u8>, i: int)
    requires
        0 < i <= s.len(),
    ensures
        crlf_expand(s.take(i)) == crlf_expand(s.take(i - 1)) + (if s[i - 1] == 10 {
            seq![13u8, 10u8]
        } else {
            seq![s[i - 1]]
        }),
    decreases i,
{
    if i == 1 {
        assert(s.take(1).drop_first() =~= Seq::<u8>::empty());
        assert(s.take(1)[0] == s[0]);
        assert(crlf_expand(s.take(0)) =~= Seq::<u8>::empty());
        assert(crlf_expand(s.take(1).drop_first()) =~= Seq::<u8>::empty());
        assert(crlf_expand(s.take(1)) =~= crlf_expand(s.take(0)) + (if s[0] == 10 {
            seq![13u8, 10u8]
        } else {
            seq![s[0]]
        }));
    } else {
        lemma_crlf_expand_step(s.drop_first(), i - 1);
        assert(s.take(i).drop_first() =~= s.drop_first().take(i - 1));
        assert(s.take(i - 1).drop_first() =~= s.drop_first().take(i - 2));
        assert(s.take(i)[0] == s[0]);
        assert(s.take(i - 1)[0] == s[0]);
        assert(s.drop_first()[i - 2] == s[i - 1]);
        assert(crlf_expand(s.take(i)) =~= crlf_expand(s.take(i - 1)) + (if s[i - 1] == 10 {
            seq![13u8, 10u8]
        } else {
            seq![s[i - 1]]
        }));
    }
}

/// Convert bare line feeds to carriage-return line-feed pairs.
#[verifier::loop_isolation(false)]
pub fn convert_lf_to_crlf(data: &[u8]) -> (r: Vec<u8>)
    ensures
        r@ == crlf_expand(data@),
{
    let mut out: Vec<u8> = Vec::new();
    let mut i: usize = 0;
    proof {
        assert(out@ =~= crlf_expand(data@.take(0)));
    }
    while i < data.len()
        invariant
            0 <= i <= data@.len(),
            out@ == crlf_expand(data@.take(i as int)),
        decreases data@.len() - i,
    {
        let b = data[i];
        if b == 10 {
            out.push(13);
            out.push(10);
        } else {
            out.push(b);
        }
        i = i + 1;
        proof {
            lemma_crlf_expand_step(data@, i as int);
            assert(out@ =~= crlf_expand(data@.take(i as int)));
        }
    }
    proof {
        assert(data@.take(data@.len() as int) =~= data@);
    }
    out
}

/// Carries an inner stream whose line feeds are to be read as
/// carriage-return line-feed pairs; the conversion itself is
/// [`convert_lf_to_crlf`]. The application shell drives the reads.
pub struct ConvertLFtoCRLF<R> {
    pub inner: R,
}

impl<R> ConvertLFtoCRLF<R> {
    /// Wrap an inner stream.
    pub fn new(inner: R) -> (r: Self)
        ensures
            r.inner == inner,
    {
        Self { inner }
    }
}

/// Pairs a read-only and a write-only stream into one duplex carrier, such
/// as a test double standing in for a connection. The application shell
/// drives the reads and writes.
pub struct ReadWriteAdapter<R, W> {
    pub reader: R,
    pub writer: W,
}

impl<R, W> ReadWriteAdapter<R, W> {
    /// Pair a reader and a writer.
    pub fn new(reader: R, writer: W) -> (r: Self)
        ensures
            r.reader == reader,
            r.writer == writer,
    {
        Self { reader, writer }
    }
}

} // verus!
