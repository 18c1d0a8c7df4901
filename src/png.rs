use vstd::prelude::*;
use crate::chunk::{
    chunk_bytes, chunk_model_valid, chunk_model_wf, lemma_parse_chunk_bytes, parse_chunk_spec, Chunk,
    ChunkModel,
};
use crate::chunk_type::ChunkType;
use crate::error::PngError;
use vstd::string::StringSliceAdditionalSpecFns;

verus! {

/// The eight bytes every PNG file starts with.
pub open spec fn png_signature() -> Seq<u8> {
    seq![0x89u8, 0x50u8, 0x4Eu8, 0x47u8, 0x0Du8, 0x0Au8, 0x1Au8, 0x0Au8]
}

/// The wire form of a sequence of chunks, one after the other.
pub open spec fn chunks_bytes(s: Seq<ChunkModel>) -> Seq<u8>
    decreases s.len(),
{
    if s.len() == 0 {
        Seq::empty()
    } else {
        chunk_bytes(s[0]) + chunks_bytes(s.drop_first())
    }
}

/// The wire form of a PNG file holding `s`.
pub open spec fn png_bytes(s: Seq<ChunkModel>) -> Seq<u8> {
    png_signature() + chunks_bytes(s)
}

/// What parsing a run of whole chunks gives; the run ends where the bytes do.
pub open spec fn parse_chunks_spec(b: Seq<u8>) -> Result<Seq<ChunkModel>, PngError>
    decreases b.len(),
    via parse_chunks_decreases
{
    if b.len() == 0 {
        Ok(Seq::empty())
    } else {
        match parse_chunk_spec(b) {
            Err(e) => Err(e),
            Ok(c) => match parse_chunks_spec(b.subrange(c.length + 12, b.len() as int)) {
                Ok(rest) => Ok(seq![c] + rest),
                Err(e) => Err(e),
            },
        }
    }
}

#[via_fn]
proof fn parse_chunks_decreases(b: Seq<u8>) {
    if b.len() != 0 {
        if let Ok(c) = parse_chunk_spec(b) {
            assert(b.subrange(c.length + 12, b.len() as int).len() < b.len());
        }
    }
}

/// What parsing a whole PNG file gives.
pub open spec fn parse_png_spec(b: Seq<u8>) -> Result<Seq<ChunkModel>, PngError> {
    if b.len() < 8 || b.subrange(0, 8) != png_signature() {
        Err(PngError::BadSignature)
    } else {
        parse_chunks_spec(b.subrange(8, b.len() as int))
    }
}

/// `prefix` followed by the chunks of a parse result, or its error.
pub open spec fn prepend_chunks(prefix: Seq<ChunkModel>, r: Result<Seq<ChunkModel>, PngError>) -> Result<
    Seq<ChunkModel>,
    PngError,
> {
    match r {
        Ok(rest) => Ok(prefix + rest),
        Err(e) => Err(e),
    }
}

/// Index `i` holds the first chunk tagged `tag`.
pub open spec fn is_first_with_tag(s: Seq<ChunkModel>, tag: Seq<u8>, i: int) -> bool {
    &&& 0 <= i < s.len()
    &&& s[i].tag == tag
    &&& forall|j: int| 0 <= j < i ==> (#[trigger] s[j]).tag != tag
}

/// Some chunk of `s` is tagged `tag`.
pub open spec fn has_tag(s: Seq<ChunkModel>, tag: Seq<u8>) -> bool {
    exists|i: int| 0 <= i < s.len() && (#[trigger] s[i]).tag == tag
}

pub proof fn lemma_chunks_bytes_push(s: Seq<ChunkModel>, c: ChunkModel)
    ensures
        chunks_bytes(s.push(c)) == chunks_bytes(s) + chunk_bytes(c),
    decreases s.len(),
{
    if s.len() == 0 {
        assert(s.push(c).drop_first() =~= Seq::<ChunkModel>::empty());
        assert(chunks_bytes(s.push(c).drop_first()) =~= Seq::<u8>::empty());
        assert(chunks_bytes(s.push(c)) =~= chunks_bytes(s) + chunk_bytes(c));
    } else {
        assert(s.push(c).drop_first() =~= s.drop_first().push(c));
        lemma_chunks_bytes_push(s.drop_first(), c);
        assert(chunks_bytes(s.push(c)) =~= chunks_bytes(s) + chunk_bytes(c));
    }
}

/// Whether chunk type `t` is tagged by the bytes `s`.
fn tag_matches(t: &ChunkType, s: &[u8]) -> (r: bool)
    ensures
        r == (t@ == s@),
{
    let b = t.bytes();
    if s.len() != 4 {
        return false;
    }
    let r = b[0] == s[0] && b[1] == s[1] && b[2] == s[2] && b[3] == s[3];
    proof {
        if r {
            assert(t@ =~= s@);
        } else {
            assert(t@ != s@) by {
                if t@ == s@ {
                    assert(b@[0] == s@[0] && b@[1] == s@[1] && b@[2] == s@[2] && b@[3] == s@[3]);
                }
            }
        }
    }
    r
}

/// A PNG file: the signature followed by an ordered sequence of chunks.
#[derive(Debug)]
pub struct Png {
    chunks: Vec<Chunk>,
}

impl View for Png {
    type V = Seq<ChunkModel>;

    closed spec fn view(&self) -> Seq<ChunkModel> {
        self.chunks@.map_values(|c: Chunk| c@)
    }
}

impl Png {
    /// Every chunk satisfies its length and checksum invariants.
    pub open spec fn wf(&self) -> bool {
        forall|i: int| 0 <= i < self@.len() ==> chunk_model_wf(#[trigger] self@[i])
    }

    /// The PNG signature.
    pub fn header() -> (r: [u8; 8])
        ensures
            r@ == png_signature(),
    {
        let r = [0x89u8, 0x50u8, 0x4Eu8, 0x47u8, 0x0Du8, 0x0Au8, 0x1Au8, 0x0Au8];
        assert(r@ =~= png_signature());
        r
    }

    /// A PNG file holding `chunks`, in order.
    pub fn from_chunks(chunks: Vec<Chunk>) -> (r: Png)
        ensures
            r@ == chunks@.map_values(|c: Chunk| c@),
    {
        Png { chunks }
    }

    /// Parses a whole PNG file.
    pub fn try_from(bytes: &[u8]) -> (r: Result<Png, PngError>)
        ensures
            match r {
                Ok(p) => parse_png_spec(bytes@) == Ok::<Seq<ChunkModel>, PngError>(p@) && p.wf(),
                Err(e) => parse_png_spec(bytes@) == Err::<Seq<ChunkModel>, PngError>(e),
            },
    {
        let ghost b = bytes@;
        let total = bytes.len();
        if total < 8 {
            return Err(PngError::BadSignature);
        }
        let sig = Self::header();
        let mut k: usize = 0;
        while k < 8
            invariant
                k <= 8,
                total == b.len(),
                bytes@ == b,
                b.len() >= 8,
                sig@ == png_signature(),
                forall|j: int| 0 <= j < k ==> b[j] == png_signature()[j],
            decreases 8 - k,
        {
            if bytes[k] != sig[k] {
                assert(b.subrange(0, 8)[k as int] != png_signature()[k as int]);
                return Err(PngError::BadSignature);
            }
            k = k + 1;
        }
        assert(b.subrange(0, 8) =~= png_signature());
        let mut chunks: Vec<Chunk> = Vec::new();
        let mut pos: usize = 8;
        assert(chunks@.map_values(|c: Chunk| c@) =~= Seq::<ChunkModel>::empty());
        assert(prepend_chunks(Seq::empty(), parse_chunks_spec(b.subrange(8, b.len() as int)))
            =~= parse_chunks_spec(b.subrange(8, b.len() as int))) by {
            match parse_chunks_spec(b.subrange(8, b.len() as int)) {
                Ok(rest) => {
                    assert(Seq::<ChunkModel>::empty() + rest =~= rest);
                },
                Err(_) => {},
            }
        }
        while pos < total
            invariant
                8 <= pos <= total,
                total == b.len(),
                bytes@ == b,
                parse_png_spec(b) == prepend_chunks(
                    chunks@.map_values(|c: Chunk| c@),
                    parse_chunks_spec(b.subrange(pos as int, b.len() as int)),
                ),
                forall|i: int| 0 <= i < chunks@.len() ==> (#[trigger] chunks@[i]).wf(),
            decreases total - pos,
        {
            let ghost rest = b.subrange(pos as int, b.len() as int);
            let ghost done = chunks@.map_values(|c: Chunk| c@);
            let c = match Chunk::parse_at(bytes, pos) {
                Ok(c) => c,
                Err(e) => {
                    return Err(e);
                },
            };
            let n = c.length() as usize;
            let next = pos + n + 12;
            proof {
                assert(rest.subrange(n + 12, rest.len() as int) =~= b.subrange(
                    next as int,
                    b.len() as int,
                ));
            }
            chunks.push(c);
            proof {
                let now = chunks@.map_values(|c: Chunk| c@);
                assert(now =~= done + seq![c@]);
                match parse_chunks_spec(b.subrange(next as int, b.len() as int)) {
                    Ok(tail) => {
                        assert(done + (seq![c@] + tail) =~= now + tail);
                    },
                    Err(_) => {},
                }
            }
            pos = next;
        }
        assert(b.subrange(pos as int, b.len() as int) =~= Seq::<u8>::empty());
        let p = Png { chunks };
        assert(p@ + Seq::<ChunkModel>::empty() =~= p@);
        Ok(p)
    }

    /// Adds `chunk` at the end.
    pub fn append_chunk(&mut self, chunk: Chunk)
        ensures
            final(self)@ == old(self)@.push(chunk@),
    {
        self.chunks.push(chunk);
        assert(self@ =~= old(self)@.push(chunk@));
    }

    /// Removes and returns the first chunk tagged `chunk_type`; fails, changing
    /// nothing, when none is.
    pub fn remove_first_chunk(&mut self, chunk_type: &str) -> (r: Result<Chunk, PngError>)
        ensures
            match r {
                Ok(c) => exists|i: int|
                    is_first_with_tag(old(self)@, chunk_type.spec_bytes(), i) && c@ == old(
                        self,
                    )@[i] && final(self)@ == old(self)@.remove(i),
                Err(e) => e == PngError::ChunkNotFound && !has_tag(
                    old(self)@,
                    chunk_type.spec_bytes(),
                ) && final(self)@ == old(self)@,
            },
    {
        let tag = chunk_type.as_bytes();
        let mut i: usize = 0;
        while i < self.chunks.len()
            invariant
                i <= self@.len(),
                self@ == old(self)@,
                tag@ == chunk_type.spec_bytes(),
                forall|j: int| 0 <= j < i ==> (#[trigger] self@[j]).tag != tag@,
            decreases self@.len() - i,
        {
            if tag_matches(self.chunks[i].chunk_type(), tag) {
                let ghost before = self@;
                let c = self.chunks.remove(i);
                assert(self@ =~= before.remove(i as int));
                return Ok(c);
            }
            i = i + 1;
        }
        Err(PngError::ChunkNotFound)
    }

    /// The first chunk tagged `chunk_type`.
    pub fn chunk_by_type(&self, chunk_type: &str) -> (r: Result<&Chunk, PngError>)
        ensures
            match r {
                Ok(c) => exists|i: int|
                    is_first_with_tag(self@, chunk_type.spec_bytes(), i) && c@ == self@[i],
                Err(e) => e == PngError::ChunkNotFound && !has_tag(self@, chunk_type.spec_bytes()),
            },
    {
        let tag = chunk_type.as_bytes();
        let mut i: usize = 0;
        while i < self.chunks.len()
            invariant
                i <= self@.len(),
                tag@ == chunk_type.spec_bytes(),
                forall|j: int| 0 <= j < i ==> (#[trigger] self@[j]).tag != tag@,
            decreases self@.len() - i,
        {
            if tag_matches(self.chunks[i].chunk_type(), tag) {
                assert(is_first_with_tag(self@, chunk_type.spec_bytes(), i as int));
                return Ok(&self.chunks[i]);
            }
            i = i + 1;
        }
        Err(PngError::ChunkNotFound)
    }

    /// The number of chunks.
    pub fn len(&self) -> (r: usize)
        ensures
            r == self@.len(),
    {
        self.chunks.len()
    }

    /// The chunk at `i`.
    pub fn chunk(&self, i: usize) -> (r: &Chunk)
        requires
            i < self@.len(),
        ensures
            r@ == self@[i as int],
    {
        &self.chunks[i]
    }

    /// The whole file: signature, then each chunk's wire form in order.
    pub fn as_bytes(&self) -> (r: Vec<u8>)
        ensures
            r@ == png_bytes(self@),
    {
        let mut out: Vec<u8> = Vec::new();
        let sig = Self::header();
        let mut k: usize = 0;
        while k < 8
            invariant
                k <= 8,
                sig@ == png_signature(),
                out@ == png_signature().subrange(0, k as int),
            decreases 8 - k,
        {
            out.push(sig[k]);
            k = k + 1;
            assert(out@ =~= png_signature().subrange(0, k as int));
        }
        assert(png_signature().subrange(0, 8) =~= png_signature());
        let mut i: usize = 0;
        while i < self.chunks.len()
            invariant
                i <= self@.len(),
                out@ == png_signature() + chunks_bytes(self@.subrange(0, i as int)),
            decreases self@.len() - i,
        {
            let ghost before = out@;
            let bytes = self.chunks[i].as_bytes();
            let mut j: usize = 0;
            while j < bytes.len()
                invariant
                    j <= bytes@.len(),
                    out@ == before + bytes@.subrange(0, j as int),
                decreases bytes@.len() - j,
            {
                out.push(bytes[j]);
                j = j + 1;
                assert(out@ =~= before + bytes@.subrange(0, j as int));
            }
            proof {
                assert(bytes@.subrange(0, j as int) =~= bytes@);
                lemma_chunks_bytes_push(self@.subrange(0, i as int), self@[i as int]);
                assert(self@.subrange(0, i as int).push(self@[i as int]) =~= self@.subrange(
                    0,
                    i + 1,
                ));
            }
            i = i + 1;
        }
        assert(self@.subrange(0, i as int) =~= self@);
        out
    }
}

} // verus!

verus! {

/// Every chunk of `s` is one that parsing accepts.
pub open spec fn png_model_valid(s: Seq<ChunkModel>) -> bool {
    forall|i: int| 0 <= i < s.len() ==> chunk_model_valid(#[trigger] s[i])
}

proof fn lemma_parse_chunks_step(b: Seq<u8>, c: ChunkModel, rest: Seq<ChunkModel>)
    requires
        b.len() != 0,
        parse_chunk_spec(b) == Ok::<ChunkModel, PngError>(c),
        parse_chunks_spec(b.subrange(c.length + 12, b.len() as int)) == Ok::<
            Seq<ChunkModel>,
            PngError,
        >(rest),
    ensures
        parse_chunks_spec(b) == Ok::<Seq<ChunkModel>, PngError>(seq![c] + rest),
{
}

/// The wire form of valid chunks parses back to the same chunks.
pub proof fn lemma_chunks_round_trip(s: Seq<ChunkModel>)
    requires
        png_model_valid(s),
    ensures
        parse_chunks_spec(chunks_bytes(s)) == Ok::<Seq<ChunkModel>, PngError>(s),
    decreases s.len(),
{
    if s.len() == 0 {
        assert(chunks_bytes(s) =~= Seq::<u8>::empty());
        assert(s =~= Seq::<ChunkModel>::empty());
    } else {
        let rest = s.drop_first();
        assert(chunk_model_valid(s[0]));
        assert(png_model_valid(rest)) by {
            assert forall|i: int| 0 <= i < rest.len() implies chunk_model_valid(
                #[trigger] rest[i],
            ) by {
                assert(rest[i] == s[i + 1]);
            }
        }
        let b = chunks_bytes(s);
        assert(b == chunk_bytes(s[0]) + chunks_bytes(rest));
        lemma_parse_chunk_bytes(s[0], chunks_bytes(rest));
        lemma_chunks_round_trip(rest);
        lemma_parse_chunks_step(b, s[0], rest);
        assert(seq![s[0]] + rest =~= s);
    }
}

/// Serializing a PNG whose chunks are all valid and parsing the bytes gives back
/// the same chunks, in the same order.
pub proof fn lemma_round_trip(s: Seq<ChunkModel>)
    requires
        png_model_valid(s),
    ensures
        parse_png_spec(png_bytes(s)) == Ok::<Seq<ChunkModel>, PngError>(s),
{
    let b = png_bytes(s);
    assert(b.subrange(0, 8) =~= png_signature());
    assert(b.subrange(8, b.len() as int) =~= chunks_bytes(s));
    lemma_chunks_round_trip(s);
}

/// After appending `c` to chunks that carry no chunk of its tag, the first chunk
/// with that tag is the appended one, and removing it restores the chunks.
pub proof fn lemma_append_then_remove(s: Seq<ChunkModel>, c: ChunkModel)
    requires
        !has_tag(s, c.tag),
    ensures
        forall|i: int| is_first_with_tag(s.push(c), c.tag, i) <==> i == s.len(),
        s.push(c)[s.len() as int] == c,
        s.push(c).remove(s.len() as int) == s,
{
    let t = s.push(c);
    assert forall|i: int| is_first_with_tag(t, c.tag, i) <==> i == s.len() by {
        if is_first_with_tag(t, c.tag, i) && i < s.len() {
            assert(s[i].tag == c.tag);
        }
        if i == s.len() {
            assert forall|j: int| 0 <= j < i implies (#[trigger] t[j]).tag != c.tag by {
                assert(t[j] == s[j]);
            }
        }
    }
    assert(t.remove(s.len() as int) =~= s);
}

} // verus!

verus! {

impl<'a> core::convert::TryFrom<&'a [u8]> for Png {
    type Error = PngError;

    fn try_from(bytes: &'a [u8]) -> Result<Png, PngError> {
        Png::try_from(bytes)
    }
}

/// The trait form promises nothing of its own; the inherent `try_from` carries the contract.
impl<'a> vstd::std_specs::convert::TryFromSpecImpl<&'a [u8]> for Png {
    open spec fn obeys_try_from_spec() -> bool {
        false
    }

    open spec fn try_from_spec(bytes: &'a [u8]) -> Result<Png, PngError> {
        vstd::pervasive::arbitrary()
    }
}

} // verus!
