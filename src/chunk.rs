use vstd::prelude::*;
use vstd::utf8::{decode_utf8, valid_utf8};
use crate::chunk_type::{is_type_tag, tag_is_reserved_bit_valid, ChunkType};
use crate::endian::{be_bytes, be_read, lemma_be_bytes_value, u32_from_be, u32_to_be};
use crate::error::PngError;
use crate::text::string_from_utf8;

verus! {

/// The PNG checksum (CRC-32, ISO-HDLC parameters) of a byte sequence.
pub uninterp spec fn crc32_iso_hdlc(bytes: Seq<u8>) -> u32;

/// Relies on crc's `Crc::<u32>::checksum` with the `CRC_32_ISO_HDLC` algorithm,
/// the checksum PNG uses: its value depends on the bytes alone.
#[verifier::external_body]
fn png_crc(bytes: &[u8]) -> (r: u32)
    ensures
        r == crc32_iso_hdlc(bytes@),
{
    crc::Crc::<u32>::new(&crc::CRC_32_ISO_HDLC).checksum(bytes)
}

/// The abstract content of a chunk.
pub struct ChunkModel {
    pub length: u32,
    pub tag: Seq<u8>,
    pub data: Seq<u8>,
    pub crc: u32,
}

/// The length field matches the payload and the checksum covers tag and payload.
pub open spec fn chunk_model_wf(c: ChunkModel) -> bool {
    &&& c.data.len() == c.length
    &&& c.crc == crc32_iso_hdlc(c.tag + c.data)
}

/// A chunk that parsing accepts: well formed, tagged by four letters, reserved bit clear.
pub open spec fn chunk_model_valid(c: ChunkModel) -> bool {
    &&& chunk_model_wf(c)
    &&& is_type_tag(c.tag)
    &&& tag_is_reserved_bit_valid(c.tag)
}

/// The chunk built from a tag and a payload.
pub open spec fn new_chunk_spec(tag: Seq<u8>, data: Seq<u8>) -> ChunkModel {
    ChunkModel { length: data.len() as u32, tag, data, crc: crc32_iso_hdlc(tag + data) }
}

/// The wire form of a chunk: length, tag, payload, checksum.
pub open spec fn chunk_bytes(c: ChunkModel) -> Seq<u8> {
    be_bytes(c.length) + c.tag + c.data + be_bytes(c.crc)
}

/// What parsing one chunk from the start of `b` gives.
pub open spec fn parse_chunk_spec(b: Seq<u8>) -> Result<ChunkModel, PngError> {
    if b.len() < 12 {
        Err(PngError::BufferTooShort)
    } else if !is_type_tag(b.subrange(4, 8)) {
        Err(PngError::InvalidTypeBytes)
    } else if !tag_is_reserved_bit_valid(b.subrange(4, 8)) {
        Err(PngError::InvalidChunkType)
    } else {
        let len = be_read(b);
        if b.len() < len + 12 {
            Err(PngError::BufferTooShort)
        } else {
            let tag = b.subrange(4, 8);
            let data = b.subrange(8, 8 + len);
            let stored = be_read(b.subrange(8 + len, 12 + len));
            if crc32_iso_hdlc(tag + data) != stored {
                Err(PngError::CrcMismatch)
            } else {
                Ok(ChunkModel { length: len, tag, data, crc: stored })
            }
        }
    }
}

/// One length-prefixed, checksummed PNG record.
#[derive(Debug)]
pub struct Chunk {
    length: u32,
    chunk_type: ChunkType,
    data: Vec<u8>,
    crc: u32,
}

impl View for Chunk {
    type V = ChunkModel;

    closed spec fn view(&self) -> ChunkModel {
        ChunkModel { length: self.length, tag: self.chunk_type@, data: self.data@, crc: self.crc }
    }
}

/// Copies `b[from..from + n]` into a new vector.
fn copy_range(b: &[u8], from: usize, n: usize) -> (r: Vec<u8>)
    requires
        from + n <= b@.len(),
    ensures
        r@ == b@.subrange(from as int, from + n),
{
    let mut r: Vec<u8> = Vec::new();
    let total = b.len();
    let mut i: usize = 0;
    while i < n
        invariant
            i <= n,
            total == b@.len(),
            from + n <= b@.len(),
            r@ == b@.subrange(from as int, from + i),
        decreases n - i,
    {
        r.push(b[from + i]);
        i = i + 1;
        assert(r@ =~= b@.subrange(from as int, from + i));
    }
    r
}

/// Appends all of `src` to `dst`.
fn append_bytes(dst: &mut Vec<u8>, src: &[u8])
    ensures
        final(dst)@ == old(dst)@ + src@,
{
    let mut i: usize = 0;
    while i < src.len()
        invariant
            i <= src@.len(),
            dst@ == old(dst)@ + src@.subrange(0, i as int),
        decreases src@.len() - i,
    {
        dst.push(src[i]);
        i = i + 1;
        assert(dst@ =~= old(dst)@ + src@.subrange(0, i as int));
    }
    assert(src@.subrange(0, src@.len() as int) =~= src@);
}

impl Chunk {
    /// The chunk's content satisfies its length and checksum invariants.
    pub open spec fn wf(&self) -> bool {
        chunk_model_wf(self@)
    }

    /// The checksum of a tag followed by a payload.
    fn calculate_crc(chunk_type: &ChunkType, data: &Vec<u8>) -> (r: u32)
        ensures
            r == crc32_iso_hdlc(chunk_type@ + data@),
    {
        let tag = chunk_type.bytes();
        let mut buf: Vec<u8> = Vec::new();
        append_bytes(&mut buf, &tag);
        append_bytes(&mut buf, data.as_slice());
        png_crc(buf.as_slice())
    }

    /// A chunk of type `chunk_type` carrying `data`, with its checksum computed.
    /// Fails when the payload does not fit the 32-bit length field.
    pub fn new(chunk_type: ChunkType, data: Vec<u8>) -> (r: Result<Chunk, PngError>)
        ensures
            data@.len() <= u32::MAX ==> (r matches Ok(c) && c@ == new_chunk_spec(
                chunk_type@,
                data@,
            ) && c.wf()),
            data@.len() > u32::MAX ==> r == Err::<Chunk, PngError>(PngError::PayloadTooLarge),
    {
        if data.len() as u64 > 0xffff_ffffu64 {
            return Err(PngError::PayloadTooLarge);
        }
        let crc = Self::calculate_crc(&chunk_type, &data);
        Ok(Chunk { length: data.len() as u32, chunk_type, data, crc })
    }

    /// Parses the chunk that starts at `b[at]`; bytes after its frame are left alone.
    pub fn parse_at(b: &[u8], at: usize) -> (r: Result<Chunk, PngError>)
        requires
            at <= b@.len(),
        ensures
            match r {
                Ok(c) => parse_chunk_spec(b@.subrange(at as int, b@.len() as int))
                    == Ok::<ChunkModel, PngError>(c@) && c.wf(),
                Err(e) => parse_chunk_spec(b@.subrange(at as int, b@.len() as int))
                    == Err::<ChunkModel, PngError>(e),
            },
    {
        let ghost s = b@.subrange(at as int, b@.len() as int);
        let rem = b.len() - at;
        if rem < 12 {
            return Err(PngError::BufferTooShort);
        }
        let length = u32_from_be(b, at);
        assert(b@.subrange(at as int, at + 4) =~= s.subrange(0, 4));
        assert(b@.subrange(at + 4, at + 8) =~= s.subrange(4, 8));
        let chunk_type = match ChunkType::try_from([b[at + 4], b[at + 5], b[at + 6], b[at + 7]]) {
            Ok(t) => t,
            Err(e) => {
                assert([b[at + 4], b[at + 5], b[at + 6], b[at + 7]]@ =~= s.subrange(4, 8));
                return Err(e);
            },
        };
        assert([b[at + 4], b[at + 5], b[at + 6], b[at + 7]]@ =~= s.subrange(4, 8));
        if !chunk_type.is_valid() {
            return Err(PngError::InvalidChunkType);
        }
        if rem - 12 < length as usize {
            return Err(PngError::BufferTooShort);
        }
        let n = length as usize;
        let data = copy_range(b, at + 8, n);
        assert(data@ =~= s.subrange(8, 8 + n));
        let stored = u32_from_be(b, at + 8 + n);
        assert(b@.subrange(at + 8 + n, at + 12 + n) =~= s.subrange(8 + n, 12 + n));
        let computed = Self::calculate_crc(&chunk_type, &data);
        if computed != stored {
            return Err(PngError::CrcMismatch);
        }
        Ok(Chunk { length, chunk_type, data, crc: computed })
    }

    /// Parses the chunk at the start of `bytes`.
    pub fn try_from(bytes: &[u8]) -> (r: Result<Chunk, PngError>)
        ensures
            match r {
                Ok(c) => parse_chunk_spec(bytes@) == Ok::<ChunkModel, PngError>(c@) && c.wf(),
                Err(e) => parse_chunk_spec(bytes@) == Err::<ChunkModel, PngError>(e),
            },
    {
        assert(bytes@.subrange(0, bytes@.len() as int) =~= bytes@);
        Self::parse_at(bytes, 0)
    }

    /// The payload length.
    pub fn length(&self) -> (r: u32)
        ensures
            r == self@.length,
    {
        self.length
    }

    /// The chunk type.
    pub fn chunk_type(&self) -> (r: &ChunkType)
        ensures
            r@ == self@.tag,
    {
        &self.chunk_type
    }

    /// The payload bytes.
    pub fn data(&self) -> (r: &[u8])
        ensures
            r@ == self@.data,
    {
        self.data.as_slice()
    }

    /// The stored checksum.
    pub fn crc(&self) -> (r: u32)
        ensures
            r == self@.crc,
    {
        self.crc
    }

    /// The payload read as UTF-8 text.
    pub fn data_as_string(&self) -> (r: Result<String, PngError>)
        ensures
            valid_utf8(self@.data) ==> (r matches Ok(s) && s@ == decode_utf8(self@.data)),
            !valid_utf8(self@.data) ==> r == Err::<String, PngError>(PngError::InvalidEncoding),
    {
        match string_from_utf8(self.data.clone()) {
            Some(s) => Ok(s),
            None => Err(PngError::InvalidEncoding),
        }
    }

    /// The wire form: length, tag, payload and checksum.
    pub fn as_bytes(&self) -> (r: Vec<u8>)
        ensures
            r@ == chunk_bytes(self@),
    {
        let mut out: Vec<u8> = Vec::new();
        append_bytes(&mut out, &u32_to_be(self.length));
        append_bytes(&mut out, &self.chunk_type.bytes());
        append_bytes(&mut out, self.data.as_slice());
        append_bytes(&mut out, &u32_to_be(self.crc));
        out
    }
}

} // verus!

verus! {

/// `b` with bit `k` of byte `i` inverted.
pub open spec fn flip_bit(b: Seq<u8>, i: int, k: u8) -> Seq<u8> {
    b.update(i, b[i] ^ (1u8 << k))
}

/// A valid chunk's wire form, followed by anything, parses back to that chunk,
/// and its frame covers exactly `length + 12` bytes.
pub proof fn lemma_parse_chunk_bytes(c: ChunkModel, tail: Seq<u8>)
    requires
        chunk_model_valid(c),
    ensures
        chunk_bytes(c).len() == c.length + 12,
        parse_chunk_spec(chunk_bytes(c) + tail) == Ok::<ChunkModel, PngError>(c),
        (chunk_bytes(c) + tail).subrange(c.length + 12, (chunk_bytes(c) + tail).len() as int)
            == tail,
{
    let b = chunk_bytes(c) + tail;
    let n = c.length as int;
    lemma_be_bytes_value(c.length);
    lemma_be_bytes_value(c.crc);
    assert(b.subrange(0, 4) =~= be_bytes(c.length));
    assert(b.subrange(4, 8) =~= c.tag);
    assert(b.subrange(8, 8 + n) =~= c.data);
    assert(b.subrange(8 + n, 12 + n) =~= be_bytes(c.crc));
    assert(be_read(b) == be_read(be_bytes(c.length)));
    assert(b.subrange(n + 12, b.len() as int) =~= tail);
}

/// A chunk built from a valid type and a payload carries the checksum of tag
/// and payload, a function of those alone; parsing its wire form gives the same
/// chunk, checksum included.
pub proof fn lemma_crc_deterministic(tag: Seq<u8>, data: Seq<u8>)
    requires
        is_type_tag(tag),
        tag_is_reserved_bit_valid(tag),
        data.len() <= u32::MAX,
    ensures
        new_chunk_spec(tag, data).crc == crc32_iso_hdlc(tag + data),
        parse_chunk_spec(chunk_bytes(new_chunk_spec(tag, data))) == Ok::<ChunkModel, PngError>(
            new_chunk_spec(tag, data),
        ),
{
    let c = new_chunk_spec(tag, data);
    lemma_parse_chunk_bytes(c, Seq::empty());
    assert(chunk_bytes(c) + Seq::<u8>::empty() =~= chunk_bytes(c));
}

/// Flipping one bit in the tag or payload of a valid chunk's wire form, where the
/// tag stays a valid type and the checksum of the changed tag and payload differs
/// from the stored one, makes parsing fail with `CrcMismatch`.
pub proof fn lemma_tampered_frame_rejected(c: ChunkModel, i: int, k: u8)
    requires
        chunk_model_valid(c),
        4 <= i < 8 + c.length,
        k < 8,
        is_type_tag(flip_bit(chunk_bytes(c), i, k).subrange(4, 8)),
        tag_is_reserved_bit_valid(flip_bit(chunk_bytes(c), i, k).subrange(4, 8)),
        crc32_iso_hdlc(flip_bit(chunk_bytes(c), i, k).subrange(4, 8 + c.length)) != c.crc,
    ensures
        parse_chunk_spec(flip_bit(chunk_bytes(c), i, k)) == Err::<ChunkModel, PngError>(
            PngError::CrcMismatch,
        ),
{
    let b = chunk_bytes(c);
    let t = flip_bit(b, i, k);
    let n = c.length as int;
    lemma_parse_chunk_bytes(c, Seq::empty());
    assert(b + Seq::<u8>::empty() =~= b);
    lemma_be_bytes_value(c.length);
    lemma_be_bytes_value(c.crc);
    assert(t.subrange(0, 4) =~= b.subrange(0, 4));
    assert(be_read(t) == be_read(b));
    assert(b.subrange(0, 4) =~= be_bytes(c.length));
    assert(t.subrange(8 + n, 12 + n) =~= be_bytes(c.crc));
    assert(t.subrange(4, 8) + t.subrange(8, 8 + n) =~= t.subrange(4, 8 + n));
}

/// Fewer than twelve bytes never hold a chunk; exactly twelve bytes with a zero
/// length, a valid type and the matching checksum hold one with an empty payload.
pub proof fn lemma_minimum_frame(b: Seq<u8>)
    ensures
        b.len() < 12 ==> parse_chunk_spec(b) == Err::<ChunkModel, PngError>(
            PngError::BufferTooShort,
        ),
        (b.len() == 12 && be_read(b) == 0 && is_type_tag(b.subrange(4, 8))
            && tag_is_reserved_bit_valid(b.subrange(4, 8)) && be_read(b.subrange(8, 12))
            == crc32_iso_hdlc(b.subrange(4, 8))) ==> (parse_chunk_spec(b) matches Ok(c)
            && c.length == 0 && c.data.len() == 0),
{
    if b.len() == 12 {
        assert(b.subrange(4, 8) + b.subrange(8, 8) =~= b.subrange(4, 8));
    }
}

} // verus!

verus! {

impl<'a> core::convert::TryFrom<&'a [u8]> for Chunk {
    type Error = PngError;

    fn try_from(bytes: &'a [u8]) -> Result<Chunk, PngError> {
        Chunk::try_from(bytes)
    }
}

/// The trait form promises nothing of its own; the inherent `try_from` carries the contract.
impl<'a> vstd::std_specs::convert::TryFromSpecImpl<&'a [u8]> for Chunk {
    open spec fn obeys_try_from_spec() -> bool {
        false
    }

    open spec fn try_from_spec(bytes: &'a [u8]) -> Result<Chunk, PngError> {
        vstd::pervasive::arbitrary()
    }
}

} // verus!
