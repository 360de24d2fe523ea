use crate::checksum::{crc32, crc32_of};
use crate::chunk_type::{is_legal_tag, tag_from_bytes_spec, ChunkType, ChunkTypeError};
use crate::encoding::decode_text;
use crate::endian::{
    be_bytes, be_u32, lemma_be_u32_of_bytes, push_be_u32, read_be_u32,
};
use vstd::prelude::*;
use vstd::utf8::{decode_utf8, valid_utf8};

verus! {

/// Bytes of a record that are not payload: length, type and checksum.
pub const FRAME_LEN: usize = 12;

/// Why a record could not be read or decoded.
#[derive(Debug, Clone, Copy, PartialEq, Eq, Structural)]
pub enum ChunkError {
    /// Fewer bytes are available than the record needs.
    TruncatedInput,
    /// The four type bytes do not form a legal chunk type.
    InvalidTag(ChunkTypeError),
    /// The stored checksum differs from the one computed over type and data.
    ChecksumMismatch,
    /// Bytes follow the record where exactly one record was expected.
    TrailingBytes,
    /// The payload is not valid UTF-8.
    InvalidEncoding,
}

/// The abstract content of a record.
pub struct ChunkView {
    pub length: u32,
    pub chunk_type: Seq<u8>,
    pub data: Seq<u8>,
    pub crc: u32,
}

/// The record that holds `data` under type `tag`, with its checksum computed.
pub open spec fn build_spec(tag: Seq<u8>, data: Seq<u8>) -> ChunkView {
    ChunkView { length: data.len() as u32, chunk_type: tag, data, crc: crc32_of(tag + data) }
}

/// The wire form of a record: length, type, data and checksum, integers big-endian.
pub open spec fn record_bytes(c: ChunkView) -> Seq<u8> {
    be_bytes(c.length) + c.chunk_type + c.data + be_bytes(c.crc)
}

/// The payload length that the first four bytes of `b` declare.
pub open spec fn declared_length(b: Seq<u8>) -> int {
    be_u32(b.subrange(0, 4)) as int
}

/// The record at the start of `b`; bytes after it are not looked at.
#[verifier::opaque]
pub open spec fn read_spec(b: Seq<u8>) -> Result<ChunkView, ChunkError> {
    if b.len() < 12 || b.len() < 12 + declared_length(b) {
        Err(ChunkError::TruncatedInput)
    } else {
        let len = declared_length(b);
        let tag = b.subrange(4, 8);
        let data = b.subrange(8, 8 + len);
        let stored = be_u32(b.subrange(8 + len, 12 + len));
        match tag_from_bytes_spec(tag) {
            Err(e) => Err(ChunkError::InvalidTag(e)),
            Ok(_) => if stored != crc32_of(tag + data) {
                Err(ChunkError::ChecksumMismatch)
            } else {
                Ok(ChunkView { length: len as u32, chunk_type: tag, data, crc: stored })
            },
        }
    }
}

/// The one record that `b` holds, with nothing after it.
pub open spec fn parse_spec(b: Seq<u8>) -> Result<ChunkView, ChunkError> {
    match read_spec(b) {
        Ok(c) => if b.len() > 12 + c.length {
            Err(ChunkError::TrailingBytes)
        } else {
            Ok(c)
        },
        Err(e) => Err(e),
    }
}

/// The record that starts at offset `pos` of `b`.
pub open spec fn read_at_spec(b: Seq<u8>, pos: int) -> Result<ChunkView, ChunkError> {
    if pos > b.len() {
        Err(ChunkError::TruncatedInput)
    } else {
        read_spec(b.subrange(pos, b.len() as int))
    }
}

/// A record whose length matches its payload, whose type is legal and whose
/// checksum covers its type and payload.
pub open spec fn wf_view(c: ChunkView) -> bool {
    &&& c.data.len() == c.length as nat
    &&& is_legal_tag(c.chunk_type)
    &&& c.crc == crc32_of(c.chunk_type + c.data)
}

/// A well-formed record is read back from its wire form, whatever follows it.
pub proof fn lemma_read_record_prefix(c: ChunkView, rest: Seq<u8>)
    requires
        wf_view(c),
    ensures
        read_spec(record_bytes(c) + rest) == Ok::<ChunkView, ChunkError>(c),
{
    reveal(read_spec);
    let b = record_bytes(c) + rest;
    let len = c.length as int;
    assert(b.subrange(0, 4) =~= be_bytes(c.length));
    lemma_be_u32_of_bytes(c.length);
    assert(b.subrange(4, 8) =~= c.chunk_type);
    assert(b.subrange(8, 8 + len) =~= c.data);
    assert(b.subrange(8 + len, 12 + len) =~= be_bytes(c.crc));
    lemma_be_u32_of_bytes(c.crc);
}

/// Parsing the wire form of a well-formed record gives the record back.
pub proof fn lemma_parse_record_bytes(c: ChunkView)
    requires
        wf_view(c),
    ensures
        parse_spec(record_bytes(c)) == Ok::<ChunkView, ChunkError>(c),
{
    let b = record_bytes(c);
    lemma_read_record_prefix(c, Seq::empty());
    assert(b + Seq::<u8>::empty() =~= b);
    assert(read_spec(b) == Ok::<ChunkView, ChunkError>(c));
    assert(b.len() == 12 + c.length);
}

/// For every legal type and every payload that fits the length field, parsing the
/// wire form of the built record succeeds and gives that record back, field for field.
pub proof fn lemma_round_trip(tag: Seq<u8>, data: Seq<u8>)
    requires
        is_legal_tag(tag),
        data.len() <= u32::MAX,
    ensures
        parse_spec(record_bytes(build_spec(tag, data))) == Ok::<ChunkView, ChunkError>(
            build_spec(tag, data),
        ),
{
    lemma_parse_record_bytes(build_spec(tag, data));
}

/// Flip one bit of the type or payload of a built record, keeping the stored
/// checksum, so that the type stays legal: parsing then fails with
/// `ChecksumMismatch` exactly when the checksum of the altered type and payload
/// differs from the stored one, and otherwise yields the altered record.
pub proof fn lemma_flipped_bit(tag: Seq<u8>, data: Seq<u8>, i: int, bit: u8)
    requires
        is_legal_tag(tag),
        data.len() <= u32::MAX,
        4 <= i < 8 + data.len(),
        bit == 1 || bit == 2 || bit == 4 || bit == 8 || bit == 16 || bit == 32 || bit == 64
            || bit == 128,
        is_legal_tag(
            record_bytes(build_spec(tag, data)).update(
                i,
                record_bytes(build_spec(tag, data))[i] ^ bit,
            ).subrange(4, 8),
        ),
    ensures
        ({
            let c = build_spec(tag, data);
            let b = record_bytes(c);
            let f = b.update(i, b[i] ^ bit);
            let altered = f.subrange(4, 8 + data.len() as int);
            &&& altered != tag + data
            &&& crc32_of(altered) != c.crc ==> parse_spec(f) == Err::<ChunkView, ChunkError>(
                ChunkError::ChecksumMismatch,
            )
            &&& crc32_of(altered) == c.crc ==> parse_spec(f) == Ok::<ChunkView, ChunkError>(
                ChunkView {
                    length: c.length,
                    chunk_type: altered.subrange(0, 4),
                    data: altered.subrange(4, altered.len() as int),
                    crc: c.crc,
                },
            )
        }),
{
    reveal(read_spec);
    let c = build_spec(tag, data);
    let b = record_bytes(c);
    let f = b.update(i, b[i] ^ bit);
    let len = c.length as int;
    let altered = f.subrange(4, 8 + len);
    let x = b[i];
    assert(x ^ bit != x) by (bit_vector)
        requires
            bit == 1 || bit == 2 || bit == 4 || bit == 8 || bit == 16 || bit == 32 || bit == 64
                || bit == 128,
    ;
    assert(b.subrange(4, 8 + len) =~= tag + data);
    assert(altered[i - 4] != (tag + data)[i - 4]);
    assert(f.subrange(0, 4) =~= b.subrange(0, 4));
    assert(b.subrange(0, 4) =~= be_bytes(c.length));
    lemma_be_u32_of_bytes(c.length);
    assert(f.subrange(8 + len, 12 + len) =~= be_bytes(c.crc));
    lemma_be_u32_of_bytes(c.crc);
    assert(f.subrange(4, 8) + f.subrange(8, 8 + len) =~= altered);
    assert(altered.subrange(0, 4) =~= f.subrange(4, 8));
    assert(altered.subrange(4, altered.len() as int) =~= f.subrange(8, 8 + len));
}

/// A buffer shorter than twelve bytes plus the length it declares is rejected as
/// truncated, by both readers.
pub proof fn lemma_truncated(b: Seq<u8>)
    requires
        b.len() < 12 || b.len() < 12 + declared_length(b),
    ensures
        read_spec(b) == Err::<ChunkView, ChunkError>(ChunkError::TruncatedInput),
        parse_spec(b) == Err::<ChunkView, ChunkError>(ChunkError::TruncatedInput),
{
    reveal(read_spec);
}

/// Two well-formed records back to back: parsing the whole buffer as one record
/// fails with `TrailingBytes`, while reading at offset zero and then right after
/// the first record gives each record in turn.
pub proof fn lemma_back_to_back(c1: ChunkView, c2: ChunkView)
    requires
        wf_view(c1),
        wf_view(c2),
    ensures
        ({
            let b = record_bytes(c1) + record_bytes(c2);
            &&& parse_spec(b) == Err::<ChunkView, ChunkError>(ChunkError::TrailingBytes)
            &&& read_at_spec(b, 0) == Ok::<ChunkView, ChunkError>(c1)
            &&& read_at_spec(b, record_bytes(c1).len() as int) == Ok::<ChunkView, ChunkError>(c2)
        }),
{
    let r1 = record_bytes(c1);
    let r2 = record_bytes(c2);
    let b = r1 + r2;
    lemma_read_record_prefix(c1, r2);
    lemma_read_record_prefix(c2, Seq::empty());
    assert(b.subrange(0, b.len() as int) =~= b);
    assert(b.subrange(r1.len() as int, b.len() as int) =~= r2 + Seq::<u8>::empty());
}

/// A record read at `pos` is what parsing exactly its own bytes gives.
pub proof fn lemma_read_is_parse_of_window(b: Seq<u8>, pos: int)
    requires
        0 <= pos,
        read_at_spec(b, pos) is Ok,
    ensures
        ({
            let c = read_at_spec(b, pos)->Ok_0;
            &&& pos + 12 + c.length <= b.len()
            &&& parse_spec(b.subrange(pos, pos + 12 + c.length)) == Ok::<ChunkView, ChunkError>(c)
        }),
{
    reveal(read_spec);
    let t = b.subrange(pos, b.len() as int);
    assert(0 <= pos <= b.len());
    assert(read_spec(t) is Ok);
    let len = declared_length(t);
    assert(t.len() >= 12 + len);
    let w = t.subrange(0, 12 + len);
    assert(w =~= b.subrange(pos, pos + 12 + len));
    assert(w.subrange(0, 4) =~= t.subrange(0, 4));
    assert(w.subrange(4, 8) =~= t.subrange(4, 8));
    assert(w.subrange(8, 8 + len) =~= t.subrange(8, 8 + len));
    assert(w.subrange(8 + len, 12 + len) =~= t.subrange(8 + len, 12 + len));
}

/// A result with the record replaced by its view.
pub open spec fn result_view(r: Result<Chunk, ChunkError>) -> Result<ChunkView, ChunkError> {
    match r {
        Ok(c) => Ok(c@),
        Err(e) => Err(e),
    }
}

/// A record: a payload under a chunk type, with the payload's length and a checksum
/// over type and payload.
#[derive(Debug)]
pub struct Chunk {
    length: u32,
    chunk_type: ChunkType,
    chunk_data: Vec<u8>,
    crc: u32,
}

impl View for Chunk {
    type V = ChunkView;

    closed spec fn view(&self) -> ChunkView {
        ChunkView {
            length: self.length,
            chunk_type: self.chunk_type@,
            data: self.chunk_data@,
            crc: self.crc,
        }
    }
}

impl Chunk {
    /// A record whose view is `c`.
    pub closed spec fn with_view(c: ChunkView) -> Chunk {
        choose|r: Chunk| r@ == c
    }

    #[verifier::type_invariant]
    closed spec fn inv(self) -> bool {
        &&& self.chunk_data@.len() == self.length as nat
        &&& is_legal_tag(self.chunk_type@)
        &&& self.crc == crc32_of(self.chunk_type@ + self.chunk_data@)
    }

    /// Builds the record for `data` under `chunk_type`, computing its checksum.
    pub fn new(chunk_type: ChunkType, data: Vec<u8>) -> (r: Chunk)
        requires
            data@.len() <= u32::MAX,
        ensures
            r@ == build_spec(chunk_type@, data@),
    {
        let crc = Chunk::crc_checksum(&chunk_type, data.as_slice());
        Chunk { length: data.len() as u32, chunk_type, chunk_data: data, crc }
    }

    /// The payload length.
    pub fn length(&self) -> (r: u32)
        ensures
            r == self@.length,
            r as nat == self@.data.len(),
    {
        proof {
            use_type_invariant(self);
        }
        self.length
    }

    /// The chunk type.
    pub fn chunk_type(&self) -> (r: &ChunkType)
        ensures
            r@ == self@.chunk_type,
    {
        &self.chunk_type
    }

    /// The payload.
    pub fn data(&self) -> (r: &[u8])
        ensures
            r@ == self@.data,
    {
        self.chunk_data.as_slice()
    }

    /// The checksum over type and payload.
    pub fn crc(&self) -> (r: u32)
        ensures
            r == self@.crc,
            r == crc32_of(self@.chunk_type + self@.data),
    {
        proof {
            use_type_invariant(self);
        }
        self.crc
    }

    /// The payload decoded as UTF-8 text.
    pub fn data_as_string(&self) -> (r: Result<String, ChunkError>)
        ensures
            r is Ok <==> valid_utf8(self@.data),
            r is Ok ==> r->Ok_0@ == decode_utf8(self@.data),
            r is Err ==> r->Err_0 == ChunkError::InvalidEncoding,
    {
        let bytes = vstd::slice::slice_to_vec(self.chunk_data.as_slice());
        match decode_text(bytes) {
            Some(text) => Ok(text),
            None => Err(ChunkError::InvalidEncoding),
        }
    }

    /// The wire form: length and type, the payload, then the checksum.
    pub fn as_bytes(&self) -> (r: Vec<u8>)
        ensures
            r@ == record_bytes(self@),
            parse_spec(r@) == Ok::<ChunkView, ChunkError>(self@),
    {
        proof {
            use_type_invariant(self);
            lemma_parse_record_bytes(self@);
        }
        let mut out: Vec<u8> = Vec::new();
        push_be_u32(&mut out, self.length);
        let tag = self.chunk_type.bytes();
        out.push(tag[0]);
        out.push(tag[1]);
        out.push(tag[2]);
        out.push(tag[3]);
        append_bytes(&mut out, self.chunk_data.as_slice());
        push_be_u32(&mut out, self.crc);
        assert(out@ =~= record_bytes(self@));
        out
    }

    /// Reads exactly one record: `bytes` must hold the record and nothing after it.
    pub fn parse_one(bytes: &[u8]) -> (r: Result<Chunk, ChunkError>)
        ensures
            result_view(r) == parse_spec(bytes@),
    {
        assert(bytes@.subrange(0, bytes@.len() as int) =~= bytes@);
        match Chunk::decode_at(bytes, 0) {
            Ok(c) => {
                proof {
                    use_type_invariant(&c);
                }
                if bytes.len() - FRAME_LEN > c.length as usize {
                    Err(ChunkError::TrailingBytes)
                } else {
                    Ok(c)
                }
            },
            Err(e) => Err(e),
        }
    }

    /// Reads the record that starts at `*pos` in `bytes`; bytes after it may follow.
    /// On success `*pos` moves past the record; on failure it stays.
    pub fn read_chunk(bytes: &[u8], pos: &mut usize) -> (r: Result<Chunk, ChunkError>)
        ensures
            result_view(r) == read_at_spec(bytes@, *old(pos) as int),
            r is Ok ==> *final(pos) == *old(pos) + 12 + r->Ok_0@.length,
            r is Err ==> *final(pos) == *old(pos),
    {
        let start = *pos;
        let r = Chunk::decode_at(bytes, start);
        match r {
            Ok(c) => {
                let total = bytes.len();
                assert(start + 12 + c@.length <= total);
                *pos = start + FRAME_LEN + c.length as usize;
                Ok(c)
            },
            Err(e) => Err(e),
        }
    }

    /// Decodes the record that starts at offset `start` of `bytes`.
    fn decode_at(bytes: &[u8], start: usize) -> (r: Result<Chunk, ChunkError>)
        ensures
            result_view(r) == read_at_spec(bytes@, start as int),
            r is Ok ==> start + 12 + r->Ok_0@.length <= bytes@.len(),
    {
        reveal(read_spec);
        if start > bytes.len() {
            return Err(ChunkError::TruncatedInput);
        }
        let ghost b = bytes@.subrange(start as int, bytes@.len() as int);
        let avail = bytes.len() - start;
        if avail < FRAME_LEN {
            return Err(ChunkError::TruncatedInput);
        }
        let length = read_be_u32(bytes, start);
        assert(b.subrange(0, 4) =~= bytes@.subrange(start as int, start + 4));
        if avail - FRAME_LEN < length as usize {
            return Err(ChunkError::TruncatedInput);
        }
        let tag = [bytes[start + 4], bytes[start + 5], bytes[start + 6], bytes[start + 7]];
        assert(tag@ =~= b.subrange(4, 8));
        let chunk_type = match ChunkType::from_bytes(tag) {
            Ok(t) => t,
            Err(e) => {
                return Err(ChunkError::InvalidTag(e));
            },
        };
        let data_end = start + 8 + length as usize;
        let stored = read_be_u32(bytes, data_end);
        assert(b.subrange(8 + length, 12 + length) =~= bytes@.subrange(
            data_end as int,
            data_end + 4,
        ));
        let computed = crc32(&bytes[start + 4..data_end]);
        assert(bytes@.subrange(start + 4, data_end as int) =~= b.subrange(4, 8) + b.subrange(
            8,
            8 + length,
        ));
        if stored != computed {
            return Err(ChunkError::ChecksumMismatch);
        }
        let data = vstd::slice::slice_to_vec(&bytes[start + 8..data_end]);
        assert(data@ =~= b.subrange(8, 8 + length));
        Ok(Chunk { length, chunk_type, chunk_data: data, crc: stored })
    }

    /// The checksum of the type bytes followed by `data`.
    fn crc_checksum(chunk_type: &ChunkType, data: &[u8]) -> (r: u32)
        ensures
            r == crc32_of(chunk_type@ + data@),
            is_legal_tag(chunk_type@),
    {
        let tag = chunk_type.bytes();
        let mut covered: Vec<u8> = Vec::new();
        covered.push(tag[0]);
        covered.push(tag[1]);
        covered.push(tag[2]);
        covered.push(tag[3]);
        append_bytes(&mut covered, data);
        assert(covered@ =~= chunk_type@ + data@);
        crc32(covered.as_slice())
    }
}

impl<'a> TryFrom<&'a [u8]> for Chunk {
    type Error = ChunkError;

    /// Reads exactly one record, as [`Chunk::parse_one`] does.
    fn try_from(value: &'a [u8]) -> (r: Result<Chunk, ChunkError>)
        ensures
            result_view(r) == parse_spec(value@),
    {
        Chunk::parse_one(value)
    }
}

/// Records are described by their views (see the `ensures` of `try_from` above):
/// two records with equal views are not known to be the same value, so no claim is
/// made that `try_from` returns `try_from_spec` itself.
impl<'a> vstd::std_specs::convert::TryFromSpecImpl<&'a [u8]> for Chunk {
    open spec fn obeys_try_from_spec() -> bool {
        false
    }

    open spec fn try_from_spec(v: &'a [u8]) -> Result<Chunk, ChunkError> {
        match parse_spec(v@) {
            Ok(c) => Ok(Chunk::with_view(c)),
            Err(e) => Err(e),
        }
    }
}

/// Appends every byte of `src` to `out`.
fn append_bytes(out: &mut Vec<u8>, src: &[u8])
    ensures
        final(out)@ == old(out)@ + src@,
{
    let mut i: usize = 0;
    while i < src.len()
        invariant
            0 <= i <= src@.len(),
            out@ == old(out)@ + src@.subrange(0, i as int),
        decreases src@.len() - i,
    {
        out.push(src[i]);
        i = i + 1;
        assert(out@ =~= old(out)@ + src@.subrange(0, i as int));
    }
    assert(src@.subrange(0, i as int) =~= src@);
}

} // verus!
