use crate::bytes::{be_bytes, copy_range, from_be, lemma_from_be_of_be_bytes, push_all, push_be, read_be};
use crate::chunk_type::{is_tag, ChunkType};
use crate::error::FormatError;
use crate::text::{all_ascii, ascii_chars, ascii_string, bracketed_list, push_bracketed_list, string_from_utf8};
use vstd::prelude::*;
use vstd::utf8::{decode_utf8, valid_utf8};

verus! {

/// The CRC-32 (ISO-HDLC) checksum of a byte sequence.
pub uninterp spec fn crc32_of(b: Seq<u8>) -> u32;

/// Relies on `crc::Crc::<u32>::checksum` with `CRC_32_ISO_HDLC`: the checksum
/// depends on the bytes alone.
#[verifier::external_body]
fn crc32(bytes: &[u8]) -> (r: u32)
    ensures
        r == crc32_of(bytes@),
{
    crc::Crc::<u32>::new(&crc::CRC_32_ISO_HDLC).checksum(bytes)
}

/// What a chunk holds: its four type bytes and its data.
pub type ChunkView = (Seq<u8>, Seq<u8>);

/// A chunk that can be written: a well-formed type and data whose length
/// fits the 32-bit length field.
pub open spec fn valid_chunk(c: ChunkView) -> bool {
    is_tag(c.0) && c.1.len() <= u32::MAX
}

/// The checksum stored with a chunk: over its type bytes and then its data.
pub open spec fn chunk_crc(c: ChunkView) -> u32 {
    crc32_of(c.0 + c.1)
}

/// The wire form of a chunk: length, type, data and checksum.
pub open spec fn record_bytes(c: ChunkView) -> Seq<u8> {
    be_bytes(c.1.len() as u32) + c.0 + c.1 + be_bytes(chunk_crc(c))
}

/// The result of reading one complete chunk record `s`.
pub open spec fn parse_record(s: Seq<u8>) -> Result<ChunkView, FormatError> {
    if s.len() < 12 {
        Err(FormatError::TooShort)
    } else if from_be(s) as int != s.len() - 12 {
        Err(FormatError::TruncatedChunk)
    } else if !is_tag(s.subrange(4, 8)) {
        Err(FormatError::InvalidChunkType)
    } else if crc32_of(s.subrange(4, s.len() - 4)) != from_be(s.subrange(s.len() - 4, s.len() as int)) {
        Err(FormatError::ChecksumMismatch)
    } else {
        Ok((s.subrange(4, 8), s.subrange(8, s.len() - 4)))
    }
}

/// The text form of a chunk: its type in brackets, then its data as a list
/// of decimal numbers, e.g. `[RuSt] [104, 105]`.
pub open spec fn chunk_text(c: ChunkView) -> Seq<u8> {
    seq![91u8] + c.0 + seq![93u8, 32u8] + bracketed_list(c.1)
}

/// A typed, checksummed block of data.
#[derive(Debug)]
pub struct Chunk {
    chunk_type: ChunkType,
    data: Vec<u8>,
}

impl View for Chunk {
    type V = ChunkView;

    closed spec fn view(&self) -> ChunkView {
        (self.chunk_type@, self.data@)
    }
}

impl Chunk {
    /// Every chunk has a well-formed type and a length that fits 32 bits.
    #[verifier::type_invariant]
    pub open spec fn well_formed(&self) -> bool {
        valid_chunk(self@)
    }

    /// A chunk of the given type holding `data`.
    pub fn new(chunk_type: ChunkType, data: Vec<u8>) -> (r: Chunk)
        requires
            data@.len() <= u32::MAX,
        ensures
            r@ == (chunk_type@, data@),
    {
        proof {
            use_type_invariant(&chunk_type);
        }
        Chunk { chunk_type, data }
    }

    /// The number of data bytes.
    pub fn length(&self) -> (r: u32)
        ensures
            r == self@.1.len(),
    {
        proof {
            use_type_invariant(self);
        }
        self.data.len() as u32
    }

    /// The chunk's type.
    pub fn chunk_type(&self) -> (r: &ChunkType)
        ensures
            r@ == self@.0,
    {
        &self.chunk_type
    }

    /// The chunk's data.
    pub fn data(&self) -> (r: &[u8])
        ensures
            r@ == self@.1,
    {
        self.data.as_slice()
    }

    /// The checksum over the type bytes followed by the data.
    pub fn crc(&self) -> (r: u32)
        ensures
            r == chunk_crc(self@),
    {
        let tag = self.chunk_type.bytes();
        let mut covered: Vec<u8> = Vec::new();
        push_all(&mut covered, tag.as_slice());
        push_all(&mut covered, self.data.as_slice());
        crc32(covered.as_slice())
    }

    /// The data read as UTF-8 text.
    pub fn data_as_string(&self) -> (r: Result<String, FormatError>)
        ensures
            r.is_ok() <==> valid_utf8(self@.1),
            r matches Ok(s) ==> s@ == decode_utf8(self@.1),
            r matches Err(e) ==> e == FormatError::InvalidUtf8,
    {
        match string_from_utf8(self.data.clone()) {
            Some(s) => Ok(s),
            None => Err(FormatError::InvalidUtf8),
        }
    }

    /// The chunk's wire form: length, type, data and checksum.
    pub fn as_bytes(&self) -> (r: Vec<u8>)
        ensures
            r@ == record_bytes(self@),
    {
        let tag = self.chunk_type.bytes();
        let mut out: Vec<u8> = Vec::new();
        push_be(&mut out, self.length());
        push_all(&mut out, tag.as_slice());
        push_all(&mut out, self.data.as_slice());
        push_be(&mut out, self.crc());
        out
    }

    /// Appends the text form of the chunk.
    pub(crate) fn push_text(&self, out: &mut Vec<u8>)
        requires
            all_ascii(old(out)@),
        ensures
            final(out)@ == old(out)@ + chunk_text(self@),
            all_ascii(final(out)@),
    {
        proof {
            use_type_invariant(self);
        }
        let ghost start = out@;
        let tag = self.chunk_type.bytes();
        out.push(91u8);
        let mut i: usize = 0;
        while i < 4
            invariant
                i <= 4,
                tag@ == self@.0,
                is_tag(self@.0),
                all_ascii(out@),
                out@ == start + seq![91u8] + tag@.subrange(0, i as int),
            decreases 4 - i,
        {
            assert(crate::chunk_type::is_letter(tag@[i as int]));
            out.push(tag[i]);
            i = i + 1;
            assert(out@ =~= start + seq![91u8] + tag@.subrange(0, i as int));
        }
        out.push(93u8);
        out.push(32u8);
        push_bracketed_list(out, self.data.as_slice());
        assert(tag@.subrange(0, 4) =~= tag@);
        assert(final(out)@ =~= start + chunk_text(self@));
    }

    /// The chunk as text: its type in brackets, then its data as numbers.
    pub fn to_string(&self) -> (r: String)
        ensures
            r@ == ascii_chars(chunk_text(self@)),
    {
        let mut out: Vec<u8> = Vec::new();
        self.push_text(&mut out);
        assert(out@ =~= chunk_text(self@));
        ascii_string(out)
    }

    /// Reads one complete chunk record.
    pub fn try_from(bytes: &[u8]) -> (r: Result<Chunk, FormatError>)
        ensures
            r matches Ok(c) ==> parse_record(bytes@) == Ok::<ChunkView, FormatError>(c@),
            r matches Err(e) ==> parse_record(bytes@) == Err::<ChunkView, FormatError>(e),
    {
        let len = bytes.len();
        if len < 12 {
            return Err(FormatError::TooShort);
        }
        let declared = read_be(bytes, 0);
        assert(bytes@.subrange(0, 4) =~= bytes@.subrange(0, 4).subrange(0, 4));
        assert(from_be(bytes@) == from_be(bytes@.subrange(0, 4)));
        if declared as usize != len - 12 {
            return Err(FormatError::TruncatedChunk);
        }
        let tag: [u8; 4] = [bytes[4], bytes[5], bytes[6], bytes[7]];
        assert(tag@ =~= bytes@.subrange(4, 8));
        let chunk_type = match ChunkType::try_from(tag) {
            Ok(t) => t,
            Err(e) => return Err(e),
        };
        let data = copy_range(bytes, 8, len - 4);
        let chunk = Chunk::new(chunk_type, data);
        let stored = read_be(bytes, len - 4);
        assert(chunk@.0 + chunk@.1 =~= bytes@.subrange(4, len - 4));
        if chunk.crc() != stored {
            Err(FormatError::ChecksumMismatch)
        } else {
            Ok(chunk)
        }
    }
}

/// Reading the wire form of a valid chunk gives that chunk back.
pub proof fn lemma_parse_record_bytes(c: ChunkView)
    requires
        valid_chunk(c),
    ensures
        parse_record(record_bytes(c)) == Ok::<ChunkView, FormatError>(c),
        record_bytes(c).len() == c.1.len() + 12,
        from_be(record_bytes(c)) as int == c.1.len(),
{
    let s = record_bytes(c);
    let n = c.1.len();
    lemma_from_be_of_be_bytes(n as u32);
    lemma_from_be_of_be_bytes(chunk_crc(c));
    assert(s.len() == n + 12);
    assert(s.subrange(0, 4) =~= be_bytes(n as u32));
    assert(from_be(s) == from_be(s.subrange(0, 4)));
    assert(s.subrange(4, 8) =~= c.0);
    assert(s.subrange(8, s.len() - 4) =~= c.1);
    assert(s.subrange(4, s.len() - 4) =~= c.0 + c.1);
    assert(s.subrange(s.len() - 4, s.len() as int) =~= be_bytes(chunk_crc(c)));
}

/// Changing one data byte in a chunk's wire form is reported as a checksum
/// mismatch whenever the change alters the checksum over type and data.
pub proof fn lemma_changed_data_rejected(c: ChunkView, i: int, v: u8)
    requires
        valid_chunk(c),
        0 <= i < c.1.len(),
        crc32_of(c.0 + c.1.update(i, v)) != chunk_crc(c),
    ensures
        parse_record(record_bytes(c).update(8 + i, v)) == Err::<ChunkView, FormatError>(
            FormatError::ChecksumMismatch,
        ),
{
    let s = record_bytes(c);
    let t = s.update(8 + i, v);
    let n = c.1.len();
    lemma_from_be_of_be_bytes(n as u32);
    lemma_from_be_of_be_bytes(chunk_crc(c));
    assert(t.subrange(0, 4) =~= be_bytes(n as u32));
    assert(from_be(t) == from_be(t.subrange(0, 4)));
    assert(t.subrange(4, 8) =~= c.0);
    assert(t.subrange(4, t.len() - 4) =~= c.0 + c.1.update(i, v));
    assert(t.subrange(t.len() - 4, t.len() as int) =~= be_bytes(chunk_crc(c)));
}

/// Round trip: reading a chunk's bytes gives back the same chunk.
pub proof fn lemma_chunk_round_trip(k: Chunk)
    requires
        valid_chunk(k@),
    ensures
        parse_record(record_bytes(k@)) == Ok::<ChunkView, FormatError>(k@),
{
    lemma_parse_record_bytes(k@);
}

} // verus!
