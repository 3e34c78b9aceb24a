use crate::bytes::{from_be, push_all, read_be};
use crate::chunk::{chunk_text, lemma_parse_record_bytes, parse_record, record_bytes, valid_chunk, Chunk, ChunkView};
use crate::error::FormatError;
use crate::text::{all_ascii, ascii_chars, ascii_string};
use vstd::prelude::*;
use vstd::string::StringSliceAdditionalSpecFns;

verus! {

/// The eight bytes every PNG file starts with.
pub open spec fn signature() -> Seq<u8> {
    seq![137u8, 80u8, 78u8, 71u8, 13u8, 10u8, 26u8, 10u8]
}

/// The wire form of a sequence of chunks: their records, back to back.
pub open spec fn stream_bytes(cs: Seq<ChunkView>) -> Seq<u8>
    decreases cs.len(),
{
    if cs.len() == 0 {
        Seq::empty()
    } else {
        record_bytes(cs[0]) + stream_bytes(cs.subrange(1, cs.len() as int))
    }
}

/// The bytes of a whole file holding the chunks `cs`.
pub open spec fn png_bytes(cs: Seq<ChunkView>) -> Seq<u8> {
    signature() + stream_bytes(cs)
}

/// The result of reading the records of `s` from its start to its end.
pub open spec fn parse_stream(s: Seq<u8>) -> Result<Seq<ChunkView>, FormatError>
    decreases s.len(),
{
    if s.len() == 0 {
        Ok(Seq::empty())
    } else if s.len() < 12 || from_be(s) as int + 12 > s.len() {
        Err(FormatError::TruncatedChunk)
    } else {
        let k = from_be(s) as int + 12;
        match parse_record(s.subrange(0, k)) {
            Err(e) => Err(e),
            Ok(c) => match parse_stream(s.subrange(k, s.len() as int)) {
                Err(e) => Err(e),
                Ok(rest) => Ok(seq![c] + rest),
            },
        }
    }
}

/// The result of reading a whole file `b`.
pub open spec fn parse_png(b: Seq<u8>) -> Result<Seq<ChunkView>, FormatError> {
    if b.len() < 8 || b.subrange(0, 8) != signature() {
        Err(FormatError::BadSignature)
    } else {
        parse_stream(b.subrange(8, b.len() as int))
    }
}

/// `prefix` put in front of the chunks of a successful read.
pub open spec fn prepend(prefix: Seq<ChunkView>, r: Result<Seq<ChunkView>, FormatError>) -> Result<
    Seq<ChunkView>,
    FormatError,
> {
    match r {
        Ok(rest) => Ok(prefix + rest),
        Err(e) => Err(e),
    }
}

/// Some chunk of `cs` has the type `key`.
pub open spec fn has_type(cs: Seq<ChunkView>, key: Seq<u8>) -> bool {
    exists|i: int| 0 <= i < cs.len() && (#[trigger] cs[i]).0 == key
}

/// `i` is the position of the first chunk of `cs` whose type is `key`.
pub open spec fn is_first_of_type(cs: Seq<ChunkView>, key: Seq<u8>, i: int) -> bool {
    &&& 0 <= i < cs.len()
    &&& cs[i].0 == key
    &&& forall|j: int| 0 <= j < i ==> (#[trigger] cs[j]).0 != key
}

/// The views of a sequence of chunks.
pub open spec fn views(v: Seq<Chunk>) -> Seq<ChunkView> {
    v.map_values(|c: Chunk| c@)
}

/// The text form of a file's chunks: each chunk's text on a line of its own.
pub open spec fn png_text(cs: Seq<ChunkView>) -> Seq<u8>
    decreases cs.len(),
{
    if cs.len() == 0 {
        Seq::empty()
    } else {
        png_text(cs.drop_last()) + chunk_text(cs.last()) + seq![10u8]
    }
}

/// A PNG chunk stream: the fixed signature followed by chunks in file order.
#[derive(Debug)]
pub struct Png {
    chunks: Vec<Chunk>,
}

impl View for Png {
    type V = Seq<ChunkView>;

    closed spec fn view(&self) -> Seq<ChunkView> {
        views(self.chunks@)
    }
}

/// True when the four type bytes of `c` equal `key`.
fn type_is(c: &Chunk, key: &[u8]) -> (r: bool)
    ensures
        r == (c@.0 == key@),
{
    let tag = c.chunk_type().bytes();
    if key.len() != 4 {
        return false;
    }
    let r = tag[0] == key[0] && tag[1] == key[1] && tag[2] == key[2] && tag[3] == key[3];
    assert(r ==> tag@ =~= key@);
    r
}

impl Png {
    /// Reads a whole file: the signature, then chunk records up to the end.
    pub fn try_from(bytes: &[u8]) -> (r: Result<Png, FormatError>)
        ensures
            r matches Ok(p) ==> parse_png(bytes@) == Ok::<Seq<ChunkView>, FormatError>(p@),
            r matches Err(e) ==> parse_png(bytes@) == Err::<Seq<ChunkView>, FormatError>(e),
    {
        let len = bytes.len();
        if len < 8 || !(bytes[0] == 137 && bytes[1] == 80 && bytes[2] == 78 && bytes[3] == 71
            && bytes[4] == 13 && bytes[5] == 10 && bytes[6] == 26 && bytes[7] == 10) {
            proof {
                if len >= 8 && bytes@.subrange(0, 8) == signature() {
                    assert(bytes@[0] == bytes@.subrange(0, 8)[0]);
                    assert(bytes@[1] == bytes@.subrange(0, 8)[1]);
                    assert(bytes@[2] == bytes@.subrange(0, 8)[2]);
                    assert(bytes@[3] == bytes@.subrange(0, 8)[3]);
                    assert(bytes@[4] == bytes@.subrange(0, 8)[4]);
                    assert(bytes@[5] == bytes@.subrange(0, 8)[5]);
                    assert(bytes@[6] == bytes@.subrange(0, 8)[6]);
                    assert(bytes@[7] == bytes@.subrange(0, 8)[7]);
                }
            }
            return Err(FormatError::BadSignature);
        }
        assert(bytes@.subrange(0, 8) =~= signature());
        let mut chunks: Vec<Chunk> = Vec::new();
        let mut off: usize = 8;
        assert(views(chunks@) =~= Seq::<ChunkView>::empty());
        assert(prepend(Seq::empty(), parse_stream(bytes@.subrange(8, len as int))) =~= parse_stream(
            bytes@.subrange(8, len as int),
        )) by {
            match parse_stream(bytes@.subrange(8, len as int)) {
                Ok(rest) => {
                    assert(Seq::<ChunkView>::empty() + rest =~= rest);
                },
                Err(e) => {},
            }
        }
        while off < len
            invariant
                8 <= off <= len,
                len == bytes@.len(),
                parse_png(bytes@) == prepend(views(chunks@), parse_stream(bytes@.subrange(off as int, len as int))),
            decreases len - off,
        {
            let ghost s = bytes@.subrange(off as int, len as int);
            let remaining = len - off;
            if remaining < 12 {
                return Err(FormatError::TruncatedChunk);
            }
            let n = read_be(bytes, off);
            assert(from_be(s) == from_be(bytes@.subrange(off as int, off + 4))) by {
                assert(s[0] == bytes@[off as int]);
                assert(s[1] == bytes@[off + 1]);
                assert(s[2] == bytes@[off + 2]);
                assert(s[3] == bytes@[off + 3]);
            }
            if n as usize > remaining - 12 {
                return Err(FormatError::TruncatedChunk);
            }
            let k = n as usize + 12;
            assert(s.subrange(0, k as int) =~= bytes@.subrange(off as int, off + k));
            assert(s.subrange(k as int, s.len() as int) =~= bytes@.subrange(off + k, len as int));
            let record = &bytes[off..off + k];
            match Chunk::try_from(record) {
                Err(e) => {
                    return Err(e);
                },
                Ok(c) => {
                    let ghost before = views(chunks@);
                    chunks.push(c);
                    assert(views(chunks@) =~= before.push(c@));
                    off = off + k;
                    assert(prepend(views(chunks@), parse_stream(bytes@.subrange(off as int, len as int)))
                        == prepend(before, parse_stream(s))) by {
                        match parse_stream(bytes@.subrange(off as int, len as int)) {
                            Ok(rest) => {
                                assert(before + (seq![c@] + rest) =~= before.push(c@) + rest);
                            },
                            Err(e) => {},
                        }
                    }
                },
            }
        }
        assert(bytes@.subrange(off as int, len as int) =~= Seq::<u8>::empty());
        assert(views(chunks@) + Seq::<ChunkView>::empty() =~= views(chunks@));
        Ok(Png { chunks })
    }

    /// Adds a chunk after the existing ones.
    pub fn append_chunk(&mut self, chunk: Chunk)
        ensures
            final(self)@ == old(self)@.push(chunk@),
    {
        self.chunks.push(chunk);
        assert(views(self.chunks@) =~= views(old(self).chunks@).push(chunk@));
    }

    /// The position of the first chunk whose type bytes are `key`.
    fn position_of(&self, key: &[u8]) -> (r: Option<usize>)
        ensures
            r is None <==> !has_type(self@, key@),
            r matches Some(i) ==> is_first_of_type(self@, key@, i as int),
    {
        let mut i: usize = 0;
        while i < self.chunks.len()
            invariant
                i <= self.chunks@.len(),
                self@ == views(self.chunks@),
                forall|j: int| 0 <= j < i ==> (#[trigger] self@[j]).0 != key@,
            decreases self.chunks@.len() - i,
        {
            if type_is(&self.chunks[i], key) {
                assert(self@[i as int].0 == key@);
                return Some(i);
            }
            i = i + 1;
        }
        None
    }

    /// The first chunk whose type is spelled `chunk_type`, if any.
    pub fn chunk_by_type(&self, chunk_type: &str) -> (r: Option<&Chunk>)
        ensures
            r is None <==> !has_type(self@, chunk_type.spec_bytes()),
            r matches Some(c) ==> exists|i: int|
                is_first_of_type(self@, chunk_type.spec_bytes(), i) && c@ == #[trigger] self@[i],
    {
        match self.position_of(chunk_type.as_bytes()) {
            Some(i) => Some(&self.chunks[i]),
            None => None,
        }
    }

    /// Takes out the first chunk whose type is spelled `chunk_type`, keeping
    /// the others in order; fails and changes nothing when there is none.
    pub fn remove_first_chunk(&mut self, chunk_type: &str) -> (r: Result<Chunk, FormatError>)
        ensures
            r.is_ok() <==> has_type(old(self)@, chunk_type.spec_bytes()),
            r matches Ok(c) ==> exists|i: int|
                is_first_of_type(old(self)@, chunk_type.spec_bytes(), i) && c@ == #[trigger] old(
                    self,
                )@[i] && final(self)@ == old(self)@.remove(i),
            r matches Err(e) ==> e == FormatError::ChunkNotFound && final(self)@ == old(self)@,
    {
        match self.position_of(chunk_type.as_bytes()) {
            Some(i) => {
                let c = self.chunks.remove(i);
                assert(views(self.chunks@) =~= views(old(self).chunks@).remove(i as int));
                Ok(c)
            },
            None => Err(FormatError::ChunkNotFound),
        }
    }

    /// The chunks in file order.
    pub fn chunks(&self) -> (r: &[Chunk])
        ensures
            views(r@) == self@,
    {
        self.chunks.as_slice()
    }

    /// The chunks as text, one line each.
    pub fn to_string(&self) -> (r: String)
        ensures
            r@ == ascii_chars(png_text(self@)),
    {
        let mut out: Vec<u8> = Vec::new();
        let mut i: usize = 0;
        while i < self.chunks.len()
            invariant
                i <= self.chunks@.len(),
                self@ == views(self.chunks@),
                all_ascii(out@),
                out@ == png_text(self@.subrange(0, i as int)),
            decreases self.chunks@.len() - i,
        {
            self.chunks[i].push_text(&mut out);
            out.push(10u8);
            proof {
                let p = self@.subrange(0, i + 1);
                assert(p.drop_last() =~= self@.subrange(0, i as int));
                assert(p.last() == self@[i as int]);
                assert(out@ =~= png_text(p));
            }
            i = i + 1;
        }
        assert(self@.subrange(0, i as int) =~= self@);
        ascii_string(out)
    }

    /// The whole file: the signature followed by every chunk's record.
    pub fn as_bytes(&self) -> (r: Vec<u8>)
        ensures
            r@ == png_bytes(self@),
    {
        let mut out: Vec<u8> = vec![137u8, 80u8, 78u8, 71u8, 13u8, 10u8, 26u8, 10u8];
        assert(out@ =~= signature() + stream_bytes(self@.subrange(0, 0)));
        let mut i: usize = 0;
        while i < self.chunks.len()
            invariant
                i <= self.chunks@.len(),
                self@ == views(self.chunks@),
                out@ == signature() + stream_bytes(self@.subrange(0, i as int)),
            decreases self.chunks@.len() - i,
        {
            let rec = self.chunks[i].as_bytes();
            push_all(&mut out, rec.as_slice());
            proof {
                lemma_stream_bytes_push(self@.subrange(0, i as int), self@[i as int]);
                assert(self@.subrange(0, i as int).push(self@[i as int]) =~= self@.subrange(0, i + 1));
            }
            i = i + 1;
        }
        assert(self@.subrange(0, i as int) =~= self@);
        out
    }
}

/// Adding a chunk at the end adds its record at the end of the bytes.
pub proof fn lemma_stream_bytes_push(cs: Seq<ChunkView>, c: ChunkView)
    ensures
        stream_bytes(cs.push(c)) == stream_bytes(cs) + record_bytes(c),
    decreases cs.len(),
{
    if cs.len() == 0 {
        assert(cs.push(c).subrange(1, 1) =~= Seq::<ChunkView>::empty());
        assert(stream_bytes(Seq::<ChunkView>::empty()) == Seq::<u8>::empty());
        assert(cs.push(c)[0] == c);
        assert(cs.push(c).len() == 1);
        assert(stream_bytes(cs.push(c)) =~= record_bytes(c));
        assert(stream_bytes(cs) + record_bytes(c) =~= record_bytes(c));
    } else {
        let tail = cs.subrange(1, cs.len() as int);
        lemma_stream_bytes_push(tail, c);
        assert(cs.push(c).subrange(1, cs.len() as int + 1) =~= tail.push(c));
        assert(stream_bytes(cs.push(c)) =~= record_bytes(cs[0]) + (stream_bytes(tail) + record_bytes(c)));
    }
}

/// Every chunk of `cs` can be written.
pub open spec fn all_valid(cs: Seq<ChunkView>) -> bool {
    forall|i: int| 0 <= i < cs.len() ==> valid_chunk(#[trigger] cs[i])
}

/// Reading the records of valid chunks gives those chunks back.
pub proof fn lemma_parse_stream_bytes(cs: Seq<ChunkView>)
    requires
        all_valid(cs),
    ensures
        parse_stream(stream_bytes(cs)) == Ok::<Seq<ChunkView>, FormatError>(cs),
    decreases cs.len(),
{
    let s = stream_bytes(cs);
    if cs.len() == 0 {
        assert(s.len() == 0);
        assert(cs =~= Seq::<ChunkView>::empty());
    } else {
        let c = cs[0];
        let tail = cs.subrange(1, cs.len() as int);
        assert(valid_chunk(c));
        assert(all_valid(tail)) by {
            assert forall|i: int| 0 <= i < tail.len() implies valid_chunk(#[trigger] tail[i]) by {
                assert(tail[i] == cs[i + 1]);
            }
        }
        lemma_parse_stream_bytes(tail);
        lemma_parse_record_bytes(c);
        let rec = record_bytes(c);
        let k = rec.len() as int;
        assert(k == c.1.len() + 12);
        assert(s == rec + stream_bytes(tail));
        assert(s.subrange(0, k) =~= rec);
        assert(s.subrange(k, s.len() as int) =~= stream_bytes(tail));
        assert(from_be(s) == from_be(rec)) by {
            assert(s[0] == rec[0] && s[1] == rec[1] && s[2] == rec[2] && s[3] == rec[3]);
        }
        assert(s.len() >= k);
        assert(seq![c] + tail =~= cs);
        assert(parse_stream(s) == Ok::<Seq<ChunkView>, FormatError>(seq![c] + tail));
    }
}

/// Round trip: writing valid chunks as a file and reading it back gives the
/// same chunks in the same order.
pub proof fn lemma_png_bytes_round_trip(cs: Seq<ChunkView>)
    requires
        all_valid(cs),
    ensures
        parse_png(png_bytes(cs)) == Ok::<Seq<ChunkView>, FormatError>(cs),
{
    let b = png_bytes(cs);
    assert(b.subrange(0, 8) =~= signature());
    assert(b.subrange(8, b.len() as int) =~= stream_bytes(cs));
    lemma_parse_stream_bytes(cs);
}

/// A successful read yields only chunks that can be written.
pub proof fn lemma_parse_stream_valid(s: Seq<u8>)
    requires
        parse_stream(s) is Ok,
    ensures
        all_valid(parse_stream(s)->Ok_0),
    decreases s.len(),
{
    if s.len() != 0 {
        let k = from_be(s) as int + 12;
        let rec = s.subrange(0, k);
        let rest = s.subrange(k, s.len() as int);
        lemma_parse_stream_valid(rest);
        let c = parse_record(rec)->Ok_0;
        assert(from_be(rec) == from_be(s)) by {
            assert(s[0] == rec[0] && s[1] == rec[1] && s[2] == rec[2] && s[3] == rec[3]);
        }
        assert(valid_chunk(c));
        let cs = parse_stream(s)->Ok_0;
        let tail = parse_stream(rest)->Ok_0;
        assert(cs == seq![c] + tail);
        assert forall|i: int| 0 <= i < cs.len() implies valid_chunk(#[trigger] cs[i]) by {
            if i > 0 {
                assert(cs[i] == tail[i - 1]);
            }
        }
    }
}

/// Round trip: any file that reads successfully, written out again, reads
/// back as the same signature and the same chunks in the same order.
pub proof fn lemma_png_round_trip(b: Seq<u8>, cs: Seq<ChunkView>)
    requires
        parse_png(b) == Ok::<Seq<ChunkView>, FormatError>(cs),
    ensures
        parse_png(png_bytes(cs)) == Ok::<Seq<ChunkView>, FormatError>(cs),
{
    lemma_parse_stream_valid(b.subrange(8, b.len() as int));
    lemma_png_bytes_round_trip(cs);
}

/// A buffer that does not start with the signature, the empty one among
/// them, is refused as a bad signature.
pub proof fn lemma_bad_signature(b: Seq<u8>)
    requires
        b.len() < 8 || b.subrange(0, 8) != signature(),
    ensures
        parse_png(b) == Err::<Seq<ChunkView>, FormatError>(FormatError::BadSignature),
{
}

} // verus!
