use crate::bytes::copy_range;
use crate::chunk::{chunk_text, Chunk};
use crate::chunk_type::{is_tag, ChunkType};
use crate::error::FormatError;
use crate::png::{has_type, is_first_of_type, parse_png, png_bytes, png_text, Png};
use crate::text::ascii_chars;
use vstd::prelude::*;
use vstd::string::StringSliceAdditionalSpecFns;

verus! {

/// The chunk type spelled by the bytes `s`, or why there is none.
pub open spec fn type_from_text(s: Seq<u8>) -> Result<Seq<u8>, FormatError> {
    if s.len() != 4 {
        Err(FormatError::InvalidLength)
    } else if !is_tag(s) {
        Err(FormatError::InvalidChunkType)
    } else {
        Ok(s)
    }
}

/// The file `file` with a chunk of type `tag` holding `message` added at
/// the end.
pub open spec fn encoded(file: Seq<u8>, tag: Seq<u8>, message: Seq<u8>) -> Result<Seq<u8>, FormatError> {
    match parse_png(file) {
        Err(e) => Err(e),
        Ok(cs) => match type_from_text(tag) {
            Err(e) => Err(e),
            Ok(t) => Ok(png_bytes(cs.push((t, message)))),
        },
    }
}

/// Hides `message` in a new chunk of type `chunk_type` at the end of the
/// file `file`, and returns the new file.
pub fn encode(file: &[u8], chunk_type: &str, message: &str) -> (r: Result<Vec<u8>, FormatError>)
    requires
        message.spec_bytes().len() <= u32::MAX,
    ensures
        r matches Ok(v) ==> encoded(file@, chunk_type.spec_bytes(), message.spec_bytes())
            == Ok::<Seq<u8>, FormatError>(v@),
        r matches Err(e) ==> encoded(file@, chunk_type.spec_bytes(), message.spec_bytes())
            == Err::<Seq<u8>, FormatError>(e),
{
    let mut png = match Png::try_from(file) {
        Ok(p) => p,
        Err(e) => return Err(e),
    };
    let t = match ChunkType::from_str(chunk_type) {
        Ok(t) => t,
        Err(e) => return Err(e),
    };
    let bytes = message.as_bytes();
    let data = copy_range(bytes, 0, bytes.len());
    assert(data@ =~= message.spec_bytes());
    png.append_chunk(Chunk::new(t, data));
    Ok(png.as_bytes())
}

/// Reads the file `file` and gives the text form of its first chunk of type
/// `chunk_type`, if it has one.
pub fn decode(file: &[u8], chunk_type: &str) -> (r: Result<Option<String>, FormatError>)
    ensures
        r.is_ok() <==> parse_png(file@) is Ok,
        r matches Err(e) ==> parse_png(file@) == Err::<Seq<(Seq<u8>, Seq<u8>)>, FormatError>(e),
        r matches Ok(o) ==> (o is None <==> !has_type(parse_png(file@)->Ok_0, chunk_type.spec_bytes())),
        r matches Ok(o) ==> (o matches Some(s) ==> exists|i: int|
            is_first_of_type(parse_png(file@)->Ok_0, chunk_type.spec_bytes(), i) && s@ == ascii_chars(
                chunk_text(#[trigger] parse_png(file@)->Ok_0[i]),
            )),
{
    let png = match Png::try_from(file) {
        Ok(p) => p,
        Err(e) => return Err(e),
    };
    match png.chunk_by_type(chunk_type) {
        Some(c) => Ok(Some(c.to_string())),
        None => Ok(None),
    }
}

/// Takes the first chunk of type `chunk_type` out of the file `file`, and
/// returns the new file.
pub fn remove(file: &[u8], chunk_type: &str) -> (r: Result<Vec<u8>, FormatError>)
    ensures
        r.is_ok() <==> (parse_png(file@) is Ok && has_type(parse_png(file@)->Ok_0, chunk_type.spec_bytes())),
        r matches Ok(v) ==> exists|i: int|
            is_first_of_type(parse_png(file@)->Ok_0, chunk_type.spec_bytes(), i) && v@ == png_bytes(
                #[trigger] parse_png(file@)->Ok_0.remove(i),
            ),
        r matches Err(e) ==> parse_png(file@) == Err::<Seq<(Seq<u8>, Seq<u8>)>, FormatError>(e) || (
        parse_png(file@) is Ok && e == FormatError::ChunkNotFound),
{
    let mut png = match Png::try_from(file) {
        Ok(p) => p,
        Err(e) => return Err(e),
    };
    match png.remove_first_chunk(chunk_type) {
        Ok(_) => Ok(png.as_bytes()),
        Err(e) => Err(e),
    }
}

/// Reads the file `file` and gives the text form of all its chunks, one line
/// each.
pub fn print(file: &[u8]) -> (r: Result<String, FormatError>)
    ensures
        r matches Ok(s) ==> parse_png(file@) is Ok && s@ == ascii_chars(png_text(parse_png(file@)->Ok_0)),
        r matches Err(e) ==> parse_png(file@) == Err::<Seq<(Seq<u8>, Seq<u8>)>, FormatError>(e),
{
    match Png::try_from(file) {
        Ok(p) => Ok(p.to_string()),
        Err(e) => Err(e),
    }
}

} // verus!
