//! The operations of the command line on the bytes of a PNG file: hide a
//! message in a new chunk, read it back, take it out again, and list the
//! chunks. Each takes the bytes of a file and returns bytes or text; reading
//! and writing files is left to the caller.

use crate::chunk::{chunk_bytes, chunk_of, chunk_summary, Chunk, ChunkView};
use crate::chunk_type::{is_type_tag, ChunkType};
use crate::error::PngError;
use crate::png::{chunk_views, lemma_parse_png_ok, parse_png, png_bytes, PngContainer};
use crate::text::{decimal_string, decimal_text};
use vstd::prelude::*;
use vstd::string::*;
use vstd::utf8::*;

verus! {

/// The file `png` with a chunk of type `tag` that holds `message` appended.
pub open spec fn encoded(png: Seq<u8>, tag: Seq<u8>, message: Seq<u8>) -> Result<
    Seq<u8>,
    PngError,
> {
    match parse_png(png) {
        Err(e) => Err(e),
        Ok(p) => if is_type_tag(tag) {
            Ok(png_bytes(p.append(chunk_of(tag, message))))
        } else {
            Err(PngError::InvalidChunkType)
        },
    }
}

/// The text held by the first chunk of type `text` in the file `png`.
pub open spec fn decoded(png: Seq<u8>, text: Seq<char>) -> Result<Seq<char>, PngError> {
    match parse_png(png) {
        Err(e) => Err(e),
        Ok(p) => match p.find(text) {
            None => Err(PngError::ChunkNotFound),
            Some(c) => if valid_utf8(c.data) {
                Ok(decode_utf8(c.data))
            } else {
                Err(PngError::Utf8Error)
            },
        },
    }
}

/// The file `png` without its first chunk of type `text`.
pub open spec fn removed(png: Seq<u8>, text: Seq<char>) -> Result<Seq<u8>, PngError> {
    match parse_png(png) {
        Err(e) => Err(e),
        Ok(p) => if p.find(text) is Some {
            Ok(png_bytes(p.without(text)))
        } else {
            Err(PngError::ChunkNotFound)
        },
    }
}

/// The entry of the chunk at position `i` in the listing of a file.
pub open spec fn listing_entry(i: nat, c: ChunkView) -> Seq<char> {
    "Chunk "@ + decimal_text(i) + ":\n"@ + chunk_summary(c) + "\n"@
}

/// The listing of chunks: one entry for each, in order, numbered from 0.
pub open spec fn listing(chunks: Seq<ChunkView>) -> Seq<char>
    decreases chunks.len(),
{
    if chunks.len() == 0 {
        Seq::empty()
    } else {
        listing(chunks.drop_last()) + listing_entry((chunks.len() - 1) as nat, chunks.last())
    }
}

/// The listing of the chunks of the file `png`.
pub open spec fn printed(png: Seq<u8>) -> Result<Seq<char>, PngError> {
    match parse_png(png) {
        Err(e) => Err(e),
        Ok(p) => Ok(listing(p.chunks)),
    }
}

/// Appending a chunk to a file adds the bytes of the chunk at the end of the
/// file and changes nothing else.
pub proof fn lemma_encoded_appends(png: Seq<u8>, tag: Seq<u8>, message: Seq<u8>)
    requires
        encoded(png, tag, message) is Ok,
    ensures
        encoded(png, tag, message)->Ok_0 == png + chunk_bytes(chunk_of(tag, message)),
{
    let p = parse_png(png)->Ok_0;
    let c = chunk_of(tag, message);
    lemma_parse_png_ok(png);
    assert(p.chunks.push(c).drop_last() =~= p.chunks);
    assert(png_bytes(p.append(c)) =~= png + chunk_bytes(c));
}

/// Makes a chunk from its type, given as text, and a message, of which it
/// holds the UTF-8 bytes.
pub fn chunk_from_strings(chunk_type: &str, data: &str) -> (r: Result<Chunk, PngError>)
    requires
        data.spec_bytes().len() <= u32::MAX,
    ensures
        is_type_tag(chunk_type.spec_bytes()) ==> r is Ok && r->Ok_0@ == chunk_of(
            chunk_type.spec_bytes(),
            data.spec_bytes(),
        ),
        !is_type_tag(chunk_type.spec_bytes()) ==> r is Err && r->Err_0
            == PngError::InvalidChunkType,
{
    let chunk_type = match ChunkType::from_string(chunk_type) {
        Ok(t) => t,
        Err(e) => {
            return Err(e);
        },
    };
    Ok(Chunk::new(chunk_type, data.as_bytes_vec()))
}

/// Appends to the file `png` a chunk of type `chunk_type` that holds
/// `message`, and returns the new file, see [`encoded`].
pub fn encode(png: &[u8], chunk_type: &str, message: &str) -> (r: Result<Vec<u8>, PngError>)
    requires
        message.spec_bytes().len() <= u32::MAX,
    ensures
        match r {
            Ok(out) => encoded(png@, chunk_type.spec_bytes(), message.spec_bytes()) == Ok::<
                Seq<u8>,
                PngError,
            >(out@),
            Err(e) => encoded(png@, chunk_type.spec_bytes(), message.spec_bytes()) == Err::<
                Seq<u8>,
                PngError,
            >(e),
        },
{
    let mut container = match PngContainer::parse(png) {
        Ok(p) => p,
        Err(e) => {
            return Err(e);
        },
    };
    let chunk = match chunk_from_strings(chunk_type, message) {
        Ok(c) => c,
        Err(e) => {
            return Err(e);
        },
    };
    container.append_chunk(chunk);
    Ok(container.as_bytes())
}

/// Reads the message held by the first chunk of type `chunk_type` in the
/// file `png`, see [`decoded`].
pub fn decode(png: &[u8], chunk_type: &str) -> (r: Result<String, PngError>)
    ensures
        match r {
            Ok(s) => decoded(png@, chunk_type@) == Ok::<Seq<char>, PngError>(s@),
            Err(e) => decoded(png@, chunk_type@) == Err::<Seq<char>, PngError>(e),
        },
{
    let container = match PngContainer::parse(png) {
        Ok(p) => p,
        Err(e) => {
            return Err(e);
        },
    };
    match container.chunk_by_type(chunk_type) {
        None => Err(PngError::ChunkNotFound),
        Some(c) => c.data_as_string(),
    }
}

/// Takes the first chunk of type `chunk_type` out of the file `png`, and
/// returns the new file, see [`removed`].
pub fn remove(png: &[u8], chunk_type: &str) -> (r: Result<Vec<u8>, PngError>)
    ensures
        match r {
            Ok(out) => removed(png@, chunk_type@) == Ok::<Seq<u8>, PngError>(out@),
            Err(e) => removed(png@, chunk_type@) == Err::<Seq<u8>, PngError>(e),
        },
{
    let mut container = match PngContainer::parse(png) {
        Ok(p) => p,
        Err(e) => {
            return Err(e);
        },
    };
    match container.remove_chunk(chunk_type) {
        Ok(_) => Ok(container.as_bytes()),
        Err(e) => Err(e),
    }
}

/// Lists the chunks of the file `png`, see [`printed`].
pub fn print(png: &[u8]) -> (r: Result<String, PngError>)
    ensures
        match r {
            Ok(s) => printed(png@) == Ok::<Seq<char>, PngError>(s@),
            Err(e) => printed(png@) == Err::<Seq<char>, PngError>(e),
        },
{
    let container = match PngContainer::parse(png) {
        Ok(p) => p,
        Err(e) => {
            return Err(e);
        },
    };
    let chunks = container.chunks();
    let ghost views = container@.chunks;
    let mut out = String::new();
    let mut i: usize = 0;
    assert(views.take(0) =~= Seq::<ChunkView>::empty());
    while i < chunks.len()
        invariant
            i <= chunks@.len(),
            chunk_views(chunks@) == views,
            out@ == listing(views.take(i as int)),
        decreases chunks@.len() - i,
    {
        proof {
            let upto = views.take(i + 1);
            assert(views[i as int] == chunks@[i as int]@);
            assert(upto.drop_last() =~= views.take(i as int));
            assert(upto.last() == views[i as int]);
        }
        let ghost before = out@;
        out.append("Chunk ");
        out.append(decimal_string(i as u64).as_str());
        out.append(":\n");
        out.append(chunks[i].to_string().as_str());
        out.append("\n");
        assert(out@ =~= before + listing_entry(i as nat, views[i as int]));
        i = i + 1;
    }
    assert(views.take(chunks@.len() as int) =~= views);
    Ok(out)
}

} // verus!
