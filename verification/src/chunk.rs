//! One chunk of a PNG file: its layout in bytes, how it is decoded with its
//! checksum verified, and how it is encoded again.

use crate::checksum::{checksum, crc32_iso_hdlc};
use crate::chunk_type::{is_type_tag, tag_text, ChunkType};
use crate::endian::{
    be32_bytes, be32_value, lemma_be32_bytes_of_value, lemma_be32_value_injective,
    lemma_be32_value_of_bytes, u32_from_be, u32_to_be,
};
use crate::error::PngError;
use crate::text::{decimal_string, decimal_text, string_from_utf8};
use vstd::prelude::*;
use vstd::slice::slice_to_vec;
use vstd::std_specs::convert::TryFromSpecImpl;
use vstd::utf8::*;

verus! {

/// What a chunk holds, as mathematical values.
pub struct ChunkView {
    /// The number of bytes of `data`.
    pub length: u32,
    /// The four bytes of the type tag.
    pub chunk_type: Seq<u8>,
    /// The payload.
    pub data: Seq<u8>,
    /// The checksum over type tag and payload.
    pub crc: u32,
}

impl ChunkView {
    /// What holds of every frame: the tag is four ASCII letters, and the
    /// length is that of the data.
    pub open spec fn framed(self) -> bool {
        &&& is_type_tag(self.chunk_type)
        &&& self.length == self.data.len()
    }

    /// The invariant of a chunk: it is framed, and its checksum is the one
    /// of tag and data.
    pub open spec fn wf(self) -> bool {
        &&& self.framed()
        &&& self.crc == crc32_iso_hdlc(self.chunk_type + self.data)
    }

    /// The number of bytes that the chunk takes in a file.
    pub open spec fn size(self) -> nat {
        12 + self.data.len()
    }
}

/// The frame with the given tag, data and checksum field, its length
/// computed from the data.
pub open spec fn frame_of(tag: Seq<u8>, data: Seq<u8>, crc: u32) -> ChunkView {
    ChunkView { length: data.len() as u32, chunk_type: tag, data: data, crc: crc }
}

/// The chunk with the given tag and data, its length and checksum computed
/// from them.
pub open spec fn chunk_of(tag: Seq<u8>, data: Seq<u8>) -> ChunkView {
    frame_of(tag, data, crc32_iso_hdlc(tag + data))
}

/// The bytes of a chunk in a file: length, tag, data, checksum, the two
/// integers with their most significant byte first.
pub open spec fn chunk_bytes(c: ChunkView) -> Seq<u8> {
    be32_bytes(c.length) + c.chunk_type + c.data + be32_bytes(c.crc)
}

/// The frame that stands at the start of `bytes`, its checksum field as it
/// is stored, or why there is none.
///
/// The buffer must hold the length field and then as many bytes as a chunk
/// of that length takes, else it is truncated; whatever follows the chunk is
/// ignored. A complete frame is rejected for a tag that is not four letters.
pub open spec fn read_frame(bytes: Seq<u8>) -> Result<ChunkView, PngError> {
    if bytes.len() < 4 {
        Err(PngError::Truncated)
    } else {
        let length = be32_value(bytes.subrange(0, 4));
        if bytes.len() < 12 + length {
            Err(PngError::Truncated)
        } else if !is_type_tag(bytes.subrange(4, 8)) {
            Err(PngError::InvalidChunkType)
        } else {
            Ok(
                ChunkView {
                    length: length,
                    chunk_type: bytes.subrange(4, 8),
                    data: bytes.subrange(8, 8 + length),
                    crc: be32_value(bytes.subrange(8 + length, 12 + length)),
                },
            )
        }
    }
}

/// The chunk that a frame is once its stored checksum has been compared
/// with the checksum `computed` over its tag and data.
pub open spec fn check_frame(frame: ChunkView, computed: u32) -> Result<ChunkView, PngError> {
    if frame.crc == computed {
        Ok(frame)
    } else {
        Err(PngError::CrcMismatch)
    }
}

/// The chunk that stands at the start of `bytes`, or why there is none: the
/// frame is read as [`read_frame`] says, and its stored checksum is then
/// checked against the one computed over its tag and data.
pub open spec fn parse_chunk(bytes: Seq<u8>) -> Result<ChunkView, PngError> {
    match read_frame(bytes) {
        Err(e) => Err(e),
        Ok(frame) => check_frame(frame, crc32_iso_hdlc(frame.chunk_type + frame.data)),
    }
}

/// The summary of a chunk for a reader: length, type and checksum, one per
/// line.
pub open spec fn chunk_summary(c: ChunkView) -> Seq<char> {
    "Length: "@ + decimal_text(c.length as nat) + "\nChunk Type: "@ + tag_text(c.chunk_type)
        + "\nCrc: "@ + decimal_text(c.crc as nat) + "\n"@
}

/// A frame that was read is framed, and the buffer begins with its encoding.
pub proof fn lemma_read_frame_ok(bytes: Seq<u8>)
    requires
        read_frame(bytes) is Ok,
    ensures
        read_frame(bytes)->Ok_0.framed(),
        read_frame(bytes)->Ok_0.size() <= bytes.len(),
        bytes.subrange(0, read_frame(bytes)->Ok_0.size() as int) == chunk_bytes(
            read_frame(bytes)->Ok_0,
        ),
{
    let f = read_frame(bytes)->Ok_0;
    lemma_be32_bytes_of_value(bytes.subrange(0, 4));
    lemma_be32_bytes_of_value(bytes.subrange(8 + f.length, 12 + f.length));
    assert(bytes.subrange(0, f.size() as int) =~= chunk_bytes(f));
}

/// Reading the encoding of a frame gives the frame back, whatever bytes
/// follow the encoding.
pub proof fn lemma_read_frame_of_bytes(f: ChunkView, rest: Seq<u8>)
    requires
        f.framed(),
    ensures
        chunk_bytes(f).len() == f.size(),
        read_frame(chunk_bytes(f) + rest) == Ok::<ChunkView, PngError>(f),
{
    let bytes = chunk_bytes(f) + rest;
    lemma_be32_value_of_bytes(f.length);
    lemma_be32_value_of_bytes(f.crc);
    assert(bytes.subrange(0, 4) =~= be32_bytes(f.length));
    assert(bytes.subrange(4, 8) =~= f.chunk_type);
    assert(bytes.subrange(8, 8 + f.length) =~= f.data);
    assert(bytes.subrange(8 + f.length, 12 + f.length) =~= be32_bytes(f.crc));
}

/// A chunk that was decoded is well formed, and the buffer begins with its
/// encoding.
pub proof fn lemma_parse_chunk_ok(bytes: Seq<u8>)
    requires
        parse_chunk(bytes) is Ok,
    ensures
        parse_chunk(bytes)->Ok_0.wf(),
        parse_chunk(bytes)->Ok_0.size() <= bytes.len(),
        bytes.subrange(0, parse_chunk(bytes)->Ok_0.size() as int) == chunk_bytes(
            parse_chunk(bytes)->Ok_0,
        ),
{
    lemma_read_frame_ok(bytes);
}

/// Decoding the encoding of a well-formed chunk gives the chunk back,
/// whatever bytes follow the encoding.
pub proof fn lemma_parse_chunk_of_bytes(c: ChunkView, rest: Seq<u8>)
    requires
        c.wf(),
    ensures
        chunk_bytes(c).len() == c.size(),
        parse_chunk(chunk_bytes(c) + rest) == Ok::<ChunkView, PngError>(c),
{
    lemma_read_frame_of_bytes(c, rest);
}

/// Round trip: for every tag and all data that fit a chunk, the chunk made
/// from them is well formed, and decoding its encoding succeeds and gives a
/// chunk with the same length, tag, data and checksum.
pub proof fn lemma_chunk_round_trip(tag: Seq<u8>, data: Seq<u8>)
    requires
        is_type_tag(tag),
        data.len() <= u32::MAX,
    ensures
        chunk_of(tag, data).wf(),
        parse_chunk(chunk_bytes(chunk_of(tag, data))) == Ok::<ChunkView, PngError>(
            chunk_of(tag, data),
        ),
{
    let c = chunk_of(tag, data);
    lemma_parse_chunk_of_bytes(c, Seq::empty());
    assert(chunk_bytes(c) + Seq::<u8>::empty() =~= chunk_bytes(c));
}

/// Changing any one byte of the checksum field of an encoded chunk makes
/// decoding fail with a checksum mismatch.
pub proof fn lemma_crc_byte_changed(c: ChunkView, i: int, b: u8)
    requires
        c.wf(),
        0 <= i < 4,
        b != chunk_bytes(c)[8 + c.data.len() + i],
    ensures
        parse_chunk(chunk_bytes(c).update(8 + c.data.len() + i, b)) == Err::<ChunkView, PngError>(
            PngError::CrcMismatch,
        ),
{
    let good = chunk_bytes(c);
    let bad = good.update(8 + c.data.len() + i, b);
    let stored = be32_bytes(c.crc).update(i, b);
    let changed = ChunkView {
        length: c.length,
        chunk_type: c.chunk_type,
        data: c.data,
        crc: be32_value(stored),
    };
    lemma_be32_value_of_bytes(c.crc);
    lemma_be32_bytes_of_value(stored);
    assert(bad =~= chunk_bytes(changed));
    lemma_read_frame_of_bytes(changed, Seq::empty());
    assert(chunk_bytes(changed) + Seq::<u8>::empty() =~= chunk_bytes(changed));
    assert(stored[i] != be32_bytes(c.crc)[i]);
    if be32_value(stored) == c.crc {
        lemma_be32_value_injective(stored, be32_bytes(c.crc));
    }
}

/// The tag and after it the data, as the checksum takes them.
fn tag_and_data(chunk_type: &ChunkType, data: &[u8]) -> (r: Vec<u8>)
    ensures
        r@ == chunk_type@ + data@,
{
    let tag = chunk_type.bytes();
    let mut out: Vec<u8> = Vec::new();
    out.extend_from_slice(tag.as_slice());
    out.extend_from_slice(data);
    assert(out@ =~= chunk_type@ + data@);
    out
}

/// A chunk as it is framed in a file, before its checksum is verified: the
/// stored checksum may or may not be the one of its tag and data.
#[derive(Debug, PartialEq, Eq)]
pub struct ChunkFrame {
    length: u32,
    chunk_type: ChunkType,
    data: Vec<u8>,
    crc: u32,
}

impl View for ChunkFrame {
    type V = ChunkView;

    closed spec fn view(&self) -> ChunkView {
        ChunkView {
            length: self.length,
            chunk_type: self.chunk_type@,
            data: self.data@,
            crc: self.crc,
        }
    }
}

impl ChunkFrame {
    /// Every frame has a well-formed tag and the length of its data.
    #[verifier::type_invariant]
    pub closed spec fn wf(self) -> bool {
        &&& self.chunk_type.wf()
        &&& self.length == self.data@.len()
    }

    /// A frame is well formed exactly if what it holds is framed.
    pub proof fn lemma_wf_view(self)
        ensures
            self.wf() <==> self@.framed(),
    {
        self.chunk_type.lemma_wf_is_type_tag();
    }

    /// Frames a tag, data and a checksum field, whatever the checksum.
    pub fn new(chunk_type: ChunkType, data: Vec<u8>, crc: u32) -> (r: ChunkFrame)
        requires
            data@.len() <= u32::MAX,
        ensures
            r@ == frame_of(chunk_type@, data@, crc),
            r@.framed(),
    {
        proof {
            use_type_invariant(&chunk_type);
            chunk_type.lemma_wf_is_type_tag();
        }
        ChunkFrame { length: data.len() as u32, chunk_type, data, crc }
    }

    /// Reads the frame at the start of `bytes`, see [`read_frame`]. The
    /// checksum field is taken as it stands.
    pub fn read(bytes: &[u8]) -> (r: Result<ChunkFrame, PngError>)
        ensures
            match r {
                Ok(f) => read_frame(bytes@) == Ok::<ChunkView, PngError>(f@) && f@.framed(),
                Err(e) => read_frame(bytes@) == Err::<ChunkView, PngError>(e),
            },
    {
        let n = bytes.len();
        if n < 12 {
            return Err(PngError::Truncated);
        }
        let length = u32_from_be(bytes, 0);
        if n - 12 < length as usize {
            return Err(PngError::Truncated);
        }
        let data_end: usize = 8 + length as usize;
        let tag: [u8; 4] = [bytes[4], bytes[5], bytes[6], bytes[7]];
        assert(tag@ =~= bytes@.subrange(4, 8));
        let chunk_type = match ChunkType::from_bytes(tag) {
            Ok(t) => t,
            Err(e) => {
                return Err(e);
            },
        };
        let crc = u32_from_be(bytes, data_end);
        let data = slice_to_vec(&bytes[8..data_end]);
        proof {
            use_type_invariant(&chunk_type);
            lemma_read_frame_ok(bytes@);
        }
        Ok(ChunkFrame { length, chunk_type, data, crc })
    }

    /// The bytes over which the checksum is computed: the tag, then the data.
    pub fn checked_bytes(&self) -> (r: Vec<u8>)
        ensures
            r@ == self@.chunk_type + self@.data,
    {
        tag_and_data(&self.chunk_type, self.data.as_slice())
    }

    /// Compares the stored checksum with `computed`, the checksum over tag
    /// and data, and hands out the chunk if the two agree, see
    /// [`check_frame`].
    pub fn check(self, computed: u32) -> (r: Result<Chunk, PngError>)
        requires
            computed == crc32_iso_hdlc(self@.chunk_type + self@.data),
        ensures
            match r {
                Ok(c) => check_frame(self@, computed) == Ok::<ChunkView, PngError>(c@) && c@.wf(),
                Err(e) => check_frame(self@, computed) == Err::<ChunkView, PngError>(e),
            },
    {
        if self.crc == computed {
            Ok(self.seal())
        } else {
            Err(PngError::CrcMismatch)
        }
    }

    /// Turns a frame whose checksum is right into a chunk.
    fn seal(self) -> (r: Chunk)
        requires
            self@.crc == crc32_iso_hdlc(self@.chunk_type + self@.data),
        ensures
            r@ == self@,
            r@.wf(),
    {
        proof {
            use_type_invariant(&self);
            self.lemma_wf_view();
        }
        Chunk { length: self.length, chunk_type: self.chunk_type, data: self.data, crc: self.crc }
    }
}

/// One chunk of a PNG file.
#[derive(Debug, PartialEq, Eq)]
pub struct Chunk {
    length: u32,
    chunk_type: ChunkType,
    data: Vec<u8>,
    crc: u32,
}

impl View for Chunk {
    type V = ChunkView;

    closed spec fn view(&self) -> ChunkView {
        ChunkView {
            length: self.length,
            chunk_type: self.chunk_type@,
            data: self.data@,
            crc: self.crc,
        }
    }
}

impl Chunk {
    /// Every chunk has a well-formed tag, the length of its data, and the
    /// checksum of its tag and data.
    #[verifier::type_invariant]
    pub closed spec fn wf(self) -> bool {
        &&& self.chunk_type.wf()
        &&& self.length == self.data@.len()
        &&& self.crc == crc32_iso_hdlc(self.chunk_type@ + self.data@)
    }

    /// A chunk is well formed exactly if what it holds is.
    pub proof fn lemma_wf_view(self)
        ensures
            self.wf() <==> self@.wf(),
    {
        self.chunk_type.lemma_wf_is_type_tag();
    }

    /// Makes a chunk of the given type that holds `data`; length and
    /// checksum are computed.
    pub fn new(chunk_type: ChunkType, data: Vec<u8>) -> (r: Chunk)
        requires
            data@.len() <= u32::MAX,
        ensures
            r@ == chunk_of(chunk_type@, data@),
            r@.wf(),
    {
        let crc = checksum(tag_and_data(&chunk_type, data.as_slice()).as_slice());
        ChunkFrame::new(chunk_type, data, crc).seal()
    }

    /// Decodes the chunk at the start of `bytes`, see [`parse_chunk`]: the
    /// frame is read, the checksum over its tag and data is computed, and
    /// the frame is checked against it.
    pub fn parse(bytes: &[u8]) -> (r: Result<Chunk, PngError>)
        ensures
            match r {
                Ok(c) => parse_chunk(bytes@) == Ok::<ChunkView, PngError>(c@) && c@.wf(),
                Err(e) => parse_chunk(bytes@) == Err::<ChunkView, PngError>(e),
            },
    {
        let frame = match ChunkFrame::read(bytes) {
            Ok(f) => f,
            Err(e) => {
                return Err(e);
            },
        };
        let computed = checksum(frame.checked_bytes().as_slice());
        frame.check(computed)
    }

    /// The number of bytes of data.
    pub fn length(&self) -> (r: u32)
        ensures
            r == self@.length,
            r == self@.data.len(),
    {
        proof {
            use_type_invariant(self);
        }
        self.length
    }

    /// The checksum over type tag and data.
    pub fn crc(&self) -> (r: u32)
        ensures
            r == self@.crc,
            r == crc32_iso_hdlc(self@.chunk_type + self@.data),
    {
        proof {
            use_type_invariant(self);
        }
        self.crc
    }

    /// The type of the chunk.
    pub fn chunk_type(&self) -> (r: &ChunkType)
        ensures
            r@ == self@.chunk_type,
    {
        &self.chunk_type
    }

    /// The data of the chunk.
    pub fn data(&self) -> (r: &[u8])
        ensures
            r@ == self@.data,
    {
        self.data.as_slice()
    }

    /// The data as text, if it is valid UTF-8.
    pub fn data_as_string(&self) -> (r: Result<String, PngError>)
        ensures
            valid_utf8(self@.data) ==> r is Ok && r->Ok_0@ == decode_utf8(self@.data),
            !valid_utf8(self@.data) ==> r == Err::<String, PngError>(PngError::Utf8Error),
    {
        match string_from_utf8(slice_to_vec(self.data.as_slice())) {
            Ok(s) => {
                proof {
                    encode_utf8_decode_utf8(s@);
                }
                Ok(s)
            },
            Err(_) => Err(PngError::Utf8Error),
        }
    }

    /// The bytes of the chunk as they stand in a file, see [`chunk_bytes`].
    pub fn as_bytes(&self) -> (r: Vec<u8>)
        ensures
            r@ == chunk_bytes(self@),
    {
        let length = u32_to_be(self.length);
        let tag = self.chunk_type.bytes();
        let crc = u32_to_be(self.crc);
        let mut out: Vec<u8> = Vec::new();
        out.extend_from_slice(length.as_slice());
        out.extend_from_slice(tag.as_slice());
        out.extend_from_slice(self.data.as_slice());
        out.extend_from_slice(crc.as_slice());
        assert(out@ =~= chunk_bytes(self@));
        out
    }

    /// A summary of the chunk for a reader, see [`chunk_summary`].
    pub fn to_string(&self) -> (r: String)
        ensures
            r@ == chunk_summary(self@),
    {
        let mut out = "Length: ".to_owned();
        out.append(decimal_string(self.length as u64).as_str());
        out.append("\nChunk Type: ");
        out.append(self.chunk_type.to_string().as_str());
        out.append("\nCrc: ");
        out.append(decimal_string(self.crc as u64).as_str());
        out.append("\n");
        out
    }
}

impl TryFrom<&[u8]> for Chunk {
    type Error = PngError;

    /// The same as [`Chunk::parse`].
    fn try_from(bytes: &[u8]) -> (r: Result<Chunk, PngError>)
        ensures
            match r {
                Ok(c) => parse_chunk(bytes@) == Ok::<ChunkView, PngError>(c@) && c@.wf(),
                Err(e) => parse_chunk(bytes@) == Err::<ChunkView, PngError>(e),
            },
    {
        Chunk::parse(bytes)
    }
}

/// The `ensures` of `try_from` says what the conversion returns. There is no
/// spec function for it: bytes determine what a chunk holds, which is its
/// view, and nothing beyond that.
impl TryFromSpecImpl<&[u8]> for Chunk {
    open spec fn obeys_try_from_spec() -> bool {
        false
    }

    open spec fn try_from_spec(bytes: &[u8]) -> Result<Chunk, PngError> {
        arbitrary()
    }
}

} // verus!
