//! A whole PNG file: the signature and the chunks that follow it, in order.

use crate::chunk::{
    chunk_bytes, lemma_parse_chunk_of_bytes, lemma_parse_chunk_ok, parse_chunk, Chunk, ChunkView,
};
use crate::chunk_type::{lemma_tag_text_matches, tag_text, ChunkType};
use crate::error::PngError;
use vstd::prelude::*;
use vstd::std_specs::convert::TryFromSpecImpl;
use vstd::string::*;

verus! {

/// The eight bytes with which every PNG file begins.
pub const PNG_SIGNATURE: [u8; 8] = [0x89, 0x50, 0x4e, 0x47, 0x0d, 0x0a, 0x1a, 0x0a];

/// The PNG signature as a sequence.
pub open spec fn png_signature() -> Seq<u8> {
    PNG_SIGNATURE@
}

/// Whether the type of the chunk, written as text, is `text`.
pub open spec fn has_type(c: ChunkView, text: Seq<char>) -> bool {
    tag_text(c.chunk_type) =~= text
}

/// The number of chunks that stand before the first chunk of type `text`;
/// the number of all chunks if there is none of that type.
pub open spec fn first_of_type(chunks: Seq<ChunkView>, text: Seq<char>) -> int
    decreases chunks.len(),
{
    if chunks.len() == 0 || has_type(chunks[0], text) {
        0
    } else {
        1 + first_of_type(chunks.drop_first(), text)
    }
}

/// What a PNG file holds, as mathematical values.
pub struct PngView {
    /// The signature.
    pub signature: Seq<u8>,
    /// The chunks, in file order.
    pub chunks: Seq<ChunkView>,
}

impl PngView {
    /// The invariant of a container: the signature is the PNG signature, and
    /// every chunk is well formed.
    pub open spec fn wf(self) -> bool {
        &&& self.signature == png_signature()
        &&& forall|i: int| 0 <= i < self.chunks.len() ==> (#[trigger] self.chunks[i]).wf()
    }

    /// The container with `c` added after the last chunk.
    pub open spec fn append(self, c: ChunkView) -> PngView {
        PngView { signature: self.signature, chunks: self.chunks.push(c) }
    }

    /// The first chunk of type `text`, if there is one.
    pub open spec fn find(self, text: Seq<char>) -> Option<ChunkView> {
        let i = first_of_type(self.chunks, text);
        if i < self.chunks.len() {
            Some(self.chunks[i])
        } else {
            None
        }
    }

    /// The container without its first chunk of type `text`, the other
    /// chunks in their order; the container itself if it has no such chunk.
    pub open spec fn without(self, text: Seq<char>) -> PngView {
        let i = first_of_type(self.chunks, text);
        if i < self.chunks.len() {
            PngView { signature: self.signature, chunks: self.chunks.remove(i) }
        } else {
            self
        }
    }
}

/// The encodings of the chunks, one after the other.
pub open spec fn chunks_bytes(chunks: Seq<ChunkView>) -> Seq<u8>
    decreases chunks.len(),
{
    if chunks.len() == 0 {
        Seq::empty()
    } else {
        chunks_bytes(chunks.drop_last()) + chunk_bytes(chunks.last())
    }
}

/// The bytes of a PNG file: the signature, then the chunks.
pub open spec fn png_bytes(p: PngView) -> Seq<u8> {
    p.signature + chunks_bytes(p.chunks)
}

/// The chunks that `bytes` hold one after the other up to their end, or the
/// error of the first chunk that cannot be decoded.
pub open spec fn parse_chunks(bytes: Seq<u8>) -> Result<Seq<ChunkView>, PngError>
    decreases bytes.len(),
{
    if bytes.len() == 0 {
        Ok(Seq::empty())
    } else {
        match parse_chunk(bytes) {
            Err(e) => Err(e),
            Ok(c) => match parse_chunks(bytes.skip(c.size() as int)) {
                Err(e) => Err(e),
                Ok(rest) => Ok(seq![c] + rest),
            },
        }
    }
}

/// Whether `bytes` begin with the PNG signature.
pub open spec fn has_signature(bytes: Seq<u8>) -> bool {
    bytes.len() >= 8 && bytes.subrange(0, 8) =~= png_signature()
}

/// The container that `bytes` hold, or why they hold none: the signature is
/// checked first, then the chunks are decoded in order.
pub open spec fn parse_png(bytes: Seq<u8>) -> Result<PngView, PngError> {
    if !has_signature(bytes) {
        Err(PngError::InvalidSignature)
    } else {
        match parse_chunks(bytes.skip(8)) {
            Err(e) => Err(e),
            Ok(chunks) => Ok(PngView { signature: png_signature(), chunks: chunks }),
        }
    }
}

/// What the chunks of a vector hold.
pub open spec fn chunk_views(chunks: Seq<Chunk>) -> Seq<ChunkView> {
    chunks.map_values(|c: Chunk| c@)
}

/// The result of decoding further chunks, put behind chunks already decoded.
spec fn after(done: Seq<ChunkView>, more: Result<Seq<ChunkView>, PngError>) -> Result<
    Seq<ChunkView>,
    PngError,
> {
    match more {
        Ok(rest) => Ok(done + rest),
        Err(e) => Err(e),
    }
}

/// What [`first_of_type`] returns is the position of the first chunk of the
/// type: no chunk before it has the type, and the chunk there has it, unless
/// the position is the number of chunks.
pub proof fn lemma_first_of_type(chunks: Seq<ChunkView>, text: Seq<char>)
    ensures
        0 <= first_of_type(chunks, text) <= chunks.len(),
        forall|j: int|
            0 <= j < first_of_type(chunks, text) ==> !has_type(#[trigger] chunks[j], text),
        first_of_type(chunks, text) < chunks.len() ==> has_type(
            chunks[first_of_type(chunks, text)],
            text,
        ),
    decreases chunks.len(),
{
    if chunks.len() == 0 || has_type(chunks[0], text) {
    } else {
        let rest = chunks.drop_first();
        lemma_first_of_type(rest, text);
        assert forall|j: int| 0 <= j < first_of_type(chunks, text) implies !has_type(
            #[trigger] chunks[j],
            text,
        ) by {
            if j > 0 {
                assert(chunks[j] == rest[j - 1]);
            }
        }
    }
}

/// A position before which no chunk has the type, and at which a chunk has
/// it or the chunks end, is the one that [`first_of_type`] returns.
pub proof fn lemma_first_of_type_is(chunks: Seq<ChunkView>, text: Seq<char>, i: int)
    requires
        0 <= i <= chunks.len(),
        forall|j: int| 0 <= j < i ==> !has_type(#[trigger] chunks[j], text),
        i < chunks.len() ==> has_type(chunks[i], text),
    ensures
        first_of_type(chunks, text) == i,
{
    lemma_first_of_type(chunks, text);
}

/// The encoding of chunks begins with the encoding of the first of them.
pub proof fn lemma_chunks_bytes_first(chunks: Seq<ChunkView>)
    requires
        chunks.len() > 0,
    ensures
        chunks_bytes(chunks) == chunk_bytes(chunks[0]) + chunks_bytes(chunks.drop_first()),
    decreases chunks.len(),
{
    if chunks.len() == 1 {
        assert(chunks.drop_last() =~= chunks.drop_first());
        assert(chunks_bytes(chunks.drop_first()) =~= Seq::<u8>::empty());
        assert(chunks_bytes(chunks) =~= chunk_bytes(chunks[0]) + chunks_bytes(
            chunks.drop_first(),
        ));
    } else {
        lemma_chunks_bytes_first(chunks.drop_last());
        assert(chunks.drop_last().drop_first() =~= chunks.drop_first().drop_last());
        assert(chunks_bytes(chunks) =~= chunk_bytes(chunks[0]) + chunks_bytes(
            chunks.drop_first(),
        ));
    }
}

/// How [`parse_chunks`] goes on from a first chunk that was decoded.
proof fn lemma_parse_chunks_step(bytes: Seq<u8>, first: ChunkView)
    requires
        bytes.len() > 0,
        parse_chunk(bytes) == Ok::<ChunkView, PngError>(first),
    ensures
        parse_chunks(bytes) == after(seq![first], parse_chunks(bytes.skip(first.size() as int))),
{
}

/// Decoding the encoding of well-formed chunks gives the chunks back.
pub proof fn lemma_parse_chunks_of_bytes(chunks: Seq<ChunkView>)
    requires
        forall|i: int| 0 <= i < chunks.len() ==> (#[trigger] chunks[i]).wf(),
    ensures
        parse_chunks(chunks_bytes(chunks)) == Ok::<Seq<ChunkView>, PngError>(chunks),
    decreases chunks.len(),
{
    if chunks.len() == 0 {
        assert(chunks =~= Seq::<ChunkView>::empty());
    } else {
        let first = chunks[0];
        let rest = chunks.drop_first();
        let bytes = chunks_bytes(chunks);
        let tail = chunks_bytes(rest);
        assert(first.wf());
        assert(bytes == chunk_bytes(first) + tail) by {
            lemma_chunks_bytes_first(chunks);
        }
        assert(parse_chunk(bytes) == Ok::<ChunkView, PngError>(first) && chunk_bytes(first).len()
            == first.size()) by {
            lemma_parse_chunk_of_bytes(first, tail);
        }
        assert(parse_chunks(tail) == Ok::<Seq<ChunkView>, PngError>(rest)) by {
            assert forall|i: int| 0 <= i < rest.len() implies (#[trigger] rest[i]).wf() by {
                assert(rest[i] == chunks[i + 1]);
            }
            lemma_parse_chunks_of_bytes(rest);
        }
        assert(bytes.skip(first.size() as int) == tail) by {
            assert(bytes.skip(first.size() as int) =~= tail);
        }
        assert(seq![first] + rest == chunks) by {
            assert(seq![first] + rest =~= chunks);
        }
        lemma_parse_chunks_step(bytes, first);
    }
}

/// Chunks that were decoded are well formed, and their encoding is the
/// buffer they were decoded from, byte for byte.
pub proof fn lemma_parse_chunks_ok(bytes: Seq<u8>)
    requires
        parse_chunks(bytes) is Ok,
    ensures
        forall|i: int|
            0 <= i < parse_chunks(bytes)->Ok_0.len() ==> (#[trigger] parse_chunks(
                bytes,
            )->Ok_0[i]).wf(),
        chunks_bytes(parse_chunks(bytes)->Ok_0) == bytes,
    decreases bytes.len(),
{
    let chunks = parse_chunks(bytes)->Ok_0;
    if bytes.len() == 0 {
        assert(chunks_bytes(chunks) =~= bytes);
    } else {
        assert(parse_chunk(bytes) is Ok);
        let first = parse_chunk(bytes)->Ok_0;
        let tail = bytes.skip(first.size() as int);
        lemma_parse_chunks_step(bytes, first);
        let rest = parse_chunks(tail)->Ok_0;
        assert(chunks == seq![first] + rest);
        assert(first.wf() && first.size() <= bytes.len() && bytes.subrange(0, first.size() as int)
            == chunk_bytes(first)) by {
            lemma_parse_chunk_ok(bytes);
        }
        lemma_parse_chunks_ok(tail);
        assert forall|i: int| 0 <= i < chunks.len() implies (#[trigger] chunks[i]).wf() by {
            if i > 0 {
                assert(chunks[i] == rest[i - 1]);
            }
        }
        assert(chunks_bytes(chunks) == chunk_bytes(first) + chunks_bytes(rest)) by {
            lemma_chunks_bytes_first(chunks);
            assert(chunks.drop_first() =~= rest);
        }
        assert(bytes =~= bytes.subrange(0, first.size() as int) + tail);
    }
}

/// Round trip: decoding the encoding of a well-formed container gives a
/// container with the same signature and the same chunks in the same order.
pub proof fn lemma_png_round_trip(p: PngView)
    requires
        p.wf(),
    ensures
        parse_png(png_bytes(p)) == Ok::<PngView, PngError>(p),
{
    let bytes = png_bytes(p);
    assert(bytes.subrange(0, 8) =~= png_signature());
    assert(bytes.skip(8) =~= chunks_bytes(p.chunks));
    lemma_parse_chunks_of_bytes(p.chunks);
}

/// A container that was decoded is well formed, and its encoding is the
/// buffer it was decoded from, byte for byte.
pub proof fn lemma_parse_png_ok(bytes: Seq<u8>)
    requires
        parse_png(bytes) is Ok,
    ensures
        parse_png(bytes)->Ok_0.wf(),
        png_bytes(parse_png(bytes)->Ok_0) == bytes,
{
    lemma_parse_chunks_ok(bytes.skip(8));
    assert(bytes =~= bytes.subrange(0, 8) + bytes.skip(8));
}

/// A buffer that does not begin with the PNG signature holds no container.
pub proof fn lemma_parse_png_needs_signature(bytes: Seq<u8>)
    requires
        !has_signature(bytes),
    ensures
        parse_png(bytes) == Err::<PngView, PngError>(PngError::InvalidSignature),
{
}

/// In a container that has no chunk of the type of `c`: once `c` is appended
/// it is the chunk found under its type; removing by that type takes `c` out
/// again and leaves the container as it was before; and then no chunk is
/// found under that type.
pub proof fn lemma_append_find_remove(p: PngView, c: ChunkView)
    requires
        p.find(tag_text(c.chunk_type)) is None,
    ensures
        p.append(c).find(tag_text(c.chunk_type)) == Some(c),
        p.append(c).without(tag_text(c.chunk_type)) == p,
        p.append(c).without(tag_text(c.chunk_type)).find(tag_text(c.chunk_type)) is None,
{
    let text = tag_text(c.chunk_type);
    let more = p.chunks.push(c);
    lemma_first_of_type(p.chunks, text);
    assert forall|j: int| 0 <= j < p.chunks.len() implies !has_type(#[trigger] more[j], text) by {
        assert(more[j] == p.chunks[j]);
    }
    lemma_first_of_type_is(more, text, p.chunks.len() as int);
    assert(more.remove(p.chunks.len() as int) =~= p.chunks);
}

/// Removing by a type of which the container has no chunk changes nothing.
pub proof fn lemma_without_absent(p: PngView, text: Seq<char>)
    requires
        p.find(text) is None,
    ensures
        p.without(text) == p,
{
}

/// A PNG file held as its chunks.
#[derive(Debug, PartialEq, Eq)]
pub struct PngContainer {
    signature: [u8; 8],
    chunks: Vec<Chunk>,
}

impl View for PngContainer {
    type V = PngView;

    closed spec fn view(&self) -> PngView {
        PngView { signature: self.signature@, chunks: chunk_views(self.chunks@) }
    }
}

impl PngContainer {
    /// Every container has the PNG signature and holds well-formed chunks.
    #[verifier::type_invariant]
    pub closed spec fn wf(self) -> bool {
        &&& self.signature@ == png_signature()
        &&& forall|i: int| 0 <= i < self.chunks@.len() ==> (#[trigger] self.chunks@[i])@.wf()
    }

    /// A container is well formed exactly if what it holds is.
    pub proof fn lemma_wf_view(self)
        ensures
            self.wf() <==> self@.wf(),
    {
        let views = chunk_views(self.chunks@);
        if self.wf() {
            assert forall|i: int| 0 <= i < views.len() implies (#[trigger] views[i]).wf() by {
                assert(views[i] == self.chunks@[i]@);
            }
        }
        if self@.wf() {
            assert forall|i: int| 0 <= i < self.chunks@.len() implies (
            #[trigger] self.chunks@[i])@.wf() by {
                assert(self@.chunks[i] == self.chunks@[i]@);
                assert(self@.chunks[i].wf());
            }
        }
    }

    /// Decodes a whole file, see [`parse_png`]: the signature is checked, then
    /// chunk after chunk is decoded until the buffer is used up. The first
    /// chunk that cannot be decoded ends the decoding with its error.
    pub fn parse(bytes: &[u8]) -> (r: Result<PngContainer, PngError>)
        ensures
            match r {
                Ok(p) => parse_png(bytes@) == Ok::<PngView, PngError>(p@) && p@.wf(),
                Err(e) => parse_png(bytes@) == Err::<PngView, PngError>(e),
            },
            !has_signature(bytes@) ==> r is Err && r->Err_0 == PngError::InvalidSignature,
    {
        let n = bytes.len();
        if n < 8 {
            return Err(PngError::InvalidSignature);
        }
        let mut k: usize = 0;
        while k < 8
            invariant
                k <= 8 <= n == bytes@.len(),
                forall|j: int| 0 <= j < k ==> bytes@[j] == png_signature()[j],
            decreases 8 - k,
        {
            if bytes[k] != PNG_SIGNATURE[k] {
                assert(bytes@.subrange(0, 8)[k as int] != png_signature()[k as int]);
                return Err(PngError::InvalidSignature);
            }
            k = k + 1;
        }
        assert(bytes@.subrange(0, 8) =~= png_signature());
        let mut chunks: Vec<Chunk> = Vec::new();
        let mut cursor: usize = 8;
        while cursor < n
            invariant
                8 <= cursor <= n == bytes@.len(),
                has_signature(bytes@),
                forall|i: int| 0 <= i < chunks@.len() ==> (#[trigger] chunks@[i])@.wf(),
                parse_chunks(bytes@.skip(8)) == after(
                    chunk_views(chunks@),
                    parse_chunks(bytes@.skip(cursor as int)),
                ),
            decreases n - cursor,
        {
            let ghost tail = bytes@.skip(cursor as int);
            let ghost done = chunk_views(chunks@);
            assert(bytes@.subrange(cursor as int, n as int) =~= tail);
            match Chunk::parse(&bytes[cursor..n]) {
                Err(e) => {
                    return Err(e);
                },
                Ok(c) => {
                    proof {
                        lemma_parse_chunk_ok(tail);
                        assert(tail.skip(c@.size() as int) =~= bytes@.skip(cursor + c@.size()));
                        assert(chunk_views(chunks@.push(c)) =~= done.push(c@));
                        if parse_chunks(bytes@.skip(cursor + c@.size())) is Ok {
                            let rest = parse_chunks(bytes@.skip(cursor + c@.size()))->Ok_0;
                            assert(done + (seq![c@] + rest) =~= done.push(c@) + rest);
                        }
                    }
                    cursor = cursor + 12 + c.length() as usize;
                    chunks.push(c);
                },
            }
        }
        proof {
            assert(chunk_views(chunks@) + Seq::<ChunkView>::empty() =~= chunk_views(chunks@));
        }
        let p = PngContainer { signature: PNG_SIGNATURE, chunks };
        proof {
            p.lemma_wf_view();
        }
        Ok(p)
    }

    /// The signature, which is always the PNG signature.
    pub fn signature(&self) -> (r: [u8; 8])
        ensures
            r@ == self@.signature,
            r@ == png_signature(),
    {
        proof {
            use_type_invariant(self);
        }
        self.signature
    }

    /// Adds `chunk` after the last chunk.
    pub fn append_chunk(&mut self, chunk: Chunk)
        ensures
            final(self)@ == old(self)@.append(chunk@),
    {
        proof {
            use_type_invariant(&*self);
            use_type_invariant(&chunk);
            chunk.lemma_wf_view();
            assert(chunk_views(self.chunks@.push(chunk)) =~= chunk_views(self.chunks@).push(
                chunk@,
            ));
        }
        let mut chunks: Vec<Chunk> = Vec::new();
        std::mem::swap(&mut chunks, &mut self.chunks);
        chunks.push(chunk);
        self.chunks = chunks;
    }

    /// The number of chunks that stand before the first chunk whose type,
    /// written as text, is `type_str`.
    fn position(&self, type_str: &str) -> (r: usize)
        ensures
            r == first_of_type(self@.chunks, type_str@),
            r <= self.chunks@.len(),
    {
        proof {
            use_type_invariant(self);
        }
        let ghost views = self@.chunks;
        let ghost text = type_str@;
        let n = self.chunks.len();
        match ChunkType::from_string(type_str) {
            Err(_) => {
                proof {
                    assert forall|j: int| 0 <= j < views.len() implies !has_type(
                        #[trigger] views[j],
                        text,
                    ) by {
                        assert(views[j] == self.chunks@[j]@);
                        lemma_tag_text_matches(views[j].chunk_type, text);
                    }
                    lemma_first_of_type_is(views, text, n as int);
                }
                n
            },
            Ok(t) => {
                let mut i: usize = 0;
                while i < n
                    invariant
                        i <= n == self.chunks@.len(),
                        views == chunk_views(self.chunks@),
                        t@ == type_str.spec_bytes(),
                        text == type_str@,
                        forall|j: int| 0 <= j < n ==> (#[trigger] self.chunks@[j])@.wf(),
                        forall|j: int| 0 <= j < i ==> !has_type(#[trigger] views[j], text),
                    decreases n - i,
                {
                    let tag = self.chunks[i].chunk_type();
                    let found = *tag == t;
                    proof {
                        assert(views[i as int] == self.chunks@[i as int]@);
                        lemma_tag_text_matches(views[i as int].chunk_type, text);
                        tag.lemma_view_injective(t);
                    }
                    if found {
                        proof {
                            lemma_first_of_type_is(views, text, i as int);
                        }
                        return i;
                    }
                    i = i + 1;
                }
                proof {
                    lemma_first_of_type_is(views, text, n as int);
                }
                n
            },
        }
    }

    /// The first chunk whose type, written as text, is `type_str`. A string
    /// that is no type tag is the type of no chunk.
    pub fn chunk_by_type(&self, type_str: &str) -> (r: Option<&Chunk>)
        ensures
            match r {
                Some(c) => self@.find(type_str@) == Some(c@),
                None => self@.find(type_str@) is None,
            },
    {
        let i = self.position(type_str);
        if i < self.chunks.len() {
            assert(self@.chunks[i as int] == self.chunks@[i as int]@);
            Some(&self.chunks[i])
        } else {
            None
        }
    }

    /// Takes out the first chunk whose type, written as text, is `type_str`,
    /// and returns it; the other chunks keep their order. Without such a
    /// chunk the container stays as it is.
    pub fn remove_chunk(&mut self, type_str: &str) -> (r: Result<Chunk, PngError>)
        ensures
            match r {
                Ok(c) => old(self)@.find(type_str@) == Some(c@),
                Err(e) => e == PngError::ChunkNotFound && old(self)@.find(type_str@) is None,
            },
            final(self)@ == old(self)@.without(type_str@),
            old(self)@.find(type_str@) is None ==> final(self)@ == old(self)@,
    {
        let i = self.position(type_str);
        if i < self.chunks.len() {
            proof {
                use_type_invariant(&*self);
                assert(self@.chunks[i as int] == self.chunks@[i as int]@);
                assert(chunk_views(self.chunks@.remove(i as int)) =~= chunk_views(
                    self.chunks@,
                ).remove(i as int));
            }
            let mut chunks: Vec<Chunk> = Vec::new();
            std::mem::swap(&mut chunks, &mut self.chunks);
            let removed = chunks.remove(i);
            self.chunks = chunks;
            Ok(removed)
        } else {
            Err(PngError::ChunkNotFound)
        }
    }

    /// The chunks, in file order.
    pub fn chunks(&self) -> (r: &[Chunk])
        ensures
            chunk_views(r@) == self@.chunks,
    {
        self.chunks.as_slice()
    }

    /// The bytes of the file, see [`png_bytes`]: the signature, then every
    /// chunk as [`Chunk::as_bytes`] encodes it, in order.
    pub fn as_bytes(&self) -> (r: Vec<u8>)
        ensures
            r@ == png_bytes(self@),
    {
        let mut out: Vec<u8> = Vec::new();
        out.extend_from_slice(self.signature.as_slice());
        assert(out@ =~= self@.signature);
        let n = self.chunks.len();
        let mut i: usize = 0;
        assert(chunk_views(self.chunks@).take(0) =~= Seq::<ChunkView>::empty());
        while i < n
            invariant
                i <= n == self.chunks@.len(),
                out@ == self@.signature + chunks_bytes(self@.chunks.take(i as int)),
            decreases n - i,
        {
            let encoded = self.chunks[i].as_bytes();
            proof {
                let views = self@.chunks;
                let upto = views.take(i + 1);
                assert(views[i as int] == self.chunks@[i as int]@);
                assert(upto.drop_last() =~= views.take(i as int));
                assert(upto.last() == views[i as int]);
            }
            out.extend_from_slice(encoded.as_slice());
            assert(out@ =~= self@.signature + chunks_bytes(self@.chunks.take(i + 1)));
            i = i + 1;
        }
        assert(self@.chunks.take(n as int) =~= self@.chunks);
        out
    }
}

impl TryFrom<&[u8]> for PngContainer {
    type Error = PngError;

    /// The same as [`PngContainer::parse`].
    fn try_from(bytes: &[u8]) -> (r: Result<PngContainer, PngError>)
        ensures
            match r {
                Ok(p) => parse_png(bytes@) == Ok::<PngView, PngError>(p@) && p@.wf(),
                Err(e) => parse_png(bytes@) == Err::<PngView, PngError>(e),
            },
    {
        PngContainer::parse(bytes)
    }
}

/// The `ensures` of `try_from` says what the conversion returns. There is no
/// spec function for it: bytes determine what a container holds, which is
/// its view, and nothing beyond that.
impl TryFromSpecImpl<&[u8]> for PngContainer {
    open spec fn obeys_try_from_spec() -> bool {
        false
    }

    open spec fn try_from_spec(bytes: &[u8]) -> Result<PngContainer, PngError> {
        arbitrary()
    }
}

} // verus!
