use vstd::prelude::*;

use crate::chunk::{
    lemma_chunk_parse_then_wire, lemma_chunk_wire_round_trip, spec_chunk_wire_len, spec_parse_chunk,
    Chunk, ChunkModel,
};
use crate::error::PngError;
use vstd::slice::slice_subrange;
use vstd::string::StringSliceAdditionalSpecFns;

verus! {

/// The fixed eight-byte magic signature that opens every container.
pub open spec fn spec_signature() -> Seq<u8> {
    seq![137u8, 80u8, 78u8, 71u8, 13u8, 10u8, 26u8, 10u8]
}

/// Reading records one after another until the buffer is exhausted. An empty
/// buffer holds no records; otherwise one record is read from the front and
/// the rest of the buffer is read the same way. Any record-level failure is
/// the whole sequence's failure.
pub open spec fn spec_parse_chunks(bytes: Seq<u8>) -> Result<Seq<ChunkModel>, PngError>
    decreases bytes.len(),
{
    if bytes.len() == 0 {
        Ok(Seq::empty())
    } else {
        match spec_parse_chunk(bytes) {
            Err(e) => Err(e),
            Ok(m) => {
                let size = spec_chunk_wire_len(bytes);
                match spec_parse_chunks(bytes.skip(size)) {
                    Err(e) => Err(e),
                    Ok(rest) => Ok(seq![m] + rest),
                }
            },
        }
    }
}

/// Reading a whole buffer: the signature must open it exactly, and every byte
/// after the signature must belong to a well-formed record.
pub open spec fn spec_parse_png(bytes: Seq<u8>) -> Result<Seq<ChunkModel>, PngError> {
    if bytes.len() < 8 || bytes.subrange(0, 8) != spec_signature() {
        Err(PngError::BadSignature)
    } else {
        spec_parse_chunks(bytes.skip(8))
    }
}

/// The records' wire forms, one after another with nothing between.
pub open spec fn spec_chunks_wire(chunks: Seq<ChunkModel>) -> Seq<u8>
    decreases chunks.len(),
{
    if chunks.len() == 0 {
        Seq::empty()
    } else {
        chunks[0].wire() + spec_chunks_wire(chunks.skip(1))
    }
}

/// The index of the first record whose type code is `t`, if any.
pub open spec fn spec_first_match(chunks: Seq<ChunkModel>, t: Seq<u8>) -> Option<int>
    decreases chunks.len(),
{
    if chunks.len() == 0 {
        None
    } else if chunks[0].type_code == t {
        Some(0int)
    } else {
        match spec_first_match(chunks.skip(1), t) {
            Some(i) => Some(i + 1),
            None => None,
        }
    }
}

/// What `spec_first_match` finds: a matching record before which nothing
/// matches, or the absence of any match.
pub proof fn lemma_first_match_props(chunks: Seq<ChunkModel>, t: Seq<u8>)
    ensures
        match spec_first_match(chunks, t) {
            Some(i) => 0 <= i < chunks.len() && chunks[i].type_code == t && (forall|j: int|
                0 <= j < i ==> (#[trigger] chunks[j]).type_code != t),
            None => forall|j: int| 0 <= j < chunks.len() ==> (#[trigger] chunks[j]).type_code != t,
        },
    decreases chunks.len(),
{
    if chunks.len() > 0 && chunks[0].type_code != t {
        lemma_first_match_props(chunks.skip(1), t);
        assert forall|j: int|
            0 <= j < chunks.len() && (spec_first_match(chunks.skip(1), t) matches Some(i) ==> j < i
                + 1) implies (#[trigger] chunks[j]).type_code != t by {
            if j > 0 {
                assert(chunks.skip(1)[j - 1] == chunks[j]);
            }
        }
    }
}

/// The first match is exactly the least matching index.
pub proof fn lemma_first_match_at(chunks: Seq<ChunkModel>, t: Seq<u8>, i: int)
    requires
        0 <= i < chunks.len(),
        chunks[i].type_code == t,
        forall|j: int| 0 <= j < i ==> (#[trigger] chunks[j]).type_code != t,
    ensures
        spec_first_match(chunks, t) == Some(i),
    decreases chunks.len(),
{
    if i > 0 {
        assert forall|j: int| 0 <= j < i - 1 implies (#[trigger] chunks.skip(1)[j]).type_code
            != t by {
            assert(chunks.skip(1)[j] == chunks[j + 1]);
        }
        assert(chunks.skip(1)[i - 1] == chunks[i]);
        lemma_first_match_at(chunks.skip(1), t, i - 1);
    }
}

/// No matching index means no match is found.
pub proof fn lemma_first_match_none(chunks: Seq<ChunkModel>, t: Seq<u8>)
    requires
        forall|j: int| 0 <= j < chunks.len() ==> (#[trigger] chunks[j]).type_code != t,
    ensures
        spec_first_match(chunks, t) is None,
    decreases chunks.len(),
{
    if chunks.len() > 0 {
        assert forall|j: int| 0 <= j < chunks.skip(1).len() implies (#[trigger] chunks.skip(
            1,
        )[j]).type_code != t by {
            assert(chunks.skip(1)[j] == chunks[j + 1]);
        }
        lemma_first_match_none(chunks.skip(1), t);
    }
}

/// The container: the fixed signature followed by an ordered sequence of
/// records. Order carries meaning — search, removal and serialization all walk
/// it front to back — and duplicate type codes are allowed.
#[derive(Debug)]
pub struct Png {
    chunks: Vec<Chunk>,
}

impl View for Png {
    type V = Seq<ChunkModel>;

    closed spec fn view(&self) -> Seq<ChunkModel> {
        self.chunks@.map_values(|c: Chunk| c@)
    }
}

impl Png {
    /// A container with no records.
    pub fn new() -> (r: Png)
        ensures
            r@ == Seq::<ChunkModel>::empty(),
    {
        let png = Png { chunks: Vec::new() };
        proof {
            assert(png@ =~= Seq::<ChunkModel>::empty());
        }
        png
    }

    /// A container over the given records, in their given order.
    pub fn from_chunks(chunks: Vec<Chunk>) -> (r: Png)
        ensures
            r@.len() == chunks@.len(),
            forall|i: int| 0 <= i < chunks@.len() ==> r@[i] == chunks@[i]@,
    {
        Png { chunks }
    }

    /// The fixed signature; the same for every container.
    pub fn header() -> (r: [u8; 8])
        ensures
            r@ == spec_signature(),
    {
        let r = [137u8, 80u8, 78u8, 71u8, 13u8, 10u8, 26u8, 10u8];
        proof {
            assert(r@ =~= spec_signature());
        }
        r
    }

    /// A read-only view of the records, in order.
    pub fn chunks(&self) -> (r: &Vec<Chunk>)
        ensures
            r@.len() == self@.len(),
            forall|i: int| 0 <= i < r@.len() ==> (#[trigger] r@[i])@ == self@[i],
    {
        &self.chunks
    }

    /// Adds a record at the end; nothing else moves.
    pub fn append_chunk(&mut self, chunk: Chunk)
        ensures
            final(self)@ == old(self)@.push(chunk@),
    {
        let ghost before = self@;
        self.chunks.push(chunk);
        proof {
            assert(self@ =~= before.push(chunk@));
        }
    }

    /// The first record, in sequence order, whose type code's text form equals
    /// `type_text`; `None` when no record matches. The match is case-sensitive
    /// and byte-exact.
    pub fn chunk_by_type(&self, type_text: &str) -> (r: Option<&Chunk>)
        ensures
            match r {
                Some(c) => spec_first_match(self@, type_text.spec_bytes()) is Some && c@
                    == self@[spec_first_match(self@, type_text.spec_bytes())->Some_0],
                None => spec_first_match(self@, type_text.spec_bytes()) is None,
            },
    {
        match self.find_index(type_text) {
            Some(i) => Some(&self.chunks[i]),
            None => None,
        }
    }

    /// The index of the first record whose type code's text form equals
    /// `type_text`.
    fn find_index(&self, type_text: &str) -> (r: Option<usize>)
        ensures
            match r {
                Some(i) => i < self@.len() && spec_first_match(self@, type_text.spec_bytes())
                    == Some(i as int),
                None => spec_first_match(self@, type_text.spec_bytes()) is None,
            },
    {
        let tb = type_text.as_bytes();
        let ghost t = type_text.spec_bytes();
        let n = self.chunks.len();
        let mut i: usize = 0;
        while i < n
            invariant
                n == self@.len(),
                i <= n,
                t == type_text.spec_bytes(),
                tb@ == t,
                forall|j: int| 0 <= j < i ==> (#[trigger] self@[j]).type_code != t,
            decreases n - i,
        {
            let name = self.chunks[i].chunk_type().bytes();
            let matches = tb.len() == 4 && tb[0] == name[0] && tb[1] == name[1] && tb[2] == name[2]
                && tb[3] == name[3];
            proof {
                assert(self@[i as int] == self.chunks@[i as int]@);
                if matches {
                    assert(t =~= name@);
                } else {
                    assert(t != name@) by {
                        if t == name@ {
                            assert(t.len() == 4);
                            assert(t[0] == name[0] && t[1] == name[1] && t[2] == name[2] && t[3]
                                == name[3]);
                        }
                    }
                }
            }
            if matches {
                proof {
                    lemma_first_match_at(self@, t, i as int);
                }
                return Some(i);
            }
            i = i + 1;
        }
        proof {
            lemma_first_match_none(self@, t);
        }
        None
    }

    /// Removes and returns the first record whose type code's text form equals
    /// `type_text`. When nothing matches, the failure is `NotFound` and the
    /// sequence is exactly what it was: same length, same records, same order.
    pub fn remove_chunk(&mut self, type_text: &str) -> (r: Result<Chunk, PngError>)
        ensures
            match r {
                Ok(c) => ({
                    let found = spec_first_match(old(self)@, type_text.spec_bytes());
                    &&& found is Some
                    &&& c@ == old(self)@[found->Some_0]
                    &&& final(self)@ == old(self)@.remove(found->Some_0)
                }),
                Err(e) => {
                    &&& e == PngError::NotFound
                    &&& spec_first_match(old(self)@, type_text.spec_bytes()) is None
                    &&& final(self)@ == old(self)@
                },
            },
    {
        let ghost before = self@;
        match self.find_index(type_text) {
            Some(i) => {
                let c = self.chunks.remove(i);
                proof {
                    assert(self@ =~= before.remove(i as int));
                }
                Ok(c)
            },
            None => Err(PngError::NotFound),
        }
    }

    /// The container's exact wire form: the signature, then each record's wire
    /// form in sequence order, with no separators. Every record of a container
    /// is well formed, and the ensures says so.
    pub fn as_bytes(&self) -> (r: Vec<u8>)
        ensures
            r@ == spec_signature() + spec_chunks_wire(self@),
            forall|i: int| 0 <= i < self@.len() ==> (#[trigger] self@[i]).wf(),
    {
        let mut out: Vec<u8> = Vec::new();
        let sig = Png::header();
        out.push(sig[0]);
        out.push(sig[1]);
        out.push(sig[2]);
        out.push(sig[3]);
        out.push(sig[4]);
        out.push(sig[5]);
        out.push(sig[6]);
        out.push(sig[7]);
        proof {
            assert(out@ =~= spec_signature() + spec_chunks_wire(self@.take(0)));
        }
        let n = self.chunks.len();
        let mut i: usize = 0;
        while i < n
            invariant
                n == self@.len(),
                i <= n,
                out@ == spec_signature() + spec_chunks_wire(self@.take(i as int)),
                forall|j: int| 0 <= j < i ==> (#[trigger] self@[j]).wf(),
            decreases n - i,
        {
            let mut piece = self.chunks[i].as_bytes();
            proof {
                assert(self@[i as int] == self.chunks@[i as int]@);
                lemma_chunks_wire_concat(self@.take(i as int), seq![self@[i as int]]);
                assert(self@.take(i as int + 1) =~= self@.take(i as int) + seq![self@[i as int]]);
                assert(seq![self@[i as int]].skip(1) =~= Seq::<ChunkModel>::empty());
                assert(spec_chunks_wire(seq![self@[i as int]]) == self@[i as int].wire()
                    + spec_chunks_wire(Seq::<ChunkModel>::empty()));
                assert(self@[i as int].wire() + Seq::<u8>::empty() =~= self@[i as int].wire());
            }
            append_vec(&mut out, piece);
            i = i + 1;
            proof {
                assert(out@ =~= spec_signature() + spec_chunks_wire(self@.take(i as int)));
            }
        }
        proof {
            assert(self@.take(n as int) =~= self@);
        }
        out
    }

    /// Reads a whole buffer into a container, exactly as `spec_parse_png`
    /// describes: the failure of any record, or of the signature, is the
    /// failure of the whole — no partial container is produced.
    pub fn parse(bytes: &[u8]) -> (r: Result<Png, PngError>)
        ensures
            match r {
                Ok(png) => spec_parse_png(bytes@) == Ok::<Seq<ChunkModel>, PngError>(png@),
                Err(e) => spec_parse_png(bytes@) == Err::<Seq<ChunkModel>, PngError>(e),
            },
    {
        let blen = bytes.len();
        let sig = Png::header();
        if blen < 8 {
            return Err(PngError::BadSignature);
        }
        let sig_ok = bytes[0] == sig[0] && bytes[1] == sig[1] && bytes[2] == sig[2] && bytes[3]
            == sig[3] && bytes[4] == sig[4] && bytes[5] == sig[5] && bytes[6] == sig[6] && bytes[7]
            == sig[7];
        proof {
            if sig_ok {
                assert(bytes@.subrange(0, 8) =~= spec_signature());
            } else {
                assert(bytes@.subrange(0, 8) != spec_signature()) by {
                    if bytes@.subrange(0, 8) == spec_signature() {
                        assert(forall|k: int|
                            0 <= k < 8 ==> bytes@[k] == #[trigger] bytes@.subrange(0, 8)[k]);
                    }
                }
            }
        }
        if !sig_ok {
            return Err(PngError::BadSignature);
        }
        let mut chunks: Vec<Chunk> = Vec::new();
        let mut cursor: usize = 8;
        while cursor < blen
            invariant
                8 <= cursor <= blen,
                blen == bytes@.len(),
                bytes@.subrange(0, 8) == spec_signature(),
                spec_parse_chunks(bytes@.skip(8)) == (match spec_parse_chunks(
                    bytes@.skip(cursor as int),
                ) {
                    Ok(rest) => Ok::<Seq<ChunkModel>, PngError>(
                        chunks@.map_values(|c: Chunk| c@) + rest,
                    ),
                    Err(e) => Err::<Seq<ChunkModel>, PngError>(e),
                }),
            decreases blen - cursor,
        {
            let tail = slice_subrange(bytes, cursor, blen);
            proof {
                assert(tail@ =~= bytes@.skip(cursor as int));
            }
            match Chunk::parse(tail) {
                Err(e) => {
                    return Err(e);
                },
                Ok(p) => {
                    let ghost ms = chunks@.map_values(|c: Chunk| c@);
                    let c = p.0;
                    let used = p.1;
                    proof {
                        assert(bytes@.skip(cursor as int).skip(used as int) =~= bytes@.skip(
                            cursor as int + used as int,
                        ));
                    }
                    chunks.push(c);
                    cursor = cursor + used;
                    proof {
                        assert(chunks@.map_values(|c: Chunk| c@) =~= ms.push(c@));
                        let r2 = spec_parse_chunks(bytes@.skip(cursor as int));
                        if r2 is Ok {
                            let rest = r2->Ok_0;
                            assert(ms + (seq![c@] + rest) =~= ms.push(c@) + rest);
                        }
                    }
                },
            }
        }
        proof {
            assert(bytes@.skip(cursor as int) =~= Seq::<u8>::empty());
        }
        let png = Png { chunks };
        Ok(png)
    }
}

/// Appends all of `src` to `out`, consuming `src`.
fn append_vec(out: &mut Vec<u8>, src: Vec<u8>)
    ensures
        final(out)@ == old(out)@ + src@,
{
    let n = src.len();
    let mut i: usize = 0;
    while i < n
        invariant
            n == src@.len(),
            i <= n,
            out@ == old(out)@ + src@.subrange(0, i as int),
        decreases n - i,
    {
        out.push(src[i]);
        i = i + 1;
        proof {
            assert(out@ =~= old(out)@ + src@.subrange(0, i as int));
        }
    }
    proof {
        assert(out@ =~= old(out)@ + src@);
    }
}

/// Serializing a concatenation of record sequences concatenates their
/// serializations.
pub proof fn lemma_chunks_wire_concat(a: Seq<ChunkModel>, b: Seq<ChunkModel>)
    ensures
        spec_chunks_wire(a + b) == spec_chunks_wire(a) + spec_chunks_wire(b),
    decreases a.len(),
{
    if a.len() == 0 {
        assert(a + b =~= b);
        assert(spec_chunks_wire(a) + spec_chunks_wire(b) =~= spec_chunks_wire(b));
    } else {
        assert((a + b).skip(1) =~= a.skip(1) + b);
        lemma_chunks_wire_concat(a.skip(1), b);
        assert((a + b)[0] == a[0]);
        assert(a[0].wire() + (spec_chunks_wire(a.skip(1)) + spec_chunks_wire(b)) =~= (a[0].wire()
            + spec_chunks_wire(a.skip(1))) + spec_chunks_wire(b));
    }
}

/// Re-serializing whatever a record sequence was parsed from reproduces the
/// bytes exactly.
#[verifier::rlimit(100)]
pub proof fn lemma_chunks_parse_then_wire(bytes: Seq<u8>)
    requires
        spec_parse_chunks(bytes) is Ok,
    ensures
        spec_chunks_wire(spec_parse_chunks(bytes)->Ok_0) == bytes,
    decreases bytes.len(),
{
    if bytes.len() == 0 {
        assert(spec_chunks_wire(spec_parse_chunks(bytes)->Ok_0) =~= bytes);
    } else {
        let size = spec_chunk_wire_len(bytes);
        let m = spec_parse_chunk(bytes)->Ok_0;
        lemma_chunk_parse_then_wire(bytes);
        lemma_chunks_parse_then_wire(bytes.skip(size));
        let rest = spec_parse_chunks(bytes.skip(size))->Ok_0;
        assert(spec_parse_chunks(bytes)->Ok_0 == seq![m] + rest);
        assert(spec_chunks_wire(seq![m] + rest) == m.wire() + spec_chunks_wire(rest)) by {
            assert((seq![m] + rest)[0] == m);
            assert((seq![m] + rest).skip(1) =~= rest);
        }
        assert(bytes.subrange(0, size) + bytes.skip(size) =~= bytes);
    }
}

/// The container-level round trip, one way: a buffer that parses is exactly
/// the serialization of what it parsed into — signature, then the records.
#[verifier::rlimit(50)]
pub proof fn lemma_png_parse_then_serialize(bytes: Seq<u8>)
    requires
        spec_parse_png(bytes) is Ok,
    ensures
        spec_signature() + spec_chunks_wire(spec_parse_png(bytes)->Ok_0) == bytes,
{
    let tail = bytes.skip(8);
    lemma_chunks_parse_then_wire(tail);
    assert(spec_parse_png(bytes)->Ok_0 == spec_parse_chunks(tail)->Ok_0);
    assert(spec_signature() + spec_chunks_wire(spec_parse_chunks(tail)->Ok_0) == spec_signature()
        + tail);
    assert(spec_signature() + tail =~= bytes.subrange(0, 8) + bytes.skip(8));
    assert(bytes.subrange(0, 8) + bytes.skip(8) =~= bytes);
}

/// The record-sequence round trip, the other way: the serialization of any
/// sequence of well-formed records parses back to exactly that sequence.
#[verifier::rlimit(50)]
pub proof fn lemma_chunks_wire_round_trip(ms: Seq<ChunkModel>)
    requires
        forall|i: int| 0 <= i < ms.len() ==> (#[trigger] ms[i]).wf(),
    ensures
        spec_parse_chunks(spec_chunks_wire(ms)) == Ok::<Seq<ChunkModel>, PngError>(ms),
    decreases ms.len(),
{
    if ms.len() == 0 {
        assert(spec_chunks_wire(ms) =~= Seq::<u8>::empty());
        assert(spec_parse_chunks(spec_chunks_wire(ms))->Ok_0 =~= ms);
    } else {
        let bytes = spec_chunks_wire(ms);
        let tail = spec_chunks_wire(ms.skip(1));
        lemma_chunk_wire_round_trip(ms[0], tail);
        assert(bytes == ms[0].wire() + tail);
        assert(bytes.len() >= 12);
        assert(bytes.skip(spec_chunk_wire_len(bytes)) =~= tail);
        assert forall|i: int| 0 <= i < ms.skip(1).len() implies (#[trigger] ms.skip(
            1,
        )[i]).wf() by {
            assert(ms.skip(1)[i] == ms[i + 1]);
        }
        lemma_chunks_wire_round_trip(ms.skip(1));
        assert(seq![ms[0]] + ms.skip(1) =~= ms);
    }
}

/// The container-level round trip, the other way: the serialization of any
/// container of well-formed records parses back to exactly its records.
pub proof fn lemma_png_serialize_then_parse(ms: Seq<ChunkModel>)
    requires
        forall|i: int| 0 <= i < ms.len() ==> (#[trigger] ms[i]).wf(),
    ensures
        spec_parse_png(spec_signature() + spec_chunks_wire(ms)) == Ok::<
            Seq<ChunkModel>,
            PngError,
        >(ms),
{
    let bytes = spec_signature() + spec_chunks_wire(ms);
    assert(bytes.subrange(0, 8) =~= spec_signature());
    assert(bytes.skip(8) =~= spec_chunks_wire(ms));
    lemma_chunks_wire_round_trip(ms);
}

/// Appending a record and then searching for its type finds a record of that
/// type: the earliest one already present, or, when none was, the appended
/// record itself.
pub proof fn lemma_append_then_find(chunks: Seq<ChunkModel>, c: ChunkModel)
    ensures
        spec_first_match(chunks.push(c), c.type_code) is Some,
        ({
            let i = spec_first_match(chunks.push(c), c.type_code)->Some_0;
            &&& 0 <= i < chunks.push(c).len()
            &&& chunks.push(c)[i].type_code == c.type_code
            &&& match spec_first_match(chunks, c.type_code) {
                Some(j) => i == j,
                None => i == chunks.len() && chunks.push(c)[i] == c,
            }
        }),
{
    lemma_first_match_props(chunks, c.type_code);
    match spec_first_match(chunks, c.type_code) {
        Some(j) => {
            assert(chunks.push(c)[j] == chunks[j]);
            assert forall|k: int| 0 <= k < j implies (#[trigger] chunks.push(c)[k]).type_code
                != c.type_code by {
                assert(chunks.push(c)[k] == chunks[k]);
            }
            lemma_first_match_at(chunks.push(c), c.type_code, j);
        },
        None => {
            let n = chunks.len() as int;
            assert(chunks.push(c)[n] == c);
            assert forall|k: int| 0 <= k < n implies (#[trigger] chunks.push(c)[k]).type_code
                != c.type_code by {
                assert(chunks.push(c)[k] == chunks[k]);
            }
            lemma_first_match_at(chunks.push(c), c.type_code, n);
        },
    }
}

} // verus!
