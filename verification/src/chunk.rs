use vstd::prelude::*;

use crate::chunk_type::ChunkType;
use crate::codec::{
    bytes_to_utf8, lemma_u32_be_read_write, lemma_u32_be_write_read, push_u32_be, spec_u32_from_be,
    spec_u32_to_be, u32_from_be_at,
};
use crate::error::PngError;

verus! {

/// What the checksum call returns on given bytes: the standard CRC-32
/// (ISO-HDLC) digest. The algorithm is the outside crate's; only its result is
/// named here, and it depends on the input bytes alone.
pub uninterp spec fn crc32_of(data: Seq<u8>) -> u32;

/// Relies on crc::Crc::<u32>::new(&crc::CRC_32_ISO_HDLC) and crc::Crc::checksum:
/// the digest is a pure function of the input bytes.
#[verifier::external_body]
fn crc32_checksum(data: &[u8]) -> (r: u32)
    ensures
        r == crc32_of(data@),
{
    let crc = crc::Crc::<u32>::new(&crc::CRC_32_ISO_HDLC);
    crc.checksum(data)
}

/// The mathematical content of one record: its type code, its payload and its
/// wire checksum.
#[verifier::ext_equal]
pub ghost struct ChunkModel {
    pub type_code: Seq<u8>,
    pub data: Seq<u8>,
    pub crc: u32,
}

impl ChunkModel {
    /// Every chunk the library hands out satisfies this: a four-byte type
    /// code, a payload whose length fits the wire's 32-bit field, and a
    /// checksum that is the digest of type code and payload.
    pub open spec fn wf(self) -> bool {
        &&& self.type_code.len() == 4
        &&& self.data.len() <= u32::MAX
        &&& self.crc == crc32_of(self.type_code + self.data)
    }

    /// The record's wire form: big-endian payload length, type code, payload,
    /// big-endian checksum, with nothing between.
    pub open spec fn wire(self) -> Seq<u8> {
        spec_u32_to_be(self.data.len() as u32) + self.type_code + self.data + spec_u32_to_be(
            self.crc,
        )
    }
}

/// Reading one record from the front of a buffer: a big-endian length, four
/// type bytes, that many payload bytes, then a big-endian checksum. Too few
/// bytes at any step is `Truncated`; a checksum that disagrees with the digest
/// recomputed over type code and payload is `ChecksumMismatch`. Bytes past the
/// record are left for the caller.
pub open spec fn spec_parse_chunk(bytes: Seq<u8>) -> Result<ChunkModel, PngError> {
    if bytes.len() < 4 {
        Err(PngError::Truncated)
    } else {
        let n = spec_u32_from_be(bytes.subrange(0, 4)) as int;
        if bytes.len() < 12 + n {
            Err(PngError::Truncated)
        } else {
            let type_code = bytes.subrange(4, 8);
            let data = bytes.subrange(8, 8 + n);
            let wire_crc = spec_u32_from_be(bytes.subrange(8 + n, 12 + n));
            if wire_crc != crc32_of(type_code + data) {
                Err(PngError::ChecksumMismatch)
            } else {
                Ok(ChunkModel { type_code, data, crc: wire_crc })
            }
        }
    }
}

/// How many bytes the record at the front of the buffer occupies; meaningful
/// when `spec_parse_chunk` succeeds.
pub open spec fn spec_chunk_wire_len(bytes: Seq<u8>) -> int {
    12 + spec_u32_from_be(bytes.subrange(0, 4))
}

/// One length-prefixed, checksummed record. Immutable once built: either
/// fresh from a type code and a payload, with the checksum computed, or parsed
/// from bytes, with the wire checksum verified.
#[derive(Debug)]
pub struct Chunk {
    length: u32,
    chunk_type: ChunkType,
    chunk_data: Vec<u8>,
    crc: u32,
}

impl View for Chunk {
    type V = ChunkModel;

    closed spec fn view(&self) -> ChunkModel {
        ChunkModel { type_code: self.chunk_type@, data: self.chunk_data@, crc: self.crc }
    }
}

impl Chunk {
    #[verifier::type_invariant]
    closed spec fn inv(self) -> bool {
        &&& self.length == self.chunk_data@.len()
        &&& self@.wf()
    }

    /// A fresh record over the given type code and payload; the checksum is
    /// computed from them, so the result is well formed by construction.
    pub fn new(chunk_type: ChunkType, data: Vec<u8>) -> (c: Chunk)
        requires
            data@.len() <= u32::MAX,
        ensures
            c@ == (ChunkModel {
                type_code: chunk_type@,
                data: data@,
                crc: crc32_of(chunk_type@ + data@),
            }),
    {
        let length = data.len() as u32;
        let crc = Chunk::get_chunk_checksum(&chunk_type.name, &data);
        Chunk { length, crc, chunk_type, chunk_data: data }
    }

    /// The digest over the four type-code bytes followed by the payload bytes.
    pub fn get_chunk_checksum(chunk_type: &[u8; 4], chunk_data: &Vec<u8>) -> (r: u32)
        ensures
            r == crc32_of(chunk_type@ + chunk_data@),
    {
        let mut buf: Vec<u8> = Vec::new();
        buf.push(chunk_type[0]);
        buf.push(chunk_type[1]);
        buf.push(chunk_type[2]);
        buf.push(chunk_type[3]);
        append_bytes(&mut buf, chunk_data.as_slice());
        proof {
            assert(buf@ =~= chunk_type@ + chunk_data@);
        }
        crc32_checksum(buf.as_slice())
    }

    /// The declared payload length, always the payload's byte count.
    pub fn length(&self) -> (r: u32)
        ensures
            r == self@.data.len(),
    {
        proof {
            use_type_invariant(&*self);
        }
        self.length
    }

    /// The record's type code.
    pub fn chunk_type(&self) -> (r: &ChunkType)
        ensures
            r@ == self@.type_code,
    {
        &self.chunk_type
    }

    /// The payload bytes.
    pub fn data(&self) -> (r: &[u8])
        ensures
            r@ == self@.data,
    {
        self.chunk_data.as_slice()
    }

    /// The checksum, always the digest of type code and payload.
    pub fn crc(&self) -> (r: u32)
        ensures
            r == self@.crc,
            r == crc32_of(self@.type_code + self@.data),
    {
        proof {
            use_type_invariant(&*self);
        }
        self.crc
    }

    /// The payload decoded as text; fails, and never panics, when the bytes
    /// are not valid UTF-8.
    pub fn data_as_string(&self) -> (r: Result<String, PngError>)
        ensures
            match r {
                Ok(s) => vstd::utf8::valid_utf8(self@.data) && s@ == vstd::utf8::decode_utf8(
                    self@.data,
                ),
                Err(e) => e == PngError::InvalidUtf8 && !vstd::utf8::valid_utf8(self@.data),
            },
    {
        match bytes_to_utf8(&self.chunk_data) {
            Some(s) => Ok(s),
            None => Err(PngError::InvalidUtf8),
        }
    }

    /// The record's exact wire form. Every chunk value is well formed — the
    /// constructors allow nothing else — so the ensures says so too.
    pub fn as_bytes(&self) -> (r: Vec<u8>)
        ensures
            r@ == self@.wire(),
            self@.wf(),
    {
        proof {
            use_type_invariant(&*self);
        }
        let mut out: Vec<u8> = Vec::new();
        push_u32_be(&mut out, self.length);
        out.push(self.chunk_type.name[0]);
        out.push(self.chunk_type.name[1]);
        out.push(self.chunk_type.name[2]);
        out.push(self.chunk_type.name[3]);
        append_bytes(&mut out, self.chunk_data.as_slice());
        push_u32_be(&mut out, self.crc);
        proof {
            assert(out@ =~= self@.wire());
        }
        out
    }

    /// Reads one record from the front of `bytes`, exactly as
    /// `spec_parse_chunk` describes, and returns it with the count of bytes it
    /// occupied, so the caller can go on with what follows.
    pub fn parse(bytes: &[u8]) -> (r: Result<(Chunk, usize), PngError>)
        ensures
            match r {
                Ok(p) => {
                    &&& spec_parse_chunk(bytes@) == Ok::<ChunkModel, PngError>(p.0@)
                    &&& p.1 == spec_chunk_wire_len(bytes@)
                    &&& 12 <= p.1 <= bytes@.len()
                },
                Err(e) => spec_parse_chunk(bytes@) == Err::<ChunkModel, PngError>(e),
            },
    {
        if bytes.len() < 4 {
            return Err(PngError::Truncated);
        }
        let n = u32_from_be_at(bytes, 0);
        let n_us = n as usize;
        if bytes.len() < 12 || bytes.len() - 12 < n_us {
            return Err(PngError::Truncated);
        }
        let blen = bytes.len();
        let name = [bytes[4], bytes[5], bytes[6], bytes[7]];
        proof {
            assert(name@ =~= bytes@.subrange(4, 8));
        }
        let mut data: Vec<u8> = Vec::new();
        let mut i: usize = 0;
        while i < n_us
            invariant
                n_us + 12 <= blen,
                blen == bytes@.len(),
                i <= n_us,
                data@ == bytes@.subrange(8, 8 + i as int),
            decreases n_us - i,
        {
            data.push(bytes[8 + i]);
            i = i + 1;
            proof {
                assert(data@ =~= bytes@.subrange(8, 8 + i as int));
            }
        }
        let wire_crc = u32_from_be_at(bytes, 8 + n_us);
        let computed = Chunk::get_chunk_checksum(&name, &data);
        if wire_crc != computed {
            return Err(PngError::ChecksumMismatch);
        }
        let chunk = Chunk {
            length: n,
            chunk_type: ChunkType { name },
            chunk_data: data,
            crc: wire_crc,
        };
        Ok((chunk, 12 + n_us))
    }
}

/// Appends all of `src` to `out`.
fn append_bytes(out: &mut Vec<u8>, src: &[u8])
    ensures
        final(out)@ == old(out)@ + src@,
{
    let mut i: usize = 0;
    while i < src.len()
        invariant
            i <= src@.len(),
            out@ == old(out)@ + src@.subrange(0, i as int),
        decreases src@.len() - i,
    {
        out.push(src[i]);
        i = i + 1;
        proof {
            assert(out@ =~= old(out)@ + src@.subrange(0, i as int));
        }
    }
    proof {
        assert(out@ =~= old(out)@ + src@);
    }
}

/// Parsing a well-formed record's wire form, with any bytes after it, yields
/// the record itself: serialization round-trips through parsing.
pub proof fn lemma_chunk_wire_round_trip(m: ChunkModel, rest: Seq<u8>)
    requires
        m.wf(),
    ensures
        spec_parse_chunk(m.wire() + rest) == Ok::<ChunkModel, PngError>(m),
        spec_chunk_wire_len(m.wire() + rest) == m.wire().len(),
{
    let bytes = m.wire() + rest;
    let n = m.data.len() as int;
    lemma_u32_be_write_read(m.data.len() as u32);
    lemma_u32_be_write_read(m.crc);
    assert(bytes.subrange(0, 4) =~= spec_u32_to_be(m.data.len() as u32));
    assert(bytes.len() >= 12 + n);
    assert(bytes.subrange(4, 8) =~= m.type_code);
    assert(bytes.subrange(8, 8 + n) =~= m.data);
    assert(bytes.subrange(8 + n, 12 + n) =~= spec_u32_to_be(m.crc));
}

/// A record parsed from bytes re-serializes to exactly the bytes it occupied:
/// parsing round-trips through serialization.
pub proof fn lemma_chunk_parse_then_wire(bytes: Seq<u8>)
    requires
        spec_parse_chunk(bytes) is Ok,
    ensures
        ({
            let m = spec_parse_chunk(bytes)->Ok_0;
            &&& m.wf()
            &&& 12 <= spec_chunk_wire_len(bytes) <= bytes.len()
            &&& m.wire() == bytes.subrange(0, spec_chunk_wire_len(bytes))
        }),
{
    let m = spec_parse_chunk(bytes)->Ok_0;
    let n = spec_u32_from_be(bytes.subrange(0, 4)) as int;
    lemma_u32_be_read_write(bytes.subrange(0, 4));
    lemma_u32_be_read_write(bytes.subrange(8 + n, 12 + n));
    assert(m.data.len() == n);
    assert(spec_u32_to_be(m.data.len() as u32) == bytes.subrange(0, 4));
    assert(m.wire() =~= bytes.subrange(0, 12 + n));
}

} // verus!
