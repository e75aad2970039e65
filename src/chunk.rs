//! A chunk: a length-prefixed, CRC-checked record holding a type code and a
//! payload, and its wire encoding.

use vstd::prelude::*;
use crate::chunk_type;
use crate::chunk_type::{ChunkType, chars_of, validation_of, valid_type_code};
use vstd::string::StringExecFns;
use vstd::utf8::{decode_utf8, valid_utf8};

verus! {

/// The four bytes of `n`, most significant first.
pub open spec fn be_bytes(n: u32) -> Seq<u8> {
    seq![
        (n / 0x1000000) as u8,
        ((n / 0x10000) % 0x100) as u8,
        ((n / 0x100) % 0x100) as u8,
        (n % 0x100) as u8,
    ]
}

/// The number whose big-endian bytes are the first four of `b`.
pub open spec fn be_value(b: Seq<u8>) -> u32 {
    (b[0] * 0x1000000 + b[1] * 0x10000 + b[2] * 0x100 + b[3]) as u32
}

/// The CRC-32/ISO-HDLC checksum of `bytes`.
pub uninterp spec fn crc32_of(bytes: Seq<u8>) -> u32;

/// Relies on `crc::Crc::<u32>::checksum` with the `CRC_32_ISO_HDLC`
/// algorithm: the checksum depends on the bytes alone.
#[verifier::external_body]
fn checksum(bytes: &[u8]) -> (r: u32)
    ensures
        r == crc32_of(bytes@),
{
    crc::Crc::<u32>::new(&crc::CRC_32_ISO_HDLC).checksum(bytes)
}

/// `std::str::Utf8Error`, carried through as it is.
#[verifier::external_type_specification]
#[verifier::external_body]
pub struct ExUtf8Error(std::str::Utf8Error);

/// Relies on `std::str::from_utf8`: it succeeds exactly on valid UTF-8, and
/// the text it returns is the bytes decoded, with no copy.
#[verifier::external_body]
fn text_of(bytes: &[u8]) -> (r: Result<&str, std::str::Utf8Error>)
    ensures
        r is Ok <==> valid_utf8(bytes@),
        r matches Ok(s) ==> s@ == decode_utf8(bytes@),
{
    std::str::from_utf8(bytes)
}

/// The text that `{:?}` gives for a list of bytes.
pub uninterp spec fn debug_text_of(bytes: Seq<u8>) -> Seq<char>;

/// Relies on `<[u8] as Debug>::fmt`, through `format!`: the text depends on
/// the bytes alone.
#[verifier::external_body]
fn debug_text(bytes: &[u8]) -> (r: String)
    ensures
        r@ == debug_text_of(bytes@),
{
    format!("{:?}", bytes)
}

/// How a payload is shown: as text where it is UTF-8, else as a list of bytes.
pub open spec fn shown_data(data: Seq<u8>) -> Seq<char> {
    if valid_utf8(data) {
        decode_utf8(data)
    } else {
        debug_text_of(data)
    }
}

/// A payload of `n` bytes fits a record: its length fits the 32-bit length
/// field, and the whole record fits in memory.
pub open spec fn payload_fits(n: nat) -> bool {
    n <= u32::MAX && n + 12 <= usize::MAX
}

/// The wire form of a chunk with type code `code` and payload `data`.
pub open spec fn chunk_bytes(code: Seq<u8>, data: Seq<u8>) -> Seq<u8> {
    be_bytes(data.len() as u32) + code + data + be_bytes(crc32_of(code + data))
}

/// Why bytes could not be read as a record.
#[derive(Debug, Clone, Copy, PartialEq, Eq, Structural)]
pub enum ParseError {
    /// The bytes end before the header, or before the payload and checksum
    /// that the length field announces.
    Truncated,
}

/// Why a complete record is not a valid chunk.
#[derive(Debug, Clone, Copy, PartialEq, Eq, Structural)]
pub enum ValidationError {
    /// The type code is not valid.
    ChunkType(chunk_type::ValidationError),
    /// The checksum field differs from the checksum of type and payload.
    CRC32Mismatch { expected: u32, actual: u32 },
}

/// Why bytes could not be decoded into a chunk.
#[derive(Debug, Clone, Copy, PartialEq, Eq, Structural)]
pub enum ChunkError {
    Validation(ValidationError),
    Parse(ParseError),
}

/// The payload length announced by the first four bytes of `b`.
pub open spec fn declared_len(b: Seq<u8>) -> int {
    be_value(b.subrange(0, 4)) as int
}

/// `b` holds a whole record: its header and the payload and checksum that the
/// header announces.
pub open spec fn holds_record(b: Seq<u8>) -> bool {
    b.len() >= 4 && b.len() >= 12 + declared_len(b)
}

/// The number of bytes of the record at the start of `b`.
pub open spec fn record_len(b: Seq<u8>) -> int {
    12 + declared_len(b)
}

/// The type code and payload of the record at the start of `b`, or why there
/// is none. The type is checked before the checksum.
pub open spec fn decode_chunk_spec(b: Seq<u8>) -> Result<(Seq<u8>, Seq<u8>), ChunkError> {
    if !holds_record(b) {
        Err(ChunkError::Parse(ParseError::Truncated))
    } else {
        let n = declared_len(b);
        let code = b.subrange(4, 8);
        let data = b.subrange(8, 8 + n);
        let stored = be_value(b.subrange(8 + n, 12 + n));
        match validation_of(code) {
            Err(e) => Err(ChunkError::Validation(ValidationError::ChunkType(e))),
            Ok(_) => if crc32_of(code + data) != stored {
                Err(
                    ChunkError::Validation(
                        ValidationError::CRC32Mismatch {
                            expected: crc32_of(code + data),
                            actual: stored,
                        },
                    ),
                )
            } else {
                Ok((code, data))
            },
        }
    }
}

/// Reading back the big-endian bytes of `n` gives `n`.
pub proof fn lemma_be_value_of_bytes(n: u32)
    ensures
        be_value(be_bytes(n)) == n,
{
    let b = be_bytes(n);
    assert(b[0] == n / 0x1000000);
    assert(b[1] == (n / 0x10000) % 0x100);
    assert(b[2] == (n / 0x100) % 0x100);
    assert(b[3] == n % 0x100);
    assert((n / 0x1000000) * 0x1000000 + ((n / 0x10000) % 0x100) * 0x10000 + ((n / 0x100)
        % 0x100) * 0x100 + n % 0x100 == n) by (nonlinear_arith);
}

/// Four bytes are the big-endian bytes of the number they spell.
pub proof fn lemma_bytes_of_be_value(b: Seq<u8>)
    requires
        b.len() == 4,
    ensures
        be_bytes(be_value(b)) == b,
{
    let (b0, b1, b2, b3) = (b[0] as int, b[1] as int, b[2] as int, b[3] as int);
    let v = b0 * 0x1000000 + b1 * 0x10000 + b2 * 0x100 + b3;
    assert(v / 0x1000000 == b0 && (v / 0x10000) % 0x100 == b1 && (v / 0x100) % 0x100 == b2 && v
        % 0x100 == b3) by (nonlinear_arith)
        requires
            v == b0 * 0x1000000 + b1 * 0x10000 + b2 * 0x100 + b3,
            0 <= b0 < 256,
            0 <= b1 < 256,
            0 <= b2 < 256,
            0 <= b3 < 256,
    ;
    assert(be_bytes(be_value(b)) =~= b);
}

/// Where each field of the wire form of a chunk lies.
pub proof fn lemma_chunk_layout(code: Seq<u8>, data: Seq<u8>)
    requires
        code.len() == 4,
        data.len() <= u32::MAX,
    ensures
        ({
            let b = chunk_bytes(code, data);
            let n = data.len() as int;
            &&& b.len() == 12 + n
            &&& b.subrange(0, 4) == be_bytes(n as u32)
            &&& declared_len(b) == n
            &&& b.subrange(4, 8) == code
            &&& b.subrange(8, 8 + n) == data
            &&& b.subrange(8 + n, 12 + n) == be_bytes(crc32_of(code + data))
        }),
{
    let b = chunk_bytes(code, data);
    let n = data.len() as int;
    lemma_be_value_of_bytes(n as u32);
    assert(b.subrange(0, 4) =~= be_bytes(n as u32));
    assert(b.subrange(4, 8) =~= code);
    assert(b.subrange(8, 8 + n) =~= data);
    assert(b.subrange(8 + n, 12 + n) =~= be_bytes(crc32_of(code + data)));
}

/// Decoding the wire form of a valid type code and a payload that fits gives
/// back that type code and payload, and the record spans the whole form.
pub proof fn lemma_chunk_round_trip(code: Seq<u8>, data: Seq<u8>)
    requires
        valid_type_code(code),
        payload_fits(data.len()),
    ensures
        decode_chunk_spec(chunk_bytes(code, data)) == Ok::<_, ChunkError>((code, data)),
        record_len(chunk_bytes(code, data)) == chunk_bytes(code, data).len(),
{
    lemma_chunk_layout(code, data);
    lemma_be_value_of_bytes(crc32_of(code + data));
}

/// A record decodes the same whatever bytes follow it.
pub proof fn lemma_chunk_decodes_before_more(code: Seq<u8>, data: Seq<u8>, more: Seq<u8>)
    requires
        valid_type_code(code),
        payload_fits(data.len()),
    ensures
        decode_chunk_spec(chunk_bytes(code, data) + more) == Ok::<_, ChunkError>((code, data)),
        record_len(chunk_bytes(code, data) + more) == chunk_bytes(code, data).len(),
{
    let b = chunk_bytes(code, data);
    let n = data.len() as int;
    let whole = b + more;
    lemma_chunk_layout(code, data);
    lemma_be_value_of_bytes(crc32_of(code + data));
    assert(whole.subrange(0, 4) =~= b.subrange(0, 4));
    assert(whole.subrange(4, 8) =~= b.subrange(4, 8));
    assert(whole.subrange(8, 8 + n) =~= b.subrange(8, 8 + n));
    assert(whole.subrange(8 + n, 12 + n) =~= b.subrange(8 + n, 12 + n));
}

/// A record that decodes is the wire form of what it decodes to.
pub proof fn lemma_record_reencodes(b: Seq<u8>)
    requires
        decode_chunk_spec(b) is Ok,
    ensures
        ({
            let (code, data) = decode_chunk_spec(b)->Ok_0;
            &&& valid_type_code(code)
            &&& data.len() == declared_len(b)
            &&& data.len() <= u32::MAX
            &&& chunk_bytes(code, data) == b.subrange(0, record_len(b))
        }),
{
    let n = declared_len(b);
    let code = b.subrange(4, 8);
    let data = b.subrange(8, 8 + n);
    lemma_bytes_of_be_value(b.subrange(0, 4));
    lemma_bytes_of_be_value(b.subrange(8 + n, 12 + n));
    assert(data.len() as u32 == be_value(b.subrange(0, 4)));
    assert(chunk_bytes(code, data) =~= b.subrange(0, record_len(b)));
}

/// Changing any byte of a record's checksum field, and so flipping any bit of
/// it, makes decoding fail with a checksum mismatch.
pub proof fn lemma_checksum_change_detected(code: Seq<u8>, data: Seq<u8>, i: int, v: u8)
    requires
        valid_type_code(code),
        payload_fits(data.len()),
        8 + data.len() <= i < 12 + data.len(),
        v != chunk_bytes(code, data)[i],
    ensures
        decode_chunk_spec(chunk_bytes(code, data).update(i, v)) matches Err(
            ChunkError::Validation(ValidationError::CRC32Mismatch { .. }),
        ),
{
    let b = chunk_bytes(code, data);
    let c = b.update(i, v);
    let n = data.len() as int;
    let crc = crc32_of(code + data);
    lemma_chunk_layout(code, data);
    assert(c.subrange(0, 4) =~= b.subrange(0, 4));
    assert(c.subrange(4, 8) =~= b.subrange(4, 8));
    assert(c.subrange(8, 8 + n) =~= b.subrange(8, 8 + n));
    let stored = c.subrange(8 + n, 12 + n);
    assert(stored != be_bytes(crc)) by {
        assert(stored[i - 8 - n] == v);
        assert(b.subrange(8 + n, 12 + n)[i - 8 - n] == b[i]);
    }
    lemma_bytes_of_be_value(stored);
}

/// Changing a byte of a record's length field so that it announces a longer
/// payload makes decoding fail: the record is then cut short.
pub proof fn lemma_length_growth_detected(code: Seq<u8>, data: Seq<u8>, i: int, v: u8)
    requires
        valid_type_code(code),
        payload_fits(data.len()),
        0 <= i < 4,
        declared_len(chunk_bytes(code, data).update(i, v)) > data.len(),
    ensures
        decode_chunk_spec(chunk_bytes(code, data).update(i, v)) == Err::<(Seq<u8>, Seq<u8>), _>(
            ChunkError::Parse(ParseError::Truncated),
        ),
{
}

/// Changing a byte of a record's type code so that the code is no longer valid
/// makes decoding fail on the type, before the checksum is looked at.
pub proof fn lemma_type_change_detected(code: Seq<u8>, data: Seq<u8>, i: int, v: u8)
    requires
        valid_type_code(code),
        payload_fits(data.len()),
        4 <= i < 8,
        !valid_type_code(code.update(i - 4, v)),
    ensures
        decode_chunk_spec(chunk_bytes(code, data).update(i, v)) matches Err(
            ChunkError::Validation(ValidationError::ChunkType(_)),
        ),
{
    let b = chunk_bytes(code, data);
    let c = b.update(i, v);
    lemma_chunk_layout(code, data);
    assert(c.subrange(0, 4) =~= b.subrange(0, 4));
    assert(c.subrange(4, 8) =~= code.update(i - 4, v));
}

/// A chunk: a type and a payload. Its view is the pair of the type's four
/// bytes and the payload.
#[derive(Debug)]
pub struct Chunk {
    chunk_type: ChunkType,
    data: Vec<u8>,
}

impl View for Chunk {
    type V = (Seq<u8>, Seq<u8>);

    closed spec fn view(&self) -> (Seq<u8>, Seq<u8>) {
        (self.chunk_type@, self.data@)
    }
}

impl Clone for Chunk {
    fn clone(&self) -> (r: Chunk)
        ensures
            r@ == self@,
    {
        proof {
            use_type_invariant(self);
        }
        Chunk { chunk_type: self.chunk_type, data: self.data.clone() }
    }
}

impl<'a> TryFrom<&'a [u8]> for Chunk {
    type Error = ChunkError;

    fn try_from(bytes: &'a [u8]) -> (r: Result<Chunk, ChunkError>)
        ensures
            match r {
                Ok(c) => decode_chunk_spec(bytes@) == Ok::<_, ChunkError>(c@),
                Err(e) => decode_chunk_spec(bytes@) == Err::<(Seq<u8>, Seq<u8>), _>(e),
            },
    {
        Chunk::decode(bytes)
    }
}

impl<'a> vstd::std_specs::convert::TryFromSpecImpl<&'a [u8]> for Chunk {
    open spec fn obeys_try_from_spec() -> bool {
        false
    }

    open spec fn try_from_spec(bytes: &'a [u8]) -> Result<Chunk, ChunkError> {
        arbitrary()
    }
}

fn push_be(out: &mut Vec<u8>, n: u32)
    ensures
        final(out)@ == old(out)@ + be_bytes(n),
{
    out.push((n / 0x1000000) as u8);
    out.push(((n / 0x10000) % 0x100) as u8);
    out.push(((n / 0x100) % 0x100) as u8);
    out.push((n % 0x100) as u8);
    proof {
        assert(final(out)@ =~= old(out)@ + be_bytes(n));
    }
}

fn read_be(b: &[u8], at: usize) -> (r: u32)
    requires
        at + 4 <= b@.len(),
    ensures
        r == be_value(b@.subrange(at as int, at + 4)),
{
    (b[at] as u32) * 0x1000000 + (b[at + 1] as u32) * 0x10000 + (b[at + 2] as u32) * 0x100
        + (b[at + 3] as u32)
}

impl Chunk {
    #[verifier::type_invariant]
    spec fn inv(&self) -> bool {
        payload_fits(self.data@.len())
    }

    /// The number of bytes that a record adds to its payload: length, type
    /// and checksum fields.
    pub const OVERHEAD_BYTES: usize = 12;

    /// The chunk with type `chunk_type` and payload `data`.
    pub fn new(chunk_type: ChunkType, data: Vec<u8>) -> (r: Chunk)
        requires
            payload_fits(data@.len()),
        ensures
            r@ == (chunk_type@, data@),
    {
        Chunk { chunk_type, data }
    }

    /// The chunk whose record starts `bytes`, and the length of that record.
    /// Bytes after the record are left alone.
    pub fn decode_prefix(bytes: &[u8]) -> (r: Result<(Chunk, usize), ChunkError>)
        ensures
            match r {
                Ok((c, n)) => decode_chunk_spec(bytes@) == Ok::<_, ChunkError>(c@) && n
                    == record_len(bytes@),
                Err(e) => decode_chunk_spec(bytes@) == Err::<(Seq<u8>, Seq<u8>), _>(e),
            },
    {
        let total = bytes.len();
        if total < 4 {
            return Err(ChunkError::Parse(ParseError::Truncated));
        }
        let length = read_be(bytes, 0);
        let n = length as usize;
        if total - 4 < 8 || total - 12 < n {
            return Err(ChunkError::Parse(ParseError::Truncated));
        }
        let code: [u8; 4] = [bytes[4], bytes[5], bytes[6], bytes[7]];
        proof {
            assert(code@ =~= bytes@.subrange(4, 8));
        }
        let chunk_type = match ChunkType::from_bytes(code) {
            Ok(t) => t,
            Err(e) => {
                return Err(ChunkError::Validation(ValidationError::ChunkType(e)));
            },
        };
        let data = vstd::slice::slice_to_vec(&bytes[8..8 + n]);
        let stored = read_be(bytes, 8 + n);
        let chunk = Chunk { chunk_type, data };
        let expected = chunk.crc();
        if expected != stored {
            return Err(
                ChunkError::Validation(ValidationError::CRC32Mismatch { expected, actual: stored }),
            );
        }
        Ok((chunk, 12 + n))
    }

    /// The chunk whose record starts `bytes`.
    pub fn decode(bytes: &[u8]) -> (r: Result<Chunk, ChunkError>)
        ensures
            match r {
                Ok(c) => decode_chunk_spec(bytes@) == Ok::<_, ChunkError>(c@),
                Err(e) => decode_chunk_spec(bytes@) == Err::<(Seq<u8>, Seq<u8>), _>(e),
            },
    {
        match Chunk::decode_prefix(bytes) {
            Ok((c, _)) => Ok(c),
            Err(e) => Err(e),
        }
    }

    /// The payload as text, if it is valid UTF-8.
    pub fn data_as_str(&self) -> (r: Result<&str, std::str::Utf8Error>)
        ensures
            r is Ok <==> valid_utf8(self@.1),
            r matches Ok(s) ==> s@ == decode_utf8(self@.1),
    {
        text_of(self.data.as_slice())
    }

    /// The chunk shown as text: its type, then its payload.
    pub fn to_string(&self) -> (r: String)
        ensures
            r@ == "Chunk Type: "@ + chars_of(self@.0) + "\nData: "@ + shown_data(self@.1),
    {
        let mut out = String::from_str("Chunk Type: ");
        out.append(self.chunk_type.to_string().as_str());
        out.append("\nData: ");
        match text_of(self.data.as_slice()) {
            Ok(text) => out.append(text),
            Err(_) => out.append(debug_text(self.data.as_slice()).as_str()),
        }
        out
    }

    /// The number of payload bytes.
    pub fn length(&self) -> (r: u32)
        ensures
            r == self@.1.len(),
    {
        proof {
            use_type_invariant(self);
        }
        self.data.len() as u32
    }

    /// The chunk's type.
    pub fn chunk_type(&self) -> (r: &ChunkType)
        ensures
            r@ == self@.0,
    {
        &self.chunk_type
    }

    /// The payload.
    pub fn data(&self) -> (r: &[u8])
        ensures
            r@ == self@.1,
            payload_fits(r@.len()),
    {
        proof {
            use_type_invariant(self);
        }
        self.data.as_slice()
    }

    /// The CRC-32/ISO-HDLC checksum of the type code followed by the payload.
    pub fn crc(&self) -> (r: u32)
        ensures
            r == crc32_of(self@.0 + self@.1),
    {
        let code = self.chunk_type.bytes();
        let mut covered: Vec<u8> = Vec::new();
        covered.extend_from_slice(code.as_slice());
        covered.extend_from_slice(self.data.as_slice());
        proof {
            assert(covered@ =~= self@.0 + self@.1);
        }
        checksum(covered.as_slice())
    }

    /// The wire form: length, type code, payload and checksum.
    pub fn as_bytes(&self) -> (r: Vec<u8>)
        ensures
            r@ == chunk_bytes(self@.0, self@.1),
            r@.len() == self@.1.len() + 12,
    {
        proof {
            use_type_invariant(self);
        }
        let mut out: Vec<u8> = Vec::new();
        push_be(&mut out, self.length());
        let code = self.chunk_type.bytes();
        out.extend_from_slice(code.as_slice());
        out.extend_from_slice(self.data.as_slice());
        push_be(&mut out, self.crc());
        out
    }
}

} // verus!
