//! The four-byte type code of a PNG chunk, with the properties that the
//! case of each byte encodes.

use vstd::prelude::*;
use vstd::string::StringSliceAdditionalSpecFns;

verus! {

/// `b` is an ASCII capital letter.
pub open spec fn is_upper(b: u8) -> bool {
    65 <= b <= 90
}

/// `b` is an ASCII small letter.
pub open spec fn is_lower(b: u8) -> bool {
    97 <= b <= 122
}

/// `b` is an ASCII letter of either case.
pub open spec fn is_letter(b: u8) -> bool {
    is_upper(b) || is_lower(b)
}

/// Every byte of `code` is an ASCII letter.
pub open spec fn all_letters(code: Seq<u8>) -> bool {
    forall|i: int| 0 <= i < code.len() ==> #[trigger] is_letter(code[i])
}

/// A type code that a chunk may carry: four ASCII letters, the third of
/// them capital (the reserved bit).
pub open spec fn valid_type_code(code: Seq<u8>) -> bool {
    &&& code.len() == 4
    &&& all_letters(code)
    &&& is_upper(code[2])
}

/// Why a four-byte code is not a valid chunk type.
#[derive(Debug, Clone, Copy, PartialEq, Eq, Structural)]
pub enum ValidationError {
    /// A byte is not an ASCII letter.
    NonAscii,
    /// The third byte is not a capital letter.
    ReservedBit,
}

/// The outcome of validating `code`, as `ChunkType::from_bytes` reports it.
pub open spec fn validation_of(code: Seq<u8>) -> Result<(), ValidationError> {
    if !all_letters(code) {
        Err(ValidationError::NonAscii)
    } else if !is_upper(code[2]) {
        Err(ValidationError::ReservedBit)
    } else {
        Ok(())
    }
}

/// Why a string does not name a chunk type.
#[derive(Debug, Clone, Copy, PartialEq, Eq, Structural)]
pub enum ParseError {
    /// The string is not four bytes long; the field is its length in bytes.
    InvalidLength(usize),
}

/// Either way in which reading a chunk type from a string fails.
#[derive(Debug, Clone, Copy, PartialEq, Eq, Structural)]
pub enum ChunkTypeError {
    Parse(ParseError),
    Validation(ValidationError),
}

/// The characters that stand for the bytes of `code`, one for one.
pub open spec fn chars_of(code: Seq<u8>) -> Seq<char> {
    code.map_values(|b: u8| b as char)
}

/// Relies on `String::push`: the character is appended.
#[verifier::external_body]
fn push_char(s: &mut String, c: char)
    ensures
        final(s)@ == old(s)@.push(c),
{
    s.push(c);
}

/// A chunk type code. Its view is the sequence of its four bytes.
#[derive(Debug, Clone, Copy)]
pub struct ChunkType {
    type_code: [u8; 4],
}

impl View for ChunkType {
    type V = Seq<u8>;

    closed spec fn view(&self) -> Seq<u8> {
        self.type_code@
    }
}

impl PartialEq for ChunkType {
    fn eq(&self, other: &ChunkType) -> (r: bool) {
        let r = self.type_code[0] == other.type_code[0] && self.type_code[1]
            == other.type_code[1] && self.type_code[2] == other.type_code[2]
            && self.type_code[3] == other.type_code[3];
        proof {
            if r {
                assert(self@ =~= other@);
            }
        }
        r
    }
}

impl vstd::std_specs::cmp::PartialEqSpecImpl for ChunkType {
    open spec fn obeys_eq_spec() -> bool {
        true
    }

    open spec fn eq_spec(&self, other: &ChunkType) -> bool {
        self@ == other@
    }
}

impl Eq for ChunkType {

}

impl TryFrom<[u8; 4]> for ChunkType {
    type Error = ValidationError;

    fn try_from(code: [u8; 4]) -> (r: Result<ChunkType, ValidationError>)
        ensures
            r is Ok <==> valid_type_code(code@),
            match r {
                Ok(t) => t@ == code@,
                Err(e) => validation_of(code@) == Err::<(), ValidationError>(e),
            },
    {
        ChunkType::from_bytes(code)
    }
}

impl vstd::std_specs::convert::TryFromSpecImpl<[u8; 4]> for ChunkType {
    open spec fn obeys_try_from_spec() -> bool {
        false
    }

    open spec fn try_from_spec(code: [u8; 4]) -> Result<ChunkType, ValidationError> {
        arbitrary()
    }
}

impl std::str::FromStr for ChunkType {
    type Err = ChunkTypeError;

    fn from_str(s: &str) -> (r: Result<ChunkType, ChunkTypeError>)
        ensures
            r is Ok <==> valid_type_code(s.spec_bytes()),
            match r {
                Ok(t) => t@ == s.spec_bytes(),
                Err(ChunkTypeError::Parse(e)) => s.spec_bytes().len() != 4 && e
                    == ParseError::InvalidLength(s.spec_bytes().len() as usize),
                Err(ChunkTypeError::Validation(e)) => s.spec_bytes().len() == 4 && validation_of(
                    s.spec_bytes(),
                ) == Err::<(), ValidationError>(e),
            },
    {
        ChunkType::from_string(s)
    }
}

fn is_upper_byte(b: u8) -> (r: bool)
    ensures
        r == is_upper(b),
{
    65 <= b && b <= 90
}

fn is_lower_byte(b: u8) -> (r: bool)
    ensures
        r == is_lower(b),
{
    97 <= b && b <= 122
}

fn is_letter_byte(b: u8) -> (r: bool)
    ensures
        r == is_letter(b),
{
    is_upper_byte(b) || is_lower_byte(b)
}

impl ChunkType {
    /// A chunk type holding `code` as it is, valid or not.
    pub fn new_unchecked(code: [u8; 4]) -> (r: ChunkType)
        ensures
            r@ == code@,
    {
        ChunkType { type_code: code }
    }

    /// The chunk type with code `code`, if `code` is valid.
    pub fn from_bytes(code: [u8; 4]) -> (r: Result<ChunkType, ValidationError>)
        ensures
            r is Ok <==> valid_type_code(code@),
            match r {
                Ok(t) => t@ == code@,
                Err(e) => validation_of(code@) == Err::<(), ValidationError>(e),
            },
    {
        let t = ChunkType { type_code: code };
        if !t.all_bytes_letters() {
            return Err(ValidationError::NonAscii);
        }
        if !t.is_reserved_bit_valid() {
            return Err(ValidationError::ReservedBit);
        }
        Ok(t)
    }

    fn all_bytes_letters(&self) -> (r: bool)
        ensures
            r == all_letters(self@),
    {
        let mut i: usize = 0;
        while i < 4
            invariant
                i <= 4,
                self@.len() == 4,
                forall|j: int| 0 <= j < i ==> #[trigger] is_letter(self@[j]),
            decreases 4 - i,
        {
            if !is_letter_byte(self.type_code[i]) {
                return false;
            }
            i = i + 1;
        }
        true
    }

    /// The four bytes of `s`, if it has exactly four.
    pub fn parse(s: &str) -> (r: Result<[u8; 4], ParseError>)
        ensures
            match r {
                Ok(code) => s.spec_bytes().len() == 4 && code@ == s.spec_bytes(),
                Err(e) => s.spec_bytes().len() != 4 && e == ParseError::InvalidLength(
                    s.spec_bytes().len() as usize,
                ),
            },
    {
        let b = s.as_bytes();
        let n = b.len();
        if n != 4 {
            return Err(ParseError::InvalidLength(n));
        }
        let code: [u8; 4] = [b[0], b[1], b[2], b[3]];
        proof {
            assert(code@ =~= b@);
        }
        Ok(code)
    }

    /// The chunk type named by the four bytes of `s`, if they are valid.
    pub fn from_string(s: &str) -> (r: Result<ChunkType, ChunkTypeError>)
        ensures
            r is Ok <==> valid_type_code(s.spec_bytes()),
            match r {
                Ok(t) => t@ == s.spec_bytes(),
                Err(ChunkTypeError::Parse(e)) => s.spec_bytes().len() != 4 && e
                    == ParseError::InvalidLength(s.spec_bytes().len() as usize),
                Err(ChunkTypeError::Validation(e)) => s.spec_bytes().len() == 4 && validation_of(
                    s.spec_bytes(),
                ) == Err::<(), ValidationError>(e),
            },
    {
        match ChunkType::parse(s) {
            Err(e) => Err(ChunkTypeError::Parse(e)),
            Ok(code) => match ChunkType::from_bytes(code) {
                Ok(t) => Ok(t),
                Err(e) => Err(ChunkTypeError::Validation(e)),
            },
        }
    }

    /// The code as text, each byte read as the character of the same number.
    pub fn to_string(&self) -> (r: String)
        ensures
            r@ == chars_of(self@),
    {
        let mut s = String::new();
        let mut i: usize = 0;
        while i < 4
            invariant
                i <= 4,
                self@.len() == 4,
                s@ == chars_of(self@.subrange(0, i as int)),
            decreases 4 - i,
        {
            push_char(&mut s, self.type_code[i] as char);
            proof {
                assert(self@.subrange(0, i + 1) =~= self@.subrange(0, i as int).push(self@[i as int]));
            }
            i = i + 1;
        }
        proof {
            assert(self@.subrange(0, 4) =~= self@);
        }
        s
    }

    /// The four bytes of the code.
    pub fn bytes(&self) -> (r: [u8; 4])
        ensures
            r@ == self@,
    {
        self.type_code
    }

    /// The first byte is a capital letter.
    pub fn is_critical(&self) -> (r: bool)
        ensures
            r == is_upper(self@[0]),
    {
        is_upper_byte(self.type_code[0])
    }

    /// The second byte is a capital letter.
    pub fn is_public(&self) -> (r: bool)
        ensures
            r == is_upper(self@[1]),
    {
        is_upper_byte(self.type_code[1])
    }

    /// The third byte is a capital letter.
    pub fn is_reserved_bit_valid(&self) -> (r: bool)
        ensures
            r == is_upper(self@[2]),
    {
        is_upper_byte(self.type_code[2])
    }

    /// The fourth byte is a small letter.
    pub fn is_safe_to_copy(&self) -> (r: bool)
        ensures
            r == is_lower(self@[3]),
    {
        is_lower_byte(self.type_code[3])
    }

    /// All four bytes are letters and the reserved bit is valid.
    pub fn is_valid(&self) -> (r: bool)
        ensures
            r == valid_type_code(self@),
    {
        self.all_bytes_letters() && self.is_reserved_bit_valid()
    }
}

} // verus!
