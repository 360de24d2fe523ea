use crate::encoding::decode_text;
use vstd::prelude::*;
use vstd::string::StringSliceAdditionalSpecFns;

verus! {

/// True when `b` is an ASCII letter (`A`-`Z` or `a`-`z`).
pub open spec fn is_tag_letter(b: u8) -> bool {
    (0x41 <= b <= 0x5A) || (0x61 <= b <= 0x7A)
}

/// True when `s` is four ASCII letters: the bytes a chunk type may hold.
pub open spec fn is_legal_tag(s: Seq<u8>) -> bool {
    &&& s.len() == 4
    &&& forall|i: int| 0 <= i < 4 ==> is_tag_letter(#[trigger] s[i])
}

/// Index of the first of four bytes that is not a letter, or 4 when all are.
pub open spec fn first_non_letter(s: Seq<u8>) -> int {
    if !is_tag_letter(s[0]) {
        0
    } else if !is_tag_letter(s[1]) {
        1
    } else if !is_tag_letter(s[2]) {
        2
    } else if !is_tag_letter(s[3]) {
        3
    } else {
        4
    }
}

/// The flag bit (bit 5, value `0x20`: the ASCII case bit) of a tag byte is clear.
pub open spec fn flag_clear(b: u8) -> bool {
    b % 64 < 32
}

/// Tests the flag bit of a tag byte.
fn flag_bit_clear(b: u8) -> (r: bool)
    ensures
        r == flag_clear(b),
{
    assert((b & 0x20 == 0) == (b % 64 < 32)) by (bit_vector);
    b & 0x20 == 0
}

/// Why a chunk type could not be built.
#[derive(Debug, Clone, Copy, PartialEq, Eq, Structural)]
pub enum ChunkTypeError {
    /// The source did not hold exactly four bytes; `len` is how many it held.
    InvalidLength { len: usize },
    /// The byte at `index` is not an ASCII letter.
    InvalidByte { index: usize, value: u8 },
}

/// What building a chunk type from four bytes gives.
pub open spec fn tag_from_bytes_spec(s: Seq<u8>) -> Result<Seq<u8>, ChunkTypeError> {
    if is_legal_tag(s) {
        Ok(s)
    } else {
        let i = first_non_letter(s);
        Err(ChunkTypeError::InvalidByte { index: i as usize, value: s[i] })
    }
}

/// What building a chunk type from the bytes of a string gives: the length
/// is checked first, then each byte.
pub open spec fn tag_from_str_spec(s: Seq<u8>) -> Result<Seq<u8>, ChunkTypeError> {
    if s.len() != 4 {
        Err(ChunkTypeError::InvalidLength { len: s.len() as usize })
    } else {
        tag_from_bytes_spec(s)
    }
}

/// The tag bytes read as ASCII characters.
pub open spec fn tag_text(s: Seq<u8>) -> Seq<char> {
    Seq::new(s.len(), |i: int| s[i] as char)
}

/// A string is accepted as a chunk type exactly when its bytes are four ASCII
/// letters, in any mix of cases; any other length is refused for its length,
/// and four bytes that are not all letters are refused for the first bad byte.
pub proof fn lemma_tag_str_legality(s: Seq<u8>)
    ensures
        tag_from_str_spec(s) is Ok <==> (s.len() == 4 && forall|i: int|
            0 <= i < 4 ==> is_tag_letter(#[trigger] s[i])),
        tag_from_str_spec(s) is Ok ==> tag_from_str_spec(s)->Ok_0 == s,
        s.len() != 4 ==> tag_from_str_spec(s) == Err::<Seq<u8>, ChunkTypeError>(
            ChunkTypeError::InvalidLength { len: s.len() as usize },
        ),
        s.len() == 4 && !is_legal_tag(s) ==> tag_from_str_spec(s) is Err && tag_from_str_spec(
            s,
        )->Err_0 is InvalidByte,
{
}

proof fn lemma_case_bit(b: u8)
    requires
        is_tag_letter(b),
    ensures
        is_tag_letter(b | 0x20),
        is_tag_letter(b & 0xdf),
        !flag_clear(b | 0x20),
        flag_clear(b & 0xdf),
{
    assert(((0x41 <= b <= 0x5A) || (0x61 <= b <= 0x7A)) ==> ((0x41 <= (b | 0x20) <= 0x5A) || (0x61
        <= (b | 0x20) <= 0x7A))) by (bit_vector);
    assert(((0x41 <= b <= 0x5A) || (0x61 <= b <= 0x7A)) ==> ((0x41 <= (b & 0xdf) <= 0x5A) || (0x61
        <= (b & 0xdf) <= 0x7A))) by (bit_vector);
    assert((b | 0x20) % 64 >= 32) by (bit_vector);
    assert((b & 0xdf) % 64 < 32) by (bit_vector);
}

/// Setting the reserved bit of a legal tag's third byte leaves a tag that can
/// still be built but is not valid; clearing it leaves one that is valid.
pub proof fn lemma_reserved_bit(s: Seq<u8>)
    requires
        is_legal_tag(s),
    ensures
        ({
            let set = s.update(2, s[2] | 0x20);
            tag_from_bytes_spec(set) == Ok::<Seq<u8>, ChunkTypeError>(set) && !flag_clear(set[2])
        }),
        ({
            let clear = s.update(2, s[2] & 0xdf);
            tag_from_bytes_spec(clear) == Ok::<Seq<u8>, ChunkTypeError>(clear) && flag_clear(
                clear[2],
            )
        }),
{
    lemma_case_bit(s[2]);
    let set = s.update(2, s[2] | 0x20);
    let clear = s.update(2, s[2] & 0xdf);
    assert(forall|i: int| 0 <= i < 4 ==> is_tag_letter(#[trigger] set[i]));
    assert(forall|i: int| 0 <= i < 4 ==> is_tag_letter(#[trigger] clear[i]));
}

/// A four-byte chunk type; each byte is an ASCII letter.
#[derive(Debug, Clone, Copy, PartialEq, Eq, Structural)]
pub struct ChunkType {
    ancillary_byte: u8,
    private_byte: u8,
    reserved_byte: u8,
    safe_to_copy_byte: u8,
}

impl View for ChunkType {
    type V = Seq<u8>;

    closed spec fn view(&self) -> Seq<u8> {
        seq![self.ancillary_byte, self.private_byte, self.reserved_byte, self.safe_to_copy_byte]
    }
}

impl ChunkType {
    #[verifier::type_invariant]
    closed spec fn inv(self) -> bool {
        is_legal_tag(self@)
    }

    /// The chunk type whose bytes are `s`.
    pub closed spec fn from_view(s: Seq<u8>) -> ChunkType {
        ChunkType { ancillary_byte: s[0], private_byte: s[1], reserved_byte: s[2], safe_to_copy_byte: s[3] }
    }

    /// The chunk type built from four bytes holds exactly those bytes.
    pub proof fn lemma_from_view(s: Seq<u8>)
        requires
            s.len() == 4,
        ensures
            ChunkType::from_view(s)@ == s,
    {
        assert(ChunkType::from_view(s)@ =~= s);
    }

    /// Checks four bytes and builds a chunk type from them.
    pub fn from_bytes(value: [u8; 4]) -> (r: Result<ChunkType, ChunkTypeError>)
        ensures
            match r {
                Ok(t) => tag_from_bytes_spec(value@) == Ok::<Seq<u8>, ChunkTypeError>(t@),
                Err(e) => tag_from_bytes_spec(value@) == Err::<Seq<u8>, ChunkTypeError>(e),
            },
    {
        let mut i: usize = 0;
        while i < 4
            invariant
                0 <= i <= 4,
                forall|j: int| 0 <= j < i ==> is_tag_letter(#[trigger] value@[j]),
            decreases 4 - i,
        {
            let b = value[i];
            if !is_letter(b) {
                return Err(ChunkTypeError::InvalidByte { index: i, value: b });
            }
            i = i + 1;
        }
        let t = ChunkType {
            ancillary_byte: value[0],
            private_byte: value[1],
            reserved_byte: value[2],
            safe_to_copy_byte: value[3],
        };
        assert(t@ =~= value@);
        Ok(t)
    }

    /// Checks the bytes of a string and builds a chunk type from them.
    pub fn from_string(s: &str) -> (r: Result<ChunkType, ChunkTypeError>)
        ensures
            match r {
                Ok(t) => tag_from_str_spec(s.spec_bytes()) == Ok::<Seq<u8>, ChunkTypeError>(t@),
                Err(e) => tag_from_str_spec(s.spec_bytes()) == Err::<Seq<u8>, ChunkTypeError>(e),
            },
    {
        let b = s.as_bytes();
        if b.len() != 4 {
            return Err(ChunkTypeError::InvalidLength { len: b.len() });
        }
        let arr = [b[0], b[1], b[2], b[3]];
        assert(arr@ =~= b@);
        ChunkType::from_bytes(arr)
    }

    /// The four bytes as ASCII text.
    pub fn to_string(&self) -> (r: String)
        ensures
            r@ == tag_text(self@),
    {
        let b = self.bytes();
        let mut v: Vec<u8> = Vec::new();
        v.push(b[0]);
        v.push(b[1]);
        v.push(b[2]);
        v.push(b[3]);
        let ghost chars = tag_text(self@);
        proof {
            assert(v@ =~= self@);
            assert(vstd::utf8::is_ascii_chars(chars));
            vstd::utf8::is_ascii_chars_encode_utf8(chars);
            assert(vstd::utf8::encode_utf8(chars) =~= v@);
            vstd::utf8::encode_utf8_valid_utf8(chars);
            vstd::utf8::encode_utf8_decode_utf8(chars);
        }
        match decode_text(v) {
            Some(text) => text,
            None => String::new(),
        }
    }

    /// The four bytes, in order.
    pub fn bytes(&self) -> (r: [u8; 4])
        ensures
            r@ == self@,
            is_legal_tag(self@),
    {
        proof {
            use_type_invariant(self);
        }
        let r = [self.ancillary_byte, self.private_byte, self.reserved_byte, self.safe_to_copy_byte];
        assert(r@ =~= self@);
        r
    }

    /// The tag conforms to the current revision: its reserved bit is clear.
    pub fn is_valid(&self) -> (r: bool)
        ensures
            r == flag_clear(self@[2]),
    {
        self.is_reserved_bit_valid()
    }

    /// The chunk is critical: the ancillary bit of byte 0 is clear.
    pub fn is_critical(&self) -> (r: bool)
        ensures
            r == flag_clear(self@[0]),
    {
        flag_bit_clear(self.ancillary_byte)
    }

    /// The chunk type is public: the private bit of byte 1 is clear.
    pub fn is_public(&self) -> (r: bool)
        ensures
            r == flag_clear(self@[1]),
    {
        flag_bit_clear(self.private_byte)
    }

    /// The reserved bit of byte 2 is clear.
    pub fn is_reserved_bit_valid(&self) -> (r: bool)
        ensures
            r == flag_clear(self@[2]),
    {
        flag_bit_clear(self.reserved_byte)
    }

    /// The chunk is safe to copy: the safe-to-copy bit of byte 3 is set.
    pub fn is_safe_to_copy(&self) -> (r: bool)
        ensures
            r == !flag_clear(self@[3]),
    {
        !flag_bit_clear(self.safe_to_copy_byte)
    }
}

impl TryFrom<[u8; 4]> for ChunkType {
    type Error = ChunkTypeError;

    fn try_from(value: [u8; 4]) -> (r: Result<ChunkType, ChunkTypeError>)
        ensures
            match r {
                Ok(t) => tag_from_bytes_spec(value@) == Ok::<Seq<u8>, ChunkTypeError>(t@),
                Err(e) => tag_from_bytes_spec(value@) == Err::<Seq<u8>, ChunkTypeError>(e),
            },
    {
        let r = ChunkType::from_bytes(value);
        proof {
            if r is Ok {
                let t = r->Ok_0;
                assert(t@[0] == t.ancillary_byte && t@[1] == t.private_byte);
                assert(t@[2] == t.reserved_byte && t@[3] == t.safe_to_copy_byte);
            }
        }
        r
    }
}

impl vstd::std_specs::convert::TryFromSpecImpl<[u8; 4]> for ChunkType {
    open spec fn obeys_try_from_spec() -> bool {
        true
    }

    open spec fn try_from_spec(v: [u8; 4]) -> Result<ChunkType, ChunkTypeError> {
        if is_legal_tag(v@) {
            Ok(ChunkType::from_view(v@))
        } else {
            let i = first_non_letter(v@);
            Err(ChunkTypeError::InvalidByte { index: i as usize, value: v@[i] })
        }
    }
}

impl core::str::FromStr for ChunkType {
    type Err = ChunkTypeError;

    fn from_str(s: &str) -> (r: Result<ChunkType, ChunkTypeError>)
        ensures
            match r {
                Ok(t) => tag_from_str_spec(s.spec_bytes()) == Ok::<Seq<u8>, ChunkTypeError>(t@),
                Err(e) => tag_from_str_spec(s.spec_bytes()) == Err::<Seq<u8>, ChunkTypeError>(e),
            },
    {
        ChunkType::from_string(s)
    }
}

fn is_letter(b: u8) -> (r: bool)
    ensures
        r == is_tag_letter(b),
{
    (0x41 <= b && b <= 0x5A) || (0x61 <= b && b <= 0x7A)
}

} // verus!
