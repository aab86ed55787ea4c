//! Kernel object ids.
//!
//! Ids are 128-bit values: a 3-bit type tag in the most significant bits of
//! the first byte, followed by 125 bits treated as opaque.  The human form
//! is 27 characters: the tag's letter, a hyphen, then 25 base32 digits over
//! the alphabet `0-9ACDEFGHJKMNPQRTUVWXYZ-`, five bits per digit, most
//! significant first.  Parsing is case-insensitive and human-tolerant:
//! `B` reads as `8`, `S` as `5`, `I` and `L` as `1`, `O` as `0`, and `_` as
//! `-`.
//!
//! The model below treats an id as one 128-bit accumulator: bytes fold into
//! it eight bits at a time, digits five bits at a time, and every byte or
//! digit is a shifted window of that accumulator.

use vstd::prelude::*;

verus! {

use vstd::string::StringSliceAdditionalSpecFns;

/// An id type tag.  The tag value 0 is reserved and never valid.
#[derive(Debug, PartialEq, Eq, Copy, Clone, Structural)]
pub enum IdType {
    /// A module id, tag value 1, letter `M`.
    Module,
    /// A port type id, tag value 2, letter `P`.
    PortType,
}

impl IdType {
    /// The tag's raw 3-bit value.
    pub open spec fn spec_u8(self) -> u8 {
        match self {
            IdType::Module => 1,
            IdType::PortType => 2,
        }
    }

    /// The tag's human-readable letter, as a byte.
    pub open spec fn spec_bchar(self) -> u8 {
        match self {
            IdType::Module => 77,
            IdType::PortType => 80,
        }
    }

    /// Tries to convert a raw `u8` value to an id type.
    pub fn try_from_u8(v: u8) -> (r: Option<IdType>)
        ensures
            r == if v == 1 {
                Some(IdType::Module)
            } else if v == 2 {
                Some(IdType::PortType)
            } else {
                Option::<IdType>::None
            },
    {
        if v == 1 {
            Some(IdType::Module)
        } else if v == 2 {
            Some(IdType::PortType)
        } else {
            None
        }
    }

    /// Tries to convert a human-readable `char` to an id type.
    pub fn try_from_char(v: char) -> (r: Option<IdType>)
        ensures
            r == if v == 'M' {
                Some(IdType::Module)
            } else if v == 'P' {
                Some(IdType::PortType)
            } else {
                Option::<IdType>::None
            },
    {
        if v == 'M' {
            Some(IdType::Module)
        } else if v == 'P' {
            Some(IdType::PortType)
        } else {
            None
        }
    }

    /// Tries to convert a human-readable byte to an id type.  This is not
    /// the same as [`IdType::try_from_u8`], despite accepting the same
    /// type: it reads the letter, not the raw tag.
    pub fn try_from_bchar(v: u8) -> (r: Option<IdType>)
        ensures
            r == if v == 77 {
                Some(IdType::Module)
            } else if v == 80 {
                Some(IdType::PortType)
            } else {
                Option::<IdType>::None
            },
    {
        if v == 77 {
            Some(IdType::Module)
        } else if v == 80 {
            Some(IdType::PortType)
        } else {
            None
        }
    }

    /// Returns the type identifier as a `u8`.
    pub fn id_u8(self) -> (r: u8)
        ensures
            r == self.spec_u8(),
    {
        match self {
            IdType::Module => 1,
            IdType::PortType => 2,
        }
    }

    /// Returns the type identifier as a `char`.
    pub fn id_char(self) -> (r: char)
        ensures
            r == (if self is Module {
                'M'
            } else {
                'P'
            }),
    {
        match self {
            IdType::Module => 'M',
            IdType::PortType => 'P',
        }
    }

    /// Returns the type identifier as the byte of its letter.  This is not
    /// the same as [`IdType::id_u8`], which returns the raw tag value.
    pub fn id_bchar(self) -> (r: u8)
        ensures
            r == self.spec_bchar(),
    {
        match self {
            IdType::Module => 77,
            IdType::PortType => 80,
        }
    }
}

/// The base32 alphabet: digit value to ASCII byte.
pub open spec fn base32_char(d: u8) -> u8 {
    if d < 10 {
        (48 + d) as u8  // '0'..='9'
    } else if d == 10 {
        65  // 'A'
    } else if d <= 16 {
        (67 + (d - 11)) as u8  // 'C'..='H'
    } else if d <= 18 {
        (74 + (d - 17)) as u8  // 'J', 'K'
    } else if d <= 20 {
        (77 + (d - 19)) as u8  // 'M', 'N'
    } else if d <= 23 {
        (80 + (d - 21)) as u8  // 'P', 'Q', 'R'
    } else if d <= 30 {
        (84 + (d - 24)) as u8  // 'T'..='Z'
    } else {
        45  // '-'
    }
}

/// The digit value of one id character, or `-1` when the character is not
/// part of the (tolerant) alphabet.
pub open spec fn decode_char(ch: u8) -> int {
    if 48 <= ch <= 57 {
        ch - 48  // '0'..='9'
    } else if ch == 111 || ch == 79 {
        0  // 'o' | 'O'
    } else if ch == 105 || ch == 73 || ch == 108 || ch == 76 {
        1  // 'i' | 'I' | 'l' | 'L'
    } else if ch == 115 || ch == 83 {
        5  // 's' | 'S'
    } else if ch == 98 || ch == 66 {
        8  // 'b' | 'B'
    } else if ch == 65 || ch == 97 {
        10  // 'A' | 'a'
    } else if 67 <= ch <= 72 {
        11 + (ch - 67)  // 'C'..='H'
    } else if 99 <= ch <= 104 {
        11 + (ch - 99)  // 'c'..='h'
    } else if 74 <= ch <= 75 {
        17 + (ch - 74)  // 'J', 'K'
    } else if 106 <= ch <= 107 {
        17 + (ch - 106)  // 'j', 'k'
    } else if 77 <= ch <= 78 {
        19 + (ch - 77)  // 'M', 'N'
    } else if 109 <= ch <= 110 {
        19 + (ch - 109)  // 'm', 'n'
    } else if 80 <= ch <= 82 {
        21 + (ch - 80)  // 'P'..='R'
    } else if 112 <= ch <= 114 {
        21 + (ch - 112)  // 'p'..='r'
    } else if 84 <= ch <= 90 {
        24 + (ch - 84)  // 'T'..='Z'
    } else if 116 <= ch <= 122 {
        24 + (ch - 116)  // 't'..='z'
    } else if ch == 45 || ch == 95 {
        31  // '-' | '_'
    } else {
        -1
    }
}

/// The first `j` bytes of `s` folded into an accumulator, eight bits at a
/// time, most significant first.
pub open spec fn bytes_accum(s: Seq<u8>, j: int) -> u128
    decreases j,
{
    if j <= 0 {
        0
    } else {
        (bytes_accum(s, j - 1) << 8) | (s[j - 1] as u128)
    }
}

/// A tag and the first `i` of 25 digit values folded into an accumulator,
/// five bits at a time, most significant first.
pub open spec fn id_accum(tag: u8, digits: Seq<u8>, i: int) -> u128
    decreases i,
{
    if i <= 0 {
        tag as u128
    } else {
        (id_accum(tag, digits, i - 1) << 5) | ((digits[i - 1] & 0x1f) as u128)
    }
}

/// Byte `j` of the 128-bit value `acc`.
pub open spec fn id_byte(acc: u128, j: int) -> u8 {
    (acc >> ((8 * (15 - j)) as u128)) as u8
}

/// The 3-bit type tag of an id's byte array.
pub open spec fn spec_tag(s: Seq<u8>) -> u8 {
    s[0] >> 5
}

/// Digit `i` (of 25) encoded in an id's byte array.
pub open spec fn spec_digit(s: Seq<u8>, i: int) -> u8 {
    ((bytes_accum(s, 16) >> ((5 * (24 - i)) as u128)) & 0x1f) as u8
}

/// The digit values spelled by an id string's 25 digit characters.
pub open spec fn str_digit_vals(b: Seq<u8>) -> Seq<u8> {
    Seq::new(25, |i: int| decode_char(b[i + 2]) as u8)
}

/// Whether a byte string is a well-formed id string: 27 characters, a
/// valid tag letter, a hyphen, and 25 characters of the tolerant alphabet.
pub open spec fn id_str_well_formed(b: Seq<u8>) -> bool {
    &&& b.len() == 27
    &&& b[0] == 77 || b[0] == 80
    &&& b[1] == 45
    &&& forall|i: int| 0 <= i < 25 ==> decode_char(#[trigger] b[i + 2]) >= 0
}

/// The tag value a well-formed id string's first character spells.
pub open spec fn str_tag_val(b: Seq<u8>) -> u8 {
    if b[0] == 77 {
        1
    } else {
        2
    }
}

/// The 27 bytes of the human-readable form of an id's byte array.
pub open spec fn spec_encoded(s: Seq<u8>) -> Seq<u8> {
    Seq::new(
        27,
        |i: int|
            if i == 0 {
                if spec_tag(s) == 1 {
                    77
                } else {
                    80
                }
            } else if i == 1 {
                45
            } else {
                base32_char(spec_digit(s, i - 2))
            },
    )
}

/// Returned when parsing an id string fails.
#[derive(Debug, PartialEq, Eq, Copy, Clone, Structural)]
pub enum ParseIdError {
    /// The id has a valid shape but the wrong type identifier.
    InvalidType,
    /// The id is malformed: wrong length, missing hyphen, or a character
    /// outside the alphabet.  This takes precedence over `InvalidType`.
    Malformed,
}

/// The digit value of one id character, or `None` when invalid.
fn char_value(ch: u8) -> (r: Option<u8>)
    ensures
        r is Some <==> decode_char(ch) >= 0,
        r matches Some(d) ==> d == decode_char(ch) && d < 32,
{
    if 48 <= ch && ch <= 57 {
        Some(ch - 48)
    } else if ch == 111 || ch == 79 {
        Some(0)
    } else if ch == 105 || ch == 73 || ch == 108 || ch == 76 {
        Some(1)
    } else if ch == 115 || ch == 83 {
        Some(5)
    } else if ch == 98 || ch == 66 {
        Some(8)
    } else if ch == 65 || ch == 97 {
        Some(10)
    } else if 67 <= ch && ch <= 72 {
        Some(11 + (ch - 67))
    } else if 99 <= ch && ch <= 104 {
        Some(11 + (ch - 99))
    } else if 74 <= ch && ch <= 75 {
        Some(17 + (ch - 74))
    } else if 106 <= ch && ch <= 107 {
        Some(17 + (ch - 106))
    } else if 77 <= ch && ch <= 78 {
        Some(19 + (ch - 77))
    } else if 109 <= ch && ch <= 110 {
        Some(19 + (ch - 109))
    } else if 80 <= ch && ch <= 82 {
        Some(21 + (ch - 80))
    } else if 112 <= ch && ch <= 114 {
        Some(21 + (ch - 112))
    } else if 84 <= ch && ch <= 90 {
        Some(24 + (ch - 84))
    } else if 116 <= ch && ch <= 122 {
        Some(24 + (ch - 116))
    } else if ch == 45 || ch == 95 {
        Some(31)
    } else {
        None
    }
}

/// The ASCII byte of one digit value.
fn base32_byte(d: u8) -> (r: u8)
    requires
        d < 32,
    ensures
        r == base32_char(d),
{
    if d < 10 {
        48 + d
    } else if d == 10 {
        65
    } else if d <= 16 {
        67 + (d - 11)
    } else if d <= 18 {
        74 + (d - 17)
    } else if d <= 20 {
        77 + (d - 19)
    } else if d <= 23 {
        80 + (d - 21)
    } else if d <= 30 {
        84 + (d - 24)
    } else {
        45
    }
}

/// Parses an id string into the 16-byte array it spells.  Fails with
/// [`ParseIdError::Malformed`] — and only with that — exactly when the
/// string is not 27 characters of the form `tag, hyphen, 25 digits`.
pub fn try_to_buffer(s: &str) -> (r: Result<[u8; 16], ParseIdError>)
    ensures
        r is Ok <==> id_str_well_formed(s.spec_bytes()),
        match r {
            Ok(buf) => ({
                let b = s.spec_bytes();
                let acc = id_accum(str_tag_val(b), str_digit_vals(b), 25);
                forall|j: int| 0 <= j < 16 ==> #[trigger] buf@[j] == id_byte(acc, j)
            }),
            Err(e) => e == ParseIdError::Malformed,
        },
{
    let b = s.as_bytes();
    if b.len() != 27 {
        return Err(ParseIdError::Malformed);
    }
    let tag: u8 = if b[0] == 77 {
        1
    } else if b[0] == 80 {
        2
    } else {
        return Err(ParseIdError::Malformed);
    };
    if b[1] != 45 {
        return Err(ParseIdError::Malformed);
    }
    let ghost digits = str_digit_vals(s.spec_bytes());
    let mut n: u128 = tag as u128;
    let mut i: usize = 0;
    while i < 25
        invariant
            b@ == s.spec_bytes(),
            b@.len() == 27,
            tag == str_tag_val(b@),
            digits == str_digit_vals(b@),
            0 <= i <= 25,
            n == id_accum(tag, digits, i as int),
            forall|m: int| 0 <= m < i ==> decode_char(#[trigger] b@[m + 2]) >= 0,
        decreases 25 - i,
    {
        let ch = b[i + 2];
        match char_value(ch) {
            None => {
                return Err(ParseIdError::Malformed);
            },
            Some(d) => {
                proof {
                    assert(digits[i as int] == d) by {
                        assert(decode_char(b@[i + 2]) == d);
                    }
                    assert((d & 0x1f) == d) by (bit_vector)
                        requires
                            d < 32,
                    ;
                }
                n = (n << 5) | (d as u128);
            },
        }
        i = i + 1;
    }
    let mut buf = [0u8; 16];
    let mut j: usize = 0;
    while j < 16
        invariant
            0 <= j <= 16,
            n == id_accum(str_tag_val(s.spec_bytes()), str_digit_vals(s.spec_bytes()), 25),
            forall|m: int| 0 <= m < j ==> #[trigger] buf@[m] == id_byte(n, m),
        decreases 16 - j,
    {
        let sh: u128 = 8 * (15 - j as u128);
        buf[j] = (n >> sh) as u8;
        j = j + 1;
    }
    Ok(buf)
}

/// Represents an id whose type is not known statically; useful when
/// parsing user-provided ids.
pub struct AnyId {
    /// The raw 16-byte value.
    bytes: [u8; 16],
}

impl AnyId {
    /// The raw bytes of the id.
    pub closed spec fn spec_bytes(self) -> Seq<u8> {
        self.bytes@
    }

    /// Creates a new id from a 16-byte array.  The type identifier is not
    /// checked; conversion to a typed [`Id`] checks it.
    pub fn new(data: [u8; 16]) -> (r: AnyId)
        ensures
            r.spec_bytes() == data@,
    {
        AnyId { bytes: data }
    }

    /// Returns the type of the id, or `None` if the tag is invalid.
    pub fn ty(&self) -> (r: Option<IdType>)
        ensures
            r == if spec_tag(self.spec_bytes()) == 1 {
                Some(IdType::Module)
            } else if spec_tag(self.spec_bytes()) == 2 {
                Some(IdType::PortType)
            } else {
                Option::<IdType>::None
            },
    {
        IdType::try_from_u8(self.bytes[0] >> 5)
    }

    /// Formats the id into `buf` as its 27-character human form.  The tag
    /// must be valid; [`AnyId::try_to_str`] checks it first.
    pub fn to_str_unchecked(src: &[u8; 16], buf: &mut [u8; 27])
        requires
            spec_tag(src@) == 1 || spec_tag(src@) == 2,
        ensures
            final(buf)@ == spec_encoded(src@),
    {
        let mut n: u128 = 0;
        let mut j: usize = 0;
        while j < 16
            invariant
                0 <= j <= 16,
                n == bytes_accum(src@, j as int),
            decreases 16 - j,
        {
            n = (n << 8) | (src[j] as u128);
            j = j + 1;
        }
        let tag = src[0] >> 5;
        buf[0] = if tag == 1 {
            77
        } else {
            80
        };
        buf[1] = 45;
        let mut i: usize = 0;
        while i < 25
            invariant
                0 <= i <= 25,
                n == bytes_accum(src@, 16),
                buf@[0] == spec_encoded(src@)[0],
                buf@[1] == spec_encoded(src@)[1],
                forall|m: int| 0 <= m < i ==> #[trigger] buf@[m + 2] == spec_encoded(src@)[m + 2],
            decreases 25 - i,
        {
            let sh: u128 = 5 * (24 - i as u128);
            let d = ((n >> sh) & 0x1f) as u8;
            proof {
                assert(((n >> sh) & 0x1f) < 32) by (bit_vector);
            }
            buf[i + 2] = base32_byte(d);
            i = i + 1;
        }
        proof {
            assert forall|ii: int| 0 <= ii < 27 implies buf@[ii] == spec_encoded(src@)[ii] by {
                if ii >= 2 {
                    assert(buf@[(ii - 2) + 2] == spec_encoded(src@)[(ii - 2) + 2]);
                }
            }
            assert(buf@ =~= spec_encoded(src@));
        }
    }

    /// Formats the id into `buf` if its tag is valid, returning whether it
    /// was.
    pub fn try_to_str(&self, buf: &mut [u8; 27]) -> (r: bool)
        ensures
            r <==> spec_tag(self.spec_bytes()) == 1 || spec_tag(self.spec_bytes()) == 2,
            r ==> final(buf)@ == spec_encoded(self.spec_bytes()),
            !r ==> final(buf)@ == old(buf)@,
    {
        let tag = self.bytes[0] >> 5;
        if tag == 1 || tag == 2 {
            AnyId::to_str_unchecked(&self.bytes, buf);
            true
        } else {
            false
        }
    }

    /// Returns a reference to the raw byte array.
    pub fn as_bytes(&self) -> (r: &[u8; 16])
        ensures
            r@ == self.spec_bytes(),
    {
        &self.bytes
    }

    /// Parses an id string, accepting any valid tag.
    pub fn from_str(s: &str) -> (r: Result<AnyId, ParseIdError>)
        ensures
            r is Ok <==> id_str_well_formed(s.spec_bytes()),
            match r {
                Ok(id) => ({
                    let b = s.spec_bytes();
                    let acc = id_accum(str_tag_val(b), str_digit_vals(b), 25);
                    forall|j: int| 0 <= j < 16 ==> #[trigger] id.spec_bytes()[j] == id_byte(acc, j)
                }),
                Err(e) => e == ParseIdError::Malformed,
            },
    {
        match try_to_buffer(s) {
            Ok(buf) => Ok(AnyId::new(buf)),
            Err(e) => Err(e),
        }
    }
}

/// A typed id: the 3-bit tag in the byte array always equals the type
/// parameter `TAG` (1 for module ids, 2 for port type ids).
#[derive(Debug, PartialEq, Eq, Clone)]
pub struct Id<const TAG: u8> {
    /// The raw 16-byte value.
    bytes: [u8; 16],
}

impl<const TAG: u8> Id<TAG> {
    /// The raw bytes of the id.
    pub closed spec fn spec_bytes(self) -> Seq<u8> {
        self.bytes@
    }

    /// Creates a new id from a 16-byte array whose most significant three
    /// bits are already the tag `TAG`.
    pub fn new_unchecked(data: [u8; 16]) -> (r: Id<TAG>)
        requires
            data@[0] >> 5 == TAG,
        ensures
            r.spec_bytes() == data@,
    {
        Id { bytes: data }
    }

    /// Creates a new id from a 16-byte array, overwriting the type tag
    /// with `TAG`.
    pub fn new(data: [u8; 16]) -> (r: Id<TAG>)
        ensures
            r.spec_bytes() == data@.update(0, ((data@[0] & 0x1f) | (TAG << 5)) as u8),
    {
        let mut data = data;
        data[0] = (data[0] & 0x1f) | (TAG << 5);
        Id { bytes: data }
    }

    /// Tries to create a new id from a 16-byte array; returns `None` when
    /// the tag in the array is not `TAG`.
    pub fn try_new(data: [u8; 16]) -> (r: Option<Id<TAG>>)
        ensures
            r is Some <==> data@[0] >> 5 == TAG,
            r matches Some(id) ==> id.spec_bytes() == data@,
    {
        if data[0] >> 5 == TAG {
            Some(Id { bytes: data })
        } else {
            None
        }
    }

    /// Formats the id into `buf` as its 27-character human form.
    pub fn to_str(&self, buf: &mut [u8; 27])
        requires
            TAG == 1 || TAG == 2,
            self.spec_bytes()[0] >> 5 == TAG,
        ensures
            final(buf)@ == spec_encoded(self.spec_bytes()),
    {
        AnyId::to_str_unchecked(&self.bytes, buf);
    }

    /// Returns a reference to the raw byte array.
    pub fn as_bytes(&self) -> (r: &[u8; 16])
        ensures
            r@ == self.spec_bytes(),
    {
        &self.bytes
    }

    /// Parses an id string; the tag must be `TAG`, else
    /// [`ParseIdError::InvalidType`].
    pub fn from_str(s: &str) -> (r: Result<Id<TAG>, ParseIdError>)
        ensures
            r is Ok <==> id_str_well_formed(s.spec_bytes()) && str_tag_val(s.spec_bytes()) == TAG,
            match r {
                Ok(id) => ({
                    let b = s.spec_bytes();
                    let acc = id_accum(str_tag_val(b), str_digit_vals(b), 25);
                    forall|j: int| 0 <= j < 16 ==> #[trigger] id.spec_bytes()[j] == id_byte(acc, j)
                }),
                Err(e) => e == if !id_str_well_formed(s.spec_bytes()) {
                    ParseIdError::Malformed
                } else {
                    ParseIdError::InvalidType
                },
            },
    {
        match try_to_buffer(s) {
            Err(e) => Err(e),
            Ok(buf) => {
                let tag = buf[0] >> 5;
                proof {
                    lemma_parsed_tag(s.spec_bytes());
                }
                if tag == TAG {
                    Ok(Id { bytes: buf })
                } else {
                    Err(ParseIdError::InvalidType)
                }
            },
        }
    }

    /// Converts an untyped id; returns an error when its tag is not `TAG`.
    pub fn try_from(value: AnyId) -> (r: Result<Id<TAG>, ()>)
        ensures
            r is Ok <==> spec_tag(value.spec_bytes()) == TAG && (TAG == 1 || TAG == 2),
            r matches Ok(id) ==> id.spec_bytes() == value.spec_bytes(),
    {
        match value.ty() {
            Some(t) => {
                let raw = t.id_u8();
                if raw == TAG {
                    Ok(Id { bytes: value.bytes })
                } else {
                    Err(())
                }
            },
            None => Err(()),
        }
    }
}

impl AnyId {
    /// Forgets an id's static type.
    pub fn from<const TAG: u8>(value: Id<TAG>) -> (r: AnyId)
        ensures
            r.spec_bytes() == value.spec_bytes(),
    {
        AnyId { bytes: value.bytes }
    }
}

/// The tag bits a parsed buffer carries are exactly the tag value of the
/// string's first character.
proof fn lemma_parsed_tag(b: Seq<u8>)
    requires
        id_str_well_formed(b),
    ensures
        ({
            let acc = id_accum(str_tag_val(b), str_digit_vals(b), 25);
            id_byte(acc, 0) >> 5 == str_tag_val(b)
        }),
{
    let tag = str_tag_val(b);
    let digits = str_digit_vals(b);
    let acc = id_accum(tag, digits, 25);
    lemma_id_accum_top(tag, digits, 25);
    assert(id_byte(acc, 0) >> 5 == tag) by (bit_vector)
        requires
            acc >> 125 == tag as u128,
            tag == 1 || tag == 2,
    ;
}

/// Decoding its own encoding gives every digit value back.
proof fn lemma_base32_roundtrip(d: u8)
    requires
        d < 32,
    ensures
        decode_char(base32_char(d)) == d as int,
{
}

/// Every byte folded into the accumulator can be read back out of its
/// window, and the fold stays within its bit budget.
proof fn lemma_bytes_accum_extract(s: Seq<u8>, j: int, m: int)
    requires
        0 <= m < j <= 16,
    ensures
        (bytes_accum(s, j) >> ((8 * (j - 1 - m)) as u128)) as u8 == s[m],
        j < 16 ==> bytes_accum(s, j) < (1u128 << ((8 * j) as u128)),
    decreases j,
{
    let b = bytes_accum(s, j - 1);
    let xb = s[j - 1];
    let x = xb as u128;
    assert(x < 256) by (bit_vector)
        requires
            x == xb as u128,
    ;
    if j == 1 {
        assert(b == 0);
        assert((((0u128 << 8) | x) >> 0) as u8 == x as u8 && ((0u128 << 8) | x) < (1u128 << 8))
            by (bit_vector)
            requires
                x < 256,
        ;
    } else {
        lemma_bytes_accum_extract(s, j - 1, if m < j - 1 {
            m
        } else {
            0
        });
        assert(b < (1u128 << ((8 * (j - 1)) as u128)));
        if m == j - 1 {
            assert((((b << 8) | x) >> 0) as u8 == x as u8) by (bit_vector)
                requires
                    x < 256,
            ;
        } else {
            let sh: u128 = (8 * (j - 1 - m)) as u128;
            let sb: u128 = (8 * (j - 1)) as u128;
            assert(((b << 8) | x) >> sh == b >> ((sh - 8) as u128)) by (bit_vector)
                requires
                    x < 256,
                    8 <= sh <= 120,
                    sb <= 120,
                    b < (1u128 << sb),
            ;
            assert((b >> ((sh - 8) as u128)) as u8 == s[m]) by {
                lemma_bytes_accum_extract(s, j - 1, m);
            }
        }
        if j < 16 {
            let sb: u128 = (8 * (j - 1)) as u128;
            assert(((b << 8) | x) < (1u128 << ((sb + 8) as u128))) by (bit_vector)
                requires
                    x < 256,
                    sb <= 112,
                    b < (1u128 << sb),
            ;
        }
    }
}

/// Folding the digit windows of an accumulator back up, tag first,
/// rebuilds the accumulator shift by shift.
proof fn lemma_digits_rebuild(s: Seq<u8>, i: int)
    requires
        s.len() == 16,
        0 <= i <= 25,
    ensures
        id_accum(spec_tag(s), Seq::new(25, |m: int| spec_digit(s, m)), i) == bytes_accum(s, 16)
            >> ((125 - 5 * i) as u128),
    decreases i,
{
    let acc = bytes_accum(s, 16);
    let digits = Seq::new(25, |m: int| spec_digit(s, m));
    if i == 0 {
        lemma_bytes_accum_extract(s, 16, 0);
        let b0 = s[0];
        assert(acc >> 125 == ((b0 >> 5) as u128)) by (bit_vector)
            requires
                (acc >> 120) as u8 == b0,
        ;
        assert(spec_tag(s) == b0 >> 5);
    } else {
        lemma_digits_rebuild(s, i - 1);
        let prev = id_accum(spec_tag(s), digits, i - 1);
        let s5: u128 = (125 - 5 * i) as u128;
        let d = digits[i - 1];
        assert(d == spec_digit(s, i - 1));
        assert(5 * (24 - (i - 1)) == 125 - 5 * i);
        let dd = (d & 0x1f) as u128;
        assert(prev == acc >> ((s5 + 5) as u128));
        assert(((acc >> ((s5 + 5) as u128)) << 5) | ((((acc >> s5) & 0x1f) as u8
            & 0x1f) as u128) == acc >> s5) by (bit_vector)
            requires
                s5 <= 120,
        ;
    }
}

/// Round-trip law: parsing the 27-character human form of an id gives back
/// exactly the id's bytes.  The encoded form is always well formed, spells
/// the id's own tag, and its digits rebuild its byte array bit for bit.
pub proof fn lemma_encode_parse_roundtrip(s: Seq<u8>)
    requires
        s.len() == 16,
        spec_tag(s) == 1 || spec_tag(s) == 2,
    ensures
        id_str_well_formed(spec_encoded(s)),
        str_tag_val(spec_encoded(s)) == spec_tag(s),
        forall|j: int|
            0 <= j < 16 ==> id_byte(
                id_accum(
                    str_tag_val(spec_encoded(s)),
                    str_digit_vals(spec_encoded(s)),
                    25,
                ),
                j,
            ) == s[j],
{
    let e = spec_encoded(s);
    let acc = bytes_accum(s, 16);
    assert forall|i: int| 0 <= i < 25 implies decode_char(#[trigger] e[i + 2]) == spec_digit(
        s,
        i,
    ) as int by {
        let d = spec_digit(s, i);
        assert(d < 32) by {
            let sh: u128 = (5 * (24 - i)) as u128;
            assert(((acc >> sh) & 0x1f) < 32) by (bit_vector);
        }
        lemma_base32_roundtrip(d);
    }
    assert(id_str_well_formed(e));
    assert(str_digit_vals(e) =~= Seq::new(25, |m: int| spec_digit(s, m)));
    lemma_digits_rebuild(s, 25);
    assert(id_accum(str_tag_val(e), str_digit_vals(e), 25) == acc >> 0);
    assert(acc >> 0 == acc) by (bit_vector);
    assert forall|j: int| 0 <= j < 16 implies id_byte(
        id_accum(str_tag_val(e), str_digit_vals(e), 25),
        j,
    ) == s[j] by {
        lemma_bytes_accum_extract(s, 16, j);
    }
}

/// The accumulator stays within its bit budget and keeps the tag in its
/// top three bits.
proof fn lemma_id_accum_top(tag: u8, digits: Seq<u8>, i: int)
    requires
        0 <= i <= 25,
        tag == 1 || tag == 2,
    ensures
        i < 25 ==> id_accum(tag, digits, i) < (1u128 << ((5 * i + 3) as u128)),
        id_accum(tag, digits, i) >> ((5 * i) as u128) == tag as u128,
    decreases i,
{
    if i == 0 {
        assert((tag as u128) < (1u128 << 3) && (tag as u128) >> 0 == tag as u128) by (bit_vector)
            requires
                tag == 1 || tag == 2,
        ;
    } else {
        lemma_id_accum_top(tag, digits, i - 1);
        let a = id_accum(tag, digits, i - 1);
        let dv = digits[i - 1];
        let dd = (dv & 0x1f) as u128;
        let s: u128 = (5 * (i - 1)) as u128;
        assert(dv & 0x1f < 32) by (bit_vector);
        assert(((a << 5) | dd) >> ((s + 5) as u128) == a >> s) by (bit_vector)
            requires
                a < (1u128 << ((s + 3) as u128)),
                dd < 32,
                s <= 120,
        ;
        if i < 25 {
            assert(((a << 5) | dd) < (1u128 << ((s + 8) as u128))) by (bit_vector)
                requires
                    a < (1u128 << ((s + 3) as u128)),
                    dd < 32,
                    s <= 115,
            ;
            assert((s + 8) as u128 == (5 * i + 3) as u128);
        }
        assert((s + 5) as u128 == (5 * i) as u128);
    }
}

} // verus!
