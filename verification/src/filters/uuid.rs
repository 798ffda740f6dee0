//! 128-bit identifiers and their hyphenated text form.

use crate::filters::error::Error;
use crate::filters::text::{chars_of, hex_char, hex_value, is_hex_digit, is_hex_digit_char};
use vstd::prelude::*;

verus! {

/// A hyphen stands at this place of a hyphenated identifier.
pub open spec fn is_hyphen_place(i: int) -> bool {
    i == 8 || i == 13 || i == 18 || i == 23
}

/// `t` has the shape of a hyphenated identifier: 36 characters, hyphens at
/// their four places and hexadecimal digits elsewhere.
pub open spec fn is_uuid_text(t: Seq<char>) -> bool {
    &&& t.len() == 36
    &&& forall|i: int|
        0 <= i < 36 ==> if is_hyphen_place(i) {
            #[trigger] t[i] == '-'
        } else {
            is_hex_digit(t[i])
        }
}

/// The place in the text of the `k`-th hexadecimal digit.
pub open spec fn digit_place(k: int) -> int {
    if k < 8 {
        k
    } else if k < 12 {
        k + 1
    } else if k < 16 {
        k + 2
    } else if k < 20 {
        k + 3
    } else {
        k + 4
    }
}

/// The sixteen bytes that a hyphenated identifier writes, two digits each.
pub open spec fn uuid_bytes_of_text(t: Seq<char>) -> Seq<u8> {
    Seq::new(
        16,
        |b: int| (hex_value(t[digit_place(2 * b)]) * 16 + hex_value(t[digit_place(2 * b + 1)])) as u8,
    )
}

/// The digit of `bytes` that stands at place `i` of the text: the high
/// half of a byte first.
pub open spec fn digit_at_place(bytes: Seq<u8>, i: int) -> int {
    let k = if i < 8 {
        i
    } else if i < 13 {
        i - 1
    } else if i < 18 {
        i - 2
    } else if i < 23 {
        i - 3
    } else {
        i - 4
    };
    if k % 2 == 0 {
        bytes[k / 2] as int / 16
    } else {
        bytes[k / 2] as int % 16
    }
}

/// The hyphenated text of sixteen bytes, in lower case.
pub open spec fn uuid_text(bytes: Seq<u8>) -> Seq<char> {
    Seq::new(
        36,
        |i: int|
            if is_hyphen_place(i) {
                '-'
            } else {
                hex_char(digit_at_place(bytes, i))
            },
    )
}

/// A 128-bit identifier.
#[derive(Clone, Copy, Debug, PartialEq, Eq)]
pub struct Uuid {
    bytes: [u8; 16],
}

impl View for Uuid {
    type V = Seq<u8>;

    /// The sixteen bytes, the first written first.
    closed spec fn view(&self) -> Seq<u8> {
        self.bytes@
    }
}

/// `uuid::Uuid::parse_str`. A text of the hyphenated shape is always read,
/// and each pair of its digits gives one byte.
#[verifier::external_body]
pub(crate) fn uuid_from_text(text: &str) -> (r: Option<Uuid>)
    requires
        is_uuid_text(text@),
    ensures
        r is Some,
        r->0@ == uuid_bytes_of_text(text@),
{
    let id = uuid::Uuid::parse_str(text).ok()?;
    Some(Uuid { bytes: id.into_bytes() })
}

impl Uuid {
    /// Reads an identifier in its hyphenated form, in either case. Any
    /// other text is refused.
    pub fn parse_str(text: &str) -> (r: Result<Uuid, Error>)
        ensures
            match r {
                Ok(id) => is_uuid_text(text@) && id@ == uuid_bytes_of_text(text@),
                Err(e) => !is_uuid_text(text@) && e == Error::ParsingUuid,
            },
    {
        let chars = chars_of(text);
        if chars.len() != 36 {
            return Err(Error::ParsingUuid);
        }
        let mut i: usize = 0;
        while i < 36
            invariant
                i <= 36,
                chars@ == text@,
                chars.len() == 36,
                forall|k: int|
                    0 <= k < i ==> if is_hyphen_place(k) {
                        #[trigger] chars@[k] == '-'
                    } else {
                        is_hex_digit(chars@[k])
                    },
            decreases 36 - i,
        {
            let c = chars[i];
            let fits = if i == 8 || i == 13 || i == 18 || i == 23 {
                c == '-'
            } else {
                is_hex_digit_char(c)
            };
            if !fits {
                return Err(Error::ParsingUuid);
            }
            i += 1;
        }
        match uuid_from_text(text) {
            Some(id) => Ok(id),
            None => Err(Error::ParsingUuid),
        }
    }

    /// The identifier of the given bytes.
    pub fn from_bytes(bytes: [u8; 16]) -> (r: Uuid)
        ensures
            r@ == bytes@,
    {
        Uuid { bytes }
    }

    /// The bytes of the identifier.
    pub fn as_bytes(&self) -> (r: &[u8; 16])
        ensures
            r@ == self@,
            r@.len() == 16,
    {
        &self.bytes
    }
}

} // verus!
