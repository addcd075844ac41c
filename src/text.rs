use vstd::prelude::*;
use vstd::string::StringSliceAdditionalSpecFns;

verus! {

/// Relies on str::chars: the characters of `s`, in order.
#[verifier::external_body]
pub(crate) fn chars_of(s: &str) -> (r: Vec<char>)
    ensures
        r@ == s@,
{
    s.chars().collect()
}

/// Relies on String's FromIterator<char>: the string of these characters.
#[verifier::external_body]
pub(crate) fn string_of(chars: &Vec<char>) -> (r: String)
    ensures
        r@ == chars@,
{
    String::from_iter(chars.iter())
}

/// A byte that starts a character in UTF-8: not a continuation byte.
pub open spec fn starts_char(b: u8) -> bool {
    b < 128 || b >= 192
}

/// The first character boundary of `bytes` at or after `index`, looking at
/// most four bytes ahead; the end of the text past it.
pub open spec fn is_ceil_boundary(bytes: Seq<u8>, index: int, r: int) -> bool {
    let upper = if index + 4 <= bytes.len() {
        index + 4
    } else {
        bytes.len() as int
    };
    if index > bytes.len() {
        r == bytes.len()
    } else {
        &&& index <= r <= upper
        &&& forall|j: int| index <= j < r ==> !starts_char(bytes[j])
        &&& r == upper || starts_char(bytes[r])
    }
}

/// The smallest character boundary of `text` at or after `index` (within the
/// next four bytes), so that `text` can be cut there.
pub fn ceil_char_boundary(text: &str, index: usize) -> (r: usize)
    ensures
        is_ceil_boundary(text.spec_bytes(), index as int, r as int),
{
    let bytes = text.as_bytes();
    if index > bytes.len() {
        bytes.len()
    } else {
        let upper = if bytes.len() - index >= 4 {
            index + 4
        } else {
            bytes.len()
        };
        let mut i = index;
        while i < upper
            invariant
                index <= i <= upper,
                upper <= bytes@.len(),
                bytes@ == text.spec_bytes(),
                upper == if index + 4 <= bytes@.len() {
                    index + 4
                } else {
                    bytes@.len() as int
                },
                forall|j: int| index <= j < i ==> !starts_char(bytes@[j]),
            decreases upper - i,
        {
            let b = bytes[i];
            if b < 128 || b >= 192 {
                return i;
            }
            i = i + 1;
        }
        upper
    }
}

} // verus!
