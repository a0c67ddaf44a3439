//! Unique ids: ten random characters from the ASCII letters and digits.
use crate::text::is_id_char;
use vstd::prelude::*;

verus! {

/// The length of a generated id.
pub const ID_LEN: usize = 10;

/// The characters ids are drawn from: the ASCII digits and letters.
pub fn id_alphabet() -> (r: Vec<char>)
    ensures
        r.len() == 62,
        forall|i: int| 0 <= i < r.len() ==> is_id_char(#[trigger] r[i]),
        forall|i: int| 0 <= i < r.len() ==> (#[trigger] r[i] as u32) < 128,
{
    let mut r: Vec<char> = Vec::new();
    let mut b: u8 = 48;
    while b < 58
        invariant
            48 <= b <= 58,
            r.len() == b - 48,
            forall|i: int| 0 <= i < r.len() ==> is_id_char(#[trigger] r[i]) && (r[i] as u32) < 128,
        decreases 58 - b,
    {
        r.push(b as char);
        b += 1;
    }
    let mut b: u8 = 97;
    while b < 123
        invariant
            97 <= b <= 123,
            r.len() == 10 + (b - 97),
            forall|i: int| 0 <= i < r.len() ==> is_id_char(#[trigger] r[i]) && (r[i] as u32) < 128,
        decreases 123 - b,
    {
        r.push(b as char);
        b += 1;
    }
    let mut b: u8 = 65;
    while b < 91
        invariant
            65 <= b <= 91,
            r.len() == 36 + (b - 65),
            forall|i: int| 0 <= i < r.len() ==> is_id_char(#[trigger] r[i]) && (r[i] as u32) < 128,
        decreases 91 - b,
    {
        r.push(b as char);
        b += 1;
    }
    r
}

/// `nanoid::format` with its default random source: `size` characters, each
/// drawn at random from `alphabet`.  The characters are random, so nothing
/// is said of which ones come out; the crate's source shows that each is one
/// of `alphabet` and that there are `size` of them (its loop counts bytes,
/// which for an ASCII alphabet are characters).  It panics on an alphabet of
/// more than 255 characters and never returns on an empty one or on a size
/// of zero, so those are ruled out.
#[verifier::external_body]
fn random_chars(alphabet: &[char], size: usize) -> (r: String)
    requires
        1 <= alphabet@.len() <= 255,
        forall|i: int| 0 <= i < alphabet@.len() ==> (#[trigger] alphabet@[i] as u32) < 128,
        size >= 1,
    ensures
        r@.len() == size,
        forall|i: int| 0 <= i < r@.len() ==> alphabet@.contains(#[trigger] r@[i]),
{
    nanoid::format(nanoid::rngs::default, alphabet, size)
}

/// Whether `s` has the shape of a generated id.
pub open spec fn is_id(s: Seq<char>) -> bool {
    s.len() == ID_LEN && forall|i: int| 0 <= i < s.len() ==> is_id_char(#[trigger] s[i])
}

/// A fresh random id of ten letters and digits.
pub fn new_id() -> (r: String)
    ensures
        is_id(r@),
{
    let alphabet = id_alphabet();
    let r = random_chars(alphabet.as_slice(), ID_LEN);
    assert forall|i: int| 0 <= i < r@.len() implies is_id_char(#[trigger] r@[i]) by {
        assert(alphabet@.contains(r@[i]));
        let j = choose|j: int| 0 <= j < alphabet@.len() && alphabet@[j] == r@[i];
        assert(is_id_char(alphabet[j]));
    }
    r
}

} // verus!
