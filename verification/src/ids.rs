//! Identifiers: random UUIDs for new graph items, and name-based UUIDs
//! for identifiers that must come out the same on every export.
use vstd::prelude::*;

verus! {

/// A lowercase hexadecimal digit.
pub open spec fn is_lower_hex(c: char) -> bool {
    ('0' <= c && c <= '9') || ('a' <= c && c <= 'f')
}

/// `s` is a UUID in its hyphenated form: 32 lowercase hexadecimal digits in
/// groups of 8, 4, 4, 4 and 12, separated by hyphens.
pub open spec fn is_hyphenated_uuid(s: Seq<char>) -> bool {
    &&& s.len() == 36
    &&& forall|i: int|
        0 <= i < 36 ==> if i == 8 || i == 13 || i == 18 || i == 23 {
            #[trigger] s[i] == '-'
        } else {
            is_lower_hex(s[i])
        }
}

/// The text of the version-5 (SHA-1, name-based) UUID of `name` (its UTF-8
/// bytes) in the URL namespace.
pub uninterp spec fn uuid_v5_url_text(name: Seq<char>) -> Seq<char>;

/// A random (version 4) UUID in hyphenated form: `uuid::Uuid::new_v4`
/// written out by its `Display`, which the `uuid` crate defines as the
/// lowercase hyphenated form.  Nothing is claimed of the digits.
#[verifier::external_body]
pub(crate) fn random_uuid() -> (r: String)
    ensures
        is_hyphenated_uuid(r@),
{
    uuid::Uuid::new_v4().to_string()
}

/// The version-5 UUID of `name` in the URL namespace
/// (`uuid::Uuid::new_v5(&Uuid::NAMESPACE_URL, name.as_bytes())`) in
/// hyphenated form.  It depends on `name` alone; its digits are named, not
/// stated.
#[verifier::external_body]
pub(crate) fn name_based_uuid(name: &str) -> (r: String)
    ensures
        r@ == uuid_v5_url_text(name@),
        is_hyphenated_uuid(r@),
{
    uuid::Uuid::new_v5(&uuid::Uuid::NAMESPACE_URL, name.as_bytes()).to_string()
}

/// `count` new random identifiers.
pub fn new_ids(count: usize) -> (v: Vec<String>)
    ensures
        v@.len() == count,
        forall|i: int| 0 <= i < count ==> is_hyphenated_uuid(#[trigger] v@[i]@),
{
    let mut v: Vec<String> = Vec::new();
    let mut i: usize = 0;
    while i < count
        invariant
            i <= count,
            v@.len() == i,
            forall|j: int| 0 <= j < i ==> is_hyphenated_uuid(#[trigger] v@[j]@),
        decreases count - i,
    {
        v.push(random_uuid());
        i = i + 1;
    }
    v
}

} // verus!
