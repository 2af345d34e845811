//! UTF-8 prefix recovery shared by the width-measuring and wrapping writers.

use vstd::prelude::*;
use vstd::string::StringSliceAdditionalSpecFns;
use vstd::utf8::valid_utf8;

verus! {

/// The length of the longest prefix of `bytes` (of length at most `upto`) that is
/// valid UTF-8.
pub open spec fn longest_valid_prefix_len(bytes: Seq<u8>, upto: nat) -> nat
    decreases upto,
{
    if upto == 0 || valid_utf8(bytes.take(upto as int)) {
        upto
    } else {
        longest_valid_prefix_len(bytes, (upto - 1) as nat)
    }
}

/// The longest valid prefix is no longer than the bound it was searched under.
pub proof fn lemma_longest_valid_prefix_len_bound(bytes: Seq<u8>, upto: nat)
    ensures
        longest_valid_prefix_len(bytes, upto) <= upto,
    decreases upto,
{
    if upto > 0 && !valid_utf8(bytes.take(upto as int)) {
        lemma_longest_valid_prefix_len_bound(bytes, (upto - 1) as nat);
    }
}

/// The bytes of the longest UTF-8-complete prefix of `bytes`.
pub open spec fn utf8_complete_prefix_spec(bytes: Seq<u8>) -> Seq<u8> {
    bytes.take(longest_valid_prefix_len(bytes, bytes.len()) as int)
}

/// `std::str::from_utf8`, keeping only the success value: it succeeds exactly when
/// the bytes are valid UTF-8, and the resulting string slice has those bytes.
#[verifier::external_body]
pub(crate) fn str_from_utf8(bytes: &[u8]) -> (r: Option<&str>)
    ensures
        r.is_some() <==> valid_utf8(bytes@),
        r matches Some(s) ==> s.spec_bytes() == bytes@,
{
    std::str::from_utf8(bytes).ok()
}

/// `std::str::from_utf8` followed, on failure, by `Utf8Error::valid_up_to`: the length
/// of the longest prefix of `bytes` that is valid UTF-8 (the whole length when the
/// input is valid). The documentation of `valid_up_to` calls it the maximum index
/// such that `from_utf8(&input[..index])` succeeds.
#[verifier::external_body]
fn utf8_valid_up_to(bytes: &[u8]) -> (r: usize)
    ensures
        r <= bytes@.len(),
        valid_utf8(bytes@.take(r as int)),
        forall|j: int| r < j <= bytes@.len() ==> !valid_utf8(#[trigger] bytes@.take(j)),
{
    match std::str::from_utf8(bytes) {
        Ok(_) => bytes.len(),
        Err(error) => error.valid_up_to(),
    }
}

proof fn lemma_longest_valid_prefix(bytes: Seq<u8>, r: nat, upto: nat)
    requires
        r <= upto <= bytes.len(),
        valid_utf8(bytes.take(r as int)),
        forall|j: int| r < j <= bytes.len() ==> !valid_utf8(#[trigger] bytes.take(j)),
    ensures
        longest_valid_prefix_len(bytes, upto) == r,
    decreases upto,
{
    if upto > r {
        assert(!valid_utf8(bytes.take(upto as int)));
        lemma_longest_valid_prefix(bytes, r, (upto - 1) as nat);
    }
}

/// Returns the longest UTF-8-complete prefix of `bytes`: the whole input when it is
/// valid UTF-8, everything before the first byte that cannot start or continue a
/// valid sequence (such as a trailing incomplete sequence), or an empty string when the
/// input starts with an invalid byte.
pub fn utf8_complete_prefix(bytes: &[u8]) -> (r: &str)
    ensures
        r.spec_bytes() == utf8_complete_prefix_spec(bytes@),
{
    let valid = utf8_valid_up_to(bytes);
    proof {
        lemma_longest_valid_prefix(bytes@, valid as nat, bytes@.len());
    }
    let prefix = &bytes[0..valid];
    assert(prefix@ == bytes@.take(valid as int));
    match str_from_utf8(prefix) {
        Some(text) => text,
        None => "",
    }
}

} // verus!
