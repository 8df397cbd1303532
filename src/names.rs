use vstd::prelude::*;

verus! {

/// A random name: 32 ASCII letters and digits.
pub open spec fn is_random_name(s: Seq<char>) -> bool {
    &&& s.len() == 32
    &&& forall|i: int| 0 <= i < s.len() ==> is_ascii_alphanumeric(#[trigger] s[i])
}

pub open spec fn is_ascii_alphanumeric(c: char) -> bool {
    ('A' <= c && c <= 'Z') || ('a' <= c && c <= 'z') || ('0' <= c && c <= '9')
}

/// Relies on rand's `Alphanumeric::sample_string` with the thread-local
/// generator: 32 characters drawn from `A-Z`, `a-z` and `0-9`.
#[verifier::external_body]
pub(crate) fn random_alphanumeric() -> (r: String)
    ensures
        is_random_name(r@),
{
    rand::distr::SampleString::sample_string(&rand::distr::Alphanumeric, &mut rand::rng(), 32)
}

} // verus!
