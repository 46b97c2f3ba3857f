use vstd::prelude::*;

use hmac::Mac;

verus! {

/// The HMAC-SHA-256 tag of `msg` under `key`. The tag is a function of
/// the key and the message alone; nothing here states which bytes it is.
pub uninterp spec fn hmac_sha256_of(key: Seq<u8>, msg: Seq<u8>) -> Seq<u8>;

/// Relies on the hmac crate's `Hmac<Sha256>`: `new_from_slice` accepts a
/// key of any length, `finalize` returns the 32-byte HMAC-SHA-256 tag,
/// and the tag depends on the key and the message alone.
#[verifier::external_body]
pub(crate) fn hmac_sha256(key: &[u8], msg: &[u8]) -> (r: Vec<u8>)
    ensures
        r@ == hmac_sha256_of(key@, msg@),
        r@.len() == 32,
{
    let mut mac = <hmac::Hmac<sha2::Sha256> as Mac>::new_from_slice(key).expect(
        "HMAC accepts a key of any length",
    );
    mac.update(msg);
    mac.finalize().into_bytes().to_vec()
}

/// Are the two byte strings equal? This is the comparison the webhook
/// verifier applies between the computed tag and the one the header
/// carries. Differences are accumulated over the whole length rather
/// than answered at the first differing byte, so the time taken does not
/// tell an observer how long a matching prefix was; only the lengths
/// short-circuit, and they are no secret.
pub fn signature_matches(expected: &[u8], given: &[u8]) -> (r: bool)
    ensures
        r == (expected@ == given@),
{
    if expected.len() != given.len() {
        assert(expected@ != given@) by {
            assert(expected@.len() != given@.len());
        }
        return false;
    }
    let n = expected.len();
    let mut diff: u8 = 0;
    for i in 0..n
        invariant
            n == expected@.len(),
            n == given@.len(),
            (diff == 0) == (forall|j: int| 0 <= j < i ==> expected@[j] == given@[j]),
    {
        let a = expected[i];
        let b = given[i];
        proof {
            assert((a ^ b == 0) == (a == b)) by (bit_vector);
            assert(forall|d: u8, x: u8| #[trigger] (d | x) == 0 <==> d == 0 && x == 0)
                by (bit_vector);
        }
        diff = diff | (a ^ b);
    }
    if diff == 0 {
        assert(expected@ =~= given@);
        true
    } else {
        false
    }
}

} // verus!
