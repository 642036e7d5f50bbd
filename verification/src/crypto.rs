//! Digests, password hashes and random values.
use argon2::password_hash::{PasswordHash, PasswordHasher, PasswordVerifier, SaltString};
use argon2::Argon2;
use rand_core::{OsRng, RngCore};
use sha2::{Digest, Sha256};
use vstd::prelude::*;

use crate::text;

verus! {

/// The SHA-256 digest of some bytes, as `sha2` computes it.
pub uninterp spec fn sha256_of(data: Seq<u8>) -> Seq<u8>;

/// `Sha256::digest`: 32 bytes that depend on the data alone.
#[verifier::external_body]
pub(crate) fn sha256(data: &[u8]) -> (out: Vec<u8>)
    ensures
        out@ == sha256_of(data@),
        out@.len() == 32,
{
    Sha256::digest(data).to_vec()
}

/// Why `PasswordHash::new` does not read a text as a hash in the PHC string
/// format; `None` where it reads it.
pub uninterp spec fn phc_refusal(hash: Seq<char>) -> Option<Seq<char>>;

/// A stored hash can be read.
pub open spec fn phc_well_formed(hash: Seq<char>) -> bool {
    phc_refusal(hash) is None
}

/// `PasswordHash::new`: why a stored hash cannot be read, in the words of its
/// error.
#[verifier::external_body]
pub(crate) fn hash_refusal(hash: &str) -> (out: Option<String>)
    ensures
        text::opt(out) == phc_refusal(hash@),
{
    PasswordHash::new(hash).err().map(|e| e.to_string())
}

/// Whether a stored hash can be read.
pub(crate) fn hash_is_well_formed(hash: &str) -> (r: bool)
    ensures
        r == phc_well_formed(hash@),
{
    hash_refusal(hash).is_none()
}

/// The number of lanes starts behind `i`.
pub open spec fn lanes_at(hash: Seq<char>, i: int) -> bool {
    0 <= i && i + 2 <= hash.len() && hash[i] == 'p' && hash[i + 1] == '='
}

/// Nine digits stand from `from` on.
pub open spec fn nine_digits(hash: Seq<char>, from: int) -> bool {
    from + 9 <= hash.len() && forall|j: int|
        from <= j < from + 9 ==> text::is_digit(#[trigger] hash[j])
}

/// The number of lanes that a stored hash asks for has eight digits at most. A
/// hash may name it more than once; the last one counts.
pub open spec fn lanes_fit(hash: Seq<char>) -> bool {
    forall|i: int|
        #[trigger] lanes_at(hash, i) && (forall|j: int| i < j ==> !#[trigger] lanes_at(hash, j))
            ==> !nine_digits(hash, i + 2)
}

/// Whether the number of lanes that a stored hash asks for has eight digits at
/// most.
pub fn hash_lanes_fit(hash: &str) -> (r: bool)
    ensures
        r == lanes_fit(hash@),
{
    let chars = text::to_chars(hash);
    let n = chars.len();
    let mut i: usize = n;
    while i > 0
        invariant
            chars@ == hash@,
            n == chars.len(),
            i <= n,
            forall|j: int| i <= j ==> !#[trigger] lanes_at(hash@, j),
        decreases i,
    {
        i = i - 1;
        if n - i >= 2 && chars[i] == 'p' && chars[i + 1] == '=' {
            assert(lanes_at(hash@, i as int));
            let mut k: usize = i + 2;
            while k < n && k - i < 11 && '0' <= chars[k] && chars[k] <= '9'
                invariant
                    chars@ == hash@,
                    n == chars.len(),
                    i + 2 <= k <= n,
                    k - i <= 11,
                    forall|j: int| i + 2 <= j < k ==> text::is_digit(#[trigger] hash@[j]),
                decreases n - k,
            {
                k = k + 1;
            }
            assert(nine_digits(hash@, i + 2) == (k - i == 11)) by {
                if k - i < 11 && nine_digits(hash@, i + 2) {
                    assert(text::is_digit(hash@[k as int]));
                }
            }
            return k - i < 11;
        }
    }
    true
}

/// Whether Argon2 accepts a password for a stored hash.
pub uninterp spec fn argon2_accepts(password: Seq<u8>, hash: Seq<char>) -> bool;

/// `Argon2::verify_password` on a stored hash: whether the password is the one
/// that was hashed. No password is accepted for a hash that cannot be read. Argon2
/// multiplies the number of lanes by eight before it bounds it, so a number of
/// nine digits or more, which it never accepts, is left out. It takes the memory
/// that the hash asks for.
#[verifier::external_body]
pub(crate) fn password_matches(password: &[u8], hash: &str) -> (r: bool)
    requires
        lanes_fit(hash@),
    ensures
        r == argon2_accepts(password@, hash@),
        r ==> phc_well_formed(hash@),
{
    match PasswordHash::new(hash) {
        Ok(parsed) => Argon2::default().verify_password(password, &parsed).is_ok(),
        Err(_) => false,
    }
}

/// A password is accepted for a stored hash. None is where the hash asks for more
/// lanes than there can be.
pub open spec fn accepted(password: Seq<u8>, hash: Seq<char>) -> bool {
    lanes_fit(hash) && argon2_accepts(password, hash)
}

/// Whether a password is accepted for a stored hash.
pub(crate) fn accepts(password: &[u8], hash: &str) -> (r: bool)
    ensures
        r == accepted(password@, hash@),
        r ==> phc_well_formed(hash@),
{
    hash_lanes_fit(hash) && password_matches(password, hash)
}

/// `Argon2::hash_password` with a fresh salt from `SaltString::generate`. The
/// salt is random, so nothing is said of which hash comes out; whichever it is,
/// it starts with the name of its algorithm, can be read, asks for one lane, and
/// accepts the password. Argon2 refuses only a password of more than 4294967295
/// bytes.
#[verifier::external_body]
pub(crate) fn hash_fresh(password: &[u8]) -> (out: Option<String>)
    ensures
        password@.len() <= 0xffff_ffff ==> out is Some,
        match out {
            Some(h) => {
                &&& "$argon2"@.is_prefix_of(h@)
                &&& phc_well_formed(h@)
                &&& lanes_fit(h@)
                &&& argon2_accepts(password@, h@)
            },
            None => true,
        },
{
    let salt = SaltString::generate(&mut OsRng);
    Argon2::default().hash_password(password, &salt).ok().map(|h| h.to_string())
}

/// Hashes a password for the configuration; `None` for one that is too long. The
/// password is accepted for its hash.
pub fn hash_password(password: &str) -> (out: Option<String>)
    ensures
        match out {
            Some(h) => "$argon2"@.is_prefix_of(h@) && phc_well_formed(h@) && accepted(
                vstd::utf8::encode_utf8(password@),
                h@,
            ),
            None => vstd::utf8::encode_utf8(password@).len() > 0xffff_ffff,
        },
{
    hash_fresh(password.as_bytes())
}

/// `OsRng::fill_bytes`: that many random bytes. Nothing is said of their values.
/// (It panics where the system gives no random bytes; what else is random here
/// has its bytes from the same place.)
#[verifier::external_body]
pub(crate) fn random_bytes(n: usize) -> (out: Vec<u8>)
    ensures
        out@.len() == n,
{
    let mut bytes = vec![0u8; n];
    OsRng.fill_bytes(&mut bytes);
    bytes
}

pub open spec fn is_hex(c: char) -> bool {
    text::is_digit(c) || 'a' <= c <= 'f'
}

/// The form of a random (version 4) UUID: 36 characters, hyphens at four
/// places, lower-case hexadecimal digits elsewhere.
pub open spec fn is_uuid(s: Seq<char>) -> bool {
    &&& s.len() == 36
    &&& s[8] == '-' && s[13] == '-' && s[18] == '-' && s[23] == '-'
    &&& s[14] == '4'
    &&& forall|i: int|
        0 <= i < 36 && i != 8 && i != 13 && i != 18 && i != 23 ==> is_hex(#[trigger] s[i])
}

/// `Uuid::new_v4`, written with hyphens. Nothing is said of which one comes
/// out, and nothing of two of them being different.
#[verifier::external_body]
pub(crate) fn new_uuid() -> (id: String)
    ensures
        is_uuid(id@),
{
    uuid::Uuid::new_v4().to_string()
}

/// A stored hash is left out where the last number of lanes that it names has nine
/// digits or more, and only there.
pub proof fn law_lanes(front: Seq<char>, digits: Seq<char>, rest: Seq<char>)
    requires
        forall|i: int| 0 <= i < digits.len() ==> '0' <= #[trigger] digits[i] <= '9',
        rest.len() > 0 ==> !('0' <= rest[0] <= '9'),
        forall|i: int| 0 <= i < rest.len() ==> rest[i] != '=',
    ensures
        lanes_fit(front + seq!['p', '='] + digits + rest) == (digits.len() <= 8),
        (forall|i: int| 0 <= i < front.len() ==> front[i] != '=') ==> lanes_fit(front),
{
    let h = front + seq!['p', '='] + digits + rest;
    let n = front.len() as int;
    let m = n + 2 + digits.len();
    assert(h[n] == 'p' && h[n + 1] == '=');
    assert(lanes_at(h, n));
    assert forall|j: int| n < j implies !#[trigger] lanes_at(h, j) by {
        if j + 2 <= h.len() && h[j + 1] == '=' {
            if j + 1 < m {
                assert(h[j + 1] == digits[j + 1 - n - 2]);
            } else {
                assert(h[j + 1] == rest[j + 1 - m]);
            }
        }
    }
    if digits.len() >= 9 {
        assert forall|j: int| n + 2 <= j < n + 2 + 9 implies text::is_digit(#[trigger] h[j]) by {
            assert(h[j] == digits[j - n - 2]);
        }
        assert(nine_digits(h, n + 2));
    } else {
        assert(!nine_digits(h, n + 2)) by {
            if nine_digits(h, n + 2) {
                assert(text::is_digit(h[m]));
                assert(h[m] == rest[0]);
            }
        }
        assert forall|i: int|
            #[trigger] lanes_at(h, i) && (forall|j: int| i < j ==> !#[trigger] lanes_at(h, j))
                implies !nine_digits(h, i + 2) by {
            if i < n {
                assert(lanes_at(h, n));
            } else if i > n {
                assert(!lanes_at(h, i));
            }
        }
    }
    if forall|i: int| 0 <= i < front.len() ==> front[i] != '=' {
        assert forall|i: int| !#[trigger] lanes_at(front, i) by {}
    }
}

/// A password is accepted exactly where Argon2 accepts it, for a hash that Argon2
/// can be asked about.
pub proof fn law_accepted(password: Seq<u8>, hash: Seq<char>)
    ensures
        accepted(password, hash) ==> argon2_accepts(password, hash),
        argon2_accepts(password, hash) && lanes_fit(hash) ==> accepted(password, hash),
        phc_well_formed(hash) <==> phc_refusal(hash) is None,
{
}

} // verus!
