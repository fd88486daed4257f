//! Pairing confirmation codes.
use vstd::prelude::*;
use vstd::string::StrSliceExecFns;
use crate::hashing::{blake3_digest, blake3_hash};
use crate::text::{digit, push_char, digit_char};

verus! {

/// The six digits shown to both users to confirm a pairing.
#[derive(Debug)]
pub struct PairingCode {
    pub code: String,
}

impl Clone for PairingCode {
    fn clone(&self) -> (r: Self)
        ensures
            r == *self,
    {
        PairingCode { code: self.code.clone() }
    }
}

/// The bytes hashed for a pairing: the local fingerprint, a colon, the remote fingerprint.
pub open spec fn pairing_input(local: Seq<char>, remote: Seq<char>) -> Seq<u8> {
    vstd::utf8::encode_utf8(local) + seq![58u8] + vstd::utf8::encode_utf8(remote)
}

/// The first four bytes of `d` read as a little-endian number.
pub open spec fn le_u32(d: Seq<u8>) -> nat {
    (d[0] + 256 * d[1] + 65536 * d[2] + 16777216 * d[3]) as nat
}

pub open spec fn pow10(k: nat) -> nat
    decreases k,
{
    if k == 0 { 1 } else { 10 * pow10((k - 1) as nat) }
}

/// The six decimal digits of `n`, most significant first, with leading zeros.
pub open spec fn six_digits(n: nat) -> Seq<char> {
    Seq::new(6, |i: int| digit_char(((n / pow10((5 - i) as nat)) % 10) as int))
}

/// The pairing code of a digest: its first four bytes as a little-endian number,
/// reduced modulo one million, written as six digits.
pub open spec fn pairing_code_of_digest(d: Seq<u8>) -> Seq<char> {
    six_digits(le_u32(d) % 1_000_000)
}

proof fn lemma_pow10_values()
    ensures
        pow10(0) == 1,
        pow10(1) == 10,
        pow10(2) == 100,
        pow10(3) == 1000,
        pow10(4) == 10000,
        pow10(5) == 100000,
{
    reveal_with_fuel(pow10, 6);
}

fn little_endian_number(digest: [u8; 32]) -> (r: u32)
    ensures
        r == le_u32(digest@),
{
    digest[0] as u32 + 256 * (digest[1] as u32) + 65536 * (digest[2] as u32) + 16777216 * (digest[3] as u32)
}

fn six_digit_text(n: u64) -> (s: String)
    ensures
        s@ == six_digits(n as nat),
{
    let mut code = String::new();
    push_char(&mut code, digit((n / 100000) % 10));
    push_char(&mut code, digit((n / 10000) % 10));
    push_char(&mut code, digit((n / 1000) % 10));
    push_char(&mut code, digit((n / 100) % 10));
    push_char(&mut code, digit((n / 10) % 10));
    push_char(&mut code, digit(n % 10));
    proof {
        lemma_pow10_values();
        let t = six_digits(n as nat);
        assert(t[0] == digit_char(((n / 100000) % 10) as int));
        assert(t[1] == digit_char(((n / 10000) % 10) as int));
        assert(t[2] == digit_char(((n / 1000) % 10) as int));
        assert(t[3] == digit_char(((n / 100) % 10) as int));
        assert(t[4] == digit_char(((n / 10) % 10) as int));
        assert((n as nat) / 1 == n as nat);
        assert(t[5] == digit_char((n % 10) as int));
        assert(code@ =~= t);
    }
    code
}

/// The pairing code from the BLAKE3 digest of the two fingerprints.
pub fn pairing_code_from_digest(digest: [u8; 32]) -> (p: PairingCode)
    ensures
        p.code@ == pairing_code_of_digest(digest@),
{
    let numeric = little_endian_number(digest);
    let n: u64 = (numeric % 1_000_000) as u64;
    PairingCode { code: six_digit_text(n) }
}

/// The pairing code for a local and a remote fingerprint: BLAKE3 of
/// "local:remote", then [`pairing_code_from_digest`].
pub fn pairing_code_for_fingerprints(local: &str, remote: &str) -> (p: PairingCode)
    ensures
        p.code@ == pairing_code_of_digest(blake3_digest(pairing_input(local@, remote@))),
{
    let mut input = local.as_bytes_vec();
    input.push(58u8);
    let mut rest = remote.as_bytes_vec();
    input.append(&mut rest);
    assert(input@ =~= pairing_input(local@, remote@));
    let digest = blake3_hash(input.as_slice());
    pairing_code_from_digest(digest)
}

/// Every pairing code is six ASCII digits.
pub proof fn lemma_pairing_code_is_six_digits(d: Seq<u8>)
    ensures
        pairing_code_of_digest(d).len() == 6,
        forall|i: int| 0 <= i < 6 ==> '0' <= #[trigger] pairing_code_of_digest(d)[i] <= '9',
{
    let n = le_u32(d) % 1_000_000;
    assert forall|i: int| 0 <= i < 6 implies '0' <= #[trigger] pairing_code_of_digest(d)[i] <= '9' by {
        let k = (n / pow10((5 - i) as nat)) % 10;
        assert(0 <= k < 10);
    }
}

} // verus!
