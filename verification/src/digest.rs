//! Content digests and their rendering as upper-case hexadecimal text.

use vstd::prelude::*;
use vstd::string::*;

verus! {

/// The SHA-256 digest of a byte sequence.
///
/// The function is not defined here: `sha256_bytes` is trusted to compute it.
pub uninterp spec fn sha256(data: Seq<u8>) -> Seq<u8>;

/// A digest of file content: 32 bytes.
#[derive(Clone, Copy, Debug, PartialEq, Eq)]
pub struct Digest {
    pub bytes: [u8; 32],
}

impl View for Digest {
    type V = Seq<u8>;

    open spec fn view(&self) -> Seq<u8> {
        self.bytes@
    }
}

/// Calls `sha2::Digest::digest` for `sha2::Sha256` on `data` and copies the
/// 32 bytes that it returns into an array.
///
/// Trusted: the bytes are the SHA-256 digest of `data`.
#[verifier::external_body]
fn sha256_bytes(data: &[u8]) -> (out: [u8; 32])
    ensures
        out@ == sha256(data@),
{
    <sha2::Sha256 as sha2::Digest>::digest(data).into()
}

/// Computes the digest of a file's content.
pub fn compute(content: &[u8]) -> (digest: Digest)
    ensures
        digest@ == sha256(content@),
{
    Digest { bytes: sha256_bytes(content) }
}

/// The sixteen upper-case hexadecimal digits, by value.
pub open spec fn hex_digits() -> Seq<char> {
    seq!['0', '1', '2', '3', '4', '5', '6', '7', '8', '9', 'A', 'B', 'C', 'D', 'E', 'F']
}

/// The digit at position `i` of the hexadecimal rendering of `bytes`:
/// the high half of a byte comes first.
pub open spec fn hex_digit_at(bytes: Seq<u8>, i: int) -> char {
    let b = bytes[i / 2];
    if i % 2 == 0 {
        hex_digits()[b as int / 16]
    } else {
        hex_digits()[b as int % 16]
    }
}

/// Upper-case hexadecimal rendering: two digits for each byte, in order.
pub open spec fn hex_upper(bytes: Seq<u8>) -> Seq<char> {
    Seq::new(2 * bytes.len(), |i: int| hex_digit_at(bytes, i))
}

/// The rendering tells byte sequences apart: two of them with one
/// rendering are the same.
pub proof fn lemma_hex_is_injective(first: Seq<u8>, second: Seq<u8>)
    requires
        hex_upper(first) == hex_upper(second),
    ensures
        first == second,
{
    assert(hex_upper(first).len() == 2 * first.len());
    assert(hex_upper(second).len() == 2 * second.len());
    assert(first.len() == second.len());
    assert forall|i: int| 0 <= i < first.len() implies first[i] == second[i] by {
        let a = first[i] as int;
        let b = second[i] as int;
        assert(hex_upper(first)[2 * i] == hex_digits()[a / 16]);
        assert(hex_upper(second)[2 * i] == hex_digits()[b / 16]);
        assert(hex_upper(first)[2 * i + 1] == hex_digits()[a % 16]);
        assert(hex_upper(second)[2 * i + 1] == hex_digits()[b % 16]);
        assert(0 <= a / 16 < 16 && 0 <= b / 16 < 16);
        assert(0 <= a % 16 < 16 && 0 <= b % 16 < 16);
        assert(a / 16 == b / 16);
        assert(a % 16 == b % 16);
    }
    assert(first =~= second);
}

/// Renders `bytes` as upper-case hexadecimal text.
pub fn hex_string(bytes: &[u8]) -> (text: String)
    ensures
        text@ == hex_upper(bytes@),
{
    let digits = "0123456789ABCDEF";
    proof {
        reveal_strlit("0123456789ABCDEF");
        assert(digits@ =~= hex_digits());
    }
    let mut text = String::new();
    let mut i: usize = 0;
    while i < bytes.len()
        invariant
            i <= bytes.len(),
            digits@ == hex_digits(),
            text@ == hex_upper(bytes@.take(i as int)),
        decreases bytes.len() - i,
    {
        let b = bytes[i];
        let high = (b / 16) as usize;
        let low = (b % 16) as usize;
        let ghost before = text@;
        text.append(digits.substring_char(high, high + 1));
        text.append(digits.substring_char(low, low + 1));
        i += 1;
        proof {
            let next = hex_upper(bytes@.take(i as int));
            assert(text@.len() == next.len());
            assert forall|k: int| 0 <= k < next.len() implies text@[k] == next[k] by {
                if k < before.len() {
                    assert(before[k] == hex_digit_at(bytes@.take(i - 1), k));
                }
            }
            assert(text@ =~= next);
        }
    }
    proof {
        assert(bytes@.take(bytes.len() as int) =~= bytes@);
    }
    text
}

impl Digest {
    /// The digest as upper-case hexadecimal text, 64 digits long.
    pub fn to_hex(&self) -> (text: String)
        ensures
            text@ == hex_upper(self@),
    {
        hex_string(&self.bytes)
    }
}

} // verus!
