//! Content addressing of artifacts.
//!
//! An artifact id is the compiler identifier, a separating `-`, and the
//! lowercase hex form of the SHA-256 digest of the source bytes. The id is a
//! pure function of those two inputs, so byte-identical requests converge on
//! the same artifact; and because the digest suffix has a fixed length,
//! distinct compiler identifiers can never produce colliding ids.

use vstd::prelude::*;
use vstd::string::StringExecFns;
use vstd::string::StringSliceAdditionalSpecFns;

verus! {

/// The SHA-256 digest of a byte sequence, named but not spelled out: the
/// trusted wrapper below ties it to what `sha2` computes.
pub uninterp spec fn digest_of(bytes: Seq<u8>) -> Seq<u8>;

/// Relies on `sha2::Sha256::digest`: the digest is 32 bytes and is
/// determined by the input bytes alone.
#[verifier::external_body]
fn sha256_digest(bytes: &[u8]) -> (r: Vec<u8>)
    ensures
        r@ == digest_of(bytes@),
        r@.len() == 32,
{
    <sha2::Sha256 as sha2::Digest>::digest(bytes).to_vec()
}

/// The lowercase hex digit for a nibble.
pub open spec fn hex_digit(n: u8) -> char
    recommends
        n < 16,
{
    if n < 10 {
        (n + 0x30) as char
    } else {
        ((n - 10) + 0x61) as char
    }
}

/// Lowercase hex encoding: two digits per byte, high nibble first.
pub open spec fn hex_of(bytes: Seq<u8>) -> Seq<char> {
    Seq::new(
        bytes.len() * 2,
        |i: int|
            if i % 2 == 0 {
                hex_digit(bytes[i / 2] / 16)
            } else {
                hex_digit(bytes[i / 2] % 16)
            },
    )
}

/// Relies on `hex::encode`: lowercase hex, two digits per byte, high nibble
/// first.
#[verifier::external_body]
fn hex_encode(bytes: &[u8]) -> (r: String)
    ensures
        r@ == hex_of(bytes@),
{
    hex::encode(bytes)
}

/// The artifact id for a compiler identifier and the source's bytes.
pub open spec fn program_id_of(compiler: Seq<char>, source_bytes: Seq<u8>) -> Seq<char> {
    compiler + seq!['-'] + hex_of(digest_of(source_bytes))
}

/// Computes the content-addressed artifact id for one (compiler, source)
/// pair.
pub fn program_id(compiler: &str, source: &str) -> (r: String)
    ensures
        r@ == program_id_of(compiler@, source.spec_bytes()),
{
    let digest = sha256_digest(source.as_bytes());
    let digest_hex = hex_encode(digest.as_slice());
    let mut id = compiler.to_owned();
    id.append("-");
    id.append(digest_hex.as_str());
    proof {
        reveal_strlit("-");
        assert(("-")@ =~= seq!['-']);
        assert(id@ =~= program_id_of(compiler@, source.spec_bytes()));
    }
    id
}

/// Idempotence: the artifact id depends on nothing but the compiler
/// identifier and the exact source bytes, so two requests with identical
/// inputs name the same artifact.
pub proof fn lemma_id_deterministic(c1: Seq<char>, b1: Seq<u8>, c2: Seq<char>, b2: Seq<u8>)
    requires
        c1 == c2,
        b1 == b2,
    ensures
        program_id_of(c1, b1) == program_id_of(c2, b2),
{
}

/// Namespacing: two different compiler identifiers never yield the same
/// artifact id, because the digest suffix has one fixed length.
pub proof fn lemma_id_separates_compilers(c1: Seq<char>, b1: Seq<u8>, c2: Seq<char>, b2: Seq<u8>)
    requires
        digest_of(b1).len() == digest_of(b2).len(),
        c1 != c2,
    ensures
        program_id_of(c1, b1) != program_id_of(c2, b2),
{
    let id1 = program_id_of(c1, b1);
    let id2 = program_id_of(c2, b2);
    if id1 == id2 {
        assert(id1.len() == c1.len() + 1 + hex_of(digest_of(b1)).len());
        assert(id2.len() == c2.len() + 1 + hex_of(digest_of(b2)).len());
        assert(c1.len() == c2.len());
        assert forall|i: int| 0 <= i < c1.len() implies c1[i] == c2[i] by {
            assert(id1[i] == c1[i]);
            assert(id2[i] == c2[i]);
        }
        assert(c1 =~= c2);
    }
}

} // verus!
