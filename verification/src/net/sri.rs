//! Subresource integrity: a resource must have the digest that the page names.

use crate::scan;
use crate::text;
use vstd::prelude::*;

verus! {

/// The SHA-256 digest of `data`.
pub uninterp spec fn sha256(data: Seq<u8>) -> Seq<u8>;

/// The standard base64 text of `data`, with padding.
pub uninterp spec fn base64(data: Seq<u8>) -> Seq<char>;

/// Whether the integrity text names this digest: `sha256`, a dash and the digest. No
/// other algorithm is known.
pub open spec fn names_digest(integrity: Seq<char>, encoded: Seq<char>) -> bool {
    match text::position(integrity, '-') {
        Some(i) => integrity.take(i) == "sha256"@ && integrity.skip(i + 1) == encoded,
        None => false,
    }
}

/// `sha2::Sha256::digest` computes the digest of the bytes, which depends on them
/// alone.
#[verifier::external_body]
fn digest_of(data: &[u8]) -> (r: Vec<u8>)
    ensures
        r@ == sha256(data@),
{
    <sha2::Sha256 as sha2::Digest>::digest(data).to_vec()
}

/// `base64::Engine::encode` writes the bytes in the standard alphabet. The text
/// depends on them alone.
#[verifier::external_body]
fn encoded(data: &Vec<u8>) -> (r: String)
    ensures
        r@ == base64(data@),
{
    base64::Engine::encode(&base64::engine::general_purpose::STANDARD, data)
}

/// Whether the integrity text names the digest with this base64 text.
pub fn integrity_names(integrity: &str, hash: &str) -> (r: bool)
    ensures
        r == names_digest(integrity@, hash@),
{
    let chars = scan::chars_of(integrity);
    match scan::position_of(&chars, '-') {
        Some(i) => {
            let algorithm = scan::slice_of(&chars, 0, i);
            let expected = scan::slice_of(&chars, i + 1, chars.len());
            assert(algorithm@ =~= integrity@.take(i as int));
            assert(expected@ =~= integrity@.skip(i + 1));
            scan::equals_str(&algorithm, "sha256") && scan::equals_str(&expected, hash)
        },
        None => false,
    }
}

/// Whether `data` has the digest that the integrity text names.
pub fn verify_integrity(data: &[u8], integrity: &str) -> (r: bool)
    ensures
        r == names_digest(integrity@, base64(sha256(data@))),
{
    let hash = encoded(&digest_of(data));
    integrity_names(integrity, hash.as_str())
}

/// The text that is made of the digest of a resource is passed by that resource, and
/// by another one only with the same digest.
pub proof fn law_own_digest_passes(data: Seq<u8>, other: Seq<u8>)
    ensures
        names_digest("sha256-"@ + base64(sha256(data)), base64(sha256(data))),
        names_digest("sha256-"@ + base64(sha256(data)), base64(sha256(other))) <==> base64(
            sha256(other),
        ) == base64(sha256(data)),
{
    reveal_strlit("sha256-");
    reveal_strlit("sha256");
    let named = "sha256-"@ + base64(sha256(data));
    text::lemma_position(named, '-');
    assert(named[6] == '-');
    assert forall|j: int| 0 <= j < 6 implies named[j] != '-' by {
        assert(named[j] == "sha256-"@[j]);
    }
    assert(named.take(6) =~= "sha256"@);
    assert(named.skip(7) =~= base64(sha256(data)));
}

/// Nothing passes a text that names another algorithm, or none.
pub proof fn law_other_algorithms_fail(integrity: Seq<char>, encoded: Seq<char>)
    requires
        !text::starts_with(integrity, "sha256-"@),
    ensures
        !names_digest(integrity, encoded),
{
    reveal_strlit("sha256-");
    reveal_strlit("sha256");
    text::lemma_position(integrity, '-');
    if names_digest(integrity, encoded) {
        let i = text::position(integrity, '-')->0;
        assert(integrity.take(i).len() == 6);
        assert forall|j: int| 0 <= j < 7 implies integrity.subrange(0, 7)[j] == "sha256-"@[j] by {
            if j < 6 {
                assert(integrity.take(i)[j] == "sha256"@[j]);
            }
        }
        assert(integrity.subrange(0, 7) =~= "sha256-"@);
    }
}

/// The text that names a digest is `sha256`, a dash and the digest, and no other text
/// names it.
pub proof fn law_one_text_names_a_digest(integrity: Seq<char>, encoded: Seq<char>)
    ensures
        names_digest(integrity, encoded) <==> integrity == "sha256-"@ + encoded,
{
    reveal_strlit("sha256-");
    reveal_strlit("sha256");
    let named = "sha256-"@ + encoded;
    text::lemma_position(named, '-');
    assert(named[6] == '-');
    assert forall|j: int| 0 <= j < 6 implies named[j] != '-' by {
        assert(named[j] == "sha256-"@[j]);
    }
    assert(named.take(6) =~= "sha256"@);
    assert(named.skip(7) =~= encoded);
    if names_digest(integrity, encoded) {
        text::lemma_position(integrity, '-');
        let i = text::position(integrity, '-')->0;
        assert(integrity.take(i).len() == 6);
        assert(integrity =~= integrity.take(i) + seq!['-'] + integrity.skip(i + 1));
        assert("sha256-"@ =~= "sha256"@ + seq!['-']);
        assert(integrity =~= named);
    }
}

} // verus!
