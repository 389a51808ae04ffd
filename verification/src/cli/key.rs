//! How the public part of an identity is shown.

use vstd::prelude::*;
use vstd::string::*;
use crate::handshake::{pk_to_bytes, KemPublicKey};
use crate::text;

verus! {

/// The lines that show the public part of an identity.
pub open spec fn listing_text(json: bool, x25519: Seq<u8>, kem: Seq<u8>, path: Seq<char>) -> Seq<
    Seq<char>,
> {
    if json {
        seq![
            "{"@,
            "  \"x25519\": \""@ + text::hex(x25519) + "\","@,
            "  \"kem\": \""@ + text::hex(kem) + "\","@,
            "  \"path\": \""@ + path + "\""@,
            "}"@,
        ]
    } else {
        seq![
            "identity key: "@ + path,
            ""@,
            "  x25519  "@ + text::hex(x25519),
            "  kem     "@ + text::hex(kem),
            ""@,
            "Use these with --x25519 and --kem when configuring a Seamless relay."@,
        ]
    }
}

/// The lines that show the public part of an identity, and where it is kept.
pub fn listing(json: bool, x25519: &[u8; 32], kem: &KemPublicKey, path: &str) -> (out: Vec<String>)
    ensures
        text::texts(out@) == listing_text(json, x25519@, kem.bytes(), path@),
{
    let x: String = text::to_hex(x25519);
    let k: String = text::to_hex(&pk_to_bytes(kem));
    let mut out: Vec<String> = Vec::new();
    if json {
        out.push(text::owned("{"));
        out.push(text::glue3("  \"x25519\": \"", x.as_str(), "\","));
        out.push(text::glue3("  \"kem\": \"", k.as_str(), "\","));
        out.push(text::glue3("  \"path\": \"", path, "\""));
        out.push(text::owned("}"));
    } else {
        out.push(text::joined("identity key: ", path));
        out.push(text::owned(""));
        out.push(text::joined("  x25519  ", x.as_str()));
        out.push(text::joined("  kem     ", k.as_str()));
        out.push(text::owned(""));
        out.push(
            text::owned("Use these with --x25519 and --kem when configuring a Seamless relay."),
        );
    }
    assert(text::texts(out@) =~= listing_text(json, x25519@, kem.bytes(), path@));
    out
}

/// What is said of an identity file that cannot be read.
pub fn corrupt_message(path: &str) -> (out: String)
    ensures
        out@ == "identity key at "@ + path@ + " is corrupt"@,
{
    text::glue3("identity key at ", path, " is corrupt")
}

} // verus!
