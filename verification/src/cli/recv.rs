//! The receiver of a transfer: where a file is staged, and what is said of it.

use vstd::prelude::*;
use vstd::string::*;
use crate::bytes;
use crate::cli::copy;
use crate::cli::proto;
use crate::cli::proxy;
use crate::text;

verus! {

/// Whether a sender that opens a transfer compresses its data; else what is wrong with its
/// opening.
pub fn check_hello(frame: &[u8]) -> (out: Result<bool, String>)
    ensures
        match out {
            Ok(c) => proto::tagged(frame@, proto::HELLO) && c == proto::hello_compresses(frame@),
            Err(e) => !proto::tagged(frame@, proto::HELLO) && e@ == "expected HELLO, got "@
                + proxy::hex_byte(
                if frame@.len() > 0 {
                    frame@[0]
                } else {
                    0
                },
            ),
        },
{
    match proto::parse_hello(frame) {
        Ok(c) => Ok(c),
        Err(_) => {
            let b: u8 = if frame.len() > 0 {
                frame[0]
            } else {
                0
            };
            let mut out: String = text::owned("expected HELLO, got ");
            out.push(text::hex_char(b / 16));
            out.push(text::hex_char(b % 16));
            assert(out@ =~= "expected HELLO, got "@ + proxy::hex_byte(b));
            Err(out)
        },
    }
}

/// The name under which a file is kept until it is whole.
pub fn partial_name(name: &str) -> (out: String)
    ensures
        out@ == name@ + ".seam-partial"@,
{
    text::joined(name, ".seam-partial")
}

/// What is said where a transfer goes on where it was broken off.
pub fn resume_notice(name: &str, partial: u64, size: u64) -> (out: String)
    ensures
        out@ == "  resuming "@ + name@ + ": found "@ + text::decimal(partial as nat) + " of "@
            + text::decimal(size as nat) + " bytes in partial file"@,
{
    let partial: String = text::decimal_text(partial);
    let size: String = text::decimal_text(size);
    text::glue7(
        "  resuming ",
        name,
        ": found ",
        partial.as_str(),
        " of ",
        size.as_str(),
        " bytes in partial file",
    )
}

/// What is said of a file that was received, with its digest where it was checked.
pub open spec fn received_text(
    name: Seq<char>,
    size: u64,
    checked: Option<(bool, Seq<u8>)>,
) -> Seq<char> {
    "received: "@ + name + " ("@ + text::decimal(size as nat) + " bytes) ["@ + (match checked {
        Some((fips_mode, digest)) => copy::digest_name(fips_mode) + " OK: "@ + text::hex(
            digest.take(8),
        ),
        None => "no integrity check"@,
    }) + "]"@
}

/// What is said of a file that was received and checked.
pub fn received_checked(name: &str, size: u64, fips_mode: bool, digest: &[u8; 32]) -> (out: String)
    ensures
        out@ == received_text(name@, size, Some((fips_mode, digest@))),
{
    let size: String = text::decimal_text(size);
    let head: Vec<u8> = bytes::piece(digest, 0, 8);
    assert(head@ =~= digest@.take(8));
    let what: String = text::glue3(
        copy::algorithm(fips_mode),
        " OK: ",
        text::to_hex(&head).as_str(),
    );
    let start: String = text::glue5("received: ", name, " (", size.as_str(), " bytes) [");
    text::glue3(start.as_str(), what.as_str(), "]")
}

/// What is said of a file that was received from a sender that gives no digest.
pub fn received_unchecked(name: &str, size: u64) -> (out: String)
    ensures
        out@ == received_text(name@, size, None),
{
    let size: String = text::decimal_text(size);
    let start: String = text::glue5("received: ", name, " (", size.as_str(), " bytes) [");
    text::glue3(start.as_str(), "no integrity check", "]")
}

} // verus!
