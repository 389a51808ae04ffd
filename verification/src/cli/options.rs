//! The options of the command line that hold for every command.

use vstd::prelude::*;
use vstd::string::*;
use crate::cli::known_hosts::PinPolicy;
use crate::text;

verus! {

/// How much is logged.
#[derive(Debug, Clone, Copy, PartialEq, Eq, Structural)]
pub enum LogLevel {
    Warn,
    Info,
    Debug,
    Trace,
}

/// How much is logged, by how often more was asked for.
pub fn log_level(verbose: u8) -> (l: LogLevel)
    ensures
        l == if verbose == 0 {
            LogLevel::Warn
        } else if verbose == 1 {
            LogLevel::Info
        } else if verbose == 2 {
            LogLevel::Debug
        } else {
            LogLevel::Trace
        },
{
    if verbose == 0 {
        LogLevel::Warn
    } else if verbose == 1 {
        LogLevel::Info
    } else if verbose == 2 {
        LogLevel::Debug
    } else {
        LogLevel::Trace
    }
}

/// What is said of a cipher suite that FIPS mode does not allow.
pub open spec fn fips_refusal() -> Seq<char> {
    "FIPS mode is active: ChaCha20-Poly1305 is not FIPS-approved.\nUse --cipher aes256gcm or remove --cipher to use the FIPS-required AES-256-GCM."@
}

/// Whether the cipher suite that was asked for is allowed, and else why not.
pub fn check_cipher(fips_mode: bool, cipher: Option<&str>) -> (out: Result<(), String>)
    ensures
        match out {
            Ok(_) => !(fips_mode && cipher is Some && cipher.unwrap()@ == "chacha20poly1305"@),
            Err(e) => fips_mode && cipher is Some && cipher.unwrap()@ == "chacha20poly1305"@ && e@
                == fips_refusal(),
        },
{
    match cipher {
        Some(c) => {
            if fips_mode && text::same(c, "chacha20poly1305") {
                return Err(
                    text::owned(
                        "FIPS mode is active: ChaCha20-Poly1305 is not FIPS-approved.\nUse --cipher aes256gcm or remove --cipher to use the FIPS-required AES-256-GCM.",
                    ),
                );
            }
        },
        None => {},
    }
    Ok(())
}

/// How pins are handled.
pub fn pin_policy(insecure_ignore_pin: bool, tofu: bool) -> (p: PinPolicy)
    ensures
        p == if insecure_ignore_pin {
            PinPolicy::InsecureIgnore
        } else if tofu {
            PinPolicy::TrustOnFirstUse
        } else {
            PinPolicy::Enforce
        },
{
    if insecure_ignore_pin {
        PinPolicy::InsecureIgnore
    } else if tofu {
        PinPolicy::TrustOnFirstUse
    } else {
        PinPolicy::Enforce
    }
}

/// Which end of a transfer is named in the log: the destination where it is on a remote host, and
/// else the source.
pub fn logged_end(src: &str, dest: &str) -> (out: String)
    ensures
        out@ == if dest@.contains('@') {
            dest@
        } else {
            src@
        },
{
    let chars: Vec<char> = text::chars_of(dest);
    proof {
        text::lemma_positions(dest@, '@');
    }
    match text::find(&chars, '@') {
        Some(at) => {
            assert(dest@[at as int] == '@');
            text::owned(dest)
        },
        None => text::owned(src),
    }
}

/// The status that is logged for a command.
pub fn logged_exit(succeeded: bool) -> (code: i32)
    ensures
        code == if succeeded {
            0int
        } else {
            1
        },
{
    if succeeded {
        0
    } else {
        1
    }
}

/// Whether a command is logged: commands that other hosts start are not, nor is the log itself.
pub open spec fn is_logged(command: Seq<char>) -> bool {
    !text::has_prefix(command, "_"@) && command != "recv"@ && command != "audit"@ && command
        != "completions"@
}

/// Whether a command is logged.
pub fn logged(command: &str) -> (r: bool)
    ensures
        r == is_logged(command@),
{
    !text::starts_with(command, "_") && !text::same(command, "recv") && !text::same(
        command,
        "audit",
    ) && !text::same(command, "completions")
}

/// Commands that run on the far side, and those that only look at the log or print completions,
/// are not logged; all others are.
pub proof fn law_commands_logged(command: Seq<char>)
    ensures
        !is_logged("_"@ + command),
        !is_logged("recv"@),
        !is_logged("audit"@),
        !is_logged("completions"@),
        is_logged(command) || command == "recv"@ || command == "audit"@ || command
            == "completions"@ || exists|rest: Seq<char>| command == #[trigger] ("_"@ + rest),
{
    text::law_contains("_"@ + command, "_"@);
    text::law_contains(command, "_"@);
}

} // verus!
