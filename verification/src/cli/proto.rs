//! The frames of file transfers: a tag, and what the tag calls for.

use vstd::prelude::*;
use vstd::slice::slice_subrange;
use vstd::string::*;
use crate::bytes;
use crate::text;

verus! {

/// Opens a transfer, and says whether data is compressed.
pub const HELLO: u8 = 0x01;

/// Accepts what was sent.
pub const ACK: u8 = 0x02;

/// Announces a file.
pub const FILE_INFO: u8 = 0x03;

/// Carries a piece of a file.
pub const DATA: u8 = 0x04;

/// Ends a transfer.
pub const DONE: u8 = 0x05;

/// Carries the digest of a file.
pub const CHECKSUM: u8 = 0x06;

/// Asks the sender to start in the middle of a file.
pub const RESUME: u8 = 0x07;

/// Data is sent as it is.
pub const COMPRESS_NONE: u8 = 0x00;

/// Data is compressed with zstd.
pub const COMPRESS_ZSTD: u8 = 0x01;

/// Whether a frame has a tag.
pub open spec fn tagged(frame: Seq<u8>, tag: u8) -> bool {
    frame.len() > 0 && frame[0] == tag
}

/// Whether a frame has a tag.
pub fn has_tag(frame: &[u8], tag: u8) -> (r: bool)
    ensures
        r == tagged(frame@, tag),
{
    frame.len() > 0 && frame[0] == tag
}

/// A frame: a tag, and a body.
pub fn frame(tag: u8, body: &[u8]) -> (out: Vec<u8>)
    ensures
        out@ == seq![tag] + body@,
{
    let mut out: Vec<u8> = Vec::new();
    out.push(tag);
    bytes::append(&mut out, body);
    assert(out@ =~= seq![tag] + body@);
    out
}

/// The frame that opens a transfer.
pub fn hello(compress: bool) -> (out: [u8; 2])
    ensures
        out@ == seq![HELLO, if compress {
            COMPRESS_ZSTD
        } else {
            COMPRESS_NONE
        }],
{
    let out: [u8; 2] = [
        HELLO,
        if compress {
            COMPRESS_ZSTD
        } else {
            COMPRESS_NONE
        },
    ];
    assert(out@ =~= seq![HELLO, if compress {
        COMPRESS_ZSTD
    } else {
        COMPRESS_NONE
    }]);
    out
}

/// Whether the frame that opens a transfer says that data is compressed.
pub open spec fn hello_compresses(frame: Seq<u8>) -> bool {
    frame.len() > 1 && frame[1] == COMPRESS_ZSTD
}

/// Reads the frame that opens a transfer: whether data is compressed.
pub fn parse_hello(frame: &[u8]) -> (out: Result<bool, String>)
    ensures
        match out {
            Ok(c) => tagged(frame@, HELLO) && c == hello_compresses(frame@),
            Err(e) => !tagged(frame@, HELLO) && e@ == "expected HELLO from remote sender"@,
        },
{
    if !has_tag(frame, HELLO) {
        return Err(text::owned("expected HELLO from remote sender"));
    }
    Ok(frame.len() > 1 && frame[1] == COMPRESS_ZSTD)
}

/// What a receiver does with a frame between files.
#[derive(Debug, Clone, Copy, PartialEq, Eq, Structural)]
pub enum PullStep {
    /// A file follows.
    File,
    /// There are no more files.
    Done,
}

/// What is said of a frame that does not belong there.
pub open spec fn unexpected_text(tag: u8) -> Seq<char> {
    "unexpected frame type 0x"@ + seq![
        text::hex_digit(tag as int / 16),
        text::hex_digit(tag as int % 16),
    ]
}

/// What a receiver does with a frame between files.
pub fn pull_step(frame: &[u8]) -> (out: Result<PullStep, String>)
    ensures
        match out {
            Ok(PullStep::File) => tagged(frame@, FILE_INFO),
            Ok(PullStep::Done) => tagged(frame@, DONE),
            Err(e) => !tagged(frame@, FILE_INFO) && !tagged(frame@, DONE) && e@ == if frame@.len()
                == 0 {
                "empty frame"@
            } else {
                unexpected_text(frame@[0])
            },
        },
{
    if frame.len() == 0 {
        return Err(text::owned("empty frame"));
    }
    let tag: u8 = frame[0];
    if tag == FILE_INFO {
        Ok(PullStep::File)
    } else if tag == DONE {
        Ok(PullStep::Done)
    } else {
        let mut out: String = String::new();
        out.append("unexpected frame type 0x");
        out.push(text::hex_char(tag / 16));
        out.push(text::hex_char(tag % 16));
        assert(out@ =~= unexpected_text(tag));
        Err(out)
    }
}

/// The frame that announces a file: its size, the length of its name, its name, and a mode that
/// is always zero.
pub open spec fn file_info_bytes(size: u64, name: Seq<u8>) -> Seq<u8> {
    seq![FILE_INFO] + bytes::be64(size) + bytes::be16((name.len() % 65536) as u16) + name
        + bytes::be32(0)
}

/// The frame that announces a file.
pub fn file_info(size: u64, name: &str) -> (out: Vec<u8>)
    ensures
        out@ == file_info_bytes(size, name.spec_bytes()),
{
    let name_bytes: &[u8] = name.as_bytes();
    let mut out: Vec<u8> = Vec::new();
    out.push(FILE_INFO);
    bytes::put_be64(&mut out, size);
    bytes::put_be16(&mut out, (name_bytes.len() % 65536) as u16);
    bytes::append(&mut out, name_bytes);
    bytes::put_be32(&mut out, 0);
    assert(out@ =~= file_info_bytes(size, name.spec_bytes()));
    out
}

/// The size in an announcement.
pub open spec fn announced_size(frame: Seq<u8>) -> u64 {
    bytes::un_be64(frame.subrange(1, 9))
}

/// The length of the name in an announcement.
pub open spec fn announced_name_len(frame: Seq<u8>) -> int {
    bytes::un_be16(frame.subrange(9, 11)) as int
}

/// The name in an announcement.
pub open spec fn announced_name(frame: Seq<u8>) -> Seq<u8> {
    frame.subrange(11, 11 + announced_name_len(frame))
}

/// Whether a file name leads out of the directory it is put in: it names a parent, or it is an
/// absolute path.
pub open spec fn dangerous(name: Seq<char>) -> bool {
    text::contains(name, ".."@) || text::has_prefix(name, "/"@)
}

/// Whether a file name leads out of the directory it is put in.
pub fn is_dangerous(name: &str) -> (r: bool)
    ensures
        r == dangerous(name@),
{
    text::has_part(name, "..") || text::starts_with(name, "/")
}

/// A file that is announced.
#[derive(Debug)]
pub struct FileInfo {
    pub size: u64,
    pub name: String,
}

/// What is said of a name that leads out of the directory.
pub fn refusal(name: &str) -> (out: String)
    ensures
        out@ == "refusing dangerous filename: "@ + name@,
{
    text::joined("refusing dangerous filename: ", name)
}

/// Whether an announcement is accepted.
pub open spec fn info_ok(frame: Seq<u8>) -> bool {
    &&& frame.len() >= 11
    &&& frame.len() >= 11 + announced_name_len(frame)
    &&& vstd::utf8::valid_utf8(announced_name(frame))
    &&& !dangerous(vstd::utf8::decode_utf8(announced_name(frame)))
}

/// Reads an announcement.
pub fn parse_file_info(frame: &[u8]) -> (out: Result<FileInfo, String>)
    ensures
        match out {
            Ok(info) => info_ok(frame@) && info.size == announced_size(frame@) && info.name@
                == vstd::utf8::decode_utf8(announced_name(frame@)),
            Err(e) => if frame@.len() < 11 {
                e@ == "FILE_INFO too short"@
            } else if frame@.len() < 11 + announced_name_len(frame@) {
                e@ == "FILE_INFO name truncated"@
            } else if vstd::utf8::valid_utf8(announced_name(frame@)) {
                !info_ok(frame@) && e@ == "refusing dangerous filename: "@
                    + vstd::utf8::decode_utf8(announced_name(frame@))
            } else {
                e@ == text::utf8_fault(announced_name(frame@))
            },
        },
        out is Ok <==> info_ok(frame@),
{
    let len: usize = frame.len();
    if len < 11 {
        return Err(text::owned("FILE_INFO too short"));
    }
    let size: u64 = bytes::get_be64(frame, 1);
    let name_len: usize = bytes::get_be16(frame, 9) as usize;
    if len < 11 + name_len {
        return Err(text::owned("FILE_INFO name truncated"));
    }
    match text::from_utf8(slice_subrange(frame, 11, 11 + name_len)) {
        Err(e) => Err(e),
        Ok(name) => {
            if is_dangerous(name.as_str()) {
                return Err(refusal(name.as_str()));
            }
            Ok(FileInfo { size, name })
        },
    }
}

/// What one side announces, the other reads, unless the name is dangerous.
pub proof fn law_file_info_round_trip(size: u64, name: Seq<char>)
    requires
        vstd::utf8::encode_utf8(name).len() <= 65535,
    ensures
        announced_size(file_info_bytes(size, vstd::utf8::encode_utf8(name))) == size,
        info_ok(file_info_bytes(size, vstd::utf8::encode_utf8(name))) <==> !dangerous(name),
        vstd::utf8::decode_utf8(
            announced_name(file_info_bytes(size, vstd::utf8::encode_utf8(name))),
        ) == name,
{
    let n = vstd::utf8::encode_utf8(name);
    let f = file_info_bytes(size, n);
    bytes::law_be64_read_write(size);
    bytes::law_be16_read_write(n.len() as u16);
    assert(f.subrange(1, 9) =~= bytes::be64(size));
    assert(f.subrange(9, 11) =~= bytes::be16(n.len() as u16));
    assert(announced_name(f) =~= n);
    vstd::utf8::encode_utf8_valid_utf8(name);
    vstd::utf8::encode_utf8_decode_utf8(name);
}

/// A name is dangerous exactly if it is absolute or holds two dots in a row, wherever they stand.
pub proof fn law_dangerous_names(a: Seq<char>, b: Seq<char>, name: Seq<char>)
    ensures
        dangerous(a + ".."@ + b),
        dangerous("/"@ + a),
        dangerous(name) ==> (exists|x: Seq<char>, y: Seq<char>| name == #[trigger] (x + ".."@ + y))
            || (exists|y: Seq<char>| name == #[trigger] ("/"@ + y)),
{
    text::law_contains(a + ".."@ + b, ".."@);
    text::law_contains("/"@ + a, "/"@);
    text::law_contains(name, ".."@);
    text::law_contains(name, "/"@);
}

/// A greeting says whether data is compressed.
pub proof fn law_hello_says_compression(compress: bool)
    ensures
        hello_compresses(
            seq![
                HELLO,
                if compress {
                    COMPRESS_ZSTD
                } else {
                    COMPRESS_NONE
                },
            ],
        ) == compress,
        tagged(seq![HELLO, 1u8], 1),
        !hello_compresses(seq![HELLO]),
{
}

/// The frames have their own tags.
pub proof fn law_tags(frame: Seq<u8>, a: u8, b: u8)
    ensures
        tagged(frame, a) && tagged(frame, b) ==> a == b,
        tagged(frame, a) <==> frame.len() > 0 && frame[0] == a,
        HELLO != ACK,
        DATA != DONE,
        FILE_INFO != DONE,
        CHECKSUM != RESUME,
{
}

} // verus!
