//! Copying files: the steps of both sides, and the limit on their speed.

use vstd::prelude::*;
use vstd::slice::slice_subrange;
use vstd::string::*;
use crate::bytes;
use crate::cli::connect;
use crate::cli::proto;
use crate::crypto::digest;
use crate::text;

verus! {

/// How much of a file goes into one frame.
pub const CHUNK: usize = 32 * 1024;

/// How hard data is compressed.
pub const ZSTD_LEVEL: i32 = 3;

/// What zstd makes of data at a level, or what it says where it fails.
pub uninterp spec fn zstd_packed(data: Seq<u8>, level: i32) -> Result<Seq<u8>, Seq<char>>;

/// What zstd finds in compressed data, or what it says of data that it cannot read.
pub uninterp spec fn zstd_unpacked(data: Seq<u8>) -> Result<Seq<u8>, Seq<char>>;

/// `zstd::encode_all` on bytes in memory. Whether there is a result, and which, and the `Display`
/// text of the error, depend on the bytes and the level alone. Decompressing the result gives the
/// bytes back.
#[verifier::external_body]
pub(crate) fn zstd_encode(data: &[u8], level: i32) -> (out: Result<Vec<u8>, String>)
    ensures
        out is Ok <==> zstd_packed(data@, level) is Ok,
        out matches Ok(v) ==> (zstd_packed(data@, level) matches Ok(p) && p == v@),
        out matches Err(e) ==> (zstd_packed(data@, level) matches Err(w) && w == e@),
        out matches Ok(v) ==> (zstd_unpacked(v@) matches Ok(d) && d == data@),
{
    zstd::encode_all(data, level).map_err(|e| e.to_string())
}

/// `zstd::decode_all` on bytes in memory. Whether there is a result, and which, and the `Display`
/// text of the error, depend on the bytes alone.
#[verifier::external_body]
pub(crate) fn zstd_decode(data: &[u8]) -> (out: Result<Vec<u8>, String>)
    ensures
        out is Ok <==> zstd_unpacked(data@) is Ok,
        out matches Ok(v) ==> (zstd_unpacked(data@) matches Ok(d) && d == v@),
        out matches Err(e) ==> (zstd_unpacked(data@) matches Err(w) && w == e@),
{
    zstd::decode_all(data).map_err(|e| e.to_string())
}

/// A digest in the making: SHA-256 in FIPS mode, else BLAKE3.
pub enum IncrementalHasher {
    Blake3(blake3::Hasher),
    Sha256(digest::Sha256State),
}

/// The digest of a file.
pub open spec fn file_digest(fips_mode: bool, data: Seq<u8>) -> Seq<u8> {
    if fips_mode {
        digest::sha256_digest(data)
    } else {
        digest::blake3_digest(data)
    }
}

/// The name of the digest of a file.
pub open spec fn digest_name(fips_mode: bool) -> Seq<char> {
    if fips_mode {
        "SHA-256"@
    } else {
        "BLAKE3"@
    }
}

/// The name of the digest of a file.
pub fn algorithm(fips_mode: bool) -> (name: &'static str)
    ensures
        name@ == digest_name(fips_mode),
{
    if fips_mode {
        "SHA-256"
    } else {
        "BLAKE3"
    }
}

impl IncrementalHasher {
    /// Whether the digest is the one of FIPS mode.
    pub open spec fn fips(&self) -> bool {
        self is Sha256
    }

    /// The bytes taken in so far.
    pub open spec fn taken(&self) -> Seq<u8> {
        match *self {
            IncrementalHasher::Blake3(h) => digest::blake3_taken(h),
            IncrementalHasher::Sha256(h) => digest::sha256_taken(h),
        }
    }

    /// A hasher that has taken in nothing.
    pub fn new(fips_mode: bool) -> (h: Self)
        ensures
            h.fips() == fips_mode,
            h.taken() == Seq::<u8>::empty(),
    {
        if fips_mode {
            IncrementalHasher::Sha256(digest::sha256_start())
        } else {
            IncrementalHasher::Blake3(digest::blake3_start())
        }
    }

    /// Takes in more bytes.
    pub fn update(&mut self, data: &[u8])
        ensures
            final(self).fips() == old(self).fips(),
            final(self).taken() == old(self).taken() + data@,
    {
        match self {
            IncrementalHasher::Blake3(h) => {
                digest::blake3_update(h, data);
            },
            IncrementalHasher::Sha256(h) => {
                digest::sha256_update(h, data);
            },
        }
    }

    /// The digest of the bytes taken in.
    pub fn finalize(self) -> (out: [u8; 32])
        ensures
            out@ == file_digest(self.fips(), self.taken()),
    {
        match self {
            IncrementalHasher::Blake3(h) => digest::blake3_finish(&h),
            IncrementalHasher::Sha256(h) => digest::sha256_finish(h),
        }
    }
}

/// What goes over the wire for a piece of a file, or why it cannot be compressed.
pub open spec fn packed(data: Seq<u8>, compress: bool) -> Result<Seq<u8>, Seq<char>> {
    if compress {
        zstd_packed(data, ZSTD_LEVEL)
    } else {
        Ok(data)
    }
}

/// The piece of a file in what came over the wire, or why there is none.
pub open spec fn unpacked(data: Seq<u8>, compress: bool) -> Result<Seq<u8>, Seq<char>> {
    if compress {
        zstd_unpacked(data)
    } else {
        Ok(data)
    }
}

/// Whether what came over the wire holds a piece of a file.
pub open spec fn holds_piece(data: Seq<u8>, compress: bool, piece: Seq<u8>) -> bool {
    unpacked(data, compress) == Ok::<Seq<u8>, Seq<char>>(piece)
}

/// Whether what came over the wire cannot be unpacked, for a reason.
pub open spec fn holds_none(data: Seq<u8>, compress: bool, why: Seq<char>) -> bool {
    unpacked(data, compress) == Err::<Seq<u8>, Seq<char>>(why)
}

/// The frame that carries a piece of a file. What it carries is unpacked to the piece again.
pub fn data_frame(piece: &[u8], compress: bool) -> (out: Result<Vec<u8>, String>)
    ensures
        out is Ok <==> !compress || zstd_packed(piece@, ZSTD_LEVEL) is Ok,
        match out {
            Ok(f) => f@ == seq![proto::DATA] + packed(piece@, compress)->Ok_0 && holds_piece(
                f@.skip(1),
                compress,
                piece@,
            ),
            Err(e) => packed(piece@, compress) == Err::<Seq<u8>, Seq<char>>(e@),
        },
{
    if compress {
        match zstd_encode(piece, ZSTD_LEVEL) {
            Ok(v) => {
                let f: Vec<u8> = proto::frame(proto::DATA, &v);
                assert(f@.skip(1) =~= v@);
                Ok(f)
            },
            Err(e) => Err(e),
        }
    } else {
        let f: Vec<u8> = proto::frame(proto::DATA, piece);
        assert(f@.skip(1) =~= piece@);
        Ok(f)
    }
}

/// The piece of a file in a frame.
pub fn parse_data_frame(frame: &[u8], compress: bool) -> (out: Result<Vec<u8>, String>)
    ensures
        match out {
            Ok(v) => proto::tagged(frame@, proto::DATA) && holds_piece(
                frame@.skip(1),
                compress,
                v@,
            ),
            Err(e) => if proto::tagged(frame@, proto::DATA) {
                holds_none(frame@.skip(1), compress, e@)
            } else {
                e@ == "expected DATA frame"@
            },
        },
{
    if !proto::has_tag(frame, proto::DATA) {
        return Err(text::owned("expected DATA frame"));
    }
    let n: usize = frame.len();
    let body: &[u8] = slice_subrange(frame, 1, n);
    assert(body@ =~= frame@.skip(1));
    if compress {
        zstd_decode(body)
    } else {
        Ok(bytes::piece(frame, 1, n))
    }
}

/// The frame in which a receiver asks to start in the middle.
pub fn resume_frame(offset: u64) -> (out: Vec<u8>)
    ensures
        out@ == seq![proto::RESUME] + bytes::be64(offset),
{
    let mut out: Vec<u8> = Vec::new();
    out.push(proto::RESUME);
    bytes::put_be64(&mut out, offset);
    assert(out@ =~= seq![proto::RESUME] + bytes::be64(offset));
    out
}

/// Where a sender starts, given the reply of the receiver: where the receiver asks, if that is
/// inside the file, and else at the beginning.
pub open spec fn start_asked(reply: Seq<u8>, size: u64) -> u64 {
    if proto::tagged(reply, proto::RESUME) && reply.len() >= 9 {
        let offset = bytes::un_be64(reply.subrange(1, 9));
        if 0 < offset < size {
            offset
        } else {
            0
        }
    } else {
        0
    }
}

/// Where a sender starts, given the reply of the receiver.
pub fn start_offset(reply: &[u8], size: u64) -> (at: u64)
    ensures
        at == start_asked(reply@, size),
{
    if proto::has_tag(reply, proto::RESUME) && reply.len() >= 9 {
        let offset: u64 = bytes::get_be64(reply, 1);
        if 0 < offset && offset < size {
            return offset;
        }
    }
    0
}

/// How a receiver begins with a file.
#[derive(Debug, Clone, Copy, PartialEq, Eq, Structural)]
pub enum ResumePlan {
    /// From the beginning.
    Fresh,
    /// From the beginning, and what is left of an earlier attempt is removed.
    Restart,
    /// Where an earlier attempt stopped; the sender is told.
    From(u64),
}

/// How a receiver begins with a file, given how much an earlier attempt left.
pub open spec fn plan(resume: bool, partial: u64, size: u64) -> ResumePlan {
    if !resume {
        ResumePlan::Fresh
    } else if 0 < partial < size {
        ResumePlan::From(partial)
    } else {
        ResumePlan::Restart
    }
}

/// How a receiver begins with a file, given how much an earlier attempt left.
pub fn resume_plan(resume: bool, partial: u64, size: u64) -> (p: ResumePlan)
    ensures
        p == plan(resume, partial, size),
{
    if !resume {
        ResumePlan::Fresh
    } else if 0 < partial && partial < size {
        ResumePlan::From(partial)
    } else {
        ResumePlan::Restart
    }
}

/// A sender starts where the receiver asked it to.
pub proof fn law_resume_agreed(partial: u64, size: u64)
    requires
        plan(true, partial, size) is From,
    ensures
        start_asked(seq![proto::RESUME] + bytes::be64(partial), size) == partial,
        plan(true, partial, size)->From_0 == partial,
{
    let f = seq![proto::RESUME] + bytes::be64(partial);
    bytes::law_be64_read_write(partial);
    assert(f.subrange(1, 9) =~= bytes::be64(partial));
}

/// With resuming on, a receiver that has a proper part of the file always goes on there, and one
/// that has nothing, or all of it and more, starts anew. With resuming off it never goes on.
pub proof fn law_part_is_resumed(partial: u64, size: u64)
    ensures
        0 < partial < size ==> plan(true, partial, size) == ResumePlan::From(partial),
        partial == 0 || partial >= size ==> plan(true, partial, size) == ResumePlan::Restart,
        plan(false, partial, size) == ResumePlan::Fresh,
{
}

/// What a receiver that goes on lacks is what the sender sends: the two halves of the file are
/// the file.
pub proof fn law_resumed_parts_are_file(file: Seq<u8>, partial: u64)
    requires
        0 < partial < file.len() <= u64::MAX,
    ensures
        file.take(partial as int) + file.skip(
            start_asked(seq![proto::RESUME] + bytes::be64(partial), file.len() as u64) as int,
        ) == file,
{
    law_resume_agreed(partial, file.len() as u64);
    assert(file.take(partial as int) + file.skip(partial as int) =~= file);
}

/// A receiver in the middle of a file.
pub struct FileReceiver {
    size: u64,
    received: u64,
    compress: bool,
    hasher: IncrementalHasher,
}

impl FileReceiver {
    /// The size of the file.
    pub closed spec fn size(&self) -> u64 {
        self.size
    }

    /// How much of the file is there.
    pub closed spec fn received(&self) -> u64 {
        self.received
    }

    /// Whether the data is compressed.
    pub closed spec fn compress(&self) -> bool {
        self.compress
    }

    /// Whether the digest is the one of FIPS mode.
    pub closed spec fn fips(&self) -> bool {
        self.hasher.fips()
    }

    /// What has been received in this attempt.
    pub closed spec fn taken(&self) -> Seq<u8> {
        self.hasher.taken()
    }

    /// A receiver that has the first `from` bytes of a file.
    pub fn new(size: u64, from: u64, compress: bool, fips_mode: bool) -> (r: Self)
        ensures
            r.size() == size,
            r.received() == from,
            r.compress() == compress,
            r.fips() == fips_mode,
            r.taken() == Seq::<u8>::empty(),
    {
        FileReceiver { size, received: from, compress, hasher: IncrementalHasher::new(fips_mode) }
    }

    /// Whether the file is there.
    pub fn complete(&self) -> (r: bool)
        ensures
            r == (self.received() >= self.size()),
    {
        self.received >= self.size
    }

    /// Takes in a frame, and gives the bytes to write to the file. A frame that is refused
    /// changes nothing.
    pub fn on_frame(&mut self, frame: &[u8]) -> (out: Result<Vec<u8>, String>)
        ensures
            final(self).size() == old(self).size(),
            final(self).compress() == old(self).compress(),
            final(self).fips() == old(self).fips(),
            match out {
                Ok(v) => {
                    &&& proto::tagged(frame@, proto::DATA)
                    &&& holds_piece(frame@.skip(1), old(self).compress(), v@)
                    &&& final(self).taken() == old(self).taken() + v@
                    &&& final(self).received() == if old(self).received() + v@.len() <= u64::MAX {
                        old(self).received() + v@.len()
                    } else {
                        u64::MAX as int
                    }
                },
                Err(e) => {
                    &&& final(self).taken() == old(self).taken()
                    &&& final(self).received() == old(self).received()
                    &&& if proto::tagged(frame@, proto::DATA) {
                        holds_none(frame@.skip(1), old(self).compress(), e@)
                    } else {
                        e@ == "expected DATA frame"@
                    }
                },
            },
    {
        match parse_data_frame(frame, self.compress) {
            Err(e) => Err(e),
            Ok(v) => {
                self.hasher.update(&v);
                let n: u64 = v.len() as u64;
                self.received = if n <= u64::MAX - self.received {
                    self.received + n
                } else {
                    u64::MAX
                };
                Ok(v)
            },
        }
    }

    /// What the digest of the sender says of the file.
    pub fn check(self, frame: &[u8]) -> (v: Verdict)
        ensures
            v.kind() == verdict(frame@, file_digest(self.fips(), self.taken())),
            v matches Verdict::Corrupt { expected, actual } ==> expected@ == frame@.skip(1)
                && actual@ == file_digest(self.fips(), self.taken()),
    {
        let FileReceiver { size: _, received: _, compress: _, hasher } = self;
        if frame.len() != 33 || frame[0] != proto::CHECKSUM {
            return Verdict::Unchecked;
        }
        let expected: [u8; 32] = bytes::array::<32>(frame, 1);
        assert(expected@ =~= frame@.skip(1));
        let actual: [u8; 32] = hasher.finalize();
        if bytes::same(&actual, &expected) {
            Verdict::Sound
        } else {
            Verdict::Corrupt { expected, actual }
        }
    }
}

/// What the digest of the sender says of a file.
#[derive(Debug)]
pub enum Verdict {
    /// It is the digest of what was received.
    Sound,
    /// It is another digest.
    Corrupt { expected: [u8; 32], actual: [u8; 32] },
    /// The sender gives none.
    Unchecked,
}

/// The kinds of verdicts.
pub enum VerdictKind {
    Sound,
    Corrupt,
    Unchecked,
}

impl Verdict {
    /// The kind of a verdict.
    pub open spec fn kind(self) -> VerdictKind {
        match self {
            Verdict::Sound => VerdictKind::Sound,
            Verdict::Corrupt { .. } => VerdictKind::Corrupt,
            Verdict::Unchecked => VerdictKind::Unchecked,
        }
    }
}

/// The verdict on a file whose digest is known, given the frame that should carry the digest.
pub open spec fn verdict(frame: Seq<u8>, digest: Seq<u8>) -> VerdictKind {
    if frame.len() != 33 || frame[0] != proto::CHECKSUM {
        VerdictKind::Unchecked
    } else if frame.skip(1) == digest {
        VerdictKind::Sound
    } else {
        VerdictKind::Corrupt
    }
}

/// The frame that carries a digest.
pub fn checksum_frame(digest: &[u8; 32]) -> (out: Vec<u8>)
    ensures
        out@ == seq![proto::CHECKSUM] + digest@,
{
    proto::frame(proto::CHECKSUM, digest)
}

/// A file that has the digest which its sender gives is found sound.
pub proof fn law_sound_file_accepted(fips_mode: bool, data: Seq<u8>)
    requires
        file_digest(fips_mode, data).len() == 32,
    ensures
        verdict(
            seq![proto::CHECKSUM] + file_digest(fips_mode, data),
            file_digest(fips_mode, data),
        ) == VerdictKind::Sound,
{
    let d = file_digest(fips_mode, data);
    assert((seq![proto::CHECKSUM] + d).skip(1) =~= d);
}

/// Pieces, one after the other.
pub open spec fn whole(pieces: Seq<Seq<u8>>) -> Seq<u8>
    decreases pieces.len(),
{
    if pieces.len() == 0 {
        Seq::empty()
    } else {
        whole(pieces.drop_last()) + pieces.last()
    }
}

/// What a receiver has written after some frames, where it accepts them all.
pub open spec fn carried(frames: Seq<Seq<u8>>, compress: bool) -> Option<Seq<u8>>
    decreases frames.len(),
{
    if frames.len() == 0 {
        Some(Seq::empty())
    } else {
        match (
            carried(frames.drop_last(), compress),
            unpacked(frames.last().skip(1), compress),
        ) {
            (Some(before), Ok(piece)) => if proto::tagged(frames.last(), proto::DATA) {
                Some(before + piece)
            } else {
                None
            },
            _ => None,
        }
    }
}

/// A receiver writes the file that was sent, piece by piece.
pub proof fn law_file_arrives(pieces: Seq<Seq<u8>>, frames: Seq<Seq<u8>>, compress: bool)
    requires
        pieces.len() == frames.len(),
        forall|i: int|
            0 <= i < frames.len() ==> proto::tagged(#[trigger] frames[i], proto::DATA)
                && holds_piece(frames[i].skip(1), compress, pieces[i]),
    ensures
        carried(frames, compress) == Some(whole(pieces)),
    decreases frames.len(),
{
    if frames.len() > 0 {
        let f = frames.drop_last();
        let p = pieces.drop_last();
        assert forall|i: int| 0 <= i < f.len() implies proto::tagged(
            #[trigger] f[i],
            proto::DATA,
        ) && holds_piece(f[i].skip(1), compress, p[i]) by {
            assert(f[i] == frames[i] && p[i] == pieces[i]);
        }
        law_file_arrives(p, f, compress);
        assert(frames[frames.len() - 1] == frames.last());
        assert(holds_piece(frames.last().skip(1), compress, pieces.last()));
    }
}

/// What becomes of a staged file.
#[derive(Debug, Clone, Copy, PartialEq, Eq, Structural)]
pub enum StagedFile {
    /// It is not staged, or stays as it is.
    Keep,
    /// It takes its place.
    Promote,
    /// It is removed, so that the next attempt starts clean.
    Remove,
}

/// What becomes of a staged file after a verdict; files are staged only where transfers resume.
pub fn after_verdict(v: &Verdict, resume: bool) -> (s: StagedFile)
    ensures
        s == if !resume {
            StagedFile::Keep
        } else {
            match v.kind() {
                VerdictKind::Sound => StagedFile::Promote,
                VerdictKind::Unchecked => StagedFile::Promote,
                VerdictKind::Corrupt => StagedFile::Remove,
            }
        },
{
    if !resume {
        return StagedFile::Keep;
    }
    match v {
        Verdict::Sound => StagedFile::Promote,
        Verdict::Unchecked => StagedFile::Promote,
        Verdict::Corrupt { .. } => StagedFile::Remove,
    }
}

/// What a receiver says of a corrupt file.
pub open spec fn corrupt_text(
    fips_mode: bool,
    name: Seq<char>,
    expected: Seq<u8>,
    actual: Seq<u8>,
    resume: bool,
) -> Seq<char> {
    digest_name(fips_mode) + " integrity check FAILED for "@ + name + ": expected "@ + text::hex(
        expected,
    ) + " got "@ + text::hex(actual) + " — "@ + (if resume {
        "partial deleted, retry transfer"@
    } else {
        "receiver reported mismatch"@
    })
}

/// What a receiver says of a corrupt file.
pub fn corrupt_message(
    fips_mode: bool,
    name: &str,
    expected: &[u8; 32],
    actual: &[u8; 32],
    resume: bool,
) -> (out: String)
    ensures
        out@ == corrupt_text(fips_mode, name@, expected@, actual@, resume),
{
    let mut out: String = String::new();
    out.append(algorithm(fips_mode));
    out.append(" integrity check FAILED for ");
    out.append(name);
    out.append(": expected ");
    out.append(text::to_hex(expected).as_str());
    out.append(" got ");
    out.append(text::to_hex(actual).as_str());
    out.append(" — ");
    if resume {
        out.append("partial deleted, retry transfer");
    } else {
        out.append("receiver reported mismatch");
    }
    assert(out@ =~= corrupt_text(fips_mode, name@, expected@, actual@, resume));
    out
}

/// Whether a receiver accepted a file, and else what the sender says.
pub fn sender_verdict(reply: &[u8], name: &str, fips_mode: bool) -> (out: Result<(), String>)
    ensures
        match out {
            Ok(_) => proto::tagged(reply@, proto::ACK),
            Err(e) => !proto::tagged(reply@, proto::ACK) && e@ == "integrity check failed for "@
                + name@ + ": receiver reported "@ + digest_name(fips_mode) + " hash mismatch"@,
        },
{
    if proto::has_tag(reply, proto::ACK) {
        return Ok(());
    }
    let mut out: String = String::new();
    out.append("integrity check failed for ");
    out.append(name);
    out.append(": receiver reported ");
    out.append(algorithm(fips_mode));
    out.append(" hash mismatch");
    assert(out@ =~= "integrity check failed for "@ + name@ + ": receiver reported "@ + digest_name(
        fips_mode,
    ) + " hash mismatch"@);
    Err(out)
}

/// Which way files go.
#[derive(Debug, Clone, Copy, PartialEq, Eq, Structural)]
pub enum Direction {
    /// From the remote host.
    Pull,
    /// To the remote host.
    Push,
}

/// Which way files go, given which of the two ends are remote.
pub fn direction(src_remote: bool, dst_remote: bool) -> (out: Result<Direction, String>)
    ensures
        match out {
            Ok(Direction::Pull) => src_remote && !dst_remote,
            Ok(Direction::Push) => !src_remote && dst_remote,
            Err(e) => src_remote == dst_remote && e@ == if src_remote {
                "both source and destination cannot be remote — use an intermediate local path"@
            } else {
                "at least one of source or destination must be remote (user@host:/path)"@
            },
        },
{
    if src_remote && dst_remote {
        Err(
            text::owned(
                "both source and destination cannot be remote — use an intermediate local path",
            ),
        )
    } else if src_remote {
        Ok(Direction::Pull)
    } else if dst_remote {
        Ok(Direction::Push)
    } else {
        Err(text::owned("at least one of source or destination must be remote (user@host:/path)"))
    }
}

/// The command that sends files from the remote host.
pub fn send_command(path: &str, no_compress: bool) -> (out: String)
    ensures
        out@ == "_send "@ + connect::quoted(path@) + " --port 0 --once"@ + (if no_compress {
            " --no-compress"@
        } else {
            ""@
        }),
{
    let mut out: String = String::new();
    out.append("_send ");
    out.append(connect::shell_quote(path).as_str());
    out.append(" --port 0 --once");
    if no_compress {
        out.append(" --no-compress");
    } else {
        out.append("");
    }
    assert(out@ =~= "_send "@ + connect::quoted(path@) + " --port 0 --once"@ + (if no_compress {
        " --no-compress"@
    } else {
        ""@
    }));
    out
}

/// The command that receives files on the remote host.
pub fn recv_command(path: &str, fips_mode: bool) -> (out: String)
    ensures
        out@ == "recv "@ + connect::quoted(path@) + " --port 0 --once"@ + (if fips_mode {
            " --fips-mode"@
        } else {
            ""@
        }),
{
    let mut out: String = String::new();
    out.append("recv ");
    out.append(connect::shell_quote(path).as_str());
    out.append(" --port 0 --once");
    if fips_mode {
        out.append(" --fips-mode");
    } else {
        out.append("");
    }
    assert(out@ =~= "recv "@ + connect::quoted(path@) + " --port 0 --once"@ + (if fips_mode {
        " --fips-mode"@
    } else {
        ""@
    }));
    out
}

/// A limit on speed: tokens come in at a steady rate up to a capacity, and every byte costs one.
pub struct TokenBucket {
    capacity: u64,
    tokens: u64,
    rate_bps: u64,
}

impl TokenBucket {
    /// The most tokens there can be.
    pub closed spec fn capacity(&self) -> u64 {
        self.capacity
    }

    /// The tokens there are.
    pub closed spec fn tokens(&self) -> u64 {
        self.tokens
    }

    /// The tokens that come in each second.
    pub closed spec fn rate(&self) -> u64 {
        self.rate_bps
    }

    /// There are never more tokens than the capacity.
    pub open spec fn wf(&self) -> bool {
        self.tokens() <= self.capacity()
    }

    /// A full bucket for a rate in bytes per second. It holds what comes in within a millisecond,
    /// and at least 64 KiB.
    pub fn new(rate_bps: u64) -> (b: Self)
        ensures
            b.wf(),
            b.rate() == rate_bps,
            b.tokens() == b.capacity(),
            b.capacity() == if rate_bps / 1000 > 65536 {
                rate_bps / 1000
            } else {
                65536
            },
    {
        let capacity: u64 = if rate_bps / 1000 > 65536 {
            rate_bps / 1000
        } else {
            65536
        };
        TokenBucket { capacity, tokens: capacity, rate_bps }
    }

    /// The tokens that come in each second.
    pub fn rate_bps(&self) -> (r: u64)
        ensures
            r == self.rate(),
    {
        self.rate_bps
    }

    /// Takes in the tokens that came since the last time, spends some on bytes, and says how many
    /// were missing: for those the sender has to wait.
    pub fn consume(&mut self, new_tokens: u64, bytes: u64) -> (deficit: u64)
        requires
            old(self).wf(),
        ensures
            final(self).wf(),
            final(self).capacity() == old(self).capacity(),
            final(self).rate() == old(self).rate(),
            ({
                let sum = old(self).tokens() + new_tokens;
                let there = if sum < old(self).capacity() {
                    sum
                } else {
                    old(self).capacity() as int
                };
                if there >= bytes {
                    deficit == 0 && final(self).tokens() == there - bytes
                } else {
                    deficit == bytes - there && final(self).tokens() == 0
                }
            }),
    {
        let there: u64 = if new_tokens < self.capacity - self.tokens {
            self.tokens + new_tokens
        } else {
            self.capacity
        };
        if there >= bytes {
            self.tokens = there - bytes;
            0
        } else {
            self.tokens = 0;
            bytes - there
        }
    }
}

/// The digest of a file is SHA-256 in FIPS mode, else BLAKE3, and is named so.
pub proof fn law_digest_by_mode(data: Seq<u8>)
    ensures
        file_digest(true, data) == digest::sha256_digest(data),
        file_digest(false, data) == digest::blake3_digest(data),
        digest_name(true) == "SHA-256"@,
        digest_name(false) == "BLAKE3"@,
{
}

/// Without compression a piece goes over the wire as it is, and with compression as zstd packs it
/// at level 3; what comes is read in the same way.
pub proof fn law_pieces_on_wire(data: Seq<u8>)
    ensures
        packed(data, false) == Ok::<Seq<u8>, Seq<char>>(data),
        packed(data, true) == zstd_packed(data, 3),
        unpacked(data, false) == Ok::<Seq<u8>, Seq<char>>(data),
        unpacked(data, true) == zstd_unpacked(data),
        holds_piece(data, false, data),
{
}

/// A file is corrupt exactly if a digest came and is not that of what arrived; a file without a
/// digest is unchecked.
pub proof fn law_corrupt_file_refused(sent: Seq<u8>, arrived: Seq<u8>, frame: Seq<u8>)
    requires
        sent.len() == 32,
    ensures
        verdict(seq![6u8] + sent, arrived) == VerdictKind::Corrupt <==> sent != arrived,
        verdict(seq![6u8] + sent, arrived) == VerdictKind::Sound <==> sent == arrived,
        verdict(frame, arrived) == VerdictKind::Unchecked <==> frame.len() != 33 || frame[0] != 6,
{
    assert((seq![6u8] + sent).skip(1) =~= sent);
}

/// A sender starts at the beginning where the receiver does not ask for a place inside the file.
pub proof fn law_start_only_inside(offset: u64, size: u64, reply: Seq<u8>)
    ensures
        offset == 0 || offset >= size ==> start_asked(seq![7u8] + bytes::be64(offset), size) == 0,
        0 < offset < size ==> start_asked(seq![7u8] + bytes::be64(offset), size) == offset,
        reply.len() < 9 || reply[0] != 7 ==> start_asked(reply, size) == 0,
{
    let f = seq![7u8] + bytes::be64(offset);
    bytes::law_be64_read_write(offset);
    assert(f.subrange(1, 9) =~= bytes::be64(offset));
}

/// Files go in pieces of 32 KiB.
pub proof fn law_piece_size()
    ensures
        CHUNK == 32768,
        ZSTD_LEVEL == 3,
{
}

} // verus!
