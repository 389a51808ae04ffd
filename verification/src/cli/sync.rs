//! Directory synchronisation: manifests, what has to be sent and deleted, and the frames of the
//! transfer.

use vstd::prelude::*;
use vstd::slice::slice_subrange;
use vstd::string::*;
use vstd::utf8;
use crate::bytes;
use crate::cli::connect;
use crate::cli::copy;
use crate::cli::copy::IncrementalHasher;
use crate::cli::proto;
use crate::cli::proxy;
use crate::crypto::digest;
use crate::text;

verus! {

pub const SYNC_MANIFEST: u8 = 0x20;

pub const SYNC_FILE: u8 = 0x21;

pub const SYNC_FILE_DATA: u8 = 0x22;

pub const SYNC_FILE_ACK: u8 = 0x23;

pub const SYNC_DELETE: u8 = 0x24;

pub const SYNC_DONE: u8 = 0x25;

pub const SYNC_HASH_LEN: usize = 32;

/// A file in a manifest.
#[derive(Debug)]
pub struct ManifestEntry {
    pub path: String,
    pub size: u64,
    pub hash: [u8; 32],
}

/// A file in a manifest.
#[verifier::ext_equal]
pub struct EntryModel {
    pub path: Seq<char>,
    pub size: u64,
    pub hash: Seq<u8>,
}

impl View for ManifestEntry {
    type V = EntryModel;

    open spec fn view(&self) -> EntryModel {
        EntryModel { path: self.path@, size: self.size, hash: self.hash@ }
    }
}

/// The files of a manifest.
pub open spec fn entries(list: Seq<ManifestEntry>) -> Seq<EntryModel> {
    Seq::new(list.len(), |i: int| list[i]@)
}

/// A number in four bytes; greater numbers lose their upper part.
pub open spec fn len32(n: nat) -> Seq<u8> {
    bytes::be32((n % 0x1_0000_0000) as u32)
}

/// A file in a manifest on the wire: the length of its path, its path, its size, and its digest.
pub open spec fn entry_bytes(e: EntryModel) -> Seq<u8> {
    let p = utf8::encode_utf8(e.path);
    len32(p.len()) + p + bytes::be64(e.size) + e.hash
}

/// The files of a manifest on the wire.
pub open spec fn entries_bytes(list: Seq<EntryModel>) -> Seq<u8>
    decreases list.len(),
{
    if list.len() == 0 {
        Seq::empty()
    } else {
        entries_bytes(list.drop_last()) + entry_bytes(list.last())
    }
}

/// A manifest on the wire: a tag, the number of files, and the files.
pub open spec fn manifest_bytes(list: Seq<EntryModel>) -> Seq<u8> {
    seq![SYNC_MANIFEST] + len32(list.len()) + entries_bytes(list)
}

fn put_len(out: &mut Vec<u8>, n: usize)
    ensures
        final(out)@ == old(out)@ + len32(n as nat),
{
    bytes::put_be32(out, (n as u64 % 0x1_0000_0000) as u32);
}

/// A manifest on the wire.
pub fn encode_manifest(list: &Vec<ManifestEntry>) -> (out: Vec<u8>)
    ensures
        out@ == manifest_bytes(entries(list@)),
{
    let n: usize = list.len();
    let ghost all = entries(list@);
    let mut out: Vec<u8> = Vec::new();
    out.push(SYNC_MANIFEST);
    put_len(&mut out, n);
    let ghost head = out@;
    assert(head =~= seq![SYNC_MANIFEST] + len32(all.len()));
    assert(all.take(0) =~= Seq::empty());
    assert(out@ =~= head + entries_bytes(all.take(0)));
    for i in 0..n
        invariant
            n == list@.len(),
            all == entries(list@),
            out@ == head + entries_bytes(all.take(i as int)),
    {
        let path: &[u8] = list[i].path.as_str().as_bytes();
        put_len(&mut out, path.len());
        bytes::append(&mut out, path);
        bytes::put_be64(&mut out, list[i].size);
        bytes::append(&mut out, &list[i].hash);
        proof {
            assert(all.take(i + 1).drop_last() =~= all.take(i as int));
            assert(all.take(i + 1).last() == list@[i as int]@);
            assert(out@ =~= head + entries_bytes(all.take(i + 1)));
        }
    }
    assert(all.take(n as int) =~= all);
    out
}

/// The next file of a manifest, and where it ends.
pub open spec fn entry_at(data: Seq<u8>, pos: int) -> Result<(EntryModel, int), Seq<char>> {
    if pos + 4 > data.len() {
        Err("manifest truncated at path_len"@)
    } else {
        let n = bytes::un_be32(data.subrange(pos, pos + 4)) as int;
        if pos + 4 + n + 40 > data.len() {
            Err("manifest truncated at path"@)
        } else {
            let p = data.subrange(pos + 4, pos + 4 + n);
            if !utf8::valid_utf8(p) {
                Err(text::utf8_fault(p))
            } else {
                Ok(
                    (
                        EntryModel {
                            path: utf8::decode_utf8(p),
                            size: bytes::un_be64(
                                data.subrange(pos + 4 + n, pos + 4 + n + 8),
                            ),
                            hash: data.subrange(pos + 4 + n + 8, pos + 4 + n + 40),
                        },
                        pos + 4 + n + 40,
                    ),
                )
            }
        }
    }
}

/// The first `n` files of a manifest, and where they end.
pub open spec fn first_entries(data: Seq<u8>, n: int) -> Result<
    (Seq<EntryModel>, int),
    Seq<char>,
>
    decreases n,
{
    if n <= 0 {
        Ok((Seq::empty(), 5))
    } else {
        match first_entries(data, n - 1) {
            Err(f) => Err(f),
            Ok((list, pos)) => match entry_at(data, pos) {
                Err(f) => Err(f),
                Ok((e, end)) => Ok((list.push(e), end)),
            },
        }
    }
}

/// The files that a manifest on the wire lists.
pub open spec fn listed(data: Seq<u8>) -> Result<Seq<EntryModel>, Seq<char>> {
    if data.len() == 0 || data[0] != SYNC_MANIFEST {
        Err("expected SYNC_MANIFEST frame"@)
    } else if data.len() < 5 {
        Err("manifest too short"@)
    } else {
        match first_entries(data, bytes::un_be32(data.subrange(1, 5)) as int) {
            Err(f) => Err(f),
            Ok((list, end)) => Ok(list),
        }
    }
}

proof fn lemma_entries_fault(data: Seq<u8>, k: int, n: int)
    requires
        0 <= k <= n,
        first_entries(data, k) is Err,
    ensures
        first_entries(data, n) == first_entries(data, k),
    decreases n - k,
{
    if k < n {
        lemma_entries_fault(data, k, n - 1);
    }
}

fn read_entry(data: &[u8], pos: usize) -> (out: Result<(ManifestEntry, usize), String>)
    requires
        5 <= pos <= data@.len(),
    ensures
        match (out, entry_at(data@, pos as int)) {
            (Ok(t), Ok(m)) => t.0@ == m.0 && t.1 == m.1 && pos <= t.1 <= data@.len(),
            (Err(f), Err(g)) => f@ == g,
            _ => false,
        },
{
    let len: usize = data.len();
    if len - pos < 4 {
        return Err(text::owned("manifest truncated at path_len"));
    }
    let n: u64 = bytes::get_be32(data, pos) as u64;
    if (len - pos) as u64 - 4 < n || (len - pos) as u64 - 4 - n < 40 {
        return Err(text::owned("manifest truncated at path"));
    }
    let n: usize = n as usize;
    let at: usize = pos + 4;
    match text::from_utf8(slice_subrange(data, at, at + n)) {
        Err(e) => Err(e),
        Ok(path) => {
            let size: u64 = bytes::get_be64(data, at + n);
            let hash: [u8; 32] = bytes::array::<32>(data, at + n + 8);
            Ok((ManifestEntry { path, size, hash }, at + n + 40))
        },
    }
}

/// Reads a manifest.
pub fn decode_manifest(data: &[u8]) -> (out: Result<Vec<ManifestEntry>, String>)
    ensures
        match (out, listed(data@)) {
            (Ok(v), Ok(m)) => entries(v@) == m,
            (Err(f), Err(g)) => f@ == g,
            _ => false,
        },
{
    let len: usize = data.len();
    if len == 0 || data[0] != SYNC_MANIFEST {
        return Err(text::owned("expected SYNC_MANIFEST frame"));
    }
    if len < 5 {
        return Err(text::owned("manifest too short"));
    }
    let count: u32 = bytes::get_be32(data, 1);
    let mut out: Vec<ManifestEntry> = Vec::new();
    let mut pos: usize = 5;
    let mut i: u32 = 0;
    assert(entries(out@) =~= Seq::empty());
    while i < count
        invariant
            i <= count,
            len == data@.len(),
            5 <= pos <= len,
            data@[0] == SYNC_MANIFEST,
            count == bytes::un_be32(data@.subrange(1, 5)),
            first_entries(data@, i as int) == Ok::<(Seq<EntryModel>, int), Seq<char>>(
                (entries(out@), pos as int),
            ),
        decreases count - i,
    {
        match read_entry(data, pos) {
            Err(f) => {
                proof {
                    lemma_entries_fault(data@, i + 1, count as int);
                }
                return Err(f);
            },
            Ok((e, end)) => {
                let ghost before = out@;
                let ghost m = e@;
                out.push(e);
                assert(entries(out@) =~= entries(before).push(m));
                pos = end;
            },
        }
        i = i + 1;
    }
    Ok(out)
}

/// Whether a file can be put on the wire without loss.
pub open spec fn sendable(e: EntryModel) -> bool {
    utf8::encode_utf8(e.path).len() < 0x1_0000_0000 && e.hash.len() == 32
}

proof fn lemma_entries_prefix(list: Seq<EntryModel>, n: int)
    requires
        0 <= n <= list.len(),
    ensures
        entries_bytes(list.take(n)).len() <= entries_bytes(list).len(),
        entries_bytes(list).take(entries_bytes(list.take(n)).len() as int) == entries_bytes(
            list.take(n),
        ),
    decreases list.len() - n,
{
    if n == list.len() {
        assert(list.take(n) =~= list);
        assert(entries_bytes(list).take(entries_bytes(list).len() as int) =~= entries_bytes(list));
    } else {
        lemma_entries_prefix(list, n + 1);
        assert(list.take(n + 1).drop_last() =~= list.take(n));
        let a = entries_bytes(list.take(n));
        let b = entries_bytes(list.take(n + 1));
        let c = entries_bytes(list);
        assert(b == a + entry_bytes(list[n]));
        assert(b.take(a.len() as int) =~= a);
        assert(c.take(a.len() as int) =~= c.take(b.len() as int).take(a.len() as int));
    }
}

#[verifier::rlimit(40)]
proof fn lemma_first_entries(list: Seq<EntryModel>, n: int)
    requires
        0 <= n <= list.len(),
        list.len() < 0x1_0000_0000,
        forall|i: int| 0 <= i < list.len() ==> sendable(#[trigger] list[i]),
    ensures
        first_entries(manifest_bytes(list), n) == Ok::<(Seq<EntryModel>, int), Seq<char>>(
            (list.take(n), 5 + entries_bytes(list.take(n)).len() as int),
        ),
    decreases n,
{
    if n == 0 {
        assert(list.take(0) =~= Seq::empty());
    } else {
        lemma_first_entries(list, n - 1);
        lemma_entries_prefix(list, n);
        let e = list[n - 1];
        assert(sendable(e));
        assert(list.take(n).drop_last() =~= list.take(n - 1));
        assert(list.take(n).last() == e);
        let before = entries_bytes(list.take(n - 1));
        let data = manifest_bytes(list);
        let head = seq![SYNC_MANIFEST] + len32(list.len());
        let pos = 5 + before.len() as int;
        assert(entries_bytes(list.take(n)) == before + entry_bytes(e));
        lemma_in_the_middle(head, before, entry_bytes(e), entries_bytes(list));
        lemma_entry_at(data, pos, e);
        assert(list.take(n - 1).push(e) =~= list.take(n));
    }
}

proof fn lemma_in_the_middle(head: Seq<u8>, before: Seq<u8>, part: Seq<u8>, body: Seq<u8>)
    requires
        (before + part).len() <= body.len(),
        body.take((before + part).len() as int) == before + part,
    ensures
        (head + body).subrange(
            head.len() + before.len() as int,
            head.len() + before.len() + part.len() as int,
        ) == part,
{
    let at = head.len() + before.len() as int;
    let s = (head + body).subrange(at, at + part.len());
    assert forall|i: int| 0 <= i < part.len() implies s[i] == #[trigger] part[i] by {
        assert(body.take((before + part).len() as int)[before.len() + i] == body[before.len() + i]);
        assert((before + part)[before.len() + i] == part[i]);
    }
    assert(s =~= part);
}

#[verifier::rlimit(40)]
proof fn lemma_entry_at(data: Seq<u8>, pos: int, e: EntryModel)
    requires
        0 <= pos,
        sendable(e),
        pos + entry_bytes(e).len() <= data.len(),
        data.subrange(pos, pos + entry_bytes(e).len() as int) == entry_bytes(e),
    ensures
        entry_at(data, pos) == Ok::<(EntryModel, int), Seq<char>>(
            (e, pos + entry_bytes(e).len() as int),
        ),
{
    let p = utf8::encode_utf8(e.path);
    let b = entry_bytes(e);
    let n = p.len() as int;
    bytes::law_be32_read_write(n as u32);
    bytes::law_be64_read_write(e.size);
    utf8::encode_utf8_valid_utf8(e.path);
    utf8::encode_utf8_decode_utf8(e.path);
    assert(b.len() == 4 + n + 40);
    let s = data.subrange(pos, pos + b.len() as int);
    assert(data.subrange(pos, pos + 4) =~= bytes::be32(n as u32)) by {
        assert(data.subrange(pos, pos + 4) =~= s.subrange(0, 4));
        assert(b.subrange(0, 4) =~= bytes::be32(n as u32));
    }
    assert(data.subrange(pos + 4, pos + 4 + n) =~= p) by {
        assert(data.subrange(pos + 4, pos + 4 + n) =~= s.subrange(4, 4 + n));
        assert(b.subrange(4, 4 + n) =~= p);
    }
    assert(data.subrange(pos + 4 + n, pos + 4 + n + 8) =~= bytes::be64(e.size)) by {
        assert(data.subrange(pos + 4 + n, pos + 4 + n + 8) =~= s.subrange(4 + n, 12 + n));
        assert(b.subrange(4 + n, 12 + n) =~= bytes::be64(e.size));
    }
    assert(data.subrange(pos + 4 + n + 8, pos + 4 + n + 40) =~= e.hash) by {
        assert(data.subrange(pos + 4 + n + 8, pos + 4 + n + 40) =~= s.subrange(12 + n, 44 + n));
        assert(b.subrange(12 + n, 44 + n) =~= e.hash);
    }
}

/// Reading a manifest gives the files that were written.
pub proof fn law_manifest_round_trip(list: Seq<EntryModel>)
    requires
        list.len() < 0x1_0000_0000,
        forall|i: int| 0 <= i < list.len() ==> sendable(#[trigger] list[i]),
    ensures
        listed(manifest_bytes(list)) == Ok::<Seq<EntryModel>, Seq<char>>(list),
{
    let data = manifest_bytes(list);
    bytes::law_be32_read_write(list.len() as u32);
    assert(data.subrange(1, 5) =~= bytes::be32(list.len() as u32));
    lemma_first_entries(list, list.len() as int);
    assert(list.take(list.len() as int) =~= list);
}

proof fn lemma_entry_in_prefix(data: Seq<u8>, cut: int, pos: int)
    requires
        0 <= pos,
        0 <= cut <= data.len(),
        entry_at(data.take(cut), pos) is Ok,
    ensures
        entry_at(data, pos) == entry_at(data.take(cut), pos),
        pos <= entry_at(data, pos)->Ok_0.1 <= cut,
{
    let d = data.take(cut);
    assert(d.subrange(pos, pos + 4) =~= data.subrange(pos, pos + 4));
    let n = bytes::un_be32(data.subrange(pos, pos + 4)) as int;
    assert(d.subrange(pos + 4, pos + 4 + n) =~= data.subrange(pos + 4, pos + 4 + n));
    assert(d.subrange(pos + 4 + n, pos + 4 + n + 8) =~= data.subrange(
        pos + 4 + n,
        pos + 4 + n + 8,
    ));
    assert(d.subrange(pos + 4 + n + 8, pos + 4 + n + 40) =~= data.subrange(
        pos + 4 + n + 8,
        pos + 4 + n + 40,
    ));
}

proof fn lemma_entries_in_prefix(data: Seq<u8>, cut: int, n: int)
    requires
        5 <= cut <= data.len(),
        first_entries(data.take(cut), n) is Ok,
    ensures
        first_entries(data, n) == first_entries(data.take(cut), n),
        5 <= first_entries(data, n)->Ok_0.1 <= cut,
    decreases n,
{
    if n > 0 {
        lemma_entries_in_prefix(data, cut, n - 1);
        lemma_entry_in_prefix(data, cut, first_entries(data, n - 1)->Ok_0.1);
    }
}

/// A manifest that was cut off anywhere is refused.
pub proof fn law_cut_manifest_refused(list: Seq<EntryModel>, cut: int)
    requires
        list.len() < 0x1_0000_0000,
        forall|i: int| 0 <= i < list.len() ==> sendable(#[trigger] list[i]),
        0 <= cut < manifest_bytes(list).len(),
    ensures
        listed(manifest_bytes(list).take(cut)) is Err,
{
    let data = manifest_bytes(list);
    let n = list.len() as int;
    if cut >= 5 {
        bytes::law_be32_read_write(n as u32);
        assert(data.subrange(1, 5) =~= bytes::be32(n as u32));
        assert(data.take(cut).subrange(1, 5) =~= data.subrange(1, 5));
        lemma_first_entries(list, n);
        assert(list.take(n) =~= list);
        assert(data.len() == 5 + entries_bytes(list).len());
        if first_entries(data.take(cut), n) is Ok {
            lemma_entries_in_prefix(data, cut, n);
        }
    }
}

/// The digest that a manifest gives for a path: that of the last file with the path.
pub open spec fn digest_for(list: Seq<EntryModel>, path: Seq<char>) -> Option<Seq<u8>>
    decreases list.len(),
{
    if list.len() == 0 {
        None
    } else if list.last().path == path {
        Some(list.last().hash)
    } else {
        digest_for(list.drop_last(), path)
    }
}

/// Whether a file has to be sent to a side with a manifest: the file is missing there, or its
/// content is another.
pub open spec fn needed(e: EntryModel, there: Seq<EntryModel>) -> bool {
    digest_for(there, e.path) != Some(e.hash)
}

/// The places of those of the first `n` files that have to be sent.
pub open spec fn needed_places(here: Seq<EntryModel>, there: Seq<EntryModel>, n: int) -> Seq<int>
    decreases n,
{
    if n <= 0 {
        Seq::empty()
    } else {
        let before = needed_places(here, there, n - 1);
        if needed(here[n - 1], there) {
            before.push(n - 1)
        } else {
            before
        }
    }
}

/// The places of those of the first `n` files that the other side does not have at all.
pub open spec fn stray_places(here: Seq<EntryModel>, there: Seq<EntryModel>, n: int) -> Seq<int>
    decreases n,
{
    if n <= 0 {
        Seq::empty()
    } else {
        let before = stray_places(here, there, n - 1);
        if digest_for(there, here[n - 1].path) is None {
            before.push(n - 1)
        } else {
            before
        }
    }
}

fn find_digest(list: &Vec<ManifestEntry>, path: &str) -> (at: Option<usize>)
    ensures
        match at {
            Some(i) => i < list@.len() && digest_for(entries(list@), path@) == Some(
                list@[i as int].hash@,
            ),
            None => digest_for(entries(list@), path@) is None,
        },
{
    let n: usize = list.len();
    let ghost all = entries(list@);
    let mut i: usize = n;
    assert(all.take(n as int) =~= all);
    while i > 0
        invariant
            i <= n,
            n == list@.len(),
            all == entries(list@),
            digest_for(all, path@) == digest_for(all.take(i as int), path@),
        decreases i,
    {
        proof {
            assert(all.take(i as int).last() == list@[i - 1]@);
            assert(all.take(i as int).drop_last() =~= all.take(i - 1));
        }
        if text::same(list[i - 1].path.as_str(), path) {
            return Some(i - 1);
        }
        i = i - 1;
    }
    None
}

/// The places of the files that have to be sent.
pub fn files_to_send(here: &Vec<ManifestEntry>, there: &Vec<ManifestEntry>) -> (places: Vec<usize>)
    ensures
        places@.map_values(|i: usize| i as int) == needed_places(
            entries(here@),
            entries(there@),
            here@.len() as int,
        ),
        forall|i: int| 0 <= i < places@.len() ==> #[trigger] places@[i] < here@.len(),
{
    let n: usize = here.len();
    let ghost a = entries(here@);
    let ghost b = entries(there@);
    let mut places: Vec<usize> = Vec::new();
    assert(places@.map_values(|i: usize| i as int) =~= needed_places(a, b, 0));
    for i in 0..n
        invariant
            n == here@.len(),
            a == entries(here@),
            b == entries(there@),
            places@.map_values(|i: usize| i as int) == needed_places(a, b, i as int),
            forall|j: int| 0 <= j < places@.len() ==> #[trigger] places@[j] < i,
    {
        assert(a[i as int] == here@[i as int]@);
        let send: bool = match find_digest(there, here[i].path.as_str()) {
            Some(k) => !bytes::same(&there[k].hash, &here[i].hash),
            None => true,
        };
        let ghost before = places@;
        if send {
            places.push(i);
            assert(places@.map_values(|i: usize| i as int) =~= before.map_values(
                |i: usize| i as int,
            ).push(i as int));
        }
    }
    places
}

/// The places of the files that the other side does not have: with deletion on, they are
/// removed.
pub fn files_to_delete(here: &Vec<ManifestEntry>, there: &Vec<ManifestEntry>) -> (places: Vec<
    usize,
>)
    ensures
        places@.map_values(|i: usize| i as int) == stray_places(
            entries(here@),
            entries(there@),
            here@.len() as int,
        ),
        forall|i: int| 0 <= i < places@.len() ==> #[trigger] places@[i] < here@.len(),
{
    let n: usize = here.len();
    let ghost a = entries(here@);
    let ghost b = entries(there@);
    let mut places: Vec<usize> = Vec::new();
    assert(places@.map_values(|i: usize| i as int) =~= stray_places(a, b, 0));
    for i in 0..n
        invariant
            n == here@.len(),
            a == entries(here@),
            b == entries(there@),
            places@.map_values(|i: usize| i as int) == stray_places(a, b, i as int),
            forall|j: int| 0 <= j < places@.len() ==> #[trigger] places@[j] < i,
    {
        assert(a[i as int] == here@[i as int]@);
        let stray: bool = match find_digest(there, here[i].path.as_str()) {
            Some(_) => false,
            None => true,
        };
        let ghost before = places@;
        if stray {
            places.push(i);
            assert(places@.map_values(|i: usize| i as int) =~= before.map_values(
                |i: usize| i as int,
            ).push(i as int));
        }
    }
    places
}

/// The sizes of some files, added up.
pub open spec fn size_sum(list: Seq<EntryModel>, places: Seq<usize>) -> nat
    decreases places.len(),
{
    if places.len() == 0 {
        0
    } else {
        size_sum(list, places.drop_last()) + list[places.last() as int].size as nat
    }
}

/// The sizes of some files, added up.
pub fn total_size(list: &Vec<ManifestEntry>, places: &Vec<usize>) -> (sum: u128)
    requires
        forall|i: int| 0 <= i < places@.len() ==> #[trigger] places@[i] < list@.len(),
    ensures
        sum == size_sum(entries(list@), places@),
{
    let n: usize = places.len();
    let mut sum: u128 = 0;
    assert(places@.take(0) =~= Seq::empty());
    for i in 0..n
        invariant
            n == places@.len(),
            forall|j: int| 0 <= j < places@.len() ==> #[trigger] places@[j] < list@.len(),
            sum == size_sum(entries(list@), places@.take(i as int)),
            sum <= i * 0xFFFF_FFFF_FFFF_FFFF,
    {
        assert(places@.take(i + 1).drop_last() =~= places@.take(i as int));
        let p: usize = places[i];
        assert(entries(list@)[p as int] == list@[p as int]@);
        assert(i * 0xFFFF_FFFF_FFFF_FFFF + 0xFFFF_FFFF_FFFF_FFFF <= 0xFFFF_FFFF_FFFF_FFFF
            * 0x1_0000_0000_0000_0000) by (nonlinear_arith)
            requires
                i < 0xFFFF_FFFF_FFFF_FFFF,
        ;
        sum = sum + list[p].size as u128;
    }
    assert(places@.take(n as int) =~= places@);
    sum
}

proof fn lemma_needed_places(here: Seq<EntryModel>, there: Seq<EntryModel>, n: int, i: int)
    requires
        0 <= i < n <= here.len(),
    ensures
        needed(here[i], there) <==> needed_places(here, there, n).contains(i),
    decreases n,
{
    let p = needed_places(here, there, n - 1);
    let q = needed_places(here, there, n);
    if i < n - 1 {
        lemma_needed_places(here, there, n - 1, i);
        if p.contains(i) {
            let a = choose|a: int| 0 <= a < p.len() && p[a] == i;
            assert(q[a] == i);
        }
        if q.contains(i) {
            let a = choose|a: int| 0 <= a < q.len() && q[a] == i;
            assert(p[a] == i);
        }
    } else {
        if needed(here[i], there) {
            assert(q[q.len() - 1] == i);
        } else if q.contains(i) {
            let a = choose|a: int| 0 <= a < q.len() && q[a] == i;
            lemma_places_below(here, there, n - 1, a);
        }
    }
}

proof fn lemma_places_below(here: Seq<EntryModel>, there: Seq<EntryModel>, n: int, a: int)
    requires
        0 <= n <= here.len(),
        0 <= a < needed_places(here, there, n).len(),
    ensures
        0 <= needed_places(here, there, n)[a] < n,
        needed(here[needed_places(here, there, n)[a]], there),
    decreases n,
{
    if n > 0 && a < needed_places(here, there, n - 1).len() {
        lemma_places_below(here, there, n - 1, a);
    }
}

/// A file that is not sent is on the other side already, with the same content.
pub proof fn law_unsent_files_are_there(here: Seq<EntryModel>, there: Seq<EntryModel>, i: int)
    requires
        0 <= i < here.len(),
    ensures
        needed_places(here, there, here.len() as int).contains(i) || digest_for(
            there,
            here[i].path,
        ) == Some(here[i].hash),
{
    lemma_needed_places(here, there, here.len() as int, i);
}

/// Whether no path is listed twice.
pub open spec fn distinct_paths(list: Seq<EntryModel>) -> bool {
    forall|i: int, j: int|
        0 <= i < j < list.len() ==> (#[trigger] list[i]).path != (#[trigger] list[j]).path
}

/// What a directory with a manifest holds: a digest for each path.
pub open spec fn contents(list: Seq<EntryModel>) -> Map<Seq<char>, Seq<u8>>
    decreases list.len(),
{
    if list.len() == 0 {
        Map::empty()
    } else {
        contents(list.drop_last()).insert(list.last().path, list.last().hash)
    }
}

/// What a directory holds after the files at some places of a manifest were sent to it.
pub open spec fn after_sending(
    dir: Map<Seq<char>, Seq<u8>>,
    here: Seq<EntryModel>,
    places: Seq<int>,
) -> Map<Seq<char>, Seq<u8>>
    decreases places.len(),
{
    if places.len() == 0 {
        dir
    } else {
        after_sending(dir, here, places.drop_last()).insert(
            here[places.last()].path,
            here[places.last()].hash,
        )
    }
}

/// What a directory holds after the files at some places of a manifest were removed from it.
pub open spec fn after_deleting(
    dir: Map<Seq<char>, Seq<u8>>,
    list: Seq<EntryModel>,
    places: Seq<int>,
) -> Map<Seq<char>, Seq<u8>>
    decreases places.len(),
{
    if places.len() == 0 {
        dir
    } else {
        after_deleting(dir, list, places.drop_last()).remove(list[places.last()].path)
    }
}

proof fn lemma_contents(list: Seq<EntryModel>, path: Seq<char>)
    ensures
        digest_for(list, path) == if contents(list).contains_key(path) {
            Some(contents(list)[path])
        } else {
            None
        },
    decreases list.len(),
{
    if list.len() > 0 {
        lemma_contents(list.drop_last(), path);
    }
}

/// Whether one of the files at some places has a path.
pub open spec fn names(list: Seq<EntryModel>, places: Seq<int>, path: Seq<char>) -> bool {
    exists|a: int| 0 <= a < places.len() && list[#[trigger] places[a]].path == path
}

proof fn lemma_names(list: Seq<EntryModel>, places: Seq<int>, path: Seq<char>)
    requires
        places.len() > 0,
    ensures
        names(list, places, path) <==> (names(list, places.drop_last(), path)
            || list[places.last()].path == path),
{
    let p = places.drop_last();
    if names(list, places, path) {
        let a = choose|a: int| 0 <= a < places.len() && list[#[trigger] places[a]].path == path;
        if a < p.len() {
            assert(p[a] == places[a]);
        }
    }
    if names(list, p, path) {
        let a = choose|a: int| 0 <= a < p.len() && list[#[trigger] p[a]].path == path;
        assert(places[a] == p[a]);
    }
    if list[places.last()].path == path {
        assert(list[places[places.len() - 1]].path == path);
    }
}

proof fn lemma_after_sending(
    dir: Map<Seq<char>, Seq<u8>>,
    here: Seq<EntryModel>,
    places: Seq<int>,
    path: Seq<char>,
)
    requires
        distinct_paths(here),
        forall|a: int| 0 <= a < places.len() ==> 0 <= #[trigger] places[a] < here.len(),
    ensures
        names(here, places, path) ==> {
            &&& after_sending(dir, here, places).contains_key(path)
            &&& digest_for(here, path) == Some(after_sending(dir, here, places)[path])
        },
        !names(here, places, path) ==> {
            &&& after_sending(dir, here, places).contains_key(path) == dir.contains_key(path)
            &&& after_sending(dir, here, places)[path] == dir[path]
        },
    decreases places.len(),
{
    if places.len() > 0 {
        let p = places.drop_last();
        assert forall|a: int| 0 <= a < p.len() implies 0 <= #[trigger] p[a] < here.len() by {
            assert(p[a] == places[a]);
        }
        lemma_after_sending(dir, here, p, path);
        lemma_names(here, places, path);
        assert(0 <= places[places.len() - 1] < here.len());
        lemma_own_digest(here, places.last());
    }
}

proof fn lemma_after_deleting(
    dir: Map<Seq<char>, Seq<u8>>,
    list: Seq<EntryModel>,
    places: Seq<int>,
    path: Seq<char>,
)
    ensures
        after_deleting(dir, list, places).contains_key(path) == (dir.contains_key(path) && !names(
            list,
            places,
            path,
        )),
        !names(list, places, path) ==> after_deleting(dir, list, places)[path] == dir[path],
    decreases places.len(),
{
    if places.len() > 0 {
        lemma_after_deleting(dir, list, places.drop_last(), path);
        lemma_names(list, places, path);
    }
}

proof fn lemma_stray_places(here: Seq<EntryModel>, there: Seq<EntryModel>, n: int, path: Seq<char>)
    requires
        0 <= n <= here.len(),
    ensures
        names(here, stray_places(here, there, n), path) <==> digest_for(there, path) is None
            && digest_for(here.take(n), path) is Some,
    decreases n,
{
    if n > 0 {
        lemma_stray_places(here, there, n - 1, path);
        assert(here.take(n).drop_last() =~= here.take(n - 1));
        let p = stray_places(here, there, n);
        if digest_for(there, here[n - 1].path) is None {
            assert(p.drop_last() =~= stray_places(here, there, n - 1));
            lemma_names(here, p, path);
        }
    }
}

proof fn lemma_found(list: Seq<EntryModel>, path: Seq<char>) -> (i: int)
    requires
        digest_for(list, path) is Some,
    ensures
        0 <= i < list.len(),
        list[i].path == path,
    decreases list.len(),
{
    if list.last().path == path {
        list.len() - 1
    } else {
        lemma_found(list.drop_last(), path)
    }
}

proof fn lemma_sent(here: Seq<EntryModel>, there: Seq<EntryModel>, path: Seq<char>)
    requires
        distinct_paths(here),
    ensures
        ({
            let after = after_sending(
                contents(there),
                here,
                needed_places(here, there, here.len() as int),
            );
            if digest_for(here, path) is Some {
                after.contains_key(path) && digest_for(here, path) == Some(after[path])
            } else {
                after.contains_key(path) == contents(there).contains_key(path)
            }
        }),
{
    let n = here.len() as int;
    let places = needed_places(here, there, n);
    assert forall|a: int| 0 <= a < places.len() implies 0 <= #[trigger] places[a] < here.len() by {
        lemma_places_below(here, there, n, a);
    }
    lemma_after_sending(contents(there), here, places, path);
    lemma_contents(there, path);
    if digest_for(here, path) is Some {
        let i = lemma_found(here, path);
        lemma_own_digest(here, i);
        lemma_needed_places(here, there, n, i);
        if needed(here[i], there) {
            let a = choose|a: int| 0 <= a < places.len() && places[a] == i;
            assert(here[places[a]].path == path);
            assert(names(here, places, path));
        }
    }
}

/// After a synchronisation the other side holds every file of this side, with the same content.
pub proof fn law_files_arrive(here: Seq<EntryModel>, there: Seq<EntryModel>, path: Seq<char>)
    requires
        distinct_paths(here),
        contents(here).contains_key(path),
    ensures
        ({
            let after = after_sending(
                contents(there),
                here,
                needed_places(here, there, here.len() as int),
            );
            after.contains_key(path) && after[path] == contents(here)[path]
        }),
{
    lemma_sent(here, there, path);
    lemma_contents(here, path);
}

/// After a synchronisation with deletion the two sides hold the same files.
pub proof fn law_sides_equal_after_sync(here: Seq<EntryModel>, there: Seq<EntryModel>)
    requires
        distinct_paths(here),
    ensures
        after_deleting(
            after_sending(contents(there), here, needed_places(here, there, here.len() as int)),
            there,
            stray_places(there, here, there.len() as int),
        ) == contents(here),
{
    let sent = after_sending(contents(there), here, needed_places(here, there, here.len() as int));
    let strays = stray_places(there, here, there.len() as int);
    let after = after_deleting(sent, there, strays);
    assert forall|path: Seq<char>|
        #![trigger after.contains_key(path)]
        after.contains_key(path) == contents(here).contains_key(path) && (after.contains_key(path)
            ==> after[path] == contents(here)[path]) by {
        lemma_sent(here, there, path);
        lemma_after_deleting(sent, there, strays, path);
        lemma_stray_places(there, here, there.len() as int, path);
        lemma_contents(here, path);
        lemma_contents(there, path);
        assert(there.take(there.len() as int) =~= there);
    }
    assert(after =~= contents(here));
}

/// Nothing is sent between sides with the same manifest, where no path is listed twice.
pub proof fn law_synced_sides_send_nothing(list: Seq<EntryModel>, n: int)
    requires
        0 <= n <= list.len(),
        distinct_paths(list),
    ensures
        needed_places(list, list, n) == Seq::<int>::empty(),
    decreases n,
{
    if n > 0 {
        law_synced_sides_send_nothing(list, n - 1);
        lemma_own_digest(list, n - 1);
    }
}

proof fn lemma_own_digest(list: Seq<EntryModel>, i: int)
    requires
        0 <= i < list.len(),
        distinct_paths(list),
    ensures
        digest_for(list, list[i].path) == Some(list[i].hash),
    decreases list.len(),
{
    if i < list.len() - 1 {
        let rest = list.drop_last();
        assert(list[i].path != list[list.len() - 1].path);
        assert(distinct_paths(rest)) by {
            assert forall|a: int, b: int| 0 <= a < b < rest.len() implies (
            #[trigger] rest[a]).path != (#[trigger] rest[b]).path by {
                assert(list[a].path != list[b].path);
            }
        }
        lemma_own_digest(rest, i);
    }
}

/// The frame that announces a file: its path, and its size.
pub open spec fn file_header_bytes(path: Seq<char>, size: u64) -> Seq<u8> {
    let p = utf8::encode_utf8(path);
    seq![SYNC_FILE] + len32(p.len()) + p + bytes::be64(size)
}

/// The frame that announces a file.
pub fn file_header(path: &str, size: u64) -> (out: Vec<u8>)
    ensures
        out@ == file_header_bytes(path@, size),
{
    let p: &[u8] = path.as_bytes();
    let mut out: Vec<u8> = Vec::new();
    out.push(SYNC_FILE);
    put_len(&mut out, p.len());
    bytes::append(&mut out, p);
    bytes::put_be64(&mut out, size);
    assert(out@ =~= file_header_bytes(path@, size));
    out
}

/// The length of the path that follows a tag.
pub open spec fn path_len(frame: Seq<u8>) -> int {
    bytes::un_be32(frame.subrange(1, 5)) as int
}

/// The path that follows a tag and a length.
pub open spec fn path_bytes(frame: Seq<u8>) -> Seq<u8> {
    frame.subrange(5, 5 + path_len(frame))
}

/// Whether the announcement of a file is accepted.
pub open spec fn header_ok(frame: Seq<u8>) -> bool {
    &&& frame.len() >= 13
    &&& frame.len() >= 5 + path_len(frame) + 8
    &&& utf8::valid_utf8(path_bytes(frame))
    &&& !proto::dangerous(utf8::decode_utf8(path_bytes(frame)))
}

/// Reads the announcement of a file: its path, and its size.
pub fn parse_file_header(frame: &[u8]) -> (out: Result<(String, u64), String>)
    ensures
        out is Ok <==> header_ok(frame@),
        match out {
            Ok(t) => t.0@ == utf8::decode_utf8(path_bytes(frame@)) && t.1 == bytes::un_be64(
                frame@.subrange(5 + path_len(frame@), 13 + path_len(frame@)),
            ),
            Err(e) => if frame@.len() < 13 {
                e@ == "sync file header too short"@
            } else if frame@.len() < 5 + path_len(frame@) + 8 {
                e@ == "sync file header truncated"@
            } else if utf8::valid_utf8(path_bytes(frame@)) {
                e@ == "refusing dangerous path: "@ + utf8::decode_utf8(path_bytes(frame@))
            } else {
                e@ == text::utf8_fault(path_bytes(frame@))
            },
        },
{
    let len: usize = frame.len();
    if len < 13 {
        return Err(text::owned("sync file header too short"));
    }
    let n: u64 = bytes::get_be32(frame, 1) as u64;
    if n > (len - 13) as u64 {
        return Err(text::owned("sync file header truncated"));
    }
    let n: usize = n as usize;
    match text::from_utf8(slice_subrange(frame, 5, 5 + n)) {
        Err(e) => Err(e),
        Ok(path) => {
            if proto::is_dangerous(path.as_str()) {
                return Err(text::joined("refusing dangerous path: ", path.as_str()));
            }
            let size: u64 = bytes::get_be64(frame, 5 + n);
            Ok((path, size))
        },
    }
}

/// A receiver reads the path and the size that a sender announces, unless the path is dangerous.
pub proof fn law_file_header_round_trip(path: Seq<char>, size: u64)
    requires
        utf8::encode_utf8(path).len() < 0x1_0000_0000,
    ensures
        header_ok(file_header_bytes(path, size)) <==> !proto::dangerous(path),
        utf8::decode_utf8(path_bytes(file_header_bytes(path, size))) == path,
        bytes::un_be64(
            file_header_bytes(path, size).subrange(
                5 + path_len(file_header_bytes(path, size)),
                13 + path_len(file_header_bytes(path, size)),
            ),
        ) == size,
{
    let p = utf8::encode_utf8(path);
    let f = file_header_bytes(path, size);
    bytes::law_be32_read_write(p.len() as u32);
    bytes::law_be64_read_write(size);
    assert(f.subrange(1, 5) =~= bytes::be32(p.len() as u32));
    assert(path_bytes(f) =~= p);
    assert(f.subrange(5 + p.len() as int, 13 + p.len() as int) =~= bytes::be64(size));
    utf8::encode_utf8_valid_utf8(path);
    utf8::encode_utf8_decode_utf8(path);
}

/// The frame that carries a piece of a file.
pub fn file_data(piece: &[u8], compress: bool) -> (out: Result<Vec<u8>, String>)
    ensures
        out is Ok <==> !compress || copy::zstd_packed(piece@, copy::ZSTD_LEVEL) is Ok,
        match out {
            Ok(f) => f@ == seq![SYNC_FILE_DATA] + copy::packed(piece@, compress)->Ok_0
                && copy::holds_piece(f@.skip(1), compress, piece@),
            Err(e) => copy::packed(piece@, compress) == Err::<Seq<u8>, Seq<char>>(e@),
        },
{
    if compress {
        match copy::zstd_encode(piece, copy::ZSTD_LEVEL) {
            Ok(v) => {
                let f: Vec<u8> = proto::frame(SYNC_FILE_DATA, &v);
                assert(f@.skip(1) =~= v@);
                Ok(f)
            },
            Err(e) => Err(e),
        }
    } else {
        let f: Vec<u8> = proto::frame(SYNC_FILE_DATA, piece);
        assert(f@.skip(1) =~= piece@);
        Ok(f)
    }
}

/// What is said of a frame that does not belong between the pieces of a file.
pub open spec fn data_fault(frame: Seq<u8>, path: Seq<char>) -> Seq<char> {
    if frame.len() == 0 {
        "sync: unexpected empty frame while receiving "@ + path
    } else if frame[0] == proto::CHECKSUM {
        "sync: received CHECKSUM before all data for "@ + path
    } else {
        "sync: expected SYNC_FILE_DATA, got 0x"@ + proxy::hex_byte(frame[0])
    }
}

fn say_hex(before: &str, b: u8) -> (out: String)
    ensures
        out@ == before@ + proxy::hex_byte(b),
{
    let mut out: String = text::owned(before);
    out.push(text::hex_char(b / 16));
    out.push(text::hex_char(b % 16));
    assert(out@ =~= before@ + proxy::hex_byte(b));
    out
}

/// A receiver in the middle of a file.
pub struct SyncReceiver {
    path: String,
    size: u64,
    received: u64,
    compress: bool,
    hasher: IncrementalHasher,
}

impl SyncReceiver {
    /// The path of the file.
    pub closed spec fn path(&self) -> Seq<char> {
        self.path@
    }

    /// The size of the file.
    pub closed spec fn size(&self) -> u64 {
        self.size
    }

    /// How much of the file has come.
    pub closed spec fn received(&self) -> u64 {
        self.received
    }

    /// Whether the data is compressed.
    pub closed spec fn compress(&self) -> bool {
        self.compress
    }

    /// Whether the digest is the one of FIPS mode.
    pub closed spec fn fips(&self) -> bool {
        self.hasher.fips()
    }

    /// What has come.
    pub closed spec fn taken(&self) -> Seq<u8> {
        self.hasher.taken()
    }

    /// A receiver at the beginning of a file.
    pub fn new(path: &str, size: u64, compress: bool, fips_mode: bool) -> (r: Self)
        ensures
            r.path() == path@,
            r.size() == size,
            r.received() == 0,
            r.compress() == compress,
            r.fips() == fips_mode,
            r.taken() == Seq::<u8>::empty(),
    {
        SyncReceiver {
            path: text::owned(path),
            size,
            received: 0,
            compress,
            hasher: IncrementalHasher::new(fips_mode),
        }
    }

    /// Whether the file is there.
    pub fn complete(&self) -> (r: bool)
        ensures
            r == (self.received() >= self.size()),
    {
        self.received >= self.size
    }

    /// Takes in a frame, and gives the bytes to write to the file. A frame that is refused
    /// changes nothing.
    pub fn on_frame(&mut self, frame: &[u8]) -> (out: Result<Vec<u8>, String>)
        ensures
            final(self).path() == old(self).path(),
            final(self).size() == old(self).size(),
            final(self).compress() == old(self).compress(),
            final(self).fips() == old(self).fips(),
            match out {
                Ok(v) => {
                    &&& proto::tagged(frame@, SYNC_FILE_DATA)
                    &&& copy::holds_piece(frame@.skip(1), old(self).compress(), v@)
                    &&& final(self).taken() == old(self).taken() + v@
                    &&& final(self).received() == if old(self).received() + v@.len() <= u64::MAX {
                        old(self).received() + v@.len()
                    } else {
                        u64::MAX as int
                    }
                },
                Err(e) => {
                    &&& final(self).taken() == old(self).taken()
                    &&& final(self).received() == old(self).received()
                    &&& if proto::tagged(frame@, SYNC_FILE_DATA) {
                        copy::holds_none(frame@.skip(1), old(self).compress(), e@)
                    } else {
                        e@ == data_fault(frame@, old(self).path())
                    }
                },
            },
    {
        let n: usize = frame.len();
        if n == 0 {
            return Err(
                text::joined(
                    "sync: unexpected empty frame while receiving ",
                    self.path.as_str(),
                ),
            );
        }
        if frame[0] == proto::CHECKSUM {
            return Err(
                text::joined(
                    "sync: received CHECKSUM before all data for ",
                    self.path.as_str(),
                ),
            );
        }
        if frame[0] != SYNC_FILE_DATA {
            return Err(say_hex("sync: expected SYNC_FILE_DATA, got 0x", frame[0]));
        }
        let body: &[u8] = slice_subrange(frame, 1, n);
        assert(body@ =~= frame@.skip(1));
        let piece: Result<Vec<u8>, String> = if self.compress {
            copy::zstd_decode(body)
        } else {
            Ok(bytes::piece(frame, 1, n))
        };
        match piece {
            Err(e) => Err(e),
            Ok(v) => {
                self.hasher.update(&v);
                let k: u64 = v.len() as u64;
                self.received = if k <= u64::MAX - self.received {
                    self.received + k
                } else {
                    u64::MAX
                };
                Ok(v)
            },
        }
    }

    /// Whether the digest of the sender is that of the file; else what is said.
    pub fn check(self, frame: &[u8]) -> (out: Result<(), String>)
        ensures
            match out {
                Ok(_) => copy::verdict(frame@, copy::file_digest(self.fips(), self.taken()))
                    is Sound,
                Err(e) => match copy::verdict(
                    frame@,
                    copy::file_digest(self.fips(), self.taken()),
                ) {
                    copy::VerdictKind::Sound => false,
                    copy::VerdictKind::Corrupt => e@ == "sync: "@ + copy::digest_name(self.fips())
                        + " mismatch for "@ + self.path(),
                    copy::VerdictKind::Unchecked => e@ == "sync: expected CHECKSUM frame"@,
                },
            },
    {
        let SyncReceiver { path, size: _, received: _, compress: _, hasher } = self;
        if frame.len() != 33 || frame[0] != proto::CHECKSUM {
            return Err(text::owned("sync: expected CHECKSUM frame"));
        }
        let fips: bool = match hasher {
            IncrementalHasher::Sha256(_) => true,
            IncrementalHasher::Blake3(_) => false,
        };
        let expected: [u8; 32] = bytes::array::<32>(frame, 1);
        assert(expected@ =~= frame@.skip(1));
        let actual: [u8; 32] = hasher.finalize();
        if bytes::same(&actual, &expected) {
            Ok(())
        } else {
            Err(text::glue4("sync: ", copy::algorithm(fips), " mismatch for ", path.as_str()))
        }
    }
}

/// Whether a receiver accepted a file, and else what the sender says.
pub fn sender_verdict(reply: &[u8], path: &str) -> (out: Result<(), String>)
    ensures
        match out {
            Ok(_) => proto::tagged(reply@, SYNC_FILE_ACK),
            Err(e) => !proto::tagged(reply@, SYNC_FILE_ACK) && e@
                == "sync: integrity check failed for "@ + path@,
        },
{
    if proto::has_tag(reply, SYNC_FILE_ACK) {
        Ok(())
    } else {
        Err(text::joined("sync: integrity check failed for ", path))
    }
}

/// What a receiver does with a frame between files.
pub fn sync_step(frame: &[u8], who: &str) -> (out: Result<proto::PullStep, String>)
    ensures
        match out {
            Ok(proto::PullStep::File) => proto::tagged(frame@, SYNC_FILE),
            Ok(proto::PullStep::Done) => proto::tagged(frame@, SYNC_DONE),
            Err(e) => !proto::tagged(frame@, SYNC_FILE) && !proto::tagged(frame@, SYNC_DONE) && e@
                == if frame@.len() == 0 {
                who@ + ": unexpected empty frame"@
            } else {
                who@ + ": unexpected frame 0x"@ + proxy::hex_byte(frame@[0])
            },
        },
{
    if frame.len() == 0 {
        return Err(text::joined(who, ": unexpected empty frame"));
    }
    let tag: u8 = frame[0];
    if tag == SYNC_FILE {
        Ok(proto::PullStep::File)
    } else if tag == SYNC_DONE {
        Ok(proto::PullStep::Done)
    } else {
        Err(say_hex(text::joined(who, ": unexpected frame 0x").as_str(), tag))
    }
}

/// The frame that asks for the deletion of a file.
pub open spec fn delete_bytes(path: Seq<char>) -> Seq<u8> {
    let p = utf8::encode_utf8(path);
    seq![SYNC_DELETE] + len32(p.len()) + p
}

/// The frame that asks for the deletion of a file.
pub fn delete_frame(path: &str) -> (out: Vec<u8>)
    ensures
        out@ == delete_bytes(path@),
{
    let p: &[u8] = path.as_bytes();
    let mut out: Vec<u8> = Vec::new();
    out.push(SYNC_DELETE);
    put_len(&mut out, p.len());
    bytes::append(&mut out, p);
    assert(out@ =~= delete_bytes(path@));
    out
}

/// What a receiver does with a frame in the deletion phase.
#[derive(Debug)]
pub enum DeleteStep {
    /// Removes a file.
    Remove(String),
    /// Goes on.
    Skip,
    /// Ends the phase.
    Done,
}

/// What a receiver does with a frame in the deletion phase. Frames that are cut short, and paths
/// that lead out of the directory, are passed over.
pub fn delete_step(frame: &[u8]) -> (out: Result<DeleteStep, String>)
    ensures
        if frame@.len() == 0 {
            &&& out matches Err(e)
            &&& e@ == "sync-recv: unexpected empty frame in delete phase"@
        } else if frame@[0] == SYNC_DONE {
            out matches Ok(DeleteStep::Done)
        } else if frame@[0] != SYNC_DELETE || frame@.len() < 5 || frame@.len() < 5 + path_len(
            frame@,
        ) {
            out matches Ok(DeleteStep::Skip)
        } else if !utf8::valid_utf8(path_bytes(frame@)) {
            &&& out matches Err(e)
            &&& e@ == text::utf8_fault(path_bytes(frame@))
        } else if proto::dangerous(utf8::decode_utf8(path_bytes(frame@))) {
            out matches Ok(DeleteStep::Skip)
        } else {
            &&& out matches Ok(DeleteStep::Remove(p))
            &&& p@ == utf8::decode_utf8(path_bytes(frame@))
        },
{
    let len: usize = frame.len();
    if len == 0 {
        return Err(text::owned("sync-recv: unexpected empty frame in delete phase"));
    }
    if frame[0] == SYNC_DONE {
        return Ok(DeleteStep::Done);
    }
    if frame[0] != SYNC_DELETE || len < 5 {
        return Ok(DeleteStep::Skip);
    }
    let n: u64 = bytes::get_be32(frame, 1) as u64;
    if n > (len - 5) as u64 {
        return Ok(DeleteStep::Skip);
    }
    let n: usize = n as usize;
    match text::from_utf8(slice_subrange(frame, 5, 5 + n)) {
        Err(e) => Err(e),
        Ok(path) => {
            if proto::is_dangerous(path.as_str()) {
                Ok(DeleteStep::Skip)
            } else {
                Ok(DeleteStep::Remove(path))
            }
        },
    }
}

/// The text that names the cache of a directory on a host.
pub open spec fn cache_key_text(host: Seq<char>, dir: Seq<char>) -> Seq<char> {
    text::hex(
        digest::sha256_digest(
            utf8::encode_utf8(host) + utf8::encode_utf8(":"@) + utf8::encode_utf8(dir),
        ).take(8),
    )
}

/// The text that names the cache of a directory on a host.
pub fn manifest_cache_key(host: &str, remote_dir: &str) -> (out: String)
    ensures
        out@ == cache_key_text(host@, remote_dir@),
{
    let mut data: Vec<u8> = Vec::new();
    bytes::append(&mut data, host.as_bytes());
    bytes::append(&mut data, ":".as_bytes());
    bytes::append(&mut data, remote_dir.as_bytes());
    assert(data@ =~= utf8::encode_utf8(host@) + utf8::encode_utf8(":"@) + utf8::encode_utf8(
        remote_dir@,
    ));
    let d: [u8; 32] = digest::sha256(&data);
    let head: Vec<u8> = bytes::piece(&d, 0, 8);
    assert(head@ =~= d@.take(8));
    text::to_hex(&head)
}

/// Whether a character is a letter or a digit, in any script.
pub uninterp spec fn alphanumeric(c: char) -> bool;

/// `char::is_alphanumeric`. The answer depends on the character alone.
#[verifier::external_body]
pub(crate) fn is_alphanumeric(c: char) -> (r: bool)
    ensures
        r == alphanumeric(c),
{
    c.is_alphanumeric()
}

/// A host name that can be the name of a directory: letters, digits, hyphens and dots are kept,
/// and anything else becomes an underscore.
pub open spec fn safe_name(host: Seq<char>) -> Seq<char> {
    Seq::new(
        host.len(),
        |i: int|
            if alphanumeric(host[i]) || host[i] == '-' || host[i] == '.' {
                host[i]
            } else {
                '_'
            },
    )
}

/// A host name that can be the name of a directory.
pub fn safe_host(host: &str) -> (out: String)
    ensures
        out@ == safe_name(host@),
{
    let chars: Vec<char> = text::chars_of(host);
    let n: usize = chars.len();
    let mut out: String = String::new();
    for i in 0..n
        invariant
            n == chars@.len(),
            chars@ == host@,
            out@ =~= safe_name(host@).take(i as int),
    {
        let c: char = chars[i];
        if is_alphanumeric(c) || c == '-' || c == '.' {
            out.push(c);
        } else {
            out.push('_');
        }
    }
    assert(safe_name(host@).take(n as int) =~= safe_name(host@));
    out
}

/// A file in a cached manifest, with its digest in hex.
#[derive(Debug)]
pub struct CachedEntry {
    pub path: String,
    pub size: u64,
    pub hash_hex: String,
    pub mtime_sec: u64,
}

/// The file that a cached entry stands for, where its digest can be read.
pub open spec fn cached_entry(e: CachedEntry) -> Option<EntryModel> {
    if text::is_hex(e.hash_hex@) && e.hash_hex@.len() == 64 {
        Some(EntryModel { path: e.path@, size: e.size, hash: text::unhex(e.hash_hex@) })
    } else {
        None
    }
}

/// The files of a cached manifest; entries whose digest cannot be read are left out.
pub open spec fn cached_files(list: Seq<CachedEntry>) -> Seq<EntryModel>
    decreases list.len(),
{
    if list.len() == 0 {
        Seq::empty()
    } else {
        match cached_entry(list.last()) {
            Some(e) => cached_files(list.drop_last()).push(e),
            None => cached_files(list.drop_last()),
        }
    }
}

/// The files of a cached manifest.
pub fn cached_to_manifest(list: &Vec<CachedEntry>) -> (out: Vec<ManifestEntry>)
    ensures
        entries(out@) == cached_files(list@),
{
    let n: usize = list.len();
    let mut out: Vec<ManifestEntry> = Vec::new();
    assert(list@.take(0) =~= Seq::empty());
    assert(entries(out@) =~= Seq::empty());
    for i in 0..n
        invariant
            n == list@.len(),
            entries(out@) == cached_files(list@.take(i as int)),
    {
        proof {
            assert(list@.take(i + 1).drop_last() =~= list@.take(i as int));
            assert(list@.take(i + 1).last() == list@[i as int]);
        }
        match text::from_hex(list[i].hash_hex.as_str()) {
            Some(h) => {
                if h.len() == 32 {
                    let hash: [u8; 32] = bytes::array::<32>(&h, 0);
                    assert(hash@ =~= h@);
                    let e = ManifestEntry {
                        path: text::owned(list[i].path.as_str()),
                        size: list[i].size,
                        hash,
                    };
                    let ghost m = e@;
                    let ghost before = out@;
                    out.push(e);
                    assert(entries(out@) =~= entries(before).push(m));
                }
            },
            None => {},
        }
    }
    assert(list@.take(n as int) =~= list@);
    out
}

/// The entries of a cache for the files of a manifest.
pub fn to_cached(list: &Vec<ManifestEntry>) -> (out: Vec<CachedEntry>)
    ensures
        out@.len() == list@.len(),
        forall|i: int|
            0 <= i < out@.len() ==> (#[trigger] out@[i]).path@ == list@[i].path@ && out@[i].size
                == list@[i].size && out@[i].hash_hex@ == text::hex(list@[i].hash@)
                && out@[i].mtime_sec == 0,
{
    let n: usize = list.len();
    let mut out: Vec<CachedEntry> = Vec::new();
    for i in 0..n
        invariant
            n == list@.len(),
            out@.len() == i,
            forall|j: int|
                0 <= j < i ==> (#[trigger] out@[j]).path@ == list@[j].path@ && out@[j].size
                    == list@[j].size && out@[j].hash_hex@ == text::hex(list@[j].hash@)
                    && out@[j].mtime_sec == 0,
    {
        out.push(
            CachedEntry {
                path: text::owned(list[i].path.as_str()),
                size: list[i].size,
                hash_hex: text::to_hex(&list[i].hash),
                mtime_sec: 0,
            },
        );
    }
    out
}

/// A cached entry gives back the file that it was made of.
pub proof fn law_cache_round_trip(file: EntryModel, cached: CachedEntry)
    requires
        file.hash.len() == 32,
        cached.path@ == file.path,
        cached.size == file.size,
        cached.hash_hex@ == text::hex(file.hash),
    ensures
        cached_entry(cached) == Some(file),
{
    text::law_hex_round_trip(file.hash);
}

/// A time in words: seconds, minutes, hours or days.
pub open spec fn duration_text(secs: u64) -> Seq<char> {
    if secs < 60 {
        text::decimal(secs as nat) + "s"@
    } else if secs < 3600 {
        text::decimal((secs / 60) as nat) + "m"@
    } else if secs < 86400 {
        text::decimal((secs / 3600) as nat) + "h"@
    } else {
        text::decimal((secs / 86400) as nat) + "d"@
    }
}

/// A time in words.
pub fn format_duration(secs: u64) -> (out: String)
    ensures
        out@ == duration_text(secs),
{
    if secs < 60 {
        text::joined(text::decimal_text(secs).as_str(), "s")
    } else if secs < 3600 {
        text::joined(text::decimal_text(secs / 60).as_str(), "m")
    } else if secs < 86400 {
        text::joined(text::decimal_text(secs / 3600).as_str(), "h")
    } else {
        text::joined(text::decimal_text(secs / 86400).as_str(), "d")
    }
}

/// The command that serves a synchronisation on the remote host.
pub fn recv_command(dir: &str, push: bool, delete: bool) -> (out: String)
    ensures
        out@ == "_sync-recv "@ + connect::quoted(dir@) + " --port 0 --direction "@ + (if push {
            "push"@
        } else {
            "pull"@
        }) + (if delete {
            " --delete"@
        } else {
            ""@
        }),
{
    text::glue5(
        "_sync-recv ",
        connect::shell_quote(dir).as_str(),
        " --port 0 --direction ",
        if push {
            "push"
        } else {
            "pull"
        },
        if delete {
            " --delete"
        } else {
            ""
        },
    )
}

/// Which way files go, given which of the two ends are remote.
pub fn direction(src_remote: bool, dst_remote: bool) -> (out: Result<copy::Direction, String>)
    ensures
        match out {
            Ok(copy::Direction::Pull) => src_remote && !dst_remote,
            Ok(copy::Direction::Push) => !src_remote && dst_remote,
            Err(e) => src_remote == dst_remote && e@ == if src_remote {
                "both source and destination cannot be remote"@
            } else {
                "at least one of source or destination must be remote (user@host:/path)"@
            },
        },
{
    if src_remote && dst_remote {
        Err(text::owned("both source and destination cannot be remote"))
    } else if src_remote {
        Ok(copy::Direction::Pull)
    } else if dst_remote {
        Ok(copy::Direction::Push)
    } else {
        Err(text::owned("at least one of source or destination must be remote (user@host:/path)"))
    }
}

/// A file is sent exactly if the other side does not have it with this content: files that are
/// there stay where they are, and all others are sent.
pub proof fn law_files_sent_exactly(here: Seq<EntryModel>, there: Seq<EntryModel>, i: int)
    requires
        0 <= i < here.len(),
    ensures
        needed_places(here, there, here.len() as int).contains(i) <==> !(contents(
            there,
        ).contains_key(here[i].path) && contents(there)[here[i].path] == here[i].hash),
{
    lemma_needed_places(here, there, here.len() as int, i);
    lemma_contents(there, here[i].path);
}

/// A file is deleted exactly if the other side does not have its path at all.
pub proof fn law_files_deleted_exactly(
    here: Seq<EntryModel>,
    there: Seq<EntryModel>,
    path: Seq<char>,
)
    ensures
        names(here, stray_places(here, there, here.len() as int), path) <==> contents(
            here,
        ).contains_key(path) && !contents(there).contains_key(path),
{
    lemma_stray_places(here, there, here.len() as int, path);
    lemma_contents(there, path);
    lemma_contents(here, path);
    assert(here.take(here.len() as int) =~= here);
}

/// A manifest names a path exactly if one of its files has it, and gives it the content of the
/// last such file.
pub proof fn law_contents_of_manifest(list: Seq<EntryModel>, path: Seq<char>)
    ensures
        contents(list).contains_key(path) <==> exists|i: int|
            0 <= i < list.len() && (#[trigger] list[i]).path == path,
        list.len() > 0 ==> contents(list).contains_key(list.last().path) && contents(
            list,
        )[list.last().path] == list.last().hash,
    decreases list.len(),
{
    if list.len() > 0 {
        let front = list.drop_last();
        law_contents_of_manifest(front, path);
        if contents(front).contains_key(path) {
            let i = choose|i: int| 0 <= i < front.len() && (#[trigger] front[i]).path == path;
            assert(list[i].path == path);
        }
        if list.last().path == path {
            assert(list[list.len() - 1].path == path);
        }
        if exists|i: int| 0 <= i < list.len() && (#[trigger] list[i]).path == path {
            let i = choose|i: int| 0 <= i < list.len() && (#[trigger] list[i]).path == path;
            if i < front.len() {
                assert(front[i].path == path);
            }
        }
    }
}

/// A request to delete a file is read as the path that was written, and a dangerous path is not
/// among the paths that are deleted.
pub proof fn law_delete_round_trip(path: Seq<char>)
    requires
        utf8::encode_utf8(path).len() < 0x1_0000_0000,
    ensures
        ({
            let f = delete_bytes(path);
            &&& f.len() >= 5 + path_len(f)
            &&& f[0] == SYNC_DELETE
            &&& SYNC_DELETE != SYNC_DONE
            &&& utf8::valid_utf8(path_bytes(f))
            &&& utf8::decode_utf8(path_bytes(f)) == path
        }),
{
    let p = utf8::encode_utf8(path);
    let f = delete_bytes(path);
    bytes::law_be32_read_write(p.len() as u32);
    assert(f.subrange(1, 5) =~= bytes::be32(p.len() as u32));
    assert(path_bytes(f) =~= p);
    utf8::encode_utf8_valid_utf8(path);
    utf8::encode_utf8_decode_utf8(path);
}

/// The sizes of all the files that are sent are added up.
pub proof fn law_sizes_add_up(list: Seq<EntryModel>, a: Seq<usize>, b: Seq<usize>)
    ensures
        size_sum(list, a + b) == size_sum(list, a) + size_sum(list, b),
        forall|i: usize| size_sum(list, #[trigger] seq![i]) == list[i as int].size,
    decreases b.len(),
{
    assert forall|i: usize| size_sum(list, #[trigger] seq![i]) == list[i as int].size by {
        assert(seq![i].drop_last() =~= Seq::empty());
        assert(size_sum(list, seq![i].drop_last()) == 0);
    }
    if b.len() == 0 {
        assert(a + b =~= a);
    } else {
        law_sizes_add_up(list, a, b.drop_last());
        assert((a + b).drop_last() =~= a + b.drop_last());
    }
}

/// A time is shown in the greatest unit of which it holds at least one, and rounded down.
pub proof fn law_durations(secs: u64)
    ensures
        secs < 60 ==> duration_text(secs) == text::decimal(secs as nat) + "s"@,
        60 <= secs < 3600 ==> duration_text(secs) == text::decimal((secs / 60) as nat) + "m"@,
        3600 <= secs < 86400 ==> duration_text(secs) == text::decimal((secs / 3600) as nat) + "h"@,
        86400 <= secs ==> duration_text(secs) == text::decimal((secs / 86400) as nat) + "d"@,
{
}

/// The name of a cache directory has as many characters as the host, and none that is neither a
/// letter, a digit, a hyphen, a dot nor an underscore.
pub proof fn law_safe_names(host: Seq<char>)
    ensures
        safe_name(host).len() == host.len(),
        forall|i: int|
            0 <= i < host.len() ==> (alphanumeric(#[trigger] safe_name(host)[i]) || safe_name(
                host,
            )[i] == '-' || safe_name(host)[i] == '.' || safe_name(host)[i] == '_'),
        forall|i: int|
            0 <= i < host.len() && (alphanumeric(host[i]) || host[i] == '-' || host[i] == '.')
                ==> #[trigger] safe_name(host)[i] == host[i],
{
}

/// The name of a cache is the first sixteen hex digits of the digest of the host, a colon and the
/// directory.
pub proof fn law_cache_key(host: Seq<char>, dir: Seq<char>)
    requires
        digest::sha256_digest(
            utf8::encode_utf8(host) + utf8::encode_utf8(":"@) + utf8::encode_utf8(dir),
        ).len() == 32,
    ensures
        cache_key_text(host, dir).len() == 16,
        cache_key_text(host, dir) == text::hex(
            digest::sha256_digest(
                utf8::encode_utf8(host) + utf8::encode_utf8(":"@) + utf8::encode_utf8(dir),
            ),
        ).take(16),
{
    let d = digest::sha256_digest(
        utf8::encode_utf8(host) + utf8::encode_utf8(":"@) + utf8::encode_utf8(dir),
    );
    assert(text::hex(d.take(8)) =~= text::hex(d).take(16));
}

/// Files of a cache whose digests are no digests are left out, and all others are kept in order.
pub proof fn law_cache_keeps_sound_files(list: Seq<CachedEntry>)
    ensures
        cached_files(list).len() <= list.len(),
        (forall|i: int|
            0 <= i < list.len() ==> text::is_hex((#[trigger] list[i]).hash_hex@)
                && list[i].hash_hex@.len() == 64) ==> cached_files(list).len() == list.len()
            && forall|i: int|
            0 <= i < list.len() ==> (#[trigger] cached_files(list)[i]).path == list[i].path@
                && cached_files(list)[i].size == list[i].size && cached_files(list)[i].hash
                == text::unhex(list[i].hash_hex@),
    decreases list.len(),
{
    if list.len() > 0 {
        let front = list.drop_last();
        law_cache_keeps_sound_files(front);
        if forall|i: int|
            0 <= i < list.len() ==> text::is_hex((#[trigger] list[i]).hash_hex@)
                && list[i].hash_hex@.len() == 64 {
            assert forall|i: int| 0 <= i < front.len() implies text::is_hex(
                (#[trigger] front[i]).hash_hex@,
            ) && front[i].hash_hex@.len() == 64 by {
                assert(front[i] == list[i]);
            }
            assert(list.last() == list[list.len() - 1]);
            let all = cached_files(list);
            assert forall|i: int| 0 <= i < list.len() implies (#[trigger] all[i]).path
                == list[i].path@ && all[i].size == list[i].size && all[i].hash == text::unhex(
                list[i].hash_hex@,
            ) by {
                if i < front.len() {
                    assert(all[i] == cached_files(front)[i]);
                    assert(front[i] == list[i]);
                }
            }
        }
    }
}

} // verus!
