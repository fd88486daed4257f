use vstd::prelude::*;
use std::path::PathBuf;
use crate::hashing::{blake3_digest, blake3_hex, hex_text, to_hex};
use crate::text::push_char;
use super::manifest::{RelativePath, TransferEntry, TransferError, TransferManifest};
use super::destination::{
    destination_components, is_ascii_letter, is_normal_piece, is_plain_name, is_separator, lemma_split_append_plain,
    lemma_split_push_separator, split_pieces, windows_paths,
};
use super::chunks::lemma_filter_keeps_all;
use crate::platform::firewall::TargetPlatform;

verus! {

/// The largest transfer header accepted: 16 MiB.
pub const MAX_HEADER_BYTES: u32 = 16777216;

/// `serde_json::Error`, carried inside errors without being inspected.
#[verifier::external_type_specification]
#[verifier::external_body]
pub struct ExJsonError(serde_json::Error);

/// `blake3::Hasher`, the incremental BLAKE3 state.
#[verifier::external_type_specification]
#[verifier::external_body]
pub struct ExHasher(blake3::Hasher);

/// The bytes fed so far to a `blake3::Hasher`.
pub uninterp spec fn hasher_input(h: blake3::Hasher) -> Seq<u8>;

/// Calls `blake3::Hasher::new()`; claims that no input has been fed yet.
#[verifier::external_body]
fn hasher_new() -> (h: blake3::Hasher)
    ensures
        hasher_input(h) == Seq::<u8>::empty(),
{
    blake3::Hasher::new()
}

/// Calls `blake3::Hasher::update`; claims that `data` is appended to the input.
#[verifier::external_body]
fn hasher_update(h: &mut blake3::Hasher, data: &[u8])
    ensures
        hasher_input(*final(h)) == hasher_input(*old(h)) + data@,
{
    h.update(data);
}

/// Calls `blake3::Hasher::finalize`; claims the result is the BLAKE3 digest of all
/// the input fed so far, the same digest `blake3::hash` gives for those bytes.
#[verifier::external_body]
fn hasher_finalize(h: &blake3::Hasher) -> (digest: [u8; 32])
    ensures
        digest@ == blake3_digest(hasher_input(*h)),
{
    *h.finalize().as_bytes()
}

/// The header sent before the file bytes.
#[derive(Debug)]
pub struct TransferHeader {
    pub transfer_id: String,
    pub entries: Vec<TransferHeaderEntry>,
    pub total_bytes: u64,
}

#[derive(Debug)]
pub struct TransferHeaderEntry {
    pub relative_path: String,
    pub size: u64,
    pub blake3: String,
}

#[derive(Debug, Clone, PartialEq, Eq)]
pub struct ReceiveSummary {
    pub files_written: usize,
    pub total_bytes: u64,
}

#[derive(Debug)]
pub enum TcpTransferError {
    Connect(std::io::Error),
    Accept(std::io::Error),
    Read(std::io::Error),
    Write(std::io::Error),
    ReadFile { path: PathBuf, source: std::io::Error },
    CreateDestinationDir(std::io::Error),
    CreateFile { path: PathBuf, source: std::io::Error },
    HeaderTooLarge(usize),
    Json(serde_json::Error),
    Transfer(TransferError),
    DigestMismatch { path: String, expected: String, actual: String },
}

/// A relative path written with "/" between its components.
pub open spec fn joined_path(components: Seq<Seq<char>>) -> Seq<char>
    decreases components.len(),
{
    if components.len() == 0 {
        Seq::empty()
    } else if components.len() == 1 {
        components[0]
    } else {
        joined_path(components.drop_last()) + seq!['/'] + components.last()
    }
}

proof fn lemma_joined_starts_with_first(c: Seq<Seq<char>>)
    requires
        c.len() >= 1,
    ensures
        joined_path(c).len() >= c[0].len(),
        forall|k: int| 0 <= k < c[0].len() ==> #[trigger] joined_path(c)[k] == c[0][k],
        c.len() == 1 ==> joined_path(c) == c[0],
        c.len() > 1 ==> joined_path(c).len() > c[0].len() && joined_path(c)[c[0].len() as int] == '/',
    decreases c.len(),
{
    if c.len() > 1 {
        lemma_joined_starts_with_first(c.drop_last());
        assert(c.drop_last()[0] == c[0]);
    }
}

proof fn lemma_split_joined(c: Seq<Seq<char>>, windows: bool)
    requires
        c.len() >= 1,
        forall|i: int| 0 <= i < c.len() ==> is_plain_name(#[trigger] c[i], windows),
    ensures
        split_pieces(joined_path(c), windows) == c,
    decreases c.len(),
{
    let last = c.last();
    assert(is_plain_name(c[c.len() - 1], windows));
    assert forall|j: int| 0 <= j < last.len() implies !is_separator(#[trigger] last[j], windows) by {
        assert(is_plain_name(c[c.len() - 1], windows));
    }
    if c.len() == 1 {
        lemma_split_append_plain(Seq::empty(), last, windows);
        assert(Seq::<char>::empty() + last =~= last);
        assert(split_pieces(Seq::<char>::empty(), windows) == seq![Seq::<char>::empty()]);
        assert(seq![Seq::<char>::empty()].update(0, Seq::<char>::empty() + last) =~= c);
    } else {
        let front = c.drop_last();
        assert forall|i: int| 0 <= i < front.len() implies is_plain_name(#[trigger] front[i], windows) by {
            assert(front[i] == c[i]);
        }
        lemma_split_joined(front, windows);
        let j = joined_path(front);
        lemma_split_push_separator(j, '/', windows);
        assert(j + seq!['/'] =~= j.push('/'));
        lemma_split_append_plain(j.push('/'), last, windows);
        assert(Seq::<char>::empty() + last =~= last);
        assert(front.push(Seq::<char>::empty()).update(front.len() as int, Seq::<char>::empty() + last) =~= c);
    }
}

/// What a sender writes is what a receiver reads: the header text of a relative
/// path (`relative_path_text`) is read back as the same components on every
/// platform, provided they are plain names under its path syntax and, with Windows
/// syntax, the first does not start with a drive prefix.
pub proof fn lemma_header_path_reads_back(c: Seq<Seq<char>>, platform: TargetPlatform)
    requires
        c.len() >= 1,
        forall|i: int| 0 <= i < c.len() ==> is_plain_name(#[trigger] c[i], windows_paths(platform)),
        !(windows_paths(platform) && c[0].len() >= 2 && is_ascii_letter(c[0][0]) && c[0][1] == ':'),
    ensures
        destination_components(joined_path(c), platform) == Some(c),
{
    let w = windows_paths(platform);
    let name = joined_path(c);
    lemma_split_joined(c, w);
    lemma_joined_starts_with_first(c);
    assert(is_plain_name(c[0], w));
    assert(name[0] == c[0][0]);
    if c[0].len() >= 2 {
        assert(name[1] == c[0][1]);
    } else if c.len() > 1 {
        assert(name[1] == '/');
    }
    let pred = |p: Seq<char>| is_normal_piece(p);
    assert forall|i: int| 0 <= i < c.len() implies pred(#[trigger] c[i]) by {
        assert(is_plain_name(c[i], w));
    }
    lemma_filter_keeps_all(c, pred);
    assert(!(exists|i: int| 0 <= i < c.len() && super::destination::is_parent_dir(#[trigger] c[i])));
}

/// The text of a relative path, its components joined by "/". This is the form in
/// which an entry's path travels in the header, whatever the sender's platform:
/// "/" separates components under the path syntax of every platform
/// (`destination_components`), so receivers on Unix and on Windows read the same
/// components back.
pub fn relative_path_text(p: &RelativePath) -> (s: String)
    ensures
        s@ == joined_path(p@),
{
    let mut s = String::new();
    let mut i: usize = 0;
    while i < p.components.len()
        invariant
            i <= p@.len(),
            p@.len() == p.components@.len(),
            s@ == joined_path(p@.take(i as int)),
        decreases p@.len() - i,
    {
        if i > 0 {
            push_char(&mut s, '/');
        }
        s.append(p.components[i].as_str());
        proof {
            assert(p@.take(i as int + 1).drop_last() =~= p@.take(i as int));
            if i == 0 {
                assert(p@.take(1)[0] == p@[0]);
            }
        }
        i = i + 1;
    }
    assert(p@.take(p@.len() as int) =~= p@);
    s
}

/// The header entry of a file whose bytes are `contents`: its relative path, its
/// size as listed, and the lowercase hex BLAKE3 digest of the bytes.
pub fn header_entry(entry: &TransferEntry, contents: &[u8]) -> (h: TransferHeaderEntry)
    ensures
        h.relative_path@ == joined_path(entry.relative_path@),
        h.size == entry.size,
        h.blake3@ == hex_text(blake3_digest(contents@)),
{
    TransferHeaderEntry {
        relative_path: relative_path_text(&entry.relative_path),
        size: entry.size,
        blake3: blake3_hex(contents),
    }
}

/// The header of a manifest, from the header entries of its files.
pub fn header_from_manifest(manifest: &TransferManifest, entries: Vec<TransferHeaderEntry>) -> (h: TransferHeader)
    ensures
        h.transfer_id == manifest.transfer_id,
        h.entries == entries,
        h.total_bytes == manifest.total_bytes,
{
    TransferHeader { transfer_id: manifest.transfer_id.clone(), entries, total_bytes: manifest.total_bytes }
}

/// The length prefix of an encoded header, refused above [`MAX_HEADER_BYTES`].
pub fn outgoing_header_length(len: usize) -> (r: Result<u32, TcpTransferError>)
    ensures
        len > MAX_HEADER_BYTES ==> (r matches Err(TcpTransferError::HeaderTooLarge(n)) && n == len),
        len <= MAX_HEADER_BYTES ==> (r matches Ok(n) && n == len),
{
    if len > MAX_HEADER_BYTES as usize {
        Err(TcpTransferError::HeaderTooLarge(len))
    } else {
        Ok(len as u32)
    }
}

/// The length of an incoming header, refused above [`MAX_HEADER_BYTES`].
pub fn incoming_header_length(len: u32) -> (r: Result<usize, TcpTransferError>)
    ensures
        len > MAX_HEADER_BYTES ==> (r matches Err(TcpTransferError::HeaderTooLarge(n)) && n == len),
        len <= MAX_HEADER_BYTES ==> (r matches Ok(n) && n == len),
{
    if len > MAX_HEADER_BYTES {
        Err(TcpTransferError::HeaderTooLarge(len as usize))
    } else {
        Ok(len as usize)
    }
}

/// The receiving side of one transfer: counts files and bytes, and accepts a
/// file only when its bytes hash to the digest its header entry announced.
/// The files accepted so far: how many, and (as a proof-only value) their contents.
struct AcceptedFiles {
    count: usize,
    contents: Ghost<Seq<Seq<u8>>>,
}

pub struct ReceiveSession {
    accepted: AcceptedFiles,
    total_bytes: u64,
    remaining: u64,
    hasher: blake3::Hasher,
}

impl ReceiveSession {
    #[verifier::type_invariant]
    spec fn well_formed(self) -> bool {
        self.accepted.count == self.accepted.contents@.len()
    }

    /// The contents of the files accepted so far, in order.
    pub closed spec fn spec_verified(&self) -> Seq<Seq<u8>> {
        self.accepted.contents@
    }

    /// Bytes received so far, over all files.
    pub closed spec fn spec_total_bytes(&self) -> nat {
        self.total_bytes as nat
    }

    /// Bytes still expected for the current file.
    pub closed spec fn spec_remaining(&self) -> nat {
        self.remaining as nat
    }

    /// The bytes received so far for the current file.
    pub closed spec fn spec_received(&self) -> Seq<u8> {
        hasher_input(self.hasher)
    }

    pub fn new() -> (s: Self)
        ensures
            s.spec_verified() == Seq::<Seq<u8>>::empty(),
            s.spec_total_bytes() == 0,
            s.spec_remaining() == 0,
            s.spec_received() == Seq::<u8>::empty(),
    {
        ReceiveSession {
            accepted: AcceptedFiles { count: 0, contents: Ghost(Seq::empty()) },
            total_bytes: 0,
            remaining: 0,
            hasher: hasher_new(),
        }
    }

    /// Starts a file of `size` bytes.
    pub fn begin_entry(&mut self, size: u64)
        ensures
            final(self).spec_verified() == old(self).spec_verified(),
            final(self).spec_total_bytes() == old(self).spec_total_bytes(),
            final(self).spec_remaining() == size,
            final(self).spec_received() == Seq::<u8>::empty(),
    {
        proof {
            use_type_invariant(&*self);
        }
        self.remaining = size;
        self.hasher = hasher_new();
    }

    pub fn remaining(&self) -> (r: u64)
        ensures
            r == self.spec_remaining(),
    {
        self.remaining
    }

    /// How many bytes to read next with a buffer of `buffer_len` bytes: the buffer
    /// size, or what is left of the file when that is less.
    pub fn next_read_len(&self, buffer_len: usize) -> (n: usize)
        ensures
            n as int == (if self.spec_remaining() < buffer_len { self.spec_remaining() as int } else { buffer_len as int }),
    {
        if self.remaining < buffer_len as u64 {
            self.remaining as usize
        } else {
            buffer_len
        }
    }

    /// Records bytes read for the current file.
    pub fn record_bytes(&mut self, data: &[u8])
        requires
            data@.len() <= old(self).spec_remaining(),
            old(self).spec_total_bytes() + data@.len() <= u64::MAX,
        ensures
            final(self).spec_verified() == old(self).spec_verified(),
            final(self).spec_total_bytes() == old(self).spec_total_bytes() + data@.len(),
            final(self).spec_remaining() == old(self).spec_remaining() - data@.len(),
            final(self).spec_received() == old(self).spec_received() + data@,
    {
        proof {
            use_type_invariant(&*self);
        }
        let mut hasher = hasher_new();
        std::mem::swap(&mut hasher, &mut self.hasher);
        hasher_update(&mut hasher, data);
        self.hasher = hasher;
        self.remaining = self.remaining - data.len() as u64;
        self.total_bytes = self.total_bytes + data.len() as u64;
    }

    /// Whether `n` more bytes can still be counted.
    pub fn can_count(&self, n: usize) -> (b: bool)
        ensures
            b == (self.spec_total_bytes() + n <= u64::MAX),
    {
        n as u64 <= u64::MAX - self.total_bytes
    }

    /// Ends the current file: it is accepted, and counted as written, only when the
    /// lowercase hex BLAKE3 digest of the bytes received for it is the digest its
    /// entry announced.
    pub fn finish_entry(&mut self, entry: &TransferHeaderEntry) -> (r: Result<(), TcpTransferError>)
        requires
            old(self).spec_verified().len() < usize::MAX,
        ensures
            final(self).spec_total_bytes() == old(self).spec_total_bytes(),
            final(self).spec_remaining() == old(self).spec_remaining(),
            final(self).spec_received() == old(self).spec_received(),
            r is Ok <==> hex_text(blake3_digest(old(self).spec_received())) == entry.blake3@,
            r is Ok ==> final(self).spec_verified() == old(self).spec_verified().push(old(self).spec_received()),
            r is Err ==> final(self).spec_verified() == old(self).spec_verified(),
            r is Err ==> (r matches Err(TcpTransferError::DigestMismatch { path, expected, actual })
                && path@ == entry.relative_path@ && expected@ == entry.blake3@
                && actual@ == hex_text(blake3_digest(old(self).spec_received()))),
    {
        proof {
            use_type_invariant(&*self);
        }
        let digest = hasher_finalize(&self.hasher);
        let actual = to_hex(&digest);
        if actual != entry.blake3 {
            return Err(TcpTransferError::DigestMismatch {
                path: entry.relative_path.clone(),
                expected: entry.blake3.clone(),
                actual,
            });
        }
        let ghost received = hasher_input(self.hasher);
        self.accepted = AcceptedFiles {
            count: self.accepted.count + 1,
            contents: Ghost(self.accepted.contents@.push(received)),
        };
        Ok(())
    }

    /// Files written and bytes received so far: the number of files accepted,
    /// each of which matched its announced digest.
    pub fn summary(&self) -> (s: ReceiveSummary)
        ensures
            s.files_written == self.spec_verified().len(),
            s.total_bytes == self.spec_total_bytes(),
    {
        proof {
            use_type_invariant(self);
        }
        ReceiveSummary { files_written: self.accepted.count, total_bytes: self.total_bytes }
    }
}

} // verus!
