use vstd::prelude::*;
use std::path::PathBuf;
use crate::hashing::{blake3_digest, blake3_hex, hex_text};
use crate::text::{chars_of, is_blank, is_blank_chars};
use crate::ids::{is_v4_uuid_text, random_uuid_text};

verus! {

pub const STORE_SCHEMA_VERSION: u32 = 1;

/// The display name used when the host name is missing or blank.
pub const FALLBACK_DISPLAY_NAME: &'static str = "Airsend Device";

/// A peer whose fingerprint the user confirmed.
#[derive(Debug, Clone, PartialEq, Eq)]
pub struct TrustedPeer {
    pub device_id: String,
    pub display_name: String,
    pub fingerprint: String,
    pub trusted_at: String,
}

#[derive(Debug, Clone, PartialEq, Eq)]
pub struct StoreSettings {
    pub save_directory: Option<String>,
    pub auto_accept: bool,
    pub parallel_workers: u8,
}

impl Default for StoreSettings {
    /// No save directory, no auto-accept, four parallel workers.
    fn default() -> (s: Self)
        ensures
            s.save_directory is None,
            !s.auto_accept,
            s.parallel_workers == 4,
    {
        StoreSettings { save_directory: None, auto_accept: false, parallel_workers: 4 }
    }
}

#[derive(Debug, Clone, Copy, PartialEq, Eq, Structural)]
pub enum TransferDirection {
    Incoming,
    Outgoing,
}

#[derive(Debug, Clone, Copy, PartialEq, Eq, Structural)]
pub enum TransferStatus {
    Queued,
    WaitingForApproval,
    Transferring,
    Completed,
    Failed,
    Cancelled,
}

#[derive(Debug, PartialEq, Eq)]
pub struct TransferHistoryRecord {
    pub transfer_id: String,
    pub peer_id: String,
    pub peer_name: String,
    pub direction: TransferDirection,
    pub file_count: usize,
    pub total_bytes: u64,
    pub status: TransferStatus,
    pub created_at: String,
    pub completed_at: Option<String>,
}

impl Clone for TransferHistoryRecord {
    fn clone(&self) -> (r: Self)
        ensures
            r == *self,
    {
        TransferHistoryRecord {
            transfer_id: self.transfer_id.clone(),
            peer_id: self.peer_id.clone(),
            peer_name: self.peer_name.clone(),
            direction: self.direction,
            file_count: self.file_count,
            total_bytes: self.total_bytes,
            status: self.status,
            created_at: self.created_at.clone(),
            completed_at: crate::text::clone_opt_string(&self.completed_at),
        }
    }
}

/// What a receiver remembers of an interrupted transfer.
#[derive(Debug, Clone, PartialEq, Eq)]
pub struct PartialTransferManifest {
    pub transfer_id: String,
    pub root_name: String,
    pub total_bytes: u64,
    pub chunk_size: u64,
    pub verified_chunks: Vec<VerifiedChunkRecord>,
}

#[derive(Debug, Clone, Copy, PartialEq, Eq, Structural)]
pub struct VerifiedChunkRecord {
    pub file_index: usize,
    pub chunk_index: u64,
}

/// Who this device is: a random ID, a display name and the fingerprint of the ID.
#[derive(Debug, PartialEq, Eq)]
pub struct DeviceIdentity {
    pub device_id: String,
    pub display_name: String,
    pub fingerprint: String,
}

impl Clone for DeviceIdentity {
    fn clone(&self) -> (r: Self)
        ensures
            r == *self,
    {
        DeviceIdentity {
            device_id: self.device_id.clone(),
            display_name: self.display_name.clone(),
            fingerprint: self.fingerprint.clone(),
        }
    }
}

/// Everything the store file holds.
#[derive(Debug, Clone, PartialEq, Eq)]
pub struct StoreData {
    pub schema_version: u32,
    pub device: DeviceIdentity,
    pub trusted_peers: Vec<TrustedPeer>,
    pub settings: StoreSettings,
    pub transfer_history: Vec<TransferHistoryRecord>,
    pub partial_transfers: Vec<PartialTransferManifest>,
}

/// The name shown for this device: the host name unless it is missing or blank.
pub open spec fn display_name_for(host_name: Option<Seq<char>>) -> Seq<char> {
    match host_name {
        Some(h) => if is_blank(h) { FALLBACK_DISPLAY_NAME@ } else { h },
        None => FALLBACK_DISPLAY_NAME@,
    }
}

/// The fingerprint of a device ID: the lowercase hex BLAKE3 digest of its UTF-8 bytes.
pub open spec fn fingerprint_of(device_id: Seq<char>) -> Seq<char> {
    hex_text(blake3_digest(vstd::utf8::encode_utf8(device_id)))
}

/// A fresh store: the current schema, the given identity, default settings and
/// no peers, history or partial transfers.
pub open spec fn is_fresh_store(d: StoreData) -> bool {
    &&& d.schema_version == STORE_SCHEMA_VERSION
    &&& d.device.fingerprint@ == fingerprint_of(d.device.device_id@)
    &&& d.trusted_peers@.len() == 0
    &&& d.settings.save_directory is None
    &&& !d.settings.auto_accept
    &&& d.settings.parallel_workers == 4
    &&& d.transfer_history@.len() == 0
    &&& d.partial_transfers@.len() == 0
}

/// Calls `hostname::get()`; `None` when it fails or the name is not valid Unicode.
/// Nothing is claimed of the name, which comes from the operating system.
#[verifier::external_body]
fn system_host_name() -> (name: Option<String>) {
    hostname::get().ok().and_then(|name| name.into_string().ok())
}

/// A new random device ID (a hyphenated version 4 UUID).
pub fn new_device_id() -> (s: String)
    ensures
        is_v4_uuid_text(s@),
{
    random_uuid_text()
}

impl StoreData {
    /// A fresh store for the device `device_id`, named after `host_name`.
    pub fn with_identity(device_id: String, host_name: Option<String>) -> (d: Self)
        ensures
            is_fresh_store(d),
            d.device.device_id == device_id,
            d.device.display_name@ == display_name_for(match host_name {
                Some(h) => Some(h@),
                None => None,
            }),
    {
        let display_name = match host_name {
            Some(name) => {
                let chars = chars_of(name.as_str());
                if is_blank_chars(&chars) {
                    String::from_str(FALLBACK_DISPLAY_NAME)
                } else {
                    name
                }
            },
            None => String::from_str(FALLBACK_DISPLAY_NAME),
        };
        let fingerprint = blake3_hex(device_id.as_str().as_bytes());
        StoreData {
            schema_version: STORE_SCHEMA_VERSION,
            device: DeviceIdentity { device_id, display_name, fingerprint },
            trusted_peers: Vec::new(),
            settings: StoreSettings::default(),
            transfer_history: Vec::new(),
            partial_transfers: Vec::new(),
        }
    }

    /// Data read from an older file: a schema version of zero is read as the current one.
    pub fn normalized(self) -> (d: Self)
        ensures
            d == (if self.schema_version == 0 {
                StoreData { schema_version: STORE_SCHEMA_VERSION, ..self }
            } else {
                self
            }),
    {
        let mut d = self;
        if d.schema_version == 0 {
            d.schema_version = STORE_SCHEMA_VERSION;
        }
        d
    }
}

impl Default for StoreData {
    /// A fresh store for a new random device ID, named after this machine's host
    /// name when it has a non-blank one.
    fn default() -> (d: Self)
        ensures
            is_fresh_store(d),
            is_v4_uuid_text(d.device.device_id@),
            d.device.display_name@ == FALLBACK_DISPLAY_NAME@ || !is_blank(d.device.display_name@),
    {
        let device_id = new_device_id();
        let host_name = system_host_name();
        StoreData::with_identity(device_id, host_name)
    }
}

/// Whether some trusted peer has the fingerprint `fingerprint`.
pub open spec fn trusts_fingerprint(peers: Seq<TrustedPeer>, fingerprint: Seq<char>) -> bool {
    exists|i: int| 0 <= i < peers.len() && #[trigger] peers[i].fingerprint@ == fingerprint
}

impl StoreData {
    /// Whether a trusted peer has this fingerprint.
    pub fn is_trusted_fingerprint(&self, fingerprint: &String) -> (b: bool)
        ensures
            b == trusts_fingerprint(self.trusted_peers@, fingerprint@),
    {
        let mut i: usize = 0;
        while i < self.trusted_peers.len()
            invariant
                i <= self.trusted_peers@.len(),
                forall|k: int| 0 <= k < i ==> #[trigger] self.trusted_peers@[k].fingerprint@ != fingerprint@,
            decreases self.trusted_peers@.len() - i,
        {
            if self.trusted_peers[i].fingerprint == *fingerprint {
                return true;
            }
            i = i + 1;
        }
        false
    }

    /// Trusts a peer unless its fingerprint is already trusted; tells whether it was added.
    pub fn trust_peer(&mut self, device_id: String, display_name: String, fingerprint: String, trusted_at: String) -> (added: bool)
        ensures
            added == !trusts_fingerprint(old(self).trusted_peers@, fingerprint@),
            final(self).trusted_peers@ == trust_spec(old(self).trusted_peers@,
                TrustedPeer { device_id, display_name, fingerprint, trusted_at }),
            added ==> final(self).trusted_peers@ == old(self).trusted_peers@.push(
                TrustedPeer { device_id, display_name, fingerprint, trusted_at },
            ),
            !added ==> final(self).trusted_peers == old(self).trusted_peers,
            *final(self) == (StoreData { trusted_peers: final(self).trusted_peers, ..*old(self) }),
    {
        if self.is_trusted_fingerprint(&fingerprint) {
            return false;
        }
        self.trusted_peers.push(TrustedPeer { device_id, display_name, fingerprint, trusted_at });
        true
    }

    /// Puts a transfer at the head of the history, which lists the newest first.
    pub fn record_transfer(&mut self, record: TransferHistoryRecord)
        ensures
            final(self).transfer_history@ == seq![record] + old(self).transfer_history@,
            *final(self) == (StoreData { transfer_history: final(self).transfer_history, ..*old(self) }),
    {
        self.transfer_history.insert(0, record);
        assert(self.transfer_history@ =~= seq![record] + old(self).transfer_history@);
    }
}

/// The trusted peers after trusting `peer`: unchanged when its fingerprint is
/// already trusted, otherwise with `peer` appended.
pub open spec fn trust_spec(peers: Seq<TrustedPeer>, peer: TrustedPeer) -> Seq<TrustedPeer> {
    if trusts_fingerprint(peers, peer.fingerprint@) { peers } else { peers.push(peer) }
}

/// Trusting a peer makes its fingerprint trusted, and trusting a peer with the same
/// fingerprint again changes nothing.
pub proof fn lemma_trust_is_idempotent(peers: Seq<TrustedPeer>, peer: TrustedPeer, again: TrustedPeer)
    requires
        again.fingerprint@ == peer.fingerprint@,
    ensures
        trusts_fingerprint(trust_spec(peers, peer), peer.fingerprint@),
        trust_spec(trust_spec(peers, peer), again) == trust_spec(peers, peer),
{
    if !trusts_fingerprint(peers, peer.fingerprint@) {
        let r = peers.push(peer);
        assert(r[peers.len() as int].fingerprint@ == peer.fingerprint@);
    }
}

/// What was found where the store file should be.
pub enum StoreContents {
    /// No file.
    Missing,
    /// A file that parsed as store data.
    Parsed(StoreData),
    /// A file that did not parse; it has been moved aside.
    Corrupt,
}

/// The store: its data and the file it is saved to.
pub struct AirsendStore {
    path: PathBuf,
    data: StoreData,
}

impl AirsendStore {
    pub closed spec fn spec_path(&self) -> PathBuf {
        self.path
    }

    pub closed spec fn spec_data(&self) -> StoreData {
        self.data
    }

    /// Opens the store at `path` from what was found there: parsed data is kept
    /// (with its schema version normalised) and needs no saving; a missing or
    /// corrupt file is replaced by fresh data, which must be saved.
    pub fn open(path: PathBuf, contents: StoreContents) -> (r: (AirsendStore, bool))
        ensures
            r.0.spec_path() == path,
            contents matches StoreContents::Parsed(d) ==> !r.1 && r.0.spec_data() == (if d.schema_version == 0 {
                StoreData { schema_version: STORE_SCHEMA_VERSION, ..d }
            } else {
                d
            }),
            !(contents is Parsed) ==> r.1 && is_fresh_store(r.0.spec_data())
                && is_v4_uuid_text(r.0.spec_data().device.device_id@),
    {
        match contents {
            StoreContents::Parsed(d) => (AirsendStore { path, data: d.normalized() }, false),
            _ => (AirsendStore { path, data: StoreData::default() }, true),
        }
    }

    /// A store holding `data`, saved to `path`.
    pub fn new(path: PathBuf, data: StoreData) -> (s: Self)
        ensures
            s.spec_path() == path,
            s.spec_data() == data,
    {
        AirsendStore { path, data }
    }

    pub fn path(&self) -> (p: &PathBuf)
        ensures
            *p == self.spec_path(),
    {
        &self.path
    }

    pub fn data(&self) -> (d: &StoreData)
        ensures
            *d == self.spec_data(),
    {
        &self.data
    }

    pub fn data_mut(&mut self) -> (d: &mut StoreData)
        ensures
            *d == old(self).spec_data(),
            final(self).spec_data() == *final(d),
            final(self).spec_path() == old(self).spec_path(),
    {
        &mut self.data
    }
}

} // verus!
