//! Peer discovery: announcements and the table of peers seen on the network.
use vstd::prelude::*;
use crate::models::{Device, DeviceView};
use crate::text::string_is;

verus! {

pub const SERVICE_NAME: &'static str = "_airsend._tcp.local.";

pub const PROTOCOL_VERSION: u16 = 1;

pub const DEFAULT_PEER_TTL_SECONDS: u64 = 30;

/// What a device announces about itself on the local network.
#[derive(Debug)]
pub struct DiscoveryAnnouncement {
    pub service_name: String,
    pub protocol_version: u16,
    pub device: Device,
    pub control_port: u16,
}

/// Why a decoded announcement was refused.
#[derive(Debug)]
pub enum DiscoveryError {
    WrongService(String),
    UnsupportedProtocol(u16),
}

/// Whether an announcement is for this service and this protocol version.
pub open spec fn is_acceptable(service_name: Seq<char>, protocol_version: u16) -> bool {
    service_name == SERVICE_NAME@ && protocol_version == PROTOCOL_VERSION
}

/// The device as it is announced: its control port is the announced one.
pub open spec fn announced_device(device: DeviceView, control_port: u16) -> DeviceView {
    DeviceView { control_port: Some(control_port), ..device }
}

impl DiscoveryAnnouncement {
    /// Announces `device` for this service and protocol version, listening on `control_port`.
    pub fn new(device: Device, control_port: u16) -> (a: Self)
        ensures
            a.service_name@ == SERVICE_NAME@,
            a.protocol_version == PROTOCOL_VERSION,
            a.device@ == announced_device(device@, control_port),
            a.control_port == control_port,
            is_acceptable(a.service_name@, a.protocol_version),
    {
        let mut device = device;
        device.control_port = Some(control_port);
        DiscoveryAnnouncement {
            service_name: String::from_str(SERVICE_NAME),
            protocol_version: PROTOCOL_VERSION,
            device,
            control_port,
        }
    }

    /// Accepts a decoded announcement only if it is for this service and this
    /// protocol version; the service is checked first.
    pub fn validate(self) -> (r: Result<Self, DiscoveryError>)
        ensures
            self.service_name@ != SERVICE_NAME@ ==> (r matches Err(DiscoveryError::WrongService(s))
                && s@ == self.service_name@),
            self.service_name@ == SERVICE_NAME@ && self.protocol_version != PROTOCOL_VERSION
                ==> r == Err::<Self, DiscoveryError>(DiscoveryError::UnsupportedProtocol(self.protocol_version)),
            self.service_name@ == SERVICE_NAME@ && self.protocol_version == PROTOCOL_VERSION
                ==> r == Ok::<Self, DiscoveryError>(self),
            r is Ok <==> is_acceptable(self.service_name@, self.protocol_version),
    {
        if !string_is(&self.service_name, SERVICE_NAME) {
            return Err(DiscoveryError::WrongService(self.service_name));
        }
        if self.protocol_version != PROTOCOL_VERSION {
            return Err(DiscoveryError::UnsupportedProtocol(self.protocol_version));
        }
        Ok(self)
    }
}

/// A peer and when it was last heard from.
#[derive(Debug)]
pub struct DiscoveryPeer {
    pub device: Device,
    pub last_seen_epoch_seconds: u64,
}

pub struct DiscoveryPeerView {
    pub device: DeviceView,
    pub last_seen_epoch_seconds: u64,
}

impl View for DiscoveryPeer {
    type V = DiscoveryPeerView;

    open spec fn view(&self) -> DiscoveryPeerView {
        DiscoveryPeerView { device: self.device@, last_seen_epoch_seconds: self.last_seen_epoch_seconds }
    }
}

impl Clone for DiscoveryPeer {
    fn clone(&self) -> (res: Self)
        ensures
            res@ == self@,
    {
        DiscoveryPeer { device: self.device.clone(), last_seen_epoch_seconds: self.last_seen_epoch_seconds }
    }
}

pub open spec fn peer_views(peers: Seq<DiscoveryPeer>) -> Seq<DiscoveryPeerView> {
    peers.map_values(|p: DiscoveryPeer| p@)
}

/// Whether some peer carries the device ID `id`.
pub open spec fn has_peer(peers: Seq<DiscoveryPeerView>, id: Seq<char>) -> bool {
    exists|i: int| 0 <= i < peers.len() && #[trigger] peers[i].device.device_id == id
}

/// The position of the peer with device ID `id` (meaningful when there is one).
pub open spec fn peer_index(peers: Seq<DiscoveryPeerView>, id: Seq<char>) -> int {
    choose|i: int| 0 <= i < peers.len() && #[trigger] peers[i].device.device_id == id
}

/// No two peers share a device ID.
pub open spec fn unique_ids(peers: Seq<DiscoveryPeerView>) -> bool {
    forall|i: int, j: int| 0 <= i < peers.len() && 0 <= j < peers.len() && i != j
        ==> #[trigger] peers[i].device.device_id != #[trigger] peers[j].device.device_id
}

/// No peer carries the local device ID.
pub open spec fn excludes_local(peers: Seq<DiscoveryPeerView>, local: Seq<char>) -> bool {
    forall|i: int| 0 <= i < peers.len() ==> #[trigger] peers[i].device.device_id != local
}

/// The peer list after an announcement of `device` at time `now`: our own
/// announcements are ignored; a known device is replaced in place, marked online
/// and stamped with `now`; an unknown one is appended as announced, stamped with `now`.
pub open spec fn apply_announcement_spec(
    local: Seq<char>,
    peers: Seq<DiscoveryPeerView>,
    device: DeviceView,
    now: u64,
) -> Seq<DiscoveryPeerView> {
    if device.device_id == local {
        peers
    } else if has_peer(peers, device.device_id) {
        peers.update(
            peer_index(peers, device.device_id),
            DiscoveryPeerView { device: DeviceView { online: true, ..device }, last_seen_epoch_seconds: now },
        )
    } else {
        peers.push(DiscoveryPeerView { device, last_seen_epoch_seconds: now })
    }
}

/// Seconds since `last_seen`, or zero when `last_seen` lies in the future.
pub open spec fn elapsed_since(now: u64, last_seen: u64) -> int {
    if now >= last_seen { now - last_seen } else { 0 }
}

/// A peer after pruning: offline when it has not been heard from for more than `ttl` seconds.
pub open spec fn pruned_peer(peer: DiscoveryPeerView, now: u64, ttl: u64) -> DiscoveryPeerView {
    if elapsed_since(now, peer.last_seen_epoch_seconds) > ttl {
        DiscoveryPeerView { device: DeviceView { online: false, ..peer.device }, ..peer }
    } else {
        peer
    }
}

pub open spec fn prune_spec(peers: Seq<DiscoveryPeerView>, now: u64, ttl: u64) -> Seq<DiscoveryPeerView> {
    peers.map_values(|p: DiscoveryPeerView| pruned_peer(p, now, ttl))
}

/// Marks offline every peer not heard from for more than `ttl_seconds`; no peer is removed.
pub fn prune_expired_peers(peers: &mut [DiscoveryPeer], now_epoch_seconds: u64, ttl_seconds: u64)
    ensures
        peer_views(final(peers)@) == prune_spec(peer_views(old(peers)@), now_epoch_seconds, ttl_seconds),
{
    let ghost before = peer_views(peers@);
    let mut i: usize = 0;
    while i < peers.len()
        invariant
            i <= peers@.len(),
            before.len() == peers@.len(),
            forall|k: int| 0 <= k < i ==> #[trigger] peers@[k]@ == pruned_peer(before[k], now_epoch_seconds, ttl_seconds),
            forall|k: int| i <= k < peers@.len() ==> #[trigger] peers@[k]@ == before[k],
        decreases peers@.len() - i,
    {
        let elapsed = now_epoch_seconds.saturating_sub(peers[i].last_seen_epoch_seconds);
        if elapsed > ttl_seconds {
            let mut peer = peers[i].clone();
            peer.device.online = false;
            peers[i] = peer;
        }
        i = i + 1;
    }
    assert(peer_views(peers@) =~= prune_spec(before, now_epoch_seconds, ttl_seconds));
}

/// The peers seen on the network, never holding this device and never two
/// entries for one device ID.
#[derive(Debug)]
pub struct PeerTable {
    local_device_id: String,
    peers: Vec<DiscoveryPeer>,
}

impl PeerTable {
    #[verifier::type_invariant]
    spec fn well_formed(self) -> bool {
        &&& unique_ids(peer_views(self.peers@))
        &&& excludes_local(peer_views(self.peers@), self.local_device_id@)
    }

    /// The device ID of this device, whose announcements the table ignores.
    pub closed spec fn local_id(&self) -> Seq<char> {
        self.local_device_id@
    }

    /// The peers in the order they were first seen.
    pub closed spec fn peer_list(&self) -> Seq<DiscoveryPeerView> {
        peer_views(self.peers@)
    }

    /// An empty table for the device `local_device_id`.
    pub fn new(local_device_id: String) -> (t: Self)
        ensures
            t.local_id() == local_device_id@,
            t.peer_list() == Seq::<DiscoveryPeerView>::empty(),
    {
        let t = PeerTable { local_device_id, peers: Vec::new() };
        assert(peer_views(t.peers@) =~= Seq::<DiscoveryPeerView>::empty());
        t
    }

    /// Records an announcement heard at `now_epoch_seconds`.
    pub fn apply_announcement(&mut self, announcement: DiscoveryAnnouncement, now_epoch_seconds: u64)
        ensures
            final(self).local_id() == old(self).local_id(),
            final(self).peer_list() == apply_announcement_spec(
                old(self).local_id(),
                old(self).peer_list(),
                announcement.device@,
                now_epoch_seconds,
            ),
    {
        proof {
            use_type_invariant(&*self);
        }
        let ghost before = peer_views(self.peers@);
        if announcement.device.device_id == self.local_device_id {
            return;
        }
        let mut found: Option<usize> = None;
        let mut i: usize = 0;
        while i < self.peers.len()
            invariant_except_break
                found is None,
            invariant
                i <= self.peers@.len(),
                before == peer_views(self.peers@),
                forall|k: int| 0 <= k < i ==> #[trigger] before[k].device.device_id != announcement.device.device_id@,
            ensures
                found is None ==> i >= before.len(),
                found matches Some(j) ==> j == i && i < before.len()
                    && before[j as int].device.device_id == announcement.device.device_id@,
            decreases self.peers@.len() - i,
        {
            if self.peers[i].device.device_id == announcement.device.device_id {
                found = Some(i);
                break;
            }
            i = i + 1;
        }
        assert(found matches Some(j) ==> j < before.len() && before[j as int].device.device_id == announcement.device.device_id@);
        assert(found is None ==> !has_peer(before, announcement.device.device_id@));
        let mut peers: Vec<DiscoveryPeer> = Vec::new();
        std::mem::swap(&mut peers, &mut self.peers);
        let ghost id = announcement.device.device_id@;
        match found {
            Some(j) => {
                proof {
                    let c = peer_index(before, id);
                    assert(before[c].device.device_id == id);
                    assert(c == j as int);
                }
                let mut device = announcement.device;
                device.online = true;
                peers.set(j, DiscoveryPeer { device, last_seen_epoch_seconds: now_epoch_seconds });
            },
            None => {
                peers.push(DiscoveryPeer { device: announcement.device, last_seen_epoch_seconds: now_epoch_seconds });
            },
        }
        let ghost after = peer_views(peers@);
        assert(after =~= apply_announcement_spec(self.local_device_id@, before, announcement.device@, now_epoch_seconds));
        self.peers = peers;
    }

    /// Marks offline the peers not heard from for more than `ttl_seconds`.
    pub fn prune_expired(&mut self, now_epoch_seconds: u64, ttl_seconds: u64)
        ensures
            final(self).local_id() == old(self).local_id(),
            final(self).peer_list() == prune_spec(old(self).peer_list(), now_epoch_seconds, ttl_seconds),
    {
        proof {
            use_type_invariant(&*self);
        }
        let mut peers: Vec<DiscoveryPeer> = Vec::new();
        std::mem::swap(&mut peers, &mut self.peers);
        prune_expired_peers(peers.as_mut_slice(), now_epoch_seconds, ttl_seconds);
        self.peers = peers;
    }

    /// A copy of the peers, which never holds this device nor two entries for one device ID.
    pub fn peers(&self) -> (r: Vec<DiscoveryPeer>)
        ensures
            peer_views(r@) == self.peer_list(),
            unique_ids(peer_views(r@)),
            excludes_local(peer_views(r@), self.local_id()),
    {
        proof {
            use_type_invariant(self);
        }
        let mut r: Vec<DiscoveryPeer> = Vec::new();
        let mut i: usize = 0;
        while i < self.peers.len()
            invariant
                i <= self.peers@.len(),
                r@.len() == i,
                forall|k: int| 0 <= k < i ==> #[trigger] r@[k]@ == self.peers@[k]@,
            decreases self.peers@.len() - i,
        {
            r.push(self.peers[i].clone());
            i = i + 1;
        }
        assert(peer_views(r@) =~= peer_views(self.peers@));
        r
    }
}

impl Default for PeerTable {
    fn default() -> (t: Self)
        ensures
            t.local_id() == Seq::<char>::empty(),
            t.peer_list() == Seq::<DiscoveryPeerView>::empty(),
    {
        PeerTable::new(String::new())
    }
}

/// An announcement from this device leaves the peer list as it was.
pub proof fn lemma_own_announcement_ignored(local: Seq<char>, peers: Seq<DiscoveryPeerView>, device: DeviceView, now: u64)
    requires
        device.device_id == local,
    ensures
        apply_announcement_spec(local, peers, device, now) == peers,
{
}

/// After an announcement from another device, the table holds exactly one entry
/// for it, stamped with the time of the announcement (marked online when it was
/// already known), every other peer stays where it was, unchanged, and the table
/// still holds neither this device nor two entries for one device ID.
pub proof fn lemma_announcement_records_peer(
    local: Seq<char>,
    peers: Seq<DiscoveryPeerView>,
    device: DeviceView,
    now: u64,
)
    requires
        unique_ids(peers),
        excludes_local(peers, local),
        device.device_id != local,
    ensures
        ({
            let r = apply_announcement_spec(local, peers, device, now);
            let id = device.device_id;
            &&& unique_ids(r)
            &&& excludes_local(r, local)
            &&& has_peer(r, id)
            &&& r[peer_index(r, id)].last_seen_epoch_seconds == now
            &&& r[peer_index(r, id)].device == (if has_peer(peers, id) {
                DeviceView { online: true, ..device }
            } else {
                device
            })
            &&& r.len() == (if has_peer(peers, id) { peers.len() } else { peers.len() + 1 })
            &&& forall|i: int| 0 <= i < peers.len() && peers[i].device.device_id != id ==> #[trigger] r[i] == peers[i]
        }),
{
    let r = apply_announcement_spec(local, peers, device, now);
    let id = device.device_id;
    if has_peer(peers, id) {
        let c = peer_index(peers, id);
        assert(r[c].device.device_id == id);
        assert(peer_index(r, id) == c);
    } else {
        let c = peers.len() as int;
        assert(r[c].device.device_id == id);
        assert(peer_index(r, id) == c);
    }
}

/// Hearing the same announcement twice at the same time gives the same table as
/// hearing it once, provided the announced device says it is online (a device
/// announcing itself offline is stored offline the first time, then marked online).
pub proof fn lemma_repeated_announcement(local: Seq<char>, peers: Seq<DiscoveryPeerView>, device: DeviceView, now: u64)
    requires
        unique_ids(peers),
        excludes_local(peers, local),
        device.online,
    ensures
        apply_announcement_spec(local, apply_announcement_spec(local, peers, device, now), device, now)
            == apply_announcement_spec(local, peers, device, now),
{
    if device.device_id != local {
        lemma_announcement_records_peer(local, peers, device, now);
        let r = apply_announcement_spec(local, peers, device, now);
        let c = peer_index(r, device.device_id);
        assert(DeviceView { online: true, ..device } == device);
        assert(r.update(c, r[c]) =~= r);
    }
}

/// Pruning never removes a peer nor changes its identity or last-seen time; it only
/// marks stale peers offline, so pruning twice at the same time is the same as
/// pruning once, and the table keeps its well-formedness.
pub proof fn lemma_prune_keeps_peers(local: Seq<char>, peers: Seq<DiscoveryPeerView>, now: u64, ttl: u64)
    ensures
        ({
            let r = prune_spec(peers, now, ttl);
            &&& r.len() == peers.len()
            &&& forall|i: int| 0 <= i < peers.len() ==> {
                &&& (#[trigger] r[i]).device.device_id == peers[i].device.device_id
                &&& r[i].last_seen_epoch_seconds == peers[i].last_seen_epoch_seconds
                &&& r[i].device.online == (peers[i].device.online
                    && elapsed_since(now, peers[i].last_seen_epoch_seconds) <= ttl)
            }
            &&& prune_spec(r, now, ttl) == r
            &&& unique_ids(peers) ==> unique_ids(r)
            &&& excludes_local(peers, local) ==> excludes_local(r, local)
        }),
{
    let r = prune_spec(peers, now, ttl);
    assert(prune_spec(r, now, ttl) =~= r);
}

/// A peer heard from at `now` (known before, or announcing itself online) is
/// still online after pruning at any time up to `now + ttl`.
pub proof fn lemma_recent_peer_stays_online(
    local: Seq<char>,
    peers: Seq<DiscoveryPeerView>,
    device: DeviceView,
    now: u64,
    later: u64,
    ttl: u64,
)
    requires
        unique_ids(peers),
        excludes_local(peers, local),
        device.device_id != local,
        device.online || has_peer(peers, device.device_id),
        later <= now + ttl,
    ensures
        ({
            let r = prune_spec(apply_announcement_spec(local, peers, device, now), later, ttl);
            &&& has_peer(r, device.device_id)
            &&& r[peer_index(r, device.device_id)].device.online
        }),
{
    lemma_announcement_records_peer(local, peers, device, now);
    let a = apply_announcement_spec(local, peers, device, now);
    let r = prune_spec(a, later, ttl);
    let c = peer_index(a, device.device_id);
    assert(r[c].device.device_id == device.device_id);
    lemma_prune_keeps_peers(local, a, later, ttl);
    assert(peer_index(r, device.device_id) == c);
}

} // verus!
