//! The application's state: the store and the peer table, and the snapshot shown to the user.
use vstd::prelude::*;
use crate::discovery::{PeerTable, DiscoveryPeerView, peer_views};
use crate::models::{AppSnapshot, Device, DeviceView, Settings, device_from_identity};
use crate::platform::firewall::{default_firewall_guidance, platform_hint_for, TargetPlatform, GUIDANCE_MESSAGE, GUIDANCE_TITLE};
use crate::platform::interfaces::NetworkInterfaceSummary;
use crate::storage::json_store::{AirsendStore, StoreData, TransferHistoryRecord, trusts_fingerprint};
use crate::text::clone_opt_string;

verus! {

/// The addresses of the interfaces a listener may bind to, in order.
pub open spec fn allowed_addresses(interfaces: Seq<NetworkInterfaceSummary>) -> Seq<Seq<char>>
    decreases interfaces.len(),
{
    if interfaces.len() == 0 {
        Seq::empty()
    } else {
        let pre = allowed_addresses(interfaces.drop_last());
        if interfaces.last().allowed_for_bind { pre.push(interfaces.last().ip@) } else { pre }
    }
}

/// A peer's device as shown: trusted exactly when its fingerprint is trusted.
pub open spec fn shown_device(peer: DiscoveryPeerView, trusted: Seq<crate::storage::json_store::TrustedPeer>) -> DeviceView {
    DeviceView { trusted: trusts_fingerprint(trusted, peer.device.fingerprint), ..peer.device }
}

/// This device as shown: with the addresses of the interfaces it may listen on.
pub open spec fn local_device_shown(data: StoreData, interfaces: Seq<NetworkInterfaceSummary>, app_version: Seq<char>) -> DeviceView {
    DeviceView { addresses: allowed_addresses(interfaces), ..device_from_identity(data.device, app_version) }
}

/// The discovered devices as shown, in order.
pub open spec fn shown_devices(peers: Seq<DiscoveryPeerView>, trusted: Seq<crate::storage::json_store::TrustedPeer>) -> Seq<DeviceView> {
    peers.map_values(|p: DiscoveryPeerView| shown_device(p, trusted))
}

/// The devices of a peer list, in order.
pub open spec fn listed_devices(peers: Seq<DiscoveryPeerView>) -> Seq<DeviceView> {
    peers.map_values(|p: DiscoveryPeerView| p.device)
}

pub open spec fn device_views(devices: Seq<Device>) -> Seq<DeviceView> {
    devices.map_values(|d: Device| d@)
}

/// The store and the table of discovered peers.
pub struct AppState {
    store: AirsendStore,
    peers: PeerTable,
}

impl AppState {
    pub closed spec fn spec_store(&self) -> AirsendStore {
        self.store
    }

    pub closed spec fn spec_peers(&self) -> PeerTable {
        self.peers
    }

    /// The state built from the store read at start-up: no peers seen yet, and
    /// the table ignores this device's own announcements.
    pub fn load(store: AirsendStore) -> (s: Self)
        ensures
            s.spec_store() == store,
            s.spec_peers().local_id() == store.spec_data().device.device_id@,
            s.spec_peers().peer_list() == Seq::<DiscoveryPeerView>::empty(),
    {
        let local_device_id = store.data().device.device_id.clone();
        AppState { store, peers: PeerTable::new(local_device_id) }
    }

    pub fn store(&self) -> (s: &AirsendStore)
        ensures
            *s == self.spec_store(),
    {
        &self.store
    }

    /// The store, for a change (the caller holds the state exclusively).
    pub fn lock_store(&mut self) -> (s: &mut AirsendStore)
        ensures
            *s == old(self).spec_store(),
            final(self).spec_store() == *final(s),
            final(self).spec_peers() == old(self).spec_peers(),
    {
        &mut self.store
    }

    pub fn peers_mut(&mut self) -> (p: &mut PeerTable)
        ensures
            *p == old(self).spec_peers(),
            final(self).spec_peers() == *final(p),
            final(self).spec_store() == old(self).spec_store(),
    {
        &mut self.peers
    }

    /// The discovered devices, as the peer table holds them.
    pub fn list_devices(&self) -> (d: Vec<Device>)
        ensures
            device_views(d@) == listed_devices(self.spec_peers().peer_list()),
    {
        let peers = self.peers.peers();
        let mut devices: Vec<Device> = Vec::new();
        let mut rest = peers;
        let ghost all = peer_views(rest@);
        while rest.len() > 0
            invariant
                rest@.len() <= all.len(),
                peer_views(rest@) == all.skip(all.len() - rest@.len()),
                device_views(devices@) == listed_devices(all.take(all.len() - rest@.len())),
            decreases rest@.len(),
        {
            let ghost n: int = all.len() - rest@.len();
            let ghost old_rest = rest@;
            let peer = rest.remove(0);
            proof {
                assert(peer_views(old_rest)[0] == all.skip(n)[0]);
                assert(peer@ == all[n]);
                assert(peer_views(rest@) =~= all.skip(n + 1)) by {
                    assert(rest@ =~= old_rest.subrange(1, old_rest.len() as int));
                    assert forall|k: int| 0 <= k < rest@.len() implies peer_views(rest@)[k] == all.skip(n + 1)[k] by {
                        assert(peer_views(old_rest)[k + 1] == all.skip(n)[k + 1]);
                    }
                }
            }
            let ghost before = devices@;
            devices.push(peer.device);
            proof {
                assert(device_views(devices@) =~= device_views(before).push(all[n].device));
                assert(all.take(n + 1) =~= all.take(n).push(all[n]));
                assert(listed_devices(all.take(n).push(all[n])) =~= listed_devices(all.take(n)).push(all[n].device));
            }
        }
        assert(all.take(all.len() as int) =~= all);
        devices
    }

    /// What the user interface shows: this device (with the addresses of the
    /// interfaces it may listen on), the discovered devices marked trusted when
    /// their fingerprint is, the settings, the history, the interfaces and the
    /// firewall guidance for `platform`.
    pub fn snapshot(&self, interfaces: Vec<NetworkInterfaceSummary>, platform: TargetPlatform, app_version: String) -> (s: AppSnapshot)
        ensures
            s.local_device@ == local_device_shown(self.spec_store().spec_data(), interfaces@, app_version@),
            device_views(s.devices@) == shown_devices(self.spec_peers().peer_list(), self.spec_store().spec_data().trusted_peers@),
            s.settings.save_directory == self.spec_store().spec_data().settings.save_directory,
            s.settings.auto_accept == self.spec_store().spec_data().settings.auto_accept,
            s.settings.parallel_workers == self.spec_store().spec_data().settings.parallel_workers,
            s.transfer_history@ == self.spec_store().spec_data().transfer_history@,
            s.interfaces == interfaces,
            s.firewall_guidance.title@ == GUIDANCE_TITLE@,
            s.firewall_guidance.message@ == GUIDANCE_MESSAGE@,
            s.firewall_guidance.platform_hint@ == platform_hint_for(platform),
    {
        let data = self.store.data();
        let mut local_device = Device::from_identity(data.device.clone(), app_version);
        let mut addresses: Vec<String> = Vec::new();
        let mut i: usize = 0;
        while i < interfaces.len()
            invariant
                i <= interfaces@.len(),
                crate::text::strings_view(addresses@) == allowed_addresses(interfaces@.take(i as int)),
            decreases interfaces@.len() - i,
        {
            let ghost before = addresses@;
            if interfaces[i].allowed_for_bind {
                addresses.push(interfaces[i].ip.clone());
                assert(crate::text::strings_view(addresses@) =~= crate::text::strings_view(before).push(interfaces@[i as int].ip@));
            }
            assert(interfaces@.take(i as int + 1).drop_last() =~= interfaces@.take(i as int));
            i = i + 1;
        }
        assert(interfaces@.take(interfaces@.len() as int) =~= interfaces@);
        local_device.addresses = addresses;

        let peers = self.peers.peers();
        let ghost all = peer_views(peers@);
        let ghost trusted = data.trusted_peers@;
        let mut devices: Vec<Device> = Vec::new();
        let mut rest = peers;
        while rest.len() > 0
            invariant
                rest@.len() <= all.len(),
                trusted == data.trusted_peers@,
                peer_views(rest@) == all.skip(all.len() - rest@.len()),
                device_views(devices@) == shown_devices(all.take(all.len() - rest@.len()), trusted),
            decreases rest@.len(),
        {
            let ghost n: int = all.len() - rest@.len();
            let ghost old_rest = rest@;
            let peer = rest.remove(0);
            proof {
                assert(peer_views(old_rest)[0] == all.skip(n)[0]);
                assert(peer@ == all[n]);
                assert(peer_views(rest@) =~= all.skip(n + 1)) by {
                    assert(rest@ =~= old_rest.subrange(1, old_rest.len() as int));
                    assert forall|k: int| 0 <= k < rest@.len() implies peer_views(rest@)[k] == all.skip(n + 1)[k] by {
                        assert(peer_views(old_rest)[k + 1] == all.skip(n)[k + 1]);
                    }
                }
            }
            let mut device = peer.device;
            device.trusted = data.is_trusted_fingerprint(&device.fingerprint);
            let ghost before = devices@;
            assert(device@ == shown_device(all[n], trusted));
            devices.push(device);
            proof {
                assert(device_views(devices@) =~= device_views(before).push(shown_device(all[n], trusted)));
                assert(all.take(n + 1) =~= all.take(n).push(all[n]));
                assert(shown_devices(all.take(n).push(all[n]), trusted) =~= shown_devices(all.take(n), trusted).push(shown_device(all[n], trusted)));
            }
        }
        assert(all.take(all.len() as int) =~= all);

        let mut history: Vec<TransferHistoryRecord> = Vec::new();
        let mut j: usize = 0;
        while j < data.transfer_history.len()
            invariant
                j <= data.transfer_history@.len(),
                history@ == data.transfer_history@.take(j as int),
            decreases data.transfer_history@.len() - j,
        {
            history.push(data.transfer_history[j].clone());
            assert(history@ =~= data.transfer_history@.take(j as int + 1));
            j = j + 1;
        }
        assert(data.transfer_history@.take(data.transfer_history@.len() as int) =~= data.transfer_history@);

        AppSnapshot {
            local_device,
            devices,
            settings: Settings {
                save_directory: clone_opt_string(&data.settings.save_directory),
                auto_accept: data.settings.auto_accept,
                parallel_workers: data.settings.parallel_workers,
            },
            transfer_history: history,
            interfaces,
            firewall_guidance: default_firewall_guidance(platform),
        }
    }
}

/// This device is shown with the address of every interface it may listen on and
/// of no other, in the order of the interfaces: exactly the allowed interfaces'
/// addresses, none dropped, none added.
pub proof fn lemma_shown_addresses_are_all_allowed(interfaces: Seq<NetworkInterfaceSummary>)
    ensures
        allowed_addresses(interfaces) == interfaces.filter(|n: NetworkInterfaceSummary| n.allowed_for_bind)
            .map_values(|n: NetworkInterfaceSummary| n.ip@),
        forall|i: int| 0 <= i < interfaces.len() && (#[trigger] interfaces[i]).allowed_for_bind
            ==> allowed_addresses(interfaces).contains(interfaces[i].ip@),
    decreases interfaces.len(),
{
    let allowed = |n: NetworkInterfaceSummary| n.allowed_for_bind;
    let ip_of = |n: NetworkInterfaceSummary| n.ip@;
    reveal_with_fuel(Seq::<_>::filter, 1);
    if interfaces.len() > 0 {
        let pre = interfaces.drop_last();
        lemma_shown_addresses_are_all_allowed(pre);
        let f = pre.filter(allowed);
        assert(interfaces.filter(allowed) == (if allowed(interfaces.last()) { f.push(interfaces.last()) } else { f }));
        if allowed(interfaces.last()) {
            assert(f.push(interfaces.last()).map_values(ip_of) =~= f.map_values(ip_of).push(interfaces.last().ip@));
        }
        assert forall|i: int| 0 <= i < interfaces.len() && (#[trigger] interfaces[i]).allowed_for_bind
            implies allowed_addresses(interfaces).contains(interfaces[i].ip@) by {
            if i < interfaces.len() - 1 {
                assert(pre[i] == interfaces[i]);
                assert(allowed_addresses(pre).contains(pre[i].ip@));
                let k = choose|k: int| 0 <= k < allowed_addresses(pre).len() && allowed_addresses(pre)[k] == pre[i].ip@;
                if allowed(interfaces.last()) {
                    assert(allowed_addresses(interfaces)[k] == pre[i].ip@);
                }
            } else {
                assert(allowed_addresses(interfaces).last() == interfaces[i].ip@);
            }
        }
    } else {
        assert(interfaces.filter(allowed) =~= Seq::<NetworkInterfaceSummary>::empty());
        assert(interfaces.filter(allowed).map_values(ip_of) =~= Seq::<Seq<char>>::empty());
    }
}

} // verus!
