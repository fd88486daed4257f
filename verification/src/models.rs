//! Records exchanged with the user interface.
use vstd::prelude::*;
use crate::text::{clone_opt_string, clone_strings, opt_string_view, strings_view};
use crate::discovery::PROTOCOL_VERSION;
use crate::platform::firewall::FirewallGuidance;
use crate::platform::interfaces::NetworkInterfaceSummary;
use crate::storage::json_store::{DeviceIdentity, TransferHistoryRecord};

verus! {

/// A device on the local network: this one or a discovered peer.
#[derive(Debug)]
pub struct Device {
    pub device_id: String,
    pub display_name: String,
    pub fingerprint: String,
    pub protocol_version: u16,
    pub app_version: String,
    pub control_port: Option<u16>,
    pub online: bool,
    pub trusted: bool,
    pub last_seen: Option<String>,
    pub addresses: Vec<String>,
}

/// The mathematical value of a [`Device`]: its text fields as character sequences.
pub struct DeviceView {
    pub device_id: Seq<char>,
    pub display_name: Seq<char>,
    pub fingerprint: Seq<char>,
    pub protocol_version: u16,
    pub app_version: Seq<char>,
    pub control_port: Option<u16>,
    pub online: bool,
    pub trusted: bool,
    pub last_seen: Option<Seq<char>>,
    pub addresses: Seq<Seq<char>>,
}

impl View for Device {
    type V = DeviceView;

    open spec fn view(&self) -> DeviceView {
        DeviceView {
            device_id: self.device_id@,
            display_name: self.display_name@,
            fingerprint: self.fingerprint@,
            protocol_version: self.protocol_version,
            app_version: self.app_version@,
            control_port: self.control_port,
            online: self.online,
            trusted: self.trusted,
            last_seen: opt_string_view(self.last_seen),
            addresses: strings_view(self.addresses@),
        }
    }
}

impl Clone for Device {
    fn clone(&self) -> (res: Self)
        ensures
            res@ == self@,
    {
        Device {
            device_id: self.device_id.clone(),
            display_name: self.display_name.clone(),
            fingerprint: self.fingerprint.clone(),
            protocol_version: self.protocol_version,
            app_version: self.app_version.clone(),
            control_port: self.control_port,
            online: self.online,
            trusted: self.trusted,
            last_seen: clone_opt_string(&self.last_seen),
            addresses: clone_strings(&self.addresses),
        }
    }
}

/// This device as shown to the user: online, trusted, speaking this protocol
/// version, with no control port, last-seen time or addresses yet.
pub open spec fn device_from_identity(identity: DeviceIdentity, app_version: Seq<char>) -> DeviceView {
    DeviceView {
        device_id: identity.device_id@,
        display_name: identity.display_name@,
        fingerprint: identity.fingerprint@,
        protocol_version: PROTOCOL_VERSION,
        app_version,
        control_port: None,
        online: true,
        trusted: true,
        last_seen: None,
        addresses: Seq::empty(),
    }
}

impl Device {
    /// This device, from its stored identity and the application's version.
    pub fn from_identity(identity: DeviceIdentity, app_version: String) -> (d: Device)
        ensures
            d@ == device_from_identity(identity, app_version@),
    {
        let d = Device {
            device_id: identity.device_id,
            display_name: identity.display_name,
            fingerprint: identity.fingerprint,
            protocol_version: PROTOCOL_VERSION,
            app_version,
            control_port: None,
            online: true,
            trusted: true,
            last_seen: None,
            addresses: Vec::new(),
        };
        assert(d@.addresses =~= Seq::<Seq<char>>::empty());
        d
    }
}

#[derive(Debug)]
pub struct Settings {
    pub save_directory: Option<String>,
    pub auto_accept: bool,
    pub parallel_workers: u8,
}

/// Everything the user interface shows.
#[derive(Debug)]
pub struct AppSnapshot {
    pub local_device: Device,
    pub devices: Vec<Device>,
    pub settings: Settings,
    pub transfer_history: Vec<TransferHistoryRecord>,
    pub interfaces: Vec<NetworkInterfaceSummary>,
    pub firewall_guidance: FirewallGuidance,
}

#[derive(Debug)]
pub struct SendFilesRequest {
    pub target_device_id: String,
    pub paths: Vec<String>,
}

#[derive(Debug)]
pub struct TransferOffer {
    pub transfer_id: String,
    pub sender_id: String,
    pub sender_name: String,
    pub file_count: usize,
    pub total_bytes: u64,
    pub root_names: Vec<String>,
}

#[derive(Debug)]
pub struct TransferProgressEvent {
    pub transfer_id: String,
    pub status: String,
    pub transferred_bytes: u64,
    pub total_bytes: u64,
    pub bytes_per_second: u64,
}

} // verus!
