use vstd::prelude::*;

verus! {

/// What to tell the user about the operating system's firewall.
#[derive(Debug, Clone, Copy)]
pub struct FirewallGuidance {
    pub title: &'static str,
    pub message: &'static str,
    pub platform_hint: &'static str,
}

/// The operating system the application was built for.
#[derive(Debug, Clone, Copy, PartialEq, Eq, Structural)]
pub enum TargetPlatform {
    MacOs,
    Windows,
    Linux,
    Other,
}

pub const GUIDANCE_TITLE: &'static str = "Local network access needed";

pub const GUIDANCE_MESSAGE: &'static str =
    "Airsend listens only on private LAN interfaces and never exposes the control port on public addresses.";

pub const MACOS_HINT: &'static str =
    "macOS may ask whether Airsend can accept incoming network connections. Allow it for local Wi-Fi transfers.";

pub const WINDOWS_HINT: &'static str =
    "Windows Defender Firewall may ask for private network access. Allow private networks only.";

pub const GENERIC_HINT: &'static str =
    "If peers cannot connect, check that your local firewall allows Airsend on private LAN interfaces.";

/// The platform hint: its own for macOS and Windows, the generic one elsewhere.
pub open spec fn platform_hint_for(platform: TargetPlatform) -> Seq<char> {
    match platform {
        TargetPlatform::MacOs => MACOS_HINT@,
        TargetPlatform::Windows => WINDOWS_HINT@,
        _ => GENERIC_HINT@,
    }
}

/// The firewall guidance shown on `platform`.
pub fn default_firewall_guidance(platform: TargetPlatform) -> (g: FirewallGuidance)
    ensures
        g.title@ == GUIDANCE_TITLE@,
        g.message@ == GUIDANCE_MESSAGE@,
        g.platform_hint@ == platform_hint_for(platform),
{
    let platform_hint = match platform {
        TargetPlatform::MacOs => MACOS_HINT,
        TargetPlatform::Windows => WINDOWS_HINT,
        _ => GENERIC_HINT,
    };
    FirewallGuidance { title: GUIDANCE_TITLE, message: GUIDANCE_MESSAGE, platform_hint }
}

} // verus!
