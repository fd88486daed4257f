//! The decisions behind the user interface's commands.
use vstd::prelude::*;
use vstd::string::StringExecFns;
use crate::models::{Device, SendFilesRequest, TransferProgressEvent};
use crate::storage::json_store::{StoreData, TransferDirection, TransferHistoryRecord, TransferStatus};
use crate::text::{decimal_digits, decimal_text, push_str};
use crate::ids::{is_v4_uuid_text, random_uuid_text};

verus! {

pub const EMPTY_SELECTION_MESSAGE: &'static str = "Select at least one file or folder to send.";

pub const SELF_TARGET_MESSAGE: &'static str = "Select a nearby peer before queueing a transfer.";

pub const SELECTED_PEER_NAME: &'static str = "Selected peer";

/// The reply to accepting a transfer: "accepted:" and its ID.
pub fn accept_transfer_reply(transfer_id: &str) -> (r: String)
    ensures
        r@ == "accepted:"@ + transfer_id@,
{
    let mut r = String::from_str("accepted:");
    push_str(&mut r, transfer_id);
    r
}

/// The reply to rejecting a transfer: "rejected:" and its ID.
pub fn reject_transfer_reply(transfer_id: &str) -> (r: String)
    ensures
        r@ == "rejected:"@ + transfer_id@,
{
    let mut r = String::from_str("rejected:");
    push_str(&mut r, transfer_id);
    r
}

/// A send request must select at least one path.
pub fn check_send_paths(request: &SendFilesRequest) -> (r: Result<(), String>)
    ensures
        request.paths@.len() == 0 ==> (r matches Err(m) && m@ == EMPTY_SELECTION_MESSAGE@),
        request.paths@.len() > 0 ==> r is Ok,
{
    if request.paths.len() == 0 {
        return Err(String::from_str(EMPTY_SELECTION_MESSAGE));
    }
    Ok(())
}

/// A new random ID for an outgoing transfer (a hyphenated version 4 UUID).
pub fn new_transfer_id() -> (s: String)
    ensures
        is_v4_uuid_text(s@),
{
    random_uuid_text()
}

/// Queues an outgoing transfer of `file_count` files and `total_bytes` bytes:
/// refused when the target is this device; otherwise recorded at the head of the
/// history, and answered with the progress event announcing it.
pub fn queue_outgoing_transfer(
    data: &mut StoreData,
    transfer_id: String,
    target_device_id: String,
    file_count: usize,
    total_bytes: u64,
    local: &Device,
    created_at: String,
) -> (r: Result<TransferProgressEvent, String>)
    ensures
        target_device_id@ == local.device_id@ ==> (r matches Err(m) && m@ == SELF_TARGET_MESSAGE@
            && *final(data) == *old(data)),
        target_device_id@ != local.device_id@ ==> (r matches Ok(e)
            && e.transfer_id == transfer_id
            && e.status@ == "Queued by "@ + local.display_name@
            && e.transferred_bytes == 0 && e.total_bytes == total_bytes && e.bytes_per_second == 0
            && final(data).transfer_history@.len() == old(data).transfer_history@.len() + 1
            && final(data).transfer_history@[0].transfer_id == transfer_id
            && final(data).transfer_history@[0].peer_id == target_device_id
            && final(data).transfer_history@[0].peer_name@ == SELECTED_PEER_NAME@
            && final(data).transfer_history@[0].direction == TransferDirection::Outgoing
            && final(data).transfer_history@[0].file_count == file_count
            && final(data).transfer_history@[0].total_bytes == total_bytes
            && final(data).transfer_history@[0].status == TransferStatus::Queued
            && final(data).transfer_history@[0].created_at == created_at
            && final(data).transfer_history@[0].completed_at is None
            && final(data).transfer_history@.skip(1) == old(data).transfer_history@
            && *final(data) == (StoreData { transfer_history: final(data).transfer_history, ..*old(data) })),
{
    if target_device_id == local.device_id {
        return Err(String::from_str(SELF_TARGET_MESSAGE));
    }
    let record = TransferHistoryRecord {
        transfer_id: transfer_id.clone(),
        peer_id: target_device_id,
        peer_name: String::from_str(SELECTED_PEER_NAME),
        direction: TransferDirection::Outgoing,
        file_count,
        total_bytes,
        status: TransferStatus::Queued,
        created_at,
        completed_at: None,
    };
    data.record_transfer(record);
    assert((seq![record] + old(data).transfer_history@).skip(1) =~= old(data).transfer_history@);
    let mut status = String::from_str("Queued by ");
    push_str(&mut status, local.display_name.as_str());
    Ok(TransferProgressEvent { transfer_id, status, transferred_bytes: 0, total_bytes, bytes_per_second: 0 })
}

/// `std::time::SystemTime`, a reading of the system clock.
#[verifier::external_type_specification]
#[verifier::external_body]
pub struct ExSystemTime(std::time::SystemTime);

/// Calls `SystemTime::now()`; nothing is claimed of the reading.
#[verifier::external_body]
fn system_time_now() -> (t: std::time::SystemTime) {
    std::time::SystemTime::now()
}

/// Calls `SystemTime::duration_since(UNIX_EPOCH)`; `None` when the reading lies
/// before the epoch. Nothing is claimed of the duration.
#[verifier::external_body]
fn duration_since_epoch(t: &std::time::SystemTime) -> (d: Option<std::time::Duration>) {
    t.duration_since(std::time::UNIX_EPOCH).ok()
}

/// Calls `Duration::as_secs`: the whole seconds of a duration. Nothing is claimed
/// of the value, since no contract here speaks of a duration's length.
#[verifier::external_body]
fn whole_seconds(d: &std::time::Duration) -> (secs: u64) {
    d.as_secs()
}

/// A timestamp as stored: the decimal seconds since the epoch, or "0" when the
/// clock reads before the epoch.
pub fn timestamp_text(secs: Option<u64>) -> (s: String)
    ensures
        s@ == (match secs {
            Some(n) => decimal_digits(n as nat),
            None => "0"@,
        }),
{
    match secs {
        Some(n) => decimal_text(n),
        None => String::from_str("0"),
    }
}

/// The current time as a stored timestamp; always the decimal text of a number.
pub fn now_timestamp() -> (s: String)
    ensures
        exists|n: nat| s@ == decimal_digits(n),
{
    let now = system_time_now();
    let secs = match duration_since_epoch(&now) {
        Some(d) => Some(whole_seconds(&d)),
        None => None,
    };
    let s = timestamp_text(secs);
    proof {
        reveal_strlit("0");
        match secs {
            Some(n) => assert(s@ == decimal_digits(n as nat)),
            None => {
                assert(decimal_digits(0) =~= seq!['0']);
                assert(s@ == decimal_digits(0));
            },
        }
    }
    s
}

} // verus!
