use std::collections::HashMap;
use std::path::PathBuf;

use airsend::transfer::tcp::{
    header_entry, incoming_header_length, outgoing_header_length, ReceiveSession, TcpTransferError,
    TransferHeaderEntry, MAX_HEADER_BYTES,
};
use airsend::platform::firewall::TargetPlatform;
use airsend::transfer::{DestinationResolver, EntryState, RelativePath, ResolveStep, TransferEntry};

#[test]
fn receiver_destination_resolution_is_used_before_write() {
    let fs = HashMap::from([("hello.txt", EntryState::Other)]);
    let (mut resolver, mut step) = DestinationResolver::start("hello.txt", TargetPlatform::Linux).expect("safe name");
    let resolved = loop {
        match step {
            ResolveStep::Inspect(path) => {
                let key = path.components.join("/");
                step = resolver.observe(*fs.get(key.as_str()).unwrap_or(&EntryState::Missing));
            }
            ResolveStep::Resolved(path) => break path.components.join("/"),
            other => panic!("unexpected {other:?}"),
        }
    };

    assert_eq!(resolved, "hello (1).txt");
}

#[test]
fn header_entry_names_the_file_and_its_digest() {
    let entry = TransferEntry {
        source_path: PathBuf::from("/tmp/hello.txt"),
        relative_path: RelativePath { components: vec!["dir".into(), "hello.txt".into()] },
        size: 20,
        blake3: None,
    };
    let header = header_entry(&entry, b"hello over local tcp");
    assert_eq!(header.relative_path, "dir/hello.txt");
    assert_eq!(header.size, 20);
    assert_eq!(header.blake3, blake3::hash(b"hello over local tcp").to_hex().to_string());
}

#[test]
fn header_lengths_are_capped() {
    assert!(matches!(outgoing_header_length(16 * 1024 * 1024), Ok(n) if n == MAX_HEADER_BYTES));
    assert!(matches!(outgoing_header_length(16 * 1024 * 1024 + 1), Err(TcpTransferError::HeaderTooLarge(n)) if n == 16 * 1024 * 1024 + 1));
    assert!(matches!(incoming_header_length(12), Ok(12)));
    assert!(matches!(incoming_header_length(MAX_HEADER_BYTES + 1), Err(TcpTransferError::HeaderTooLarge(_))));
}

#[test]
fn receive_session_counts_verified_files_and_bytes() {
    let data = b"hello over local tcp";
    let entry = TransferHeaderEntry {
        relative_path: "hello.txt".into(),
        size: data.len() as u64,
        blake3: blake3::hash(data).to_hex().to_string(),
    };
    let mut session = ReceiveSession::new();
    session.begin_entry(entry.size);
    while session.remaining() > 0 {
        let n = session.next_read_len(8);
        let offset = data.len() - session.remaining() as usize;
        assert!(session.can_count(n));
        session.record_bytes(&data[offset..offset + n]);
    }
    session.finish_entry(&entry).expect("digest matches");
    let summary = session.summary();
    assert_eq!(summary.files_written, 1);
    assert_eq!(summary.total_bytes, 20);
}

#[test]
fn receive_session_refuses_a_digest_mismatch() {
    let entry = TransferHeaderEntry { relative_path: "a.bin".into(), size: 3, blake3: "00".into() };
    let mut session = ReceiveSession::new();
    session.begin_entry(3);
    session.record_bytes(b"abc");
    match session.finish_entry(&entry) {
        Err(TcpTransferError::DigestMismatch { path, expected, actual }) => {
            assert_eq!(path, "a.bin");
            assert_eq!(expected, "00");
            assert_eq!(actual, blake3::hash(b"abc").to_hex().to_string());
        }
        other => panic!("unexpected {other:?}"),
    }
    assert_eq!(session.summary().files_written, 0);
    assert_eq!(session.summary().total_bytes, 3);
}
