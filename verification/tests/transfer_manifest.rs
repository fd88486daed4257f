use std::collections::HashMap;
use std::path::PathBuf;

use airsend::transfer::destination::{conflict_file_name, ResolveStage};
use airsend::transfer::manifest::{
    sort_entries_by_path, total_entry_bytes, walk_child, walk_selected, PathKind, WalkAction,
};
use airsend::platform::firewall::TargetPlatform;
use airsend::transfer::{
    chunk_plan_for_file, manifest_from_selection, resume_chunk_plan, safe_relative_destination_path,
    DestinationResolver, EntryState, RelativePath, ResolveStep, TransferEntry, TransferError,
    VerifiedChunk, DEFAULT_CHUNK_SIZE,
};

/// Outcome of resolving a name against a simulated destination directory.
#[derive(Debug, PartialEq)]
enum Outcome {
    Resolved(String),
    ParentIsSymlink(String),
    ParentNotDirectory(String),
}

fn text(p: &RelativePath) -> String {
    p.components.join("/")
}

fn resolve(name: &str, fs: &HashMap<&str, EntryState>) -> Result<Outcome, TransferError> {
    let (mut resolver, mut step) = DestinationResolver::start(name, TargetPlatform::Linux)?;
    loop {
        match step {
            ResolveStep::Inspect(path) => {
                let state = *fs.get(text(&path).as_str()).unwrap_or(&EntryState::Missing);
                step = resolver.observe(state);
            }
            ResolveStep::Resolved(path) => return Ok(Outcome::Resolved(text(&path))),
            ResolveStep::ParentIsSymlink(path) => return Ok(Outcome::ParentIsSymlink(text(&path))),
            ResolveStep::ParentNotDirectory(path) => return Ok(Outcome::ParentNotDirectory(text(&path))),
        }
    }
}

fn entry(relative: &[&str], size: u64) -> TransferEntry {
    TransferEntry {
        source_path: PathBuf::from(format!("/src/{}", relative.join("/"))),
        relative_path: RelativePath { components: relative.iter().map(|c| c.to_string()).collect() },
        size,
        blake3: None,
    }
}

#[test]
fn chunk_plan_splits_large_files_at_default_chunk_size() {
    let chunks = chunk_plan_for_file(0, DEFAULT_CHUNK_SIZE * 2 + 17, DEFAULT_CHUNK_SIZE);

    assert_eq!(chunks.len(), 3);
    assert_eq!(chunks[0].offset, 0);
    assert_eq!(chunks[0].length, DEFAULT_CHUNK_SIZE);
    assert_eq!(chunks[2].offset, DEFAULT_CHUNK_SIZE * 2);
    assert_eq!(chunks[2].length, 17);
}

#[test]
fn resume_chunk_plan_skips_verified_chunks() {
    let chunks = chunk_plan_for_file(3, DEFAULT_CHUNK_SIZE * 3, DEFAULT_CHUNK_SIZE);
    let pending = resume_chunk_plan(
        chunks,
        &[
            VerifiedChunk {
                file_index: 3,
                chunk_index: 0,
            },
            VerifiedChunk {
                file_index: 3,
                chunk_index: 2,
            },
        ],
    );

    assert_eq!(pending.len(), 1);
    assert_eq!(pending[0].chunk_index, 1);
}

#[test]
fn resume_chunk_plan_does_not_skip_same_chunk_index_for_other_files() {
    let chunks = chunk_plan_for_file(4, DEFAULT_CHUNK_SIZE * 2, DEFAULT_CHUNK_SIZE);
    let pending = resume_chunk_plan(
        chunks,
        &[VerifiedChunk {
            file_index: 3,
            chunk_index: 0,
        }],
    );

    assert_eq!(pending.len(), 2);
}

#[test]
fn destination_conflicts_append_numeric_suffix() {
    let fs = HashMap::from([("report.txt", EntryState::Other)]);

    let resolved = resolve("report.txt", &fs).expect("path should resolve");

    assert_eq!(resolved, Outcome::Resolved("report (1).txt".into()));
}

#[test]
fn nested_destination_conflicts_preserve_parent_directory() {
    let fs = HashMap::from([("dir", EntryState::Directory), ("dir/report.txt", EntryState::Other)]);

    let resolved = resolve("dir/report.txt", &fs).expect("path should resolve");

    assert_eq!(resolved, Outcome::Resolved("dir/report (1).txt".into()));
}

#[test]
fn destination_path_rejects_existing_file_as_parent() {
    let fs = HashMap::from([("dir", EntryState::Other)]);

    let outcome = resolve("dir/report.txt", &fs).expect("name is safe");

    assert_eq!(outcome, Outcome::ParentNotDirectory("dir".into()));
}

#[test]
fn destination_path_rejects_symlinked_parent_directories() {
    let fs = HashMap::from([("dir", EntryState::Symlink)]);

    let outcome = resolve("dir/report.txt", &fs).expect("name is safe");

    assert_eq!(outcome, Outcome::ParentIsSymlink("dir".into()));
}

#[test]
fn destination_path_rejects_traversal_and_absolute_paths() {
    assert!(safe_relative_destination_path("../evil.txt", TargetPlatform::Linux).is_err());
    assert!(safe_relative_destination_path("/tmp/evil.txt", TargetPlatform::Linux).is_err());
}

#[test]
fn safe_relative_paths_follow_unix_path_syntax() {
    let ok = |name: &str| text(&safe_relative_destination_path(name, TargetPlatform::Linux).expect("safe"));
    assert_eq!(ok("a//b/./c"), "a/b/c");
    assert_eq!(ok("a/b/"), "a/b");
    assert_eq!(ok("hello.txt"), "hello.txt");
    for bad in ["", ".", "./a", "a/..", "a/../b", "/", "//x", ".."] {
        match safe_relative_destination_path(bad, TargetPlatform::Linux) {
            Err(TransferError::UnsafeDestination(name)) => assert_eq!(name, bad),
            other => panic!("{bad:?} gave {other:?}"),
        }
    }
}

#[test]
fn conflict_names_keep_the_extension() {
    assert_eq!(conflict_file_name(&"report.txt".to_string(), 1), "report (1).txt");
    assert_eq!(conflict_file_name(&"archive.tar.gz".to_string(), 2), "archive.tar (2).gz");
    assert_eq!(conflict_file_name(&".bashrc".to_string(), 3), ".bashrc (3)");
    assert_eq!(conflict_file_name(&"noext".to_string(), 10), "noext (10)");
    assert_eq!(conflict_file_name(&"foo.".to_string(), 1), "foo (1).");
}

#[test]
fn resolver_walks_parents_then_numbered_names() {
    let fs = HashMap::from([
        ("a", EntryState::Directory),
        ("a/b", EntryState::Directory),
        ("a/b/x.txt", EntryState::Other),
        ("a/b/x (1).txt", EntryState::Other),
        ("a/b/x (2).txt", EntryState::Directory),
    ]);
    assert_eq!(resolve("a/b/x.txt", &fs).unwrap(), Outcome::Resolved("a/b/x (3).txt".into()));
    assert_eq!(resolve("fresh.txt", &fs).unwrap(), Outcome::Resolved("fresh.txt".into()));
    let (resolver, _) = DestinationResolver::start("a/b/c", TargetPlatform::Linux).unwrap();
    assert_eq!(resolver.stage(), ResolveStage::Parent(0));
}

#[test]
fn manifest_of_an_empty_selection_is_refused() {
    assert!(matches!(manifest_from_selection(Vec::new(), Vec::new()), Err(TransferError::EmptySelection)));
}

#[test]
fn manifest_sorts_entries_by_relative_path_and_sums_sizes() {
    let entries = vec![
        entry(&["album", "nested", "song.txt"], 4),
        entry(&["album", "cover.txt"], 5),
        entry(&["Zeta"], 1),
        entry(&["album"], 2),
    ];
    let manifest = manifest_from_selection(vec![PathBuf::from("/src/album")], entries).expect("manifest");
    let order: Vec<String> = manifest.entries.iter().map(|e| text(&e.relative_path)).collect();
    assert_eq!(order, vec!["Zeta", "album", "album/cover.txt", "album/nested/song.txt"]);
    assert_eq!(manifest.total_bytes, 12);
    assert_eq!(manifest.chunk_size, DEFAULT_CHUNK_SIZE);
    assert_eq!(manifest.parallel_workers, 4);
    assert_eq!(manifest.transfer_id.len(), 36);
    assert!(is_random_uuid_text(&manifest.transfer_id));
}

#[test]
fn sorting_is_stable_for_equal_paths() {
    let mut first = entry(&["same.txt"], 1);
    first.source_path = PathBuf::from("/one/same.txt");
    let mut second = entry(&["same.txt"], 2);
    second.source_path = PathBuf::from("/two/same.txt");
    let sorted = sort_entries_by_path(vec![entry(&["z"], 0), first, second]);
    assert_eq!(sorted[0].source_path, PathBuf::from("/one/same.txt"));
    assert_eq!(sorted[1].source_path, PathBuf::from("/two/same.txt"));
    assert_eq!(text(&sorted[2].relative_path), "z");
}

#[test]
fn total_entry_bytes_reports_overflow() {
    assert_eq!(total_entry_bytes(&vec![entry(&["a"], u64::MAX), entry(&["b"], 1)]), None);
    assert_eq!(total_entry_bytes(&vec![entry(&["a"], u64::MAX - 1), entry(&["b"], 1)]), Some(u64::MAX));
}

#[test]
fn chunk_plan_edge_cases() {
    assert!(chunk_plan_for_file(0, 0, 10).is_empty());
    assert!(chunk_plan_for_file(0, 10, 0).is_empty());
    let exact = chunk_plan_for_file(2, 30, 10);
    assert_eq!(exact.len(), 3);
    assert_eq!(exact[2].offset, 20);
    assert_eq!(exact[2].length, 10);
    assert!(exact.iter().all(|c| c.file_index == 2));
    let total: u64 = chunk_plan_for_file(1, 1_000_003, 4096).iter().map(|c| c.length).sum();
    assert_eq!(total, 1_000_003);
    let big = chunk_plan_for_file(0, u64::MAX, u64::MAX / 2);
    assert_eq!(big.len(), 3);
    assert_eq!(big[2].length, 1);
}

#[test]
fn resume_with_nothing_verified_keeps_the_plan() {
    let chunks = chunk_plan_for_file(1, 25, 10);
    let pending = resume_chunk_plan(chunks.clone(), &[]);
    assert_eq!(pending, chunks);
    let once = resume_chunk_plan(chunks.clone(), &[VerifiedChunk { file_index: 1, chunk_index: 1 }]);
    let twice = resume_chunk_plan(once.clone(), &[VerifiedChunk { file_index: 1, chunk_index: 1 }]);
    assert_eq!(once, twice);
    assert_eq!(once.iter().map(|c| c.chunk_index).collect::<Vec<_>>(), vec![0, 2]);
}

#[test]
fn walking_refuses_links_and_names_files_by_their_folder() {
    match walk_selected(PathBuf::from("/x/link"), Some("link".into()), PathKind::Symlink) {
        Err(TransferError::UnsupportedSymlink(p)) => assert_eq!(p, PathBuf::from("/x/link")),
        other => panic!("unexpected {other:?}"),
    }
    match walk_selected(PathBuf::from("/"), None, PathKind::Directory) {
        Err(TransferError::InvalidFileName(p)) => assert_eq!(p, PathBuf::from("/")),
        other => panic!("unexpected {other:?}"),
    }
    let album = match walk_selected(PathBuf::from("/x/album"), Some("album".into()), PathKind::Directory) {
        Ok(WalkAction::Descend { dir, relative }) => {
            assert_eq!(dir, PathBuf::from("/x/album"));
            relative
        }
        other => panic!("unexpected {other:?}"),
    };
    match walk_child(&album, PathBuf::from("/x/album/cover.txt"), "cover.txt".into(), PathKind::File(5)) {
        Ok(WalkAction::AddFile(e)) => {
            assert_eq!(text(&e.relative_path), "album/cover.txt");
            assert_eq!(e.size, 5);
            assert_eq!(e.source_path, PathBuf::from("/x/album/cover.txt"));
        }
        other => panic!("unexpected {other:?}"),
    }
    assert!(matches!(
        walk_child(&album, PathBuf::from("/x/album/sock"), "sock".into(), PathKind::Other),
        Ok(WalkAction::Skip)
    ));
    assert!(matches!(
        walk_child(&album, PathBuf::from("/x/album/l"), "l".into(), PathKind::Symlink),
        Err(TransferError::UnsupportedSymlink(_))
    ));
    match walk_selected(PathBuf::from("/x/song.txt"), Some("song.txt".into()), PathKind::File(4)) {
        Ok(WalkAction::AddFile(e)) => assert_eq!(text(&e.relative_path), "song.txt"),
        other => panic!("unexpected {other:?}"),
    }
}

#[test]
fn accepted_destinations_are_plain_names() {
    for name in ["a/b/c.txt", "x", "deep//er/./file"] {
        let path = safe_relative_destination_path(name, TargetPlatform::Linux).expect("safe");
        assert!(!path.components.is_empty());
        for c in &path.components {
            assert!(!c.is_empty() && c != "." && c != ".." && !c.contains('/'));
        }
    }
}

fn is_random_uuid_text(s: &str) -> bool {
    let c: Vec<char> = s.chars().collect();
    c.len() == 36
        && c.iter().enumerate().all(|(i, ch)| {
            if i == 8 || i == 13 || i == 18 || i == 23 {
                *ch == '-'
            } else {
                ch.is_ascii_digit() || ('a'..='f').contains(ch)
            }
        })
        && c[14] == '4'
        && matches!(c[19], '8' | '9' | 'a' | 'b')
}

#[test]
fn windows_destinations_refuse_backslash_traversal_and_drive_prefixes() {
    let w = TargetPlatform::Windows;
    for bad in ["..\\evil.txt", "C:\\x", "C:x", "c:/x", "\\\\server\\share\\x", "\\x", "a\\..\\b", ".\\a"] {
        match safe_relative_destination_path(bad, w) {
            Err(TransferError::UnsafeDestination(name)) => assert_eq!(name, bad),
            other => panic!("{bad:?} gave {other:?}"),
        }
        assert!(matches!(DestinationResolver::start(bad, w), Err(TransferError::UnsafeDestination(_))));
    }
    let ok = |name: &str| safe_relative_destination_path(name, w).expect("safe").components;
    assert_eq!(ok("a\\b/c.txt"), vec!["a", "b", "c.txt"]);
    assert_eq!(ok("dir\\.\\file"), vec!["dir", "file"]);
    assert_eq!(ok("1:x"), vec!["1:x"]);
    assert_eq!(ok("a/C:x"), vec!["a", "C:x"]);
}

#[test]
fn unix_destinations_keep_backslashes_inside_names() {
    let ok = |name: &str| safe_relative_destination_path(name, TargetPlatform::Linux).expect("safe").components;
    assert_eq!(ok("..\\evil.txt"), vec!["..\\evil.txt"]);
    assert_eq!(ok("C:\\x"), vec!["C:\\x"]);
    assert!(safe_relative_destination_path("../evil.txt", TargetPlatform::MacOs).is_err());
}

#[test]
fn header_paths_are_read_back_on_every_platform() {
    let path = RelativePath { components: vec!["album".to_string(), "nested".to_string(), "song.txt".to_string()] };
    let wire = airsend::transfer::tcp::relative_path_text(&path);
    assert_eq!(wire, "album/nested/song.txt");
    for platform in [TargetPlatform::Linux, TargetPlatform::MacOs, TargetPlatform::Windows, TargetPlatform::Other] {
        assert_eq!(safe_relative_destination_path(&wire, platform).expect("safe").components, path.components);
    }
}
