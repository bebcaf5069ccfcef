use game_updater::manifest::{read_delete_list, read_patch_list};
use game_updater::paths::{ends_with, file_name, hdiff_name, is_merge_skipped, sanitize_entry_path};
use game_updater::stages::{commit_patch, finish_package, merge, patch_applies, process_deletions};
use game_updater::tree::Tree;

#[test]
fn test_tree_basics() {
    let mut t = Tree::new();
    assert_eq!(t.len(), 0);
    t.insert(b"a/b".to_vec(), b"one".to_vec());
    t.insert(b"c".to_vec(), b"two".to_vec());
    assert_eq!(t.len(), 2);
    assert!(t.contains(b"a/b".as_slice()));
    assert_eq!(t.get(b"a/b".as_slice()), Some(&b"one".to_vec()));
    // Overwriting keeps one entry per path.
    t.insert(b"a/b".to_vec(), b"three".to_vec());
    assert_eq!(t.len(), 2);
    assert_eq!(t.get(b"a/b".as_slice()), Some(&b"three".to_vec()));
    t.remove(b"a/b".as_slice());
    assert_eq!(t.get(b"a/b".as_slice()), None);
    assert_eq!(t.len(), 1);
}

#[test]
fn test_deletion_idempotence() {
    // Two passes over the same delete list: the second finds every target
    // already absent and succeeds with no change.
    let mut install = Tree::new();
    install.insert(b"old/stale.dat".to_vec(), b"junk".to_vec());
    install.insert(b"keep.bin".to_vec(), b"data".to_vec());
    let deletes = vec![b"old/stale.dat".to_vec(), b"missing.txt".to_vec()];
    process_deletions(&mut install, &deletes);
    assert!(!install.contains(b"old/stale.dat".as_slice()));
    assert!(install.contains(b"keep.bin".as_slice()));
    assert_eq!(install.len(), 1);
    process_deletions(&mut install, &deletes);
    assert!(install.contains(b"keep.bin".as_slice()));
    assert_eq!(install.get(b"keep.bin".as_slice()), Some(&b"data".to_vec()));
    assert_eq!(install.len(), 1);
}

#[test]
fn test_merge_overwrite() {
    // Merging a scratch tree holding assets/x.bin over an install tree that
    // already has a different assets/x.bin leaves the scratch bytes.
    let mut install = Tree::new();
    install.insert(b"assets/x.bin".to_vec(), b"old contents".to_vec());
    let mut scratch = Tree::new();
    scratch.insert(b"assets/x.bin".to_vec(), b"new contents".to_vec());
    merge(&mut install, &scratch);
    assert_eq!(install.get(b"assets/x.bin".as_slice()), Some(&b"new contents".to_vec()));
    assert_eq!(install.len(), 1);
}

#[test]
fn test_merge_skips_control_files() {
    let mut install = Tree::new();
    let mut scratch = Tree::new();
    scratch.insert(b"hdifffiles.txt".to_vec(), b"{}".to_vec());
    scratch.insert(b"deletefiles.txt".to_vec(), b"x".to_vec());
    scratch.insert(b"data/a.pak.hdiff".to_vec(), b"diff".to_vec());
    scratch.insert(b"data/b.pak".to_vec(), b"fresh".to_vec());
    merge(&mut install, &scratch);
    assert_eq!(install.len(), 1);
    assert_eq!(install.get(b"data/b.pak".as_slice()), Some(&b"fresh".to_vec()));
}

#[test]
fn test_merge_filter() {
    assert!(is_merge_skipped(b"hdifffiles.txt".as_slice()));
    assert!(is_merge_skipped(b"sub/dir/hdifffiles.txt".as_slice()));
    assert!(is_merge_skipped(b"deletefiles.txt".as_slice()));
    assert!(is_merge_skipped(b"data/a.pak.hdiff".as_slice()));
    assert!(!is_merge_skipped(b"data/a.pak".as_slice()));
    assert!(!is_merge_skipped(b"xhdifffiles.txt".as_slice()));
    assert!(!is_merge_skipped(b"data/hdiff".as_slice()));
}

#[test]
fn test_path_helpers() {
    assert_eq!(
        file_name(b"http://example.com/downloads/game_4.6.zip".as_slice()),
        b"game_4.6.zip".to_vec()
    );
    assert_eq!(file_name(b"plain.zip".as_slice()), b"plain.zip".to_vec());
    assert_eq!(hdiff_name(b"data/a.pak".as_slice()), b"data/a.pak.hdiff".to_vec());
    assert!(ends_with(b"data/a.pak.hdiff".as_slice(), b".hdiff".as_slice()));
    assert!(!ends_with(b"hdiff".as_slice(), b".hdiff".as_slice()));
}

#[test]
fn test_sanitize_entry_path() {
    assert_eq!(sanitize_entry_path(b"data/a.pak".as_slice()), Some(b"data/a.pak".to_vec()));
    assert_eq!(sanitize_entry_path(b"./a//b\\c".as_slice()), Some(b"a/b/c".to_vec()));
    assert_eq!(sanitize_entry_path(b"/rooted/file".as_slice()), Some(b"rooted/file".to_vec()));
    // Traversal, drive letters and empty results are rejected.
    assert_eq!(sanitize_entry_path(b"a/../b".as_slice()), None);
    assert_eq!(sanitize_entry_path(b"..".as_slice()), None);
    assert_eq!(sanitize_entry_path(b"C:\\evil".as_slice()), None);
    assert_eq!(sanitize_entry_path(b"".as_slice()), None);
    assert_eq!(sanitize_entry_path(b"././".as_slice()), None);
}

#[test]
fn test_end_to_end_package() {
    // The scratch tree as extraction leaves it: a patch list naming
    // data/a.pak, the diff blob beside it, a delete list naming
    // old/stale.dat, and a plain new file data/b.pak.
    let mut scratch = Tree::new();
    scratch.insert(
        b"hdifffiles.txt".to_vec(),
        b"{\"remoteName\": \"data/a.pak\"}\n".to_vec(),
    );
    scratch.insert(b"data/a.pak.hdiff".to_vec(), b"<diff>".to_vec());
    scratch.insert(b"deletefiles.txt".to_vec(), b"old/stale.dat\n".to_vec());
    scratch.insert(b"data/b.pak".to_vec(), b"brand new".to_vec());

    let mut install = Tree::new();
    install.insert(b"data/a.pak".to_vec(), b"v1 bytes".to_vec());
    install.insert(b"old/stale.dat".to_vec(), b"stale".to_vec());

    // Patch stage: one entry, whose target exists; the external diff
    // capability is stood in for by concatenation.
    let patch_names = read_patch_list(scratch.get(b"hdifffiles.txt".as_slice()).unwrap());
    assert_eq!(patch_names, vec![b"data/a.pak".to_vec()]);
    for name in &patch_names {
        assert!(patch_applies(&install, name));
        let mut patched = install.get(name.as_slice()).unwrap().clone();
        patched.extend_from_slice(b"+patched");
        commit_patch(&mut scratch, name.as_slice(), patched);
    }
    // The consumed diff blob is gone at once.
    assert!(!scratch.contains(b"data/a.pak.hdiff".as_slice()));

    // Deletion and merge stages, consuming the control files; then cleanup.
    finish_package(&mut install, &mut scratch);
    scratch.clear();

    assert_eq!(
        install.get(b"data/a.pak".as_slice()),
        Some(&b"v1 bytes+patched".to_vec())
    );
    assert!(!install.contains(b"old/stale.dat".as_slice()));
    assert_eq!(install.get(b"data/b.pak".as_slice()), Some(&b"brand new".to_vec()));
    assert!(!install.contains(b"hdifffiles.txt".as_slice()));
    assert!(!install.contains(b"deletefiles.txt".as_slice()));
    assert!(!install.contains(b"data/a.pak.hdiff".as_slice()));
    assert_eq!(install.len(), 2);
    assert_eq!(scratch.len(), 0);
}

#[test]
fn test_patch_skips_missing_target() {
    // A missing patch target is skipped with a warning, not fatal.
    let install = Tree::new();
    assert!(!patch_applies(&install, b"data/gone.pak".as_slice()));
}

#[test]
fn test_finish_package_without_control_files() {
    // Absence of either control file is not an error: the stages simply
    // contribute zero entries.
    let mut install = Tree::new();
    install.insert(b"data/a.pak".to_vec(), b"old".to_vec());
    let mut scratch = Tree::new();
    scratch.insert(b"data/c.pak".to_vec(), b"added".to_vec());
    finish_package(&mut install, &mut scratch);
    assert_eq!(install.get(b"data/a.pak".as_slice()), Some(&b"old".to_vec()));
    assert_eq!(install.get(b"data/c.pak".as_slice()), Some(&b"added".to_vec()));
    assert_eq!(install.len(), 2);
}
