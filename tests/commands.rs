use commits::debugscmstore::{
    self, check_key_source, file_fetch_passes, parse_mode, tree_fetch_attributes, FetchType,
    FileAttributes, TreeAttributes,
};
use commits::debugscmstorereplay;
use commits::test_manifest::{TestManifestDirectory, TestManifestEntry, TestManifestId};

#[test]
fn scmstore_command_metadata() {
    assert_eq!(debugscmstore::aliases(), "debugscmstore");
    assert_eq!(debugscmstore::doc(), "test file and tree fetching using scmstore");
    assert_eq!(debugscmstore::synopsis(), None);
    assert!(debugscmstore::enable_cas());
}

#[test]
fn replay_command_metadata() {
    assert_eq!(debugscmstorereplay::aliases(), "debugscmstorereplay");
    assert_eq!(debugscmstorereplay::doc(), "replay scmstore activity log");
    assert_eq!(debugscmstorereplay::synopsis(), None);
    assert!(!debugscmstorereplay::enable_cas());
}

#[test]
fn mode_parsing() {
    assert_eq!(parse_mode(&"file".to_string()), Ok(FetchType::File));
    assert_eq!(parse_mode(&"tree".to_string()), Ok(FetchType::Tree));
    assert_eq!(
        parse_mode(&"blob".to_string()),
        Err("'mode' must be one of 'file' or 'tree'".to_string())
    );
}

#[test]
fn key_source_must_be_exactly_one() {
    assert!(check_key_source(true, false).is_ok());
    assert!(check_key_source(false, true).is_ok());
    assert_eq!(
        check_key_source(true, true),
        Err("must specify exactly one of --rev or --path".to_string())
    );
    assert!(check_key_source(false, false).is_err());
}

#[test]
fn file_passes() {
    let p = file_fetch_passes(false, false);
    assert_eq!(p.len(), 3);
    assert_eq!(p[0], FileAttributes { pure_content: true, content_header: true, aux_data: true });
    assert_eq!(p[1], FileAttributes { pure_content: true, content_header: true, aux_data: false });
    assert_eq!(p[2], FileAttributes { pure_content: false, content_header: false, aux_data: true });
    let p = file_fetch_passes(false, true);
    assert_eq!(p[0], FileAttributes { pure_content: true, content_header: false, aux_data: true });
    assert_eq!(p[1], FileAttributes { pure_content: true, content_header: false, aux_data: false });
    let p = file_fetch_passes(true, false);
    assert_eq!(p, vec![FileAttributes { pure_content: false, content_header: false, aux_data: true }]);
}

#[test]
fn tree_attributes() {
    assert_eq!(
        tree_fetch_attributes(true, false),
        TreeAttributes { content: false, parents: false, aux_data: true }
    );
    assert_eq!(
        tree_fetch_attributes(false, true),
        TreeAttributes { content: true, parents: true, aux_data: false }
    );
}

#[test]
fn manifest_entries() {
    let dir = TestManifestDirectory { id: TestManifestId { hash: [7u8; 32] }, max_basename_length: 12 };
    let e = TestManifestEntry::Directory(dir.clone());
    assert_eq!(e, TestManifestEntry::Directory(dir));
    assert_ne!(e, TestManifestEntry::File);
}
