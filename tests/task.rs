use photo_archive_sync::config::{PhotoArchiveConfig, PhotoArchiveState};
use photo_archive_sync::error::PhotoArchiveError;
use photo_archive_sync::task::{
    check_target_dir, import_options, new_running_task, sync_options, task_id_for,
    ImportSourceArgs, SyncSource, SyncSourceArgs, TargetDirAction, TaskKind,
};

#[test]
fn missing_target_dir_is_created() {
    assert!(matches!(check_target_dir(false, false), Ok(TargetDirAction::Create)));
}

#[test]
fn existing_target_dir_is_used() {
    assert!(matches!(check_target_dir(true, true), Ok(TargetDirAction::UseExisting)));
}

#[test]
fn target_that_is_a_file_is_rejected() {
    match check_target_dir(true, false) {
        Err(e) => assert_eq!(e.message(), "Generic Error - Target path is not a directory"),
        Ok(_) => panic!("a file is no archive directory"),
    }
}

#[test]
fn error_message_carries_its_text() {
    assert_eq!(PhotoArchiveError::Generic("boom".to_string()).message(), "Generic Error - boom");
}

#[test]
fn task_ids_carry_their_kind() {
    assert_eq!(task_id_for(TaskKind::ImportSource, "abc"), "import-source-abc");
    assert_eq!(task_id_for(TaskKind::SyncSource, "xyz"), "sync-source-xyz");
}

#[test]
fn fresh_task_ids_are_prefixed_uuids_and_differ() {
    let a = new_running_task(TaskKind::SyncSource).task_id;
    let b = new_running_task(TaskKind::SyncSource).task_id;
    assert!(a.starts_with("sync-source-"));
    let unique = &a["sync-source-".len()..];
    assert_eq!(unique.len(), 36);
    for (i, c) in unique.chars().enumerate() {
        if [8, 13, 18, 23].contains(&i) {
            assert_eq!(c, '-');
        } else {
            assert!(c.is_ascii_digit() || ('a'..='f').contains(&c));
        }
    }
    assert_ne!(a, b);
    assert!(new_running_task(TaskKind::ImportSource).task_id.starts_with("import-source-"));
}

#[test]
fn import_options_register_a_new_source() {
    let opts = import_options(ImportSourceArgs {
        source_id: "id1".to_string(),
        source_name: "Card".to_string(),
        source_group: "G".to_string(),
        source_tags: vec!["t".to_string()],
    });
    assert!(opts.count_images);
    assert!(matches!(&opts.source, SyncSource::New { id, name, group, tags }
        if id == "id1" && name == "Card" && group == "G" && tags == &vec!["t".to_string()]));
}

#[test]
fn sync_options_name_an_existing_source() {
    let opts = sync_options(SyncSourceArgs { source_id: "id2".to_string() });
    assert!(opts.count_images);
    assert!(matches!(&opts.source, SyncSource::Existing { id } if id == "id2"));
}

#[test]
fn state_holds_the_configured_archive() {
    let config = PhotoArchiveConfig { archive_dir: "/data/photo-archive".to_string() };
    assert_eq!(PhotoArchiveState::from_config(&config).archive_path, "/data/photo-archive");
}
