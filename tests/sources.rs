use photo_archive_sync::sources::{
    list_groups, list_sources, ArchiveSource, ConnectionState, MountedPartition, RegisteredSource,
    RegistrationState,
};

fn registered(id: &str, name: &str, group: &str) -> RegisteredSource {
    RegisteredSource {
        id: id.to_string(),
        name: name.to_string(),
        group: group.to_string(),
        tags: vec![],
    }
}

fn mounted(id: &str, mount_point: &str) -> MountedPartition {
    MountedPartition { id: id.to_string(), mount_point: mount_point.to_string() }
}

fn is_connected_at(s: &ArchiveSource, at: &str) -> bool {
    matches!(&s.connection, ConnectionState::Connected { mount_point } if mount_point == at)
}

fn is_registered_as(s: &ArchiveSource, n: &str, g: &str) -> bool {
    matches!(&s.registration, RegistrationState::Registered { name, group } if name == n && group == g)
}

#[test]
fn unregistered_mount_and_disconnected_registration() {
    let result = list_sources(&vec![registered("A", "N1", "G1")], &vec![mounted("B", "/mnt/b")]);
    assert_eq!(result.len(), 2);
    assert_eq!(result[0].id, "B");
    assert!(matches!(result[0].registration, RegistrationState::Unregistered));
    assert!(is_connected_at(&result[0], "/mnt/b"));
    assert_eq!(result[1].id, "A");
    assert!(is_registered_as(&result[1], "N1", "G1"));
    assert!(matches!(result[1].connection, ConnectionState::Disconnected));
}

#[test]
fn duplicated_mount_id_is_listed_once_disconnected() {
    let result = list_sources(
        &vec![registered("A", "N1", "G1")],
        &vec![mounted("A", "/m1"), mounted("A", "/m2")],
    );
    assert_eq!(result.len(), 1);
    assert_eq!(result[0].id, "A");
    assert!(is_registered_as(&result[0], "N1", "G1"));
    assert!(matches!(result[0].connection, ConnectionState::Disconnected));
}

#[test]
fn duplicated_unregistered_mount_id_is_dropped() {
    let result = list_sources(&vec![], &vec![mounted("X", "/m1"), mounted("Y", "/m2"), mounted("X", "/m3")]);
    assert_eq!(result.len(), 1);
    assert_eq!(result[0].id, "Y");
    assert!(is_connected_at(&result[0], "/m2"));
}

#[test]
fn registered_and_mounted_source_is_connected() {
    let result = list_sources(
        &vec![registered("A", "N1", "G1"), registered("C", "N3", "G2")],
        &vec![mounted("C", "/mnt/c"), mounted("A", "/mnt/a")],
    );
    assert_eq!(result.len(), 2);
    assert_eq!(result[0].id, "C");
    assert!(is_registered_as(&result[0], "N3", "G2"));
    assert!(is_connected_at(&result[0], "/mnt/c"));
    assert_eq!(result[1].id, "A");
    assert!(is_registered_as(&result[1], "N1", "G1"));
    assert!(is_connected_at(&result[1], "/mnt/a"));
}

#[test]
fn ids_are_unique_with_repeated_inputs() {
    let result = list_sources(
        &vec![registered("A", "old", "G1"), registered("B", "N2", "G1"), registered("A", "new", "G2")],
        &vec![mounted("B", "/b1"), mounted("B", "/b2"), mounted("C", "/c")],
    );
    let ids: Vec<&str> = result.iter().map(|s| s.id.as_str()).collect();
    assert_eq!(ids, vec!["C", "B", "A"]);
    assert!(is_registered_as(&result[2], "new", "G2"));
    assert!(matches!(result[1].connection, ConnectionState::Disconnected));
}

#[test]
fn unmounted_registered_sources_are_disconnected() {
    let result = list_sources(
        &vec![registered("A", "N1", "G1"), registered("B", "N2", "G2")],
        &vec![],
    );
    assert_eq!(result.len(), 2);
    assert_eq!(result[0].id, "A");
    assert_eq!(result[1].id, "B");
    assert!(result.iter().all(|s| matches!(s.connection, ConnectionState::Disconnected)));
}

#[test]
fn nothing_registered_nothing_mounted() {
    assert!(list_sources(&vec![], &vec![]).is_empty());
}

#[test]
fn groups_are_distinct_with_root() {
    let mut groups = list_groups(&vec![
        registered("A", "N1", "G1"),
        registered("B", "N2", "G2"),
        registered("C", "N3", "G1"),
    ]);
    groups.sort();
    assert_eq!(groups, vec!["G1".to_string(), "G2".to_string(), "ROOT".to_string()]);
}

#[test]
fn groups_of_empty_store_is_root() {
    assert_eq!(list_groups(&vec![]), vec!["ROOT".to_string()]);
}

#[test]
fn root_group_is_not_repeated() {
    let mut groups = list_groups(&vec![registered("A", "N1", "ROOT"), registered("B", "N2", "G")]);
    groups.sort();
    assert_eq!(groups, vec!["G".to_string(), "ROOT".to_string()]);
}
