use focusflow::schema::{AppliedMigration, MigrationStep, SchemaState, CURRENT_VERSION};

fn record(version: i32, applied_at: i64) -> MigrationStep {
    MigrationStep::Record(AppliedMigration { version, applied_at })
}

#[test]
fn a_new_store_gets_every_step() {
    let mut s = SchemaState::empty();
    assert!(s.is_consistent());
    assert!(!s.is_current());
    let steps = s.migrate_at(77);
    assert_eq!(
        steps,
        vec![
            MigrationStep::CreateVersionTable,
            MigrationStep::CreateBaseTables,
            record(1, 77),
            MigrationStep::CreateSubtasks,
            MigrationStep::AddIsArchived,
            MigrationStep::AddSortOrder,
            record(2, 77),
        ]
    );
    assert!(s.is_current());
    assert_eq!(s.current_version(), CURRENT_VERSION);
    assert!(s.has_version_table && s.has_base_tables && s.has_subtasks);
    assert!(s.has_is_archived && s.has_sort_order);
}

#[test]
fn a_store_from_before_versions_keeps_its_tables() {
    let mut s = SchemaState::empty();
    s.has_base_tables = true;
    assert!(s.is_consistent());
    let steps = s.migrate_at(5);
    assert!(!steps.contains(&MigrationStep::CreateBaseTables));
    assert_eq!(
        steps,
        vec![
            MigrationStep::CreateVersionTable,
            record(1, 5),
            MigrationStep::CreateSubtasks,
            MigrationStep::AddIsArchived,
            MigrationStep::AddSortOrder,
            record(2, 5),
        ]
    );
    assert_eq!(s.applied.iter().filter(|r| r.version == CURRENT_VERSION).count(), 1);
    assert_eq!(s.applied.iter().filter(|r| r.version == 1).count(), 1);
    assert_eq!(s.current_version(), CURRENT_VERSION);
}

#[test]
fn migrating_twice_changes_nothing_the_second_time() {
    let mut s = SchemaState::empty();
    s.migrate_at(1);
    let applied = s.applied.clone();
    let again = s.migrate_at(2);
    assert!(again.is_empty());
    assert_eq!(s.applied, applied);
    assert!(s.is_current());
    let now = s.migrate();
    assert!(now.is_empty());
    assert_eq!(s.applied, applied);
}

#[test]
fn a_store_at_version_one_gets_only_the_second_migration() {
    let mut s = SchemaState::empty();
    s.has_version_table = true;
    s.has_base_tables = true;
    s.applied.push(AppliedMigration { version: 1, applied_at: 10 });
    assert!(s.is_consistent());
    assert_eq!(s.current_version(), 1);
    let steps = s.migrate_at(20);
    assert_eq!(
        steps,
        vec![
            MigrationStep::CreateSubtasks,
            MigrationStep::AddIsArchived,
            MigrationStep::AddSortOrder,
            record(2, 20),
        ]
    );
    assert_eq!(
        s.applied,
        vec![
            AppliedMigration { version: 1, applied_at: 10 },
            AppliedMigration { version: 2, applied_at: 20 },
        ]
    );
}

#[test]
fn columns_that_are_there_are_not_added_again() {
    let mut s = SchemaState::empty();
    s.has_version_table = true;
    s.has_base_tables = true;
    s.has_is_archived = true;
    s.has_subtasks = true;
    s.applied.push(AppliedMigration { version: 1, applied_at: 10 });
    let steps = s.migrate_at(20);
    assert_eq!(steps, vec![MigrationStep::AddSortOrder, record(2, 20)]);
}

#[test]
fn a_store_from_a_later_version_is_left_alone() {
    let mut s = SchemaState::empty();
    s.has_version_table = true;
    s.has_base_tables = true;
    s.has_subtasks = true;
    s.has_is_archived = true;
    s.has_sort_order = true;
    s.applied.push(AppliedMigration { version: 7, applied_at: 10 });
    assert!(s.is_consistent());
    assert!(s.is_current());
    assert!(s.migrate_at(20).is_empty());
    assert_eq!(s.applied.len(), 1);
}

#[test]
fn the_highest_recorded_version_counts_whatever_the_order() {
    let mut s = SchemaState::empty();
    s.has_version_table = true;
    s.has_base_tables = true;
    s.has_subtasks = true;
    s.has_is_archived = true;
    s.has_sort_order = true;
    s.applied.push(AppliedMigration { version: 2, applied_at: 10 });
    s.applied.push(AppliedMigration { version: 1, applied_at: 11 });
    assert_eq!(s.current_version(), 2);
    assert!(s.is_current());
}

#[test]
fn inconsistent_descriptions_are_recognised() {
    let mut s = SchemaState::empty();
    s.has_is_archived = true;
    assert!(!s.is_consistent());
    let mut s = SchemaState::empty();
    s.applied.push(AppliedMigration { version: 1, applied_at: 10 });
    assert!(!s.is_consistent());
    let mut s = SchemaState::empty();
    s.has_version_table = true;
    s.applied.push(AppliedMigration { version: 1, applied_at: 10 });
    assert!(!s.is_consistent());
    let mut s = SchemaState::empty();
    s.has_version_table = true;
    s.has_base_tables = true;
    s.applied.push(AppliedMigration { version: 2, applied_at: 10 });
    assert!(!s.is_consistent());
}
