//! Bringing a store from whatever layout it has to the current one.
//!
//! The migrator does not touch the store. It is told what the store holds
//! ([`SchemaState`]), decides which steps are missing, and hands them out in
//! the order in which they are to be carried out.

use crate::calendar::now_millis;
use vstd::prelude::*;

verus! {

/// The layout that the store has once every migration is applied.
pub const CURRENT_VERSION: i32 = 2;

/// A row of the version table: a migration that was applied, and when.
#[derive(Debug, Clone, Copy, PartialEq, Eq, Structural)]
pub struct AppliedMigration {
    pub version: i32,
    pub applied_at: i64,
}

/// One step of a migration.
#[derive(Debug, Clone, Copy, PartialEq, Eq, Structural)]
pub enum MigrationStep {
    /// Create the table that records the versions applied.
    CreateVersionTable,
    /// Create the tables of projects, tasks, focus sessions and settings.
    CreateBaseTables,
    /// Create the table of subtasks and its index.
    CreateSubtasks,
    /// Add the archive flag to the tasks, false for every task there is.
    AddIsArchived,
    /// Add the manual ordering key to the tasks, 0 for every task there is.
    AddSortOrder,
    /// Record that a version is now applied.
    Record(AppliedMigration),
}

/// What the migrator is told of a store.
#[derive(Debug, PartialEq, Eq)]
pub struct SchemaState {
    /// Whether the table that records versions is there.
    pub has_version_table: bool,
    /// The rows of that table, oldest first.
    pub applied: Vec<AppliedMigration>,
    /// Whether the tables of projects, tasks, focus sessions and settings
    /// are there.
    pub has_base_tables: bool,
    /// Whether the table of subtasks is there.
    pub has_subtasks: bool,
    /// Whether the tasks have their archive flag.
    pub has_is_archived: bool,
    /// Whether the tasks have their manual ordering key.
    pub has_sort_order: bool,
}

/// What a [`SchemaState`] holds.
pub struct SchemaView {
    pub has_version_table: bool,
    pub applied: Seq<AppliedMigration>,
    pub has_base_tables: bool,
    pub has_subtasks: bool,
    pub has_is_archived: bool,
    pub has_sort_order: bool,
}

impl View for SchemaState {
    type V = SchemaView;

    open spec fn view(&self) -> SchemaView {
        SchemaView {
            has_version_table: self.has_version_table,
            applied: self.applied@,
            has_base_tables: self.has_base_tables,
            has_subtasks: self.has_subtasks,
            has_is_archived: self.has_is_archived,
            has_sort_order: self.has_sort_order,
        }
    }
}

/// The highest version among rows of the version table; 0 for none.
pub open spec fn highest_version(applied: Seq<AppliedMigration>) -> int
    decreases applied.len(),
{
    if applied.len() == 0 {
        0
    } else {
        let rest = highest_version(applied.drop_last());
        if applied.last().version > rest {
            applied.last().version as int
        } else {
            rest
        }
    }
}

/// How many rows of the version table record the given version.
pub open spec fn times_recorded(applied: Seq<AppliedMigration>, version: int) -> nat
    decreases applied.len(),
{
    if applied.len() == 0 {
        0
    } else {
        times_recorded(applied.drop_last(), version) + if applied.last().version == version {
            1nat
        } else {
            0nat
        }
    }
}

/// The step, where it is needed; nothing, where it is not.
pub open spec fn step_if(needed: bool, step: MigrationStep) -> Seq<MigrationStep> {
    if needed {
        seq![step]
    } else {
        Seq::empty()
    }
}

impl SchemaView {
    /// The version of the store: the highest one recorded, 0 for a store
    /// that records none.
    pub open spec fn version(self) -> int {
        highest_version(self.applied)
    }

    /// The parts fit together: versions are recorded only in a version
    /// table, columns of the tasks exist only with the tasks, and a store
    /// that records a version has the tables that the version brought.
    pub open spec fn wf(self) -> bool {
        &&& self.applied.len() > 0 ==> self.has_version_table
        &&& self.has_is_archived ==> self.has_base_tables
        &&& self.has_sort_order ==> self.has_base_tables
        &&& self.version() >= 1 ==> self.has_base_tables
        &&& self.version() >= 2 ==> self.has_subtasks && self.has_is_archived
            && self.has_sort_order
    }

    /// Every migration is applied.
    pub open spec fn is_current(self) -> bool {
        &&& self.has_version_table
        &&& self.version() >= CURRENT_VERSION
    }

    /// The steps that bring the store to the current layout at the instant
    /// `now`, in the order in which they are to be carried out. A store
    /// that has its base tables but records no version keeps them: only the
    /// version is recorded.
    pub open spec fn plan(self, now: i64) -> Seq<MigrationStep> {
        let one = MigrationStep::Record(AppliedMigration { version: 1, applied_at: now });
        let two = MigrationStep::Record(AppliedMigration { version: 2, applied_at: now });
        step_if(!self.has_version_table, MigrationStep::CreateVersionTable) + step_if(
            self.version() < 1 && !self.has_base_tables,
            MigrationStep::CreateBaseTables,
        ) + step_if(self.version() < 1, one) + step_if(
            self.version() < 2 && !self.has_subtasks,
            MigrationStep::CreateSubtasks,
        ) + step_if(self.version() < 2 && !self.has_is_archived, MigrationStep::AddIsArchived)
            + step_if(self.version() < 2 && !self.has_sort_order, MigrationStep::AddSortOrder)
            + step_if(self.version() < 2, two)
    }

    /// The rows that a migration at the instant `now` adds to the version
    /// table: one for each version from 1 to the current one that is above
    /// the store's, in ascending order.
    pub open spec fn new_records(self, now: i64) -> Seq<AppliedMigration> {
        (if self.version() >= 1 {
            Seq::<AppliedMigration>::empty()
        } else {
            seq![AppliedMigration { version: 1, applied_at: now }]
        }) + (if self.version() >= 2 {
            Seq::<AppliedMigration>::empty()
        } else {
            seq![AppliedMigration { version: 2, applied_at: now }]
        })
    }

    /// The store after a migration at the instant `now`: what was there is
    /// still there, what was missing is added. A store that is current
    /// stays as it is.
    pub open spec fn migrated(self, now: i64) -> SchemaView {
        if self.version() >= CURRENT_VERSION {
            SchemaView { has_version_table: true, ..self }
        } else {
            SchemaView {
                has_version_table: true,
                applied: self.applied + self.new_records(now),
                has_base_tables: true,
                has_subtasks: true,
                has_is_archived: true,
                has_sort_order: true,
            }
        }
    }

    /// The store after one step is carried out.
    pub open spec fn after(self, step: MigrationStep) -> SchemaView {
        match step {
            MigrationStep::CreateVersionTable => SchemaView { has_version_table: true, ..self },
            MigrationStep::CreateBaseTables => SchemaView { has_base_tables: true, ..self },
            MigrationStep::CreateSubtasks => SchemaView { has_subtasks: true, ..self },
            MigrationStep::AddIsArchived => SchemaView { has_is_archived: true, ..self },
            MigrationStep::AddSortOrder => SchemaView { has_sort_order: true, ..self },
            MigrationStep::Record(row) => SchemaView { applied: self.applied.push(row), ..self },
        }
    }

    /// The store after the steps are carried out one after the other.
    pub open spec fn after_all(self, steps: Seq<MigrationStep>) -> SchemaView
        decreases steps.len(),
    {
        if steps.len() == 0 {
            self
        } else {
            self.after(steps.first()).after_all(steps.drop_first())
        }
    }
}

/// Recording a version raises the highest version to it, if it is above.
pub proof fn lemma_highest_version_push(applied: Seq<AppliedMigration>, row: AppliedMigration)
    ensures
        highest_version(applied.push(row)) == if row.version > highest_version(applied) {
            row.version as int
        } else {
            highest_version(applied)
        },
        highest_version(applied) >= 0,
        forall|v: int|
            times_recorded(applied.push(row), v) == times_recorded(applied, v) + if row.version == v {
                1nat
            } else {
                0nat
            },
    decreases applied.len(),
{
    assert(applied.push(row).drop_last() =~= applied);
    if applied.len() > 0 {
        lemma_highest_version_push(applied.drop_last(), applied.last());
        assert(applied.drop_last().push(applied.last()) =~= applied);
    }
}

/// No version above the highest is recorded.
pub proof fn lemma_not_recorded_above(applied: Seq<AppliedMigration>, v: int)
    requires
        v > highest_version(applied),
    ensures
        times_recorded(applied, v) == 0,
    decreases applied.len(),
{
    if applied.len() > 0 {
        lemma_not_recorded_above(applied.drop_last(), v);
    }
}

impl SchemaState {
    /// What the migrator is told of a store that does not exist yet.
    pub fn empty() -> (s: SchemaState)
        ensures
            s@.wf(),
            s@.version() == 0,
            !s@.has_version_table && !s@.has_base_tables && !s@.has_subtasks,
            s@.applied.len() == 0,
    {
        SchemaState {
            has_version_table: false,
            applied: Vec::new(),
            has_base_tables: false,
            has_subtasks: false,
            has_is_archived: false,
            has_sort_order: false,
        }
    }

    /// The version of the store: the highest one recorded, 0 for none.
    pub fn current_version(&self) -> (v: i32)
        ensures
            v as int == self@.version(),
    {
        let mut v: i32 = 0;
        let mut i: usize = 0;
        assert(self.applied@.take(0) =~= Seq::<AppliedMigration>::empty());
        while i < self.applied.len()
            invariant
                i <= self.applied.len(),
                v as int == highest_version(self.applied@.take(i as int)),
            decreases self.applied.len() - i,
        {
            assert(self.applied@.take(i + 1).drop_last() =~= self.applied@.take(i as int));
            if self.applied[i].version > v {
                v = self.applied[i].version;
            }
            i += 1;
        }
        assert(self.applied@.take(self.applied.len() as int) =~= self.applied@);
        v
    }

    /// Whether the parts of what was told fit together. A store for which
    /// they do not cannot be migrated.
    pub fn is_consistent(&self) -> (ok: bool)
        ensures
            ok == self@.wf(),
    {
        let v: i32 = self.current_version();
        (self.applied.len() == 0 || self.has_version_table) && (!self.has_is_archived
            || self.has_base_tables) && (!self.has_sort_order || self.has_base_tables) && (v < 1
            || self.has_base_tables) && (v < 2 || (self.has_subtasks && self.has_is_archived
            && self.has_sort_order))
    }

    /// Whether every migration is applied.
    pub fn is_current(&self) -> (ok: bool)
        ensures
            ok == self@.is_current(),
    {
        self.has_version_table && self.current_version() >= CURRENT_VERSION
    }

    /// Decides, for the instant `now`, which steps bring the store to the
    /// current layout, and takes them as carried out. The steps come in the
    /// order in which they are to be carried out; a store that is current
    /// gets none and stays as it is.
    pub fn migrate_at(&mut self, now: i64) -> (steps: Vec<MigrationStep>)
        requires
            old(self)@.wf(),
        ensures
            steps@ == old(self)@.plan(now),
            final(self)@ == old(self)@.migrated(now),
            final(self)@ == old(self)@.after_all(steps@),
            final(self)@.wf(),
            final(self)@.is_current(),
            old(self)@.is_current() ==> steps@.len() == 0 && final(self)@ == old(self)@,
    {
        let ghost before: SchemaView = self@;
        let v: i32 = self.current_version();
        let mut steps: Vec<MigrationStep> = Vec::new();
        if !self.has_version_table {
            steps.push(MigrationStep::CreateVersionTable);
            self.has_version_table = true;
        }
        if v < 1 {
            if !self.has_base_tables {
                steps.push(MigrationStep::CreateBaseTables);
                self.has_base_tables = true;
            }
            let row: AppliedMigration = AppliedMigration { version: 1, applied_at: now };
            proof {
                lemma_highest_version_push(self.applied@, row);
            }
            steps.push(MigrationStep::Record(row));
            self.applied.push(row);
        }
        if v < 2 {
            if !self.has_subtasks {
                steps.push(MigrationStep::CreateSubtasks);
                self.has_subtasks = true;
            }
            if !self.has_is_archived {
                steps.push(MigrationStep::AddIsArchived);
                self.has_is_archived = true;
            }
            if !self.has_sort_order {
                steps.push(MigrationStep::AddSortOrder);
                self.has_sort_order = true;
            }
            let row: AppliedMigration = AppliedMigration { version: 2, applied_at: now };
            proof {
                lemma_highest_version_push(self.applied@, row);
            }
            steps.push(MigrationStep::Record(row));
            self.applied.push(row);
        }
        proof {
            lemma_highest_version_push(before.applied, AppliedMigration { version: 1, applied_at: now });
            assert(steps@ =~= before.plan(now));
            assert(self@.applied =~= before.migrated(now).applied);
            lemma_plan_reaches_migrated(before, now);
        }
        steps
    }

    /// Reads the clock and migrates the store for that instant; see
    /// [`SchemaState::migrate_at`]. Whatever the clock says, the store ends current,
    /// with what it had before still there.
    pub fn migrate(&mut self) -> (steps: Vec<MigrationStep>)
        requires
            old(self)@.wf(),
        ensures
            exists|now: i64|
                steps@ == old(self)@.plan(now) && final(self)@ == old(self)@.migrated(now),
            final(self)@ == old(self)@.after_all(steps@),
            final(self)@.wf(),
            final(self)@.is_current(),
            old(self)@.is_current() ==> steps@.len() == 0 && final(self)@ == old(self)@,
    {
        let now: i64 = now_millis();
        self.migrate_at(now)
    }
}

/// Carrying out the planned steps one after the other gives the migrated
/// store.
pub proof fn lemma_plan_reaches_migrated(v: SchemaView, now: i64)
    requires
        v.wf(),
    ensures
        v.after_all(v.plan(now)) == v.migrated(now),
        v.migrated(now).wf(),
        v.migrated(now).is_current(),
        v.is_current() ==> v.plan(now).len() == 0 && v.migrated(now) == v,
{
    let one = AppliedMigration { version: 1, applied_at: now };
    let two = AppliedMigration { version: 2, applied_at: now };
    lemma_highest_version_push(v.applied, one);
    lemma_highest_version_push(v.applied, two);
    lemma_highest_version_push(v.applied.push(one), two);
    assert(v.applied + seq![one] =~= v.applied.push(one));
    assert(v.applied + seq![two] =~= v.applied.push(two));
    assert(v.applied + seq![one, two] =~= v.applied.push(one).push(two));
    assert(v.applied + Seq::<AppliedMigration>::empty() =~= v.applied);
    assert(seq![one] + seq![two] =~= seq![one, two]);
    assert(Seq::<AppliedMigration>::empty() + seq![two] =~= seq![two]);
    assert(seq![one] + Seq::<AppliedMigration>::empty() =~= seq![one]);
    lemma_after_all_plan(v, now);
}

/// Carrying out one list of steps and then another is carrying out the two
/// joined.
pub proof fn lemma_after_all_joined(v: SchemaView, a: Seq<MigrationStep>, b: Seq<MigrationStep>)
    ensures
        v.after_all(a + b) == v.after_all(a).after_all(b),
    decreases a.len(),
{
    if a.len() == 0 {
        assert(a + b =~= b);
    } else {
        assert((a + b).drop_first() =~= a.drop_first() + b);
        lemma_after_all_joined(v.after(a.first()), a.drop_first(), b);
    }
}

/// Carrying out a step that may not be needed.
proof fn lemma_after_step_if(v: SchemaView, needed: bool, step: MigrationStep)
    ensures
        v.after_all(step_if(needed, step)) == if needed {
            v.after(step)
        } else {
            v
        },
{
    if needed {
        let one = step_if(needed, step);
        assert(one.drop_first() =~= Seq::<MigrationStep>::empty());
        assert(v.after(step).after_all(one.drop_first()) == v.after(step));
    }
}

/// Step by step through the plan.
proof fn lemma_after_all_plan(v: SchemaView, now: i64)
    requires
        v.wf(),
    ensures
        v.after_all(v.plan(now)).has_version_table,
        v.after_all(v.plan(now)).applied =~= v.migrated(now).applied,
        v.after_all(v.plan(now)).has_base_tables == v.migrated(now).has_base_tables,
        v.after_all(v.plan(now)).has_subtasks == v.migrated(now).has_subtasks,
        v.after_all(v.plan(now)).has_is_archived == v.migrated(now).has_is_archived,
        v.after_all(v.plan(now)).has_sort_order == v.migrated(now).has_sort_order,
{
    let one = MigrationStep::Record(AppliedMigration { version: 1, applied_at: now });
    let two = MigrationStep::Record(AppliedMigration { version: 2, applied_at: now });
    let old1 = v.version() < 1;
    let old2 = v.version() < 2;
    let s1 = step_if(!v.has_version_table, MigrationStep::CreateVersionTable);
    let s2 = step_if(old1 && !v.has_base_tables, MigrationStep::CreateBaseTables);
    let s3 = step_if(old1, one);
    let s4 = step_if(old2 && !v.has_subtasks, MigrationStep::CreateSubtasks);
    let s5 = step_if(old2 && !v.has_is_archived, MigrationStep::AddIsArchived);
    let s6 = step_if(old2 && !v.has_sort_order, MigrationStep::AddSortOrder);
    let s7 = step_if(old2, two);
    let v1 = v.after_all(s1);
    let v2 = v1.after_all(s2);
    let v3 = v2.after_all(s3);
    let v4 = v3.after_all(s4);
    let v5 = v4.after_all(s5);
    let v6 = v5.after_all(s6);
    let v7 = v6.after_all(s7);
    lemma_after_step_if(v, !v.has_version_table, MigrationStep::CreateVersionTable);
    lemma_after_step_if(v1, old1 && !v.has_base_tables, MigrationStep::CreateBaseTables);
    lemma_after_step_if(v2, old1, one);
    lemma_after_step_if(v3, old2 && !v.has_subtasks, MigrationStep::CreateSubtasks);
    lemma_after_step_if(v4, old2 && !v.has_is_archived, MigrationStep::AddIsArchived);
    lemma_after_step_if(v5, old2 && !v.has_sort_order, MigrationStep::AddSortOrder);
    lemma_after_step_if(v6, old2, two);
    lemma_after_all_joined(v, s1, s2);
    lemma_after_all_joined(v, s1 + s2, s3);
    lemma_after_all_joined(v, s1 + s2 + s3, s4);
    lemma_after_all_joined(v, s1 + s2 + s3 + s4, s5);
    lemma_after_all_joined(v, s1 + s2 + s3 + s4 + s5, s6);
    lemma_after_all_joined(v, s1 + s2 + s3 + s4 + s5 + s6, s7);
    assert(v.after_all(v.plan(now)) == v7);
    assert(v.version() >= 0) by {
        lemma_highest_version_push(v.applied, AppliedMigration { version: 1, applied_at: now });
    }
}

/// A migration takes nothing away: every table and column that was there is
/// still there, and the rows of the version table are those that were
/// there, followed by the new ones.
pub proof fn lemma_migration_keeps(v: SchemaView, now: i64)
    requires
        v.wf(),
    ensures
        v.has_version_table ==> v.migrated(now).has_version_table,
        v.has_base_tables ==> v.migrated(now).has_base_tables,
        v.has_subtasks ==> v.migrated(now).has_subtasks,
        v.has_is_archived ==> v.migrated(now).has_is_archived,
        v.has_sort_order ==> v.migrated(now).has_sort_order,
        v.applied.len() <= v.migrated(now).applied.len(),
        v.migrated(now).applied.take(v.applied.len() as int) == v.applied,
        v.has_base_tables ==> !v.plan(now).contains(MigrationStep::CreateBaseTables),
        v.has_subtasks ==> !v.plan(now).contains(MigrationStep::CreateSubtasks),
{
    assert(v.migrated(now).applied.take(v.applied.len() as int) =~= v.applied);
}

/// Every version from 1 to the current one that is above the store's is
/// recorded once by a migration, the lower version first, and no other
/// version is recorded: no migration is applied twice, and none is skipped.
pub proof fn lemma_migration_records(v: SchemaView, now: i64)
    requires
        v.wf(),
    ensures
        forall|k: int|
            times_recorded(v.migrated(now).applied, k) == times_recorded(v.applied, k) + if v.version()
                < k <= CURRENT_VERSION {
                1nat
            } else {
                0nat
            },
        forall|k: int| v.version() < k ==> times_recorded(v.applied, k) == 0,
        forall|k: int|
            v.version() < k <= CURRENT_VERSION ==> times_recorded(v.migrated(now).applied, k) == 1,
        v.migrated(now).applied == v.applied + if v.version() >= CURRENT_VERSION {
            Seq::<AppliedMigration>::empty()
        } else {
            v.new_records(now)
        },
        forall|i: int, j: int|
            0 <= i < j < v.new_records(now).len() ==> v.new_records(now)[i].version
                < v.new_records(now)[j].version,
        forall|i: int|
            0 <= i < v.new_records(now).len() ==> v.version() < (#[trigger] v.new_records(
                now,
            )[i]).version <= CURRENT_VERSION && v.new_records(now)[i].applied_at == now,
        v.migrated(now).version() == if v.version() >= CURRENT_VERSION {
            v.version()
        } else {
            CURRENT_VERSION as int
        },
{
    let one = AppliedMigration { version: 1, applied_at: now };
    let two = AppliedMigration { version: 2, applied_at: now };
    lemma_highest_version_push(v.applied, one);
    lemma_highest_version_push(v.applied, two);
    lemma_highest_version_push(v.applied.push(one), two);
    assert(v.applied + seq![one] =~= v.applied.push(one));
    assert(v.applied + seq![two] =~= v.applied.push(two));
    assert(v.applied + seq![one, two] =~= v.applied.push(one).push(two));
    assert(seq![one] + seq![two] =~= seq![one, two]);
    assert(Seq::<AppliedMigration>::empty() + seq![two] =~= seq![two]);
    assert forall|k: int| v.version() < k implies times_recorded(v.applied, k) == 0 by {
        lemma_not_recorded_above(v.applied, k);
    }
}

/// Migrating a store that is migrated already changes nothing and plans no
/// step.
pub proof fn lemma_migration_settles(v: SchemaView, now: i64, again: i64)
    requires
        v.wf(),
    ensures
        v.migrated(now).plan(again).len() == 0,
        v.migrated(now).migrated(again) == v.migrated(now),
{
    lemma_plan_reaches_migrated(v, now);
    lemma_plan_reaches_migrated(v.migrated(now), again);
}

/// A store that has its base tables but records no version comes out of a
/// migration with those tables untouched: no step creates them anew. It is
/// then current, and each version up to the current one is recorded once.
pub proof fn lemma_migrating_unversioned_store(v: SchemaView, now: i64)
    requires
        v.wf(),
        v.has_base_tables,
        v.applied.len() == 0,
    ensures
        !v.plan(now).contains(MigrationStep::CreateBaseTables),
        v.migrated(now).is_current(),
        v.migrated(now).version() == CURRENT_VERSION,
        times_recorded(v.migrated(now).applied, 1) == 1,
        times_recorded(v.migrated(now).applied, CURRENT_VERSION as int) == 1,
        v.migrated(now).applied.len() == 2,
{
    lemma_plan_reaches_migrated(v, now);
    lemma_migration_keeps(v, now);
    lemma_migration_records(v, now);
}

} // verus!
