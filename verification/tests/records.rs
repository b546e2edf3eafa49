use name_table::{
    AllocationCursor, Declaration, LocalEncodedId, ModuleTableHead, ModuleTableSnapshot, Name,
    NameTable, NameTableError, OperationKey, RootDeclaration, SealRequest, SnapshotDigest,
    StateRevision, TableAddress, TableGeneration, TableMutability,
};

#[derive(Clone, Copy, Debug, Eq, Ord, PartialEq, PartialOrd)]
pub enum FixtureRoot {
    Authored,
}

pub fn key(byte: u8) -> OperationKey {
    OperationKey::new([byte; 32])
}

pub fn member(name: &str) -> Declaration {
    Declaration::Member(Name::new(name))
}

pub fn authored(declarations: Vec<Declaration>) -> RootDeclaration<FixtureRoot> {
    RootDeclaration::new(FixtureRoot::Authored, TableMutability::Mutable, declarations)
}

fn root() -> TableAddress<FixtureRoot> {
    TableAddress::root(FixtureRoot::Authored)
}

fn head(
    address: TableAddress<FixtureRoot>,
    generation: u64,
    next: u16,
    current: u64,
) -> ModuleTableHead<FixtureRoot> {
    ModuleTableHead::new(
        address,
        TableMutability::Mutable,
        TableGeneration::new(generation),
        AllocationCursor::Next(LocalEncodedId::new(next)),
        SnapshotDigest::new(current),
    )
}

fn snapshot(
    address: TableAddress<FixtureRoot>,
    generation: u64,
    entries: &[&str],
    digest: u64,
) -> ModuleTableSnapshot<FixtureRoot> {
    ModuleTableSnapshot::new(
        address,
        TableGeneration::new(generation),
        entries.iter().map(|entry| Name::new(entry)).collect(),
        SnapshotDigest::new(digest),
    )
}

#[test]
fn a_table_at_its_last_generation_refuses_to_advance() {
    let mut table = NameTable::from_parts(
        StateRevision::new(7),
        vec![head(root(), u64::MAX, 1, 0)],
        vec![snapshot(root(), u64::MAX, &["A"], 0)],
        vec![],
    )
    .unwrap();
    let before = table.clone();
    assert_eq!(
        table.seal(SealRequest::new(key(150), vec![authored(vec![member("B")])], vec![])),
        Err(NameTableError::TableGenerationExhausted { address: root() })
    );
    assert_eq!(table, before);
    let receipt = table
        .seal(SealRequest::new(key(151), vec![authored(vec![member("A")])], vec![]))
        .unwrap();
    assert_eq!(receipt.declarations()[0].encoded_id().local(), LocalEncodedId::new(0));
    assert_eq!(receipt.resulting_revision(), StateRevision::new(8));
}

#[test]
fn a_state_at_its_last_revision_refuses_to_advance() {
    let mut table =
        NameTable::<FixtureRoot>::from_parts(StateRevision::new(u64::MAX), vec![], vec![], vec![])
            .unwrap();
    let before = table.clone();
    assert_eq!(
        table.seal(SealRequest::new(key(152), vec![authored(vec![member("A")])], vec![])),
        Err(NameTableError::StateRevisionExhausted)
    );
    assert_eq!(table, before);
}

#[test]
fn a_snapshot_that_repeats_a_spelling_is_refused() {
    assert_eq!(
        NameTable::from_parts(
            StateRevision::new(0),
            vec![head(root(), 0, 2, 0)],
            vec![snapshot(root(), 0, &["A", "A"], 0)],
            vec![],
        ),
        Err(NameTableError::DuplicateSnapshotSpelling { address: root(), spelling: Name::new("A") })
    );
}

#[test]
fn a_snapshot_away_from_its_locator_is_refused() {
    assert_eq!(
        NameTable::from_parts(
            StateRevision::new(0),
            vec![head(root(), 0, 0, 0)],
            vec![snapshot(root(), 0, &[], 5), snapshot(root(), 0, &[], 0)],
            vec![],
        ),
        Err(NameTableError::SnapshotIntegrityMismatch { digest: SnapshotDigest::new(1) })
    );
}

#[test]
fn a_child_table_without_its_owning_entry_is_refused() {
    let child = TableAddress::new(FixtureRoot::Authored, vec![LocalEncodedId::new(3)]);
    assert_eq!(
        NameTable::from_parts(
            StateRevision::new(0),
            vec![head(root(), 0, 1, 0), head(child.clone(), 0, 0, 1)],
            vec![snapshot(root(), 0, &["A"], 0), snapshot(child.clone(), 0, &[], 1)],
            vec![],
        ),
        Err(NameTableError::InconsistentTableAncestry { address: child })
    );
}

#[test]
fn a_cursor_that_disagrees_with_its_snapshot_is_refused() {
    assert_eq!(
        NameTable::from_parts(
            StateRevision::new(0),
            vec![head(root(), 0, 5, 0)],
            vec![snapshot(root(), 0, &["A"], 0)],
            vec![],
        ),
        Err(NameTableError::InconsistentTableHead { address: root() })
    );
}

#[test]
fn a_snapshot_beyond_the_local_range_is_refused() {
    let names: Vec<String> = (0..=65536u32).map(|index| format!("N{index}")).collect();
    let entries: Vec<&str> = names.iter().map(|name| name.as_str()).collect();
    assert_eq!(
        NameTable::from_parts(
            StateRevision::new(0),
            vec![head(root(), 0, 0, 0)],
            vec![snapshot(root(), 0, &entries, 0)],
            vec![],
        ),
        Err(NameTableError::SnapshotCapacity { address: root() })
    );
}

#[test]
fn heads_are_checked_in_address_order() {
    let child = TableAddress::new(FixtureRoot::Authored, vec![LocalEncodedId::new(1)]);
    assert_eq!(
        NameTable::from_parts(
            StateRevision::new(0),
            vec![head(child.clone(), 0, 5, 1), head(root(), 0, 5, 0)],
            vec![snapshot(root(), 0, &["A", "B"], 0), snapshot(child, 0, &[], 1)],
            vec![],
        ),
        Err(NameTableError::InconsistentTableHead { address: root() })
    );
}

#[test]
fn spellings_convert_from_text_exactly() {
    assert_eq!(Name::from("Status"), Name::new("Status"));
    assert_eq!(Name::from(String::from("Status")), Name::new("Status"));
    let converted: Name = "status".into();
    assert_eq!(converted.as_str(), "status");
    assert_ne!(converted, Name::new("Status"));
}
