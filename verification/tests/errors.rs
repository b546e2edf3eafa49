use name_table::{
    Declaration, EncodedId, LocalEncodedId, ModuleDeclaration, ModulePath, Name, NameReference,
    NameTable, NameTableError, OperationKey, RenameRequest, RootDeclaration, SealReceipt,
    SealRequest, TableAddress, TableMutability,
};

#[derive(Clone, Copy, Debug, Eq, Ord, PartialEq, PartialOrd)]
pub enum FixtureRoot {
    Authored,
    Vocabulary,
}


pub fn key(byte: u8) -> OperationKey {
    OperationKey::new([byte; 32])
}


pub fn member(name: &str) -> Declaration {
    Declaration::Member(Name::new(name))
}


pub fn module(
    name: &str,
    mutability: TableMutability,
    declarations: Vec<Declaration>,
) -> Declaration {
    Declaration::Module(ModuleDeclaration::new(Name::new(name), mutability, declarations))
}


pub fn authored(declarations: Vec<Declaration>) -> RootDeclaration<FixtureRoot> {
    RootDeclaration::new(
        FixtureRoot::Authored,
        TableMutability::Mutable,
        declarations,
    )
}


pub fn path(modules: &[&str]) -> ModulePath<FixtureRoot> {
    ModulePath::new(
        FixtureRoot::Authored,
        modules.iter().copied().map(Name::new).collect(),
    )
}


pub fn declared_id(
    receipt: &SealReceipt<FixtureRoot>,
    modules: &[&str],
    spelling: &str,
) -> EncodedId<FixtureRoot> {
    receipt
        .declarations()
        .iter()
        .find(|resolved| {
            resolved.path().table().modules()
                == modules
                    .iter()
                    .copied()
                    .map(Name::new)
                    .collect::<Vec<_>>()
                    .as_slice()
                && resolved.path().spelling().as_str() == spelling
        })
        .expect("declaration result exists")
        .encoded_id()
        .clone()
}

#[test]
fn resubmitting_a_root_with_another_mutability_is_a_mismatch() {
    let mut table = NameTable::new();
    table
        .seal(SealRequest::new(key(120), vec![authored(vec![member("A")])], vec![]))
        .unwrap();
    let before = table.clone();
    let result = table.seal(SealRequest::new(
        key(121),
        vec![RootDeclaration::new(
            FixtureRoot::Authored,
            TableMutability::Immutable,
            vec![member("B")],
        )],
        vec![],
    ));
    assert_eq!(
        result,
        Err(NameTableError::TableMutabilityMismatch {
            address: TableAddress::root(FixtureRoot::Authored),
            existing: TableMutability::Mutable,
            submitted: TableMutability::Immutable,
        })
    );
    assert_eq!(table, before);
}

#[test]
fn lookups_in_a_missing_table_name_the_table() {
    let mut table = NameTable::new();
    table
        .seal(SealRequest::new(key(122), vec![authored(vec![member("A")])], vec![]))
        .unwrap();
    let vocabulary = TableAddress::root(FixtureRoot::Vocabulary);
    assert_eq!(
        table.lookup(&vocabulary, &Name::new("A")),
        Err(NameTableError::UnknownTable { address: vocabulary })
    );
    let root = TableAddress::root(FixtureRoot::Authored);
    assert_eq!(table.lookup(&root, &Name::new("Missing")), Ok(None));
    assert_eq!(
        table.lookup(&root, &Name::new("A")).unwrap().unwrap().local(),
        LocalEncodedId::new(0)
    );
}

#[test]
fn an_unallocated_local_is_an_unknown_encoded_id() {
    let mut table = NameTable::new();
    table
        .seal(SealRequest::new(key(123), vec![authored(vec![member("A")])], vec![]))
        .unwrap();
    let unknown = EncodedId::new(FixtureRoot::Authored, vec![LocalEncodedId::new(5)]).unwrap();
    assert_eq!(
        table.resolve(&unknown),
        Err(NameTableError::UnknownEncodedId { encoded_id: unknown.clone() })
    );
    assert_eq!(
        table.rename(RenameRequest::new(key(124), unknown.clone(), Name::new("B"))),
        Err(NameTableError::UnknownEncodedId { encoded_id: unknown })
    );
}

#[test]
fn renaming_into_a_missing_table_is_an_unknown_table() {
    let mut table: NameTable<FixtureRoot> = NameTable::new();
    let target = EncodedId::new(FixtureRoot::Authored, vec![LocalEncodedId::new(0)]).unwrap();
    assert_eq!(
        table.rename(RenameRequest::new(key(125), target, Name::new("B"))),
        Err(NameTableError::UnknownTable { address: TableAddress::root(FixtureRoot::Authored) })
    );
}

#[test]
fn a_locator_beyond_the_history_is_refused() {
    let mut small = NameTable::new();
    let receipt = small
        .seal(SealRequest::new(key(126), vec![authored(vec![member("A")])], vec![]))
        .unwrap();
    let id = declared_id(&receipt, &[], "A");
    let mut large = NameTable::new();
    large
        .seal(SealRequest::new(
            key(127),
            vec![authored(vec![module("m", TableMutability::Mutable, vec![member("x")])])],
            vec![],
        ))
        .unwrap();
    let far = large
        .head(&TableAddress::new(FixtureRoot::Authored, vec![LocalEncodedId::new(0)]))
        .unwrap()
        .current_snapshot();
    assert!(small.snapshot(far).is_none());
    assert_eq!(
        small.resolve_in_snapshot(far, &id),
        Err(NameTableError::SnapshotIntegrityMismatch { digest: far })
    );
}

#[test]
fn a_pinned_snapshot_of_another_table_does_not_resolve_an_identity() {
    let mut table = NameTable::new();
    let receipt = table
        .seal(SealRequest::new(
            key(128),
            vec![authored(vec![module("m", TableMutability::Mutable, vec![member("x")])])],
            vec![],
        ))
        .unwrap();
    let x = declared_id(&receipt, &["m"], "x");
    let root_snapshot = table
        .head(&TableAddress::root(FixtureRoot::Authored))
        .unwrap()
        .current_snapshot();
    assert_eq!(
        table.resolve_in_snapshot(root_snapshot, &x),
        Err(NameTableError::UnknownEncodedId { encoded_id: x })
    );
}

#[test]
fn nested_redefinition_names_the_nested_table() {
    let mut table: NameTable<FixtureRoot> = NameTable::new();
    let result = table.seal(SealRequest::new(
        key(129),
        vec![authored(vec![module(
            "m",
            TableMutability::Mutable,
            vec![member("x"), member("x")],
        )])],
        vec![],
    ));
    assert_eq!(
        result,
        Err(NameTableError::Redefinition { table: path(&["m"]), spelling: Name::new("x") })
    );
}

#[test]
fn a_reference_through_a_member_without_a_table_is_unresolved() {
    let mut table = NameTable::new();
    let reference = NameReference::new(path(&["a"]), Name::new("x"));
    let result = table.seal(SealRequest::new(
        key(130),
        vec![authored(vec![member("a")])],
        vec![reference.clone()],
    ));
    assert_eq!(result, Err(NameTableError::UnresolvedReference { reference }));
    assert!(table.head(&TableAddress::root(FixtureRoot::Authored)).is_none());
}

#[test]
fn a_reference_into_a_missing_root_names_the_missing_table() {
    let mut table = NameTable::new();
    let reference = NameReference::new(
        ModulePath::new(FixtureRoot::Vocabulary, vec![]),
        Name::new("x"),
    );
    let result = table.seal(SealRequest::new(
        key(131),
        vec![authored(vec![member("a")])],
        vec![reference],
    ));
    assert_eq!(
        result,
        Err(NameTableError::UnknownTable { address: TableAddress::root(FixtureRoot::Vocabulary) })
    );
}
