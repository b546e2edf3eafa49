use name_table::{
    Declaration, EncodedId, LocalEncodedId, ModuleDeclaration, ModulePath, Name, NameReference,
    NameTable, NameTableError, OperationKey, RenameRequest, RootDeclaration, SealReceipt,
    SealRequest, TableAddress, TableMutability,
};

#[derive(Clone, Copy, Debug, Eq, Ord, PartialEq, PartialOrd)]
pub enum FixtureRoot {
    Authored,
    Vocabulary,
}


pub fn key(byte: u8) -> OperationKey {
    OperationKey::new([byte; 32])
}


pub fn member(name: &str) -> Declaration {
    Declaration::Member(Name::new(name))
}


pub fn module(
    name: &str,
    mutability: TableMutability,
    declarations: Vec<Declaration>,
) -> Declaration {
    Declaration::Module(ModuleDeclaration::new(Name::new(name), mutability, declarations))
}


pub fn authored(declarations: Vec<Declaration>) -> RootDeclaration<FixtureRoot> {
    RootDeclaration::new(
        FixtureRoot::Authored,
        TableMutability::Mutable,
        declarations,
    )
}


pub fn vocabulary(declarations: Vec<Declaration>) -> RootDeclaration<FixtureRoot> {
    RootDeclaration::new(
        FixtureRoot::Vocabulary,
        TableMutability::Immutable,
        declarations,
    )
}


pub fn path(modules: &[&str]) -> ModulePath<FixtureRoot> {
    ModulePath::new(
        FixtureRoot::Authored,
        modules.iter().copied().map(Name::new).collect(),
    )
}


pub fn declared_id(
    receipt: &SealReceipt<FixtureRoot>,
    modules: &[&str],
    spelling: &str,
) -> EncodedId<FixtureRoot> {
    receipt
        .declarations()
        .iter()
        .find(|resolved| {
            resolved.path().table().modules()
                == modules
                    .iter()
                    .copied()
                    .map(Name::new)
                    .collect::<Vec<_>>()
                    .as_slice()
                && resolved.path().spelling().as_str() == spelling
        })
        .expect("declaration result exists")
        .encoded_id()
        .clone()
}

#[test]
fn replay_of_a_committed_seal_returns_its_receipt_and_state() {
    let mut table = NameTable::new();
    let request = SealRequest::new(
        key(100),
        vec![authored(vec![module("billing", TableMutability::Mutable, vec![member("Invoice")])])],
        vec![NameReference::new(path(&["billing"]), Name::new("Invoice"))],
    );
    let first = table.seal(request.clone()).unwrap();
    let after = table.clone();
    let staged = table.stage_seal(request.clone()).unwrap();
    assert_eq!(staged.receipt(), &first);
    let replay = table.seal(request).unwrap();
    assert_eq!(replay, first);
    assert_eq!(table, after);
    assert_eq!(first.resulting_revision(), table.revision());
}

#[test]
fn reused_seal_key_stays_a_conflict_on_every_retry() {
    let mut table = NameTable::new();
    table
        .seal(SealRequest::new(key(101), vec![authored(vec![member("Status")])], vec![]))
        .unwrap();
    let before = table.clone();
    for _ in 0..2 {
        let result = table.seal(SealRequest::new(
            key(101),
            vec![authored(vec![member("Other")])],
            vec![],
        ));
        assert!(matches!(
            result,
            Err(NameTableError::IdempotencyConflict { operation_key }) if operation_key == key(101)
        ));
        assert_eq!(table, before);
    }
}

#[test]
fn a_rename_key_reused_for_a_seal_is_a_conflict() {
    let mut table = NameTable::new();
    let initial = table
        .seal(SealRequest::new(key(102), vec![authored(vec![member("Status")])], vec![]))
        .unwrap();
    let target = declared_id(&initial, &[], "Status");
    table
        .rename(RenameRequest::new(key(103), target, Name::new("State")))
        .unwrap();
    let before = table.clone();
    assert!(matches!(
        table.seal(SealRequest::new(key(103), vec![authored(vec![member("Status")])], vec![])),
        Err(NameTableError::IdempotencyConflict { .. })
    ));
    assert_eq!(table, before);
}

#[test]
fn history_snapshots_keep_resolving_after_later_seals() {
    let mut table = NameTable::new();
    let first = table
        .seal(SealRequest::new(key(104), vec![authored(vec![member("Alpha")])], vec![]))
        .unwrap();
    let alpha = declared_id(&first, &[], "Alpha");
    let root = TableAddress::root(FixtureRoot::Authored);
    let pinned = table.head(&root).unwrap().current_snapshot();
    table
        .seal(SealRequest::new(key(105), vec![authored(vec![member("Beta")])], vec![]))
        .unwrap();
    table
        .rename(RenameRequest::new(key(106), alpha.clone(), Name::new("Gamma")))
        .unwrap();
    assert_eq!(table.resolve_in_snapshot(pinned, &alpha).unwrap().as_str(), "Alpha");
    assert_eq!(table.resolve(&alpha).unwrap().as_str(), "Gamma");
    assert_eq!(table.snapshot(pinned).unwrap().entries().len(), 1);
}

#[test]
fn every_declared_spelling_resolves_to_its_identity() {
    let mut table = NameTable::new();
    let receipt = table
        .seal(SealRequest::new(
            key(107),
            vec![authored(vec![
                member("b"),
                module("m", TableMutability::Mutable, vec![member("x"), member("a")]),
                member("a"),
            ])],
            vec![],
        ))
        .unwrap();
    assert_eq!(receipt.declarations().len(), 5);
    for resolved in receipt.declarations() {
        assert_eq!(
            table.resolve(resolved.encoded_id()).unwrap(),
            resolved.path().spelling()
        );
    }
    assert_eq!(declared_id(&receipt, &[], "a").local(), LocalEncodedId::new(0));
    assert_eq!(declared_id(&receipt, &[], "b").local(), LocalEncodedId::new(1));
    assert_eq!(declared_id(&receipt, &[], "m").local(), LocalEncodedId::new(2));
    assert_eq!(declared_id(&receipt, &["m"], "a").chain().len(), 2);
}

#[test]
fn each_successful_seal_advances_the_revision_by_one() {
    let mut table = NameTable::new();
    assert_eq!(table.revision().value(), 0);
    let first = table
        .seal(SealRequest::new(key(108), vec![authored(vec![member("A")])], vec![]))
        .unwrap();
    assert_eq!(first.resulting_revision().value(), 1);
    let second = table
        .seal(SealRequest::new(key(109), vec![authored(vec![member("B")])], vec![]))
        .unwrap();
    assert_eq!(second.resulting_revision().value(), 2);
    assert_eq!(table.revision().value(), 2);
}

#[test]
fn digest_ignores_root_and_reference_order_and_key() {
    let table: NameTable<FixtureRoot> = NameTable::new();
    let a = SealRequest::new(
        key(110),
        vec![authored(vec![member("x")]), vocabulary(vec![member("y"), member("z")])],
        vec![
            NameReference::new(path(&[]), Name::new("x")),
            NameReference::new(path(&["q"]), Name::new("w")),
        ],
    );
    let b = SealRequest::new(
        key(111),
        vec![vocabulary(vec![member("z"), member("y")]), authored(vec![member("x")])],
        vec![
            NameReference::new(path(&["q"]), Name::new("w")),
            NameReference::new(path(&[]), Name::new("x")),
        ],
    );
    let c = SealRequest::new(key(110), vec![authored(vec![member("x")])], vec![]);
    let da = table.request_digest(&a).unwrap();
    let db = table.request_digest(&b).unwrap();
    let dc = table.request_digest(&c).unwrap();
    assert_eq!(da, db);
    assert_ne!(da, dc);
}

#[test]
fn changed_tables_list_every_created_or_advanced_table_in_address_order() {
    let mut table = NameTable::new();
    let receipt = table
        .seal(SealRequest::new(
            key(112),
            vec![
                vocabulary(vec![member("struct")]),
                authored(vec![module("m", TableMutability::Mutable, vec![])]),
            ],
            vec![],
        ))
        .unwrap();
    let changes = receipt.changed_tables();
    assert_eq!(changes.len(), 3);
    assert_eq!(changes[0].address(), &TableAddress::root(FixtureRoot::Authored));
    assert_eq!(changes[1].address().module_chain(), &[LocalEncodedId::new(0)]);
    assert_eq!(changes[2].address(), &TableAddress::root(FixtureRoot::Vocabulary));
    for change in changes {
        let head = table.head(change.address()).unwrap();
        assert_eq!(head.current_snapshot(), change.snapshot());
        assert_eq!(head.generation(), change.generation());
    }
    assert_eq!(changes[1].generation().value(), 0);
    assert_eq!(changes[0].generation().value(), 1);

    let unchanged = table
        .seal(SealRequest::new(key(113), vec![authored(vec![member("m")])], vec![]))
        .unwrap();
    assert_eq!(unchanged.changed_tables().len(), 0);
}

#[test]
fn lookup_and_resolve_are_inverse_in_one_table() {
    let mut table = NameTable::new();
    let receipt = table
        .seal(SealRequest::new(
            key(114),
            vec![authored(vec![member("left"), member("right")])],
            vec![],
        ))
        .unwrap();
    let root = TableAddress::root(FixtureRoot::Authored);
    let right = declared_id(&receipt, &[], "right");
    let found = table.lookup(&root, &Name::new("right")).unwrap().unwrap();
    assert_eq!(found, right);
    let spelling = table.resolve(&found).unwrap().clone();
    assert_eq!(spelling, Name::new("right"));
    assert_eq!(table.lookup(&found.owning_table(), &spelling), Ok(Some(right)));
}

#[test]
fn a_refused_rename_leaves_the_state_and_its_history_alone() {
    let mut table = NameTable::new();
    let receipt = table
        .seal(SealRequest::new(
            key(115),
            vec![vocabulary(vec![member("struct")])],
            vec![],
        ))
        .unwrap();
    let id = receipt.declarations()[0].encoded_id().clone();
    let before = table.clone();
    assert!(matches!(
        table.rename(RenameRequest::new(key(116), id, Name::new("record"))),
        Err(NameTableError::ImmutableTable { .. })
    ));
    assert_eq!(table, before);
}

#[test]
fn every_recorded_identity_resolves_to_its_path_spelling() {
    let mut table = NameTable::new();
    table
        .seal(SealRequest::new(
            key(120),
            vec![authored(vec![module("m", TableMutability::Mutable, vec![member("x")])])],
            vec![],
        ))
        .unwrap();
    let receipt = table
        .seal(SealRequest::new(
            key(121),
            vec![authored(vec![
                member("y"),
                module("m", TableMutability::Mutable, vec![member("z")]),
            ])],
            vec![
                NameReference::new(path(&["m"]), Name::new("x")),
                NameReference::new(path(&[]), Name::new("y")),
            ],
        ))
        .unwrap();
    assert_eq!(receipt.references().len(), 2);
    for resolved in receipt.declarations().iter().chain(receipt.references().iter()) {
        let id = resolved.encoded_id();
        assert_eq!(table.resolve(id).unwrap(), resolved.path().spelling());
        assert_eq!(id.root_variant(), resolved.path().table().root());
        assert_eq!(id.chain().len(), resolved.path().table().modules().len() + 1);
    }
}

#[test]
fn a_rename_changes_only_its_target_and_advances_one_generation() {
    let mut table = NameTable::new();
    let receipt = table
        .seal(SealRequest::new(
            key(122),
            vec![authored(vec![
                member("A"),
                member("B"),
                module("m", TableMutability::Mutable, vec![member("A")]),
            ])],
            vec![],
        ))
        .unwrap();
    let a = declared_id(&receipt, &[], "A");
    let b = declared_id(&receipt, &[], "B");
    let m = declared_id(&receipt, &[], "m");
    let inner = declared_id(&receipt, &["m"], "A");
    let owner = a.owning_table();
    let child = TableAddress::new(FixtureRoot::Authored, vec![m.local()]);
    let before_generation = table.head(&owner).unwrap().generation().value();
    let before_snapshot = table.head(&owner).unwrap().current_snapshot();
    let child_head = table.head(&child).unwrap().clone();
    let renamed = table
        .rename(RenameRequest::new(key(123), a.clone(), Name::from("Alpha")))
        .unwrap();
    assert_eq!(renamed.old_spelling().as_str(), "A");
    assert_eq!(renamed.new_spelling().as_str(), "Alpha");
    assert_eq!(table.resolve(&a).unwrap().as_str(), "Alpha");
    assert_eq!(table.resolve_in_snapshot(before_snapshot, &a).unwrap().as_str(), "A");
    assert_eq!(table.resolve(&b).unwrap().as_str(), "B");
    assert_eq!(table.resolve(&m).unwrap().as_str(), "m");
    assert_eq!(table.resolve(&inner).unwrap().as_str(), "A");
    assert_eq!(renamed.resulting_generation().value(), before_generation + 1);
    assert_eq!(table.head(&owner).unwrap().generation(), renamed.resulting_generation());
    assert_eq!(table.head(&child).unwrap(), &child_head);
}
