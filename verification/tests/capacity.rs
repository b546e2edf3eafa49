use name_table::{
    AllocationCursor, Declaration, Name, NameTable, NameTableError, OperationKey, RootDeclaration,
    SealRequest, TableAddress, TableMutability,
};

#[derive(Clone, Copy, Debug, Eq, Ord, PartialEq, PartialOrd)]
pub enum FixtureRoot {
    Authored,
    Vocabulary,
}


pub fn key(byte: u8) -> OperationKey {
    OperationKey::new([byte; 32])
}


pub fn member(name: &str) -> Declaration {
    Declaration::Member(Name::new(name))
}


pub fn authored(declarations: Vec<Declaration>) -> RootDeclaration<FixtureRoot> {
    RootDeclaration::new(
        FixtureRoot::Authored,
        TableMutability::Mutable,
        declarations,
    )
}


#[test]
fn every_u16_local_is_allocated_before_explicit_exhaustion() {
    let declarations = (0..=u16::MAX)
        .map(|local| member(&format!("Name{local:05}")))
        .collect();
    let mut table = NameTable::new();
    table
        .seal(SealRequest::new(
            key(60),
            vec![authored(declarations)],
            vec![],
        ))
        .unwrap();

    let root = TableAddress::root(FixtureRoot::Authored);
    assert_eq!(
        table.head(&root).unwrap().allocation_cursor(),
        AllocationCursor::Exhausted
    );
    assert_eq!(
        table.current_snapshot(&root).unwrap().entries().len(),
        usize::from(u16::MAX) + 1
    );
    assert_eq!(
        table
            .lookup(&root, &Name::new("Name65535"))
            .unwrap()
            .unwrap()
            .local()
            .value(),
        u16::MAX
    );

    let before = table.clone();
    assert!(matches!(
        table.seal(SealRequest::new(
            key(61),
            vec![authored(vec![member("OneTooMany")])],
            vec![],
        )),
        Err(NameTableError::TableCapacity { address }) if address == root
    ));
    assert_eq!(table, before);
}
