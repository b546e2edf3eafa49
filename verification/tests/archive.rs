use name_table::archive::{
    ARCHIVE_VERSION, ArchiveEnvelopeError, check_integrity, open_envelope, seal_envelope,
};
use name_table::{
    Declaration, ModuleDeclaration, Name, NameTable, NameTableError, OperationKey, RenameRequest,
    RootDeclaration, SealReceipt, SealRequest, EncodedId, TableMutability,
};

#[derive(Clone, Copy, Debug, Eq, Ord, PartialEq, PartialOrd)]
pub enum FixtureRoot {
    Authored,
    Vocabulary,
}


pub fn key(byte: u8) -> OperationKey {
    OperationKey::new([byte; 32])
}


pub fn member(name: &str) -> Declaration {
    Declaration::Member(Name::new(name))
}


pub fn module(
    name: &str,
    mutability: TableMutability,
    declarations: Vec<Declaration>,
) -> Declaration {
    Declaration::Module(ModuleDeclaration::new(Name::new(name), mutability, declarations))
}


pub fn authored(declarations: Vec<Declaration>) -> RootDeclaration<FixtureRoot> {
    RootDeclaration::new(
        FixtureRoot::Authored,
        TableMutability::Mutable,
        declarations,
    )
}


pub fn declared_id(
    receipt: &SealReceipt<FixtureRoot>,
    modules: &[&str],
    spelling: &str,
) -> EncodedId<FixtureRoot> {
    receipt
        .declarations()
        .iter()
        .find(|resolved| {
            resolved.path().table().modules()
                == modules
                    .iter()
                    .copied()
                    .map(Name::new)
                    .collect::<Vec<_>>()
                    .as_slice()
                && resolved.path().spelling().as_str() == spelling
        })
        .expect("declaration result exists")
        .encoded_id()
        .clone()
}

fn populated() -> NameTable<FixtureRoot> {
    let mut table = NameTable::new();
    let receipt = table
        .seal(SealRequest::new(
            key(140),
            vec![authored(vec![
                member("Status"),
                module("billing", TableMutability::Mutable, vec![member("Invoice")]),
            ])],
            vec![],
        ))
        .unwrap();
    let status = declared_id(&receipt, &[], "Status");
    table
        .rename(RenameRequest::new(key(141), status, Name::new("State")))
        .unwrap();
    table
}

#[test]
fn an_envelope_frames_magic_version_integrity_and_payload() {
    let integrity = [7u8; 32];
    let bytes = seal_envelope(&integrity, b"payload");
    assert_eq!(&bytes[..8], b"NTABLE\0\0");
    assert_eq!(&bytes[8..10], &ARCHIVE_VERSION.to_le_bytes());
    assert_eq!(bytes.len(), 42 + 7);
    let (carried, payload) = open_envelope(&bytes).unwrap();
    assert_eq!(carried, &integrity[..]);
    assert_eq!(payload, b"payload");
    assert_eq!(check_integrity(carried, &integrity), Ok(()));
    assert_eq!(check_integrity(carried, &[8u8; 32]), Err(ArchiveEnvelopeError::Integrity));
}

#[test]
fn envelopes_without_magic_or_with_other_versions_are_refused() {
    assert_eq!(open_envelope(b"not an archive"), Err(ArchiveEnvelopeError::Invalid));
    assert_eq!(open_envelope(b"NTABLE"), Err(ArchiveEnvelopeError::Invalid));
    let mut legacy = b"NTABLE\0\0".to_vec();
    legacy.extend_from_slice(&1u16.to_le_bytes());
    legacy.extend_from_slice(&[0u8; 40]);
    assert_eq!(open_envelope(&legacy), Err(ArchiveEnvelopeError::Unsupported(1)));
    let mut short = b"NTABLE\0\0".to_vec();
    short.extend_from_slice(&3u16.to_le_bytes());
    short.extend_from_slice(&[0u8; 10]);
    assert_eq!(open_envelope(&short), Err(ArchiveEnvelopeError::Invalid));
    let error: NameTableError<FixtureRoot> = ArchiveEnvelopeError::Unsupported(10).to_table_error();
    assert_eq!(error, NameTableError::UnsupportedArchiveVersion { found: 10 });
    let error: NameTableError<FixtureRoot> = ArchiveEnvelopeError::Invalid.to_table_error();
    assert_eq!(error, NameTableError::InvalidArchiveEnvelope);
    let error: NameTableError<FixtureRoot> = ArchiveEnvelopeError::Integrity.to_table_error();
    assert_eq!(error, NameTableError::ArchiveIntegrityMismatch);
}

#[test]
fn archived_records_rebuild_the_same_state() {
    let table = populated();
    let rebuilt = NameTable::from_parts(
        table.revision(),
        table.heads().to_vec(),
        table.snapshots().to_vec(),
        table.keyed_receipts(),
    )
    .unwrap();
    assert_eq!(rebuilt, table);
}

#[test]
fn archived_snapshots_in_any_order_are_put_back_in_locator_order() {
    let table = populated();
    let mut snapshots = table.snapshots().to_vec();
    snapshots.reverse();
    let rebuilt = NameTable::from_parts(
        table.revision(),
        table.heads().to_vec(),
        snapshots,
        table.keyed_receipts(),
    )
    .unwrap();
    assert_eq!(rebuilt, table);
}

#[test]
fn duplicate_archived_records_are_refused() {
    let table = populated();
    let mut heads = table.heads().to_vec();
    heads.push(heads[0].clone());
    assert_eq!(
        NameTable::from_parts(
            table.revision(),
            heads,
            table.snapshots().to_vec(),
            table.keyed_receipts(),
        ),
        Err(NameTableError::DuplicateArchiveRecord)
    );
    let mut receipts = table.keyed_receipts();
    receipts.push(receipts[0].clone());
    assert_eq!(
        NameTable::from_parts(
            table.revision(),
            table.heads().to_vec(),
            table.snapshots().to_vec(),
            receipts,
        ),
        Err(NameTableError::DuplicateArchiveRecord)
    );
}

#[test]
fn a_receipt_stored_under_another_key_is_inconsistent() {
    let table = populated();
    let mut receipts = table.keyed_receipts();
    let first_key = receipts[0].0;
    receipts[0].0 = receipts[1].0;
    receipts[1].0 = first_key;
    assert_eq!(
        NameTable::from_parts(
            table.revision(),
            table.heads().to_vec(),
            table.snapshots().to_vec(),
            receipts,
        ),
        Err(NameTableError::InconsistentReceipt { operation_key: key(140) })
    );
}

#[test]
fn a_head_fault_is_reported_before_a_misfiled_receipt() {
    let table = populated();
    let mut receipts = table.keyed_receipts();
    let first_key = receipts[0].0;
    receipts[0].0 = receipts[1].0;
    receipts[1].0 = first_key;
    let mut snapshots = table.snapshots().to_vec();
    snapshots.pop();
    let head = table.heads()[0].clone();
    assert_eq!(
        NameTable::from_parts(table.revision(), table.heads().to_vec(), snapshots, receipts),
        Err(NameTableError::InconsistentTableHead { address: head.address().clone() })
    );
}

#[test]
fn receipts_are_checked_in_key_order() {
    let table = populated();
    let earlier = NameTable::<FixtureRoot>::new().revision();
    let mut receipts = table.keyed_receipts();
    receipts.reverse();
    assert_eq!(receipts[0].0, key(141));
    assert_eq!(
        NameTable::from_parts(
            earlier,
            table.heads().to_vec(),
            table.snapshots().to_vec(),
            receipts,
        ),
        Err(NameTableError::InconsistentReceipt { operation_key: key(140) })
    );
}

#[test]
fn a_head_whose_snapshot_is_missing_is_inconsistent() {
    let table = populated();
    let mut snapshots = table.snapshots().to_vec();
    snapshots.pop();
    let head = table.heads()[0].clone();
    assert_eq!(
        NameTable::from_parts(
            table.revision(),
            table.heads().to_vec(),
            snapshots,
            table.keyed_receipts(),
        ),
        Err(NameTableError::InconsistentTableHead { address: head.address().clone() })
    );
}

#[test]
fn a_receipt_from_a_later_revision_is_inconsistent() {
    let table = populated();
    let earlier = NameTable::<FixtureRoot>::new().revision();
    assert_eq!(
        NameTable::from_parts(
            earlier,
            table.heads().to_vec(),
            table.snapshots().to_vec(),
            table.keyed_receipts(),
        ),
        Err(NameTableError::InconsistentReceipt { operation_key: key(140) })
    );
}

#[test]
fn an_archive_in_any_record_order_rebuilds_the_same_state() {
    let table = populated();
    let mut heads = table.heads().to_vec();
    heads.reverse();
    let mut receipts = table.keyed_receipts();
    receipts.reverse();
    let mut snapshots = table.snapshots().to_vec();
    snapshots.reverse();
    let rebuilt = NameTable::from_parts(table.revision(), heads, snapshots, receipts).unwrap();
    assert_eq!(rebuilt, table);
}

#[test]
fn receipts_are_stored_in_key_order() {
    let mut table = NameTable::new();
    table
        .seal(SealRequest::new(key(150), vec![authored(vec![member("A")])], vec![]))
        .unwrap();
    table
        .seal(SealRequest::new(key(149), vec![authored(vec![member("B")])], vec![]))
        .unwrap();
    let keys: Vec<OperationKey> = table.keyed_receipts().iter().map(|entry| entry.0).collect();
    assert_eq!(keys, vec![key(149), key(150)]);
}

#[test]
fn heads_are_stored_in_address_order() {
    let mut table = NameTable::new();
    table
        .seal(SealRequest::new(
            key(151),
            vec![
                RootDeclaration::new(FixtureRoot::Vocabulary, TableMutability::Immutable, vec![
                    member("V"),
                ]),
                authored(vec![member("A")]),
            ],
            vec![],
        ))
        .unwrap();
    let roots: Vec<FixtureRoot> =
        table.heads().iter().map(|head| *head.address().root_variant()).collect();
    assert_eq!(roots, vec![FixtureRoot::Authored, FixtureRoot::Vocabulary]);
}
