use name_table::association::{
    ContentRevision, EncodedName, FilePlacement, ModulePlacement, NameAssociation, NameChange,
    NameChangeReceipt, NameLifecycle, NameTableError, RealizedNameAction, TextualMetadata,
    TrueName, VisibleName,
};
use name_table::OperationKey;

fn metadata() -> TextualMetadata {
    TextualMetadata::new(
        VisibleName::new("Invoice".to_string()),
        ModulePlacement::new(vec!["billing".to_string()]),
        FilePlacement::new(vec!["src".to_string(), "billing.rs".to_string()]),
    )
}

#[test]
fn encoded_and_true_names_keep_their_bytes() {
    let encoded = EncodedName::from_archive_bytes([3u8; 16]);
    assert_eq!(encoded.archive_bytes(), [3u8; 16]);
    let true_name = TrueName::from_content_addressed_hash([9u8; 32]);
    assert_eq!(true_name.content_addressed_hash(), [9u8; 32]);
}

#[test]
fn content_revisions_start_at_zero_and_advance_by_one() {
    let initial = ContentRevision::initial();
    assert_eq!(initial.value(), 0);
    let next = initial.next().unwrap();
    assert_eq!(next.value(), 1);
    assert_eq!(next.next().unwrap().value(), 2);
    assert_eq!(
        NameTableError::ContentRevisionExhausted.message(),
        "content revision overflowed"
    );
}

#[test]
fn textual_metadata_keeps_exact_spellings_and_placements() {
    let data = metadata();
    assert_eq!(data.visible_name().as_str(), "Invoice");
    assert_eq!(data.module_placement().segments(), &["billing".to_string()]);
    assert_eq!(
        data.file_placement().segments(),
        &["src".to_string(), "billing.rs".to_string()]
    );
}

#[test]
fn association_facts_and_receipts_keep_their_fields() {
    let true_name = TrueName::from_content_addressed_hash([1u8; 32]);
    let association =
        NameAssociation::new(true_name, ContentRevision::initial(), NameLifecycle::Live);
    assert_eq!(association.true_name(), true_name);
    assert_eq!(association.content_revision(), ContentRevision::initial());
    assert_eq!(association.lifecycle(), NameLifecycle::Live);

    let encoded = EncodedName::from_archive_bytes([2u8; 16]);
    let action = RealizedNameAction::Create { encoded_name: encoded, true_name, metadata: metadata() };
    let change = NameChange::new(7, OperationKey::new([4u8; 32]), action.clone());
    assert_eq!(change.sequence(), 7);
    assert_eq!(change.operation_key(), OperationKey::new([4u8; 32]));
    assert_eq!(change.action(), &action);

    let receipt = NameChangeReceipt::new(
        OperationKey::new([5u8; 32]),
        8,
        encoded,
        ContentRevision::initial(),
        NameLifecycle::Tombstoned,
    );
    assert_eq!(receipt.operation_key(), OperationKey::new([5u8; 32]));
    assert_eq!(receipt.sequence(), 8);
    assert_eq!(receipt.encoded_name(), encoded);
    assert_eq!(receipt.content_revision(), ContentRevision::initial());
    assert_eq!(receipt.lifecycle(), NameLifecycle::Tombstoned);
}
