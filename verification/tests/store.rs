use markdown_ui::store::{default_collection, existed, Collection, StoredDocument};

#[test]
fn empty_store_gets_the_default_collection() {
    assert_eq!(
        default_collection(0),
        Some((
            "Default Collection".to_string(),
            "Your default collection of documents".to_string()
        ))
    );
}

#[test]
fn store_with_collections_gets_no_default_collection() {
    assert_eq!(default_collection(1), None);
    assert_eq!(default_collection(25), None);
    assert_eq!(default_collection(-1), None);
}

#[test]
fn deletion_that_changed_rows_found_the_record() {
    assert!(!existed(0));
    assert!(existed(1));
    assert!(existed(3));
}

#[test]
fn records_hold_their_fields() {
    let collection = Collection {
        id: 1,
        name: "Work".to_string(),
        description: None,
        created_at: "a".to_string(),
        updated_at: "b".to_string(),
    };
    let document = StoredDocument {
        id: 2,
        collection_id: collection.id,
        name: "Note".to_string(),
        content: "# Note\n".to_string(),
        created_at: "a".to_string(),
        updated_at: "b".to_string(),
    };
    assert_eq!(document.collection_id, 1);
    assert_eq!(collection.description, None);
    assert_eq!(document.content, "# Note\n");
}
