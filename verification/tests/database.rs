use studfinder::error::StudFinderError;
use studfinder::piece::{Confidence, Piece};
use studfinder::storage::database::Database;

fn create_test_piece() -> Piece {
    Piece {
        id: String::from("test-piece"),
        part_number: "3001".to_string(),
        color: "Red".to_string(),
        category: "Brick".to_string(),
        quantity: 1,
        confidence: Confidence { milli: 950 },
    }
}

#[test]
fn db_test_database_operations() {
    let mut db = Database::new(":memory:").unwrap();
    db.init().unwrap();

    assert_eq!(db.get_schema_version().unwrap(), 2);

    let piece = create_test_piece();
    db.add_piece(&piece).unwrap();

    let fetched = db.get_piece(&piece.id).unwrap().unwrap();
    assert_eq!(fetched.part_number, piece.part_number);
    assert_eq!(fetched.confidence, piece.confidence);

    let pieces = db.list_pieces().unwrap();
    assert_eq!(pieces.len(), 1);

    db.update_quantity(&piece.id, 2).unwrap();
    let updated = db.get_piece(&piece.id).unwrap().unwrap();
    assert_eq!(updated.quantity, 2);

    db.delete_piece(&piece.id).unwrap();
    let pieces = db.list_pieces().unwrap();
    assert_eq!(pieces.len(), 0);
}

#[test]
fn database_test_database_operations() {
    let mut db = Database::new(":memory:").unwrap();
    db.init().unwrap();

    assert_eq!(db.get_schema_version().unwrap(), 2);

    let piece = create_test_piece();
    db.add_piece(&piece).unwrap();

    let fetched = db.get_piece(&piece.id).unwrap().unwrap();
    assert_eq!(fetched.part_number, piece.part_number);
    assert_eq!(fetched.confidence, piece.confidence);

    let pieces = db.list_pieces().unwrap();
    assert_eq!(pieces.len(), 1);

    db.update_quantity(&piece.id, 2).unwrap();
    let updated = db.get_piece(&piece.id).unwrap().unwrap();
    assert_eq!(updated.quantity, 2);

    db.delete_piece(&piece.id).unwrap();
    let pieces = db.list_pieces().unwrap();
    assert_eq!(pieces.len(), 0);
}

#[test]
fn db_test_schema_reset() {
    let mut db = Database::new(":memory:").unwrap();

    db.init().unwrap();
    let piece = create_test_piece();
    db.add_piece(&piece).unwrap();
    assert_eq!(db.list_pieces().unwrap().len(), 1);

    db.reset().unwrap();
    assert_eq!(db.list_pieces().unwrap().len(), 0);
    assert_eq!(db.get_schema_version().unwrap(), 2);
}

#[test]
fn database_test_schema_reset() {
    let mut db = Database::new(":memory:").unwrap();

    db.init().unwrap();
    let piece = create_test_piece();
    db.add_piece(&piece).unwrap();
    assert_eq!(db.list_pieces().unwrap().len(), 1);

    db.reset().unwrap();
    assert_eq!(db.list_pieces().unwrap().len(), 0);
    assert_eq!(db.get_schema_version().unwrap(), 2);
}

#[test]
fn test_piece_not_found() {
    let mut db = Database::new(":memory:").unwrap();
    db.init().unwrap();

    let result = db.get_piece("non-existent");
    assert!(result.is_ok());
    assert!(result.unwrap().is_none());

    let result = db.update_quantity("non-existent", 5);
    assert!(result.is_err());
    match result.unwrap_err() {
        StudFinderError::PieceNotFound(id) => assert_eq!(id, "non-existent"),
        e => panic!("Expected PieceNotFound error, got: {:?}", e),
    }

    let result = db.delete_piece("non-existent");
    assert!(result.is_err());
    match result.unwrap_err() {
        StudFinderError::PieceNotFound(id) => assert_eq!(id, "non-existent"),
        e => panic!("Expected PieceNotFound error, got: {:?}", e),
    }
}

#[test]
fn test_database_error_context() {
    let result = Database::new("/nonexistent/path/that/does/not/exist/db.sqlite");
    assert!(result.is_err());
    match result.unwrap_err() {
        StudFinderError::Database { operation, .. } => {
            assert_eq!(operation, "open connection");
        },
        e => panic!("Expected Database error, got: {:?}", e),
    }
}

#[test]
fn test_merge_accumulates_quantity() {
    let mut db = Database::new(":memory:").unwrap();
    db.init().unwrap();

    db.add_piece(&Piece {
        id: "a".to_string(),
        part_number: "3001".to_string(),
        color: "Red".to_string(),
        category: "Brick".to_string(),
        quantity: 1,
        confidence: Confidence { milli: 950 },
    })
    .unwrap();

    let listed = db.list_pieces().unwrap();
    assert_eq!(listed.len(), 1);
    assert_eq!(listed[0].id, "a");
    assert_eq!(listed[0].part_number, "3001");
    assert_eq!(listed[0].color, "Red");
    assert_eq!(listed[0].category, "Brick");
    assert_eq!(listed[0].quantity, 1);
    assert_eq!(listed[0].confidence, Confidence { milli: 950 });

    db.add_piece(&Piece {
        id: "a".to_string(),
        part_number: "3001".to_string(),
        color: "Red".to_string(),
        category: "Brick".to_string(),
        quantity: 2,
        confidence: Confidence { milli: 500 },
    })
    .unwrap();

    let merged = db.get_piece("a").unwrap().unwrap();
    assert_eq!(merged.quantity, 3);
    assert_eq!(merged.confidence, Confidence { milli: 950 });
    assert_eq!(merged.color, "Red");
    assert_eq!(merged.category, "Brick");
}

#[test]
fn test_two_adds_distinct_ids_both_present() {
    let mut db = Database::new(":memory:").unwrap();
    db.init().unwrap();

    let mut first = create_test_piece();
    first.id = "first".to_string();
    let mut second = create_test_piece();
    second.id = "second".to_string();
    second.color = "Blue".to_string();

    db.add_piece(&first).unwrap();
    db.add_piece(&second).unwrap();

    let pieces = db.list_pieces().unwrap();
    assert_eq!(pieces.len(), 2);
    assert!(pieces.iter().any(|p| p.id == "first" && p.quantity == 1));
    assert!(pieces.iter().any(|p| p.id == "second" && p.color == "Blue"));
}

#[test]
fn test_init_twice_is_idempotent() {
    let mut db = Database::new(":memory:").unwrap();
    db.init().unwrap();
    let piece = create_test_piece();
    db.add_piece(&piece).unwrap();

    db.init().unwrap();
    assert_eq!(db.get_schema_version().unwrap(), 2);
    let pieces = db.list_pieces().unwrap();
    assert_eq!(pieces.len(), 1);
    assert_eq!(pieces[0].quantity, 1);
}

#[test]
fn test_merge_overflow_is_refused() {
    let mut db = Database::new(":memory:").unwrap();
    db.init().unwrap();

    let mut piece = create_test_piece();
    piece.quantity = i32::MAX;
    db.add_piece(&piece).unwrap();

    let again = create_test_piece();
    let result = db.add_piece(&again);
    assert!(result.is_err());
    let unchanged = db.get_piece(&piece.id).unwrap().unwrap();
    assert_eq!(unchanged.quantity, i32::MAX);
}

#[test]
fn test_update_quantity_is_absolute() {
    let mut db = Database::new(":memory:").unwrap();
    db.init().unwrap();
    let piece = create_test_piece();
    db.add_piece(&piece).unwrap();

    db.update_quantity(&piece.id, 7).unwrap();
    db.update_quantity(&piece.id, 7).unwrap();
    assert_eq!(db.get_piece(&piece.id).unwrap().unwrap().quantity, 7);
}

#[test]
fn test_confidence_survives_storage() {
    let mut db = Database::new(":memory:").unwrap();
    db.init().unwrap();

    for (id, milli) in [("z", 0u32), ("h", 500), ("f", 955), ("o", 1000), ("t", 5)] {
        let mut p = create_test_piece();
        p.id = id.to_string();
        p.confidence = Confidence { milli };
        db.add_piece(&p).unwrap();
        let back = db.get_piece(id).unwrap().unwrap();
        assert_eq!(back.confidence, Confidence { milli });
    }
}
