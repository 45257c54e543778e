use studfinder::error::StudFinderError;
use studfinder::piece::{Confidence, ExportFormat, Piece};
use studfinder::storage::export::{format_for_extension, ExportManager};
use uuid::Uuid;

fn create_test_pieces() -> Vec<Piece> {
    vec![
        Piece {
            id: Uuid::new_v4().to_string(),
            part_number: "3001".to_string(),
            color: "Red".to_string(),
            category: "Brick".to_string(),
            quantity: 1,
            confidence: Confidence { milli: 950 },
        },
        Piece {
            id: Uuid::new_v4().to_string(),
            part_number: "3020".to_string(),
            color: "Blue".to_string(),
            category: "Plate".to_string(),
            quantity: 2,
            confidence: Confidence { milli: 850 },
        },
    ]
}

#[test]
fn test_json_export_import() {
    let pieces = create_test_pieces();

    let exported = ExportManager::export_inventory(&pieces, &ExportFormat::Json);
    let imported = ExportManager::import_inventory(&exported, &ExportFormat::Json).unwrap();

    assert_eq!(imported.len(), pieces.len());
    assert_eq!(imported[0].part_number, pieces[0].part_number);
    assert_eq!(imported[1].color, pieces[1].color);
}

#[test]
fn test_csv_export_import() {
    let pieces = create_test_pieces();

    let exported = ExportManager::export_inventory(&pieces, &ExportFormat::Csv);
    let imported = ExportManager::import_inventory(&exported, &ExportFormat::Csv).unwrap();

    assert_eq!(imported.len(), pieces.len());
    assert_eq!(imported[0].part_number, pieces[0].part_number);
    assert_eq!(imported[1].color, pieces[1].color);
}

#[test]
fn test_json_round_trip_preserves_fields() {
    let pieces = create_test_pieces();
    let exported = ExportManager::export_inventory(&pieces, &ExportFormat::Json);
    let imported = ExportManager::import_inventory(&exported, &ExportFormat::Json).unwrap();
    for (a, b) in pieces.iter().zip(imported.iter()) {
        assert_eq!(a.id, b.id);
        assert_eq!(a.part_number, b.part_number);
        assert_eq!(a.color, b.color);
        assert_eq!(a.category, b.category);
        assert_eq!(a.quantity, b.quantity);
        assert_eq!(a.confidence, b.confidence);
    }
}

#[test]
fn test_json_round_trip_with_escapes() {
    let pieces = vec![Piece {
        id: "odd \"name\" with \\ slash".to_string(),
        part_number: "30,01".to_string(),
        color: "Very, Red".to_string(),
        category: "Brick".to_string(),
        quantity: 12,
        confidence: Confidence { milli: 5 },
    }];
    let exported = ExportManager::export_inventory(&pieces, &ExportFormat::Json);
    let imported = ExportManager::import_inventory(&exported, &ExportFormat::Json).unwrap();
    assert_eq!(imported.len(), 1);
    assert_eq!(imported[0].id, pieces[0].id);
    assert_eq!(imported[0].part_number, pieces[0].part_number);
    assert_eq!(imported[0].color, pieces[0].color);
    assert_eq!(imported[0].quantity, 12);
    assert_eq!(imported[0].confidence, Confidence { milli: 5 });
}

#[test]
fn test_json_empty_round_trip() {
    let pieces: Vec<Piece> = Vec::new();
    let exported = ExportManager::export_inventory(&pieces, &ExportFormat::Json);
    assert_eq!(exported, "[]");
    let imported = ExportManager::import_inventory(&exported, &ExportFormat::Json).unwrap();
    assert_eq!(imported.len(), 0);
}

#[test]
fn test_json_exact_text() {
    let pieces = vec![Piece {
        id: "a".to_string(),
        part_number: "3001".to_string(),
        color: "Red".to_string(),
        category: "Brick".to_string(),
        quantity: 1,
        confidence: Confidence { milli: 950 },
    }];
    let exported = ExportManager::export_inventory(&pieces, &ExportFormat::Json);
    let expected = "[\n  {\n    \"id\": \"a\",\n    \"part_number\": \"3001\",\n    \"color\": \"Red\",\n    \"category\": \"Brick\",\n    \"quantity\": 1,\n    \"confidence\": 0.95\n  }\n]";
    assert_eq!(exported, expected);
}

#[test]
fn test_csv_exact_text() {
    let pieces = vec![Piece {
        id: "a".to_string(),
        part_number: "3001".to_string(),
        color: "Red".to_string(),
        category: "Brick".to_string(),
        quantity: 41,
        confidence: Confidence { milli: 1000 },
    }];
    let exported = ExportManager::export_inventory(&pieces, &ExportFormat::Csv);
    let expected = "id,part_number,color,category,quantity,confidence\na,3001,Red,Brick,41,1.0\n";
    assert_eq!(exported, expected);
}

#[test]
fn test_csv_comma_field_is_lossy() {
    let pieces = vec![Piece {
        id: "a".to_string(),
        part_number: "3001".to_string(),
        color: "Red, deep".to_string(),
        category: "Brick".to_string(),
        quantity: 1,
        confidence: Confidence { milli: 950 },
    }];
    let exported = ExportManager::export_inventory(&pieces, &ExportFormat::Csv);
    let imported = ExportManager::import_inventory(&exported, &ExportFormat::Csv).unwrap();
    assert_eq!(imported.len(), 0);
}

#[test]
fn test_json_malformed_is_config_error() {
    let result = ExportManager::import_inventory("not json at all", &ExportFormat::Json);
    assert!(matches!(result, Err(StudFinderError::Config(_))));
}

#[test]
fn test_csv_bad_quantity_is_config_error() {
    let data = "id,part_number,color,category,quantity,confidence\na,3001,Red,Brick,many,0.95\n";
    let result = ExportManager::import_inventory(data, &ExportFormat::Csv);
    match result {
        Err(StudFinderError::Config(m)) => assert_eq!(m, "Failed to parse quantity"),
        other => panic!("Expected Config error, got: {:?}", other),
    }
}

#[test]
fn test_csv_bad_confidence_is_config_error() {
    let data = "id,part_number,color,category,quantity,confidence\na,3001,Red,Brick,1,1.5\n";
    let result = ExportManager::import_inventory(data, &ExportFormat::Csv);
    match result {
        Err(StudFinderError::Config(m)) => assert_eq!(m, "Failed to parse confidence"),
        other => panic!("Expected Config error, got: {:?}", other),
    }
}

#[test]
fn test_csv_confidence_with_extra_precision_accepted() {
    let data = "id,part_number,color,category,quantity,confidence\na,3001,Red,Brick,1,0.950\n";
    let imported = ExportManager::import_inventory(data, &ExportFormat::Csv).unwrap();
    assert_eq!(imported.len(), 1);
    assert_eq!(imported[0].confidence, Confidence { milli: 950 });
}

#[test]
fn test_json_import_requires_interchange_shape() {
    let compact = "[{\"id\":\"a\",\"part_number\":\"3001\",\"color\":\"Red\",\"category\":\"Brick\",\"quantity\":1,\"confidence\":0.95}]";
    let result = ExportManager::import_inventory(compact, &ExportFormat::Json);
    assert!(matches!(result, Err(StudFinderError::Config(_))));
}

#[test]
fn test_format_for_extension() {
    assert_eq!(format_for_extension(Some("json")), ExportFormat::Json);
    assert_eq!(format_for_extension(Some("csv")), ExportFormat::Csv);
    assert_eq!(format_for_extension(Some("txt")), ExportFormat::Csv);
    assert_eq!(format_for_extension(None), ExportFormat::Csv);
}
