use studfinder::classify::{
    categorize_part, check_image_dimensions, color_name_for, ColorStandard,
};
use studfinder::error::StudFinderError;
use studfinder::piece::Confidence;

#[test]
fn test_color_names_bricklink() {
    assert_eq!(color_name_for(ColorStandard::BrickLink, "Red"), "Red");
    assert_eq!(color_name_for(ColorStandard::BrickLink, "Green"), "Green");
    assert_eq!(color_name_for(ColorStandard::BrickLink, "Blue"), "Blue");
}

#[test]
fn test_color_names_lego_official() {
    assert_eq!(color_name_for(ColorStandard::LegoOfficial, "Red"), "Bright Red");
    assert_eq!(color_name_for(ColorStandard::LegoOfficial, "Green"), "Dark Green");
    assert_eq!(color_name_for(ColorStandard::LegoOfficial, "Blue"), "Bright Blue");
    assert_eq!(color_name_for(ColorStandard::LegoOfficial, "Yellow"), "Bright Yellow");
    assert_eq!(color_name_for(ColorStandard::LegoOfficial, "White"), "White");
}

#[test]
fn test_categorize_part() {
    assert_eq!(categorize_part("3001"), "Brick");
    assert_eq!(categorize_part("3020"), "Plate");
    assert_eq!(categorize_part("3062"), "Tile");
    assert_eq!(categorize_part("9999"), "Unknown");
}

#[test]
fn test_image_dimension_check() {
    assert!(check_image_dimensions(200, 200, 100, 100).is_ok());
    assert!(check_image_dimensions(100, 100, 100, 100).is_ok());
    let err = check_image_dimensions(50, 200, 100, 100).unwrap_err();
    match err {
        StudFinderError::InvalidDimensions { width, height, min_width, min_height } => {
            assert_eq!(width, 50);
            assert_eq!(height, 200);
            assert_eq!(min_width, 100);
            assert_eq!(min_height, 100);
        },
        e => panic!("Expected InvalidDimensions, got: {:?}", e),
    }
}

#[test]
fn test_confidence_construction() {
    assert_eq!(Confidence::from_milli(950), Some(Confidence { milli: 950 }));
    assert_eq!(Confidence::from_milli(1000), Some(Confidence { milli: 1000 }));
    assert_eq!(Confidence::from_milli(1001), None);
    assert_eq!(Confidence::one(), Confidence { milli: 1000 });
}
