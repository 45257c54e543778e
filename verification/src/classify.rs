//! The classification boundary: the naming and sizing rules that detection
//! results are held to before they become catalog records. The image
//! analysis itself lives with the caller; these are the exact rules it
//! applies.

use vstd::prelude::*;
use vstd::string::*;

use crate::error::StudFinderError;

verus! {

/// Which naming standard color names follow.
#[derive(Clone, Copy, Debug, PartialEq, Eq, Structural)]
pub enum ColorStandard {
    /// BrickLink color names.
    BrickLink,
    /// Official LEGO color names.
    LegoOfficial,
}

/// Compares two strings character by character.
fn str_is(s: &str, t: &str) -> (r: bool)
    ensures
        r == (s@ == t@),
{
    let n = s.unicode_len();
    let m = t.unicode_len();
    if n != m {
        return false;
    }
    let mut i: usize = 0;
    while i < n
        invariant
            i <= n,
            n == s@.len(),
            n == t@.len(),
            forall|k: int| 0 <= k < i ==> s@[k] == t@[k],
        decreases n - i,
    {
        if !(s.get_char(i) == t.get_char(i)) {
            return false;
        }
        i = i + 1;
    }
    proof {
        assert(s@ =~= t@);
    }
    true
}

/// The color name a base color carries under a naming standard: BrickLink
/// keeps the base name; the official standard renames the four primary
/// colors.
pub open spec fn color_name_spec(standard: ColorStandard, base: Seq<char>) -> Seq<char> {
    match standard {
        ColorStandard::BrickLink => base,
        ColorStandard::LegoOfficial => if base == "Red"@ {
            "Bright Red"@
        } else if base == "Green"@ {
            "Dark Green"@
        } else if base == "Blue"@ {
            "Bright Blue"@
        } else if base == "Yellow"@ {
            "Bright Yellow"@
        } else {
            base
        },
    }
}

/// Renames a base color to the selected naming standard.
pub fn color_name_for(standard: ColorStandard, base: &str) -> (r: String)
    ensures
        r@ == color_name_spec(standard, base@),
{
    match standard {
        ColorStandard::BrickLink => String::from_str(base),
        ColorStandard::LegoOfficial => {
            if str_is(base, "Red") {
                String::from_str("Bright Red")
            } else if str_is(base, "Green") {
                String::from_str("Dark Green")
            } else if str_is(base, "Blue") {
                String::from_str("Bright Blue")
            } else if str_is(base, "Yellow") {
                String::from_str("Bright Yellow")
            } else {
                String::from_str(base)
            }
        },
    }
}

/// The category a part number falls under: the known numbers map to their
/// shapes, everything else is unknown.
pub open spec fn category_spec(part_number: Seq<char>) -> Seq<char> {
    if part_number == "3001"@ {
        "Brick"@
    } else if part_number == "3020"@ {
        "Plate"@
    } else if part_number == "3062"@ {
        "Tile"@
    } else {
        "Unknown"@
    }
}

/// Categorizes a part by its part number.
pub fn categorize_part(part_number: &str) -> (r: String)
    ensures
        r@ == category_spec(part_number@),
{
    if str_is(part_number, "3001") {
        String::from_str("Brick")
    } else if str_is(part_number, "3020") {
        String::from_str("Plate")
    } else if str_is(part_number, "3062") {
        String::from_str("Tile")
    } else {
        String::from_str("Unknown")
    }
}

/// Accepts an image's dimensions exactly when both reach the required
/// minimum; otherwise reports the dimensions and the minimum that was
/// missed.
pub fn check_image_dimensions(width: u32, height: u32, min_width: u32, min_height: u32) -> (r:
    Result<(), StudFinderError>)
    ensures
        r is Ok <==> width >= min_width && height >= min_height,
        r matches Err(e) ==> e == (StudFinderError::InvalidDimensions {
            width,
            height,
            min_width,
            min_height,
        }),
{
    if width < min_width || height < min_height {
        Err(StudFinderError::InvalidDimensions { width, height, min_width, min_height })
    } else {
        Ok(())
    }
}

} // verus!
