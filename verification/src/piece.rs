use vstd::prelude::*;

verus! {

/// Number of thousandths that make up a whole confidence of 1.0.
pub const CONFIDENCE_UNIT: u32 = 1000;

/// A detection confidence in the closed interval [0.0, 1.0], held as a
/// fixed-point count of thousandths so that it can be reasoned about
/// exactly and rendered as a decimal string.
#[derive(Clone, Copy, Debug, PartialEq, Eq, Structural)]
pub struct Confidence {
    /// Thousandths of 1.0; a valid value is at most `CONFIDENCE_UNIT`.
    pub milli: u32,
}

impl Confidence {
    /// A confidence is valid when it does not exceed 1.0.
    pub open spec fn valid(self) -> bool {
        self.milli <= CONFIDENCE_UNIT
    }

    /// Builds a confidence from a count of thousandths, rejecting values
    /// above 1.0.
    pub fn from_milli(milli: u32) -> (r: Option<Confidence>)
        ensures
            milli <= CONFIDENCE_UNIT ==> r == Some(Confidence { milli }),
            milli > CONFIDENCE_UNIT ==> r is None,
    {
        if milli <= CONFIDENCE_UNIT {
            Some(Confidence { milli })
        } else {
            None
        }
    }

    /// Full confidence, 1.0.
    pub fn one() -> (r: Confidence)
        ensures
            r == (Confidence { milli: CONFIDENCE_UNIT }),
            r.valid(),
    {
        Confidence { milli: CONFIDENCE_UNIT }
    }
}

/// The mathematical value of a catalog record: every field as a sequence
/// or an unbounded integer.
pub ghost struct PieceView {
    pub id: Seq<char>,
    pub part_number: Seq<char>,
    pub color: Seq<char>,
    pub category: Seq<char>,
    pub quantity: int,
    pub confidence: int,
}

impl PieceView {
    /// The store's record invariant: quantity is never negative and
    /// confidence lies in [0.0, 1.0].
    pub open spec fn valid(self) -> bool {
        &&& 0 <= self.quantity <= i32::MAX
        &&& 0 <= self.confidence <= CONFIDENCE_UNIT
    }
}

/// A catalog record: an identified quantity of a part/color/category
/// combination, keyed by an opaque unique id.
#[derive(Clone, Debug)]
pub struct Piece {
    /// Opaque unique identifier; primary key of the store.
    pub id: String,
    /// Part number of the piece.
    pub part_number: String,
    /// Color name.
    pub color: String,
    /// Category, such as Brick, Plate or Tile.
    pub category: String,
    /// How many of this piece are held; never negative.
    pub quantity: i32,
    /// Confidence of the detection that produced the record.
    pub confidence: Confidence,
}

impl View for Piece {
    type V = PieceView;

    open spec fn view(&self) -> PieceView {
        PieceView {
            id: self.id@,
            part_number: self.part_number@,
            color: self.color@,
            category: self.category@,
            quantity: self.quantity as int,
            confidence: self.confidence.milli as int,
        }
    }
}

impl Piece {
    /// A piece is valid when its quantity and confidence satisfy the
    /// store's record invariant.
    pub open spec fn valid(&self) -> bool {
        self@.valid()
    }

    /// Runtime check for the record invariant, for callers outside the
    /// verified world.
    pub fn is_valid(&self) -> (r: bool)
        ensures
            r == self.valid(),
    {
        self.quantity >= 0 && self.confidence.milli <= CONFIDENCE_UNIT
    }
}

/// Type of image processor a caller asks for.
#[derive(Clone, Copy, Debug, PartialEq, Eq, Structural)]
pub enum ProcessorType {
    /// Color-based detection.
    Scanner,
    /// Template matching.
    Detector,
}

/// Interchange format for exporting inventory data.
#[derive(Clone, Copy, Debug, PartialEq, Eq, Structural)]
pub enum ExportFormat {
    /// A pretty-printed array of records.
    Json,
    /// One header line, then one comma-joined line per record.
    Csv,
}

/// Quality level for scanning.
#[derive(Clone, Copy, Debug, PartialEq, Eq, Structural)]
pub enum ScanQuality {
    /// Lower accuracy, higher speed.
    Fast,
    /// Medium accuracy and speed.
    Balanced,
    /// Higher accuracy, lower speed.
    Accurate,
}

} // verus!
