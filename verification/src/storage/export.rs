//! Export/import codec: serializes the full catalog to an interchange
//! format and reconstructs it.
//!
//! The JSON form is a pretty-printed array of objects with the six field
//! names in a fixed order; strings escape the quote and backslash
//! characters and may hold no control characters. The comma-separated form
//! is one header line, then one comma-joined line per record; fields are
//! not escaped, so a field holding a comma or line break does not survive
//! the trip — a documented limitation of that format.

use vstd::prelude::*;
use vstd::string::*;

use crate::error::StudFinderError;
use crate::piece::{Confidence, ExportFormat, Piece, PieceView, CONFIDENCE_UNIT};
use crate::text::{
    conf_field_val, conf_frac, conf_text_of, conf_to_text, dec_of, is_digit, parse_conf_at,
    parse_quantity_at, quantity_field_val, quantity_to_text, parse_conf_field,
    parse_quantity_field, push_char, scan_digits, lemma_quantity_at, lemma_conf_text_at,
    lemma_quantity_round_trip, lemma_conf_round_trip,
    lemma_digits_val_nonneg, lemma_dec_of_props,
};

verus! {

/// The mathematical values of a run of records.
pub open spec fn piece_views(ps: Seq<Piece>) -> Seq<PieceView> {
    Seq::new(ps.len(), |i: int| ps[i]@)
}

/// True of text without control characters, which both interchange formats
/// carry faithfully.
pub open spec fn text_ok(s: Seq<char>) -> bool {
    forall|i: int| 0 <= i < s.len() ==> (#[trigger] s[i]) as u32 >= 32
}

/// A record whose text fields carry no control characters.
pub open spec fn piece_text_ok(p: PieceView) -> bool {
    text_ok(p.id) && text_ok(p.part_number) && text_ok(p.color) && text_ok(p.category)
}

// ------------------------------------------------------------------
// The JSON rendering.
// ------------------------------------------------------------------

/// JSON string escaping: a backslash before every quote or backslash.
pub open spec fn json_escape(s: Seq<char>) -> Seq<char>
    decreases s.len(),
{
    if s.len() == 0 {
        Seq::empty()
    } else {
        (if s[0] == '"' || s[0] == '\\' {
            seq!['\\', s[0]]
        } else {
            seq![s[0]]
        }) + json_escape(s.drop_first())
    }
}

/// A JSON string: the escaped text between quotes.
pub open spec fn json_string(s: Seq<char>) -> Seq<char> {
    seq!['"'] + json_escape(s) + seq!['"']
}

/// One record as a pretty-printed JSON object, fields in their stable
/// order.
pub open spec fn json_object_text(p: PieceView) -> Seq<char> {
    "  {\n    \"id\": "@ + json_string(p.id) + ",\n    \"part_number\": "@ + json_string(
        p.part_number,
    ) + ",\n    \"color\": "@ + json_string(p.color) + ",\n    \"category\": "@ + json_string(
        p.category,
    ) + ",\n    \"quantity\": "@ + dec_of(p.quantity as nat) + ",\n    \"confidence\": "@
        + conf_text_of(p.confidence) + "\n  }"@
}

/// One or more objects, joined by a comma and a line break.
pub open spec fn json_items_text(ps: Seq<PieceView>) -> Seq<char>
    decreases ps.len(),
{
    if ps.len() == 0 {
        Seq::empty()
    } else if ps.len() == 1 {
        json_object_text(ps[0])
    } else {
        json_object_text(ps[0]) + ",\n"@ + json_items_text(ps.drop_first())
    }
}

/// The full catalog as a pretty-printed JSON array.
pub open spec fn json_text(ps: Seq<PieceView>) -> Seq<char> {
    if ps.len() == 0 {
        "[]"@
    } else {
        "[\n"@ + json_items_text(ps) + "\n]"@
    }
}

// ------------------------------------------------------------------
// The comma-separated rendering.
// ------------------------------------------------------------------

/// The header line naming the six fields.
pub open spec fn csv_header() -> Seq<char> {
    "id,part_number,color,category,quantity,confidence\n"@
}

/// One record as a comma-joined line.
pub open spec fn csv_line(p: PieceView) -> Seq<char> {
    p.id + ","@ + p.part_number + ","@ + p.color + ","@ + p.category + ","@ + dec_of(
        p.quantity as nat,
    ) + ","@ + conf_text_of(p.confidence) + "\n"@
}

/// The records' lines, in order.
pub open spec fn csv_lines(ps: Seq<PieceView>) -> Seq<char>
    decreases ps.len(),
{
    if ps.len() == 0 {
        Seq::empty()
    } else {
        csv_line(ps[0]) + csv_lines(ps.drop_first())
    }
}

/// The full catalog as comma-separated text.
pub open spec fn csv_text(ps: Seq<PieceView>) -> Seq<char> {
    csv_header() + csv_lines(ps)
}

/// What export renders, by format.
pub open spec fn export_text(ps: Seq<PieceView>, format: ExportFormat) -> Seq<char> {
    match format {
        ExportFormat::Json => json_text(ps),
        ExportFormat::Csv => csv_text(ps),
    }
}

// ------------------------------------------------------------------
// The JSON grammar, read back.
// ------------------------------------------------------------------

/// The text `t` sits in `s` at position `i`.
pub open spec fn has_at(s: Seq<char>, i: int, t: Seq<char>) -> bool {
    0 <= i && i + t.len() <= s.len() && s.subrange(i, i + t.len() as int) == t
}

/// Reads a JSON string body up to its closing quote, undoing the escapes;
/// raw control characters and unknown escapes are refused.
pub open spec fn parse_jstring_body(s: Seq<char>, i: int) -> Option<(Seq<char>, int)>
    decreases s.len() - i,
{
    if i < 0 || i >= s.len() {
        None
    } else if s[i] == '"' {
        Some((Seq::empty(), i + 1))
    } else if s[i] == '\\' {
        if i + 1 < s.len() && (s[i + 1] == '"' || s[i + 1] == '\\') {
            match parse_jstring_body(s, i + 2) {
                Some((t, j)) => Some((seq![s[i + 1]] + t, j)),
                None => None,
            }
        } else {
            None
        }
    } else if (s[i] as u32) < 32 {
        None
    } else {
        match parse_jstring_body(s, i + 1) {
            Some((t, j)) => Some((seq![s[i]] + t, j)),
            None => None,
        }
    }
}

/// Reads a quoted JSON string starting at `i`.
pub open spec fn parse_jstring(s: Seq<char>, i: int) -> Option<(Seq<char>, int)> {
    if 0 <= i < s.len() && s[i] == '"' {
        parse_jstring_body(s, i + 1)
    } else {
        None
    }
}

/// Reads one object in the pretty-printed shape, fields in their stable
/// order.
pub open spec fn parse_object_at(s: Seq<char>, i: int) -> Option<(PieceView, int)> {
    let l_id = "  {\n    \"id\": "@;
    let l_part = ",\n    \"part_number\": "@;
    let l_color = ",\n    \"color\": "@;
    let l_cat = ",\n    \"category\": "@;
    let l_qty = ",\n    \"quantity\": "@;
    let l_conf = ",\n    \"confidence\": "@;
    let l_end = "\n  }"@;
    if !has_at(s, i, l_id) {
        None
    } else {
        match parse_jstring(s, i + l_id.len()) {
            None => None,
            Some((id, a)) => if !has_at(s, a, l_part) {
                None
            } else {
                match parse_jstring(s, a + l_part.len()) {
                    None => None,
                    Some((part_number, b)) => if !has_at(s, b, l_color) {
                        None
                    } else {
                        match parse_jstring(s, b + l_color.len()) {
                            None => None,
                            Some((color, c)) => if !has_at(s, c, l_cat) {
                                None
                            } else {
                                match parse_jstring(s, c + l_cat.len()) {
                                    None => None,
                                    Some((category, d)) => if !has_at(s, d, l_qty) {
                                        None
                                    } else {
                                        match parse_quantity_at(s, d + l_qty.len()) {
                                            None => None,
                                            Some((quantity, e)) => if !has_at(s, e, l_conf) {
                                                None
                                            } else {
                                                match parse_conf_at(s, e + l_conf.len()) {
                                                    None => None,
                                                    Some((confidence, g)) => if !has_at(
                                                        s,
                                                        g,
                                                        l_end,
                                                    ) {
                                                        None
                                                    } else {
                                                        Some(
                                                            (
                                                                PieceView {
                                                                    id,
                                                                    part_number,
                                                                    color,
                                                                    category,
                                                                    quantity,
                                                                    confidence,
                                                                },
                                                                g + l_end.len(),
                                                            ),
                                                        )
                                                    },
                                                }
                                            },
                                        }
                                    },
                                }
                            },
                        }
                    },
                }
            },
        }
    }
}

/// Reads one or more objects joined by a comma and a line break.
pub open spec fn parse_items_at(s: Seq<char>, i: int) -> Option<(Seq<PieceView>, int)>
    decreases s.len() + 2 - i,
{
    if i < 0 || i > s.len() {
        None
    } else {
        match parse_object_at(s, i) {
            None => None,
            Some((p, j)) => if has_at(s, j, ",\n"@) {
                if j + 2 <= i || j > s.len() {
                    None
                } else {
                    match parse_items_at(s, j + 2) {
                        Some((ps, k)) => Some((seq![p] + ps, k)),
                        None => None,
                    }
                }
            } else {
                Some((seq![p], j))
            },
        }
    }
}

/// Reads a full catalog from its pretty-printed JSON array rendering.
pub open spec fn json_parse(s: Seq<char>) -> Option<Seq<PieceView>> {
    if s == "[]"@ {
        Some(Seq::empty())
    } else if has_at(s, 0, "[\n"@) {
        match parse_items_at(s, "[\n"@.len() as int) {
            Some((ps, j)) => if has_at(s, j, "\n]"@) && j + "\n]"@.len() == s.len() {
                Some(ps)
            } else {
                None
            },
            None => None,
        }
    } else {
        None
    }
}

// ------------------------------------------------------------------
// The comma-separated grammar, read back.
// ------------------------------------------------------------------

/// First index at or after `i` that holds `c`, or the end.
pub open spec fn scan_to(s: Seq<char>, i: int, c: char) -> int
    decreases s.len() - i,
{
    if i < 0 || i >= s.len() || s[i] == c {
        i
    } else {
        scan_to(s, i + 1, c)
    }
}

/// Splits the rest of a line, from `pos` on, on commas; no escaping is
/// understood.
pub open spec fn split_fields_at(line: Seq<char>, pos: int) -> Seq<Seq<char>>
    decreases line.len() - pos,
{
    let c = scan_to(line, pos, ',');
    if c < pos || c >= line.len() {
        seq![line.subrange(pos, line.len() as int)]
    } else {
        seq![line.subrange(pos, c)] + split_fields_at(line, c + 1)
    }
}

/// Splits a line on commas; no escaping is understood.
pub open spec fn split_fields(line: Seq<char>) -> Seq<Seq<char>> {
    split_fields_at(line, 0)
}

/// Reads the record lines from `i` on. A line that does not split into
/// exactly six fields is passed over; a six-field line with an unreadable
/// quantity or confidence refuses the whole text.
pub open spec fn csv_rows(s: Seq<char>, i: int) -> Option<Seq<PieceView>>
    decreases s.len() - i,
{
    if i < 0 || i >= s.len() {
        Some(Seq::empty())
    } else {
        let e = scan_to(s, i, '\n');
        let rest = if e + 1 >= s.len() {
            Some(Seq::<PieceView>::empty())
        } else if e < i {
            None
        } else {
            csv_rows(s, e + 1)
        };
        let fs = split_fields(s.subrange(i, e));
        if fs.len() != 6 {
            rest
        } else {
            match quantity_field_val(fs[4]) {
                None => None,
                Some(q) => match conf_field_val(fs[5]) {
                    None => None,
                    Some(cf) => match rest {
                        None => None,
                        Some(ps) => Some(
                            seq![
                                PieceView {
                                    id: fs[0],
                                    part_number: fs[1],
                                    color: fs[2],
                                    category: fs[3],
                                    quantity: q,
                                    confidence: cf,
                                },
                            ] + ps,
                        ),
                    },
                },
            }
        }
    }
}

/// Reads a full catalog from comma-separated text: the first line is the
/// header and is passed over.
pub open spec fn csv_parse(s: Seq<char>) -> Option<Seq<PieceView>> {
    let e = scan_to(s, 0, '\n');
    if e + 1 >= s.len() {
        Some(Seq::empty())
    } else {
        csv_rows(s, e + 1)
    }
}

/// What import reads, by format.
pub open spec fn import_parse(s: Seq<char>, format: ExportFormat) -> Option<Seq<PieceView>> {
    match format {
        ExportFormat::Json => json_parse(s),
        ExportFormat::Csv => csv_parse(s),
    }
}

// ------------------------------------------------------------------
// Rendering, executably.
// ------------------------------------------------------------------

/// Escaping distributes over concatenation.
pub proof fn lemma_escape_concat(a: Seq<char>, b: Seq<char>)
    ensures
        json_escape(a + b) == json_escape(a) + json_escape(b),
    decreases a.len(),
{
    if a.len() == 0 {
        assert(a + b =~= b);
        assert(json_escape(a) + json_escape(b) =~= json_escape(b));
    } else {
        lemma_escape_concat(a.drop_first(), b);
        assert((a + b).drop_first() =~= a.drop_first() + b);
        assert((a + b)[0] == a[0]);
        assert(json_escape(a + b) =~= json_escape(a) + json_escape(b));
    }
}

/// Appends the JSON string rendering of the text.
fn append_json_string(out: &mut String, f: &str)
    ensures
        final(out)@ == old(out)@ + json_string(f@),
{
    push_char(out, '"');
    let n = f.unicode_len();
    let mut i: usize = 0;
    while i < n
        invariant
            i <= n,
            n == f@.len(),
            out@ == old(out)@ + seq!['"'] + json_escape(f@.take(i as int)),
        decreases n - i,
    {
        let c = f.get_char(i);
        let ghost pre = f@.take(i as int);
        if c == '"' || c == '\\' {
            push_char(out, '\\');
        }
        push_char(out, c);
        proof {
            reveal_with_fuel(json_escape, 3);
            let ghost esc_c: Seq<char> = if c == '"' || c == '\\' {
                seq!['\\', c]
            } else {
                seq![c]
            };
            lemma_escape_concat(pre, seq![c]);
            assert(f@.take(i as int + 1) =~= pre + seq![c]);
            assert(seq![c].drop_first() =~= Seq::<char>::empty());
            assert(json_escape(seq![c]) =~= esc_c);
            assert(out@ =~= old(out)@ + seq!['"'] + (json_escape(pre) + esc_c));
            assert(out@ =~= old(out)@ + seq!['"'] + json_escape(f@.take(i as int + 1)));
        }
        i = i + 1;
    }
    push_char(out, '"');
    proof {
        assert(f@.take(n as int) =~= f@);
        assert(out@ =~= old(out)@ + json_string(f@));
    }
}

/// Appends the pretty-printed object rendering of one record.
#[verifier::rlimit(40)]
fn append_json_object(out: &mut String, p: &Piece)
    requires
        p@.valid(),
    ensures
        final(out)@ == old(out)@ + json_object_text(p@),
{
    out.append("  {\n    \"id\": ");
    append_json_string(out, p.id.as_str());
    out.append(",\n    \"part_number\": ");
    append_json_string(out, p.part_number.as_str());
    out.append(",\n    \"color\": ");
    append_json_string(out, p.color.as_str());
    out.append(",\n    \"category\": ");
    append_json_string(out, p.category.as_str());
    out.append(",\n    \"quantity\": ");
    let q = quantity_to_text(p.quantity);
    out.append(q.as_str());
    out.append(",\n    \"confidence\": ");
    let cf = conf_to_text(p.confidence.milli);
    out.append(cf.as_str());
    out.append("\n  }");
    proof {
        assert(out@ =~= old(out)@ + json_object_text(p@));
    }
}

/// Appending one more record to a non-empty run joins it with a comma and
/// a line break.
#[verifier::rlimit(40)]
pub proof fn lemma_json_items_push(ps: Seq<PieceView>, p: PieceView)
    requires
        ps.len() >= 1,
    ensures
        json_items_text(ps.push(p)) == json_items_text(ps) + ",\n"@ + json_object_text(p),
    decreases ps.len(),
{
    reveal_with_fuel(json_items_text, 3);
    if ps.len() == 1 {
        assert(ps.push(p).drop_first() =~= seq![p]);
        assert(ps.push(p)[0] == ps[0]);
        assert(seq![p][0] == p);
        assert(json_items_text(ps.push(p)) =~= json_items_text(ps) + ",\n"@ + json_object_text(p));
    } else {
        lemma_json_items_push(ps.drop_first(), p);
        assert(ps.push(p).drop_first() =~= ps.drop_first().push(p));
        assert(ps.push(p)[0] == ps[0]);
        assert(json_items_text(ps.push(p)) =~= json_items_text(ps) + ",\n"@ + json_object_text(p));
    }
}

/// Appending one more record adds its line.
pub proof fn lemma_csv_lines_push(ps: Seq<PieceView>, p: PieceView)
    ensures
        csv_lines(ps.push(p)) == csv_lines(ps) + csv_line(p),
    decreases ps.len(),
{
    reveal_with_fuel(csv_lines, 3);
    if ps.len() == 0 {
        assert(ps.push(p).drop_first() =~= Seq::<PieceView>::empty());
        assert(ps.push(p)[0] == p);
        assert(csv_lines(ps.push(p)) =~= csv_lines(ps) + csv_line(p));
    } else {
        lemma_csv_lines_push(ps.drop_first(), p);
        assert(ps.push(p).drop_first() =~= ps.drop_first().push(p));
        assert(ps.push(p)[0] == ps[0]);
        assert(csv_lines(ps.push(p)) =~= csv_lines(ps) + csv_line(p));
    }
}

/// Renders the catalog as a pretty-printed JSON array.
fn json_export(pieces: &Vec<Piece>) -> (r: String)
    requires
        forall|i: int| 0 <= i < pieces@.len() ==> (#[trigger] pieces@[i])@.valid(),
    ensures
        r@ == json_text(piece_views(pieces@)),
{
    let ghost vs = piece_views(pieces@);
    if pieces.len() == 0 {
        let s = String::from_str("[]");
        return s;
    }
    let mut out = String::from_str("[\n");
    let mut i: usize = 0;
    while i < pieces.len()
        invariant
            i <= pieces@.len(),
            pieces@.len() >= 1,
            forall|k: int| 0 <= k < pieces@.len() ==> (#[trigger] pieces@[k])@.valid(),
            vs == piece_views(pieces@),
            i == 0 ==> out@ == "[\n"@,
            i >= 1 ==> out@ == "[\n"@ + json_items_text(vs.take(i as int)),
        decreases pieces@.len() - i,
    {
        let ghost taken = vs.take(i as int);
        if i > 0 {
            out.append(",\n");
        }
        append_json_object(&mut out, &pieces[i]);
        proof {
            assert(vs[i as int] == pieces@[i as int]@);
            assert(vs.take(i as int + 1) =~= taken.push(vs[i as int]));
            if i == 0 {
                assert(json_items_text(vs.take(1)) == json_object_text(vs[0]));
                assert(out@ =~= "[\n"@ + json_items_text(vs.take(1)));
            } else {
                lemma_json_items_push(taken, vs[i as int]);
                assert(out@ =~= "[\n"@ + json_items_text(vs.take(i as int + 1)));
            }
        }
        i = i + 1;
    }
    out.append("\n]");
    proof {
        assert(vs.take(pieces@.len() as int) =~= vs);
        assert(out@ =~= json_text(vs));
    }
    out
}

/// Appends the comma-joined line rendering of one record.
#[verifier::rlimit(40)]
fn append_csv_line(out: &mut String, p: &Piece)
    requires
        p@.valid(),
    ensures
        final(out)@ == old(out)@ + csv_line(p@),
{
    out.append(p.id.as_str());
    out.append(",");
    out.append(p.part_number.as_str());
    out.append(",");
    out.append(p.color.as_str());
    out.append(",");
    out.append(p.category.as_str());
    out.append(",");
    let q = quantity_to_text(p.quantity);
    out.append(q.as_str());
    out.append(",");
    let cf = conf_to_text(p.confidence.milli);
    out.append(cf.as_str());
    out.append("\n");
    proof {
        assert(out@ =~= old(out)@ + csv_line(p@));
    }
}

/// Renders the catalog as comma-separated text.
fn csv_export(pieces: &Vec<Piece>) -> (r: String)
    requires
        forall|i: int| 0 <= i < pieces@.len() ==> (#[trigger] pieces@[i])@.valid(),
    ensures
        r@ == csv_text(piece_views(pieces@)),
{
    let ghost vs = piece_views(pieces@);
    let mut out = String::from_str("id,part_number,color,category,quantity,confidence\n");
    let mut i: usize = 0;
    proof {
        assert(vs.take(0) =~= Seq::<PieceView>::empty());
        assert(out@ =~= csv_header() + csv_lines(vs.take(0)));
    }
    while i < pieces.len()
        invariant
            i <= pieces@.len(),
            forall|k: int| 0 <= k < pieces@.len() ==> (#[trigger] pieces@[k])@.valid(),
            vs == piece_views(pieces@),
            out@ == csv_header() + csv_lines(vs.take(i as int)),
        decreases pieces@.len() - i,
    {
        let ghost taken = vs.take(i as int);
        append_csv_line(&mut out, &pieces[i]);
        proof {
            assert(vs[i as int] == pieces@[i as int]@);
            assert(vs.take(i as int + 1) =~= taken.push(vs[i as int]));
            lemma_csv_lines_push(taken, vs[i as int]);
            assert(out@ =~= csv_header() + csv_lines(vs.take(i as int + 1)));
        }
        i = i + 1;
    }
    proof {
        assert(vs.take(pieces@.len() as int) =~= vs);
    }
    out
}

/// Serializes and reconstructs inventory data.
pub struct ExportManager;

impl ExportManager {
    /// Serializes the records in the given interchange format. The records
    /// must satisfy the store's record invariant; what text fields survive
    /// the trip depends on the format.
    pub fn export_inventory(pieces: &Vec<Piece>, format: &ExportFormat) -> (r: String)
        requires
            forall|i: int| 0 <= i < pieces@.len() ==> (#[trigger] pieces@[i])@.valid(),
        ensures
            r@ == export_text(piece_views(pieces@), *format),
    {
        match format {
            ExportFormat::Json => json_export(pieces),
            ExportFormat::Csv => csv_export(pieces),
        }
    }
}

// ------------------------------------------------------------------
// The JSON round trip.
// ------------------------------------------------------------------

/// A text sitting at `i` splits into its two halves.
proof fn lemma_has_at_split(s: Seq<char>, i: int, a: Seq<char>, b: Seq<char>)
    requires
        has_at(s, i, a + b),
    ensures
        has_at(s, i, a),
        has_at(s, i + a.len(), b),
{
    let n = a.len() as int;
    let m = b.len() as int;
    assert forall|k: int| 0 <= k < n implies s[i + k] == a[k] by {
        assert(s.subrange(i, i + n + m)[k] == (a + b)[k]);
    }
    assert(s.subrange(i, i + n) =~= a);
    assert forall|k: int| 0 <= k < m implies s[i + n + k] == b[k] by {
        assert(s.subrange(i, i + n + m)[n + k] == (a + b)[n + k]);
    }
    assert(s.subrange(i + n, i + n + m) =~= b);
}

/// An escaped text sitting before a closing quote reads back as the
/// original text.
proof fn lemma_jstring_body_at(s: Seq<char>, i: int, t: Seq<char>)
    requires
        text_ok(t),
        has_at(s, i, json_escape(t) + seq!['"']),
    ensures
        parse_jstring_body(s, i) == Some((t, i + json_escape(t).len() + 1)),
    decreases t.len(),
{
    if t.len() == 0 {
        assert(json_escape(t) =~= Seq::<char>::empty());
        assert(json_escape(t) + seq!['"'] =~= seq!['"']);
        assert(s[i] == '"') by {
            assert(s.subrange(i, i + 1)[0] == (json_escape(t) + seq!['"'])[0]);
        }
    } else {
        let c = t[0];
        let t2 = t.drop_first();
        assert(c as u32 >= 32) by {
            assert(t[0] as u32 >= 32);
        }
        assert(text_ok(t2)) by {
            assert(forall|k: int| 0 <= k < t2.len() ==> t2[k] == #[trigger] t[k + 1]);
        }
        let esc_head: Seq<char> = if c == '"' || c == '\\' {
            seq!['\\', c]
        } else {
            seq![c]
        };
        assert(json_escape(t) == esc_head + json_escape(t2));
        let tail = json_escape(t2) + seq!['"'];
        assert((esc_head + json_escape(t2)) + seq!['"'] =~= esc_head + tail);
        lemma_has_at_split(s, i, esc_head, json_escape(t2) + seq!['"']);
        if c == '"' || c == '\\' {
            assert(s[i] == '\\' && s[i + 1] == c) by {
                assert(s.subrange(i, i + 2)[0] == esc_head[0]);
                assert(s.subrange(i, i + 2)[1] == esc_head[1]);
            }
            lemma_jstring_body_at(s, i + 2, t2);
            assert(seq![c] + t2 =~= t);
        } else {
            assert(s[i] == c) by {
                assert(s.subrange(i, i + 1)[0] == esc_head[0]);
            }
            lemma_jstring_body_at(s, i + 1, t2);
            assert(seq![c] + t2 =~= t);
        }
    }
}

/// A rendered JSON string sitting at `i` reads back as the original text.
proof fn lemma_jstring_at(s: Seq<char>, i: int, t: Seq<char>)
    requires
        text_ok(t),
        has_at(s, i, json_string(t)),
    ensures
        parse_jstring(s, i) == Some((t, i + json_string(t).len() as int)),
{
    assert(json_string(t) =~= seq!['"'] + (json_escape(t) + seq!['"']));
    lemma_has_at_split(s, i, seq!['"'], json_escape(t) + seq!['"']);
    assert(s[i] == '"') by {
        assert(s.subrange(i, i + 1)[0] == seq!['"'][0]);
    }
    lemma_jstring_body_at(s, i + 1, t);
}

/// A rendered object sitting at `i` reads back as the original record.
proof fn lemma_object_at(s: Seq<char>, i: int, p: PieceView)
    requires
        p.valid(),
        piece_text_ok(p),
        has_at(s, i, json_object_text(p)),
    ensures
        parse_object_at(s, i) == Some((p, i + json_object_text(p).len() as int)),
{
    let l_id = "  {\n    \"id\": "@;
    let l_part = ",\n    \"part_number\": "@;
    let l_color = ",\n    \"color\": "@;
    let l_cat = ",\n    \"category\": "@;
    let l_qty = ",\n    \"quantity\": "@;
    let l_conf = ",\n    \"confidence\": "@;
    let l_end = "\n  }"@;
    let s_id = json_string(p.id);
    let s_part = json_string(p.part_number);
    let s_color = json_string(p.color);
    let s_cat = json_string(p.category);
    let qt = dec_of(p.quantity as nat);
    let cf = conf_text_of(p.confidence);
    let a0 = l_id;
    let a1 = a0 + s_id;
    let a2 = a1 + l_part;
    let a3 = a2 + s_part;
    let a4 = a3 + l_color;
    let a5 = a4 + s_color;
    let a6 = a5 + l_cat;
    let a7 = a6 + s_cat;
    let a8 = a7 + l_qty;
    let a9 = a8 + qt;
    let a10 = a9 + l_conf;
    let a11 = a10 + cf;
    assert(json_object_text(p) == a11 + l_end);
    lemma_has_at_split(s, i, a11, l_end);
    lemma_has_at_split(s, i, a10, cf);
    lemma_has_at_split(s, i, a9, l_conf);
    lemma_has_at_split(s, i, a8, qt);
    lemma_has_at_split(s, i, a7, l_qty);
    lemma_has_at_split(s, i, a6, s_cat);
    lemma_has_at_split(s, i, a5, l_cat);
    lemma_has_at_split(s, i, a4, s_color);
    lemma_has_at_split(s, i, a3, l_color);
    lemma_has_at_split(s, i, a2, s_part);
    lemma_has_at_split(s, i, a1, l_part);
    lemma_has_at_split(s, i, a0, s_id);
    lemma_jstring_at(s, i + a0.len(), p.id);
    lemma_jstring_at(s, i + a2.len(), p.part_number);
    lemma_jstring_at(s, i + a4.len(), p.color);
    lemma_jstring_at(s, i + a6.len(), p.category);
    reveal_strlit(",\n    \"confidence\": ");
    reveal_strlit("\n  }");
    assert(s[i + a9.len()] == ',') by {
        assert(s.subrange(i + a9.len(), i + a10.len() as int)[0] == l_conf[0]);
    }
    assert(!is_digit(',')) by {
        reveal_strlit(",\n    \"confidence\": ");
    }
    lemma_quantity_at(s, i + a8.len(), p.quantity);
    assert(s[i + a11.len()] == '\n') by {
        assert(s.subrange(i + a11.len(), i + a11.len() + l_end.len() as int)[0] == l_end[0]);
    }
    lemma_conf_text_at(s, i + a10.len(), p.confidence);
    assert(parse_object_at(s, i) == Some((p, i + json_object_text(p).len() as int)));
}

/// A rendered run of objects sitting at `i`, not followed by a comma,
/// reads back as the original records.
proof fn lemma_items_at(s: Seq<char>, i: int, ps: Seq<PieceView>)
    requires
        ps.len() >= 1,
        forall|k: int|
            0 <= k < ps.len() ==> (#[trigger] ps[k]).valid() && piece_text_ok(ps[k]),
        has_at(s, i, json_items_text(ps)),
        i + json_items_text(ps).len() == s.len() || s[i + json_items_text(ps).len()] != ',',
    ensures
        parse_items_at(s, i) == Some((ps, i + json_items_text(ps).len() as int)),
    decreases ps.len(),
{
    reveal_strlit(",\n");
    if ps.len() == 1 {
        assert(ps[0].valid() && piece_text_ok(ps[0]));
        lemma_object_at(s, i, ps[0]);
        let j = i + json_object_text(ps[0]).len() as int;
        assert(!has_at(s, j, ",\n"@)) by {
            if has_at(s, j, ",\n"@) {
                assert(s.subrange(j, j + 2)[0] == ",\n"@[0]);
                assert(s[j] == ',');
            }
        }
        assert(seq![ps[0]] =~= ps);
    } else {
        let obj = json_object_text(ps[0]);
        let rest = json_items_text(ps.drop_first());
        assert(json_items_text(ps) == obj + ",\n"@ + rest);
        lemma_has_at_split(s, i, obj + ",\n"@, rest);
        lemma_has_at_split(s, i, obj, ",\n"@);
        assert(ps[0].valid() && piece_text_ok(ps[0]));
        lemma_object_at(s, i, ps[0]);
        let j = i + obj.len() as int;
        assert(has_at(s, j, ",\n"@));
        assert(forall|k: int|
            0 <= k < ps.drop_first().len() ==> ps.drop_first()[k] == #[trigger] ps[k + 1]);
        lemma_items_at(s, j + 2, ps.drop_first());
        assert(seq![ps[0]] + ps.drop_first() =~= ps);
    }
}

/// Round trip: reading back the JSON rendering of any run of valid records
/// without control characters in their text fields yields exactly those
/// records.
pub proof fn lemma_json_round_trip(ps: Seq<PieceView>)
    requires
        forall|k: int|
            0 <= k < ps.len() ==> (#[trigger] ps[k]).valid() && piece_text_ok(ps[k]),
    ensures
        json_parse(json_text(ps)) == Some(ps),
{
    let s = json_text(ps);
    if ps.len() == 0 {
        assert(ps =~= Seq::<PieceView>::empty());
    } else {
        reveal_strlit("[]");
        reveal_strlit("[\n");
        reveal_strlit("\n]");
        let items = json_items_text(ps);
        assert(s == "[\n"@ + items + "\n]"@);
        lemma_has_at_whole(s, "[\n"@ + items, "\n]"@);
        lemma_has_at_split(s, 0, "[\n"@, items);
        let e = 2 + items.len() as int;
        assert(s[e] == '\n') by {
            assert(s.subrange(e, e + 2)[0] == "\n]"@[0]);
        }
        lemma_items_at(s, 2, ps);
        assert(has_at(s, e, "\n]"@));
        assert(e + 2 == s.len());
        assert(s != "[]"@) by {
            assert(s.len() >= 4);
        }
        assert(json_parse(s) == Some(ps));
    }
}

/// A text equal to a concatenation holds both halves in place.
proof fn lemma_has_at_whole(s: Seq<char>, a: Seq<char>, b: Seq<char>)
    requires
        s == a + b,
    ensures
        has_at(s, 0, a),
        has_at(s, a.len() as int, b),
{
    assert(s.subrange(0, a.len() as int) =~= a);
    assert(s.subrange(a.len() as int, s.len() as int) =~= b);
}

// ------------------------------------------------------------------
// The comma-separated round trip.
// ------------------------------------------------------------------

/// True of text without the comma-separated format's two delimiters; only
/// such fields survive that format.
pub open spec fn csv_field_ok(s: Seq<char>) -> bool {
    forall|i: int| 0 <= i < s.len() ==> (#[trigger] s[i]) != ',' && s[i] != '\n'
}

/// A record whose text fields hold neither delimiter.
pub open spec fn csv_piece_ok(p: PieceView) -> bool {
    csv_field_ok(p.id) && csv_field_ok(p.part_number) && csv_field_ok(p.color) && csv_field_ok(
        p.category,
    )
}

/// A scan over a run free of the target, ending at the end or at the
/// target, stops exactly at the run's end.
proof fn lemma_scan_to_determined(s: Seq<char>, i: int, j: int, c: char)
    requires
        0 <= i <= j <= s.len(),
        forall|k: int| i <= k < j ==> (#[trigger] s[k]) != c,
        j == s.len() || s[j] == c,
    ensures
        scan_to(s, i, c) == j,
    decreases j - i,
{
    if i < j {
        lemma_scan_to_determined(s, i + 1, j, c);
    }
}

/// The decimal rendering of a number holds neither delimiter.
proof fn lemma_dec_of_csv_ok(n: nat)
    ensures
        csv_field_ok(dec_of(n)),
{
    lemma_dec_of_props(n);
    assert forall|i: int| 0 <= i < dec_of(n).len() implies (#[trigger] dec_of(n)[i]) != ','
        && dec_of(n)[i] != '\n' by {
        assert(is_digit(dec_of(n)[i]));
    }
}

/// The canonical confidence rendering holds neither delimiter.
proof fn lemma_conf_text_csv_ok(c: int)
    ensures
        csv_field_ok(conf_text_of(c)),
{
    let t = conf_text_of(c);
    assert forall|i: int| 0 <= i < t.len() implies (#[trigger] t[i]) != ',' && t[i] != '\n' by {
        if !(c <= 0 || c >= CONFIDENCE_UNIT) {
            let f = conf_frac(c);
            assert(t =~= seq!['0', '.'] + f);
            if i >= 2 {
                assert(t[i] == f[i - 2]);
            }
        }
    }
}

/// Splitting the comma-joined rendering of six delimiter-free fields gives
/// back exactly those six fields.
proof fn lemma_split_joined(fs: Seq<Seq<char>>)
    requires
        fs.len() == 6,
        forall|k: int| 0 <= k < 6 ==> csv_field_ok(#[trigger] fs[k]),
    ensures
        split_fields(
            fs[0] + ","@ + fs[1] + ","@ + fs[2] + ","@ + fs[3] + ","@ + fs[4] + ","@ + fs[5],
        ) == fs,
{
    reveal_strlit(",");
    let lb = fs[0] + ","@ + fs[1] + ","@ + fs[2] + ","@ + fs[3] + ","@ + fs[4] + ","@ + fs[5];
    let p0: int = 0;
    let p1: int = fs[0].len() as int + 1;
    let p2: int = p1 + fs[1].len() + 1;
    let p3: int = p2 + fs[2].len() + 1;
    let p4: int = p3 + fs[3].len() + 1;
    let p5: int = p4 + fs[4].len() + 1;
    let n = lb.len() as int;
    assert(n == p5 + fs[5].len());
    assert forall|k: int| 0 <= k < n implies #[trigger] lb[k] == (if k < p1 - 1 {
        fs[0][k]
    } else if k == p1 - 1 {
        ','
    } else if k < p2 - 1 {
        fs[1][k - p1]
    } else if k == p2 - 1 {
        ','
    } else if k < p3 - 1 {
        fs[2][k - p2]
    } else if k == p3 - 1 {
        ','
    } else if k < p4 - 1 {
        fs[3][k - p3]
    } else if k == p4 - 1 {
        ','
    } else if k < p5 - 1 {
        fs[4][k - p4]
    } else if k == p5 - 1 {
        ','
    } else {
        fs[5][k - p5]
    }) by {}
    lemma_scan_to_determined(lb, p0, p1 - 1, ',');
    lemma_scan_to_determined(lb, p1, p2 - 1, ',');
    lemma_scan_to_determined(lb, p2, p3 - 1, ',');
    lemma_scan_to_determined(lb, p3, p4 - 1, ',');
    lemma_scan_to_determined(lb, p4, p5 - 1, ',');
    lemma_scan_to_determined(lb, p5, n, ',');
    assert(lb.subrange(p0, p1 - 1) =~= fs[0]);
    assert(lb.subrange(p1, p2 - 1) =~= fs[1]);
    assert(lb.subrange(p2, p3 - 1) =~= fs[2]);
    assert(lb.subrange(p3, p4 - 1) =~= fs[3]);
    assert(lb.subrange(p4, p5 - 1) =~= fs[4]);
    assert(lb.subrange(p5, n) =~= fs[5]);
    assert(split_fields_at(lb, p5) =~= seq![fs[5]]);
    assert(split_fields_at(lb, p4) =~= seq![fs[4], fs[5]]);
    assert(split_fields_at(lb, p3) =~= seq![fs[3], fs[4], fs[5]]);
    assert(split_fields_at(lb, p2) =~= seq![fs[2], fs[3], fs[4], fs[5]]);
    assert(split_fields_at(lb, p1) =~= seq![fs[1], fs[2], fs[3], fs[4], fs[5]]);
    assert(split_fields_at(lb, p0) =~= seq![fs[0], fs[1], fs[2], fs[3], fs[4], fs[5]]);
    assert(split_fields(lb) =~= fs);
}

/// True of text without a line break.
spec fn no_newline(s: Seq<char>) -> bool {
    forall|i: int| 0 <= i < s.len() ==> (#[trigger] s[i]) != '\n'
}

/// Freedom from line breaks carries over concatenation.
proof fn lemma_no_newline_concat(a: Seq<char>, b: Seq<char>)
    requires
        no_newline(a),
        no_newline(b),
    ensures
        no_newline(a + b),
{
    assert forall|i: int| 0 <= i < (a + b).len() implies (#[trigger] (a + b)[i]) != '\n' by {
        if i < a.len() {
            assert((a + b)[i] == a[i]);
        } else {
            assert((a + b)[i] == b[i - a.len()]);
        }
    }
}

/// A record's line, split at its closing line break.
spec fn csv_line_body(p: PieceView) -> Seq<char> {
    p.id + ","@ + p.part_number + ","@ + p.color + ","@ + p.category + ","@ + dec_of(
        p.quantity as nat,
    ) + ","@ + conf_text_of(p.confidence)
}

/// The body of a record's line holds no line break.
proof fn lemma_line_body_no_newline(p: PieceView)
    requires
        csv_piece_ok(p),
    ensures
        no_newline(csv_line_body(p)),
{
    reveal_strlit(",");
    assert(no_newline(","@)) by {
        assert forall|i: int| 0 <= i < (","@).len() implies (#[trigger] (","@)[i]) != '\n' by {
            assert(i == 0);
        }
    }
    lemma_dec_of_csv_ok(p.quantity as nat);
    lemma_conf_text_csv_ok(p.confidence);
    lemma_no_newline_concat(p.id, ","@);
    lemma_no_newline_concat(p.id + ","@, p.part_number);
    lemma_no_newline_concat(p.id + ","@ + p.part_number, ","@);
    lemma_no_newline_concat(p.id + ","@ + p.part_number + ","@, p.color);
    lemma_no_newline_concat(p.id + ","@ + p.part_number + ","@ + p.color, ","@);
    lemma_no_newline_concat(p.id + ","@ + p.part_number + ","@ + p.color + ","@, p.category);
    lemma_no_newline_concat(p.id + ","@ + p.part_number + ","@ + p.color + ","@ + p.category, ","@);
    lemma_no_newline_concat(
        p.id + ","@ + p.part_number + ","@ + p.color + ","@ + p.category + ","@,
        dec_of(p.quantity as nat),
    );
    lemma_no_newline_concat(
        p.id + ","@ + p.part_number + ","@ + p.color + ","@ + p.category + ","@ + dec_of(
            p.quantity as nat,
        ),
        ","@,
    );
    lemma_no_newline_concat(
        p.id + ","@ + p.part_number + ","@ + p.color + ","@ + p.category + ","@ + dec_of(
            p.quantity as nat,
        ) + ","@,
        conf_text_of(p.confidence),
    );
}

/// A rendered run of record lines that reaches the end of the text reads
/// back as exactly those records.
proof fn lemma_csv_rows_at(s: Seq<char>, i: int, ps: Seq<PieceView>)
    requires
        forall|k: int| 0 <= k < ps.len() ==> (#[trigger] ps[k]).valid() && csv_piece_ok(ps[k]),
        has_at(s, i, csv_lines(ps)),
        i + csv_lines(ps).len() == s.len(),
    ensures
        csv_rows(s, i) == Some(ps),
    decreases ps.len(),
{
    reveal_strlit(",");
    reveal_strlit("\n");
    if ps.len() == 0 {
        assert(csv_lines(ps) =~= Seq::<char>::empty());
        assert(ps =~= Seq::<PieceView>::empty());
    } else {
        let p = ps[0];
        assert(p.valid() && csv_piece_ok(p));
        let line = csv_line(p);
        let rest = csv_lines(ps.drop_first());
        assert(csv_lines(ps) == line + rest);
        lemma_has_at_split(s, i, line, rest);
        let lb = csv_line_body(p);
        assert(line =~= lb + "\n"@);
        lemma_has_at_split(s, i, lb, "\n"@);
        let e = i + lb.len() as int;
        assert(s[e] == '\n') by {
            assert(s.subrange(e, e + 1)[0] == ("\n"@)[0]);
        }
        lemma_line_body_no_newline(p);
        assert forall|k: int| i <= k < e implies (#[trigger] s[k]) != '\n' by {
            assert(s.subrange(i, e)[k - i] == lb[k - i]);
        }
        lemma_scan_to_determined(s, i, e, '\n');
        let fs6 = seq![
            p.id,
            p.part_number,
            p.color,
            p.category,
            dec_of(p.quantity as nat),
            conf_text_of(p.confidence),
        ];
        assert(csv_field_ok(fs6[4])) by {
            lemma_dec_of_csv_ok(p.quantity as nat);
        }
        assert(csv_field_ok(fs6[5])) by {
            lemma_conf_text_csv_ok(p.confidence);
        }
        assert(lb =~= fs6[0] + ","@ + fs6[1] + ","@ + fs6[2] + ","@ + fs6[3] + ","@ + fs6[4]
            + ","@ + fs6[5]);
        lemma_split_joined(fs6);
        assert(s.subrange(i, e) == lb);
        lemma_quantity_round_trip(p.quantity);
        lemma_conf_round_trip(p.confidence);
        assert(e + 1 == i + line.len());
        if ps.len() == 1 {
            assert(rest =~= Seq::<char>::empty());
            assert(e + 1 == s.len());
            assert(seq![p] =~= ps);
        } else {
            assert(csv_lines(ps.drop_first()) == csv_line(ps.drop_first()[0]) + csv_lines(
                ps.drop_first().drop_first(),
            ));
            assert(csv_line(ps.drop_first()[0]).len() >= 1) by {
                assert(csv_line(ps.drop_first()[0]) =~= csv_line_body(ps.drop_first()[0])
                    + "\n"@);
            }
            assert(forall|k: int|
                0 <= k < ps.drop_first().len() ==> ps.drop_first()[k] == #[trigger] ps[k + 1]);
            lemma_csv_rows_at(s, e + 1, ps.drop_first());
            assert(seq![p] + ps.drop_first() =~= ps);
        }
    }
}

/// Round trip: reading back the comma-separated rendering of any run of
/// valid records whose text fields hold neither a comma nor a line break
/// yields exactly those records. Fields holding a delimiter do not survive
/// this format, which is its documented limitation.
pub proof fn lemma_csv_round_trip(ps: Seq<PieceView>)
    requires
        forall|k: int| 0 <= k < ps.len() ==> (#[trigger] ps[k]).valid() && csv_piece_ok(ps[k]),
    ensures
        csv_parse(csv_text(ps)) == Some(ps),
{
    let s = csv_text(ps);
    let h = csv_header();
    reveal_strlit("id,part_number,color,category,quantity,confidence\n");
    reveal_strlit("\n");
    assert(h.len() == 50);
    lemma_has_at_whole(s, h, csv_lines(ps));
    assert(s[49] == '\n') by {
        assert(s.subrange(0, 50)[49] == h[49]);
    }
    assert(scan_to(s, 0, '\n') == 49) by {
        reveal_with_fuel(scan_to, 51);
        assert forall|k: int| 0 <= k < 49 implies (#[trigger] s[k]) == h[k] by {
            assert(s.subrange(0, 50)[k] == h[k]);
        }
    }
    if ps.len() == 0 {
        assert(csv_lines(ps) =~= Seq::<char>::empty());
        assert(s.len() == 50);
        assert(ps =~= Seq::<PieceView>::empty());
    } else {
        assert(csv_lines(ps) == csv_line(ps[0]) + csv_lines(ps.drop_first()));
        assert(csv_line(ps[0]).len() >= 1) by {
            assert(csv_line(ps[0]) =~= csv_line_body(ps[0]) + "\n"@);
        }
        lemma_csv_rows_at(s, 50, ps);
    }
}

// ------------------------------------------------------------------
// Reading, executably.
// ------------------------------------------------------------------

/// The result of a partial string parse, with a prefix already read.
spec fn with_prefix(acc: Seq<char>, o: Option<(Seq<char>, int)>) -> Option<(Seq<char>, int)> {
    match o {
        Some((t, j)) => Some((acc + t, j)),
        None => None,
    }
}

/// Prefixing composes by concatenation.
proof fn lemma_with_prefix_assoc(a: Seq<char>, b: Seq<char>, o: Option<(Seq<char>, int)>)
    ensures
        with_prefix(a, with_prefix(b, o)) == with_prefix(a + b, o),
{
    match o {
        Some((t, j)) => {
            assert(a + (b + t) =~= (a + b) + t);
        },
        None => {},
    }
}

/// Whether the text `t` sits in `s` at position `i`, decided by comparing
/// characters.
fn expect_lit(s: &str, i: usize, lit: &str) -> (r: Option<usize>)
    requires
        i <= s@.len(),
    ensures
        r matches Some(j) ==> has_at(s@, i as int, lit@) && j == i + lit@.len() && i <= j
            <= s@.len(),
        r is None ==> !has_at(s@, i as int, lit@),
{
    let n = s.unicode_len();
    let m = lit.unicode_len();
    if m > n || i > n - m {
        return None;
    }
    let mut k: usize = 0;
    while k < m
        invariant
            k <= m,
            i + m <= n,
            n == s@.len(),
            m == lit@.len(),
            forall|x: int| 0 <= x < k ==> s@[i + x] == lit@[x],
        decreases m - k,
    {
        if !(s.get_char(i + k) == lit.get_char(k)) {
            proof {
                if has_at(s@, i as int, lit@) {
                    assert(s@.subrange(i as int, i as int + m) [k as int] == lit@[k as int]);
                }
            }
            return None;
        }
        k = k + 1;
    }
    proof {
        assert(s@.subrange(i as int, (i + m) as int) =~= lit@);
    }
    Some(i + m)
}

/// Reads a quoted JSON string, undoing the escapes.
fn parse_jstring_exec(s: &str, i: usize) -> (r: Option<(String, usize)>)
    requires
        i <= s@.len(),
    ensures
        r matches Some((t, j)) ==> parse_jstring(s@, i as int) == Some((t@, j as int)) && i < j
            <= s@.len(),
        r is None ==> parse_jstring(s@, i as int) is None,
{
    let n = s.unicode_len();
    if !(i < n) {
        return None;
    }
    if !(s.get_char(i) == '"') {
        return None;
    }
    let ghost start = i as int + 1;
    let mut acc = String::new();
    let mut cur = i + 1;
    loop
        invariant
            i + 1 <= cur <= n,
            n == s@.len(),
            parse_jstring_body(s@, start) == with_prefix(acc@, parse_jstring_body(s@, cur as int)),
            start == i as int + 1,
            i < n,
            s@[i as int] == '"',
        decreases n - cur,
    {
        if cur >= n {
            return None;
        }
        let c = s.get_char(cur);
        let ghost acc0 = acc@;
        if c == '"' {
            proof {
                assert(acc0 + Seq::<char>::empty() =~= acc0);
            }
            return Some((acc, cur + 1));
        } else if c == '\\' {
            if cur + 1 < n {
                let c2 = s.get_char(cur + 1);
                if c2 == '"' || c2 == '\\' {
                    push_char(&mut acc, c2);
                    proof {
                        assert(acc@ =~= acc0 + seq![c2]);
                        assert(parse_jstring_body(s@, cur as int) == with_prefix(
                            seq![c2],
                            parse_jstring_body(s@, cur as int + 2),
                        ));
                        lemma_with_prefix_assoc(
                            acc0,
                            seq![c2],
                            parse_jstring_body(s@, cur as int + 2),
                        );
                    }
                    cur = cur + 2;
                } else {
                    return None;
                }
            } else {
                return None;
            }
        } else if (c as u32) < 32 {
            return None;
        } else {
            push_char(&mut acc, c);
            proof {
                assert(acc@ =~= acc0 + seq![c]);
                assert(parse_jstring_body(s@, cur as int) == with_prefix(
                    seq![c],
                    parse_jstring_body(s@, cur as int + 1),
                ));
                lemma_with_prefix_assoc(acc0, seq![c], parse_jstring_body(s@, cur as int + 1));
            }
            cur = cur + 1;
        }
    }
}

/// Reads a quantity at a position.
fn parse_quantity_at_exec(s: &str, i: usize) -> (r: Option<(i32, usize)>)
    requires
        i <= s@.len(),
    ensures
        r matches Some((q, j)) ==> parse_quantity_at(s@, i as int) == Some((q as int, j as int))
            && q >= 0 && i < j <= s@.len(),
        r is None ==> parse_quantity_at(s@, i as int) is None,
{
    let j = crate::text::scan_digits_exec(s, i);
    proof {
        crate::text::lemma_scan_digits_props(s@, i as int);
        lemma_digits_val_nonneg(s@.subrange(i as int, j as int));
    }
    if j == i {
        return None;
    }
    match crate::text::digits_value_capped(s, i, j, 0x7fff_ffff) {
        Some(v) => Some((v as i32, j)),
        None => None,
    }
}

/// Reads a confidence at a position, in thousandths.
fn parse_conf_at_exec(s: &str, i: usize) -> (r: Option<(u32, usize)>)
    requires
        i <= s@.len(),
    ensures
        r matches Some((c, j)) ==> parse_conf_at(s@, i as int) == Some((c as int, j as int)) && c
            <= CONFIDENCE_UNIT && i < j <= s@.len(),
        r is None ==> parse_conf_at(s@, i as int) is None,
{
    let n = s.unicode_len();
    let j = crate::text::scan_digits_exec(s, i);
    proof {
        crate::text::lemma_scan_digits_props(s@, i as int);
        lemma_digits_val_nonneg(s@.subrange(i as int, j as int));
    }
    if j == i {
        return None;
    }
    let whole_digits = match crate::text::digits_value_capped(s, i, j, 1) {
        Some(v) => v,
        None => {
            proof {
                let jj = j as int;
                if jj < s@.len() && s@[jj] == '.' {
                    crate::text::lemma_scan_digits_props(s@, jj + 1);
                    let kk = scan_digits(s@, jj + 1);
                    lemma_digits_val_nonneg(s@.subrange(jj + 1, kk));
                    crate::text::lemma_pow10_pos(3 - (kk - jj - 1));
                }
            }
            return None;
        },
    };
    let whole: u32 = whole_digits * CONFIDENCE_UNIT;
    if j < n && s.get_char(j) == '.' {
        let k = crate::text::scan_digits_exec(s, j + 1);
        proof {
            crate::text::lemma_scan_digits_props(s@, j as int + 1);
        }
        if k == j + 1 {
            return None;
        }
        let width = k - (j + 1);
        if width > 3 {
            return None;
        }
        proof {
            lemma_digits_val_nonneg(s@.subrange(j as int + 1, k as int));
            crate::text::lemma_digits_val_bounded(s@, j as int + 1, k as int);
        }
        let frac_digits = match crate::text::digits_value_capped(s, j + 1, k, 999) {
            Some(v) => v,
            None => {
                return None;
            },
        };
        let scale: u32 = if width == 1 {
            100
        } else if width == 2 {
            10
        } else {
            1
        };
        proof {
            reveal_with_fuel(crate::text::pow10, 4);
        }
        let v: u32 = whole + frac_digits * scale;
        if v > CONFIDENCE_UNIT {
            None
        } else {
            Some((v, k))
        }
    } else {
        Some((whole, j))
    }
}

/// Reads one pretty-printed object.
fn parse_object_exec(s: &str, i: usize) -> (r: Option<(Piece, usize)>)
    requires
        i <= s@.len(),
    ensures
        r matches Some((p, j)) ==> parse_object_at(s@, i as int) == Some((p@, j as int)) && i < j
            <= s@.len() && p@.valid(),
        r is None ==> parse_object_at(s@, i as int) is None,
{
    let a0 = match expect_lit(s, i, "  {\n    \"id\": ") {
        Some(x) => x,
        None => {
            return None;
        },
    };
    let (id, a1) = match parse_jstring_exec(s, a0) {
        Some(x) => x,
        None => {
            return None;
        },
    };
    let a2 = match expect_lit(s, a1, ",\n    \"part_number\": ") {
        Some(x) => x,
        None => {
            return None;
        },
    };
    let (part_number, a3) = match parse_jstring_exec(s, a2) {
        Some(x) => x,
        None => {
            return None;
        },
    };
    let a4 = match expect_lit(s, a3, ",\n    \"color\": ") {
        Some(x) => x,
        None => {
            return None;
        },
    };
    let (color, a5) = match parse_jstring_exec(s, a4) {
        Some(x) => x,
        None => {
            return None;
        },
    };
    let a6 = match expect_lit(s, a5, ",\n    \"category\": ") {
        Some(x) => x,
        None => {
            return None;
        },
    };
    let (category, a7) = match parse_jstring_exec(s, a6) {
        Some(x) => x,
        None => {
            return None;
        },
    };
    let a8 = match expect_lit(s, a7, ",\n    \"quantity\": ") {
        Some(x) => x,
        None => {
            return None;
        },
    };
    let (quantity, a9) = match parse_quantity_at_exec(s, a8) {
        Some(x) => x,
        None => {
            return None;
        },
    };
    let a10 = match expect_lit(s, a9, ",\n    \"confidence\": ") {
        Some(x) => x,
        None => {
            return None;
        },
    };
    let (milli, a11) = match parse_conf_at_exec(s, a10) {
        Some(x) => x,
        None => {
            return None;
        },
    };
    let a12 = match expect_lit(s, a11, "\n  }") {
        Some(x) => x,
        None => {
            return None;
        },
    };
    Some(
        (
            Piece {
                id,
                part_number,
                color,
                category,
                quantity,
                confidence: Confidence { milli },
            },
            a12,
        ),
    )
}

/// The result of a partial items parse, with records already read.
spec fn with_items_prefix(vs: Seq<PieceView>, o: Option<(Seq<PieceView>, int)>) -> Option<
    (Seq<PieceView>, int),
> {
    match o {
        Some((ps, j)) => Some((vs + ps, j)),
        None => None,
    }
}

/// Prefixing composes by concatenation.
proof fn lemma_with_items_prefix_assoc(
    a: Seq<PieceView>,
    b: Seq<PieceView>,
    o: Option<(Seq<PieceView>, int)>,
)
    ensures
        with_items_prefix(a, with_items_prefix(b, o)) == with_items_prefix(a + b, o),
{
    match o {
        Some((ps, j)) => {
            assert(a + (b + ps) =~= (a + b) + ps);
        },
        None => {},
    }
}

/// The error for malformed JSON input.
fn json_format_error() -> (e: StudFinderError)
    ensures
        e is Config,
{
    StudFinderError::Config(String::from_str("Failed to parse JSON data"))
}

/// Reads a full catalog from its pretty-printed JSON rendering.
fn json_import(data: &str) -> (r: Result<Vec<Piece>, StudFinderError>)
    ensures
        r matches Ok(ps) ==> json_parse(data@) == Some(piece_views(ps@)) && (forall|k: int|
            0 <= k < ps@.len() ==> (#[trigger] ps@[k])@.valid()),
        r is Err ==> json_parse(data@) is None,
{
    let n = data.unicode_len();
    proof {
        reveal_strlit("[]");
        reveal_strlit("[\n");
    }
    if n == 2 {
        match expect_lit(data, 0, "[]") {
            Some(_) => {
                let out: Vec<Piece> = Vec::new();
                proof {
                    assert(data@.subrange(0, 2) =~= data@);
                    assert(piece_views(out@) =~= Seq::<PieceView>::empty());
                }
                return Ok(out);
            },
            None => {
                proof {
                    reveal_strlit("  {\n    \"id\": ");
                    if data@ == "[]"@ {
                        assert(data@.subrange(0, 2) =~= data@);
                    }
                    if has_at(data@, 0, "[\n"@) {
                        assert(!has_at(data@, 2, "  {\n    \"id\": "@));
                    }
                }
                return Err(json_format_error());
            },
        }
    }
    let start = match expect_lit(data, 0, "[\n") {
        Some(x) => x,
        None => {
            proof {
                if data@ == "[]"@ {
                    assert(data@.len() == 2);
                }
            }
            return Err(json_format_error());
        },
    };
    proof {
        if data@ == "[]"@ {
            assert(data@.len() == 2);
        }
    }
    let mut out: Vec<Piece> = Vec::new();
    let mut cur = start;
    loop
        invariant
            start == 2,
            2 <= cur <= n,
            n == data@.len(),
            n != 2,
            has_at(data@, 0, "[\n"@),
            !(data@ == "[]"@),
            forall|k: int| 0 <= k < out@.len() ==> (#[trigger] out@[k])@.valid(),
            parse_items_at(data@, 2) == with_items_prefix(
                piece_views(out@),
                parse_items_at(data@, cur as int),
            ),
        decreases n - cur,
    {
        let ghost vs0 = piece_views(out@);
        let (p, j) = match parse_object_exec(data, cur) {
            Some(x) => x,
            None => {
                proof {
                    reveal_strlit("[\n");
                }
                return Err(json_format_error());
            },
        };
        out.push(p);
        proof {
            assert(piece_views(out@) =~= vs0.push(p@));
            assert(vs0.push(p@) =~= vs0 + seq![p@]);
        }
        match expect_lit(data, j, ",\n") {
            Some(j2) => {
                proof {
                    reveal_strlit(",\n");
                    assert(parse_items_at(data@, cur as int) == with_items_prefix(
                        seq![p@],
                        parse_items_at(data@, j as int + 2),
                    ));
                    lemma_with_items_prefix_assoc(
                        vs0,
                        seq![p@],
                        parse_items_at(data@, j as int + 2),
                    );
                }
                cur = j2;
            },
            None => {
                proof {
                    assert(parse_items_at(data@, cur as int) == Some((seq![p@], j as int)));
                    assert(vs0 + seq![p@] =~= piece_views(out@));
                }
                match expect_lit(data, j, "\n]") {
                    Some(j3) => {
                        if j3 == n {
                            proof {
                                reveal_strlit("[\n");
                                reveal_strlit("\n]");
                            }
                            return Ok(out);
                        } else {
                            proof {
                                reveal_strlit("[\n");
                                reveal_strlit("\n]");
                            }
                            return Err(json_format_error());
                        }
                    },
                    None => {
                        proof {
                            reveal_strlit("[\n");
                            reveal_strlit("\n]");
                        }
                        return Err(json_format_error());
                    },
                }
            },
        }
    }
}


/// The views of a run of field strings.
spec fn strings_views(v: Seq<String>) -> Seq<Seq<char>> {
    Seq::new(v.len(), |i: int| v[i]@)
}

/// Finds the first occurrence of a character at or after `from`.
fn scan_to_exec(s: &str, from: usize, c: char) -> (j: usize)
    requires
        from <= s@.len(),
    ensures
        j == scan_to(s@, from as int, c),
        from <= j <= s@.len(),
{
    let n = s.unicode_len();
    let mut i = from;
    while i < n
        invariant
            from <= i <= n,
            n == s@.len(),
            scan_to(s@, from as int, c) == scan_to(s@, i as int, c),
        decreases n - i,
    {
        if s.get_char(i) == c {
            return i;
        }
        i = i + 1;
    }
    i
}

/// Splits one line into its comma-separated fields.
fn split_line(line: &str) -> (v: Vec<String>)
    ensures
        strings_views(v@) == split_fields(line@),
{
    let n = line.unicode_len();
    let mut v: Vec<String> = Vec::new();
    let mut pos: usize = 0;
    proof {
        assert(strings_views(v@) =~= Seq::<Seq<char>>::empty());
        assert(Seq::<Seq<char>>::empty() + split_fields_at(line@, 0) =~= split_fields_at(line@, 0));
    }
    loop
        invariant
            pos <= n,
            n == line@.len(),
            split_fields(line@) == strings_views(v@) + split_fields_at(line@, pos as int),
        decreases n - pos,
    {
        let ghost sv0 = strings_views(v@);
        let c = scan_to_exec(line, pos, ',');
        if c >= n {
            let f = line.substring_char(pos, n);
            v.push(String::from_str(f));
            proof {
                assert(split_fields_at(line@, pos as int) =~= seq![
                    line@.subrange(pos as int, n as int),
                ]);
                assert(strings_views(v@) =~= sv0 + seq![f@]);
                assert(sv0 + seq![f@] + Seq::<Seq<char>>::empty() =~= sv0 + seq![f@]);
                assert(strings_views(v@) =~= split_fields(line@));
            }
            return v;
        }
        let f = line.substring_char(pos, c);
        v.push(String::from_str(f));
        proof {
            assert(split_fields_at(line@, pos as int) =~= seq![line@.subrange(pos as int, c as int)]
                + split_fields_at(line@, c as int + 1));
            assert(strings_views(v@) =~= sv0 + seq![f@]);
            assert((sv0 + seq![f@]) + split_fields_at(line@, c as int + 1) =~= sv0 + (seq![f@]
                + split_fields_at(line@, c as int + 1)));
        }
        pos = c + 1;
    }
}

/// The result of a partial row parse, with records already read.
spec fn with_rows_prefix(vs: Seq<PieceView>, o: Option<Seq<PieceView>>) -> Option<Seq<PieceView>> {
    match o {
        Some(ps) => Some(vs + ps),
        None => None,
    }
}

/// Prefixing composes by concatenation.
proof fn lemma_with_rows_prefix_assoc(
    a: Seq<PieceView>,
    b: Seq<PieceView>,
    o: Option<Seq<PieceView>>,
)
    ensures
        with_rows_prefix(a, with_rows_prefix(b, o)) == with_rows_prefix(a + b, o),
{
    match o {
        Some(ps) => {
            assert(a + (b + ps) =~= (a + b) + ps);
        },
        None => {},
    }
}

/// Reads a full catalog from comma-separated text.
fn csv_import(data: &str) -> (r: Result<Vec<Piece>, StudFinderError>)
    ensures
        r matches Ok(ps) ==> csv_parse(data@) == Some(piece_views(ps@)) && (forall|k: int|
            0 <= k < ps@.len() ==> (#[trigger] ps@[k])@.valid()),
        r is Err ==> csv_parse(data@) is None,
{
    let n = data.unicode_len();
    let e0 = scan_to_exec(data, 0, '\n');
    if n - e0 <= 1 {
        let out: Vec<Piece> = Vec::new();
        proof {
            assert(piece_views(out@) =~= Seq::<PieceView>::empty());
        }
        return Ok(out);
    }
    let mut out: Vec<Piece> = Vec::new();
    let mut cur = e0 + 1;
    proof {
        assert(piece_views(out@) =~= Seq::<PieceView>::empty());
        assert(csv_parse(data@) == csv_rows(data@, cur as int));
        if csv_rows(data@, cur as int) is Some {
            assert(Seq::<PieceView>::empty() + csv_rows(data@, cur as int).unwrap()
                =~= csv_rows(data@, cur as int).unwrap());
        }
    }
    loop
        invariant
            1 <= cur <= n,
            n == data@.len(),
            forall|k: int| 0 <= k < out@.len() ==> (#[trigger] out@[k])@.valid(),
            csv_parse(data@) == with_rows_prefix(piece_views(out@), csv_rows(data@, cur as int)),
        decreases n - cur,
    {
        if cur >= n {
            proof {
                assert(csv_rows(data@, cur as int) == Some(Seq::<PieceView>::empty()));
                assert(piece_views(out@) + Seq::<PieceView>::empty() =~= piece_views(out@));
            }
            return Ok(out);
        }
        let ghost vs0 = piece_views(out@);
        let e = scan_to_exec(data, cur, '\n');
        let line = data.substring_char(cur, e);
        let fields = split_line(line);
        let ghost fs = split_fields(data@.subrange(cur as int, e as int));
        let ghost added = Seq::<PieceView>::empty();
        let ghost rest = (if e as int + 1 >= data@.len() {
            Some(Seq::<PieceView>::empty())
        } else {
            csv_rows(data@, e as int + 1)
        });
        if fields.len() == 6 {
            let q = match parse_quantity_field(fields[4].as_str()) {
                Some(q) => q,
                None => {
                    proof {
                        assert(csv_rows(data@, cur as int) is None);
                    }
                    return Err(
                        StudFinderError::Config(String::from_str("Failed to parse quantity")),
                    );
                },
            };
            let milli = match parse_conf_field(fields[5].as_str()) {
                Some(c) => c,
                None => {
                    proof {
                        assert(csv_rows(data@, cur as int) is None);
                    }
                    return Err(
                        StudFinderError::Config(String::from_str("Failed to parse confidence")),
                    );
                },
            };
            let p = Piece {
                id: fields[0].clone(),
                part_number: fields[1].clone(),
                color: fields[2].clone(),
                category: fields[3].clone(),
                quantity: q,
                confidence: Confidence { milli },
            };
            out.push(p);
            proof {
                assert(piece_views(out@) =~= vs0 + seq![p@]);
                assert(csv_rows(data@, cur as int) == with_rows_prefix(seq![p@], rest));
                lemma_with_rows_prefix_assoc(vs0, seq![p@], rest);
            }
        } else {
            proof {
                assert(csv_rows(data@, cur as int) == rest);
                assert(vs0 + Seq::<PieceView>::empty() =~= vs0);
                lemma_with_rows_prefix_assoc(vs0, Seq::<PieceView>::empty(), rest);
            }
        }
        if n - e <= 1 {
            proof {
                assert(rest == Some(Seq::<PieceView>::empty()));
                assert(piece_views(out@) + Seq::<PieceView>::empty() =~= piece_views(out@));
            }
            return Ok(out);
        }
        cur = e + 1;
    }
}

impl ExportManager {
    /// Reconstructs records from interchange text in the given format,
    /// surfacing a parse error on malformed input. Every record read back
    /// satisfies the store's record invariant.
    pub fn import_inventory(data: &str, format: &ExportFormat) -> (r: Result<
        Vec<Piece>,
        StudFinderError,
    >)
        ensures
            r matches Ok(ps) ==> import_parse(data@, *format) == Some(piece_views(ps@)) && (
            forall|k: int| 0 <= k < ps@.len() ==> (#[trigger] ps@[k])@.valid()),
            r is Err ==> import_parse(data@, *format) is None,
    {
        match format {
            ExportFormat::Json => json_import(data),
            ExportFormat::Csv => csv_import(data),
        }
    }
}

/// Picks the interchange format for a file extension: `json` selects the
/// JSON codec, anything else is treated as comma-separated text.
pub fn format_for_extension(ext: Option<&str>) -> (r: ExportFormat)
    ensures
        r == (match ext {
            Some(e) => if e@ == "json"@ { ExportFormat::Json } else { ExportFormat::Csv },
            None => ExportFormat::Csv,
        }),
{
    match ext {
        Some(e) => {
            proof {
                reveal_strlit("json");
            }
            let is_json = e.unicode_len() == 4 && e.get_char(0) == 'j' && e.get_char(1) == 's'
                && e.get_char(2) == 'o' && e.get_char(3) == 'n';
            if is_json {
                proof {
                    assert(e@ =~= "json"@);
                }
                ExportFormat::Json
            } else {
                ExportFormat::Csv
            }
        },
        None => ExportFormat::Csv,
    }
}

} // verus!
