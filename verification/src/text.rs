//! Decimal text for the two numeric fields of a record: quantities are
//! rendered and read as plain decimal integers, confidences as a decimal
//! fraction with up to three digits, the store's fixed-point resolution.

use vstd::prelude::*;

use crate::piece::CONFIDENCE_UNIT;

verus! {

/// True of the ten ASCII digit characters.
pub open spec fn is_digit(c: char) -> bool {
    '0' <= c <= '9'
}

/// Numeric value of a digit character.
pub open spec fn digit_val(c: char) -> int {
    c as int - '0' as int
}

/// Digit character for a value below ten.
pub open spec fn char_of_digit(d: int) -> char {
    ((48 + d) as u8) as char
}

/// Decimal rendering of a natural number, most significant digit first.
pub open spec fn dec_of(n: nat) -> Seq<char>
    decreases n,
{
    if n < 10 {
        seq![char_of_digit(n as int)]
    } else {
        dec_of(n / 10) + seq![char_of_digit((n % 10) as int)]
    }
}

/// True when every character of the sequence is a digit.
pub open spec fn all_digits(s: Seq<char>) -> bool {
    forall|i: int| 0 <= i < s.len() ==> is_digit(#[trigger] s[i])
}

/// Value of a digit sequence, most significant digit first.
pub open spec fn digits_val(s: Seq<char>) -> int
    decreases s.len(),
{
    if s.len() == 0 {
        0
    } else {
        digits_val(s.drop_last()) * 10 + digit_val(s.last())
    }
}

/// First index at or after `i` that does not hold a digit.
pub open spec fn scan_digits(s: Seq<char>, i: int) -> int
    recommends
        0 <= i <= s.len(),
    decreases s.len() - i,
{
    if i < 0 || i >= s.len() || !is_digit(s[i]) {
        i
    } else {
        scan_digits(s, i + 1)
    }
}

/// Reads a quantity starting at `i`: one or more digits whose value fits
/// the store's quantity type. Yields the value and the position after it.
pub open spec fn parse_quantity_at(s: Seq<char>, i: int) -> Option<(int, int)> {
    let j = scan_digits(s, i);
    if j > i && digits_val(s.subrange(i, j)) <= i32::MAX {
        Some((digits_val(s.subrange(i, j)), j))
    } else {
        None
    }
}

/// The quantity field grammar: a quantity and nothing else.
pub open spec fn quantity_field_val(s: Seq<char>) -> Option<int> {
    match parse_quantity_at(s, 0) {
        Some((q, j)) => if j == s.len() {
            Some(q)
        } else {
            None
        },
        None => None,
    }
}

/// Reads a confidence starting at `i`: digits, optionally followed by a
/// point and one to three fractional digits, denoting at most 1.0. Yields
/// the value in thousandths and the position after it.
pub open spec fn parse_conf_at(s: Seq<char>, i: int) -> Option<(int, int)> {
    let j = scan_digits(s, i);
    if j == i {
        None
    } else {
        let whole = digits_val(s.subrange(i, j)) * (CONFIDENCE_UNIT as int);
        if j < s.len() && s[j] == '.' {
            let k = scan_digits(s, j + 1);
            if k == j + 1 || k > j + 4 {
                None
            } else {
                let v = whole + digits_val(s.subrange(j + 1, k)) * pow10(3 - (k - j - 1));
                if v <= CONFIDENCE_UNIT {
                    Some((v, k))
                } else {
                    None
                }
            }
        } else {
            if whole <= CONFIDENCE_UNIT {
                Some((whole, j))
            } else {
                None
            }
        }
    }
}

/// The confidence field grammar: a confidence and nothing else.
pub open spec fn conf_field_val(s: Seq<char>) -> Option<int> {
    match parse_conf_at(s, 0) {
        Some((c, j)) => if j == s.len() {
            Some(c)
        } else {
            None
        },
        None => None,
    }
}

/// Ten to a small power.
pub open spec fn pow10(e: int) -> int
    decreases e,
{
    if e <= 0 {
        1
    } else {
        10 * pow10(e - 1)
    }
}

/// Canonical text of a confidence given in thousandths: a whole confidence
/// is `1.0`, zero is `0.0`, and anything between is `0.` followed by the
/// fractional digits with trailing zeros dropped.
pub open spec fn conf_text_of(c: int) -> Seq<char> {
    if c <= 0 {
        seq!['0', '.', '0']
    } else if c >= CONFIDENCE_UNIT {
        seq!['1', '.', '0']
    } else {
        seq!['0', '.'] + conf_frac(c)
    }
}

/// Fractional digits of a confidence strictly between 0 and 1, with
/// trailing zeros dropped.
pub open spec fn conf_frac(c: int) -> Seq<char> {
    let d1 = char_of_digit(c / 100);
    let d2 = char_of_digit((c / 10) % 10);
    let d3 = char_of_digit(c % 10);
    if c % 10 != 0 {
        seq![d1, d2, d3]
    } else if (c / 10) % 10 != 0 {
        seq![d1, d2]
    } else {
        seq![d1]
    }
}

/// True of the texts that the canonical confidence rendering can produce.
pub open spec fn is_canonical_conf_text(s: Seq<char>) -> bool {
    exists|c: int| 0 <= c <= CONFIDENCE_UNIT && s == conf_text_of(c)
}

/// Relies on String::push: appends exactly the given character.
#[verifier::external_body]
pub(crate) fn push_char(s: &mut String, c: char)
    ensures
        final(s)@ == old(s)@.push(c),
{
    s.push(c);
}

/// Digit character of a value below ten.
fn digit_char(d: u32) -> (c: char)
    requires
        d < 10,
    ensures
        c == char_of_digit(d as int),
{
    (48 + d as u8) as char
}

/// Renders a natural number in decimal.
pub fn u32_to_text(n: u32) -> (s: String)
    ensures
        s@ == dec_of(n as nat),
    decreases n,
{
    if n < 10 {
        let mut s = String::new();
        push_char(&mut s, digit_char(n));
        assert(s@ =~= dec_of(n as nat));
        s
    } else {
        let mut s = u32_to_text(n / 10);
        push_char(&mut s, digit_char(n % 10));
        assert(s@ =~= dec_of(n as nat));
        s
    }
}

/// Renders a non-negative quantity in decimal.
pub fn quantity_to_text(q: i32) -> (s: String)
    requires
        q >= 0,
    ensures
        s@ == dec_of(q as nat),
{
    u32_to_text(q as u32)
}

/// Renders a confidence, given in thousandths, as canonical decimal text.
pub fn conf_to_text(milli: u32) -> (s: String)
    requires
        milli <= CONFIDENCE_UNIT,
    ensures
        s@ == conf_text_of(milli as int),
        is_canonical_conf_text(s@),
{
    let mut s = String::new();
    if milli == 0 {
        push_char(&mut s, '0');
        push_char(&mut s, '.');
        push_char(&mut s, '0');
        assert(s@ =~= conf_text_of(milli as int));
    } else if milli == CONFIDENCE_UNIT {
        push_char(&mut s, '1');
        push_char(&mut s, '.');
        push_char(&mut s, '0');
        assert(s@ =~= conf_text_of(milli as int));
    } else {
        push_char(&mut s, '0');
        push_char(&mut s, '.');
        push_char(&mut s, digit_char(milli / 100));
        if milli % 10 != 0 {
            push_char(&mut s, digit_char((milli / 10) % 10));
            push_char(&mut s, digit_char(milli % 10));
        } else if (milli / 10) % 10 != 0 {
            push_char(&mut s, digit_char((milli / 10) % 10));
        }
        assert(s@ =~= conf_text_of(milli as int));
    }
    s
}

/// Every index scanned over holds a digit, and the scan stops either at the
/// end or at a non-digit.
pub proof fn lemma_scan_digits_props(s: Seq<char>, i: int)
    requires
        0 <= i <= s.len(),
    ensures
        i <= scan_digits(s, i) <= s.len(),
        forall|k: int| i <= k < scan_digits(s, i) ==> is_digit(#[trigger] s[k]),
        scan_digits(s, i) < s.len() ==> !is_digit(s[scan_digits(s, i)]),
    decreases s.len() - i,
{
    if i < s.len() && is_digit(s[i]) {
        lemma_scan_digits_props(s, i + 1);
    }
}

/// A scan over a known run of digits ending at the end or at a non-digit
/// stops exactly at the run's end.
pub proof fn lemma_scan_digits_determined(s: Seq<char>, i: int, j: int)
    requires
        0 <= i <= j <= s.len(),
        forall|k: int| i <= k < j ==> is_digit(#[trigger] s[k]),
        j == s.len() || !is_digit(s[j]),
    ensures
        scan_digits(s, i) == j,
    decreases j - i,
{
    if i < j {
        lemma_scan_digits_determined(s, i + 1, j);
    }
}

/// The value of a digit sequence is never negative.
pub proof fn lemma_digits_val_nonneg(s: Seq<char>)
    requires
        all_digits(s),
    ensures
        digits_val(s) >= 0,
    decreases s.len(),
{
    if s.len() > 0 {
        assert(all_digits(s.drop_last()));
        lemma_digits_val_nonneg(s.drop_last());
    }
}

/// Extending a digit run by one character multiplies its value by ten and
/// adds the new digit.
pub proof fn lemma_digits_val_extend(s: Seq<char>, f: int, i: int)
    requires
        0 <= f <= i < s.len(),
    ensures
        digits_val(s.subrange(f, i + 1)) == digits_val(s.subrange(f, i)) * 10 + digit_val(s[i]),
{
    let t = s.subrange(f, i + 1);
    assert(t.drop_last() =~= s.subrange(f, i));
    assert(t.last() == s[i]);
}

/// The decimal rendering of a natural number is a non-empty digit run that
/// reads back to the same number.
pub proof fn lemma_dec_of_props(n: nat)
    ensures
        dec_of(n).len() >= 1,
        all_digits(dec_of(n)),
        digits_val(dec_of(n)) == n,
    decreases n,
{
    if n < 10 {
        assert(dec_of(n) =~= seq![char_of_digit(n as int)]);
        assert(dec_of(n).drop_last() =~= Seq::<char>::empty());
        assert(digits_val(Seq::<char>::empty()) == 0);
        assert(digit_val(char_of_digit(n as int)) == n);
        assert(digits_val(dec_of(n)) == digit_val(char_of_digit(n as int)));
    } else {
        lemma_dec_of_props(n / 10);
        let a = dec_of(n / 10);
        let w = dec_of(n);
        assert(w =~= a + seq![char_of_digit((n % 10) as int)]);
        assert(w.drop_last() =~= a);
        assert(w.last() == char_of_digit((n % 10) as int));
        assert(digits_val(w) == digits_val(a) * 10 + (n % 10));
    }
}

/// Reading back the decimal rendering of a quantity yields that quantity.
pub proof fn lemma_quantity_round_trip(q: int)
    requires
        0 <= q <= i32::MAX,
    ensures
        quantity_field_val(dec_of(q as nat)) == Some(q),
{
    let t = dec_of(q as nat);
    lemma_dec_of_props(q as nat);
    lemma_scan_digits_determined(t, 0, t.len() as int);
    assert(t.subrange(0, t.len() as int) =~= t);
}

/// The value of one, two or three digit characters in a row.
proof fn lemma_digits_val3(a: char, b: char, c: char)
    ensures
        digits_val(seq![a]) == digit_val(a),
        digits_val(seq![a, b]) == digit_val(a) * 10 + digit_val(b),
        digits_val(seq![a, b, c]) == (digit_val(a) * 10 + digit_val(b)) * 10 + digit_val(c),
{
    reveal_with_fuel(digits_val, 5);
    assert(digits_val(Seq::<char>::empty()) == 0);
    assert(seq![a].drop_last() =~= Seq::<char>::empty());
    assert(seq![a, b].drop_last() =~= seq![a]);
    assert(seq![a, b, c].drop_last() =~= seq![a, b]);
    assert(seq![a].last() == a && seq![a, b].last() == b && seq![a, b, c].last() == c);
}

/// A decimal rendering embedded at `i` and followed by a non-digit or the
/// end reads back as that number.
pub proof fn lemma_quantity_at(s: Seq<char>, i: int, q: int)
    requires
        0 <= q <= i32::MAX,
        0 <= i,
        i + dec_of(q as nat).len() <= s.len(),
        s.subrange(i, i + dec_of(q as nat).len() as int) == dec_of(q as nat),
        i + dec_of(q as nat).len() == s.len() || !is_digit(s[i + dec_of(q as nat).len()]),
    ensures
        parse_quantity_at(s, i) == Some((q, i + dec_of(q as nat).len())),
{
    let t = dec_of(q as nat);
    let n = t.len() as int;
    lemma_dec_of_props(q as nat);
    assert forall|k: int| i <= k < i + n implies is_digit(#[trigger] s[k]) by {
        assert(s.subrange(i, i + n)[k - i] == t[k - i]);
    }
    lemma_scan_digits_determined(s, i, i + n);
}

/// The canonical text of a confidence embedded at `i` and followed by a
/// non-digit or the end reads back as that confidence.
pub proof fn lemma_conf_text_at(s: Seq<char>, i: int, c: int)
    requires
        0 <= c <= CONFIDENCE_UNIT,
        0 <= i,
        i + conf_text_of(c).len() <= s.len(),
        s.subrange(i, i + conf_text_of(c).len() as int) == conf_text_of(c),
        i + conf_text_of(c).len() == s.len() || !is_digit(s[i + conf_text_of(c).len()]),
    ensures
        parse_conf_at(s, i) == Some((c, i + conf_text_of(c).len())),
{
    let t = conf_text_of(c);
    let n = t.len() as int;
    assert forall|k: int| 0 <= k < n implies s[i + k] == t[k] by {
        assert(s.subrange(i, i + n)[k] == t[k]);
    }
    if c <= 0 || c >= CONFIDENCE_UNIT {
        assert(n == 3);
        assert(s[i] == t[0] && s[i + 1] == t[1] && s[i + 2] == t[2]);
        assert(is_digit(s[i]) && !is_digit(s[i + 1]) && is_digit(s[i + 2]));
        lemma_scan_digits_determined(s, i, i + 1);
        lemma_scan_digits_determined(s, i + 2, i + 3);
        assert(digits_val(s.subrange(i, i + 1)) == digit_val(s[i])) by {
            lemma_digits_val_extend(s, i, i);
            assert(digits_val(s.subrange(i, i)) == 0);
        }
        assert(digits_val(s.subrange(i + 2, i + 3)) == digit_val(s[i + 2])) by {
            lemma_digits_val_extend(s, i + 2, i + 2);
            assert(digits_val(s.subrange(i + 2, i + 2)) == 0);
        }
        assert(pow10(2) == 100) by {
            reveal_with_fuel(pow10, 4);
        }
        assert(parse_conf_at(s, i) == Some((c, i + 3)));
    } else {
        let d1 = c / 100;
        let d2 = (c / 10) % 10;
        let d3 = c % 10;
        assert(0 <= d1 < 10 && 0 <= d2 < 10 && 0 <= d3 < 10);
        let f = conf_frac(c);
        assert(t =~= seq!['0', '.'] + f);
        assert(is_digit(char_of_digit(d1)) && is_digit(char_of_digit(d2)) && is_digit(
            char_of_digit(d3),
        ));
        assert(s[i] == '0') by {
            assert(s.subrange(i, i + n)[0] == t[0]);
        }
        assert(s[i + 1] == '.') by {
            assert(s.subrange(i, i + n)[1] == t[1]);
        }
        assert(is_digit(s[i]) && !is_digit(s[i + 1]));
        lemma_scan_digits_determined(s, i, i + 1);
        assert(digits_val(s.subrange(i, i + 1)) == 0) by {
            lemma_digits_val_extend(s, i, i);
            assert(digits_val(s.subrange(i, i)) == 0);
        }
        assert forall|k: int| i + 2 <= k < i + n implies is_digit(#[trigger] s[k]) by {
            assert(s.subrange(i, i + n)[k - i] == t[k - i]);
            assert(t[k - i] == f[k - i - 2]);
        }
        lemma_scan_digits_determined(s, i + 2, i + n);
        assert forall|m: int| 0 <= m < n - 2 implies s.subrange(i + 2, i + n)[m] == f[m] by {
            assert(s.subrange(i, i + n)[m + 2] == t[m + 2]);
            assert(t[m + 2] == f[m]);
        }
        assert(s.subrange(i + 2, i + n) =~= f);
        let frac = digits_val(f);
        if d3 != 0 {
            assert(n == 5);
            lemma_digits_val3(char_of_digit(d1), char_of_digit(d2), char_of_digit(d3));
            assert(frac == (d1 * 10 + d2) * 10 + d3);
            assert(pow10(0) == 1) by {
                reveal_with_fuel(pow10, 4);
            }
            assert((d1 * 10 + d2) * 10 + d3 == c) by (nonlinear_arith)
                requires
                    d1 == c / 100 && d2 == (c / 10) % 10 && d3 == c % 10 && 0 < c < 1000,
            ;
        } else if d2 != 0 {
            assert(n == 4);
            lemma_digits_val3(char_of_digit(d1), char_of_digit(d2), char_of_digit(d3));
            assert(frac == d1 * 10 + d2);
            assert(pow10(1) == 10) by {
                reveal_with_fuel(pow10, 4);
            }
            assert((d1 * 10 + d2) * 10 == c) by (nonlinear_arith)
                requires
                    d1 == c / 100 && d2 == (c / 10) % 10 && c % 10 == 0 && 0 < c < 1000,
            ;
        } else {
            assert(n == 3);
            lemma_digits_val3(char_of_digit(d1), char_of_digit(d2), char_of_digit(d3));
            assert(frac == d1);
            assert(pow10(2) == 100) by {
                reveal_with_fuel(pow10, 4);
            }
            assert(d1 * 100 == c) by (nonlinear_arith)
                requires
                    d1 == c / 100 && (c / 10) % 10 == 0 && c % 10 == 0 && 0 < c < 1000,
            ;
        }
        assert(parse_conf_at(s, i) == Some((c, i + n)));
    }
}

/// Reading back the canonical text of a confidence yields that confidence.
pub proof fn lemma_conf_round_trip(c: int)
    requires
        0 <= c <= CONFIDENCE_UNIT,
    ensures
        conf_field_val(conf_text_of(c)) == Some(c),
{
    let t = conf_text_of(c);
    assert(t.subrange(0, t.len() as int) =~= t);
    lemma_conf_text_at(t, 0, c);
}

/// Finds the end of the digit run that starts at `from`.
pub fn scan_digits_exec(s: &str, from: usize) -> (j: usize)
    requires
        from <= s@.len(),
    ensures
        j == scan_digits(s@, from as int),
        from <= j <= s@.len(),
{
    let n = s.unicode_len();
    let mut i = from;
    while i < n
        invariant
            from <= i <= n,
            n == s@.len(),
            scan_digits(s@, from as int) == scan_digits(s@, i as int),
        decreases n - i,
    {
        let c = s.get_char(i);
        if !('0' <= c && c <= '9') {
            assert(scan_digits(s@, i as int) == i);
            return i;
        }
        i = i + 1;
    }
    i
}

/// Value of the digit run `s[from..to]`, unless it exceeds `cap`.
pub(crate) fn digits_value_capped(s: &str, from: usize, to: usize, cap: u32) -> (r: Option<u32>)
    requires
        from <= to <= s@.len(),
        forall|k: int| from <= k < to ==> is_digit(#[trigger] s@[k]),
    ensures
        digits_val(s@.subrange(from as int, to as int)) <= cap ==> r == Some(
            digits_val(s@.subrange(from as int, to as int)) as u32,
        ),
        digits_val(s@.subrange(from as int, to as int)) > cap ==> r is None,
{
    let mut acc: u64 = 0;
    let mut i = from;
    proof {
        assert(s@.subrange(from as int, from as int) =~= Seq::<char>::empty());
    }
    while i < to
        invariant
            from <= i <= to <= s@.len(),
            forall|k: int| from <= k < to ==> is_digit(#[trigger] s@[k]),
            acc == digits_val(s@.subrange(from as int, i as int)),
            acc <= cap,
        decreases to - i,
    {
        let c = s.get_char(i);
        let d: u32 = (c as u32) - 48;
        proof {
            lemma_digits_val_extend(s@, from as int, i as int);
        }
        let next: u64 = acc * 10 + (d as u64);
        if next > cap as u64 {
            proof {
                lemma_digits_val_ge_prefix(s@, from as int, (i + 1) as int, to as int);
            }
            return None;
        }
        acc = next;
        i = i + 1;
    }
    Some(acc as u32)
}

/// Over a digit run, the value of a longer prefix is at least the value of
/// a shorter one.
proof fn lemma_digits_val_ge_prefix(s: Seq<char>, f: int, i: int, j: int)
    requires
        0 <= f <= i <= j <= s.len(),
        forall|k: int| f <= k < j ==> is_digit(#[trigger] s[k]),
    ensures
        digits_val(s.subrange(f, j)) >= digits_val(s.subrange(f, i)),
    decreases j - i,
{
    if i < j {
        lemma_digits_val_ge_prefix(s, f, i + 1, j);
        lemma_digits_val_extend(s, f, i);
        assert(all_digits(s.subrange(f, i)));
        lemma_digits_val_nonneg(s.subrange(f, i));
        assert(digits_val(s.subrange(f, i + 1)) >= digits_val(s.subrange(f, i)));
    }
}

/// Parses a quantity field: digits only, fitting the store's quantity type.
pub fn parse_quantity_field(s: &str) -> (r: Option<i32>)
    ensures
        match r {
            Some(q) => quantity_field_val(s@) == Some(q as int) && q >= 0,
            None => quantity_field_val(s@) is None,
        },
{
    let n = s.unicode_len();
    let j = scan_digits_exec(s, 0);
    proof {
        lemma_scan_digits_props(s@, 0);
    }
    if j == 0 || j != n {
        proof {
            if s@.len() > 0 && all_digits(s@) {
                lemma_scan_digits_determined(s@, 0, s@.len() as int);
            }
        }
        return None;
    }
    assert(all_digits(s@));
    assert(s@.subrange(0, n as int) =~= s@);
    proof {
        lemma_digits_val_nonneg(s@);
    }
    match digits_value_capped(s, 0, n, 0x7fff_ffff) {
        Some(v) => Some(v as i32),
        None => None,
    }
}

/// Parses a confidence field into thousandths: digits, optionally a point
/// and one to three fractional digits, at most 1.0 overall.
pub fn parse_conf_field(s: &str) -> (r: Option<u32>)
    ensures
        match r {
            Some(c) => conf_field_val(s@) == Some(c as int) && c <= CONFIDENCE_UNIT,
            None => conf_field_val(s@) is None,
        },
{
    let n = s.unicode_len();
    let j = scan_digits_exec(s, 0);
    proof {
        lemma_scan_digits_props(s@, 0);
    }
    if j == 0 {
        return None;
    }
    proof {
        lemma_digits_val_nonneg(s@.subrange(0, j as int));
    }
    let whole_digits = match digits_value_capped(s, 0, j, 1) {
        Some(v) => v,
        None => {
            proof {
                let jj = j as int;
                if jj < s@.len() && s@[jj] == '.' {
                    lemma_scan_digits_props(s@, jj + 1);
                    let kk = scan_digits(s@, jj + 1);
                    lemma_digits_val_nonneg(s@.subrange(jj + 1, kk));
                    lemma_pow10_pos(3 - (kk - jj - 1));
                }
            }
            return None;
        },
    };
    assert(whole_digits <= 1);
    let whole: u32 = whole_digits * CONFIDENCE_UNIT;
    if j == n {
        return Some(whole);
    }
    if !(s.get_char(j) == '.') {
        return None;
    }
    let k = scan_digits_exec(s, j + 1);
    proof {
        lemma_scan_digits_props(s@, j as int + 1);
    }
    if k != n || k == j + 1 {
        return None;
    }
    let width = k - (j + 1);
    if width > 3 {
        return None;
    }
    proof {
        lemma_digits_val_nonneg(s@.subrange(j as int + 1, k as int));
        lemma_digits_val_bounded(s@, j as int + 1, k as int);
    }
    let frac_digits = match digits_value_capped(s, j + 1, k, 999) {
        Some(v) => v,
        None => {
            proof {
                let fs = s@.subrange(j as int + 1, k as int);
                lemma_digits_val_bounded(s@, j as int + 1, k as int);
            }
            return None;
        },
    };
    let scale: u32 = if width == 1 {
        proof {
            reveal_with_fuel(pow10, 4);
        }
        100
    } else if width == 2 {
        proof {
            reveal_with_fuel(pow10, 4);
        }
        10
    } else {
        proof {
            reveal_with_fuel(pow10, 4);
        }
        1
    };
    let v: u32 = whole + frac_digits * scale;
    if v > CONFIDENCE_UNIT {
        None
    } else {
        Some(v)
    }
}

/// Ten to any power is positive.
pub(crate) proof fn lemma_pow10_pos(e: int)
    ensures
        pow10(e) >= 1,
    decreases (if e <= 0 { 0int } else { e }),
{
    if e > 0 {
        lemma_pow10_pos(e - 1);
    }
}

/// A digit run of up to three digits has value below a thousand.
pub(crate) proof fn lemma_digits_val_bounded(s: Seq<char>, f: int, j: int)
    requires
        0 <= f <= j <= s.len(),
        j - f <= 3,
        forall|k: int| f <= k < j ==> is_digit(#[trigger] s[k]),
    ensures
        digits_val(s.subrange(f, j)) < 1000,
{
    lemma_digits_val_bounded_rec(s, f, j);
    reveal_with_fuel(pow10, 4);
    if j - f == 0 {
        assert(pow10(0) == 1);
    } else if j - f == 1 {
        assert(pow10(1) == 10);
    } else if j - f == 2 {
        assert(pow10(2) == 100);
    } else {
        assert(pow10(3) == 1000);
    }
}

/// Value bound for digit runs, by their length.
proof fn lemma_digits_val_bounded_rec(s: Seq<char>, f: int, j: int)
    requires
        0 <= f <= j <= s.len(),
        forall|k: int| f <= k < j ==> is_digit(#[trigger] s[k]),
    ensures
        digits_val(s.subrange(f, j)) < pow10(j - f),
    decreases j - f,
{
    if j == f {
        assert(s.subrange(f, f) =~= Seq::<char>::empty());
    } else {
        lemma_digits_val_bounded_rec(s, f, j - 1);
        lemma_digits_val_extend(s, f, j - 1);
        assert(digits_val(s.subrange(f, j)) == digits_val(s.subrange(f, j - 1)) * 10 + digit_val(
            s[j - 1],
        ));
    }
}

} // verus!
