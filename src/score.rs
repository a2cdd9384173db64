//! The score: derived from the distance run, written as at least four decimal
//! digits, and laid out glyph by glyph from the digit strip of the sprite
//! atlas.
use vstd::prelude::*;
use vstd::string::*;

verus! {

/// Distance worth one point (85 px).
pub const SCORE_UNIT: i64 = 850_000;

/// The score text is left-padded with zeros to this many digits.
pub const SCORE_WIDTH: usize = 4;

/// Gap between two digit glyphs, in atlas pixels.
pub const DIGIT_GAP: u32 = 3;

/// One atlas pixel of glyph advance, in simulation units (0.7 px).
pub const DIGIT_ADVANCE_SCALE: i64 = 7_000;

/// The largest advance of any digit glyph, in simulation units: a 22 px wide
/// glyph plus the gap.
pub const WIDEST_ADVANCE: i64 = 175_000;

/// Points for the distance `distance`; a distance not above zero scores none.
pub open spec fn score_of(distance: int) -> int {
    if distance <= 0 {
        0
    } else {
        distance / (SCORE_UNIT as int)
    }
}

/// The decimal digits of `n`, most significant first, without leading zeros.
pub open spec fn decimal_digits(n: nat) -> Seq<nat>
    decreases n,
{
    if n < 10 {
        seq![n]
    } else {
        decimal_digits(n / 10).push(n % 10)
    }
}

/// The decimal digits of `n`, left-padded with zeros to `SCORE_WIDTH` digits;
/// longer numbers keep all their digits.
pub open spec fn padded_digits(n: nat) -> Seq<nat> {
    let d = decimal_digits(n);
    if d.len() < SCORE_WIDTH {
        Seq::new((SCORE_WIDTH - d.len()) as nat, |i: int| 0nat) + d
    } else {
        d
    }
}

/// The character of the decimal digit `d`.
pub open spec fn digit_char(d: nat) -> char {
    if d == 0 {
        '0'
    } else if d == 1 {
        '1'
    } else if d == 2 {
        '2'
    } else if d == 3 {
        '3'
    } else if d == 4 {
        '4'
    } else if d == 5 {
        '5'
    } else if d == 6 {
        '6'
    } else if d == 7 {
        '7'
    } else if d == 8 {
        '8'
    } else {
        '9'
    }
}

/// The values of the digits `s`.
pub open spec fn digit_values(s: Seq<u32>) -> Seq<nat> {
    s.map_values(|d: u32| d as nat)
}

/// The text shown for the score `n`.
pub open spec fn score_chars(n: nat) -> Seq<char> {
    padded_digits(n).map_values(|d: nat| digit_char(d))
}

/// Left and right edge, in atlas pixels, of the glyph of digit `d`; none for
/// a value that is no digit.
pub open spec fn digit_span(d: int) -> Option<(u32, u32)> {
    if d == 0 {
        Some((1292, 1314))
    } else if d == 1 {
        Some((1314, 1334))
    } else if 2 <= d <= 9 {
        Some(((1292 + 20 * d) as u32, (1314 + 20 * d) as u32))
    } else {
        None
    }
}

/// How far the pen moves past the glyph of digit `d`, in simulation units.
pub open spec fn advance_of(d: int) -> int {
    let span = digit_span(d).unwrap();
    (span.1 - span.0 + DIGIT_GAP) * DIGIT_ADVANCE_SCALE
}

/// Where the `k`-th glyph of the digits `s` starts, from the first one.
pub open spec fn glyph_offset(s: Seq<u32>, k: int) -> int
    decreases k,
{
    if k <= 0 {
        0
    } else {
        glyph_offset(s, k - 1) + advance_of(s[k - 1] as int)
    }
}

/// Points scored over the distance `distance`.
pub fn score_count(distance: i64) -> (r: u64)
    ensures
        r == score_of(distance as int),
{
    if distance <= 0 {
        0
    } else {
        (distance / SCORE_UNIT) as u64
    }
}

/// Left and right edge, in atlas pixels, of the glyph of digit `number`, or
/// `None` where `number` is no decimal digit.
pub fn get_number_cords(number: u32) -> (r: Option<(u32, u32)>)
    ensures
        r == digit_span(number as int),
{
    match number {
        0 => Some((1292, 1314)),
        1 => Some((1314, 1334)),
        2 => Some((1332, 1354)),
        3 => Some((1352, 1374)),
        4 => Some((1372, 1394)),
        5 => Some((1392, 1414)),
        6 => Some((1412, 1434)),
        7 => Some((1432, 1454)),
        8 => Some((1452, 1474)),
        9 => Some((1472, 1494)),
        _ => None,
    }
}

fn digit_text(d: u64) -> (r: &'static str)
    requires
        d < 10,
    ensures
        r@ == seq![digit_char(d as nat)],
{
    match d {
        0 => {
            proof {
                reveal_strlit("0");
            }
            "0"
        },
        1 => {
            proof {
                reveal_strlit("1");
            }
            "1"
        },
        2 => {
            proof {
                reveal_strlit("2");
            }
            "2"
        },
        3 => {
            proof {
                reveal_strlit("3");
            }
            "3"
        },
        4 => {
            proof {
                reveal_strlit("4");
            }
            "4"
        },
        5 => {
            proof {
                reveal_strlit("5");
            }
            "5"
        },
        6 => {
            proof {
                reveal_strlit("6");
            }
            "6"
        },
        7 => {
            proof {
                reveal_strlit("7");
            }
            "7"
        },
        8 => {
            proof {
                reveal_strlit("8");
            }
            "8"
        },
        _ => {
            proof {
                reveal_strlit("9");
            }
            "9"
        },
    }
}

/// Appends the decimal digits of `n` to `digits`.
fn push_digits(digits: &mut Vec<u32>, n: u64)
    ensures
        digit_values(final(digits)@) == digit_values(old(digits)@)
            + decimal_digits(n as nat),
    decreases n,
{
    if n >= 10 {
        push_digits(digits, n / 10);
    }
    let ghost before = digits@;
    digits.push((n % 10) as u32);
    proof {
        assert(digit_values(digits@) =~= digit_values(before).push(
            (n % 10) as nat,
        ));
    }
}

/// The digits of the score `count`, left-padded with zeros to `SCORE_WIDTH`.
pub fn score_digits(count: u64) -> (r: Vec<u32>)
    ensures
        digit_values(r@) == padded_digits(count as nat),
{
    let mut digits: Vec<u32> = Vec::new();
    push_digits(&mut digits, count);
    assert(digit_values(digits@) =~= decimal_digits(count as nat));
    if digits.len() >= SCORE_WIDTH {
        return digits;
    }
    let pad = SCORE_WIDTH - digits.len();
    let mut out: Vec<u32> = Vec::new();
    let mut i: usize = 0;
    while i < pad
        invariant
            i <= pad,
            out@.len() == i,
            forall|k: int| 0 <= k < i ==> #[trigger] out@[k] == 0,
        decreases pad - i,
    {
        out.push(0);
        i = i + 1;
    }
    let mut j: usize = 0;
    while j < digits.len()
        invariant
            j <= digits@.len(),
            pad + digits@.len() == SCORE_WIDTH,
            out@.len() == pad + j,
            forall|k: int| 0 <= k < pad ==> #[trigger] out@[k] == 0,
            forall|k: int| 0 <= k < j ==> #[trigger] out@[pad + k] == digits@[k],
        decreases digits.len() - j,
    {
        out.push(digits[j]);
        j = j + 1;
    }
    proof {
        let want = padded_digits(count as nat);
        let dd = decimal_digits(count as nat);
        assert(dd == digit_values(digits@));
        assert forall|k: int| 0 <= k < out@.len() implies #[trigger] digit_values(out@)[k] == want[k] by {
            if k >= pad {
                assert(out@[pad + (k - pad)] == digits@[k - pad]);
                assert(dd[k - pad] == digits@[k - pad] as nat);
            }
        }
        assert(digit_values(out@) =~= want);
    }
    out
}

/// The score `count` as text: its decimal digits, left-padded with zeros to
/// at least `SCORE_WIDTH` characters and never cut short.
pub fn score_text(count: u64) -> (r: String)
    ensures
        r@ == score_chars(count as nat),
        r@.len() >= SCORE_WIDTH,
{
    let digits = score_digits(count);
    let mut text = String::new();
    let mut i: usize = 0;
    while i < digits.len()
        invariant
            i <= digits@.len(),
            digit_values(digits@) == padded_digits(count as nat),
            text@ == padded_digits(count as nat).subrange(0, i as int).map_values(
                |d: nat| digit_char(d),
            ),
        decreases digits.len() - i,
    {
        assert(digit_values(digits@)[i as int] == digits@[i as int] as nat);
        proof {
            lemma_digits_are_digits(count as nat);
        }
        assert(padded_digits(count as nat)[i as int] < 10);
        let d = digits[i];
        text.append(digit_text(d as u64));
        i = i + 1;
        assert(text@ =~= padded_digits(count as nat).subrange(0, i as int).map_values(
            |d: nat| digit_char(d),
        ));
    }
    assert(padded_digits(count as nat).subrange(0, i as int) =~= padded_digits(count as nat));
    proof {
        lemma_digits_are_digits(count as nat);
    }
    text
}

proof fn lemma_decimal_digits(n: nat)
    ensures
        decimal_digits(n).len() >= 1,
        forall|i: int| 0 <= i < decimal_digits(n).len() ==> #[trigger] decimal_digits(n)[i] < 10,
    decreases n,
{
    if n >= 10 {
        lemma_decimal_digits(n / 10);
    }
}

/// Every entry of the padded score digits is a decimal digit, and there are at
/// least `SCORE_WIDTH` of them.
pub proof fn lemma_digits_are_digits(n: nat)
    ensures
        padded_digits(n).len() >= SCORE_WIDTH,
        forall|i: int| 0 <= i < padded_digits(n).len() ==> #[trigger] padded_digits(n)[i] < 10,
{
    lemma_decimal_digits(n);
    let d = decimal_digits(n);
    if d.len() < SCORE_WIDTH {
        let p = padded_digits(n);
        assert forall|i: int| 0 <= i < p.len() implies #[trigger] p[i] < 10 by {
            if i >= SCORE_WIDTH - d.len() {
                assert(p[i] == d[i - (SCORE_WIDTH - d.len())]);
            }
        }
    }
}

/// Where each glyph of the digits `digits` starts, from the first one: every
/// glyph is as wide as its span in the atlas plus a fixed gap.
pub fn digit_offsets(digits: &Vec<u32>) -> (r: Vec<i64>)
    requires
        digits@.len() * WIDEST_ADVANCE <= i64::MAX,
        forall|i: int| 0 <= i < digits@.len() ==> #[trigger] digits@[i] < 10,
    ensures
        r@.len() == digits@.len(),
        forall|k: int| 0 <= k < r@.len() ==> #[trigger] r@[k] == glyph_offset(digits@, k),
{
    let mut out: Vec<i64> = Vec::new();
    let mut pen: i64 = 0;
    let mut i: usize = 0;
    while i < digits.len()
        invariant
            i <= digits@.len(),
            digits@.len() * WIDEST_ADVANCE <= i64::MAX,
            forall|j: int| 0 <= j < digits@.len() ==> #[trigger] digits@[j] < 10,
            out@.len() == i,
            forall|k: int| 0 <= k < i ==> #[trigger] out@[k] == glyph_offset(digits@, k),
            pen == glyph_offset(digits@, i as int),
            0 <= pen <= WIDEST_ADVANCE * i,
        decreases digits.len() - i,
    {
        out.push(pen);
        let d = digits[i];
        assert(d < 10);
        let span = get_number_cords(d);
        let (left, right) = span.unwrap();
        pen = pen + ((right - left + DIGIT_GAP) as i64) * DIGIT_ADVANCE_SCALE;
        i = i + 1;
    }
    out
}

} // verus!
