//! Scanning of JSON text.
//!
//! A write request arrives as a JSON document, and the validator has to
//! accept exactly what a standard JSON reader accepts: whitespace between
//! tokens, strings with the usual escapes (including `\uXXXX` with
//! surrogate pairs, decoded to UTF-8), numbers with optional sign, fraction
//! and exponent, and arbitrary nested values in fields the service ignores.
//! The spec functions here are the grammar; each executable scanner is
//! proved to return exactly what its spec function says.
//!
//! All scanners work on raw bytes and return the position after the token,
//! or nothing when the text is not well formed at that position.  Recursive
//! scanning of nested values is bounded by an explicit `fuel`: one unit is
//! spent for each object or array entered and for each member or element
//! read.  The validator grants one unit per byte of input and one more,
//! which every ordinary document leaves to spare; a document whose nesting
//! outruns even that allowance is refused, as a standard reader's
//! recursion limit refuses it.

use vstd::prelude::*;

verus! {

/// JSON insignificant whitespace: space, tab, line feed, carriage return.
pub open spec fn is_ws(c: u8) -> bool {
    c == 32 || c == 9 || c == 10 || c == 13
}

/// The first position at or after `i` holding no whitespace.
pub open spec fn ws_end(s: Seq<u8>, i: int) -> int
    decreases s.len() - i,
{
    if i < s.len() && is_ws(s[i]) {
        ws_end(s, i + 1)
    } else {
        i
    }
}

pub proof fn lemma_ws_end(s: Seq<u8>, i: int)
    requires
        0 <= i <= s.len(),
    ensures
        i <= ws_end(s, i) <= s.len(),
    decreases s.len() - i,
{
    if i < s.len() && is_ws(s[i]) {
        lemma_ws_end(s, i + 1);
    }
}

/// Advances past whitespace.
pub fn scan_ws(s: &Vec<u8>, i: usize) -> (r: usize)
    requires
        i <= s.len(),
    ensures
        r as int == ws_end(s@, i as int),
        i <= r <= s.len(),
{
    let mut j: usize = i;
    while j < s.len() && (s[j] == 32 || s[j] == 9 || s[j] == 10 || s[j] == 13)
        invariant
            i <= j <= s@.len(),
            ws_end(s@, i as int) == ws_end(s@, j as int),
        decreases s@.len() - j,
    {
        j = j + 1;
    }
    j
}

/// A decimal digit.
pub open spec fn is_digit(c: u8) -> bool {
    48 <= c <= 57
}

/// A hexadecimal digit.
pub open spec fn is_hex(c: u8) -> bool {
    is_digit(c) || (97 <= c <= 102) || (65 <= c <= 70)
}

/// The value of a hexadecimal digit.
pub open spec fn hex_val(c: u8) -> int {
    if is_digit(c) {
        c - 48
    } else if 97 <= c <= 102 {
        c - 87
    } else {
        c - 55
    }
}

/// Whether four hexadecimal digits stand at `i`.
pub open spec fn hex4_ok(s: Seq<u8>, i: int) -> bool {
    &&& i + 4 <= s.len()
    &&& is_hex(s[i])
    &&& is_hex(s[i + 1])
    &&& is_hex(s[i + 2])
    &&& is_hex(s[i + 3])
}

/// The value of the four hexadecimal digits at `i`.
pub open spec fn hex4_val(s: Seq<u8>, i: int) -> int {
    hex_val(s[i]) * 4096 + hex_val(s[i + 1]) * 256 + hex_val(s[i + 2]) * 16 + hex_val(s[i + 3])
}

/// The UTF-8 encoding of the code point `cp`.
pub open spec fn utf8_of(cp: int) -> Seq<u8> {
    if cp < 0x80 {
        seq![cp as u8]
    } else if cp < 0x800 {
        seq![(192 + cp / 64) as u8, (128 + cp % 64) as u8]
    } else if cp < 0x10000 {
        seq![(224 + cp / 4096) as u8, (128 + (cp / 64) % 64) as u8, (128 + cp % 64) as u8]
    } else {
        seq![
            (240 + cp / 262144) as u8,
            (128 + (cp / 4096) % 64) as u8,
            (128 + (cp / 64) % 64) as u8,
            (128 + cp % 64) as u8,
        ]
    }
}

/// The byte a single-character escape stands for, if the character after
/// the backslash is one of the eight JSON knows.
pub open spec fn simple_escape(c: u8) -> Option<u8> {
    if c == 34 {
        Some(34u8)
    } else if c == 92 {
        Some(92u8)
    } else if c == 47 {
        Some(47u8)
    } else if c == 98 {
        Some(8u8)
    } else if c == 102 {
        Some(12u8)
    } else if c == 110 {
        Some(10u8)
    } else if c == 114 {
        Some(13u8)
    } else if c == 116 {
        Some(9u8)
    } else {
        None
    }
}

/// Reads the rest of a string, `i` standing just past the opening quote:
/// the decoded bytes and the position after the closing quote.  A control
/// character must be escaped; a `\uXXXX` escape naming a high surrogate
/// must be followed by one naming a low surrogate, and the pair decodes to
/// a single code point; a lone surrogate is refused.
pub open spec fn str_tail(s: Seq<u8>, i: int) -> Option<(Seq<u8>, int)>
    decreases s.len() - i,
{
    if i >= s.len() {
        None
    } else if s[i] == 34 {
        Some((Seq::empty(), i + 1))
    } else if s[i] == 92 {
        if i + 1 >= s.len() {
            None
        } else {
            let e = s[i + 1];
            match simple_escape(e) {
                Some(b) => match str_tail(s, i + 2) {
                    Some(p) => Some((seq![b] + p.0, p.1)),
                    None => None,
                },
                None => {
                    if e == 117 && hex4_ok(s, i + 2) {
                        let cp = hex4_val(s, i + 2);
                        if 0xD800 <= cp < 0xDC00 {
                            if i + 8 <= s.len() && s[i + 6] == 92 && s[i + 7] == 117 && hex4_ok(
                                s,
                                i + 8,
                            ) {
                                let lo = hex4_val(s, i + 8);
                                if 0xDC00 <= lo < 0xE000 {
                                    let joined = 0x10000 + (cp - 0xD800) * 1024 + (lo - 0xDC00);
                                    match str_tail(s, i + 12) {
                                        Some(p) => Some((utf8_of(joined) + p.0, p.1)),
                                        None => None,
                                    }
                                } else {
                                    None
                                }
                            } else {
                                None
                            }
                        } else if 0xDC00 <= cp < 0xE000 {
                            None
                        } else {
                            match str_tail(s, i + 6) {
                                Some(p) => Some((utf8_of(cp) + p.0, p.1)),
                                None => None,
                            }
                        }
                    } else {
                        None
                    }
                },
            }
        }
    } else if s[i] < 32 {
        None
    } else {
        match str_tail(s, i + 1) {
            Some(p) => Some((seq![s[i]] + p.0, p.1)),
            None => None,
        }
    }
}

pub proof fn lemma_str_tail(s: Seq<u8>, i: int)
    requires
        0 <= i <= s.len(),
    ensures
        match str_tail(s, i) {
            Some(p) => i < p.1 <= s.len(),
            None => true,
        },
    decreases s.len() - i,
{
    if i < s.len() {
        if s[i] == 92 && i + 1 < s.len() {
            let e = s[i + 1];
            if simple_escape(e) is Some {
                lemma_str_tail(s, i + 2);
            } else if e == 117 && hex4_ok(s, i + 2) {
                let cp = hex4_val(s, i + 2);
                if 0xD800 <= cp < 0xDC00 {
                    if i + 8 <= s.len() && s[i + 6] == 92 && s[i + 7] == 117 && hex4_ok(s, i + 8) {
                        lemma_str_tail(s, i + 12);
                    }
                } else {
                    lemma_str_tail(s, i + 6);
                }
            }
        } else if s[i] != 34 && s[i] != 92 && s[i] >= 32 {
            lemma_str_tail(s, i + 1);
        }
    }
}

/// The first position at or after `i` holding no decimal digit.
pub open spec fn digits_end(s: Seq<u8>, i: int) -> int
    decreases s.len() - i,
{
    if i < s.len() && is_digit(s[i]) {
        digits_end(s, i + 1)
    } else {
        i
    }
}

pub proof fn lemma_digits_end(s: Seq<u8>, i: int)
    requires
        0 <= i <= s.len(),
    ensures
        i <= digits_end(s, i) <= s.len(),
        forall|k: int| i <= k < digits_end(s, i) ==> is_digit(s[k]),
        (i < s.len() && is_digit(s[i])) ==> i + 1 <= digits_end(s, i),
    decreases s.len() - i,
{
    if i < s.len() && is_digit(s[i]) {
        lemma_digits_end(s, i + 1);
    }
}

/// Folds the digits of `s` between `i` and `end` into a value, left to
/// right, starting from `acc`; the result drops to `None` the moment the
/// value would no longer fit in a `u64`.  This is what a standard JSON
/// reader can hand over as an unsigned integer: anything larger is only
/// available as a floating-point approximation and is no longer that
/// integer.
pub open spec fn acc_digits(s: Seq<u8>, i: int, end: int, acc: Option<u64>) -> Option<u64>
    decreases end - i,
{
    if i < end {
        match acc {
            Some(v) => {
                let d = s[i] - 48;
                if v < 1844674407370955161 || (v == 1844674407370955161 && d <= 5) {
                    acc_digits(s, i + 1, end, Some((v * 10 + d) as u64))
                } else {
                    acc_digits(s, i + 1, end, None)
                }
            },
            None => None,
        }
    } else {
        acc
    }
}

/// Reads an exponent part if one stands at `i`, keeping `base` as the
/// integer value only when there is none: an exponent makes the number a
/// floating-point one, which is never handed over as an integer.
pub open spec fn exp_part(s: Seq<u8>, i: int, base: Option<u64>) -> Option<(Option<u64>, int)> {
    if i < s.len() && (s[i] == 101 || s[i] == 69) {
        let j = if i + 1 < s.len() && (s[i + 1] == 43 || s[i + 1] == 45) {
            i + 2
        } else {
            i + 1
        };
        if j < s.len() && is_digit(s[j]) {
            Some((Option::<u64>::None, digits_end(s, j)))
        } else {
            None
        }
    } else {
        Some((base, i))
    }
}

/// Reads a JSON number at `i`: the position after it, and its value as a
/// `u64` exactly when it is an unsigned integer in range — no sign, no
/// fraction, no exponent, no overflow.  The integer part is a single zero
/// or starts with a nonzero digit.
pub open spec fn number_token(s: Seq<u8>, i: int) -> Option<(Option<u64>, int)> {
    let j = if i < s.len() && s[i] == 45 {
        i + 1
    } else {
        i
    };
    if j < s.len() && is_digit(s[j]) {
        let ie = if s[j] == 48 {
            j + 1
        } else {
            digits_end(s, j)
        };
        let base = if j != i {
            Option::<u64>::None
        } else {
            acc_digits(s, j, ie, Some(0u64))
        };
        if ie < s.len() && s[ie] == 46 {
            if ie + 1 < s.len() && is_digit(s[ie + 1]) {
                exp_part(s, digits_end(s, ie + 1), Option::<u64>::None)
            } else {
                None
            }
        } else {
            exp_part(s, ie, base)
        }
    } else {
        None
    }
}

pub proof fn lemma_number_token(s: Seq<u8>, i: int)
    requires
        0 <= i <= s.len(),
    ensures
        match number_token(s, i) {
            Some(p) => i < p.1 <= s.len(),
            None => true,
        },
{
    let j = if i < s.len() && s[i] == 45 {
        i + 1
    } else {
        i
    };
    if j < s.len() && is_digit(s[j]) {
        lemma_digits_end(s, j);
        let ie = if s[j] == 48 {
            j + 1
        } else {
            digits_end(s, j)
        };
        if ie < s.len() && s[ie] == 46 {
            if ie + 1 < s.len() && is_digit(s[ie + 1]) {
                lemma_digits_end(s, ie + 1);
                lemma_exp_part(s, digits_end(s, ie + 1), Option::<u64>::None);
            }
        } else {
            lemma_exp_part(s, ie, if j != i {
                Option::<u64>::None
            } else {
                acc_digits(s, j, ie, Some(0u64))
            });
        }
    }
}

pub proof fn lemma_exp_part(s: Seq<u8>, i: int, base: Option<u64>)
    requires
        0 <= i <= s.len(),
    ensures
        match exp_part(s, i, base) {
            Some(p) => i <= p.1 <= s.len(),
            None => true,
        },
{
    if i < s.len() && (s[i] == 101 || s[i] == 69) {
        let j = if i + 1 < s.len() && (s[i + 1] == 43 || s[i + 1] == 45) {
            i + 2
        } else {
            i + 1
        };
        if j < s.len() && is_digit(s[j]) {
            lemma_digits_end(s, j);
        }
    }
}

/// Advances past decimal digits.
fn scan_digits(s: &Vec<u8>, i: usize) -> (r: usize)
    requires
        i <= s.len(),
    ensures
        r as int == digits_end(s@, i as int),
        i <= r <= s.len(),
{
    let mut j: usize = i;
    while j < s.len() && 48 <= s[j] && s[j] <= 57
        invariant
            i <= j <= s@.len(),
            digits_end(s@, i as int) == digits_end(s@, j as int),
        decreases s@.len() - j,
    {
        j = j + 1;
    }
    j
}

/// Folds the digits between `i` and `end` into a `u64`, or `None` on
/// overflow.
fn scan_uint(s: &Vec<u8>, i: usize, end: usize) -> (r: Option<u64>)
    requires
        i <= end <= s.len(),
        forall|k: int| i <= k < end ==> is_digit(s@[k]),
    ensures
        r == acc_digits(s@, i as int, end as int, Some(0u64)),
{
    let mut j: usize = i;
    let mut cur: Option<u64> = Some(0);
    while j < end
        invariant
            i <= j <= end <= s@.len(),
            forall|k: int| i <= k < end ==> is_digit(s@[k]),
            acc_digits(s@, i as int, end as int, Some(0u64)) == acc_digits(
                s@,
                j as int,
                end as int,
                cur,
            ),
        decreases end - j,
    {
        let next: Option<u64> = match cur {
            Some(v) => {
                let d = s[j] - 48;
                if v < 1844674407370955161 || (v == 1844674407370955161 && d <= 5) {
                    Some(v * 10 + (d as u64))
                } else {
                    None
                }
            },
            None => None,
        };
        cur = next;
        j = j + 1;
    }
    cur
}

/// Reads a JSON number at `i`.
pub fn scan_number(s: &Vec<u8>, i: usize) -> (r: Option<(Option<u64>, usize)>)
    requires
        i <= s.len(),
    ensures
        match number_token(s@, i as int) {
            Some(p) => (r matches Some(q) && q.0 == p.0 && q.1 as int == p.1),
            None => r is None,
        },
{
    let neg = i < s.len() && s[i] == 45;
    let j = if neg {
        i + 1
    } else {
        i
    };
    if !(j < s.len() && 48 <= s[j] && s[j] <= 57) {
        return None;
    }
    let ie = if s[j] == 48 {
        j + 1
    } else {
        scan_digits(s, j)
    };
    let base: Option<u64> = if neg {
        None
    } else {
        proof {
            lemma_digits_end(s@, j as int);
        }
        scan_uint(s, j, ie)
    };
    if ie < s.len() && s[ie] == 46 {
        if ie + 1 < s.len() && 48 <= s[ie + 1] && s[ie + 1] <= 57 {
            let fe = scan_digits(s, ie + 1);
            return scan_exp(s, fe, None);
        }
        return None;
    }
    scan_exp(s, ie, base)
}

/// Reads an exponent part if one stands at `i`.
fn scan_exp(s: &Vec<u8>, i: usize, base: Option<u64>) -> (r: Option<(Option<u64>, usize)>)
    requires
        i <= s.len(),
    ensures
        match exp_part(s@, i as int, base) {
            Some(p) => (r matches Some(q) && q.0 == p.0 && q.1 as int == p.1),
            None => r is None,
        },
{
    if i < s.len() && (s[i] == 101 || s[i] == 69) {
        let j = if i + 1 < s.len() && (s[i + 1] == 43 || s[i + 1] == 45) {
            i + 2
        } else {
            i + 1
        };
        if j < s.len() && 48 <= s[j] && s[j] <= 57 {
            return Some((None, scan_digits(s, j)));
        }
        return None;
    }
    Some((base, i))
}

/// Whether the four bytes `a b c d` stand at `i`.
pub open spec fn lit4(s: Seq<u8>, i: int, a: u8, b: u8, c: u8, d: u8) -> bool {
    &&& i + 4 <= s.len()
    &&& s[i] == a
    &&& s[i + 1] == b
    &&& s[i + 2] == c
    &&& s[i + 3] == d
}

/// Reads any JSON value at `i` (whitespace already skipped): the position
/// after it.  `fuel` bounds the recursion into objects and arrays.
pub open spec fn skip_value(s: Seq<u8>, i: int, fuel: nat) -> Option<int>
    decreases fuel,
{
    if fuel == 0 || i >= s.len() {
        None
    } else if s[i] == 110 {
        if lit4(s, i, 110, 117, 108, 108) {
            Some(i + 4)
        } else {
            None
        }
    } else if s[i] == 116 {
        if lit4(s, i, 116, 114, 117, 101) {
            Some(i + 4)
        } else {
            None
        }
    } else if s[i] == 102 {
        if i + 5 <= s.len() && s[i + 1] == 97 && s[i + 2] == 108 && s[i + 3] == 115 && s[i + 4]
            == 101 {
            Some(i + 5)
        } else {
            None
        }
    } else if s[i] == 34 {
        match str_tail(s, i + 1) {
            Some(p) => Some(p.1),
            None => None,
        }
    } else if s[i] == 123 {
        skip_members(s, ws_end(s, i + 1), true, (fuel - 1) as nat)
    } else if s[i] == 91 {
        skip_elements(s, ws_end(s, i + 1), true, (fuel - 1) as nat)
    } else if s[i] == 45 || is_digit(s[i]) {
        match number_token(s, i) {
            Some(p) => Some(p.1),
            None => None,
        }
    } else {
        None
    }
}

/// Reads the members of an object, `i` standing after the opening brace
/// (or after a comma) with whitespace skipped: the position after the
/// closing brace.  Only a first round may close the object at once; after
/// a comma a member must follow.
pub open spec fn skip_members(s: Seq<u8>, i: int, first: bool, fuel: nat) -> Option<int>
    decreases fuel,
{
    if fuel == 0 || i >= s.len() {
        None
    } else if first && s[i] == 125 {
        Some(i + 1)
    } else if s[i] == 34 {
        match str_tail(s, i + 1) {
            Some(np) => {
                let k = ws_end(s, np.1);
                if k < s.len() && s[k] == 58 {
                    match skip_value(s, ws_end(s, k + 1), (fuel - 1) as nat) {
                        Some(p) => {
                            let q = ws_end(s, p);
                            if q < s.len() && s[q] == 44 {
                                skip_members(s, ws_end(s, q + 1), false, (fuel - 1) as nat)
                            } else if q < s.len() && s[q] == 125 {
                                Some(q + 1)
                            } else {
                                None
                            }
                        },
                        None => None,
                    }
                } else {
                    None
                }
            },
            None => None,
        }
    } else {
        None
    }
}

/// Reads the elements of an array, `i` standing after the opening bracket
/// (or after a comma) with whitespace skipped: the position after the
/// closing bracket.
pub open spec fn skip_elements(s: Seq<u8>, i: int, first: bool, fuel: nat) -> Option<int>
    decreases fuel,
{
    if fuel == 0 || i >= s.len() {
        None
    } else if first && s[i] == 93 {
        Some(i + 1)
    } else {
        match skip_value(s, i, (fuel - 1) as nat) {
            Some(p) => {
                let q = ws_end(s, p);
                if q < s.len() && s[q] == 44 {
                    skip_elements(s, ws_end(s, q + 1), false, (fuel - 1) as nat)
                } else if q < s.len() && s[q] == 93 {
                    Some(q + 1)
                } else {
                    None
                }
            },
            None => None,
        }
    }
}

pub proof fn lemma_skip_value(s: Seq<u8>, i: int, fuel: nat)
    requires
        0 <= i <= s.len(),
    ensures
        match skip_value(s, i, fuel) {
            Some(e) => i < e <= s.len(),
            None => true,
        },
    decreases fuel,
{
    if fuel != 0 && i < s.len() {
        if s[i] == 34 {
            lemma_str_tail(s, i + 1);
        } else if s[i] == 123 {
            lemma_ws_end(s, i + 1);
            lemma_skip_members(s, ws_end(s, i + 1), true, (fuel - 1) as nat);
        } else if s[i] == 91 {
            lemma_ws_end(s, i + 1);
            lemma_skip_elements(s, ws_end(s, i + 1), true, (fuel - 1) as nat);
        } else if s[i] == 45 || is_digit(s[i]) {
            lemma_number_token(s, i);
        }
    }
}

pub proof fn lemma_skip_members(s: Seq<u8>, i: int, first: bool, fuel: nat)
    requires
        0 <= i <= s.len(),
    ensures
        match skip_members(s, i, first, fuel) {
            Some(e) => i < e <= s.len(),
            None => true,
        },
    decreases fuel,
{
    if fuel != 0 && i < s.len() && !(first && s[i] == 125) && s[i] == 34 {
        lemma_str_tail(s, i + 1);
        if let Some(np) = str_tail(s, i + 1) {
            lemma_ws_end(s, np.1);
            let k = ws_end(s, np.1);
            if k < s.len() && s[k] == 58 {
                lemma_ws_end(s, k + 1);
                lemma_skip_value(s, ws_end(s, k + 1), (fuel - 1) as nat);
                if let Some(p) = skip_value(s, ws_end(s, k + 1), (fuel - 1) as nat) {
                    lemma_ws_end(s, p);
                    let q = ws_end(s, p);
                    if q < s.len() && s[q] == 44 {
                        lemma_ws_end(s, q + 1);
                        lemma_skip_members(s, ws_end(s, q + 1), false, (fuel - 1) as nat);
                    }
                }
            }
        }
    }
}

pub proof fn lemma_skip_elements(s: Seq<u8>, i: int, first: bool, fuel: nat)
    requires
        0 <= i <= s.len(),
    ensures
        match skip_elements(s, i, first, fuel) {
            Some(e) => i < e <= s.len(),
            None => true,
        },
    decreases fuel,
{
    if fuel != 0 && i < s.len() && !(first && s[i] == 93) {
        lemma_skip_value(s, i, (fuel - 1) as nat);
        if let Some(p) = skip_value(s, i, (fuel - 1) as nat) {
            lemma_ws_end(s, p);
            let q = ws_end(s, p);
            if q < s.len() && s[q] == 44 {
                lemma_ws_end(s, q + 1);
                lemma_skip_elements(s, ws_end(s, q + 1), false, (fuel - 1) as nat);
            }
        }
    }
}

/// Reads any JSON value at `i`.
pub fn scan_value(s: &Vec<u8>, i: usize, fuel: usize) -> (r: Option<usize>)
    requires
        i <= s.len(),
    ensures
        match skip_value(s@, i as int, fuel as nat) {
            Some(e) => (r matches Some(x) && x as int == e),
            None => r is None,
        },
    decreases fuel,
{
    if fuel == 0 || i >= s.len() {
        return None;
    }
    let c = s[i];
    if c == 110 {
        if s.len() - i >= 4 && s[i + 1] == 117 && s[i + 2] == 108 && s[i + 3] == 108 {
            return Some(i + 4);
        }
        return None;
    }
    if c == 116 {
        if s.len() - i >= 4 && s[i + 1] == 114 && s[i + 2] == 117 && s[i + 3] == 101 {
            return Some(i + 4);
        }
        return None;
    }
    if c == 102 {
        if s.len() - i >= 5 && s[i + 1] == 97 && s[i + 2] == 108 && s[i + 3] == 115 && s[i + 4]
            == 101 {
            return Some(i + 5);
        }
        return None;
    }
    if c == 34 {
        let mut scratch: Vec<u8> = Vec::new();
        return scan_str_tail(s, i + 1, &mut scratch);
    }
    if c == 123 {
        let j = scan_ws(s, i + 1);
        return scan_members(s, j, true, fuel - 1);
    }
    if c == 91 {
        let j = scan_ws(s, i + 1);
        return scan_elements(s, j, true, fuel - 1);
    }
    if c == 45 || (48 <= c && c <= 57) {
        return match scan_number(s, i) {
            Some(p) => Some(p.1),
            None => None,
        };
    }
    None
}

/// Reads the members of an object, `i` standing after the opening brace or
/// a comma, whitespace skipped.
pub fn scan_members(s: &Vec<u8>, i: usize, first: bool, fuel: usize) -> (r: Option<usize>)
    requires
        i <= s.len(),
    ensures
        match skip_members(s@, i as int, first, fuel as nat) {
            Some(e) => (r matches Some(x) && x as int == e),
            None => r is None,
        },
    decreases fuel,
{
    if fuel == 0 || i >= s.len() {
        return None;
    }
    if first && s[i] == 125 {
        return Some(i + 1);
    }
    if s[i] != 34 {
        return None;
    }
    let mut scratch: Vec<u8> = Vec::new();
    let j = match scan_str_tail(s, i + 1, &mut scratch) {
        Some(j) => j,
        None => { return None; },
    };
    proof {
        lemma_str_tail(s@, (i + 1) as int);
    }
    let k = scan_ws(s, j);
    if !(k < s.len() && s[k] == 58) {
        return None;
    }
    let m = scan_ws(s, k + 1);
    let p = match scan_value(s, m, fuel - 1) {
        Some(p) => p,
        None => { return None; },
    };
    proof {
        lemma_skip_value(s@, m as int, (fuel - 1) as nat);
    }
    let q = scan_ws(s, p);
    if q < s.len() && s[q] == 44 {
        let n = scan_ws(s, q + 1);
        return scan_members(s, n, false, fuel - 1);
    }
    if q < s.len() && s[q] == 125 {
        return Some(q + 1);
    }
    None
}

/// Reads the elements of an array, `i` standing after the opening bracket
/// or a comma, whitespace skipped.
pub fn scan_elements(s: &Vec<u8>, i: usize, first: bool, fuel: usize) -> (r: Option<usize>)
    requires
        i <= s.len(),
    ensures
        match skip_elements(s@, i as int, first, fuel as nat) {
            Some(e) => (r matches Some(x) && x as int == e),
            None => r is None,
        },
    decreases fuel,
{
    if fuel == 0 || i >= s.len() {
        return None;
    }
    if first && s[i] == 93 {
        return Some(i + 1);
    }
    let p = match scan_value(s, i, fuel - 1) {
        Some(p) => p,
        None => { return None; },
    };
    proof {
        lemma_skip_value(s@, i as int, (fuel - 1) as nat);
    }
    let q = scan_ws(s, p);
    if q < s.len() && s[q] == 44 {
        let n = scan_ws(s, q + 1);
        return scan_elements(s, n, false, fuel - 1);
    }
    if q < s.len() && s[q] == 93 {
        return Some(q + 1);
    }
    None
}

/// Reads one hexadecimal digit.
fn scan_hex(c: u8) -> (r: Option<u8>)
    ensures
        match r {
            Some(v) => is_hex(c) && v as int == hex_val(c),
            None => !is_hex(c),
        },
{
    if 48 <= c && c <= 57 {
        Some(c - 48)
    } else if 97 <= c && c <= 102 {
        Some(c - 87)
    } else if 65 <= c && c <= 70 {
        Some(c - 55)
    } else {
        None
    }
}

/// Reads the four hexadecimal digits at `i`.
fn scan_hex4(s: &Vec<u8>, i: usize) -> (r: Option<u32>)
    requires
        i <= s.len(),
    ensures
        match r {
            Some(v) => hex4_ok(s@, i as int) && v as int == hex4_val(s@, i as int) && v < 0x10000,
            None => !hex4_ok(s@, i as int),
        },
{
    if s.len() < 4 || i > s.len() - 4 {
        return None;
    }
    let a = match scan_hex(s[i]) {
        Some(v) => v,
        None => { return None; },
    };
    let b = match scan_hex(s[i + 1]) {
        Some(v) => v,
        None => { return None; },
    };
    let c = match scan_hex(s[i + 2]) {
        Some(v) => v,
        None => { return None; },
    };
    let d = match scan_hex(s[i + 3]) {
        Some(v) => v,
        None => { return None; },
    };
    Some((a as u32) * 4096 + (b as u32) * 256 + (c as u32) * 16 + (d as u32))
}

/// Appends the UTF-8 encoding of `cp` to `out`.
fn push_utf8(out: &mut Vec<u8>, cp: u32)
    requires
        cp < 0x110000,
    ensures
        final(out)@ == old(out)@ + utf8_of(cp as int),
{
    if cp < 0x80 {
        out.push(cp as u8);
    } else if cp < 0x800 {
        out.push((192 + cp / 64) as u8);
        out.push((128 + cp % 64) as u8);
    } else if cp < 0x10000 {
        out.push((224 + cp / 4096) as u8);
        out.push((128 + (cp / 64) % 64) as u8);
        out.push((128 + cp % 64) as u8);
    } else {
        out.push((240 + cp / 262144) as u8);
        out.push((128 + (cp / 4096) % 64) as u8);
        out.push((128 + (cp / 64) % 64) as u8);
        out.push((128 + cp % 64) as u8);
    }
    assert(out@ =~= old(out)@ + utf8_of(cp as int));
}

/// Reads the rest of a string, `i` standing just past the opening quote,
/// appending the decoded bytes to `out`; answers the position after the
/// closing quote.
pub fn scan_str_tail(s: &Vec<u8>, i: usize, out: &mut Vec<u8>) -> (r: Option<usize>)
    requires
        i <= s.len(),
    ensures
        match str_tail(s@, i as int) {
            Some(p) => (r matches Some(j) && j as int == p.1 && final(out)@ == old(out)@ + p.0),
            None => r is None,
        },
    decreases s@.len() - i,
{
    if i >= s.len() {
        return None;
    }
    let c = s[i];
    if c == 34 {
        assert(out@ =~= out@ + Seq::<u8>::empty());
        return Some(i + 1);
    }
    if c == 92 {
        if i + 1 >= s.len() {
            return None;
        }
        let e = s[i + 1];
        let simple = match e {
            34 => Some(34u8),
            92 => Some(92u8),
            47 => Some(47u8),
            98 => Some(8u8),
            102 => Some(12u8),
            110 => Some(10u8),
            114 => Some(13u8),
            116 => Some(9u8),
            _ => None,
        };
        assert(simple == simple_escape(e));
        match simple {
            Some(b) => {
                out.push(b);
                let r = scan_str_tail(s, i + 2, out);
                proof {
                    if let Some(p) = str_tail(s@, (i + 2) as int) {
                        assert(old(out)@ + (seq![b] + p.0) =~= (old(out)@ + seq![b]) + p.0);
                    }
                }
                return r;
            },
            None => {
                if e != 117 {
                    return None;
                }
                let cp = match scan_hex4(s, i + 2) {
                    Some(v) => v,
                    None => { return None; },
                };
                if 0xD800 <= cp && cp < 0xDC00 {
                    if s.len() >= 8 && i <= s.len() - 8 && s[i + 6] == 92 && s[i + 7] == 117 {
                        let lo = match scan_hex4(s, i + 8) {
                            Some(v) => v,
                            None => { return None; },
                        };
                        if 0xDC00 <= lo && lo < 0xE000 {
                            let joined = 0x10000 + (cp - 0xD800) * 1024 + (lo - 0xDC00);
                            push_utf8(out, joined);
                            let r = scan_str_tail(s, i + 12, out);
                            proof {
                                if let Some(p) = str_tail(s@, (i + 12) as int) {
                                    assert(old(out)@ + (utf8_of(joined as int) + p.0) =~= (old(
                                        out,
                                    )@ + utf8_of(joined as int)) + p.0);
                                }
                            }
                            return r;
                        }
                        return None;
                    }
                    return None;
                }
                if 0xDC00 <= cp && cp < 0xE000 {
                    return None;
                }
                push_utf8(out, cp);
                let r = scan_str_tail(s, i + 6, out);
                proof {
                    if let Some(p) = str_tail(s@, (i + 6) as int) {
                        assert(old(out)@ + (utf8_of(cp as int) + p.0) =~= (old(out)@ + utf8_of(
                            cp as int,
                        )) + p.0);
                    }
                }
                return r;
            },
        }
    }
    if c < 32 {
        return None;
    }
    out.push(c);
    let r = scan_str_tail(s, i + 1, out);
    proof {
        if let Some(p) = str_tail(s@, (i + 1) as int) {
            assert(old(out)@ + (seq![c] + p.0) =~= (old(out)@ + seq![c]) + p.0);
        }
    }
    r
}

} // verus!
