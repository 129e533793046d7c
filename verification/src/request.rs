//! Validation of the write payload.
//!
//! A write arrives as a JSON object `{"key": string, "value": string,
//! "options"?: {"ttl"?: integer}}`.  `key` and `value` are required and
//! must be strings; `options` may be absent or `null`, or an object whose
//! optional `ttl` must be `null` or an unsigned integer that fits in 64
//! bits; members with any other name are read and ignored, a member with a
//! known name may appear only once; nothing may follow the closing brace
//! but whitespace.  A payload of any other shape is rejected before the
//! store is asked anything.
//!
//! [`validate_spec`] is that rule, stated over the raw bytes;
//! [`parse_write_request`] is proved to decide it.

use vstd::prelude::*;
use crate::json::{
    is_digit, lit4, ws_end, str_tail, number_token, skip_value, lemma_ws_end, lemma_str_tail,
    lemma_number_token, lemma_skip_value, scan_ws, scan_str_tail, scan_number, scan_value,
};

verus! {

/// A validated write request: the key and value to store, and the
/// requested expiration in seconds, if any was given.
pub struct WriteRequest {
    pub key: Vec<u8>,
    pub value: Vec<u8>,
    pub ttl: Option<u64>,
}

/// Mathematical counterpart of `WriteRequest`.
pub ghost struct WriteView {
    pub key: Seq<u8>,
    pub value: Seq<u8>,
    pub ttl: Option<u64>,
}

impl View for WriteRequest {
    type V = WriteView;

    open spec fn view(&self) -> WriteView {
        WriteView { key: self.key@, value: self.value@, ttl: self.ttl }
    }
}

/// The bytes of the member name `key`.
pub open spec fn key_name() -> Seq<u8> {
    seq![107u8, 101u8, 121u8]
}

/// The bytes of the member name `value`.
pub open spec fn value_name() -> Seq<u8> {
    seq![118u8, 97u8, 108u8, 117u8, 101u8]
}

/// The bytes of the member name `options`.
pub open spec fn options_name() -> Seq<u8> {
    seq![111u8, 112u8, 116u8, 105u8, 111u8, 110u8, 115u8]
}

/// The bytes of the member name `ttl`.
pub open spec fn ttl_name() -> Seq<u8> {
    seq![116u8, 116u8, 108u8]
}

/// Reads the value of a `ttl` member at `m`: `null` leaves the expiration
/// unset; an unsigned integer that fits in 64 bits sets it; anything else
/// — a string, a signed, fractional or oversized number, any other value —
/// is refused.
pub open spec fn ttl_value(s: Seq<u8>, m: int) -> Option<(Option<u64>, int)> {
    if m < s.len() && s[m] == 110 {
        if lit4(s, m, 110, 117, 108, 108) {
            Some((Option::<u64>::None, m + 4))
        } else {
            None
        }
    } else if m < s.len() && (s[m] == 45 || is_digit(s[m])) {
        match number_token(s, m) {
            Some(p) => match p.0 {
                Some(v) => Some((Some(v), p.1)),
                None => None,
            },
            None => None,
        }
    } else {
        None
    }
}

pub proof fn lemma_ttl_value(s: Seq<u8>, m: int)
    requires
        0 <= m <= s.len(),
    ensures
        match ttl_value(s, m) {
            Some(p) => m < p.1 <= s.len(),
            None => true,
        },
{
    lemma_number_token(s, m);
}

/// Reads the members of an `options` object, `i` standing after the
/// opening brace or a comma with whitespace skipped; `ttl` records a `ttl`
/// member already read.  Yields the expiration and the position after the
/// closing brace.
pub open spec fn opt_members(
    s: Seq<u8>,
    i: int,
    first: bool,
    ttl: Option<Option<u64>>,
    fuel: nat,
) -> Option<(Option<u64>, int)>
    decreases fuel, 1int,
{
    if fuel == 0 || i >= s.len() {
        None
    } else if first && s[i] == 125 {
        Some(
            (
                match ttl {
                    Some(t) => t,
                    None => None,
                },
                i + 1,
            ),
        )
    } else if s[i] == 34 {
        match str_tail(s, i + 1) {
            Some(np) => {
                let k = ws_end(s, np.1);
                if k < s.len() && s[k] == 58 {
                    let m = ws_end(s, k + 1);
                    if np.0 == ttl_name() {
                        if ttl is Some {
                            None
                        } else {
                            match ttl_value(s, m) {
                                Some(tv) => opt_continue(s, tv.1, Some(tv.0), fuel),
                                None => None,
                            }
                        }
                    } else {
                        match skip_value(s, m, (fuel - 1) as nat) {
                            Some(p) => opt_continue(s, p, ttl, fuel),
                            None => None,
                        }
                    }
                } else {
                    None
                }
            },
            None => None,
        }
    } else {
        None
    }
}

/// After a member of an `options` object: a comma brings the next member,
/// a brace closes the object.
pub open spec fn opt_continue(s: Seq<u8>, p: int, ttl: Option<Option<u64>>, fuel: nat) -> Option<
    (Option<u64>, int),
>
    decreases fuel, 0int,
{
    let q = ws_end(s, p);
    if fuel == 0 {
        None
    } else if q < s.len() && s[q] == 44 {
        opt_members(s, ws_end(s, q + 1), false, ttl, (fuel - 1) as nat)
    } else if q < s.len() && s[q] == 125 {
        Some(
            (
                match ttl {
                    Some(t) => t,
                    None => None,
                },
                q + 1,
            ),
        )
    } else {
        None
    }
}

pub proof fn lemma_opt_members(s: Seq<u8>, i: int, first: bool, ttl: Option<Option<u64>>, fuel: nat)
    requires
        0 <= i <= s.len(),
    ensures
        match opt_members(s, i, first, ttl, fuel) {
            Some(p) => i < p.1 <= s.len(),
            None => true,
        },
    decreases fuel, 1int,
{
    if fuel != 0 && i < s.len() && !(first && s[i] == 125) && s[i] == 34 {
        lemma_str_tail(s, i + 1);
        if let Some(np) = str_tail(s, i + 1) {
            lemma_ws_end(s, np.1);
            let k = ws_end(s, np.1);
            if k < s.len() && s[k] == 58 {
                lemma_ws_end(s, k + 1);
                let m = ws_end(s, k + 1);
                if np.0 == ttl_name() {
                    lemma_ttl_value(s, m);
                    if ttl is None {
                        if let Some(tv) = ttl_value(s, m) {
                            lemma_opt_continue(s, tv.1, Some(tv.0), fuel);
                        }
                    }
                } else {
                    lemma_skip_value(s, m, (fuel - 1) as nat);
                    if let Some(p) = skip_value(s, m, (fuel - 1) as nat) {
                        lemma_opt_continue(s, p, ttl, fuel);
                    }
                }
            }
        }
    }
}

pub proof fn lemma_opt_continue(s: Seq<u8>, p: int, ttl: Option<Option<u64>>, fuel: nat)
    requires
        0 <= p <= s.len(),
    ensures
        match opt_continue(s, p, ttl, fuel) {
            Some(r) => p < r.1 <= s.len(),
            None => true,
        },
    decreases fuel, 0int,
{
    lemma_ws_end(s, p);
    let q = ws_end(s, p);
    if fuel != 0 && q < s.len() && s[q] == 44 {
        lemma_ws_end(s, q + 1);
        lemma_opt_members(s, ws_end(s, q + 1), false, ttl, (fuel - 1) as nat);
    }
}

/// What the members read so far have yielded once the top-level object
/// closes at `e`: both `key` and `value` must have appeared.
pub open spec fn close_top(
    key: Option<Seq<u8>>,
    value: Option<Seq<u8>>,
    opts: Option<Option<u64>>,
    e: int,
) -> Option<(WriteView, int)> {
    match (key, value) {
        (Some(k), Some(v)) => Some(
            (
                WriteView {
                    key: k,
                    value: v,
                    ttl: match opts {
                        Some(t) => t,
                        None => None,
                    },
                },
                e,
            ),
        ),
        _ => None,
    }
}

/// Reads the members of the top-level object, `i` standing after the
/// opening brace or a comma with whitespace skipped; `key`, `value` and
/// `opts` record members already read.  A `key` or `value` member must be
/// a string; an `options` member must be `null` or an object; a member
/// with any other name is read and ignored.
pub open spec fn top_members(
    s: Seq<u8>,
    i: int,
    first: bool,
    key: Option<Seq<u8>>,
    value: Option<Seq<u8>>,
    opts: Option<Option<u64>>,
    fuel: nat,
) -> Option<(WriteView, int)>
    decreases fuel, 1int,
{
    if fuel == 0 || i >= s.len() {
        None
    } else if first && s[i] == 125 {
        close_top(key, value, opts, i + 1)
    } else if s[i] == 34 {
        match str_tail(s, i + 1) {
            Some(np) => {
                let k = ws_end(s, np.1);
                if k < s.len() && s[k] == 58 {
                    let m = ws_end(s, k + 1);
                    if np.0 == key_name() {
                        if key is Some {
                            None
                        } else if m < s.len() && s[m] == 34 {
                            match str_tail(s, m + 1) {
                                Some(vp) => top_continue(s, vp.1, Some(vp.0), value, opts, fuel),
                                None => None,
                            }
                        } else {
                            None
                        }
                    } else if np.0 == value_name() {
                        if value is Some {
                            None
                        } else if m < s.len() && s[m] == 34 {
                            match str_tail(s, m + 1) {
                                Some(vp) => top_continue(s, vp.1, key, Some(vp.0), opts, fuel),
                                None => None,
                            }
                        } else {
                            None
                        }
                    } else if np.0 == options_name() {
                        if opts is Some {
                            None
                        } else if m < s.len() && s[m] == 110 {
                            if lit4(s, m, 110, 117, 108, 108) {
                                top_continue(s, m + 4, key, value, Some(Option::<u64>::None), fuel)
                            } else {
                                None
                            }
                        } else if m < s.len() && s[m] == 123 {
                            match opt_members(s, ws_end(s, m + 1), true, None, (fuel - 1) as nat) {
                                Some(op) => top_continue(s, op.1, key, value, Some(op.0), fuel),
                                None => None,
                            }
                        } else {
                            None
                        }
                    } else {
                        match skip_value(s, m, (fuel - 1) as nat) {
                            Some(p) => top_continue(s, p, key, value, opts, fuel),
                            None => None,
                        }
                    }
                } else {
                    None
                }
            },
            None => None,
        }
    } else {
        None
    }
}

/// After a member of the top-level object: a comma brings the next
/// member, a brace closes the object.
pub open spec fn top_continue(
    s: Seq<u8>,
    p: int,
    key: Option<Seq<u8>>,
    value: Option<Seq<u8>>,
    opts: Option<Option<u64>>,
    fuel: nat,
) -> Option<(WriteView, int)>
    decreases fuel, 0int,
{
    let q = ws_end(s, p);
    if fuel == 0 {
        None
    } else if q < s.len() && s[q] == 44 {
        top_members(s, ws_end(s, q + 1), false, key, value, opts, (fuel - 1) as nat)
    } else if q < s.len() && s[q] == 125 {
        close_top(key, value, opts, q + 1)
    } else {
        None
    }
}

pub proof fn lemma_top_members(
    s: Seq<u8>,
    i: int,
    first: bool,
    key: Option<Seq<u8>>,
    value: Option<Seq<u8>>,
    opts: Option<Option<u64>>,
    fuel: nat,
)
    requires
        0 <= i <= s.len(),
    ensures
        match top_members(s, i, first, key, value, opts, fuel) {
            Some(p) => i < p.1 <= s.len(),
            None => true,
        },
    decreases fuel, 1int,
{
    if fuel != 0 && i < s.len() && !(first && s[i] == 125) && s[i] == 34 {
        lemma_str_tail(s, i + 1);
        if let Some(np) = str_tail(s, i + 1) {
            lemma_ws_end(s, np.1);
            let k = ws_end(s, np.1);
            if k < s.len() && s[k] == 58 {
                lemma_ws_end(s, k + 1);
                let m = ws_end(s, k + 1);
                if np.0 == key_name() {
                    if key is None && m < s.len() && s[m] == 34 {
                        lemma_str_tail(s, m + 1);
                        if let Some(vp) = str_tail(s, m + 1) {
                            lemma_top_continue(s, vp.1, Some(vp.0), value, opts, fuel);
                        }
                    }
                } else if np.0 == value_name() {
                    if value is None && m < s.len() && s[m] == 34 {
                        lemma_str_tail(s, m + 1);
                        if let Some(vp) = str_tail(s, m + 1) {
                            lemma_top_continue(s, vp.1, key, Some(vp.0), opts, fuel);
                        }
                    }
                } else if np.0 == options_name() {
                    if opts is None {
                        if m < s.len() && s[m] == 110 {
                            if lit4(s, m, 110, 117, 108, 108) {
                                lemma_top_continue(
                                    s,
                                    m + 4,
                                    key,
                                    value,
                                    Some(Option::<u64>::None),
                                    fuel,
                                );
                            }
                        } else if m < s.len() && s[m] == 123 {
                            lemma_ws_end(s, m + 1);
                            lemma_opt_members(s, ws_end(s, m + 1), true, None, (fuel - 1) as nat);
                            if let Some(op) = opt_members(
                                s,
                                ws_end(s, m + 1),
                                true,
                                None,
                                (fuel - 1) as nat,
                            ) {
                                lemma_top_continue(s, op.1, key, value, Some(op.0), fuel);
                            }
                        }
                    }
                } else {
                    lemma_skip_value(s, m, (fuel - 1) as nat);
                    if let Some(p) = skip_value(s, m, (fuel - 1) as nat) {
                        lemma_top_continue(s, p, key, value, opts, fuel);
                    }
                }
            }
        }
    }
}

pub proof fn lemma_top_continue(
    s: Seq<u8>,
    p: int,
    key: Option<Seq<u8>>,
    value: Option<Seq<u8>>,
    opts: Option<Option<u64>>,
    fuel: nat,
)
    requires
        0 <= p <= s.len(),
    ensures
        match top_continue(s, p, key, value, opts, fuel) {
            Some(r) => p < r.1 <= s.len(),
            None => true,
        },
    decreases fuel, 0int,
{
    lemma_ws_end(s, p);
    let q = ws_end(s, p);
    if fuel != 0 && q < s.len() && s[q] == 44 {
        lemma_ws_end(s, q + 1);
        lemma_top_members(s, ws_end(s, q + 1), false, key, value, opts, (fuel - 1) as nat);
    }
}

/// The view of an optional byte vector.
pub open spec fn opt_bytes_view(o: Option<Vec<u8>>) -> Option<Seq<u8>> {
    match o {
        Some(v) => Some(v@),
        None => None,
    }
}

/// Whether `n` holds the member name `key`.
fn name_is_key(n: &Vec<u8>) -> (r: bool)
    ensures
        r == (n@ == key_name()),
{
    let r = n.len() == 3 && n[0] == 107 && n[1] == 101 && n[2] == 121;
    proof {
        if r {
            assert(n@ =~= key_name());
        }
        if n@ == key_name() {
            assert(n@.len() == 3 && n@[0] == 107u8 && n@[1] == 101u8 && n@[2] == 121u8);
        }
    }
    r
}

/// Whether `n` holds the member name `value`.
fn name_is_value(n: &Vec<u8>) -> (r: bool)
    ensures
        r == (n@ == value_name()),
{
    let r = n.len() == 5 && n[0] == 118 && n[1] == 97 && n[2] == 108 && n[3] == 117 && n[4] == 101;
    proof {
        if r {
            assert(n@ =~= value_name());
        }
        if n@ == value_name() {
            assert(n@.len() == 5 && n@[0] == 118u8 && n@[1] == 97u8 && n@[2] == 108u8 && n@[3]
                == 117u8 && n@[4] == 101u8);
        }
    }
    r
}

/// Whether `n` holds the member name `options`.
fn name_is_options(n: &Vec<u8>) -> (r: bool)
    ensures
        r == (n@ == options_name()),
{
    let r = n.len() == 7 && n[0] == 111 && n[1] == 112 && n[2] == 116 && n[3] == 105 && n[4] == 111
        && n[5] == 110 && n[6] == 115;
    proof {
        if r {
            assert(n@ =~= options_name());
        }
        if n@ == options_name() {
            assert(n@.len() == 7 && n@[0] == 111u8 && n@[1] == 112u8 && n@[2] == 116u8 && n@[3]
                == 105u8 && n@[4] == 111u8 && n@[5] == 110u8 && n@[6] == 115u8);
        }
    }
    r
}

/// Whether `n` holds the member name `ttl`.
fn name_is_ttl(n: &Vec<u8>) -> (r: bool)
    ensures
        r == (n@ == ttl_name()),
{
    let r = n.len() == 3 && n[0] == 116 && n[1] == 116 && n[2] == 108;
    proof {
        if r {
            assert(n@ =~= ttl_name());
        }
        if n@ == ttl_name() {
            assert(n@.len() == 3 && n@[0] == 116u8 && n@[1] == 116u8 && n@[2] == 108u8);
        }
    }
    r
}

/// Reads the value of a `ttl` member at `m`.
fn scan_ttl_value(s: &Vec<u8>, m: usize) -> (r: Option<(Option<u64>, usize)>)
    requires
        m <= s.len(),
    ensures
        match ttl_value(s@, m as int) {
            Some(p) => (r matches Some(q) && q.0 == p.0 && q.1 as int == p.1),
            None => r is None,
        },
{
    if m < s.len() && s[m] == 110 {
        if s.len() - m >= 4 && s[m + 1] == 117 && s[m + 2] == 108 && s[m + 3] == 108 {
            return Some((None, m + 4));
        }
        return None;
    }
    if m < s.len() && (s[m] == 45 || (48 <= s[m] && s[m] <= 57)) {
        return match scan_number(s, m) {
            Some(p) => match p.0 {
                Some(v) => Some((Some(v), p.1)),
                None => None,
            },
            None => None,
        };
    }
    None
}

/// Reads the members of an `options` object.
fn scan_opt_members(s: &Vec<u8>, i: usize, first: bool, ttl: Option<Option<u64>>, fuel: usize) -> (r:
    Option<(Option<u64>, usize)>)
    requires
        i <= s.len(),
    ensures
        match opt_members(s@, i as int, first, ttl, fuel as nat) {
            Some(p) => (r matches Some(q) && q.0 == p.0 && q.1 as int == p.1),
            None => r is None,
        },
    decreases fuel, 1int,
{
    if fuel == 0 || i >= s.len() {
        return None;
    }
    if first && s[i] == 125 {
        return Some(
            (
                match ttl {
                    Some(t) => t,
                    None => None,
                },
                i + 1,
            ),
        );
    }
    if s[i] != 34 {
        return None;
    }
    let mut name: Vec<u8> = Vec::new();
    let j = match scan_str_tail(s, i + 1, &mut name) {
        Some(j) => j,
        None => { return None; },
    };
    proof {
        lemma_str_tail(s@, (i + 1) as int);
    }
    let k = scan_ws(s, j);
    if !(k < s.len() && s[k] == 58) {
        return None;
    }
    let m = scan_ws(s, k + 1);
    if name_is_ttl(&name) {
        if ttl.is_some() {
            return None;
        }
        let tv = match scan_ttl_value(s, m) {
            Some(tv) => tv,
            None => { return None; },
        };
        proof {
            lemma_ttl_value(s@, m as int);
        }
        return scan_opt_continue(s, tv.1, Some(tv.0), fuel);
    }
    let p = match scan_value(s, m, fuel - 1) {
        Some(p) => p,
        None => { return None; },
    };
    proof {
        lemma_skip_value(s@, m as int, (fuel - 1) as nat);
    }
    scan_opt_continue(s, p, ttl, fuel)
}

/// After a member of an `options` object.
fn scan_opt_continue(s: &Vec<u8>, p: usize, ttl: Option<Option<u64>>, fuel: usize) -> (r: Option<
    (Option<u64>, usize),
>)
    requires
        p <= s.len(),
    ensures
        match opt_continue(s@, p as int, ttl, fuel as nat) {
            Some(x) => (r matches Some(q) && q.0 == x.0 && q.1 as int == x.1),
            None => r is None,
        },
    decreases fuel, 0int,
{
    let q = scan_ws(s, p);
    if fuel == 0 {
        return None;
    }
    if q < s.len() && s[q] == 44 {
        let n = scan_ws(s, q + 1);
        return scan_opt_members(s, n, false, ttl, fuel - 1);
    }
    if q < s.len() && s[q] == 125 {
        return Some(
            (
                match ttl {
                    Some(t) => t,
                    None => None,
                },
                q + 1,
            ),
        );
    }
    None
}

/// Reads the members of the top-level object.
fn scan_top_members(
    s: &Vec<u8>,
    i: usize,
    first: bool,
    key: Option<Vec<u8>>,
    value: Option<Vec<u8>>,
    opts: Option<Option<u64>>,
    fuel: usize,
) -> (r: Option<(WriteRequest, usize)>)
    requires
        i <= s.len(),
    ensures
        match top_members(
            s@,
            i as int,
            first,
            opt_bytes_view(key),
            opt_bytes_view(value),
            opts,
            fuel as nat,
        ) {
            Some(p) => (r matches Some(q) && q.0@ == p.0 && q.1 as int == p.1),
            None => r is None,
        },
    decreases fuel, 1int,
{
    if fuel == 0 || i >= s.len() {
        return None;
    }
    if first && s[i] == 125 {
        return match (key, value) {
            (Some(kk), Some(vv)) => Some(
                (
                    WriteRequest {
                        key: kk,
                        value: vv,
                        ttl: match opts {
                            Some(t) => t,
                            None => None,
                        },
                    },
                    i + 1,
                ),
            ),
            _ => None,
        };
    }
    if s[i] != 34 {
        return None;
    }
    let mut name: Vec<u8> = Vec::new();
    let j = match scan_str_tail(s, i + 1, &mut name) {
        Some(j) => j,
        None => { return None; },
    };
    proof {
        lemma_str_tail(s@, (i + 1) as int);
    }
    let k = scan_ws(s, j);
    if !(k < s.len() && s[k] == 58) {
        return None;
    }
    let m = scan_ws(s, k + 1);
    if name_is_key(&name) {
        if key.is_some() {
            return None;
        }
        if !(m < s.len() && s[m] == 34) {
            return None;
        }
        let mut text: Vec<u8> = Vec::new();
        let e = match scan_str_tail(s, m + 1, &mut text) {
            Some(e) => e,
            None => { return None; },
        };
        proof {
            lemma_str_tail(s@, (m + 1) as int);
        }
        return scan_top_continue(s, e, Some(text), value, opts, fuel);
    }
    if name_is_value(&name) {
        if value.is_some() {
            return None;
        }
        if !(m < s.len() && s[m] == 34) {
            return None;
        }
        let mut text: Vec<u8> = Vec::new();
        let e = match scan_str_tail(s, m + 1, &mut text) {
            Some(e) => e,
            None => { return None; },
        };
        proof {
            lemma_str_tail(s@, (m + 1) as int);
        }
        return scan_top_continue(s, e, key, Some(text), opts, fuel);
    }
    if name_is_options(&name) {
        if opts.is_some() {
            return None;
        }
        if m < s.len() && s[m] == 110 {
            if s.len() - m >= 4 && s[m + 1] == 117 && s[m + 2] == 108 && s[m + 3] == 108 {
                return scan_top_continue(s, m + 4, key, value, Some(None), fuel);
            }
            return None;
        }
        if m < s.len() && s[m] == 123 {
            let n = scan_ws(s, m + 1);
            let op = match scan_opt_members(s, n, true, None, fuel - 1) {
                Some(op) => op,
                None => { return None; },
            };
            proof {
                lemma_opt_members(s@, n as int, true, None, (fuel - 1) as nat);
            }
            return scan_top_continue(s, op.1, key, value, Some(op.0), fuel);
        }
        return None;
    }
    let p = match scan_value(s, m, fuel - 1) {
        Some(p) => p,
        None => { return None; },
    };
    proof {
        lemma_skip_value(s@, m as int, (fuel - 1) as nat);
    }
    scan_top_continue(s, p, key, value, opts, fuel)
}

/// After a member of the top-level object.
fn scan_top_continue(
    s: &Vec<u8>,
    p: usize,
    key: Option<Vec<u8>>,
    value: Option<Vec<u8>>,
    opts: Option<Option<u64>>,
    fuel: usize,
) -> (r: Option<(WriteRequest, usize)>)
    requires
        p <= s.len(),
    ensures
        match top_continue(
            s@,
            p as int,
            opt_bytes_view(key),
            opt_bytes_view(value),
            opts,
            fuel as nat,
        ) {
            Some(x) => (r matches Some(q) && q.0@ == x.0 && q.1 as int == x.1),
            None => r is None,
        },
    decreases fuel, 0int,
{
    let q = scan_ws(s, p);
    if fuel == 0 {
        return None;
    }
    if q < s.len() && s[q] == 44 {
        let n = scan_ws(s, q + 1);
        return scan_top_members(s, n, false, key, value, opts, fuel - 1);
    }
    if q < s.len() && s[q] == 125 {
        return match (key, value) {
            (Some(kk), Some(vv)) => Some(
                (
                    WriteRequest {
                        key: kk,
                        value: vv,
                        ttl: match opts {
                            Some(t) => t,
                            None => None,
                        },
                    },
                    q + 1,
                ),
            ),
            _ => None,
        };
    }
    None
}

/// Validates a write payload: the request it carries, or nothing when the
/// bytes are not one JSON object of the documented shape.
pub fn parse_write_request(body: &Vec<u8>) -> (r: Option<WriteRequest>)
    requires
        body@.len() < usize::MAX,
    ensures
        match validate_spec(body@) {
            Some(w) => (r matches Some(x) && x@ == w),
            None => r is None,
        },
{
    let i = scan_ws(body, 0);
    if !(i < body.len() && body[i] == 123) {
        return None;
    }
    let j = scan_ws(body, i + 1);
    let fuel = body.len() + 1;
    let x = match scan_top_members(body, j, true, None, None, None, fuel) {
        Some(x) => x,
        None => { return None; },
    };
    proof {
        lemma_top_members(body@, j as int, true, None, None, None, fuel as nat);
    }
    let e = scan_ws(body, x.1);
    if e == body.len() {
        Some(x.0)
    } else {
        None
    }
}

/// The validation rule for a write payload, whole: the bytes must hold one
/// JSON object of the documented shape, with nothing but whitespace around
/// it, and the request it yields.
pub open spec fn validate_spec(s: Seq<u8>) -> Option<WriteView> {
    let i = ws_end(s, 0);
    if i < s.len() && s[i] == 123 {
        match top_members(s, ws_end(s, i + 1), true, None, None, None, (s.len() + 1) as nat) {
            Some(wp) => if ws_end(s, wp.1) == s.len() {
                Some(wp.0)
            } else {
                None
            },
            None => None,
        }
    } else {
        None
    }
}

} // verus!
