//! The parser: one line of text in, a JSON value out. The spec functions
//! here are the grammar; the executable parser is proved to return exactly
//! what they say, so "malformed" has one meaning everywhere.

use vstd::prelude::*;
use crate::json::{Json, JsonView, jview, jviews, jviewo, group_json_view};
use crate::text::{chars_string, char_of_u32, is_scalar_value};

verus! {

/// How deeply arrays and objects may nest before a line is refused.
pub const MAX_DEPTH: u32 = 128;

/// The whitespace JSON allows between tokens.
pub open spec fn json_ws(c: char) -> bool {
    c == ' ' || c == '\t' || c == '\n' || c == '\r'
}

pub open spec fn is_digit(c: char) -> bool {
    '0' <= c && c <= '9'
}

/// First position at or after `i` holding no JSON whitespace.
pub open spec fn skip_ws(s: Seq<char>, i: int) -> int
    decreases s.len() - i,
        when 0 <= i <= s.len()
{
    if i < s.len() && json_ws(s[i]) {
        skip_ws(s, i + 1)
    } else {
        i
    }
}

pub proof fn skip_ws_range(s: Seq<char>, i: int)
    requires
        0 <= i <= s.len(),
    ensures
        i <= skip_ws(s, i) <= s.len(),
    decreases s.len() - i,
{
    if i < s.len() && json_ws(s[i]) {
        skip_ws_range(s, i + 1);
    }
}

/// First position at or after `i` holding no digit.
pub open spec fn digits_end(s: Seq<char>, i: int) -> int
    decreases s.len() - i,
        when 0 <= i <= s.len()
{
    if i < s.len() && is_digit(s[i]) {
        digits_end(s, i + 1)
    } else {
        i
    }
}

pub proof fn digits_end_range(s: Seq<char>, i: int)
    requires
        0 <= i <= s.len(),
    ensures
        i <= digits_end(s, i) <= s.len(),
    decreases s.len() - i,
{
    if i < s.len() && is_digit(s[i]) {
        digits_end_range(s, i + 1);
    }
}

/// Value of one base-sixteen digit, or a negative number for any other
/// character.
pub open spec fn hex_val(c: char) -> int {
    if '0' <= c && c <= '9' {
        c as int - 48
    } else if 'a' <= c && c <= 'f' {
        c as int - 87
    } else if 'A' <= c && c <= 'F' {
        c as int - 55
    } else {
        -1
    }
}

/// Four base-sixteen digits stand at `i`.
pub open spec fn hex4_ok(s: Seq<char>, i: int) -> bool {
    i + 4 <= s.len() && hex_val(s[i]) >= 0 && hex_val(s[i + 1]) >= 0 && hex_val(s[i + 2]) >= 0
        && hex_val(s[i + 3]) >= 0
}

/// Their value.
pub open spec fn hex4_val(s: Seq<char>, i: int) -> int {
    hex_val(s[i]) * 4096 + hex_val(s[i + 1]) * 256 + hex_val(s[i + 2]) * 16 + hex_val(s[i + 3])
}

/// Prepends one decoded character to a string-body parse.
pub open spec fn scons(c: char, r: Option<(Seq<char>, int)>) -> Option<(Seq<char>, int)> {
    match r {
        Some(p) => Some((seq![c] + p.0, p.1)),
        None => None,
    }
}

/// The body of a string literal, read from just after the opening quote to
/// just after the closing one: plain characters stand for themselves, the
/// short escapes for their control character, `\u` escapes for the coded
/// character, with a surrogate pair read as one character; an unescaped
/// control character, a bad escape, or an unpaired surrogate refuses the
/// text.
pub open spec fn parse_str_body(s: Seq<char>, i: int) -> Option<(Seq<char>, int)>
    decreases s.len() - i,
        when 0 <= i <= s.len()
{
    if i >= s.len() {
        None
    } else {
        let c = s[i];
        if c == '"' {
            Some((Seq::empty(), i + 1))
        } else if c == '\\' {
            if i + 1 >= s.len() {
                None
            } else {
                let e = s[i + 1];
                if e == '"' || e == '\\' || e == '/' {
                    scons(e, parse_str_body(s, i + 2))
                } else if e == 'b' {
                    scons('\u{0008}', parse_str_body(s, i + 2))
                } else if e == 'f' {
                    scons('\u{000C}', parse_str_body(s, i + 2))
                } else if e == 'n' {
                    scons('\n', parse_str_body(s, i + 2))
                } else if e == 'r' {
                    scons('\r', parse_str_body(s, i + 2))
                } else if e == 't' {
                    scons('\t', parse_str_body(s, i + 2))
                } else if e == 'u' {
                    if !hex4_ok(s, i + 2) {
                        None
                    } else {
                        let n = hex4_val(s, i + 2);
                        if 0xD800 <= n < 0xDC00 {
                            if i + 12 <= s.len() && s[i + 6] == '\\' && s[i + 7] == 'u' && hex4_ok(
                                s,
                                i + 8,
                            ) {
                                let m = hex4_val(s, i + 8);
                                if 0xDC00 <= m < 0xE000 {
                                    scons(
                                        (0x10000 + (n - 0xD800) * 0x400 + (m - 0xDC00)) as char,
                                        parse_str_body(s, i + 12),
                                    )
                                } else {
                                    None
                                }
                            } else {
                                None
                            }
                        } else if 0xDC00 <= n < 0xE000 {
                            None
                        } else {
                            scons(n as char, parse_str_body(s, i + 6))
                        }
                    }
                } else {
                    None
                }
            }
        } else if (c as u32) < 0x20 {
            None
        } else {
            scons(c, parse_str_body(s, i + 1))
        }
    }
}

/// End of the number token that starts at `i`, by the JSON number grammar:
/// an optional sign, an integer part without a leading zero, an optional
/// fraction, an optional exponent.
pub open spec fn num_end(s: Seq<char>, i: int) -> Option<int> {
    let istart = if i < s.len() && s[i] == '-' {
        i + 1
    } else {
        i
    };
    if !(istart < s.len() && is_digit(s[istart])) {
        None
    } else {
        let int_end = if s[istart] == '0' {
            istart + 1
        } else {
            digits_end(s, istart)
        };
        if !(0 <= int_end <= s.len()) {
            None
        } else {
            let frac_ok = !(int_end < s.len() && s[int_end] == '.') || (int_end + 2 <= s.len()
                && is_digit(s[int_end + 1]));
            if !frac_ok {
                None
            } else {
                let frac_end = if int_end < s.len() && s[int_end] == '.' {
                    digits_end(s, int_end + 1)
                } else {
                    int_end
                };
                if !(0 <= frac_end <= s.len()) {
                    None
                } else {
                    if frac_end < s.len() && (s[frac_end] == 'e' || s[frac_end] == 'E') {
                        let estart = if frac_end + 1 < s.len() && (s[frac_end + 1] == '+' || s[
                            frac_end + 1
                        ] == '-') {
                            frac_end + 2
                        } else {
                            frac_end + 1
                        };
                        if estart < s.len() && is_digit(s[estart]) {
                            Some(digits_end(s, estart))
                        } else {
                            None
                        }
                    } else {
                        Some(frac_end)
                    }
                }
            }
        }
    }
}

/// One JSON value starting exactly at `i`, with how far it reached.
pub open spec fn parse_value(s: Seq<char>, i: int, depth: int) -> Option<(JsonView, int)>
    decreases s.len() - i, 0int,
        when 0 <= i <= s.len()
{
    if i >= s.len() {
        None
    } else {
        let c = s[i];
        if c == 'n' {
            if i + 4 <= s.len() && s[i + 1] == 'u' && s[i + 2] == 'l' && s[i + 3] == 'l' {
                Some((JsonView::Null, i + 4))
            } else {
                None
            }
        } else if c == 't' {
            if i + 4 <= s.len() && s[i + 1] == 'r' && s[i + 2] == 'u' && s[i + 3] == 'e' {
                Some((JsonView::Bool(true), i + 4))
            } else {
                None
            }
        } else if c == 'f' {
            if i + 5 <= s.len() && s[i + 1] == 'a' && s[i + 2] == 'l' && s[i + 3] == 's' && s[i + 4]
                == 'e' {
                Some((JsonView::Bool(false), i + 5))
            } else {
                None
            }
        } else if c == '"' {
            match parse_str_body(s, i + 1) {
                Some(p) => Some((JsonView::Str(p.0), p.1)),
                None => None,
            }
        } else if c == '[' {
            if depth <= 0 {
                None
            } else {
                proof {
                    skip_ws_range(s, i + 1);
                }
                let j = skip_ws(s, i + 1);
                if j < s.len() && s[j] == ']' {
                    Some((JsonView::Arr(Seq::empty()), j + 1))
                } else {
                    match parse_elems(s, j, depth - 1) {
                        Some(p) => Some((JsonView::Arr(p.0), p.1)),
                        None => None,
                    }
                }
            }
        } else if c == '{' {
            if depth <= 0 {
                None
            } else {
                proof {
                    skip_ws_range(s, i + 1);
                }
                let j = skip_ws(s, i + 1);
                if j < s.len() && s[j] == '}' {
                    Some((JsonView::Obj(Seq::empty()), j + 1))
                } else {
                    match parse_members(s, j, depth - 1) {
                        Some(p) => Some((JsonView::Obj(p.0), p.1)),
                        None => None,
                    }
                }
            }
        } else if c == '-' || is_digit(c) {
            match num_end(s, i) {
                Some(e) => Some((JsonView::Num(s.subrange(i, e)), e)),
                None => None,
            }
        } else {
            None
        }
    }
}

/// The elements of a nonempty array, from the first element's position to
/// just after the closing bracket.
pub open spec fn parse_elems(s: Seq<char>, i: int, depth: int) -> Option<(Seq<JsonView>, int)>
    decreases s.len() - i, 1int,
        when 0 <= i <= s.len()
{
    match parse_value(s, i, depth) {
        None => None,
        Some(p) => {
            if !(0 <= p.1 <= s.len()) {
                None
            } else {
                proof {
                    skip_ws_range(s, p.1);
                }
                let j = skip_ws(s, p.1);
                if j < s.len() && s[j] == ',' {
                    proof {
                        skip_ws_range(s, j + 1);
                    }
                    let k = skip_ws(s, j + 1);
                    if k <= i {
                        None
                    } else {
                        match parse_elems(s, k, depth) {
                            Some(q) => Some((seq![p.0] + q.0, q.1)),
                            None => None,
                        }
                    }
                } else if j < s.len() && s[j] == ']' {
                    Some((seq![p.0], j + 1))
                } else {
                    None
                }
            }
        },
    }
}

/// The entries of a nonempty object, from the first key's position to just
/// after the closing brace.
pub open spec fn parse_members(s: Seq<char>, i: int, depth: int) -> Option<
    (Seq<(Seq<char>, JsonView)>, int),
>
    decreases s.len() - i, 1int,
        when 0 <= i <= s.len()
{
    if !(i < s.len() && s[i] == '"') {
        None
    } else {
        match parse_str_body(s, i + 1) {
            None => None,
            Some(kp) => {
                if !(0 <= kp.1 <= s.len()) {
                    None
                } else {
                    proof {
                        skip_ws_range(s, kp.1);
                    }
                    let j = skip_ws(s, kp.1);
                    if !(j < s.len() && s[j] == ':') {
                        None
                    } else {
                        proof {
                            skip_ws_range(s, j + 1);
                        }
                        let kv = skip_ws(s, j + 1);
                        if kv < i {
                            None
                        } else {
                            match parse_value(s, kv, depth) {
                                None => None,
                                Some(vp) => {
                                    if !(0 <= vp.1 <= s.len()) {
                                        None
                                    } else {
                                        proof {
                                            skip_ws_range(s, vp.1);
                                        }
                                        let j2 = skip_ws(s, vp.1);
                                        if j2 < s.len() && s[j2] == ',' {
                                            proof {
                                                skip_ws_range(s, j2 + 1);
                                            }
                                            let k = skip_ws(s, j2 + 1);
                                            if k <= i {
                                                None
                                            } else {
                                                match parse_members(s, k, depth) {
                                                    Some(q) => Some(
                                                        (seq![(kp.0, vp.0)] + q.0, q.1),
                                                    ),
                                                    None => None,
                                                }
                                            }
                                        } else if j2 < s.len() && s[j2] == '}' {
                                            Some((seq![(kp.0, vp.0)], j2 + 1))
                                        } else {
                                            None
                                        }
                                    }
                                },
                            }
                        }
                    }
                }
            },
        }
    }
}

/// The value of a whole line: leading and trailing whitespace allowed, one
/// value, nothing after it.
pub open spec fn parse_text(s: Seq<char>) -> Option<JsonView> {
    let i = skip_ws(s, 0);
    if !(0 <= i <= s.len()) {
        None
    } else {
        match parse_value(s, i, MAX_DEPTH as int) {
            None => None,
            Some(p) => {
                if !(0 <= p.1 <= s.len()) {
                    None
                } else if skip_ws(s, p.1) == s.len() {
                    Some(p.0)
                } else {
                    None
                }
            },
        }
    }
}

#[verifier::loop_isolation(false)]
fn skip_ws_x(s: &Vec<char>, i: usize) -> (r: usize)
    requires
        i <= s@.len(),
    ensures
        r as int == skip_ws(s@, i as int),
        i <= r <= s@.len(),
{
    let mut cur: usize = i;
    while cur < s.len() && (s[cur] == ' ' || s[cur] == '\t' || s[cur] == '\n' || s[cur] == '\r')
        invariant
            i <= cur <= s@.len(),
            skip_ws(s@, i as int) == skip_ws(s@, cur as int),
        decreases s@.len() - cur,
    {
        cur = cur + 1;
    }
    cur
}

#[verifier::loop_isolation(false)]
fn digits_end_x(s: &Vec<char>, i: usize) -> (r: usize)
    requires
        i <= s@.len(),
    ensures
        r as int == digits_end(s@, i as int),
        i <= r <= s@.len(),
{
    let mut cur: usize = i;
    while cur < s.len() && '0' <= s[cur] && s[cur] <= '9'
        invariant
            i <= cur <= s@.len(),
            digits_end(s@, i as int) == digits_end(s@, cur as int),
        decreases s@.len() - cur,
    {
        cur = cur + 1;
    }
    cur
}

fn hex_val_x(c: char) -> (r: Option<u32>)
    ensures
        (match r {
            Some(v) => hex_val(c) == v as int && v < 16,
            None => hex_val(c) < 0,
        }),
{
    if '0' <= c && c <= '9' {
        Some(c as u32 - 48)
    } else if 'a' <= c && c <= 'f' {
        Some(c as u32 - 87)
    } else if 'A' <= c && c <= 'F' {
        Some(c as u32 - 55)
    } else {
        None
    }
}

fn hex4_x(s: &Vec<char>, i: usize) -> (r: Option<u32>)
    requires
        i <= s@.len(),
    ensures
        (match r {
            Some(v) => hex4_ok(s@, i as int) && v as int == hex4_val(s@, i as int) && v < 0x10000,
            None => !hex4_ok(s@, i as int),
        }),
{
    if s.len() - i < 4 {
        return None;
    }
    let v0 = match hex_val_x(s[i]) {
        Some(v) => v,
        None => {
            return None;
        },
    };
    let v1 = match hex_val_x(s[i + 1]) {
        Some(v) => v,
        None => {
            return None;
        },
    };
    let v2 = match hex_val_x(s[i + 2]) {
        Some(v) => v,
        None => {
            return None;
        },
    };
    let v3 = match hex_val_x(s[i + 3]) {
        Some(v) => v,
        None => {
            return None;
        },
    };
    Some(v0 * 4096 + v1 * 256 + v2 * 16 + v3)
}

#[verifier::loop_isolation(false)]
fn parse_str_body_x(s: &Vec<char>, i: usize) -> (r: Option<(Vec<char>, usize)>)
    requires
        i <= s@.len(),
    ensures
        (match r {
            Some(p) => parse_str_body(s@, i as int) == Some((p.0@, p.1 as int)) && i <= p.1
                <= s@.len(),
            None => parse_str_body(s@, i as int) is None,
        }),
{
    let mut acc: Vec<char> = Vec::new();
    let mut cur: usize = i;
    proof {
        assert(acc@ =~= Seq::<char>::empty());
    }
    loop
        invariant
            i <= cur <= s@.len(),
            (match parse_str_body(s@, cur as int) {
                Some(p) => parse_str_body(s@, i as int) == Some((acc@ + p.0, p.1)),
                None => parse_str_body(s@, i as int) is None,
            }),
        decreases s@.len() - cur,
    {
        if cur >= s.len() {
            return None;
        }
        let ghost acc0 = acc@;
        let ghost cur0 = cur as int;
        let c = s[cur];
        if c == '"' {
            proof {
                assert(acc@ + Seq::<char>::empty() =~= acc@);
            }
            return Some((acc, cur + 1));
        } else if c == '\\' {
            if cur + 1 >= s.len() {
                return None;
            }
            let e = s[cur + 1];
            if e == '"' || e == '\\' || e == '/' {
                acc.push(e);
                cur = cur + 2;
            } else if e == 'b' {
                acc.push('\u{0008}');
                cur = cur + 2;
            } else if e == 'f' {
                acc.push('\u{000C}');
                cur = cur + 2;
            } else if e == 'n' {
                acc.push('\n');
                cur = cur + 2;
            } else if e == 'r' {
                acc.push('\r');
                cur = cur + 2;
            } else if e == 't' {
                acc.push('\t');
                cur = cur + 2;
            } else if e == 'u' {
                let n = match hex4_x(s, cur + 2) {
                    Some(v) => v,
                    None => {
                        return None;
                    },
                };
                if 0xD800 <= n && n < 0xDC00 {
                    if s.len() - cur >= 12 && s[cur + 6] == '\\' && s[cur + 7] == 'u' {
                        let m = match hex4_x(s, cur + 8) {
                            Some(v) => v,
                            None => {
                                return None;
                            },
                        };
                        if 0xDC00 <= m && m < 0xE000 {
                            let val: u32 = 0x10000 + (n - 0xD800) * 0x400 + (m - 0xDC00);
                            let ch = match char_of_u32(val) {
                                Some(ch) => ch,
                                None => {
                                    proof {
                                        assert(is_scalar_value(val));
                                        assert(false);
                                    }
                                    return None;
                                },
                            };
                            proof {
                                vstd::utf8::char_u32_cast(ch, val);
                            }
                            acc.push(ch);
                            cur = cur + 12;
                        } else {
                            return None;
                        }
                    } else {
                        return None;
                    }
                } else if 0xDC00 <= n && n < 0xE000 {
                    return None;
                } else {
                    let ch = match char_of_u32(n) {
                        Some(ch) => ch,
                        None => {
                            proof {
                                assert(is_scalar_value(n));
                                assert(false);
                            }
                            return None;
                        },
                    };
                    proof {
                        vstd::utf8::char_u32_cast(ch, n);
                    }
                    acc.push(ch);
                    cur = cur + 6;
                }
            } else {
                return None;
            }
        } else if (c as u32) < 0x20 {
            return None;
        } else {
            acc.push(c);
            cur = cur + 1;
        }
        proof {
            assert(acc@ == acc0.push(acc@.last()));
            let decoded = acc@.last();
            assert(parse_str_body(s@, cur0) == scons(decoded, parse_str_body(s@, cur as int)));
            match parse_str_body(s@, cur as int) {
                Some(p) => {
                    assert(acc0 + (seq![decoded] + p.0) =~= acc@ + p.0);
                },
                None => {},
            }
        }
    }
}

fn num_end_x(s: &Vec<char>, i: usize) -> (r: Option<usize>)
    requires
        i <= s@.len(),
    ensures
        (match r {
            Some(e) => num_end(s@, i as int) == Some(e as int) && i <= e <= s@.len(),
            None => num_end(s@, i as int) is None,
        }),
{
    let istart: usize = if i < s.len() && s[i] == '-' {
        i + 1
    } else {
        i
    };
    if !(istart < s.len() && '0' <= s[istart] && s[istart] <= '9') {
        return None;
    }
    let int_end: usize = if s[istart] == '0' {
        istart + 1
    } else {
        digits_end_x(s, istart)
    };
    if int_end < s.len() && s[int_end] == '.' {
        if !(s.len() - int_end >= 2 && '0' <= s[int_end + 1] && s[int_end + 1] <= '9') {
            return None;
        }
    }
    let frac_end: usize = if int_end < s.len() && s[int_end] == '.' {
        digits_end_x(s, int_end + 1)
    } else {
        int_end
    };
    if frac_end < s.len() && (s[frac_end] == 'e' || s[frac_end] == 'E') {
        let estart: usize = if frac_end + 1 < s.len() && (s[frac_end + 1] == '+' || s[frac_end + 1]
            == '-') {
            frac_end + 2
        } else {
            frac_end + 1
        };
        if estart < s.len() && '0' <= s[estart] && s[estart] <= '9' {
            Some(digits_end_x(s, estart))
        } else {
            None
        }
    } else {
        Some(frac_end)
    }
}

/// One JSON value starting exactly at `i`.
#[verifier::loop_isolation(false)]
fn parse_value_x(s: &Vec<char>, i: usize, depth: u32) -> (r: Option<(Json, usize)>)
    requires
        i <= s@.len(),
    ensures
        (match r {
            Some(p) => parse_value(s@, i as int, depth as int) == Some((p.0@, p.1 as int)) && i
                <= p.1 <= s@.len(),
            None => parse_value(s@, i as int, depth as int) is None,
        }),
    decreases s@.len() - i,
{
    broadcast use group_json_view;

    if i >= s.len() {
        return None;
    }
    let c = s[i];
    if c == 'n' {
        if s.len() - i >= 4 && s[i + 1] == 'u' && s[i + 2] == 'l' && s[i + 3] == 'l' {
            Some((Json::Null, i + 4))
        } else {
            None
        }
    } else if c == 't' {
        if s.len() - i >= 4 && s[i + 1] == 'r' && s[i + 2] == 'u' && s[i + 3] == 'e' {
            Some((Json::Bool(true), i + 4))
        } else {
            None
        }
    } else if c == 'f' {
        if s.len() - i >= 5 && s[i + 1] == 'a' && s[i + 2] == 'l' && s[i + 3] == 's' && s[i + 4]
            == 'e' {
            Some((Json::Bool(false), i + 5))
        } else {
            None
        }
    } else if c == '"' {
        match parse_str_body_x(s, i + 1) {
            Some(p) => {
                let t = chars_string(&p.0);
                Some((Json::Str(t), p.1))
            },
            None => None,
        }
    } else if c == '[' {
        if depth == 0 {
            return None;
        }
        let j = skip_ws_x(s, i + 1);
        if j < s.len() && s[j] == ']' {
            let empty_arr: Vec<Json> = Vec::new();
            proof {
                assert(jviews(empty_arr@) =~= Seq::<JsonView>::empty());
            }
            return Some((Json::Arr(empty_arr), j + 1));
        }
        let ghost d = depth as int - 1;
        let ghost j0 = j as int;
        let mut acc: Vec<Json> = Vec::new();
        let mut cur: usize = j;
        proof {
            assert(jviews(acc@) =~= Seq::<JsonView>::empty());
            match parse_elems(s@, j0, d) {
                Some(q) => {
                    assert(jviews(acc@) + q.0 =~= q.0);
                },
                None => {},
            }
        }
        loop
            invariant
                i < cur <= s@.len(),
                (match parse_elems(s@, cur as int, d) {
                    Some(q) => parse_elems(s@, j0, d) == Some((jviews(acc@) + q.0, q.1)),
                    None => parse_elems(s@, j0, d) is None,
                }),
            decreases s@.len() - cur,
        {
            let ghost cur0 = cur as int;
            let ghost acc0 = acc@;
            match parse_value_x(s, cur, depth - 1) {
                None => {
                    return None;
                },
                Some(p) => {
                    let v = p.0;
                    let e = p.1;
                    let j2 = skip_ws_x(s, e);
                    if j2 < s.len() && s[j2] == ',' {
                        let k = skip_ws_x(s, j2 + 1);
                        if k <= cur {
                            return None;
                        }
                        acc.push(v);
                        proof {
                            assert(jviews(acc@).drop_last() =~= jviews(acc0));
                            assert(jviews(acc@) =~= jviews(acc0).push(jview(acc@.last())));
                            match parse_elems(s@, k as int, d) {
                                Some(q) => {
                                    assert(acc0.push(v) == acc@);
                                    assert(jviews(acc0) + (seq![jview(v)] + q.0) =~= jviews(acc@)
                                        + q.0);
                                },
                                None => {},
                            }
                        }
                        cur = k;
                    } else if j2 < s.len() && s[j2] == ']' {
                        acc.push(v);
                        proof {
                            assert(jviews(acc@).drop_last() =~= jviews(acc0));
                            assert(jviews(acc@) =~= jviews(acc0).push(jview(v)));
                            assert(jviews(acc0) + seq![jview(v)] =~= jviews(acc@));
                        }
                        return Some((Json::Arr(acc), j2 + 1));
                    } else {
                        return None;
                    }
                },
            }
        }
    } else if c == '{' {
        if depth == 0 {
            return None;
        }
        let j = skip_ws_x(s, i + 1);
        if j < s.len() && s[j] == '}' {
            let empty_obj: Vec<(String, Json)> = Vec::new();
            proof {
                assert(jviewo(empty_obj@) =~= Seq::<(Seq<char>, JsonView)>::empty());
            }
            return Some((Json::Obj(empty_obj), j + 1));
        }
        let ghost d = depth as int - 1;
        let ghost j0 = j as int;
        let mut acc: Vec<(String, Json)> = Vec::new();
        let mut cur: usize = j;
        proof {
            assert(jviewo(acc@) =~= Seq::<(Seq<char>, JsonView)>::empty());
            match parse_members(s@, j0, d) {
                Some(q) => {
                    assert(jviewo(acc@) + q.0 =~= q.0);
                },
                None => {},
            }
        }
        loop
            invariant
                i < cur <= s@.len(),
                (match parse_members(s@, cur as int, d) {
                    Some(q) => parse_members(s@, j0, d) == Some((jviewo(acc@) + q.0, q.1)),
                    None => parse_members(s@, j0, d) is None,
                }),
            decreases s@.len() - cur,
        {
            let ghost cur0 = cur as int;
            let ghost acc0 = acc@;
            if !(cur < s.len() && s[cur] == '"') {
                return None;
            }
            let kp = match parse_str_body_x(s, cur + 1) {
                Some(kp) => kp,
                None => {
                    return None;
                },
            };
            let key = chars_string(&kp.0);
            let j1 = skip_ws_x(s, kp.1);
            if !(j1 < s.len() && s[j1] == ':') {
                return None;
            }
            let kv = skip_ws_x(s, j1 + 1);
            if kv < cur {
                return None;
            }
            match parse_value_x(s, kv, depth - 1) {
                None => {
                    return None;
                },
                Some(p) => {
                    let v = p.0;
                    let e = p.1;
                    let j2 = skip_ws_x(s, e);
                    if j2 < s.len() && s[j2] == ',' {
                        let k = skip_ws_x(s, j2 + 1);
                        if k <= cur {
                            return None;
                        }
                        acc.push((key, v));
                        proof {
                            assert(jviewo(acc@).drop_last() =~= jviewo(acc0));
                            assert(jviewo(acc@) =~= jviewo(acc0).push(
                                (acc@.last().0@, jview(acc@.last().1)),
                            ));
                            match parse_members(s@, k as int, d) {
                                Some(q) => {
                                    assert(jviewo(acc0) + (seq![(kp.0@, jview(v))] + q.0) =~= jviewo(
                                        acc@,
                                    ) + q.0);
                                },
                                None => {},
                            }
                        }
                        cur = k;
                    } else if j2 < s.len() && s[j2] == '}' {
                        acc.push((key, v));
                        proof {
                            assert(jviewo(acc@).drop_last() =~= jviewo(acc0));
                            assert(jviewo(acc@) =~= jviewo(acc0).push((kp.0@, jview(v))));
                            assert(jviewo(acc0) + seq![(kp.0@, jview(v))] =~= jviewo(acc@));
                        }
                        return Some((Json::Obj(acc), j2 + 1));
                    } else {
                        return None;
                    }
                },
            }
        }
    } else if c == '-' || ('0' <= c && c <= '9') {
        match num_end_x(s, i) {
            Some(e) => {
                let mut lit: Vec<char> = Vec::new();
                let mut t: usize = i;
                proof {
                    assert(lit@ =~= s@.subrange(i as int, i as int));
                }
                while t < e
                    invariant
                        i <= t <= e <= s@.len(),
                        lit@ == s@.subrange(i as int, t as int),
                    decreases e - t,
                {
                    proof {
                        assert(s@.subrange(i as int, t + 1) =~= s@.subrange(i as int, t as int).push(
                            s@[t as int],
                        ));
                    }
                    lit.push(s[t]);
                    t = t + 1;
                }
                let ls = chars_string(&lit);
                Some((Json::Num(ls), e))
            },
            None => None,
        }
    } else {
        None
    }
}

/// The JSON value a whole line of characters holds, when it holds one.
pub fn parse_chars(s: &Vec<char>) -> (r: Option<Json>)
    ensures
        (match r {
            Some(j) => parse_text(s@) == Some(j@),
            None => parse_text(s@) is None,
        }),
{
    let i = skip_ws_x(s, 0);
    match parse_value_x(s, i, MAX_DEPTH) {
        None => None,
        Some(p) => {
            let j = skip_ws_x(s, p.1);
            if j == s.len() {
                Some(p.0)
            } else {
                None
            }
        },
    }
}

} // verus!
