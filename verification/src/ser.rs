//! The serializer: every response envelope leaves the library through
//! [`to_text`], whose output is pinned, character by character, by the spec
//! function [`ser`].

use vstd::prelude::*;
use crate::json::{Json, JsonView, jview, jviews, jviewo, group_json_view};
use crate::text::chars_string;
use crate::text::str_chars;

verus! {

/// The sixteen digits of base sixteen.
pub open spec fn hexchars() -> Seq<char> {
    seq!['0', '1', '2', '3', '4', '5', '6', '7', '8', '9', 'a', 'b', 'c', 'd', 'e', 'f']
}

/// How one character of a string is written inside a JSON string literal:
/// quote and backslash get a backslash, the named control characters their
/// short escape, other control characters a `\u00..` escape, and everything
/// else stands as itself.
pub open spec fn esc(c: char) -> Seq<char> {
    if c == '"' {
        seq!['\\', '"']
    } else if c == '\\' {
        seq!['\\', '\\']
    } else if c == '\u{0008}' {
        seq!['\\', 'b']
    } else if c == '\t' {
        seq!['\\', 't']
    } else if c == '\n' {
        seq!['\\', 'n']
    } else if c == '\u{000C}' {
        seq!['\\', 'f']
    } else if c == '\r' {
        seq!['\\', 'r']
    } else if (c as u32) < 0x20 {
        seq!['\\', 'u', '0', '0', hexchars()[(c as u32 / 16) as int], hexchars()[(c as u32 % 16) as int]]
    } else {
        seq![c]
    }
}

/// The escaped body of a string literal.
pub open spec fn esc_all(s: Seq<char>) -> Seq<char>
    decreases s.len(),
{
    if s.len() == 0 {
        Seq::empty()
    } else {
        esc_all(s.drop_last()) + esc(s.last())
    }
}

/// A complete JSON string literal.
pub open spec fn ser_string(s: Seq<char>) -> Seq<char> {
    seq!['"'] + esc_all(s) + seq!['"']
}

/// The compact one-line text of a JSON value: no spacing, object entries in
/// their held order, numbers by their literal.
pub open spec fn ser(v: JsonView) -> Seq<char>
    decreases v, 1int,
{
    match v {
        JsonView::Null => seq!['n', 'u', 'l', 'l'],
        JsonView::Bool(b) => if b {
            seq!['t', 'r', 'u', 'e']
        } else {
            seq!['f', 'a', 'l', 's', 'e']
        },
        JsonView::Num(s) => s,
        JsonView::Str(s) => ser_string(s),
        JsonView::Arr(es) => {
            proof {
                assert(es == v->Arr_0);
                assert(decreases_to!(v => v->Arr_0));
            }
            seq!['['] + ser_items(es) + seq![']']
        },
        JsonView::Obj(es) => {
            proof {
                assert(es == v->Obj_0);
                assert(decreases_to!(v => v->Obj_0));
            }
            seq!['{'] + ser_members(es) + seq!['}']
        },
    }
}

/// Array elements, comma-separated.
pub open spec fn ser_items(s: Seq<JsonView>) -> Seq<char>
    decreases s, 0int,
{
    if s.len() == 0 {
        Seq::empty()
    } else {
        proof {
            assert(decreases_to!(s => s.last()));
            vstd::seq::axiom_seq_len_decreases(s, s.drop_last());
        }
        ser_items(s.drop_last()) + (if s.len() > 1 {
            seq![',']
        } else {
            Seq::empty()
        }) + ser(s.last())
    }
}

/// Object entries, comma-separated, each `"key":value`.
pub open spec fn ser_members(s: Seq<(Seq<char>, JsonView)>) -> Seq<char>
    decreases s, 0int,
{
    if s.len() == 0 {
        Seq::empty()
    } else {
        proof {
            assert(decreases_to!(s => s.last()));
            assert(decreases_to!(s.last() => s.last().1));
            vstd::seq::axiom_seq_len_decreases(s, s.drop_last());
        }
        ser_members(s.drop_last()) + (if s.len() > 1 {
            seq![',']
        } else {
            Seq::empty()
        }) + ser_string(s.last().0) + seq![':'] + ser(s.last().1)
    }
}

/// One base-sixteen digit.
pub fn hex_digit(d: u32) -> (r: char)
    requires
        d < 16,
    ensures
        r == hexchars()[d as int],
{
    match d {
        0 => '0',
        1 => '1',
        2 => '2',
        3 => '3',
        4 => '4',
        5 => '5',
        6 => '6',
        7 => '7',
        8 => '8',
        9 => '9',
        10 => 'a',
        11 => 'b',
        12 => 'c',
        13 => 'd',
        14 => 'e',
        _ => 'f',
    }
}

/// Appends the escape of one string character.
pub fn push_escaped(out: &mut Vec<char>, c: char)
    ensures
        final(out)@ == old(out)@ + esc(c),
{
    if c == '"' {
        out.push('\\');
        out.push('"');
    } else if c == '\\' {
        out.push('\\');
        out.push('\\');
    } else if c == '\u{0008}' {
        out.push('\\');
        out.push('b');
    } else if c == '\t' {
        out.push('\\');
        out.push('t');
    } else if c == '\n' {
        out.push('\\');
        out.push('n');
    } else if c == '\u{000C}' {
        out.push('\\');
        out.push('f');
    } else if c == '\r' {
        out.push('\\');
        out.push('r');
    } else if (c as u32) < 0x20 {
        let n = c as u32;
        out.push('\\');
        out.push('u');
        out.push('0');
        out.push('0');
        let h = hex_digit(n / 16);
        out.push(h);
        let l = hex_digit(n % 16);
        out.push(l);
        proof {
            assert(final(out)@ =~= old(out)@ + esc(c));
        }
    } else {
        out.push(c);
    }
    proof {
        assert(final(out)@ =~= old(out)@ + esc(c));
    }
}

/// Appends the escaped body of a string literal, from characters.
#[verifier::loop_isolation(false)]
pub fn push_escaped_chars(out: &mut Vec<char>, cs: &Vec<char>)
    ensures
        final(out)@ == old(out)@ + esc_all(cs@),
{
    let mut i: usize = 0;
    while i < cs.len()
        invariant
            i <= cs.len(),
            out@ == old(out)@ + esc_all(cs@.take(i as int)),
        decreases cs.len() - i,
    {
        proof {
            assert(cs@.take(i + 1).drop_last() =~= cs@.take(i as int));
            assert(cs@.take(i + 1).last() == cs@[i as int]);
        }
        push_escaped(out, cs[i]);
        i = i + 1;
    }
    proof {
        assert(cs@.take(cs@.len() as int) =~= cs@);
    }
}

/// Appends the escaped body of a string literal.
pub fn push_escaped_all(out: &mut Vec<char>, s: &String)
    ensures
        final(out)@ == old(out)@ + esc_all(s@),
{
    let cs = str_chars(s.as_str());
    push_escaped_chars(out, &cs);
}

/// Appends all characters of a vector.
#[verifier::loop_isolation(false)]
pub fn push_chars(out: &mut Vec<char>, s: &Vec<char>)
    ensures
        final(out)@ == old(out)@ + s@,
{
    let mut i: usize = 0;
    while i < s.len()
        invariant
            i <= s.len(),
            out@ == old(out)@ + s@.take(i as int),
        decreases s.len() - i,
    {
        proof {
            assert(s@.take(i + 1) =~= s@.take(i as int).push(s@[i as int]));
        }
        out.push(s[i]);
        i = i + 1;
    }
    proof {
        assert(s@.take(s@.len() as int) =~= s@);
    }
}

/// Appends the compact text of a JSON value.
#[verifier::loop_isolation(false)]
#[verifier::rlimit(50)]
pub fn write_json(v: &Json, out: &mut Vec<char>)
    ensures
        final(out)@ == old(out)@ + ser(jview(*v)),
    decreases v,
{
    broadcast use group_json_view;

    match v {
        Json::Null => {
            out.push('n');
            out.push('u');
            out.push('l');
            out.push('l');
            proof {
                assert(final(out)@ =~= old(out)@ + ser(jview(*v)));
            }
        },
        Json::Bool(b) => {
            if *b {
                out.push('t');
                out.push('r');
                out.push('u');
                out.push('e');
            } else {
                out.push('f');
                out.push('a');
                out.push('l');
                out.push('s');
                out.push('e');
            }
            proof {
                assert(final(out)@ =~= old(out)@ + ser(jview(*v)));
            }
        },
        Json::Num(s) => {
            let cs = str_chars(s.as_str());
            push_chars(out, &cs);
        },
        Json::Str(s) => {
            out.push('"');
            push_escaped_all(out, s);
            out.push('"');
            proof {
                assert(final(out)@ =~= old(out)@ + ser(jview(*v)));
            }
        },
        Json::Arr(a) => {
            let ghost es = jviews(a@);
            out.push('[');
            let ghost start = out@;
            let mut i: usize = 0;
            while i < a.len()
                invariant
                    i <= a.len(),
                    out@ == start + ser_items(es.take(i as int)),
                decreases a.len() - i,
            {
                if i > 0 {
                    out.push(',');
                }
                proof {
                    assert(decreases_to!(*v => a@[i as int])) by {
                        assert(*a == (*v)->Arr_0);
                        assert(decreases_to!(*v => (*v)->Arr_0));
                        assert(decreases_to!(*a => a@));
                        assert(decreases_to!(a@ => a@[i as int]));
                    }
                }
                write_json(&a[i], out);
                proof {
                    assert(es.take(i + 1).drop_last() =~= es.take(i as int));
                    assert(es.take(i + 1).last() == es[i as int]);
                    assert(es[i as int] == jview(a@[i as int]));
                    assert(out@ =~= start + ser_items(es.take(i + 1)));
                }
                i = i + 1;
            }
            out.push(']');
            proof {
                assert(es.take(es.len() as int) =~= es);
                assert(final(out)@ =~= old(out)@ + ser(jview(*v)));
            }
        },
        Json::Obj(m) => {
            let ghost es = jviewo(m@);
            out.push('{');
            let ghost start = out@;
            let mut i: usize = 0;
            while i < m.len()
                invariant
                    i <= m.len(),
                    out@ == start + ser_members(es.take(i as int)),
                decreases m.len() - i,
            {
                if i > 0 {
                    out.push(',');
                }
                out.push('"');
                push_escaped_all(out, &m[i].0);
                out.push('"');
                out.push(':');
                proof {
                    assert(decreases_to!(*v => m@[i as int].1)) by {
                        assert(*m == (*v)->Obj_0);
                        assert(decreases_to!(*v => (*v)->Obj_0));
                        assert(decreases_to!(*m => m@));
                        assert(decreases_to!(m@ => m@[i as int]));
                        assert(decreases_to!(m@[i as int] => m@[i as int].1));
                    }
                }
                write_json(&m[i].1, out);
                proof {
                    assert(es.take(i + 1).drop_last() =~= es.take(i as int));
                    assert(es.take(i + 1).last() == es[i as int]);
                    assert(es[i as int] == (m@[i as int].0@, jview(m@[i as int].1)));
                    assert(out@ =~= start + ser_members(es.take(i + 1)));
                }
                i = i + 1;
            }
            out.push('}');
            proof {
                assert(es.take(es.len() as int) =~= es);
                assert(final(out)@ =~= old(out)@ + ser(jview(*v)));
            }
        },
    }
}

/// The compact one-line text of a value, as a string.
pub fn to_text(v: &Json) -> (r: String)
    ensures
        r@ == ser(v@),
{
    let mut out: Vec<char> = Vec::new();
    write_json(v, &mut out);
    chars_string(&out)
}

/// Decimal digits of a nonnegative integer.
pub open spec fn dec_nat(n: nat) -> Seq<char>
    decreases n,
{
    if n < 10 {
        seq![hexchars()[n as int]]
    } else {
        dec_nat(n / 10).push(hexchars()[(n % 10) as int])
    }
}

/// Decimal text of an integer, with a sign when negative.
pub open spec fn dec_int(n: int) -> Seq<char> {
    if n < 0 {
        seq!['-'] + dec_nat((-n) as nat)
    } else {
        dec_nat(n as nat)
    }
}

/// Appends the decimal digits of a nonnegative integer.
pub fn push_dec_u64(out: &mut Vec<char>, x: u64)
    ensures
        final(out)@ == old(out)@ + dec_nat(x as nat),
    decreases x,
{
    if x < 10 {
        let d = hex_digit(x as u32);
        out.push(d);
        proof {
            assert(final(out)@ =~= old(out)@ + dec_nat(x as nat));
        }
    } else {
        push_dec_u64(out, x / 10);
        let d = hex_digit((x % 10) as u32);
        out.push(d);
        proof {
            assert(final(out)@ =~= old(out)@ + dec_nat(x as nat));
        }
    }
}

/// Appends the decimal text of an integer.
pub fn push_dec_i64(out: &mut Vec<char>, n: i64)
    ensures
        final(out)@ == old(out)@ + dec_int(n as int),
{
    if n < 0 {
        out.push('-');
        let m: u64 = ((-(n + 1)) as u64) + 1;
        proof {
            assert(m as int == -(n as int));
        }
        push_dec_u64(out, m);
        proof {
            assert(final(out)@ =~= old(out)@ + dec_int(n as int));
        }
    } else {
        push_dec_u64(out, n as u64);
    }
}

/// The decimal text of an integer, as a number value's literal.
pub fn dec_string(n: i64) -> (r: String)
    ensures
        r@ == dec_int(n as int),
{
    let mut out: Vec<char> = Vec::new();
    push_dec_i64(&mut out, n);
    chars_string(&out)
}

} // verus!
