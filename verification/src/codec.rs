//! The envelope's wire form: JSON with fixed field names, written and read
//! here character by character.
//!
//! The encoder renders an envelope as one JSON object; the parser accepts
//! the same object with its members in any order, surrounding whitespace,
//! and the usual string escapes, and yields the envelope or a decode error.

use vstd::prelude::*;
use crate::protocol::MessageMeta;
use crate::protocol::MessageType;
use crate::protocol::WireMessage;
use crate::text::chars_to_string;
use crate::text::dec_rep_signed;
use crate::text::push_dec_i64;

verus! {

/// A frame that is not a well-formed envelope; it is dropped, the
/// connection stays open.
#[derive(Debug, Clone, PartialEq, Eq)]
pub struct DecodeError;

/// The tag the wire uses for each envelope kind.
pub open spec fn kind_tag(k: MessageType) -> Seq<char> {
    match k {
        MessageType::Message => "MSG"@,
        MessageType::Auth => "AUTH"@,
        MessageType::System => "SYS"@,
    }
}

/// One hexadecimal digit.
pub open spec fn hex_char(d: int) -> char {
    if d == 0 { '0' }
    else if d == 1 { '1' }
    else if d == 2 { '2' }
    else if d == 3 { '3' }
    else if d == 4 { '4' }
    else if d == 5 { '5' }
    else if d == 6 { '6' }
    else if d == 7 { '7' }
    else if d == 8 { '8' }
    else if d == 9 { '9' }
    else if d == 10 { 'a' }
    else if d == 11 { 'b' }
    else if d == 12 { 'c' }
    else if d == 13 { 'd' }
    else if d == 14 { 'e' }
    else { 'f' }
}

/// How one character appears inside a JSON string: quotes, backslashes and
/// the common control characters get two-character escapes, other control
/// characters a `\u00..` escape, everything else stands as itself.
pub open spec fn escape_char(c: char) -> Seq<char> {
    if c == '"' {
        seq!['\\', '"']
    } else if c == '\\' {
        seq!['\\', '\\']
    } else if c == '\n' {
        seq!['\\', 'n']
    } else if c == '\r' {
        seq!['\\', 'r']
    } else if c == '\t' {
        seq!['\\', 't']
    } else if (c as u32) < 0x20 {
        seq!['\\', 'u', '0', '0', hex_char(c as u32 as int / 16), hex_char(c as u32 as int % 16)]
    } else {
        seq![c]
    }
}

/// A whole string, escaped.
pub open spec fn json_escaped(s: Seq<char>) -> Seq<char>
    decreases s.len(),
{
    if s.len() == 0 {
        Seq::empty()
    } else {
        escape_char(s[0]) + json_escaped(s.drop_first())
    }
}

/// The one JSON form the encoder writes for an envelope.
pub open spec fn envelope_json(m: WireMessage) -> Seq<char> {
    "{\"type\":\""@ + kind_tag(m.msg_type) + "\",\"payload\":\""@ + json_escaped(m.payload@)
        + "\",\"channel\":\""@ + json_escaped(m.channel@) + "\",\"meta\":{\"sender\":\""@
        + json_escaped(m.meta.sender@) + "\",\"timestamp\":"@ + dec_rep_signed(
        m.meta.timestamp as int,
    ) + "}}"@
}

/// Appending one character to the input appends its escape to the output.
proof fn lemma_json_escaped_snoc(s: Seq<char>, c: char)
    ensures
        json_escaped(s.push(c)) == json_escaped(s) + escape_char(c),
    decreases s.len(),
{
    let t = s.push(c);
    if s.len() == 0 {
        assert(t[0] == c);
        assert(t.drop_first() =~= Seq::<char>::empty());
        assert(json_escaped(Seq::<char>::empty()) =~= Seq::<char>::empty());
        assert(json_escaped(t) == escape_char(c) + json_escaped(t.drop_first()));
        assert(escape_char(c) + Seq::<char>::empty() =~= escape_char(c));
        assert(json_escaped(s) + escape_char(c) =~= escape_char(c));
    } else {
        assert(t[0] == s[0]);
        assert(t.drop_first() =~= s.drop_first().push(c));
        lemma_json_escaped_snoc(s.drop_first(), c);
        assert(json_escaped(t) == escape_char(s[0]) + (json_escaped(s.drop_first())
            + escape_char(c)));
        assert(escape_char(s[0]) + (json_escaped(s.drop_first()) + escape_char(c)) =~= (
        escape_char(s[0]) + json_escaped(s.drop_first())) + escape_char(c));
    }
}

/// Appends the literal characters of `lit`.
fn push_str_chars(out: &mut Vec<char>, lit: &str)
    ensures
        final(out)@ == old(out)@ + lit@,
{
    let n = lit.unicode_len();
    let mut i: usize = 0;
    while i < n
        invariant
            n == lit@.len(),
            i <= n,
            out@ == old(out)@ + lit@.subrange(0, i as int),
        decreases n - i,
    {
        out.push(lit.get_char(i));
        i = i + 1;
        assert(out@ =~= old(out)@ + lit@.subrange(0, i as int));
    }
    assert(out@ =~= old(out)@ + lit@);
}

fn hex_digit(d: u32) -> (c: char)
    requires
        d < 16,
    ensures
        c == hex_char(d as int),
{
    if d == 0 { '0' }
    else if d == 1 { '1' }
    else if d == 2 { '2' }
    else if d == 3 { '3' }
    else if d == 4 { '4' }
    else if d == 5 { '5' }
    else if d == 6 { '6' }
    else if d == 7 { '7' }
    else if d == 8 { '8' }
    else if d == 9 { '9' }
    else if d == 10 { 'a' }
    else if d == 11 { 'b' }
    else if d == 12 { 'c' }
    else if d == 13 { 'd' }
    else if d == 14 { 'e' }
    else { 'f' }
}

/// Appends the escaped form of `s`.
fn push_escaped(out: &mut Vec<char>, s: &str)
    ensures
        final(out)@ == old(out)@ + json_escaped(s@),
{
    let n = s.unicode_len();
    let mut i: usize = 0;
    assert(json_escaped(s@.subrange(0, 0)) =~= Seq::<char>::empty());
    while i < n
        invariant
            n == s@.len(),
            i <= n,
            out@ == old(out)@ + json_escaped(s@.subrange(0, i as int)),
        decreases n - i,
    {
        let c = s.get_char(i);
        if c == '"' {
            out.push('\\');
            out.push('"');
        } else if c == '\\' {
            out.push('\\');
            out.push('\\');
        } else if c == '\n' {
            out.push('\\');
            out.push('n');
        } else if c == '\r' {
            out.push('\\');
            out.push('r');
        } else if c == '\t' {
            out.push('\\');
            out.push('t');
        } else if (c as u32) < 0x20 {
            out.push('\\');
            out.push('u');
            out.push('0');
            out.push('0');
            out.push(hex_digit((c as u32) / 16));
            out.push(hex_digit((c as u32) % 16));
        } else {
            out.push(c);
        }
        proof {
            lemma_json_escaped_snoc(s@.subrange(0, i as int), c);
            assert(s@.subrange(0, i as int).push(c) =~= s@.subrange(0, i + 1));
            assert(out@ =~= old(out)@ + json_escaped(s@.subrange(0, i + 1)));
        }
        i = i + 1;
    }
    assert(s@.subrange(0, n as int) =~= s@);
}

/// JSON whitespace.
pub open spec fn is_ws(c: char) -> bool {
    c == ' ' || c == '\t' || c == '\n' || c == '\r'
}

/// The first position at or after `i` holding something other than
/// whitespace.
pub open spec fn skip_ws(v: Seq<char>, i: int) -> int
    decreases v.len() - i,
{
    if 0 <= i < v.len() && is_ws(v[i]) {
        skip_ws(v, i + 1)
    } else {
        i
    }
}

pub open spec fn is_digit(c: char) -> bool {
    48 <= (c as u32) <= 57
}

pub open spec fn digit_val(c: char) -> int {
    (c as u32) - 48
}

/// The value of a hexadecimal digit, or -1 for any other character.
pub open spec fn hex_val(c: char) -> int {
    if is_digit(c) {
        digit_val(c)
    } else if 97 <= (c as u32) <= 102 {
        (c as u32) - 87
    } else if 65 <= (c as u32) <= 70 {
        (c as u32) - 55
    } else {
        -1
    }
}

/// Prepends one decoded character to a string-body parse.
pub open spec fn cons_char(c: char, r: Option<(Seq<char>, int)>) -> Option<(Seq<char>, int)> {
    match r {
        Some(p) => Some((seq![c] + p.0, p.1)),
        None => None,
    }
}

/// The character a two-character escape stands for, if the letter is one of
/// the short escapes.
pub open spec fn short_escape(e: char) -> Option<char> {
    if e == '"' { Some('"') }
    else if e == '\\' { Some('\\') }
    else if e == '/' { Some('/') }
    else if e == 'n' { Some('\n') }
    else if e == 'r' { Some('\r') }
    else if e == 't' { Some('\t') }
    else if e == 'b' { Some('\u{8}') }
    else if e == 'f' { Some('\u{c}') }
    else { None }
}

/// The body of a JSON string from position `i` (just past the opening
/// quote): the decoded characters and the position past the closing quote.
/// Unescaped control characters, bad escapes and surrogate code points are
/// refused.
pub open spec fn spec_parse_string_body(v: Seq<char>, i: int) -> Option<(Seq<char>, int)>
    decreases v.len() - i,
{
    if !(0 <= i < v.len()) {
        None
    } else if v[i] == '"' {
        Some((Seq::empty(), i + 1))
    } else if v[i] == '\\' {
        if i + 2 > v.len() {
            None
        } else if v[i + 1] == 'u' {
            if i + 6 > v.len() {
                None
            } else {
                let h = hex_val(v[i + 2]) * 4096 + hex_val(v[i + 3]) * 256 + hex_val(v[i + 4]) * 16
                    + hex_val(v[i + 5]);
                if hex_val(v[i + 2]) < 0 || hex_val(v[i + 3]) < 0 || hex_val(v[i + 4]) < 0
                    || hex_val(v[i + 5]) < 0 {
                    None
                } else if 0xD800 <= h < 0xE000 {
                    None
                } else {
                    cons_char(((h as u32) as char), spec_parse_string_body(v, i + 6))
                }
            }
        } else {
            match short_escape(v[i + 1]) {
                Some(c) => cons_char(c, spec_parse_string_body(v, i + 2)),
                None => None,
            }
        }
    } else if (v[i] as u32) < 0x20 {
        None
    } else {
        cons_char(v[i], spec_parse_string_body(v, i + 1))
    }
}

/// A whole JSON string starting at `i`.
pub open spec fn spec_parse_string(v: Seq<char>, i: int) -> Option<(Seq<char>, int)> {
    if 0 <= i < v.len() && v[i] == '"' {
        spec_parse_string_body(v, i + 1)
    } else {
        None
    }
}

/// A run of decimal digits folded into a value, and where it ends.
pub open spec fn spec_parse_digits(v: Seq<char>, i: int, acc: int) -> (int, int)
    decreases v.len() - i,
{
    if 0 <= i < v.len() && is_digit(v[i]) {
        spec_parse_digits(v, i + 1, acc * 10 + digit_val(v[i]))
    } else {
        (acc, i)
    }
}

/// An optionally signed integer that fits an `i64`, and where it ends.
pub open spec fn spec_parse_i64(v: Seq<char>, i: int) -> Option<(int, int)> {
    let neg = 0 <= i < v.len() && v[i] == '-';
    let j = if neg {
        i + 1
    } else {
        i
    };
    if 0 <= j < v.len() && is_digit(v[j]) {
        let mag = spec_parse_digits(v, j, 0).0;
        let end = spec_parse_digits(v, j, 0).1;
        let val = if neg {
            -mag
        } else {
            mag
        };
        if i64::MIN <= val <= i64::MAX {
            Some((val, end))
        } else {
            None
        }
    } else {
        None
    }
}

/// Relies on std's `char::from_u32`: `Some` exactly for values that are
/// Unicode scalar values (not surrogates, at most 0x10FFFF), and the
/// character then has that code point.
#[verifier::external_body]
fn char_from_u32(x: u32) -> (r: Option<char>)
    ensures
        r is Some <==> (x < 0xD800 || (0xE000 <= x && x <= 0x10FFFF)),
        r is Some ==> r.unwrap() == ((x as u32) as char),
{
    char::from_u32(x)
}

/// Advances past whitespace.
fn skip_ws_at(v: &Vec<char>, i: usize) -> (j: usize)
    requires
        i <= v@.len(),
    ensures
        j as int == skip_ws(v@, i as int),
        i <= j <= v@.len(),
        j < v@.len() ==> !is_ws(v@[j as int]),
{
    let n = v.len();
    let mut j = i;
    while j < n && (v[j] == ' ' || v[j] == '\t' || v[j] == '\n' || v[j] == '\r')
        invariant
            i <= j <= n,
            n == v@.len(),
            skip_ws(v@, i as int) == skip_ws(v@, j as int),
        decreases n - j,
    {
        j = j + 1;
    }
    j
}

fn hex_val_exec(c: char) -> (r: i8)
    ensures
        r as int == hex_val(c),
{
    let x = c as u32;
    if 48 <= x && x <= 57 {
        (x - 48) as i8
    } else if 97 <= x && x <= 102 {
        (x - 87) as i8
    } else if 65 <= x && x <= 70 {
        (x - 55) as i8
    } else {
        -1
    }
}

/// Reads one JSON string starting at `start`.
#[verifier::rlimit(60)]
fn parse_string_at(v: &Vec<char>, start: usize) -> (r: Option<(Vec<char>, usize)>)
    requires
        start <= v@.len(),
    ensures
        match r {
            Some(p) => spec_parse_string(v@, start as int) == Some((p.0@, p.1 as int)) && start
                < p.1 <= v@.len(),
            None => spec_parse_string(v@, start as int) is None,
        },
{
    let n = v.len();
    if start >= n || v[start] != '"' {
        return None;
    }
    let ghost body_start = start + 1int;
    let mut out: Vec<char> = Vec::new();
    let mut i = start + 1;
    loop
        invariant
            n == v@.len(),
            start < n,
            v@[start as int] == '"',
            body_start == start + 1,
            start + 1 <= i <= n,
            match spec_parse_string_body(v@, i as int) {
                Some(p) => spec_parse_string_body(v@, body_start) == Some((out@ + p.0, p.1)),
                None => spec_parse_string_body(v@, body_start) is None,
            },
        decreases n - i,
    {
        if i >= n {
            return None;
        }
        let c = v[i];
        if c == '"' {
            proof {
                assert(out@ + Seq::<char>::empty() =~= out@);
            }
            return Some((out, i + 1));
        }
        if c == '\\' {
            if n - i < 2 {
                return None;
            }
            let e = v[i + 1];
            if e == 'u' {
                if n - i < 6 {
                    assert(spec_parse_string_body(v@, i as int) is None);
                    return None;
                }
                let h3 = hex_val_exec(v[i + 2]);
                let h2 = hex_val_exec(v[i + 3]);
                let h1 = hex_val_exec(v[i + 4]);
                let h0 = hex_val_exec(v[i + 5]);
                if h3 < 0 || h2 < 0 || h1 < 0 || h0 < 0 {
                    return None;
                }
                let h: u32 = (h3 as u32) * 4096 + (h2 as u32) * 256 + (h1 as u32) * 16 + (
                h0 as u32);
                match char_from_u32(h) {
                    Some(decoded) => {
                        let ghost pre_out = out@;
                        out.push(decoded);
                        proof {
                            let rest = spec_parse_string_body(v@, i + 6);
                            if rest is Some {
                                assert(pre_out + (seq![decoded] + rest.unwrap().0) =~= out@
                                    + rest.unwrap().0);
                            }
                        }
                        i = i + 6;
                    },
                    None => {
                        return None;
                    },
                }
            } else {
                let decoded_opt: Option<char> = if e == '"' { Some('"') }
                else if e == '\\' { Some('\\') }
                else if e == '/' { Some('/') }
                else if e == 'n' { Some('\n') }
                else if e == 'r' { Some('\r') }
                else if e == 't' { Some('\t') }
                else if e == 'b' { Some('\u{8}') }
                else if e == 'f' { Some('\u{c}') }
                else { None };
                match decoded_opt {
                    Some(decoded) => {
                        let ghost pre_out = out@;
                        out.push(decoded);
                        proof {
                            let rest = spec_parse_string_body(v@, i + 2);
                            if rest is Some {
                                assert(pre_out + (seq![decoded] + rest.unwrap().0) =~= out@
                                    + rest.unwrap().0);
                            }
                        }
                        i = i + 2;
                    },
                    None => {
                        return None;
                    },
                }
            }
        } else if (c as u32) < 0x20 {
            return None;
        } else {
            let ghost pre_out = out@;
            out.push(c);
            proof {
                let rest = spec_parse_string_body(v@, i + 1);
                if rest is Some {
                    assert(pre_out + (seq![c] + rest.unwrap().0) =~= out@ + rest.unwrap().0);
                }
            }
            i = i + 1;
        }
    }
}

/// Reads one integer fitting an `i64` starting at `start`.
fn parse_i64_at(v: &Vec<char>, start: usize) -> (r: Option<(i64, usize)>)
    requires
        start <= v@.len(),
    ensures
        match r {
            Some(p) => spec_parse_i64(v@, start as int) == Some((p.0 as int, p.1 as int)) && start
                < p.1 <= v@.len(),
            None => spec_parse_i64(v@, start as int) is None,
        },
{
    let n = v.len();
    let neg = start < n && v[start] == '-';
    let mut j = if neg {
        start + 1
    } else {
        start
    };
    let ghost digits_start = j as int;
    if j >= n || !(48 <= (v[j] as u32) && (v[j] as u32) <= 57) {
        return None;
    }
    let mut acc: u128 = 0;
    let ghost mut exact: int = 0int;
    let bound: u128 = 0xffff_ffff_ffff_ffff;
    while j < n && 48 <= (v[j] as u32) && (v[j] as u32) <= 57
        invariant
            n == v@.len(),
            digits_start <= j <= n,
            spec_parse_digits(v@, digits_start, 0) == spec_parse_digits(v@, j as int, exact),
            exact >= 0,
            bound == 0xffff_ffff_ffff_ffff,
            exact <= bound ==> acc == exact,
            exact > bound ==> acc > bound,
            acc <= bound * 10 + 9,
        decreases n - j,
    {
        let d = (v[j] as u32) - 48;
        proof {
            exact = exact * 10 + digit_val(v@[j as int]);
        }
        if acc > bound {
        } else {
            acc = acc * 10 + (d as u128);
        }
        j = j + 1;
    }
    let ghost spec_result = spec_parse_digits(v@, digits_start, 0);
    proof {
        assert(spec_parse_digits(v@, j as int, exact) == (exact, j as int));
        assert(spec_result.0 == exact && spec_result.1 == j as int);
    }
    if neg {
        let min_mag: u128 = 0x8000_0000_0000_0000;
        if acc > min_mag {
            return None;
        }
        let val: i64 = if acc == min_mag {
            i64::MIN
        } else {
            -((acc as u64) as i64)
        };
        Some((val, j))
    } else {
        let max_mag: u128 = 0x7fff_ffff_ffff_ffff;
        if acc > max_mag {
            return None;
        }
        Some(((acc as u64) as i64, j))
    }
}

/// The data of one parsed envelope, in mathematical form.
pub struct EnvelopeData {
    pub kind: MessageType,
    pub payload: Seq<char>,
    pub channel: Seq<char>,
    pub sender: Seq<char>,
    pub timestamp: int,
}

/// What an envelope value says, for comparing against a parse.
pub open spec fn wire_view(m: WireMessage) -> EnvelopeData {
    EnvelopeData {
        kind: m.msg_type,
        payload: m.payload@,
        channel: m.channel@,
        sender: m.meta.sender@,
        timestamp: m.meta.timestamp as int,
    }
}

/// The envelope kind a wire tag names.
pub open spec fn kind_of_tag(tag: Seq<char>) -> Option<MessageType> {
    if tag == "MSG"@ {
        Some(MessageType::Message)
    } else if tag == "AUTH"@ {
        Some(MessageType::Auth)
    } else if tag == "SYS"@ {
        Some(MessageType::System)
    } else {
        None
    }
}

/// The members of the `meta` object, in any order, each exactly once,
/// starting just past `{` or a comma. `allow_close` is whether `}` may come
/// immediately (not right after a comma).
pub open spec fn spec_meta_members(
    v: Seq<char>,
    i: int,
    allow_close: bool,
    sender: Option<Seq<char>>,
    ts: Option<int>,
) -> Option<((Seq<char>, int), int)>
    decreases v.len() - i, 1int,
{
    let j = skip_ws(v, i);
    if j < i || j > v.len() {
        None
    } else if allow_close && j < v.len() && v[j] == '}' {
        match (sender, ts) {
            (Some(s), Some(t)) => Some(((s, t), j + 1)),
            _ => None,
        }
    } else {
        match spec_parse_string(v, j) {
            None => None,
            Some(kp) => {
                let j3 = skip_ws(v, kp.1);
                if !(kp.1 <= j3 < v.len() && v[j3] == ':') {
                    None
                } else {
                    let j4 = skip_ws(v, j3 + 1);
                    if j4 < j3 + 1 || j4 > v.len() {
                        None
                    } else if kp.0 == "sender"@ {
                        if sender is Some {
                            None
                        } else {
                            match spec_parse_string(v, j4) {
                                None => None,
                                Some(sp) => if i < sp.1 <= v.len() {
                                    spec_meta_after(v, sp.1, Some(sp.0), ts)
                                } else {
                                    None
                                },
                            }
                        }
                    } else if kp.0 == "timestamp"@ {
                        if ts is Some {
                            None
                        } else {
                            match spec_parse_i64(v, j4) {
                                None => None,
                                Some(tp) => if i < tp.1 <= v.len() {
                                    spec_meta_after(v, tp.1, sender, Some(tp.0))
                                } else {
                                    None
                                },
                            }
                        }
                    } else {
                        None
                    }
                }
            },
        }
    }
}

/// After one member of `meta`: a comma brings the next member, a brace
/// closes the object.
pub open spec fn spec_meta_after(
    v: Seq<char>,
    j: int,
    sender: Option<Seq<char>>,
    ts: Option<int>,
) -> Option<((Seq<char>, int), int)>
    decreases v.len() - j, 0int,
{
    let j2 = skip_ws(v, j);
    if j2 < j || j2 >= v.len() {
        None
    } else if v[j2] == ',' {
        spec_meta_members(v, j2 + 1, false, sender, ts)
    } else if v[j2] == '}' {
        match (sender, ts) {
            (Some(s), Some(t)) => Some(((s, t), j2 + 1)),
            _ => None,
        }
    } else {
        None
    }
}

/// The whole `meta` object starting at `i`: its sender and timestamp, and
/// the position past its closing brace.
pub open spec fn spec_parse_meta(v: Seq<char>, i: int) -> Option<((Seq<char>, int), int)> {
    if 0 <= i < v.len() && v[i] == '{' {
        spec_meta_members(v, i + 1, true, None, None)
    } else {
        None
    }
}

/// An envelope once all members are in: `type`, `payload` and `meta` are
/// required, a missing `channel` falls back to the global identifier.
pub open spec fn env_finish(
    kind: Option<MessageType>,
    payload: Option<Seq<char>>,
    channel: Option<Seq<char>>,
    meta: Option<(Seq<char>, int)>,
) -> Option<EnvelopeData> {
    match (kind, payload, meta) {
        (Some(k), Some(p), Some(m)) => Some(
            EnvelopeData {
                kind: k,
                payload: p,
                channel: match channel {
                    Some(c) => c,
                    None => "global"@,
                },
                sender: m.0,
                timestamp: m.1,
            },
        ),
        _ => None,
    }
}

/// The members of the envelope object, in any order, each at most once;
/// a key outside the envelope's vocabulary refuses the frame.
pub open spec fn spec_env_members(
    v: Seq<char>,
    i: int,
    allow_close: bool,
    kind: Option<MessageType>,
    payload: Option<Seq<char>>,
    channel: Option<Seq<char>>,
    meta: Option<(Seq<char>, int)>,
) -> Option<(EnvelopeData, int)>
    decreases v.len() - i, 1int,
{
    let j = skip_ws(v, i);
    if j < i || j > v.len() {
        None
    } else if allow_close && j < v.len() && v[j] == '}' {
        match env_finish(kind, payload, channel, meta) {
            Some(d) => Some((d, j + 1)),
            None => None,
        }
    } else {
        match spec_parse_string(v, j) {
            None => None,
            Some(kp) => {
                let j3 = skip_ws(v, kp.1);
                if !(kp.1 <= j3 < v.len() && v[j3] == ':') {
                    None
                } else {
                    let j4 = skip_ws(v, j3 + 1);
                    if j4 < j3 + 1 || j4 > v.len() {
                        None
                    } else if kp.0 == "type"@ {
                        if kind is Some {
                            None
                        } else {
                            match spec_parse_string(v, j4) {
                                None => None,
                                Some(tp) => match kind_of_tag(tp.0) {
                                    None => None,
                                    Some(k) => if i < tp.1 <= v.len() {
                                        spec_env_after(v, tp.1, Some(k), payload, channel, meta)
                                    } else {
                                        None
                                    },
                                },
                            }
                        }
                    } else if kp.0 == "payload"@ {
                        if payload is Some {
                            None
                        } else {
                            match spec_parse_string(v, j4) {
                                None => None,
                                Some(sp) => if i < sp.1 <= v.len() {
                                    spec_env_after(v, sp.1, kind, Some(sp.0), channel, meta)
                                } else {
                                    None
                                },
                            }
                        }
                    } else if kp.0 == "channel"@ {
                        if channel is Some {
                            None
                        } else {
                            match spec_parse_string(v, j4) {
                                None => None,
                                Some(sp) => if i < sp.1 <= v.len() {
                                    spec_env_after(v, sp.1, kind, payload, Some(sp.0), meta)
                                } else {
                                    None
                                },
                            }
                        }
                    } else if kp.0 == "meta"@ {
                        if meta is Some {
                            None
                        } else {
                            match spec_parse_meta(v, j4) {
                                None => None,
                                Some(mp) => if i < mp.1 <= v.len() {
                                    spec_env_after(v, mp.1, kind, payload, channel, Some(mp.0))
                                } else {
                                    None
                                },
                            }
                        }
                    } else {
                        None
                    }
                }
            },
        }
    }
}

/// After one envelope member: a comma brings the next, a brace closes the
/// envelope.
pub open spec fn spec_env_after(
    v: Seq<char>,
    j: int,
    kind: Option<MessageType>,
    payload: Option<Seq<char>>,
    channel: Option<Seq<char>>,
    meta: Option<(Seq<char>, int)>,
) -> Option<(EnvelopeData, int)>
    decreases v.len() - j, 0int,
{
    let j2 = skip_ws(v, j);
    if j2 < j || j2 >= v.len() {
        None
    } else if v[j2] == ',' {
        spec_env_members(v, j2 + 1, false, kind, payload, channel, meta)
    } else if v[j2] == '}' {
        match env_finish(kind, payload, channel, meta) {
            Some(d) => Some((d, j2 + 1)),
            None => None,
        }
    } else {
        None
    }
}

/// What a whole frame decodes to: one envelope object with nothing but
/// whitespace around it, or nothing.
pub open spec fn spec_parse_envelope(s: Seq<char>) -> Option<EnvelopeData> {
    let i = skip_ws(s, 0);
    if 0 <= i < s.len() && s[i] == '{' {
        match spec_env_members(s, i + 1, true, None, None, None, None) {
            Some(p) => if skip_ws(s, p.1) == s.len() {
                Some(p.0)
            } else {
                None
            },
            None => None,
        }
    } else {
        None
    }
}

spec fn opt_str_view(o: Option<String>) -> Option<Seq<char>> {
    match o {
        Some(s) => Some(s@),
        None => None,
    }
}

spec fn opt_i64_view(o: Option<i64>) -> Option<int> {
    match o {
        Some(t) => Some(t as int),
        None => None,
    }
}

/// Reads the `meta` object starting at `start`.
#[verifier::rlimit(60)]
fn parse_meta_at(v: &Vec<char>, start: usize) -> (r: Option<((String, i64), usize)>)
    requires
        start <= v@.len(),
    ensures
        match r {
            Some(p) => spec_parse_meta(v@, start as int) == Some(
                (((p.0).0@, (p.0).1 as int), p.1 as int),
            ) && start < p.1 <= v@.len(),
            None => spec_parse_meta(v@, start as int) is None,
        },
{
    let n = v.len();
    if start >= n || v[start] != '{' {
        return None;
    }
    let mut sender: Option<String> = None;
    let mut ts: Option<i64> = None;
    let mut allow_close = true;
    let mut j = start + 1;
    loop
        invariant
            n == v@.len(),
            start < n,
            v@[start as int] == '{',
            start + 1 <= j <= n,
            spec_meta_members(v@, start + 1, true, None, None) == spec_meta_members(
                v@,
                j as int,
                allow_close,
                opt_str_view(sender),
                opt_i64_view(ts),
            ),
        decreases n - j,
    {
        let j1 = skip_ws_at(v, j);
        if allow_close && j1 < n && v[j1] == '}' {
            if sender.is_some() && ts.is_some() {
                return Some(((sender.unwrap(), ts.unwrap()), j1 + 1));
            }
            return None;
        }
        match parse_string_at(v, j1) {
            None => {
                return None;
            },
            Some((key_chars, j2)) => {
                let j3 = skip_ws_at(v, j2);
                if j3 >= n || v[j3] != ':' {
                    return None;
                }
                let j4 = skip_ws_at(v, j3 + 1);
                let key = chars_to_string(&key_chars);
                let mut value_end: usize = 0;
                if crate::text::str_eq(key.as_str(), "sender") {
                    if sender.is_some() {
                        return None;
                    }
                    match parse_string_at(v, j4) {
                        None => {
                            return None;
                        },
                        Some((sv, j5)) => {
                            sender = Some(chars_to_string(&sv));
                            value_end = j5;
                        },
                    }
                } else if crate::text::str_eq(key.as_str(), "timestamp") {
                    if ts.is_some() {
                        return None;
                    }
                    match parse_i64_at(v, j4) {
                        None => {
                            return None;
                        },
                        Some((tv, j5)) => {
                            ts = Some(tv);
                            value_end = j5;
                        },
                    }
                } else {
                    return None;
                }
                let j6 = skip_ws_at(v, value_end);
                if j6 < n && v[j6] == ',' {
                    j = j6 + 1;
                    allow_close = false;
                } else if j6 < n && v[j6] == '}' {
                    if sender.is_some() && ts.is_some() {
                        return Some(((sender.unwrap(), ts.unwrap()), j6 + 1));
                    }
                    return None;
                } else {
                    return None;
                }
            },
        }
    }
}

/// Reads a whole frame: one envelope object with nothing but whitespace
/// around it.
#[verifier::rlimit(90)]
pub fn parse_envelope(s: &str) -> (r: Result<WireMessage, DecodeError>)
    ensures
        match r {
            Ok(m) => spec_parse_envelope(s@) == Some(wire_view(m)),
            Err(e) => spec_parse_envelope(s@) is None,
        },
{
    let v = crate::text::str_to_chars(s);
    let n = v.len();
    let i0 = skip_ws_at(&v, 0);
    if i0 >= n || v[i0] != '{' {
        return Err(DecodeError);
    }
    let mut kind: Option<MessageType> = None;
    let mut payload: Option<String> = None;
    let mut channel: Option<String> = None;
    let mut meta: Option<(String, i64)> = None;
    let mut allow_close = true;
    let mut j = i0 + 1;
    loop
        invariant
            v@ == s@,
            n == v@.len(),
            i0 < n,
            v@[i0 as int] == '{',
            i0 as int == skip_ws(s@, 0),
            i0 + 1 <= j <= n,
            spec_env_members(v@, i0 + 1, true, None, None, None, None) == spec_env_members(
                v@,
                j as int,
                allow_close,
                kind,
                opt_str_view(payload),
                opt_str_view(channel),
                match meta {
                    Some(p) => Some((p.0@, p.1 as int)),
                    None => None,
                },
            ),
        decreases n - j,
    {
        let j1 = skip_ws_at(&v, j);
        if allow_close && j1 < n && v[j1] == '}' {
            return finish_envelope(Ghost(s@), &v, kind, payload, channel, meta, j1 + 1);
        }
        match parse_string_at(&v, j1) {
            None => {
                return Err(DecodeError);
            },
            Some((key_chars, j2)) => {
                let j3 = skip_ws_at(&v, j2);
                if j3 >= n || v[j3] != ':' {
                    return Err(DecodeError);
                }
                let j4 = skip_ws_at(&v, j3 + 1);
                let key = chars_to_string(&key_chars);
                let mut value_end: usize = 0;
                if crate::text::str_eq(key.as_str(), "type") {
                    if kind.is_some() {
                        return Err(DecodeError);
                    }
                    match parse_string_at(&v, j4) {
                        None => {
                            return Err(DecodeError);
                        },
                        Some((tv, j5)) => {
                            let tag = chars_to_string(&tv);
                            if crate::text::str_eq(tag.as_str(), "MSG") {
                                kind = Some(MessageType::Message);
                            } else if crate::text::str_eq(tag.as_str(), "AUTH") {
                                kind = Some(MessageType::Auth);
                            } else if crate::text::str_eq(tag.as_str(), "SYS") {
                                kind = Some(MessageType::System);
                            } else {
                                return Err(DecodeError);
                            }
                            value_end = j5;
                        },
                    }
                } else if crate::text::str_eq(key.as_str(), "payload") {
                    if payload.is_some() {
                        return Err(DecodeError);
                    }
                    match parse_string_at(&v, j4) {
                        None => {
                            return Err(DecodeError);
                        },
                        Some((sv, j5)) => {
                            payload = Some(chars_to_string(&sv));
                            value_end = j5;
                        },
                    }
                } else if crate::text::str_eq(key.as_str(), "channel") {
                    if channel.is_some() {
                        return Err(DecodeError);
                    }
                    match parse_string_at(&v, j4) {
                        None => {
                            return Err(DecodeError);
                        },
                        Some((sv, j5)) => {
                            channel = Some(chars_to_string(&sv));
                            value_end = j5;
                        },
                    }
                } else if crate::text::str_eq(key.as_str(), "meta") {
                    if meta.is_some() {
                        return Err(DecodeError);
                    }
                    match parse_meta_at(&v, j4) {
                        None => {
                            return Err(DecodeError);
                        },
                        Some((mv, j5)) => {
                            meta = Some(mv);
                            value_end = j5;
                        },
                    }
                } else {
                    return Err(DecodeError);
                }
                let j6 = skip_ws_at(&v, value_end);
                if j6 < n && v[j6] == ',' {
                    j = j6 + 1;
                    allow_close = false;
                } else if j6 < n && v[j6] == '}' {
                    return finish_envelope(Ghost(s@), &v, kind, payload, channel, meta, j6 + 1);
                } else {
                    return Err(DecodeError);
                }
            },
        }
    }
}

spec fn pow10(k: nat) -> int
    decreases k,
{
    if k == 0 {
        1int
    } else {
        10 * pow10((k - 1) as nat)
    }
}

/// The number a run of digit characters denotes.
spec fn run_val(s: Seq<char>) -> int
    decreases s.len(),
{
    if s.len() == 0 {
        0int
    } else {
        run_val(s.drop_last()) * 10 + digit_val(s.last())
    }
}

spec fn all_digits(s: Seq<char>) -> bool {
    forall|k: int| 0 <= k < s.len() ==> is_digit(#[trigger] s[k])
}

proof fn lemma_digit_char_val(d: int)
    requires
        0 <= d < 10,
    ensures
        is_digit(crate::text::digit_char(d)),
        digit_val(crate::text::digit_char(d)) == d,
{
}

proof fn lemma_run_val_cons(s: Seq<char>)
    requires
        s.len() >= 1,
    ensures
        run_val(s) == digit_val(s[0]) * pow10((s.len() - 1) as nat) + run_val(s.drop_first()),
    decreases s.len(),
{
    if s.len() == 1 {
        assert(s.drop_last() =~= Seq::<char>::empty());
        assert(s.drop_first() =~= Seq::<char>::empty());
        assert(s.last() == s[0]);
        assert(pow10(0) == 1);
        assert(run_val(Seq::<char>::empty()) == 0);
    } else {
        let t = s.drop_last();
        lemma_run_val_cons(t);
        assert(s.drop_first().drop_last() =~= t.drop_first());
        assert(s.drop_first().last() == s.last());
        assert(t[0] == s[0]);
        let d0 = digit_val(s[0]);
        let p = pow10((t.len() - 1) as nat);
        assert(pow10((s.len() - 1) as nat) == 10 * p);
        assert((d0 * p + run_val(t.drop_first())) * 10 == d0 * (10 * p) + run_val(
            t.drop_first(),
        ) * 10) by (nonlinear_arith);
        assert(run_val(s.drop_first()) == run_val(t.drop_first()) * 10 + digit_val(s.last()));
        assert(d0 * (10 * p) == d0 * pow10((s.len() - 1) as nat));
    }
}

proof fn lemma_parse_digit_run(v: Seq<char>, i: int, s: Seq<char>, acc: int)
    requires
        0 <= i,
        i + s.len() <= v.len(),
        s.len() >= 1,
        all_digits(s),
        forall|k: int| 0 <= k < s.len() ==> v[i + k] == s[k],
        i + s.len() == v.len() || !is_digit(v[i + s.len()]),
    ensures
        spec_parse_digits(v, i, acc) == (acc * pow10(s.len() as nat) + run_val(s), i + s.len()),
    decreases s.len(),
{
    assert(v[i + 0] == s[0]);
    assert(is_digit(s[0]));
    let d0 = digit_val(s[0]);
    if s.len() == 1 {
        assert(spec_parse_digits(v, i + 1, acc * 10 + d0) == (acc * 10 + d0, i + 1));
        assert(s.drop_last() =~= Seq::<char>::empty());
        assert(s.last() == s[0]);
        assert(run_val(Seq::<char>::empty()) == 0);
        assert(pow10(0) == 1);
        assert(pow10(1) == 10);
    } else {
        let s1 = s.drop_first();
        assert(forall|k: int| 0 <= k < s1.len() ==> v[(i + 1) + k] == #[trigger] s1[k]) by {
            assert(forall|k: int| 0 <= k < s1.len() ==> #[trigger] s1[k] == s[k + 1]);
        };
        assert(all_digits(s1)) by {
            assert(forall|k: int| 0 <= k < s1.len() ==> #[trigger] s1[k] == s[k + 1]);
        };
        lemma_parse_digit_run(v, i + 1, s1, acc * 10 + d0);
        lemma_run_val_cons(s);
        let p = pow10(s1.len() as nat);
        assert(pow10(s.len() as nat) == 10 * p);
        assert((acc * 10 + d0) * p == acc * (10 * p) + d0 * p) by (nonlinear_arith);
    }
}

proof fn lemma_dec_rep_digits(n: nat)
    ensures
        all_digits(crate::text::dec_rep(n)),
        crate::text::dec_rep(n).len() >= 1,
        run_val(crate::text::dec_rep(n)) == n,
    decreases n,
{
    let s = crate::text::dec_rep(n);
    if n < 10 {
        lemma_digit_char_val(n as int);
        assert(s.drop_last() =~= Seq::<char>::empty());
        assert(s.last() == s[0]);
        assert(run_val(Seq::<char>::empty()) == 0);
    } else {
        lemma_dec_rep_digits(n / 10);
        lemma_digit_char_val((n % 10) as int);
        let t = crate::text::dec_rep(n / 10);
        assert(s == t.push(crate::text::digit_char((n % 10) as int)));
        assert(s.drop_last() =~= t);
        assert(s.last() == crate::text::digit_char((n % 10) as int));
        assert(all_digits(s)) by {
            assert(forall|k: int| 0 <= k < t.len() ==> #[trigger] s[k] == t[k]);
        };
        assert(run_val(s) == (n / 10) * 10 + (n % 10));
    }
}

/// A rendered integer, followed by anything that is not a digit, reads back
/// as itself.
proof fn lemma_parse_i64_of_rep(v: Seq<char>, i: int, t: i64)
    requires
        0 <= i,
        i + crate::text::dec_rep_signed(t as int).len() <= v.len(),
        forall|k: int|
            0 <= k < crate::text::dec_rep_signed(t as int).len() ==> v[i + k]
                == crate::text::dec_rep_signed(t as int)[k],
        i + crate::text::dec_rep_signed(t as int).len() == v.len() || !is_digit(
            v[i + crate::text::dec_rep_signed(t as int).len()],
        ),
    ensures
        spec_parse_i64(v, i) == Some(
            (t as int, i + crate::text::dec_rep_signed(t as int).len()),
        ),
{
    let rep = crate::text::dec_rep_signed(t as int);
    if t >= 0 {
        let s = crate::text::dec_rep(t as nat);
        assert(rep == s);
        lemma_dec_rep_digits(t as nat);
        assert(v[i + 0] == s[0]);
        assert(is_digit(s[0]));
        assert(v[i] != '-') by {
            assert(48 <= (s[0] as u32) <= 57);
            if s[0] == '-' {
                assert(('-' as u32) == 45);
            }
        };
        lemma_parse_digit_run(v, i, s, 0);
    } else {
        let mag = (-(t as int)) as nat;
        let s = crate::text::dec_rep(mag);
        assert(rep == seq!['-'] + s);
        assert(v[i + 0] == rep[0]);
        assert(rep[0] == '-');
        lemma_dec_rep_digits(mag);
        assert(forall|k: int| 0 <= k < s.len() ==> v[(i + 1) + k] == #[trigger] s[k]) by {
            assert(forall|k: int| 0 <= k < s.len() ==> #[trigger] s[k] == rep[k + 1]);
        };
        assert(v[i + 1] == s[0]);
        assert(is_digit(v[i + 1]));
        lemma_parse_digit_run(v, i + 1, s, 0);
    }
}

proof fn lemma_hex_val_hex_char(d: int)
    requires
        0 <= d < 16,
    ensures
        hex_val(hex_char(d)) == d,
{
}

/// An escaped string followed by its closing quote reads back as the
/// original characters.
proof fn lemma_parse_escaped_string(v: Seq<char>, i: int, p: Seq<char>)
    requires
        0 <= i,
        i + json_escaped(p).len() + 1 <= v.len(),
        forall|k: int| 0 <= k < json_escaped(p).len() ==> v[i + k] == json_escaped(p)[k],
        v[i + json_escaped(p).len()] == '"',
    ensures
        spec_parse_string_body(v, i) == Some((p, i + json_escaped(p).len() + 1)),
    decreases p.len(),
{
    if p.len() == 0 {
        assert(json_escaped(p).len() == 0);
        assert(v[i + 0] == '"');
        assert(spec_parse_string_body(v, i) == Some((Seq::<char>::empty(), i + 1)));
        assert(p =~= Seq::<char>::empty());
    } else {
        let c = p[0];
        let e = escape_char(c);
        let rest = json_escaped(p.drop_first());
        assert(json_escaped(p) == e + rest);
        assert(e.len() >= 1);
        assert(forall|k: int|
            0 <= k < e.len() ==> v[i + k] == #[trigger] e[k]) by {
            assert(forall|k: int| 0 <= k < e.len() ==> (e + rest)[k] == #[trigger] e[k]);
        };
        assert(forall|k: int|
            0 <= k < rest.len() ==> v[i + e.len() + k] == #[trigger] rest[k]) by {
            assert(forall|k: int|
                0 <= k < rest.len() ==> (e + rest)[e.len() + k] == #[trigger] rest[k]);
        };
        assert(v[i + e.len() + rest.len()] == '"');
        lemma_parse_escaped_string(v, i + e.len(), p.drop_first());
        let tail = spec_parse_string_body(v, i + e.len());
        assert(tail == Some((p.drop_first(), i + json_escaped(p).len() + 1)));
        assert(seq![c] + p.drop_first() =~= p);
        if c == '"' {
            assert(v[i + 0] == '\\' && v[i + 1] == '"');
            assert(short_escape(v[i + 1]) == Some('"'));
            assert(spec_parse_string_body(v, i) == cons_char('"', tail));
        } else if c == '\\' {
            assert(v[i + 0] == '\\' && v[i + 1] == '\\');
            assert(short_escape(v[i + 1]) == Some('\\'));
            assert(spec_parse_string_body(v, i) == cons_char('\\', tail));
        } else if c == '\n' {
            assert(v[i + 0] == '\\' && v[i + 1] == 'n');
            assert(short_escape(v[i + 1]) == Some('\n'));
            assert(spec_parse_string_body(v, i) == cons_char('\n', tail));
        } else if c == '\r' {
            assert(v[i + 0] == '\\' && v[i + 1] == 'r');
            assert(short_escape(v[i + 1]) == Some('\r'));
            assert(spec_parse_string_body(v, i) == cons_char('\r', tail));
        } else if c == '\t' {
            assert(v[i + 0] == '\\' && v[i + 1] == 't');
            assert(short_escape(v[i + 1]) == Some('\t'));
            assert(spec_parse_string_body(v, i) == cons_char('\t', tail));
        } else if (c as u32) < 0x20 {
            assert(v[i + 0] == '\\' && v[i + 1] == 'u');
            assert(v[i + 2] == '0' && v[i + 3] == '0');
            assert(v[i + 4] == hex_char(c as u32 as int / 16));
            assert(v[i + 5] == hex_char(c as u32 as int % 16));
            assert(hex_val('0') == 0);
            lemma_hex_val_hex_char(c as u32 as int / 16);
            lemma_hex_val_hex_char(c as u32 as int % 16);
            let h = hex_val(v[i + 2]) * 4096 + hex_val(v[i + 3]) * 256 + hex_val(v[i + 4]) * 16
                + hex_val(v[i + 5]);
            assert(h == c as u32);
            vstd::utf8::char_u32_cast(c, c as u32);
            assert(((h as u32) as char) == c);
            assert(spec_parse_string_body(v, i) == cons_char(c, tail));
        } else {
            assert(e == seq![c]);
            assert(v[i + 0] == c);
            assert(c != '"' && c != '\\' && !((c as u32) < 0x20));
            assert(spec_parse_string_body(v, i) == cons_char(c, tail));
        }
    }
}

/// A string of ordinary characters is its own escaped form.
proof fn lemma_json_escaped_plain(s: Seq<char>)
    requires
        forall|k: int|
            0 <= k < s.len() ==> (#[trigger] s[k]) != '"' && s[k] != '\\' && (s[k] as u32)
                >= 0x20,
    ensures
        json_escaped(s) == s,
    decreases s.len(),
{
    if s.len() > 0 {
        assert(escape_char(s[0]) == seq![s[0]]);
        assert(forall|k: int|
            0 <= k < s.drop_first().len() ==> #[trigger] s.drop_first()[k] == s[k + 1]);
        lemma_json_escaped_plain(s.drop_first());
        assert(json_escaped(s) =~= s);
    }
}

/// The `meta` object the encoder writes reads back as its sender and
/// timestamp.
#[verifier::rlimit(90)]
proof fn lemma_parse_meta_of_encode(v: Seq<char>, i: int, sender: Seq<char>, t: i64)
    requires
        0 <= i,
        ({
            let es = json_escaped(sender);
            let q = i + 11 + es.len();
            let dt = crate::text::dec_rep_signed(t as int);
            &&& q + 14 + dt.len() + 1 <= v.len()
            &&& v[i] == '{'
            &&& v[i + 1] == '"'
            &&& (forall|k: int| 0 <= k < 6 ==> v[i + 2 + k] == "sender"@[k])
            &&& v[i + 8] == '"'
            &&& v[i + 9] == ':'
            &&& v[i + 10] == '"'
            &&& (forall|k: int| 0 <= k < es.len() ==> v[i + 11 + k] == es[k])
            &&& v[q] == '"'
            &&& v[q + 1] == ','
            &&& v[q + 2] == '"'
            &&& (forall|k: int| 0 <= k < 9 ==> v[q + 3 + k] == "timestamp"@[k])
            &&& v[q + 12] == '"'
            &&& v[q + 13] == ':'
            &&& (forall|k: int| 0 <= k < dt.len() ==> v[q + 14 + k] == dt[k])
            &&& v[q + 14 + dt.len()] == '}'
        }),
    ensures
        ({
            let es = json_escaped(sender);
            let q = i + 11 + es.len();
            let dt = crate::text::dec_rep_signed(t as int);
            spec_parse_meta(v, i) == Some(((sender, t as int), q + 14 + dt.len() + 1))
        }),
{
    reveal_strlit("sender");
    reveal_strlit("timestamp");
    let es = json_escaped(sender);
    let q = i + 11 + es.len();
    let dt = crate::text::dec_rep_signed(t as int);
    // the sender member
    assert(skip_ws(v, i + 1) == i + 1);
    assert(json_escaped("sender"@) == "sender"@) by {
        lemma_json_escaped_plain("sender"@);
    };
    lemma_parse_escaped_string(v, i + 2, "sender"@);
    assert(spec_parse_string(v, i + 1) == Some(("sender"@, i + 9)));
    assert(skip_ws(v, i + 9) == i + 9);
    assert(skip_ws(v, i + 10) == i + 10);
    lemma_parse_escaped_string(v, i + 11, sender);
    assert(spec_parse_string(v, i + 10) == Some((sender, q + 1)));
    assert("sender"@ != "timestamp"@);
    assert(spec_meta_members(v, i + 1, true, None, None) == spec_meta_after(
        v,
        q + 1,
        Some(sender),
        None,
    ));
    // the comma, then the timestamp member
    assert(skip_ws(v, q + 1) == q + 1);
    assert(spec_meta_after(v, q + 1, Some(sender), None) == spec_meta_members(
        v,
        q + 2,
        false,
        Some(sender),
        None,
    ));
    assert(skip_ws(v, q + 2) == q + 2);
    assert(json_escaped("timestamp"@) == "timestamp"@) by {
        lemma_json_escaped_plain("timestamp"@);
    };
    lemma_parse_escaped_string(v, q + 3, "timestamp"@);
    assert(spec_parse_string(v, q + 2) == Some(("timestamp"@, q + 13)));
    assert(skip_ws(v, q + 13) == q + 13);
    assert(skip_ws(v, q + 14) == q + 14) by {
        assert(v[q + 14] == dt[0]);
        if t >= 0 {
            lemma_dec_rep_digits(t as nat);
            assert(is_digit(dt[0]));
        } else {
            assert(dt[0] == '-');
        }
    };
    lemma_parse_i64_of_rep(v, q + 14, t);
    assert(!is_digit('}')) by {
        assert(('}' as u32) == 125);
    };
    assert(spec_meta_members(v, q + 2, false, Some(sender), None) == spec_meta_after(
        v,
        q + 14 + dt.len(),
        Some(sender),
        Some(t as int),
    ));
    // the closing brace
    assert(skip_ws(v, q + 14 + dt.len()) == q + 14 + dt.len());
    assert(spec_meta_after(v, q + 14 + dt.len(), Some(sender), Some(t as int)) == Some(
        ((sender, t as int), q + 14 + dt.len() + 1),
    ));
}

/// What the encoder writes, the parser reads back unchanged: round trip.
#[verifier::rlimit(90)]
#[verifier::spinoff_prover]
pub proof fn lemma_parse_undoes_encode(m: WireMessage)
    ensures
        spec_parse_envelope(envelope_json(m)) == Some(wire_view(m)),
{
    reveal_strlit("{\"type\":\"");
    reveal_strlit("\",\"payload\":\"");
    reveal_strlit("\",\"channel\":\"");
    reveal_strlit("\",\"meta\":{\"sender\":\"");
    reveal_strlit("\",\"timestamp\":");
    reveal_strlit("}}");
    reveal_strlit("type");
    reveal_strlit("payload");
    reveal_strlit("channel");
    reveal_strlit("meta");
    reveal_strlit("MSG");
    reveal_strlit("AUTH");
    reveal_strlit("SYS");
    let v = envelope_json(m);
    let l1 = "{\"type\":\""@;
    let tag = kind_tag(m.msg_type);
    let l2 = "\",\"payload\":\""@;
    let ep = json_escaped(m.payload@);
    let l3 = "\",\"channel\":\""@;
    let ec = json_escaped(m.channel@);
    let l4 = "\",\"meta\":{\"sender\":\""@;
    let es = json_escaped(m.meta.sender@);
    let l5 = "\",\"timestamp\":"@;
    let dt = dec_rep_signed(m.meta.timestamp as int);
    let l6 = "}}"@;
    assert(v == l1 + tag + l2 + ep + l3 + ec + l4 + es + l5 + dt + l6);
    assert(l1.len() == 9 && l2.len() == 13 && l3.len() == 13 && l4.len() == 20 && l5.len() == 14
        && l6.len() == 2);
    let o2 = 9 + tag.len() as int;
    let o3 = o2 + 13;
    let o4 = o3 + ep.len() as int;
    let o6 = o4 + 13 + ec.len() as int;
    assert(v.len() == o6 + 20 + es.len() + 14 + dt.len() + 2);
    // where each piece of the encoding sits
    assert(forall|k: int| 0 <= k < 9 ==> v[k] == l1[k]);
    assert(forall|k: int| 0 <= k < tag.len() ==> #[trigger] v[9 + k] == tag[k]);
    assert(forall|k: int| 0 <= k < 13 ==> v[o2 + k] == l2[k]);
    assert(forall|k: int| 0 <= k < ep.len() ==> #[trigger] v[o3 + k] == ep[k]);
    assert(forall|k: int| 0 <= k < 13 ==> v[o4 + k] == l3[k]);
    assert(forall|k: int| 0 <= k < ec.len() ==> #[trigger] v[o4 + 13 + k] == ec[k]);
    assert(forall|k: int| 0 <= k < 20 ==> v[o6 + k] == l4[k]);
    assert(forall|k: int| 0 <= k < es.len() ==> v[o6 + 20 + k] == es[k]);
    assert(forall|k: int| 0 <= k < 14 ==> v[o6 + 20 + es.len() + k] == l5[k]);
    assert(forall|k: int| 0 <= k < dt.len() ==> v[o6 + 20 + es.len() + 14 + k] == dt[k]);
    assert(forall|k: int| 0 <= k < 2 ==> v[o6 + 20 + es.len() + 14 + dt.len() + k] == l6[k]);
    lemma_parse_undoes_encode_members(
        m,
        v,
        tag,
        ep,
        ec,
        es,
        dt,
        o2,
        o3,
        o4,
        o6,
        o6 + 20 + es.len() as int,
        o6 + 20 + es.len() + 14 + dt.len() as int,
    );
}

/// The first half of the member walk: the type and payload members.
#[verifier::rlimit(90)]
#[verifier::spinoff_prover]
proof fn lemma_parse_undoes_encode_front(
    m: WireMessage,
    v: Seq<char>,
    tag: Seq<char>,
    ep: Seq<char>,
    ec: Seq<char>,
    es: Seq<char>,
    dt: Seq<char>,
    o2: int,
    o3: int,
    o4: int,
    o6: int,
    o8: int,
    o10: int,
)
    requires
        tag == kind_tag(m.msg_type),
        ep == json_escaped(m.payload@),
        ec == json_escaped(m.channel@),
        es == json_escaped(m.meta.sender@),
        dt == dec_rep_signed(m.meta.timestamp as int),
        o2 == 9 + tag.len(),
        o3 == o2 + 13,
        o4 == o3 + ep.len(),
        o6 == o4 + 13 + ec.len(),
        o8 == o6 + 20 + es.len(),
        o10 == o8 + 14 + dt.len(),
        v.len() == o10 + 2,
        forall|k: int| 0 <= k < 9 ==> #[trigger] v[k] == "{\"type\":\""@[k],
        forall|k: int| 0 <= k < tag.len() ==> #[trigger] v[9 + k] == tag[k],
        forall|k: int| 0 <= k < 13 ==> #[trigger] v[o2 + k] == "\",\"payload\":\""@[k],
        forall|k: int| 0 <= k < ep.len() ==> #[trigger] v[o3 + k] == ep[k],
        forall|k: int| 0 <= k < 13 ==> #[trigger] v[o4 + k] == "\",\"channel\":\""@[k],
        forall|k: int| 0 <= k < ec.len() ==> #[trigger] v[o4 + 13 + k] == ec[k],
        forall|k: int| 0 <= k < 20 ==> #[trigger] v[o6 + k] == "\",\"meta\":{\"sender\":\""@[k],
        forall|k: int| 0 <= k < es.len() ==> #[trigger] v[o6 + 20 + k] == es[k],
        forall|k: int| 0 <= k < 14 ==> #[trigger] v[o8 + k] == "\",\"timestamp\":"@[k],
        forall|k: int| 0 <= k < dt.len() ==> #[trigger] v[o8 + 14 + k] == dt[k],
        forall|k: int| 0 <= k < 2 ==> #[trigger] v[o10 + k] == "}}"@[k],
    ensures
        spec_env_members(v, 1, true, None, None, None, None) == spec_env_after(
            v,
            o4 + 1,
            Some(m.msg_type),
            Some(m.payload@),
            None,
            None,
        ),
{
    reveal_strlit("{\"type\":\"");
    reveal_strlit("\",\"payload\":\"");
    reveal_strlit("\",\"channel\":\"");
    reveal_strlit("\",\"meta\":{\"sender\":\"");
    reveal_strlit("\",\"timestamp\":");
    reveal_strlit("}}");
    reveal_strlit("type");
    reveal_strlit("payload");
    reveal_strlit("channel");
    reveal_strlit("meta");
    reveal_strlit("MSG");
    reveal_strlit("AUTH");
    reveal_strlit("SYS");
    // the opening brace, then the type member
    assert(v[0] == '{');
    assert(skip_ws(v, 0) == 0);
    assert(skip_ws(v, 1) == 1);
    assert(v[1] == '"');
    assert(json_escaped("type"@) == "type"@) by {
        lemma_json_escaped_plain("type"@);
    };
    assert(forall|k: int| 0 <= k < 4 ==> v[2 + k] == "type"@[k]);
    assert(v[6] == '"');
    lemma_parse_escaped_string(v, 2, "type"@);
    assert(spec_parse_string(v, 1) == Some(("type"@, 7int)));
    assert(skip_ws(v, 7) == 7);
    assert(v[7] == ':');
    assert(skip_ws(v, 8) == 8);
    assert(v[8] == '"');
    assert(json_escaped(tag) == tag) by {
        match m.msg_type {
            MessageType::Message => lemma_json_escaped_plain("MSG"@),
            MessageType::Auth => lemma_json_escaped_plain("AUTH"@),
            MessageType::System => lemma_json_escaped_plain("SYS"@),
        }
    };
    assert(v[o2 + 0] == '"');
    lemma_parse_escaped_string(v, 9, tag);
    assert(spec_parse_string(v, 8) == Some((tag, o2 + 1)));
    assert(kind_of_tag(tag) == Some(m.msg_type));
    assert(spec_env_members(v, 1, true, None, None, None, None) == spec_env_after(
        v,
        o2 + 1,
        Some(m.msg_type),
        None,
        None,
        None,
    ));
    // the payload member
    let kind = Some(m.msg_type);
    assert(skip_ws(v, o2 + 1) == o2 + 1);
    assert(v[o2 + 1] == ',');
    assert(spec_env_after(v, o2 + 1, kind, None, None, None) == spec_env_members(
        v,
        o2 + 2,
        false,
        kind,
        None,
        None,
        None,
    ));
    assert(skip_ws(v, o2 + 2) == o2 + 2);
    assert(v[o2 + 2] == '"');
    assert(json_escaped("payload"@) == "payload"@) by {
        lemma_json_escaped_plain("payload"@);
    };
    assert forall|k: int| 0 <= k < 7 implies v[o2 + 3 + k] == "payload"@[k] by {
        assert(v[o2 + (3 + k)] == "\",\"payload\":\""@[3 + k]);
    }
    assert(v[o2 + 10] == '"');
    lemma_parse_escaped_string(v, o2 + 3, "payload"@);
    assert(spec_parse_string(v, o2 + 2) == Some(("payload"@, o2 + 11)));
    assert(skip_ws(v, o2 + 11) == o2 + 11);
    assert(v[o2 + 11] == ':');
    assert(skip_ws(v, o2 + 12) == o2 + 12);
    assert(v[o2 + 12] == '"');
    assert(v[o4 + 0] == '"');
    lemma_parse_escaped_string(v, o3, m.payload@);
    assert(spec_parse_string(v, o2 + 12) == Some((m.payload@, o4 + 1)));
    assert("payload"@ != "type"@);
    let payload = Some(m.payload@);
    assert(spec_env_members(v, o2 + 2, false, kind, None, None, None) == spec_env_after(
        v,
        o4 + 1,
        kind,
        payload,
        None,
        None,
    ));
}

/// The channel member of the walk.
#[verifier::rlimit(90)]
#[verifier::spinoff_prover]
proof fn lemma_parse_undoes_encode_mid(
    m: WireMessage,
    v: Seq<char>,
    tag: Seq<char>,
    ep: Seq<char>,
    ec: Seq<char>,
    es: Seq<char>,
    dt: Seq<char>,
    o2: int,
    o3: int,
    o4: int,
    o6: int,
    o8: int,
    o10: int,
)
    requires
        tag == kind_tag(m.msg_type),
        ep == json_escaped(m.payload@),
        ec == json_escaped(m.channel@),
        es == json_escaped(m.meta.sender@),
        dt == dec_rep_signed(m.meta.timestamp as int),
        o2 == 9 + tag.len(),
        o3 == o2 + 13,
        o4 == o3 + ep.len(),
        o6 == o4 + 13 + ec.len(),
        o8 == o6 + 20 + es.len(),
        o10 == o8 + 14 + dt.len(),
        v.len() == o10 + 2,
        forall|k: int| 0 <= k < 9 ==> #[trigger] v[k] == "{\"type\":\""@[k],
        forall|k: int| 0 <= k < tag.len() ==> #[trigger] v[9 + k] == tag[k],
        forall|k: int| 0 <= k < 13 ==> #[trigger] v[o2 + k] == "\",\"payload\":\""@[k],
        forall|k: int| 0 <= k < ep.len() ==> #[trigger] v[o3 + k] == ep[k],
        forall|k: int| 0 <= k < 13 ==> #[trigger] v[o4 + k] == "\",\"channel\":\""@[k],
        forall|k: int| 0 <= k < ec.len() ==> #[trigger] v[o4 + 13 + k] == ec[k],
        forall|k: int| 0 <= k < 20 ==> #[trigger] v[o6 + k] == "\",\"meta\":{\"sender\":\""@[k],
        forall|k: int| 0 <= k < es.len() ==> #[trigger] v[o6 + 20 + k] == es[k],
        forall|k: int| 0 <= k < 14 ==> #[trigger] v[o8 + k] == "\",\"timestamp\":"@[k],
        forall|k: int| 0 <= k < dt.len() ==> #[trigger] v[o8 + 14 + k] == dt[k],
        forall|k: int| 0 <= k < 2 ==> #[trigger] v[o10 + k] == "}}"@[k],
    ensures
        spec_env_after(v, o4 + 1, Some(m.msg_type), Some(m.payload@), None, None)
            == spec_env_after(
            v,
            o6 + 1,
            Some(m.msg_type),
            Some(m.payload@),
            Some(m.channel@),
            None,
        ),
{
    reveal_strlit("{\"type\":\"");
    reveal_strlit("\",\"payload\":\"");
    reveal_strlit("\",\"channel\":\"");
    reveal_strlit("\",\"meta\":{\"sender\":\"");
    reveal_strlit("\",\"timestamp\":");
    reveal_strlit("}}");
    reveal_strlit("type");
    reveal_strlit("payload");
    reveal_strlit("channel");
    reveal_strlit("meta");
    reveal_strlit("MSG");
    reveal_strlit("AUTH");
    reveal_strlit("SYS");
    let kind = Some(m.msg_type);
    let payload = Some(m.payload@);
    // the channel member
    assert(skip_ws(v, o4 + 1) == o4 + 1);
    assert(v[o4 + 1] == ',');
    assert(spec_env_after(v, o4 + 1, kind, payload, None, None) == spec_env_members(
        v,
        o4 + 2,
        false,
        kind,
        payload,
        None,
        None,
    ));
    assert(skip_ws(v, o4 + 2) == o4 + 2);
    assert(v[o4 + 2] == '"');
    assert(json_escaped("channel"@) == "channel"@) by {
        lemma_json_escaped_plain("channel"@);
    };
    assert forall|k: int| 0 <= k < 7 implies v[o4 + 3 + k] == "channel"@[k] by {
        assert(v[o4 + (3 + k)] == "\",\"channel\":\""@[3 + k]);
    }
    assert(v[o4 + 10] == '"');
    lemma_parse_escaped_string(v, o4 + 3, "channel"@);
    assert(spec_parse_string(v, o4 + 2) == Some(("channel"@, o4 + 11)));
    assert(skip_ws(v, o4 + 11) == o4 + 11);
    assert(v[o4 + 11] == ':');
    assert(skip_ws(v, o4 + 12) == o4 + 12);
    assert(v[o4 + 12] == '"');
    assert(v[o6 + 0] == '"');
    lemma_parse_escaped_string(v, o4 + 13, m.channel@);
    assert(spec_parse_string(v, o4 + 12) == Some((m.channel@, o6 + 1)));
    assert("channel"@ != "type"@ && "channel"@ != "payload"@);
    let channel = Some(m.channel@);
    assert(spec_env_members(v, o4 + 2, false, kind, payload, None, None) == spec_env_after(
        v,
        o6 + 1,
        kind,
        payload,
        channel,
        None,
    ));
}

/// The meta member of the walk, and the closing brace.
#[verifier::rlimit(90)]
#[verifier::spinoff_prover]
proof fn lemma_parse_undoes_encode_tail(
    m: WireMessage,
    v: Seq<char>,
    tag: Seq<char>,
    ep: Seq<char>,
    ec: Seq<char>,
    es: Seq<char>,
    dt: Seq<char>,
    o2: int,
    o3: int,
    o4: int,
    o6: int,
    o8: int,
    o10: int,
)
    requires
        tag == kind_tag(m.msg_type),
        ep == json_escaped(m.payload@),
        ec == json_escaped(m.channel@),
        es == json_escaped(m.meta.sender@),
        dt == dec_rep_signed(m.meta.timestamp as int),
        o2 == 9 + tag.len(),
        o3 == o2 + 13,
        o4 == o3 + ep.len(),
        o6 == o4 + 13 + ec.len(),
        o8 == o6 + 20 + es.len(),
        o10 == o8 + 14 + dt.len(),
        v.len() == o10 + 2,
        forall|k: int| 0 <= k < 9 ==> #[trigger] v[k] == "{\"type\":\""@[k],
        forall|k: int| 0 <= k < tag.len() ==> #[trigger] v[9 + k] == tag[k],
        forall|k: int| 0 <= k < 13 ==> #[trigger] v[o2 + k] == "\",\"payload\":\""@[k],
        forall|k: int| 0 <= k < ep.len() ==> #[trigger] v[o3 + k] == ep[k],
        forall|k: int| 0 <= k < 13 ==> #[trigger] v[o4 + k] == "\",\"channel\":\""@[k],
        forall|k: int| 0 <= k < ec.len() ==> #[trigger] v[o4 + 13 + k] == ec[k],
        forall|k: int| 0 <= k < 20 ==> #[trigger] v[o6 + k] == "\",\"meta\":{\"sender\":\""@[k],
        forall|k: int| 0 <= k < es.len() ==> #[trigger] v[o6 + 20 + k] == es[k],
        forall|k: int| 0 <= k < 14 ==> #[trigger] v[o8 + k] == "\",\"timestamp\":"@[k],
        forall|k: int| 0 <= k < dt.len() ==> #[trigger] v[o8 + 14 + k] == dt[k],
        forall|k: int| 0 <= k < 2 ==> #[trigger] v[o10 + k] == "}}"@[k],
    ensures
        spec_env_after(v, o6 + 1, Some(m.msg_type), Some(m.payload@), Some(m.channel@), None)
            == Some((wire_view(m), o10 + 2)),
{
    reveal_strlit("{\"type\":\"");
    reveal_strlit("\",\"payload\":\"");
    reveal_strlit("\",\"channel\":\"");
    reveal_strlit("\",\"meta\":{\"sender\":\"");
    reveal_strlit("\",\"timestamp\":");
    reveal_strlit("}}");
    reveal_strlit("type");
    reveal_strlit("payload");
    reveal_strlit("channel");
    reveal_strlit("meta");
    reveal_strlit("MSG");
    reveal_strlit("AUTH");
    reveal_strlit("SYS");
    reveal_strlit("sender");
    reveal_strlit("timestamp");
    let kind = Some(m.msg_type);
    let payload = Some(m.payload@);
    let channel = Some(m.channel@);
    // the meta member
    assert(skip_ws(v, o6 + 1) == o6 + 1);
    assert(v[o6 + 1] == ',');
    assert(spec_env_after(v, o6 + 1, kind, payload, channel, None) == spec_env_members(
        v,
        o6 + 2,
        false,
        kind,
        payload,
        channel,
        None,
    ));
    assert(skip_ws(v, o6 + 2) == o6 + 2);
    assert(v[o6 + 2] == '"');
    assert(json_escaped("meta"@) == "meta"@) by {
        lemma_json_escaped_plain("meta"@);
    };
    assert forall|k: int| 0 <= k < 4 implies v[o6 + 3 + k] == "meta"@[k] by {
        assert(v[o6 + (3 + k)] == "\",\"meta\":{\"sender\":\""@[3 + k]);
    }
    assert(v[o6 + 7] == '"');
    lemma_parse_escaped_string(v, o6 + 3, "meta"@);
    assert(spec_parse_string(v, o6 + 2) == Some(("meta"@, o6 + 8)));
    assert(skip_ws(v, o6 + 8) == o6 + 8);
    assert(v[o6 + 8] == ':');
    assert(skip_ws(v, o6 + 9) == o6 + 9);
    assert(v[o6 + 9] == '{');
    assert("meta"@ != "type"@ && "meta"@ != "payload"@ && "meta"@ != "channel"@);
    assert(v[o6 + 10] == '"');
    assert forall|k: int| 0 <= k < 6 implies v[o6 + 9 + 2 + k] == "sender"@[k] by {
        assert(v[o6 + (11 + k)] == "\",\"meta\":{\"sender\":\""@[11 + k]);
    }
    assert(v[o6 + 17] == '"');
    assert(v[o6 + 18] == ':');
    assert(v[o6 + 19] == '"');
    assert forall|k: int| 0 <= k < 9 implies v[o8 + 3 + k] == "timestamp"@[k] by {
        assert(v[o8 + (3 + k)] == "\",\"timestamp\":"@[3 + k]);
    }
    assert(v[o8 + 0] == '"' && v[o8 + 1] == ',' && v[o8 + 2] == '"');
    assert(v[o8 + 12] == '"' && v[o8 + 13] == ':');
    assert(v[o10 + 0] == '}' && v[o10 + 1] == '}');
    lemma_parse_meta_of_encode(v, o6 + 9, m.meta.sender@, m.meta.timestamp);
    assert(spec_parse_meta(v, o6 + 9) == Some(
        ((m.meta.sender@, m.meta.timestamp as int), o10 + 1),
    ));
    let meta = Some((m.meta.sender@, m.meta.timestamp as int));
    assert(spec_env_members(v, o6 + 2, false, kind, payload, channel, None) == spec_env_after(
        v,
        o10 + 1,
        kind,
        payload,
        channel,
        meta,
    ));
    // the closing brace and the end of the frame
    assert(skip_ws(v, o10 + 1) == o10 + 1);
    assert(env_finish(kind, payload, channel, meta) == Some(wire_view(m)));
    assert(spec_env_after(v, o10 + 1, kind, payload, channel, meta) == Some(
        (wire_view(m), o10 + 2),
    ));
}



/// The member-by-member walk behind the round trip: each encoded member
/// parses back, in the order the encoder wrote them.
proof fn lemma_parse_undoes_encode_members(
    m: WireMessage,
    v: Seq<char>,
    tag: Seq<char>,
    ep: Seq<char>,
    ec: Seq<char>,
    es: Seq<char>,
    dt: Seq<char>,
    o2: int,
    o3: int,
    o4: int,
    o6: int,
    o8: int,
    o10: int,
)
    requires
        tag == kind_tag(m.msg_type),
        ep == json_escaped(m.payload@),
        ec == json_escaped(m.channel@),
        es == json_escaped(m.meta.sender@),
        dt == dec_rep_signed(m.meta.timestamp as int),
        o2 == 9 + tag.len(),
        o3 == o2 + 13,
        o4 == o3 + ep.len(),
        o6 == o4 + 13 + ec.len(),
        o8 == o6 + 20 + es.len(),
        o10 == o8 + 14 + dt.len(),
        v.len() == o10 + 2,
        forall|k: int| 0 <= k < 9 ==> #[trigger] v[k] == "{\"type\":\""@[k],
        forall|k: int| 0 <= k < tag.len() ==> #[trigger] v[9 + k] == tag[k],
        forall|k: int| 0 <= k < 13 ==> #[trigger] v[o2 + k] == "\",\"payload\":\""@[k],
        forall|k: int| 0 <= k < ep.len() ==> #[trigger] v[o3 + k] == ep[k],
        forall|k: int| 0 <= k < 13 ==> #[trigger] v[o4 + k] == "\",\"channel\":\""@[k],
        forall|k: int| 0 <= k < ec.len() ==> #[trigger] v[o4 + 13 + k] == ec[k],
        forall|k: int| 0 <= k < 20 ==> #[trigger] v[o6 + k] == "\",\"meta\":{\"sender\":\""@[k],
        forall|k: int| 0 <= k < es.len() ==> #[trigger] v[o6 + 20 + k] == es[k],
        forall|k: int| 0 <= k < 14 ==> #[trigger] v[o8 + k] == "\",\"timestamp\":"@[k],
        forall|k: int| 0 <= k < dt.len() ==> #[trigger] v[o8 + 14 + k] == dt[k],
        forall|k: int| 0 <= k < 2 ==> #[trigger] v[o10 + k] == "}}"@[k],
    ensures
        spec_parse_envelope(v) == Some(wire_view(m)),
{
    reveal_strlit("{\"type\":\"");
    reveal_strlit("\",\"payload\":\"");
    reveal_strlit("\",\"channel\":\"");
    reveal_strlit("\",\"meta\":{\"sender\":\"");
    reveal_strlit("\",\"timestamp\":");
    reveal_strlit("}}");
    reveal_strlit("type");
    reveal_strlit("payload");
    reveal_strlit("channel");
    reveal_strlit("meta");
    reveal_strlit("MSG");
    reveal_strlit("AUTH");
    reveal_strlit("SYS");
    lemma_parse_undoes_encode_front(m, v, tag, ep, ec, es, dt, o2, o3, o4, o6, o8, o10);
    lemma_parse_undoes_encode_mid(m, v, tag, ep, ec, es, dt, o2, o3, o4, o6, o8, o10);
    lemma_parse_undoes_encode_tail(m, v, tag, ep, ec, es, dt, o2, o3, o4, o6, o8, o10);
    assert(v[0] == '{');
    assert(skip_ws(v, 0) == 0);
    assert(skip_ws(v, o10 + 2) == o10 + 2);
    assert(spec_env_members(v, 1, true, None, None, None, None) == Some((wire_view(m), o10 + 2)));
    assert(spec_parse_envelope(v) == Some(wire_view(m)));
}

/// Assembles the envelope once its object closed at `end`, checking that
/// all required members arrived and only whitespace follows.
fn finish_envelope(
    text: Ghost<Seq<char>>,
    v: &Vec<char>,
    kind: Option<MessageType>,
    payload: Option<String>,
    channel: Option<String>,
    meta: Option<(String, i64)>,
    end: usize,
) -> (r: Result<WireMessage, DecodeError>)
    requires
        v@ == text@,
        end <= v@.len(),
        spec_parse_envelope(text@) == (match env_finish(
            kind,
            opt_str_view(payload),
            opt_str_view(channel),
            match meta {
                Some(p) => Some((p.0@, p.1 as int)),
                None => None,
            },
        ) {
            Some(d) => if skip_ws(text@, end as int) == text@.len() {
                Some(d)
            } else {
                None
            },
            None => None,
        }),
    ensures
        match r {
            Ok(m) => spec_parse_envelope(text@) == Some(wire_view(m)),
            Err(e) => spec_parse_envelope(text@) is None,
        },
{
    let trail = skip_ws_at(v, end);
    if trail != v.len() {
        return Err(DecodeError);
    }
    match (kind, payload, meta) {
        (Some(k), Some(p), Some(m)) => {
            let channel_s = match channel {
                Some(c) => c,
                None => crate::protocol::default_channel(),
            };
            let msg = WireMessage {
                msg_type: k,
                payload: p,
                channel: channel_s,
                meta: MessageMeta { sender: m.0, timestamp: m.1 },
            };
            Ok(msg)
        },
        _ => Err(DecodeError),
    }
}

/// Renders an envelope in its wire form.
pub fn encode_envelope(m: &WireMessage) -> (r: String)
    ensures
        r@ == envelope_json(*m),
{
    let mut out: Vec<char> = Vec::new();
    push_str_chars(&mut out, "{\"type\":\"");
    match &m.msg_type {
        MessageType::Message => push_str_chars(&mut out, "MSG"),
        MessageType::Auth => push_str_chars(&mut out, "AUTH"),
        MessageType::System => push_str_chars(&mut out, "SYS"),
    }
    push_str_chars(&mut out, "\",\"payload\":\"");
    push_escaped(&mut out, m.payload.as_str());
    push_str_chars(&mut out, "\",\"channel\":\"");
    push_escaped(&mut out, m.channel.as_str());
    push_str_chars(&mut out, "\",\"meta\":{\"sender\":\"");
    push_escaped(&mut out, m.meta.sender.as_str());
    push_str_chars(&mut out, "\",\"timestamp\":");
    push_dec_i64(&mut out, m.meta.timestamp);
    push_str_chars(&mut out, "}}");
    proof {
        assert(out@ =~= envelope_json(*m));
    }
    chars_to_string(&out)
}

} // verus!
