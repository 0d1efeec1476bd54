//! Verified text utilities shared by the protocol codec and the client state:
//! character/string conversions, lexicographic comparison, substring search,
//! and decimal rendering of integers.

use vstd::prelude::*;

verus! {

/// Relies on std's `String::push`: appends exactly the one character.
#[verifier::external_body]
pub fn push_char(s: &mut String, c: char)
    ensures
        final(s)@ == old(s)@.push(c),
{
    s.push(c);
}

/// The characters of `s`, as a vector.
pub fn str_to_chars(s: &str) -> (v: Vec<char>)
    ensures
        v@ == s@,
{
    let n = s.unicode_len();
    let mut v: Vec<char> = Vec::new();
    let mut i: usize = 0;
    while i < n
        invariant
            n == s@.len(),
            i <= n,
            v@ == s@.subrange(0, i as int),
        decreases n - i,
    {
        v.push(s.get_char(i));
        i = i + 1;
        assert(v@ =~= s@.subrange(0, i as int));
    }
    assert(v@ =~= s@);
    v
}

/// A string holding exactly the characters of `v`.
pub fn chars_to_string(v: &Vec<char>) -> (s: String)
    ensures
        s@ == v@,
{
    let mut s = String::new();
    let mut i: usize = 0;
    while i < v.len()
        invariant
            i <= v@.len(),
            s@ == v@.subrange(0, i as int),
        decreases v@.len() - i,
    {
        push_char(&mut s, v[i]);
        i = i + 1;
        assert(s@ =~= v@.subrange(0, i as int));
    }
    assert(s@ =~= v@);
    s
}

/// Strict lexicographic order on character sequences, by code point. For valid
/// UTF-8 this coincides with Rust's ordering on `str`, since UTF-8 preserves
/// code-point order byte-wise.
pub open spec fn lex_lt(a: Seq<char>, b: Seq<char>) -> bool
    decreases a.len(),
{
    if b.len() == 0 {
        false
    } else if a.len() == 0 {
        true
    } else if a[0] != b[0] {
        (a[0] as u32) < (b[0] as u32)
    } else {
        lex_lt(a.drop_first(), b.drop_first())
    }
}

/// Strict order is asymmetric: at most one of `a < b`, `b < a` holds.
pub proof fn lemma_lex_lt_asymmetric(a: Seq<char>, b: Seq<char>)
    requires
        lex_lt(a, b),
    ensures
        !lex_lt(b, a),
    decreases a.len(),
{
    if b.len() == 0 {
    } else if a.len() == 0 {
    } else if a[0] != b[0] {
    } else {
        lemma_lex_lt_asymmetric(a.drop_first(), b.drop_first());
    }
}

/// The order is connex: two sequences with neither one below the other are equal.
pub proof fn lemma_lex_lt_connex(a: Seq<char>, b: Seq<char>)
    requires
        !lex_lt(a, b),
        !lex_lt(b, a),
    ensures
        a == b,
    decreases a.len(),
{
    if b.len() == 0 {
        assert(a.len() == 0);
        assert(a =~= b);
    } else if a.len() == 0 {
        assert(false);
    } else {
        assert(a[0] == b[0]) by {
            if a[0] != b[0] {
                assert((a[0] as u32) == (b[0] as u32));
                vstd::utf8::char_u32_cast(a[0], a[0] as u32);
                vstd::utf8::char_u32_cast(b[0], b[0] as u32);
            }
        };
        lemma_lex_lt_connex(a.drop_first(), b.drop_first());
        assert(a =~= seq![a[0]] + a.drop_first());
        assert(b =~= seq![b[0]] + b.drop_first());
    }
}

/// The order chains: whatever is below `b` is below anything `b` is below.
pub proof fn lemma_lex_lt_transitive(a: Seq<char>, b: Seq<char>, c: Seq<char>)
    requires
        lex_lt(a, b),
        lex_lt(b, c),
    ensures
        lex_lt(a, c),
    decreases a.len(),
{
    if b.len() == 0 || c.len() == 0 {
    } else if a.len() == 0 {
    } else {
        let a0 = a[0];
        let b0 = b[0];
        let c0 = c[0];
        if a0 == b0 && b0 == c0 {
            lemma_lex_lt_transitive(a.drop_first(), b.drop_first(), c.drop_first());
        } else {
            assert((a0 as u32) <= (b0 as u32) && (b0 as u32) <= (c0 as u32));
            assert((a0 as u32) < (c0 as u32));
            assert(a0 != c0) by {
                if a0 == c0 {
                    assert((a0 as u32) == (c0 as u32));
                }
            };
        }
    }
}

/// Comparing two sequences that agree on their first `i` characters comes down
/// to comparing what remains of each.
proof fn lemma_lex_lt_skip(a: Seq<char>, b: Seq<char>, i: int)
    requires
        0 <= i <= a.len(),
        i <= b.len(),
        forall|j: int| 0 <= j < i ==> a[j] == b[j],
    ensures
        lex_lt(a, b) == lex_lt(a.skip(i), b.skip(i)),
    decreases i,
{
    if i > 0 {
        assert(a.len() > 0 && b.len() > 0);
        assert(a[0] == b[0]);
        assert(a.drop_first() =~= a.skip(1));
        assert(b.drop_first() =~= b.skip(1));
        lemma_lex_lt_skip(a.skip(1), b.skip(1), i - 1);
        assert(a.skip(1).skip(i - 1) =~= a.skip(i));
        assert(b.skip(1).skip(i - 1) =~= b.skip(i));
    } else {
        assert(a.skip(0) =~= a);
        assert(b.skip(0) =~= b);
    }
}

/// Whether `a` comes strictly before `b` in lexicographic order.
pub fn str_lex_lt(a: &str, b: &str) -> (r: bool)
    ensures
        r == lex_lt(a@, b@),
{
    let x = str_to_chars(a);
    let y = str_to_chars(b);
    let mut i: usize = 0;
    loop
        invariant
            x@ == a@,
            y@ == b@,
            i <= x@.len(),
            i <= y@.len(),
            forall|j: int| 0 <= j < i ==> x@[j] == y@[j],
        decreases x@.len() - i,
    {
        if i >= x.len() || i >= y.len() {
            proof {
                lemma_lex_lt_skip(a@, b@, i as int);
            }
            return x.len() < y.len();
        }
        let ca = x[i];
        let cb = y[i];
        if ca != cb {
            proof {
                lemma_lex_lt_skip(a@, b@, i as int);
                assert(a@.skip(i as int)[0] == a@[i as int]);
                assert(b@.skip(i as int)[0] == b@[i as int]);
            }
            return (ca as u32) < (cb as u32);
        }
        i = i + 1;
    }
}

/// Whether two strings hold the same characters: neither comes before the
/// other.
pub fn str_eq(a: &str, b: &str) -> (r: bool)
    ensures
        r == (a@ == b@),
{
    let lt = str_lex_lt(a, b);
    let gt = str_lex_lt(b, a);
    proof {
        if !lex_lt(a@, b@) && !lex_lt(b@, a@) {
            lemma_lex_lt_connex(a@, b@);
        }
        if lex_lt(a@, b@) {
            lemma_lex_lt_asymmetric(a@, b@);
        }
    }
    !lt && !gt
}

/// `n` occurs as a contiguous run of characters somewhere in `h`.
pub open spec fn has_substring(h: Seq<char>, n: Seq<char>) -> bool {
    exists|i: int| 0 <= i && i + n.len() <= h.len() && #[trigger] h.subrange(i, i + n.len()) == n
}

/// Whether the characters of `n` occur contiguously in `h`.
pub fn str_contains(h: &str, n: &str) -> (r: bool)
    ensures
        r == has_substring(h@, n@),
{
    let hc = str_to_chars(h);
    let nc = str_to_chars(n);
    if nc.len() > hc.len() {
        return false;
    }
    if nc.len() == 0 {
        assert(has_substring(h@, n@)) by {
            assert(h@.subrange(0, 0 + n@.len() as int) =~= n@);
        };
        return true;
    }
    let last_start = hc.len() - nc.len();
    let mut i: usize = 0;
    loop
        invariant
            hc@ == h@,
            nc@ == n@,
            1 <= nc@.len() <= hc@.len(),
            hc@.len() <= usize::MAX,
            last_start == hc@.len() - nc@.len(),
            i <= last_start + 1,
            forall|k: int| 0 <= k < i ==> #[trigger] h@.subrange(k, k + n@.len()) != n@,
        decreases last_start + 1 - i,
    {
        if i > last_start {
            assert(!has_substring(h@, n@));
            return false;
        }
        let mut j: usize = 0;
        loop
            invariant
                hc@ == h@,
                nc@ == n@,
                i + nc@.len() <= hc@.len(),
                hc@.len() <= usize::MAX,
                j <= nc@.len(),
                forall|t: int| 0 <= t < j ==> h@[i + t] == n@[t],
            ensures
                j == nc@.len() || (j < nc@.len() && h@[i + j] != n@[j as int]),
            decreases nc@.len() - j,
        {
            if j == nc.len() {
                break;
            }
            if hc[i + j] != nc[j] {
                break;
            }
            j = j + 1;
        }
        if j == nc.len() {
            assert(h@.subrange(i as int, i + n@.len()) =~= n@);
            return true;
        }
        assert(h@.subrange(i as int, i + n@.len()) != n@) by {
            assert(h@.subrange(i as int, i + n@.len())[j as int] == h@[i + j]);
            assert(h@[i + j as int] != n@[j as int]);
        }
        i = i + 1;
    }
}

/// The character for one decimal digit.
pub open spec fn digit_char(d: int) -> char {
    if d == 0 { '0' }
    else if d == 1 { '1' }
    else if d == 2 { '2' }
    else if d == 3 { '3' }
    else if d == 4 { '4' }
    else if d == 5 { '5' }
    else if d == 6 { '6' }
    else if d == 7 { '7' }
    else if d == 8 { '8' }
    else { '9' }
}

/// The usual decimal rendering of a non-negative integer, most significant
/// digit first and without leading zeros (`0` renders as "0").
pub open spec fn dec_rep(n: nat) -> Seq<char>
    decreases n,
{
    if n < 10 {
        seq![digit_char(n as int)]
    } else {
        dec_rep(n / 10).push(digit_char((n % 10) as int))
    }
}

fn digit_to_char(d: u64) -> (c: char)
    requires
        d < 10,
    ensures
        c == digit_char(d as int),
{
    if d == 0 { '0' }
    else if d == 1 { '1' }
    else if d == 2 { '2' }
    else if d == 3 { '3' }
    else if d == 4 { '4' }
    else if d == 5 { '5' }
    else if d == 6 { '6' }
    else if d == 7 { '7' }
    else if d == 8 { '8' }
    else { '9' }
}

/// Appends the decimal rendering of `n`.
pub fn push_dec_u64(out: &mut Vec<char>, n: u64)
    ensures
        final(out)@ == old(out)@ + dec_rep(n as nat),
    decreases n,
{
    if n >= 10 {
        push_dec_u64(out, n / 10);
        out.push(digit_to_char(n % 10));
        assert(out@ =~= old(out)@ + dec_rep(n as nat));
    } else {
        out.push(digit_to_char(n));
        assert(out@ =~= old(out)@ + dec_rep(n as nat));
    }
}

/// One kibibyte; the larger units stack three factors deep.
pub const BYTES_KB: u64 = 1024;

pub const BYTES_MB: u64 = 1024 * 1024;

pub const BYTES_GB: u64 = 1024 * 1024 * 1024;

/// `b` in units of `unit`, scaled to hundredths and rounded half up.
pub open spec fn scaled_hundredths(b: int, unit: int) -> int {
    (b * 200 + unit) / (2 * unit)
}

/// A quantity in units of `unit`, with two decimals.
pub open spec fn scaled_rep(b: int, unit: int) -> Seq<char> {
    let h = scaled_hundredths(b, unit);
    dec_rep((h / 100) as nat) + seq!['.'] + seq![digit_char(h / 10 % 10), digit_char(h % 10)]
}

/// A byte count as the telemetry pane shows it: scaled to the largest unit
/// it reaches, with two decimals, or plain bytes below one kibibyte. The
/// hundredths are exact and rounded half up; a floating-point formatter
/// would round ties to even and lose precision on very large counts, so
/// the two can differ by one in the last digit.
pub open spec fn format_bytes_spec(b: int) -> Seq<char> {
    if b >= BYTES_GB {
        scaled_rep(b, BYTES_GB as int) + "GB"@
    } else if b >= BYTES_MB {
        scaled_rep(b, BYTES_MB as int) + "MB"@
    } else if b >= BYTES_KB {
        scaled_rep(b, BYTES_KB as int) + "KB"@
    } else {
        dec_rep(b as nat) + "B"@
    }
}

/// Appends `b` scaled to `unit` with two decimals.
fn push_scaled(out: &mut Vec<char>, b: u64, unit: u64)
    requires
        1024 <= unit,
    ensures
        final(out)@ == old(out)@ + scaled_rep(b as int, unit as int),
{
    let h128: u128 = ((b as u128) * 200 + (unit as u128)) / (2 * (unit as u128));
    proof {
        assert(h128 < 0x1_0000_0000_0000_0000) by (nonlinear_arith)
            requires
                h128 == ((b as int) * 200 + unit) / (2 * (unit as int)),
                1024 <= unit,
                b <= 0xffff_ffff_ffff_ffff,
        ;
        assert(h128 == scaled_hundredths(b as int, unit as int));
    }
    let h: u64 = h128 as u64;
    push_dec_u64(out, h / 100);
    out.push('.');
    out.push(digit_to_char(h / 10 % 10));
    out.push(digit_to_char(h % 10));
    proof {
        assert(out@ =~= old(out)@ + scaled_rep(b as int, unit as int));
    }
}

/// Formats a byte count for display: `"1.50KB"`, `"2.00MB"`, `"999B"`.
pub fn format_bytes(bytes: u64) -> (r: String)
    ensures
        r@ == format_bytes_spec(bytes as int),
{
    let mut out: Vec<char> = Vec::new();
    if bytes >= BYTES_GB {
        push_scaled(&mut out, bytes, BYTES_GB);
        out.push('G');
        out.push('B');
    } else if bytes >= BYTES_MB {
        push_scaled(&mut out, bytes, BYTES_MB);
        out.push('M');
        out.push('B');
    } else if bytes >= BYTES_KB {
        push_scaled(&mut out, bytes, BYTES_KB);
        out.push('K');
        out.push('B');
    } else {
        push_dec_u64(&mut out, bytes);
        out.push('B');
    }
    proof {
        reveal_strlit("GB");
        reveal_strlit("MB");
        reveal_strlit("KB");
        reveal_strlit("B");
        assert(out@ =~= format_bytes_spec(bytes as int));
    }
    chars_to_string(&out)
}

/// The decimal rendering of a signed integer: a minus sign for negatives,
/// then the magnitude's digits.
pub open spec fn dec_rep_signed(n: int) -> Seq<char> {
    if n < 0 {
        seq!['-'] + dec_rep((-n) as nat)
    } else {
        dec_rep(n as nat)
    }
}

/// Appends the decimal rendering of `n`, sign included.
pub fn push_dec_i64(out: &mut Vec<char>, n: i64)
    ensures
        final(out)@ == old(out)@ + dec_rep_signed(n as int),
{
    if n < 0 {
        out.push('-');
        // Compute the magnitude without overflowing at i64::MIN.
        let mag: u64 = ((-(n + 1)) as u64) + 1;
        assert(mag as nat == (-(n as int)) as nat);
        push_dec_u64(out, mag);
        assert(out@ =~= old(out)@ + dec_rep_signed(n as int));
    } else {
        push_dec_u64(out, n as u64);
    }
}

} // verus!
