//! Device positions as fixed-point decimal millimetres.
//!
//! A position is held in millionths of a millimetre, so the decimal payload
//! text a device sends (`"12.500"`) and the decimal text a command carries
//! (`"move abs 12.500000"`) both have an exact integer meaning. A payload is
//! well formed when it is an optional minus sign, one to twelve integer
//! digits, and optionally a decimal point followed by one to six fraction
//! digits; everything else is rejected as unparsable.

use vstd::prelude::*;

verus! {

/// A position in millionths of a millimetre.
#[derive(Clone, Copy, PartialEq, Eq, Structural, Debug)]
pub struct Position {
    pub micros: i64,
}

pub open spec fn is_digit(c: char) -> bool {
    '0' <= c && c <= '9'
}

pub open spec fn digit_val(c: char) -> int {
    c as u32 - '0' as u32
}

/// Value of a digit string read in base ten.
pub open spec fn digits_val(s: Seq<char>) -> int
    decreases s.len(),
{
    if s.len() == 0 {
        0
    } else {
        digits_val(s.drop_last()) * 10 + digit_val(s.last())
    }
}

pub open spec fn all_digits(s: Seq<char>) -> bool {
    forall|i: int| 0 <= i < s.len() ==> is_digit(#[trigger] s[i])
}

pub open spec fn pow10(k: nat) -> int
    decreases k,
{
    if k == 0 {
        1
    } else {
        10 * pow10((k - 1) as nat)
    }
}

/// The unsigned text `b` splits at `i` into integer digits, a decimal
/// point, and fraction digits.
pub open spec fn split_ok(b: Seq<char>, i: int) -> bool {
    &&& 1 <= i <= 12
    &&& i < b.len()
    &&& b[i] == '.'
    &&& 1 <= b.len() - i - 1 <= 6
    &&& all_digits(b.subrange(0, i))
    &&& all_digits(b.subrange(i + 1, b.len() as int))
}

/// The value, in millionths, of an unsigned decimal text, if well formed.
pub open spec fn unsigned_micros(b: Seq<char>) -> Option<int> {
    if 1 <= b.len() <= 12 && all_digits(b) {
        Some(digits_val(b) * 1000000)
    } else if exists|i: int| split_ok(b, i) {
        let i = choose|i: int| split_ok(b, i);
        Some(
            digits_val(b.subrange(0, i)) * 1000000 + digits_val(
                b.subrange(i + 1, b.len() as int),
            ) * pow10((6 - (b.len() - i - 1)) as nat),
        )
    } else {
        None
    }
}

/// The value, in millionths, of a decimal text with an optional sign, if
/// well formed.
pub open spec fn parse_position_spec(s: Seq<char>) -> Option<int> {
    if s.len() > 0 && s[0] == '-' {
        match unsigned_micros(s.drop_first()) {
            Some(v) => Some(-v),
            None => None,
        }
    } else {
        unsigned_micros(s)
    }
}

proof fn lemma_digits_val_bound(s: Seq<char>)
    requires
        all_digits(s),
    ensures
        0 <= digits_val(s) < pow10(s.len()),
    decreases s.len(),
{
    if s.len() > 0 {
        assert(all_digits(s.drop_last()));
        lemma_digits_val_bound(s.drop_last());
        assert(is_digit(s[s.len() - 1]));
    }
}

proof fn lemma_pow10_pos(k: nat)
    ensures
        pow10(k) >= 1,
    decreases k,
{
    if k > 0 {
        lemma_pow10_pos((k - 1) as nat);
    }
}

proof fn lemma_pow10_adds(a: nat, b: nat)
    ensures
        pow10(a) * pow10(b) == pow10(a + b),
    decreases a,
{
    if a == 0 {
    } else {
        lemma_pow10_adds((a - 1) as nat, b);
        assert(pow10(a) * pow10(b) == 10 * (pow10((a - 1) as nat) * pow10(b)))
            by (nonlinear_arith)
            requires
                pow10(a) == 10 * pow10((a - 1) as nat),
        ;
    }
}

proof fn lemma_pow10_le(a: nat, b: nat)
    requires
        a <= b,
    ensures
        pow10(a) <= pow10(b),
{
    lemma_pow10_adds(a, (b - a) as nat);
    lemma_pow10_pos(a);
    lemma_pow10_pos((b - a) as nat);
    assert(pow10(a) <= pow10(b)) by (nonlinear_arith)
        requires
            pow10(a) * pow10((b - a) as nat) == pow10(b),
            pow10((b - a) as nat) >= 1,
            pow10(a) >= 1,
    ;
}

/// If digits stand left of the dot at `d`, any valid split is at `d`.
proof fn lemma_split_at_dot(b: Seq<char>, d: int)
    requires
        0 <= d < b.len(),
        b[d] == '.',
        all_digits(b.subrange(0, d)),
    ensures
        forall|k: int| #[trigger] split_ok(b, k) ==> k == d,
{
    assert forall|k: int| #[trigger] split_ok(b, k) implies k == d by {
        if k < d {
            assert(is_digit(b.subrange(0, d)[k]));
            assert(b[k] == '.');
        } else if k > d {
            assert(is_digit(b.subrange(0, k)[d]));
        }
    }
}

/// Scans a run of decimal digits: returns the first index at or after
/// `from` (and at most `from + cap` on) that ends the run, and the value of
/// the digits scanned.
fn scan_digits(s: &str, from: usize, cap: usize) -> (r: (usize, u64))
    requires
        from <= s@.len(),
        cap <= 13,
    ensures
        from <= r.0 <= s@.len(),
        r.0 - from <= cap,
        all_digits(s@.subrange(from as int, r.0 as int)),
        r.1 == digits_val(s@.subrange(from as int, r.0 as int)),
        r.0 < s@.len() && r.0 - from < cap ==> !is_digit(s@[r.0 as int]),
{
    let n = s.unicode_len();
    let mut i: usize = from;
    let mut val: u64 = 0;
    loop
        invariant
            from <= i <= n,
            n == s@.len(),
            cap <= 13,
            i - from <= cap,
            all_digits(s@.subrange(from as int, i as int)),
            val == digits_val(s@.subrange(from as int, i as int)),
        ensures
            from <= i <= n,
            i - from <= cap,
            all_digits(s@.subrange(from as int, i as int)),
            val == digits_val(s@.subrange(from as int, i as int)),
            i < n && i - from < cap ==> !is_digit(s@[i as int]),
        decreases n - i,
    {
        if i >= n || i - from >= cap {
            break ;
        }
        let c = s.get_char(i);
        if !(c >= '0' && c <= '9') {
            break ;
        }
        proof {
            let q = s@.subrange(from as int, i as int);
            lemma_digits_val_bound(q);
            lemma_pow10_le(q.len(), 12);
            reveal_with_fuel(pow10, 14);
        }
        let dv: u32 = (c as u32) - ('0' as u32);
        val = val * 10 + (dv as u64);
        i = i + 1;
        proof {
            let q0 = s@.subrange(from as int, i - 1);
            let q1 = s@.subrange(from as int, i as int);
            assert(q1.drop_last() =~= q0);
            assert(q1.last() == s@[i - 1]);
            assert forall|k: int| 0 <= k < q1.len() implies is_digit(#[trigger] q1[k]) by {
                if k < q0.len() {
                    assert(q1[k] == q0[k]);
                }
            }
        }
    }
    (i, val)
}

/// The exact multiplier that pads `6 - k` fraction digits.
fn pow10_u64(k: usize) -> (r: u64)
    requires
        k <= 6,
    ensures
        r == pow10(k as nat),
{
    proof {
        reveal_with_fuel(pow10, 7);
    }
    match k {
        0 => 1,
        1 => 10,
        2 => 100,
        3 => 1000,
        4 => 10000,
        5 => 100000,
        _ => 1000000,
    }
}

/// Parses a decimal position payload, in millimetres, to its fixed-point
/// value: `Some` exactly on well-formed text, with the exact value the text
/// denotes, and `None` on everything else.
#[verifier::rlimit(100)]
pub fn parse_position(s: &str) -> (r: Option<Position>)
    ensures
        match r {
            Some(p) => parse_position_spec(s@) == Some(p.micros as int),
            None => parse_position_spec(s@) is None,
        },
{
    let n = s.unicode_len();
    let neg = n > 0 && s.get_char(0) == '-';
    let start: usize = if neg {
        1
    } else {
        0
    };
    let ghost b: Seq<char> = s@.subrange(start as int, n as int);
    proof {
        if neg {
            assert(b =~= s@.drop_first());
        } else {
            assert(b =~= s@);
        }
    }
    let (int_end, int_val) = scan_digits(s, start, 13);
    let ghost icount: int = int_end - start;
    proof {
        assert forall|k: int| 0 <= k < icount implies is_digit(#[trigger] b[k]) by {
            assert(b[k] == s@.subrange(start as int, int_end as int)[k]);
        }
    }
    if int_end == start {
        // no integer digits at all: empty, or a leading non-digit
        proof {
            if b.len() > 0 {
                assert(s@.subrange(start as int, int_end as int).len() == 0);
                assert(b[0] == s@[start as int]);
                assert(!is_digit(b[0]));
                assert forall|k: int| !(#[trigger] split_ok(b, k)) by {
                    if split_ok(b, k) {
                        assert(is_digit(b.subrange(0, k)[0]));
                        assert(b.subrange(0, k)[0] == b[0]);
                    }
                }
            }
            assert(unsigned_micros(b) is None);
        }
        return None;
    }
    if int_end - start > 12 {
        // thirteen integer digits scanned: too long to be well formed
        proof {
            assert(icount == 13);
            assert(!(1 <= b.len() <= 12));
            assert forall|k: int| !(#[trigger] split_ok(b, k)) by {
                if split_ok(b, k) {
                    assert(is_digit(b[k]));
                    assert(b[k] == '.');
                }
            }
            assert(unsigned_micros(b) is None);
        }
        return None;
    }
    proof {
        let q = s@.subrange(start as int, int_end as int);
        lemma_digits_val_bound(q);
        lemma_pow10_le(q.len(), 12);
        reveal_with_fuel(pow10, 14);
    }
    if int_end == n {
        // pure integer text
        proof {
            assert(b =~= s@.subrange(start as int, int_end as int));
        }
        let total: u64 = int_val * 1000000;
        let magnitude: i64 = total as i64;
        let micros: i64 = if neg {
            -magnitude
        } else {
            magnitude
        };
        return Some(Position { micros });
    }
    let c = s.get_char(int_end);
    let ghost d: int = icount;
    proof {
        assert(b[d] == s@[int_end as int]);
    }
    if !(c == '.') {
        // a character that is neither a digit nor the decimal point
        proof {
            assert(!is_digit(b[d]) && b[d] != '.');
            assert(!all_digits(b));
            assert forall|k: int| !(#[trigger] split_ok(b, k)) by {
                if split_ok(b, k) {
                    if k < d {
                        assert(is_digit(b[k]));
                        assert(b[k] == '.');
                    } else if k == d {
                        assert(b[k] == '.');
                    } else {
                        assert(is_digit(b.subrange(0, k)[d]));
                        assert(b.subrange(0, k)[d] == b[d]);
                    }
                }
            }
            assert(unsigned_micros(b) is None);
        }
        return None;
    }
    proof {
        assert(b[d] == '.');
        assert forall|k: int| 0 <= k < d implies is_digit(#[trigger] b.subrange(0, d)[k]) by {
            assert(b.subrange(0, d)[k] == b[k]);
        }
        lemma_split_at_dot(b, d);
        assert(!is_digit('.'));
        assert(!all_digits(b));
    }
    let frac_start = int_end + 1;
    let (frac_end, frac_val) = scan_digits(s, frac_start, 7);
    let ghost fcount: int = frac_end - frac_start;
    proof {
        assert forall|k: int| 0 <= k < fcount implies is_digit(#[trigger] b[d + 1 + k]) by {
            assert(b[d + 1 + k] == s@.subrange(frac_start as int, frac_end as int)[k]);
        }
    }
    if frac_end == frac_start || frac_end - frac_start > 6 || frac_end < n {
        // no fraction digits, more than six, or trailing characters: the
        // only split candidate is at the dot, and it fails there
        proof {
            assert forall|k: int| !(#[trigger] split_ok(b, k)) by {
                if split_ok(b, k) {
                    assert(k == d);
                    let tail = b.subrange(d + 1, b.len() as int);
                    assert(all_digits(tail));
                    assert(1 <= b.len() - d - 1 <= 6);
                    if fcount == 0 {
                        assert(b.len() >= d + 2);
                        assert(frac_end < n);
                        assert(!is_digit(s@[frac_end as int]));
                        assert(is_digit(tail[0]));
                        assert(tail[0] == b[d + 1]);
                        assert(b[d + 1] == s@[frac_start as int]);
                    } else if fcount == 7 {
                        assert(b.len() - d - 1 >= 7);
                    } else {
                        assert(frac_end < n);
                        assert(!is_digit(s@[frac_end as int]));
                        assert(b.len() - d - 1 >= fcount + 1);
                        assert(is_digit(tail[fcount]));
                        assert(tail[fcount] == b[d + 1 + fcount]);
                        assert(b[d + 1 + fcount] == s@[frac_end as int]);
                    }
                }
            }
            assert(unsigned_micros(b) is None);
        }
        return None;
    }
    // well formed: digits, a dot, one to six fraction digits to the end
    proof {
        assert(frac_end == n);
        assert(1 <= fcount <= 6);
        assert(b.len() == d + 1 + fcount);
        assert forall|k: int| 0 <= k < fcount implies is_digit(
            #[trigger] b.subrange(d + 1, b.len() as int)[k],
        ) by {
            assert(b.subrange(d + 1, b.len() as int)[k] == b[d + 1 + k]);
        }
        assert(split_ok(b, d));
        let kk = choose|i: int| split_ok(b, i);
        assert(kk == d);
        assert(b.subrange(0, d) =~= s@.subrange(start as int, int_end as int));
        assert(b.subrange(d + 1, b.len() as int) =~= s@.subrange(
            frac_start as int,
            frac_end as int,
        ));
    }
    let mult = pow10_u64(6 - (frac_end - frac_start));
    proof {
        let fq = s@.subrange(frac_start as int, frac_end as int);
        lemma_digits_val_bound(fq);
        lemma_pow10_adds(fq.len(), (6 - fcount) as nat);
        lemma_pow10_pos((6 - fcount) as nat);
        reveal_with_fuel(pow10, 14);
        assert(frac_val * mult < pow10(6)) by (nonlinear_arith)
            requires
                frac_val < pow10(fcount as nat),
                mult == pow10((6 - fcount) as nat),
                mult >= 1,
                frac_val >= 0,
                pow10(fcount as nat) * pow10((6 - fcount) as nat) == pow10(6),
        ;
    }
    let total: u64 = int_val * 1000000 + frac_val * mult;
    let magnitude: i64 = total as i64;
    let micros: i64 = if neg {
        -magnitude
    } else {
        magnitude
    };
    Some(Position { micros })
}

pub open spec fn digit_char(d: int) -> char {
    if d == 0 {
        '0'
    } else if d == 1 {
        '1'
    } else if d == 2 {
        '2'
    } else if d == 3 {
        '3'
    } else if d == 4 {
        '4'
    } else if d == 5 {
        '5'
    } else if d == 6 {
        '6'
    } else if d == 7 {
        '7'
    } else if d == 8 {
        '8'
    } else {
        '9'
    }
}

/// The shortest decimal digit string of a nonnegative number.
pub open spec fn dec_digits(n: int) -> Seq<char>
    decreases n,
{
    if n < 10 {
        seq![digit_char(n)]
    } else {
        dec_digits(n / 10).push(digit_char(n % 10))
    }
}

/// The last `k` decimal digits of a nonnegative number, zero padded.
pub open spec fn dec_digits_pad(n: int, k: nat) -> Seq<char>
    decreases k,
{
    if k == 0 {
        seq![]
    } else {
        dec_digits_pad(n / 10, (k - 1) as nat).push(digit_char(n % 10))
    }
}

/// The canonical decimal text of a nonnegative fixed-point value: whole
/// millimetres, a decimal point, and exactly six fraction digits.
pub open spec fn format_unsigned_spec(u: int) -> Seq<char> {
    dec_digits(u / 1000000) + seq!['.'] + dec_digits_pad(u % 1000000, 6)
}

/// The canonical decimal text of a position's fixed-point value.
pub open spec fn format_position_spec(v: int) -> Seq<char> {
    if v < 0 {
        seq!['-'] + format_unsigned_spec(-v)
    } else {
        format_unsigned_spec(v)
    }
}

fn digit_str(d: u64) -> (r: &'static str)
    requires
        d <= 9,
    ensures
        r@ == seq![digit_char(d as int)],
{
    proof {
        reveal_strlit("0");
        reveal_strlit("1");
        reveal_strlit("2");
        reveal_strlit("3");
        reveal_strlit("4");
        reveal_strlit("5");
        reveal_strlit("6");
        reveal_strlit("7");
        reveal_strlit("8");
        reveal_strlit("9");
    }
    let r: &'static str = match d {
        0 => "0",
        1 => "1",
        2 => "2",
        3 => "3",
        4 => "4",
        5 => "5",
        6 => "6",
        7 => "7",
        8 => "8",
        _ => "9",
    };
    proof {
        assert(r@ =~= seq![digit_char(d as int)]);
    }
    r
}

fn format_u64(n: u64) -> (r: String)
    ensures
        r@ == dec_digits(n as int),
    decreases n,
{
    if n < 10 {
        String::from_str(digit_str(n))
    } else {
        let head = format_u64(n / 10);
        let r = head.concat(digit_str(n % 10));
        proof {
            assert(r@ =~= dec_digits(n as int / 10).push(digit_char(n as int % 10)));
        }
        r
    }
}

fn format_pad(n: u64, k: usize) -> (r: String)
    ensures
        r@ == dec_digits_pad(n as int, k as nat),
    decreases k,
{
    if k == 0 {
        String::new()
    } else {
        let head = format_pad(n / 10, k - 1);
        let r = head.concat(digit_str(n % 10));
        proof {
            assert(r@ =~= dec_digits_pad(n as int / 10, (k - 1) as nat).push(
                digit_char(n as int % 10),
            ));
        }
        r
    }
}

/// Renders a position as canonical decimal millimetre text: optional minus
/// sign, whole part, decimal point, six fraction digits.
pub fn format_position(p: Position) -> (r: String)
    requires
        p.micros > i64::MIN,
    ensures
        r@ == format_position_spec(p.micros as int),
{
    proof {
        reveal_strlit("-");
        reveal_strlit(".");
    }
    if p.micros < 0 {
        let m: u64 = (-p.micros) as u64;
        let whole = format_u64(m / 1000000);
        let frac = format_pad(m % 1000000, 6);
        let r = String::from_str("-").concat(whole.as_str()).concat(".").concat(frac.as_str());
        proof {
            assert(r@ =~= seq!['-'] + format_unsigned_spec(m as int));
        }
        r
    } else {
        let m: u64 = p.micros as u64;
        let whole = format_u64(m / 1000000);
        let frac = format_pad(m % 1000000, 6);
        let r = whole.concat(".").concat(frac.as_str());
        proof {
            assert(r@ =~= format_unsigned_spec(m as int));
        }
        r
    }
}

proof fn lemma_dec_digits_value(n: int)
    requires
        n >= 0,
    ensures
        all_digits(dec_digits(n)),
        dec_digits(n).len() >= 1,
        digits_val(dec_digits(n)) == n,
    decreases n,
{
    if n < 10 {
        let q = seq![digit_char(n)];
        reveal_with_fuel(digits_val, 2);
        assert(q.drop_last() =~= Seq::<char>::empty());
        assert(q.last() == digit_char(n));
        assert(digits_val(q) == digit_val(digit_char(n)));
    } else {
        lemma_dec_digits_value(n / 10);
        let q = dec_digits(n / 10).push(digit_char(n % 10));
        assert(q.drop_last() =~= dec_digits(n / 10));
        assert(q.last() == digit_char(n % 10));
        assert forall|i: int| 0 <= i < q.len() implies is_digit(#[trigger] q[i]) by {
            if i < q.len() - 1 {
                assert(q[i] == dec_digits(n / 10)[i]);
            }
        }
    }
}

proof fn lemma_dec_digits_len(n: int, k: nat)
    requires
        0 <= n < pow10(k),
        k >= 1,
    ensures
        dec_digits(n).len() <= k,
    decreases k,
{
    if n < 10 {
    } else {
        reveal_with_fuel(pow10, 2);
        assert(k >= 2) by {
            if k == 1 {
                assert(pow10(1) == 10);
            }
        }
        assert(n / 10 < pow10((k - 1) as nat)) by (nonlinear_arith)
            requires
                0 <= n < pow10(k),
                pow10(k) == 10 * pow10((k - 1) as nat),
        ;
        lemma_dec_digits_len(n / 10, (k - 1) as nat);
        assert(dec_digits(n) == dec_digits(n / 10).push(digit_char(n % 10)));
    }
}

proof fn lemma_pad_digits(n: int, k: nat)
    requires
        0 <= n < pow10(k),
    ensures
        all_digits(dec_digits_pad(n, k)),
        dec_digits_pad(n, k).len() == k,
        digits_val(dec_digits_pad(n, k)) == n,
    decreases k,
{
    if k == 0 {
        assert(n == 0);
    } else {
        assert(n / 10 < pow10((k - 1) as nat)) by (nonlinear_arith)
            requires
                0 <= n < pow10(k),
                pow10(k) == 10 * pow10((k - 1) as nat),
        ;
        lemma_pad_digits(n / 10, (k - 1) as nat);
        let q = dec_digits_pad(n / 10, (k - 1) as nat).push(digit_char(n % 10));
        assert(q.drop_last() =~= dec_digits_pad(n / 10, (k - 1) as nat));
        assert(q.last() == digit_char(n % 10));
        assert forall|i: int| 0 <= i < q.len() implies is_digit(#[trigger] q[i]) by {
            if i < q.len() - 1 {
                assert(q[i] == dec_digits_pad(n / 10, (k - 1) as nat)[i]);
            }
        }
    }
}

proof fn lemma_format_unsigned_parses(u: int)
    requires
        0 <= u < 1000000000000000000,
    ensures
        unsigned_micros(format_unsigned_spec(u)) == Some(u),
        format_unsigned_spec(u).len() > 0,
        is_digit(format_unsigned_spec(u)[0]),
{
    reveal_with_fuel(pow10, 14);
    let w = u / 1000000;
    let f = u % 1000000;
    let ip = dec_digits(w);
    let fp = dec_digits_pad(f, 6);
    let b = format_unsigned_spec(u);
    lemma_dec_digits_value(w);
    lemma_dec_digits_len(w, 12);
    lemma_pad_digits(f, 6);
    let d = ip.len() as int;
    assert(b[d] == '.');
    assert(b.subrange(0, d) =~= ip);
    assert(b.subrange(d + 1, b.len() as int) =~= fp);
    assert(b[0] == ip[0]);
    assert(is_digit(b[0]));
    assert(!all_digits(b)) by {
        assert(b[d] == '.');
        assert(!is_digit('.'));
    }
    assert(split_ok(b, d));
    lemma_split_at_dot(b, d);
    let kk = choose|i: int| split_ok(b, i);
    assert(kk == d);
    assert(pow10(0) == 1);
    assert(digits_val(ip) == w);
    assert(digits_val(fp) == f);
    assert(w * 1000000 + f == u);
    assert(b.len() - d - 1 == 6);
    assert(digits_val(b.subrange(0, d)) == w);
    assert(digits_val(b.subrange(d + 1, b.len() as int)) == f);
}

/// Rendering a position and parsing the text back yields exactly the
/// rendered value: the decimal text of a `move` command names the very
/// position the caller gave, and a device echoing it reports the same
/// fixed-point value.
pub proof fn lemma_format_parse_round_trip(v: int)
    requires
        -1000000000000000000 < v < 1000000000000000000,
    ensures
        parse_position_spec(format_position_spec(v)) == Some(v),
{
    if v < 0 {
        lemma_format_unsigned_parses(-v);
        let b = format_unsigned_spec(-v);
        let s = seq!['-'] + b;
        assert(s[0] == '-');
        assert(s.drop_first() =~= b);
        assert(s.len() > 0);
    } else {
        lemma_format_unsigned_parses(v);
        let b = format_unsigned_spec(v);
        assert(b[0] != '-') by {
            assert(is_digit(b[0]));
            assert(!is_digit('-'));
        }
    }
}

} // verus!
