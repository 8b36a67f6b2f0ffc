use chrono::TimeZone;
use vstd::prelude::*;

verus! {

/// The character of a decimal digit.
pub open spec fn digit_char(d: nat) -> char
    recommends
        d < 10,
{
    (48 + d) as char
}

/// Decimal digits of a natural number, most significant first.
pub open spec fn nat_text(n: nat) -> Seq<char>
    decreases n,
{
    if n < 10 {
        seq![digit_char(n)]
    } else {
        nat_text(n / 10).push(digit_char(n % 10))
    }
}

/// Decimal text of an integer, with a leading `-` when negative.
pub open spec fn int_text(n: int) -> Seq<char> {
    if n < 0 {
        seq!['-'] + nat_text((-n) as nat)
    } else {
        nat_text(n as nat)
    }
}

/// Elapsed seconds rendered with the largest fitting unit: days, hours,
/// minutes, otherwise seconds (whole units, rounded down).
pub open spec fn short_time_text(s: int) -> Seq<char> {
    if s > 86400 {
        int_text(s / 86400).push('d')
    } else if s > 3600 {
        int_text(s / 3600).push('h')
    } else if s > 60 {
        int_text(s / 60).push('m')
    } else {
        int_text(s).push('s')
    }
}

/// `s - since`, clamped to the range of `i64`.
pub open spec fn saturating_diff(s: int, since: int) -> int {
    if s - since > i64::MAX {
        i64::MAX as int
    } else if s - since < i64::MIN {
        i64::MIN as int
    } else {
        s - since
    }
}

/// Index of the first `.` in `s`, or its length when there is none.
pub open spec fn dot_index(s: Seq<char>) -> nat
    decreases s.len(),
{
    if s.len() == 0 {
        0
    } else if s[0] == '.' {
        0
    } else {
        1 + dot_index(s.drop_first())
    }
}

/// The first `k` characters of the integer part `l`, each followed by a
/// comma when a positive multiple of three digits comes after it.
pub open spec fn grouped_prefix(l: Seq<char>, k: nat) -> Seq<char>
    recommends
        k <= l.len(),
    decreases k,
{
    if k == 0 {
        Seq::empty()
    } else {
        let head = grouped_prefix(l, (k - 1) as nat).push(l[k - 1]);
        if k < l.len() && (l.len() - k) % 3 == 0 {
            head.push(',')
        } else {
            head
        }
    }
}

/// `l` with a thousands separator between each group of three digits.
pub open spec fn grouped(l: Seq<char>) -> Seq<char> {
    grouped_prefix(l, l.len())
}

/// A number's text with commas in its integer part; the fraction is kept.
pub open spec fn with_commas(s: Seq<char>) -> Seq<char> {
    let d = dot_index(s) as int;
    grouped(s.subrange(0, d)) + s.subrange(d, s.len() as int)
}

/// Relies on `String::push`: appends one character at the end.
pub assume_specification[ String::push ](s: &mut String, ch: char)
    ensures
        final(s)@ == old(s)@.push(ch),
;

/// Appends the decimal digits of `n`.
pub fn push_nat(s: &mut String, n: u64)
    ensures
        final(s)@ == old(s)@ + nat_text(n as nat),
    decreases n,
{
    if n >= 10 {
        push_nat(s, n / 10);
    }
    let d: u8 = (n % 10) as u8;
    s.push((48u8 + d) as char);
    proof {
        assert(old(s)@ + nat_text(n as nat) =~= s@);
    }
}

/// Appends the decimal text of `n`.
pub fn push_int(s: &mut String, n: i64)
    ensures
        final(s)@ == old(s)@ + int_text(n as int),
{
    if n < 0 {
        s.push('-');
        let m: u64 = (0i128 - n as i128) as u64;
        push_nat(s, m);
        assert(final(s)@ =~= old(s)@ + int_text(n as int));
    } else {
        push_nat(s, n as u64);
    }
}

/// The UTC date and time to the minute, `YYYY-MM-DD HH:MM`, that chrono
/// gives for a Unix time.
pub uninterp spec fn utc_minute_text(sec: int) -> Seq<char>;

/// Seconds a Unix time may lie from the epoch and still have a calendar
/// date in chrono (whose years reach past 262,000 either way).
pub const MAX_EPOCH_SECONDS: i64 = 8000000000000;

/// Relies on chrono's `FixedOffset::east_opt(0)`, `TimeZone::timestamp_opt`
/// and `DateTime::format("%Y-%m-%d %H:%M")`: the UTC calendar text of a
/// Unix time, which exists for every time within the bound.
#[verifier::external_body]
fn utc_minute(sec: i64) -> (r: String)
    requires
        -MAX_EPOCH_SECONDS <= sec <= MAX_EPOCH_SECONDS,
    ensures
        r@ == utc_minute_text(sec as int),
{
    let time = chrono::FixedOffset::east_opt(0).unwrap().timestamp_opt(sec, 0).unwrap();
    format!("{}", time.format("%Y-%m-%d %H:%M"))
}

/// A Unix time as `YYYY-MM-DD HH:MM` in UTC.
pub fn time_from_utc_seconds(sec: i64) -> (r: String)
    requires
        -MAX_EPOCH_SECONDS <= sec <= MAX_EPOCH_SECONDS,
    ensures
        r@ == utc_minute_text(sec as int),
{
    utc_minute(sec)
}

/// Seconds elapsed from `s` until `now`, saturating at the `i64` bounds.
pub fn timelapse(now: i64, s: i64) -> (r: i64)
    ensures
        r as int == saturating_diff(now as int, s as int),
{
    let d: i128 = now as i128 - s as i128;
    if d > i64::MAX as i128 {
        i64::MAX
    } else if d < i64::MIN as i128 {
        i64::MIN
    } else {
        d as i64
    }
}

/// A duration in seconds as a compact label such as `3d`, `5h`, `12m`, `40s`.
pub fn short_time(s: i64) -> (r: String)
    ensures
        r@ == short_time_text(s as int),
{
    let mut r = String::new();
    if s > 86400 {
        push_int(&mut r, s / 86400);
        r.push('d');
    } else if s > 3600 {
        push_int(&mut r, s / 3600);
        r.push('h');
    } else if s > 60 {
        push_int(&mut r, s / 60);
        r.push('m');
    } else {
        push_int(&mut r, s);
        r.push('s');
    }
    r
}

/// Ten to the power `n`.
pub open spec fn pow10(n: nat) -> nat
    decreases n,
{
    if n == 0 {
        1
    } else {
        10 * pow10((n - 1) as nat)
    }
}

/// `n / s` rounded to the nearest integer, ties to the even one.
pub open spec fn round_div(n: nat, s: nat) -> nat
    recommends
        s > 0,
{
    let q = n / s;
    let r = n % s;
    if 2 * r > s || (2 * r == s && q % 2 == 1) {
        q + 1
    } else {
        q
    }
}

/// The last `w` decimal digits of `n`, with leading zeros.
pub open spec fn padded(n: nat, w: nat) -> Seq<char>
    decreases w,
{
    if w == 0 {
        Seq::empty()
    } else {
        padded(n / 10, (w - 1) as nat).push(digit_char(n % 10))
    }
}

/// A figure in hundred-millionths written with `d` decimals (`d <= 8`),
/// rounded to nearest with ties to even; a negative figure keeps its sign
/// even when it rounds to zero.
pub open spec fn fixed_text(v: int, d: nat) -> Seq<char> {
    let m: nat = if v < 0 { (-v) as nat } else { v as nat };
    let q = round_div(m, pow10((8 - d) as nat));
    let sign = if v < 0 { seq!['-'] } else { Seq::<char>::empty() };
    let whole = nat_text(q / pow10(d));
    if d == 0 {
        sign + whole
    } else {
        sign + whole + seq!['.'] + padded(q % pow10(d), d)
    }
}

/// Text of a figure that is not a number.
pub open spec fn nan_text() -> Seq<char> {
    seq!['N', 'a', 'N']
}

/// How many decimals a price gets: more for smaller prices, none above
/// ten thousand.
pub open spec fn price_decimals(v: int) -> nat {
    if v < 1000 {
        6
    } else if v < 10000 {
        5
    } else if v < 100000 {
        4
    } else if v < 1000000 {
        3
    } else if v > 1000000000000 {
        0
    } else {
        2
    }
}

pub open spec fn price_text(p: Option<i64>) -> Seq<char> {
    match p {
        None => nan_text(),
        Some(v) => fixed_text(v as int, price_decimals(v as int)),
    }
}

pub open spec fn percent_text(p: Option<i64>) -> Seq<char> {
    match p {
        None => nan_text().push('%'),
        Some(v) => fixed_text(v as int, if v >= 10000000000 { 0 } else { 2 }).push('%'),
    }
}

fn pow10_exec(d: u32) -> (r: u64)
    requires
        d <= 8,
    ensures
        r as nat == pow10(d as nat),
        r >= 1,
        r <= 100000000,
{
    proof {
        reveal_with_fuel(pow10, 9);
    }
    match d {
        0 => 1,
        1 => 10,
        2 => 100,
        3 => 1000,
        4 => 10000,
        5 => 100000,
        6 => 1000000,
        7 => 10000000,
        _ => 100000000,
    }
}

/// Appends the last `w` digits of `n`, with leading zeros.
fn push_padded(s: &mut String, n: u64, w: u32)
    ensures
        final(s)@ == old(s)@ + padded(n as nat, w as nat),
    decreases w,
{
    if w > 0 {
        push_padded(s, n / 10, w - 1);
        let d: u8 = (n % 10) as u8;
        s.push((48u8 + d) as char);
        proof {
            assert(old(s)@ + padded(n as nat, w as nat) =~= s@);
        }
    }
}

/// Writes a figure in hundred-millionths with `d` decimals.
pub fn fixed_to_string(v: i64, d: u32) -> (r: String)
    requires
        d <= 8,
    ensures
        r@ == fixed_text(v as int, d as nat),
{
    let m: u64 = if v < 0 { (0i128 - v as i128) as u64 } else { v as u64 };
    let s = pow10_exec(8 - d);
    let q0 = m / s;
    let rem = m % s;
    let q: u64 = if 2 * rem > s || (2 * rem == s && q0 % 2 == 1) { q0 + 1 } else { q0 };
    assert(q as nat == round_div(m as nat, pow10((8 - d) as nat)));
    let p = pow10_exec(d);
    let mut r = String::new();
    if v < 0 {
        r.push('-');
    }
    push_nat(&mut r, q / p);
    if d > 0 {
        r.push('.');
        push_padded(&mut r, q % p, d);
    }
    proof {
        let sign = if v < 0 { seq!['-'] } else { Seq::<char>::empty() };
        if d == 0 {
            assert(r@ =~= sign + nat_text((q / p) as nat));
        } else {
            assert(r@ =~= sign + nat_text((q / p) as nat) + seq!['.'] + padded((q % p) as nat, d as nat));
        }
    }
    r
}

/// A price for display, with fewer decimals the larger it is.
pub fn pretty_price(price: Option<i64>) -> (r: String)
    ensures
        r@ == price_text(price),
{
    match price {
        None => {
            let mut r = String::new();
            r.push('N');
            r.push('a');
            r.push('N');
            assert(r@ =~= nan_text());
            r
        },
        Some(p) => {
            let d: u32 = if p < 1000 {
                6
            } else if p < 10000 {
                5
            } else if p < 100000 {
                4
            } else if p < 1000000 {
                3
            } else if p > 1000000000000 {
                0
            } else {
                2
            };
            fixed_to_string(p, d)
        },
    }
}

/// A percentage for display: whole from a hundred up, else two decimals.
pub fn pretty_precent(p: Option<i64>) -> (r: String)
    ensures
        r@ == percent_text(p),
{
    let mut r = match p {
        None => {
            let mut r = String::new();
            r.push('N');
            r.push('a');
            r.push('N');
            assert(r@ =~= nan_text());
            r
        },
        Some(v) => fixed_to_string(v, if v >= 10000000000 { 0 } else { 2 }),
    };
    r.push('%');
    r
}

/// Position of the first `.` in `s`, or its length.
fn find_dot(s: &str) -> (r: usize)
    ensures
        r as nat == dot_index(s@),
        r <= s@.len(),
{
    let n = s.unicode_len();
    let mut i: usize = 0;
    while i < n && s.get_char(i) != '.'
        invariant
            n == s@.len(),
            i <= n,
            forall|j: int| 0 <= j < i ==> s@[j] != '.',
        decreases n - i,
    {
        i = i + 1;
    }
    proof {
        lemma_dot_index(s@, i as int);
    }
    i
}

/// `dot_index` is the first position holding `.`, or the length.
proof fn lemma_dot_index(s: Seq<char>, i: int)
    requires
        0 <= i <= s.len(),
        forall|j: int| 0 <= j < i ==> s[j] != '.',
        i == s.len() || s[i] == '.',
    ensures
        dot_index(s) == i,
    decreases s.len(),
{
    if s.len() > 0 && i > 0 {
        assert forall|j: int| 0 <= j < i - 1 implies s.drop_first()[j] != '.' by {
            assert(s[j + 1] != '.');
        }
        lemma_dot_index(s.drop_first(), i - 1);
    }
}

/// Inserts a comma between each group of three digits of the integer part
/// of `number_str` (the part before the first `.`); the rest is kept as is.
pub fn format_number_with_commas(number_str: &str) -> (r: String)
    ensures
        r@ == with_commas(number_str@),
{
    let n = number_str.unicode_len();
    let d = find_dot(number_str);
    let ghost l = number_str@.subrange(0, d as int);
    let mut r = String::new();
    let mut k: usize = 0;
    while k < d
        invariant
            n == number_str@.len(),
            d <= n,
            k <= d,
            l == number_str@.subrange(0, d as int),
            r@ == grouped_prefix(l, k as nat),
        decreases d - k,
    {
        r.push(number_str.get_char(k));
        k = k + 1;
        if k < d && (d - k) % 3 == 0 {
            r.push(',');
        }
    }
    let mut j: usize = d;
    while j < n
        invariant
            n == number_str@.len(),
            d <= j <= n,
            l == number_str@.subrange(0, d as int),
            r@ == grouped(l) + number_str@.subrange(d as int, j as int),
        decreases n - j,
    {
        r.push(number_str.get_char(j));
        j = j + 1;
        assert(r@ =~= grouped(l) + number_str@.subrange(d as int, j as int));
    }
    assert(number_str@.subrange(d as int, n as int) =~= number_str@.subrange(d as int, number_str@.len() as int));
    r
}

} // verus!
