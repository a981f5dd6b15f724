//! The columns of a long listing: permission bits, sizes and times.

use vstd::prelude::*;
use crate::text::{decimal, decimal_chars, digit, digit_char, string_of};

verus! {

/// The permission bits of `mode` as three octal digits: owner, group, other.
pub open spec fn permission_text(mode: u32) -> Seq<char> {
    let m = (mode % 512) as nat;
    seq![digit(m / 64), digit((m / 8) % 8), digit(m % 8)]
}

/// Renders the low nine bits of `mode` as three octal digits.
pub fn format_permissions(mode: u32) -> (r: String)
    ensures
        r@ == permission_text(mode),
        r@.len() == 3,
{
    let m: u32 = mode & 0o777;
    assert(mode & 0o777 == mode % 512) by (bit_vector);
    let v = vec![
        digit_char((m / 64) as u64),
        digit_char(((m / 8) % 8) as u64),
        digit_char((m % 8) as u64),
    ];
    string_of(v.as_slice())
}

proof fn lemma_digit_injective(a: nat, b: nat)
    requires
        a < 10,
        b < 10,
        digit(a) == digit(b),
    ensures
        a == b,
{
}

/// Permission text shows exactly the low nine bits: two modes render alike
/// if and only if those bits agree.
pub proof fn lemma_permission_bits(a: u32, b: u32)
    ensures
        permission_text(a) == permission_text(b) <==> a % 512 == b % 512,
{
    let x = (a % 512) as nat;
    let y = (b % 512) as nat;
    if permission_text(a) == permission_text(b) {
        assert(permission_text(a)[0] == permission_text(b)[0]);
        assert(permission_text(a)[1] == permission_text(b)[1]);
        assert(permission_text(a)[2] == permission_text(b)[2]);
        lemma_digit_injective(x / 64, y / 64);
        lemma_digit_injective((x / 8) % 8, (y / 8) % 8);
        lemma_digit_injective(x % 8, y % 8);
        assert(x == 64 * (x / 64) + 8 * ((x / 8) % 8) + x % 8);
        assert(y == 64 * (y / 64) + 8 * ((y / 8) % 8) + y % 8);
    }
}

/// Whether any execute bit of `mode` is set.
pub fn is_executable_mode(mode: u32) -> (r: bool)
    ensures
        r == (mode & 0o111 != 0),
{
    mode & 0o111 != 0
}

pub open spec fn pow1024(k: nat) -> nat
    decreases k,
{
    if k == 0 {
        1
    } else {
        1024 * pow1024((k - 1) as nat)
    }
}

/// How many times `size` is divided by 1024: while the value is at least
/// 1024 and a larger unit remains.
pub open spec fn unit_steps(size: nat, k: nat) -> nat
    decreases 4 - k,
{
    if k < 4 && size >= pow1024(k + 1) {
        unit_steps(size, k + 1)
    } else {
        k
    }
}

pub open spec fn unit_char(k: nat) -> char {
    if k == 0 { 'B' }
    else if k == 1 { 'K' }
    else if k == 2 { 'M' }
    else if k == 3 { 'G' }
    else { 'T' }
}

/// `size / 1024^k` in tenths, to the nearest tenth; a value half-way
/// between two tenths goes to the even one (1280 bytes are `1.2K`).
pub open spec fn tenths(size: nat, k: nat) -> nat {
    let n = 20 * size + pow1024(k);
    let q = 2 * pow1024(k);
    let t = n / q;
    if n % q == 0 && t % 2 == 1 {
        (t - 1) as nat
    } else {
        t
    }
}

/// A size in binary units with one decimal place: `0.0B`, `1.5K`, `1.0G`.
pub open spec fn size_text(size: nat) -> Seq<char> {
    let k = unit_steps(size, 0);
    let t = tenths(size, k);
    decimal(t / 10) + seq!['.', digit(t % 10), unit_char(k)]
}

/// Renders a byte count in B, K, M, G or T, with one decimal place.
pub fn format_size(size: u64) -> (r: String)
    ensures
        r@ == size_text(size as nat),
{
    let mut k: u64 = 0;
    let mut p: u64 = 1;
    while k < 4 && size >= p * 1024
        invariant
            k <= 4,
            p == pow1024(k as nat),
            p <= 1099511627776,
            unit_steps(size as nat, 0) == unit_steps(size as nat, k as nat),
        decreases 4 - k,
    {
        proof {
            lemma_pow1024_bound(k as nat + 1);
            assert(pow1024(k as nat + 1) == 1024 * pow1024(k as nat));
        }
        p = p * 1024;
        k = k + 1;
        proof {
            assert(pow1024(k as nat) == 1024 * pow1024((k - 1) as nat));
        }
    }
    proof {
        assert(pow1024(k as nat + 1) == 1024 * pow1024(k as nat));
    }
    let pw: u128 = p as u128;
    assert(pw > 0) by {
        lemma_pow1024_pos(k as nat);
    }
    let n: u128 = 20 * (size as u128) + pw;
    let q: u128 = 2 * pw;
    let t0: u128 = n / q;
    let t: u128 = if n % q == 0 && t0 % 2 == 1 {
        t0 - 1
    } else {
        t0
    };
    let mut v = decimal_chars(t / 10);
    v.push('.');
    v.push(digit_char((t % 10) as u64));
    let u = if k == 0 {
        'B'
    } else if k == 1 {
        'K'
    } else if k == 2 {
        'M'
    } else if k == 3 {
        'G'
    } else {
        'T'
    };
    v.push(u);
    assert(v@ =~= size_text(size as nat));
    string_of(v.as_slice())
}

proof fn lemma_pow1024_bound(k: nat)
    requires
        k <= 4,
    ensures
        pow1024(k) <= 1099511627776,
{
    reveal_with_fuel(pow1024, 5);
}

proof fn lemma_unit_steps(size: nat, k0: nat)
    requires
        k0 <= 4,
        k0 == 0 || size >= pow1024(k0),
    ensures
        k0 <= unit_steps(size, k0) <= 4,
        unit_steps(size, k0) == 0 || size >= pow1024(unit_steps(size, k0)),
        unit_steps(size, k0) < 4 ==> size < pow1024(unit_steps(size, k0) + 1),
    decreases 4 - k0,
{
    if k0 < 4 && size >= pow1024(k0 + 1) {
        lemma_unit_steps(size, k0 + 1);
    }
}

/// Sizes are scaled correctly: the unit is the largest of B, K, M, G, T
/// that the size reaches, and the shown value is the size in that unit to the
/// nearest tenth, an even tenth where two are equally near.
pub proof fn lemma_size_scaling(size: nat)
    ensures
        ({
            let k = unit_steps(size, 0);
            let p = pow1024(k);
            let t = tenths(size, k);
            &&& k <= 4
            &&& k == 0 || size >= p
            &&& k < 4 ==> size < 1024 * p
            &&& 2 * t * p <= 20 * size + p
            &&& 20 * size <= 2 * t * p + p
            &&& 20 * size + p == 2 * t * p || 20 * size == 2 * t * p + p ==> t % 2 == 0
        }),
{
    let k = unit_steps(size, 0);
    lemma_unit_steps(size, 0);
    lemma_pow1024_pos(k);
    let p = pow1024(k);
    assert(pow1024(k + 1) == 1024 * p);
    let q = 2 * p;
    let n = 20 * size + p;
    let t0 = n / q;
    assert(t0 * q <= n < (t0 + 1) * q) by (nonlinear_arith)
        requires
            q > 0,
            t0 == n / q,
    ;
    assert(n % q == n - t0 * q) by (nonlinear_arith)
        requires
            q > 0,
            t0 == n / q,
    ;
    assert(2 * t0 * p == t0 * q) by (nonlinear_arith)
        requires
            q == 2 * p,
    ;
    if n % q == 0 && t0 % 2 == 1 {
        assert(2 * (t0 - 1) * p == 2 * t0 * p - 2 * p) by (nonlinear_arith);
    } else {
        if n == 2 * t0 * p + 2 * p {
            assert(false);
        }
    }
}

proof fn lemma_pow1024_pos(k: nat)
    ensures
        pow1024(k) > 0,
    decreases k,
{
    if k > 0 {
        lemma_pow1024_pos((k - 1) as nat);
    }
}

/// A local date and time to the minute.
#[derive(Clone, Copy, Debug, PartialEq, Eq)]
pub struct Stamp {
    pub year: i32,
    pub month: u32,
    pub day: u32,
    pub hour: u32,
    pub minute: u32,
}

impl Stamp {
    pub open spec fn wf(&self) -> bool {
        &&& 1 <= self.month <= 12
        &&& 1 <= self.day <= 31
        &&& self.hour < 24
        &&& self.minute < 60
    }
}

/// `n` with leading zeros up to `width` digits.
pub open spec fn zero_padded(n: nat, width: nat) -> Seq<char> {
    let d = decimal(n);
    if d.len() < width {
        Seq::new((width - d.len()) as nat, |i: int| '0') + d
    } else {
        d
    }
}

/// A year as `%Y` shows it: four digits for years 0 to 9999, else a sign and
/// at least four digits.
pub open spec fn year_text(y: int) -> Seq<char> {
    if 0 <= y <= 9999 {
        zero_padded(y as nat, 4)
    } else if y < 0 {
        seq!['-'] + zero_padded((-y) as nat, 4)
    } else {
        seq!['+'] + zero_padded(y as nat, 4)
    }
}

/// `YYYY-MM-DD HH:MM`.
pub open spec fn stamp_text(s: Stamp) -> Seq<char> {
    year_text(s.year as int) + seq!['-'] + zero_padded(s.month as nat, 2) + seq!['-']
        + zero_padded(s.day as nat, 2) + seq![' '] + zero_padded(s.hour as nat, 2) + seq![':']
        + zero_padded(s.minute as nat, 2)
}

fn push_zero_padded(v: &mut Vec<char>, n: u128, width: usize)
    ensures
        final(v)@ == old(v)@ + zero_padded(n as nat, width as nat),
{
    let d = decimal_chars(n);
    let mut i: usize = d.len();
    let ghost start = v@;
    while i < width
        invariant
            d@ == decimal(n as nat),
            d@.len() <= i <= width || (i == d@.len() && i >= width),
            v@ == start + Seq::new((i - d@.len()) as nat, |j: int| '0'),
        decreases width - i,
    {
        v.push('0');
        assert(v@ =~= start + Seq::new((i + 1 - d@.len()) as nat, |j: int| '0'));
        i = i + 1;
    }
    let ghost mid = v@;
    crate::text::push_all(v, &d);
    assert(final(v)@ =~= old(v)@ + zero_padded(n as nat, width as nat));
}

/// Renders a stamp as `YYYY-MM-DD HH:MM`.
pub fn format_stamp(s: Stamp) -> (r: String)
    ensures
        r@ == stamp_text(s),
{
    let mut v: Vec<char> = Vec::new();
    if 0 <= s.year && s.year <= 9999 {
        push_zero_padded(&mut v, s.year as u128, 4);
    } else if s.year < 0 {
        v.push('-');
        let a: i64 = -(s.year as i64);
        push_zero_padded(&mut v, a as u128, 4);
    } else {
        v.push('+');
        push_zero_padded(&mut v, s.year as u128, 4);
    }
    assert(v@ =~= year_text(s.year as int));
    v.push('-');
    push_zero_padded(&mut v, s.month as u128, 2);
    v.push('-');
    push_zero_padded(&mut v, s.day as u128, 2);
    v.push(' ');
    push_zero_padded(&mut v, s.hour as u128, 2);
    v.push(':');
    push_zero_padded(&mut v, s.minute as u128, 2);
    assert(v@ =~= stamp_text(s));
    string_of(v.as_slice())
}

} // verus!
