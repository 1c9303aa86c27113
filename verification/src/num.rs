//! Exact fixed-point decimal numbers, carried as a plain mantissa and scale.
//!
//! A `Num` denotes the rational value `mantissa / 10^scale`.  The bounds on
//! mantissa and scale are those of the 96-bit decimal representation that the
//! arithmetic wrappers rely on.

use vstd::prelude::*;

verus! {

/// Largest mantissa magnitude a decimal can carry (`2^96 - 1`).
pub const MAX_MANTISSA: i128 = 79228162514264337593543950335i128;

/// Largest scale (count of fractional digits) a decimal can carry.
pub const MAX_SCALE: u32 = 28;

/// An exact fixed-point decimal: the denoted value is `mantissa / 10^scale`.
#[derive(Clone, Copy, Debug)]
pub struct Num {
    pub mantissa: i128,
    pub scale: u32,
}

/// Mathematical model of a `Num`: an unbounded mantissa and scale.
pub struct NumV {
    pub m: int,
    pub s: nat,
}

impl View for Num {
    type V = NumV;

    open spec fn view(&self) -> NumV {
        NumV { m: self.mantissa as int, s: self.scale as nat }
    }
}

/// `10^e`, as a mathematical integer.
pub open spec fn pow10(e: nat) -> int
    decreases e,
{
    if e == 0 {
        1
    } else {
        10 * pow10((e - 1) as nat)
    }
}

pub proof fn lemma_pow10_pos(e: nat)
    ensures
        pow10(e) >= 1,
    decreases e,
{
    if e > 0 {
        lemma_pow10_pos((e - 1) as nat);
    }
}

/// A model the 96-bit decimal representation can carry.
pub open spec fn num_wf(n: NumV) -> bool {
    n.s <= MAX_SCALE && -(MAX_MANTISSA as int) <= n.m <= MAX_MANTISSA as int
}

/// The two models denote the same rational value.
pub open spec fn num_eq_v(a: NumV, b: NumV) -> bool {
    a.m * pow10(b.s) == b.m * pow10(a.s)
}

/// `a` denotes a value no greater than `b`'s.
pub open spec fn num_le_v(a: NumV, b: NumV) -> bool {
    a.m * pow10(b.s) <= b.m * pow10(a.s)
}

/// `a` denotes a value strictly below `b`'s.
pub open spec fn num_lt_v(a: NumV, b: NumV) -> bool {
    a.m * pow10(b.s) < b.m * pow10(a.s)
}

/// Magnitude of an integer.
pub open spec fn mag_of(m: int) -> nat {
    if m < 0 {
        (-m) as nat
    } else {
        m as nat
    }
}

/// Normal form of a magnitude and scale: trailing decimal zeros stripped.
pub open spec fn sp_norm_mag(m: nat, s: nat) -> (nat, nat)
    decreases s,
{
    if s > 0 && m % 10 == 0 {
        sp_norm_mag(m / 10, (s - 1) as nat)
    } else {
        (m, s)
    }
}

/// Normal form of a decimal model: trailing zeros stripped from the mantissa,
/// lowering the scale accordingly.  Equal values have equal normal forms.
pub open spec fn sp_norm(n: NumV) -> NumV {
    let (mm, ss) = sp_norm_mag(mag_of(n.m), n.s);
    NumV { m: if n.m < 0 { -(mm as int) } else { mm as int }, s: ss }
}

proof fn lemma_norm_mag_value(m: nat, s: nat)
    ensures
        ({
            let (mm, ss) = sp_norm_mag(m, s);
            ss <= s && mm <= m && mm * pow10(s) == m * pow10(ss)
                && (ss > 0 ==> mm % 10 != 0)
        }),
    decreases s,
{
    if s > 0 && m % 10 == 0 {
        let m2 = m / 10;
        assert(m == m2 * 10) by (nonlinear_arith)
            requires m % 10 == 0, m2 == m / 10,
        ;
        lemma_norm_mag_value(m2, (s - 1) as nat);
        let (mm, ss) = sp_norm_mag(m2, (s - 1) as nat);
        assert(pow10(s) == 10 * pow10((s - 1) as nat));
        assert(mm * pow10(s) == (mm * pow10((s - 1) as nat)) * 10) by (nonlinear_arith)
            requires pow10(s) == 10 * pow10((s - 1) as nat),
        ;
        assert((m2 * pow10(ss)) * 10 == (m2 * 10) * pow10(ss)) by (nonlinear_arith);
    }
}

/// Normalisation keeps the denoted value, keeps well-formedness, and yields a
/// mantissa with no trailing zero (unless the scale is already zero).
pub proof fn lemma_norm_value(n: NumV)
    ensures
        num_eq_v(sp_norm(n), n),
        num_wf(n) ==> num_wf(sp_norm(n)),
        sp_norm(n).s <= n.s,
{
    lemma_norm_mag_value(mag_of(n.m), n.s);
    let (mm, ss) = sp_norm_mag(mag_of(n.m), n.s);
    lemma_pow10_pos(n.s);
    lemma_pow10_pos(ss);
    if n.m < 0 {
        assert(mm * pow10(n.s) == mag_of(n.m) * pow10(ss));
        assert((-(mm as int)) * pow10(n.s) == -(mm * pow10(n.s))) by (nonlinear_arith);
        assert(n.m * pow10(ss) == -(mag_of(n.m) * pow10(ss))) by (nonlinear_arith)
            requires n.m < 0, mag_of(n.m) == -n.m,
        ;
    }
}

impl Num {
    /// The representation is within the 96-bit decimal bounds.
    pub open spec fn wf(&self) -> bool {
        num_wf(self@)
    }

    /// Construct from a mantissa and scale.
    pub fn new(mantissa: i128, scale: u32) -> (r: Num)
        ensures
            r@ == (NumV { m: mantissa as int, s: scale as nat }),
    {
        Num { mantissa, scale }
    }

    /// The decimal zero.
    pub fn zero() -> (r: Num)
        ensures
            r@ == (NumV { m: 0, s: 0 }),
            r.wf(),
    {
        Num { mantissa: 0, scale: 0 }
    }

    /// Strip trailing zeros from the mantissa, lowering the scale.
    pub fn normalize(&self) -> (r: Num)
        requires
            self.wf(),
        ensures
            r@ == sp_norm(self@),
            r.wf(),
    {
        let neg: bool = self.mantissa < 0;
        let mut mag: u128 = if neg {
            (-self.mantissa) as u128
        } else {
            self.mantissa as u128
        };
        let mut sc: u32 = self.scale;
        proof {
            assert(mag as nat == mag_of(self@.m));
        }
        while sc > 0 && mag % 10 == 0
            invariant
                mag <= MAX_MANTISSA as u128,
                sc <= MAX_SCALE,
                sp_norm_mag(mag as nat, sc as nat) == sp_norm_mag(mag_of(self@.m), self@.s),
            decreases sc,
        {
            mag = mag / 10;
            sc = sc - 1;
        }
        let r = Num {
            mantissa: if neg {
                -(mag as i128)
            } else {
                mag as i128
            },
            scale: sc,
        };
        proof {
            assert(sp_norm_mag(mag as nat, sc as nat) == (mag as nat, sc as nat));
            if neg && mag == 0 {
                assert(r@ == sp_norm(self@));
            }
        }
        r
    }

    /// The denoted value as an integer, when it is one.
    pub open spec fn sp_int_val(n: NumV) -> Option<int> {
        let k = sp_norm(n);
        if k.s == 0 {
            Some(k.m)
        } else {
            None
        }
    }

    /// Return the denoted value when it is an integer.
    pub fn to_int(&self) -> (r: Option<i128>)
        requires
            self.wf(),
        ensures
            match r {
                Some(v) => Self::sp_int_val(self@) == Some(v as int) && -MAX_MANTISSA <= v <= MAX_MANTISSA,
                None => Self::sp_int_val(self@) is None,
            },
    {
        let k = self.normalize();
        if k.scale == 0 {
            Some(k.mantissa)
        } else {
            None
        }
    }

    /// Interpret the value as an array index: a non-negative integer that
    /// fits a `usize`.
    pub open spec fn sp_index_val(n: NumV) -> Option<nat> {
        match Self::sp_int_val(n) {
            Some(v) => if 0 <= v <= usize::MAX as int {
                Some(v as nat)
            } else {
                None
            },
            None => None,
        }
    }

    /// Return the value as an array index when it is one.
    pub fn to_index(&self) -> (r: Option<usize>)
        requires
            self.wf(),
        ensures
            match r {
                Some(v) => Self::sp_index_val(self@) == Some(v as nat),
                None => Self::sp_index_val(self@) is None,
            },
    {
        match self.to_int() {
            Some(v) => {
                if 0 <= v && v <= usize::MAX as i128 {
                    Some(v as usize)
                } else {
                    None
                }
            },
            None => None,
        }
    }
}

/// The decimal digit character for `d`.
pub open spec fn sp_digit(d: nat) -> char {
    if d == 0 {
        '0'
    } else if d == 1 {
        '1'
    } else if d == 2 {
        '2'
    } else if d == 3 {
        '3'
    } else if d == 4 {
        '4'
    } else if d == 5 {
        '5'
    } else if d == 6 {
        '6'
    } else if d == 7 {
        '7'
    } else if d == 8 {
        '8'
    } else {
        '9'
    }
}

/// Is `c` a decimal digit character?
pub open spec fn is_digit(c: char) -> bool {
    '0' <= c && c <= '9'
}

/// Value of a digit character.
pub open spec fn digit_val(c: char) -> nat {
    (c as int - '0' as int) as nat
}

/// Decimal digits of `v`, most significant first; empty for zero.
pub open spec fn sp_nat_digits(v: nat) -> Seq<char>
    decreases v,
{
    if v == 0 {
        Seq::empty()
    } else {
        sp_nat_digits(v / 10).push(sp_digit(v % 10))
    }
}

/// Decimal digits of `v`, with zero written as `"0"`.
pub open spec fn sp_nat_str(v: nat) -> Seq<char> {
    if v == 0 {
        seq!['0']
    } else {
        sp_nat_digits(v)
    }
}

/// Every character of `s` is a decimal digit.
pub open spec fn all_digits(s: Seq<char>) -> bool {
    forall|i: int| 0 <= i < s.len() ==> is_digit(s[i])
}

/// The number a sequence of digit characters denotes.
pub open spec fn sp_digits_val(s: Seq<char>) -> nat
    decreases s.len(),
{
    if s.len() == 0 {
        0
    } else {
        sp_digits_val(s.drop_last()) * 10 + digit_val(s.last())
    }
}

/// `dgs` left-padded with `'0'` up to `width` characters.
pub open spec fn sp_zero_pad(dgs: Seq<char>, width: nat) -> Seq<char>
    decreases width,
{
    if width <= dgs.len() {
        dgs
    } else {
        seq!['0'] + sp_zero_pad(dgs, (width - 1) as nat)
    }
}

/// Canonical text of a decimal model: normal form, minus sign for negative
/// values, no trailing fractional zeros and no trailing dot.
pub open spec fn sp_num_str(n: NumV) -> Seq<char> {
    let k = sp_norm(n);
    let mag = mag_of(k.m);
    let sign: Seq<char> = if k.m < 0 {
        seq!['-']
    } else {
        Seq::empty()
    };
    if k.s == 0 {
        sign + sp_nat_str(mag)
    } else {
        let p = pow10(k.s) as nat;
        sign + sp_nat_str(mag / p) + seq!['.'] + sp_zero_pad(sp_nat_digits(mag % p), k.s)
    }
}

pub proof fn lemma_digits_roundtrip(v: nat)
    ensures
        sp_digits_val(sp_nat_digits(v)) == v,
        all_digits(sp_nat_digits(v)),
        v > 0 ==> sp_nat_digits(v).len() > 0 && sp_nat_digits(v)[0] != '0',
    decreases v,
{
    if v > 0 {
        lemma_digits_roundtrip(v / 10);
        let s = sp_nat_digits(v);
        assert(s.drop_last() == sp_nat_digits(v / 10));
        assert(s.last() == sp_digit(v % 10));
        if v / 10 > 0 {
            assert(s[0] == sp_nat_digits(v / 10)[0]);
        }
    }
}

/// Appending digits multiplies the denoted value by the added power of ten.
pub proof fn lemma_digits_val_append(a: Seq<char>, b: Seq<char>)
    ensures
        sp_digits_val(a + b) == sp_digits_val(a) * pow10(b.len()) + sp_digits_val(b),
    decreases b.len(),
{
    if b.len() == 0 {
        assert(a + b == a);
        assert(sp_digits_val(a) * 1 == sp_digits_val(a)) by (nonlinear_arith);
    } else {
        lemma_digits_val_append(a, b.drop_last());
        assert((a + b).drop_last() == a + b.drop_last());
        assert((a + b).last() == b.last());
        let va = sp_digits_val(a);
        let vb = sp_digits_val(b.drop_last());
        let p = pow10((b.len() - 1) as nat);
        assert((va * p + vb) * 10 + digit_val(b.last()) == va * (10 * p) + (vb * 10 + digit_val(
            b.last(),
        ))) by (nonlinear_arith);
        assert(pow10(b.len()) == 10 * p);
    }
}

/// A longer digit string never denotes a smaller value.
proof fn lemma_digits_val_prefix(s: Seq<char>, i: int)
    requires
        0 <= i <= s.len(),
    ensures
        sp_digits_val(s.subrange(0, i)) <= sp_digits_val(s),
    decreases s.len() - i,
{
    if i < s.len() {
        lemma_digits_val_prefix(s, i + 1);
        let a = s.subrange(0, i);
        let b = s.subrange(0, i + 1);
        assert(b.drop_last() == a);
        assert(sp_digits_val(a) * 10 + digit_val(b.last()) >= sp_digits_val(a)) by (nonlinear_arith);
    } else {
        assert(s.subrange(0, i) == s);
    }
}

/// Map a digit value to its character.
fn digit_char(d: u8) -> (r: char)
    requires
        d < 10,
    ensures
        r == sp_digit(d as nat),
{
    match d {
        0 => '0',
        1 => '1',
        2 => '2',
        3 => '3',
        4 => '4',
        5 => '5',
        6 => '6',
        7 => '7',
        8 => '8',
        _ => '9',
    }
}

/// Digits of `v`, most significant first; empty for zero.
fn nat_digits(v: u128) -> (r: Vec<char>)
    ensures
        r@ == sp_nat_digits(v as nat),
{
    let mut rest: u128 = v;
    let mut rev: Vec<char> = Vec::new();
    while rest > 0
        invariant
            sp_nat_digits(v as nat) == sp_nat_digits(rest as nat) + rev@.reverse(),
        decreases rest,
    {
        let d = digit_char((rest % 10) as u8);
        proof {
            let old_rev = rev@;
            let rr = rest as nat;
            assert(sp_nat_digits(rr) == sp_nat_digits(rr / 10).push(sp_digit(rr % 10)));
            assert((old_rev.push(sp_digit(rr % 10))).reverse() =~= seq![sp_digit(rr % 10)]
                + old_rev.reverse());
            assert(sp_nat_digits(rr / 10) + (seq![sp_digit(rr % 10)] + old_rev.reverse())
                =~= (sp_nat_digits(rr / 10).push(sp_digit(rr % 10))) + old_rev.reverse());
        }
        rev.push(d);
        rest = rest / 10;
    }
    let mut r: Vec<char> = Vec::new();
    let mut i: usize = rev.len();
    while i > 0
        invariant
            i <= rev.len(),
            r@ == rev@.reverse().take(rev@.len() - i),
        decreases i,
    {
        i = i - 1;
        let c = rev[i];
        proof {
            assert(rev@.reverse().take(rev@.len() - i) =~= rev@.reverse().take(
                rev@.len() - i - 1,
            ).push(rev@[i as int]));
        }
        r.push(c);
    }
    proof {
        assert(r@ =~= rev@.reverse());
        assert(sp_nat_digits(0nat) + rev@.reverse() =~= rev@.reverse());
    }
    r
}

pub proof fn lemma_pow10_mono(a: nat, b: nat)
    requires
        a <= b,
    ensures
        pow10(a) <= pow10(b),
    decreases b,
{
    if a < b {
        lemma_pow10_mono(a, (b - 1) as nat);
        lemma_pow10_pos((b - 1) as nat);
    }
}

/// `10^28`, the largest power of ten a scale can call for.
pub proof fn lemma_pow10_28()
    ensures
        pow10(28) == 10000000000000000000000000000int,
{
    reveal_with_fuel(pow10, 30);
}

/// `10^e` for a scale-sized exponent.
fn pow10_u128(e: u32) -> (r: u128)
    requires
        e <= MAX_SCALE,
    ensures
        r as int == pow10(e as nat),
        r >= 1,
{
    let mut acc: u128 = 1;
    let mut i: u32 = 0;
    proof {
        lemma_pow10_28();
    }
    while i < e
        invariant
            i <= e,
            e <= MAX_SCALE,
            acc as int == pow10(i as nat),
            pow10(28) == 10000000000000000000000000000int,
        decreases e - i,
    {
        proof {
            lemma_pow10_mono((i + 1) as nat, 28);
            lemma_pow10_pos(i as nat);
        }
        acc = acc * 10;
        i = i + 1;
    }
    proof {
        lemma_pow10_pos(e as nat);
    }
    acc
}

/// `k!` as a mathematical number.
pub open spec fn sp_fact(k: nat) -> nat
    decreases k,
{
    if k == 0 {
        1
    } else {
        k * sp_fact((k - 1) as nat)
    }
}

pub proof fn lemma_fact_pos(k: nat)
    ensures
        sp_fact(k) >= 1,
    decreases k,
{
    if k > 0 {
        lemma_fact_pos((k - 1) as nat);
        assert(k * sp_fact((k - 1) as nat) >= sp_fact((k - 1) as nat)) by (nonlinear_arith)
            requires k >= 1, sp_fact((k - 1) as nat) >= 1,
        ;
    }
}

pub proof fn lemma_fact_mono(a: nat, b: nat)
    requires
        a <= b,
    ensures
        sp_fact(a) <= sp_fact(b),
    decreases b,
{
    if a < b {
        lemma_fact_mono(a, (b - 1) as nat);
        lemma_fact_pos((b - 1) as nat);
        assert(b * sp_fact((b - 1) as nat) >= sp_fact((b - 1) as nat)) by (nonlinear_arith)
            requires b >= 1, sp_fact((b - 1) as nat) >= 1,
        ;
    }
}

impl Num {
    /// The canonical text of the denoted value, as characters.
    pub fn to_chars(&self) -> (r: Vec<char>)
        requires
            self.wf(),
        ensures
            r@ == sp_num_str(self@),
    {
        let k = self.normalize();
        let neg: bool = k.mantissa < 0;
        let mag: u128 = if neg {
            (-k.mantissa) as u128
        } else {
            k.mantissa as u128
        };
        let mut r: Vec<char> = Vec::new();
        if neg {
            r.push('-');
        }
        if k.scale == 0 {
            let mut ds = nat_str_chars(mag);
            r.append(&mut ds);
            proof {
                assert(r@ =~= sp_num_str(self@));
            }
        } else {
            let p = pow10_u128(k.scale);
            let mut ip = nat_str_chars(mag / p);
            r.append(&mut ip);
            r.push('.');
            let fd = nat_digits(mag % p);
            let mut fp = zero_pad_chars(fd, k.scale as usize);
            r.append(&mut fp);
            proof {
                assert(r@ =~= sp_num_str(self@));
            }
        }
        r
    }

    /// `k!` as a decimal, or `None` when it is beyond the representable
    /// range.
    pub fn factorial(k: u128) -> (r: Option<Num>)
        ensures
            (match r {
                Some(n) => sp_fact(k as nat) <= MAX_MANTISSA as nat && n@ == (NumV {
                    m: sp_fact(k as nat) as int,
                    s: 0,
                }) && n.wf(),
                None => sp_fact(k as nat) > MAX_MANTISSA as nat,
            }),
    {
        let mut acc: u128 = 1;
        let mut i: u128 = 0;
        while i < k
            invariant
                i <= k,
                acc as nat == sp_fact(i as nat),
                acc <= MAX_MANTISSA as u128,
            decreases k - i,
        {
            proof {
                lemma_fact_pos(i as nat);
            }
            let next = i + 1;
            if acc > (MAX_MANTISSA as u128) / next {
                proof {
                    let f = sp_fact(i as nat);
                    assert(next * f > MAX_MANTISSA as nat) by (nonlinear_arith)
                        requires
                            f == acc as nat,
                            f >= 1,
                            acc > (MAX_MANTISSA as u128) / next,
                            next >= 1,
                            acc as int > (MAX_MANTISSA as int) / (next as int),
                    ;
                    assert(sp_fact(next as nat) == next * f);
                    lemma_fact_mono(next as nat, k as nat);
                }
                return None;
            }
            proof {
                let f = sp_fact(i as nat);
                assert(next * f <= MAX_MANTISSA as nat) by (nonlinear_arith)
                    requires
                        f == acc as nat,
                        acc <= (MAX_MANTISSA as u128) / next,
                        next >= 1,
                        acc as int <= (MAX_MANTISSA as int) / (next as int),
                ;
                assert(sp_fact(next as nat) == next * f);
            }
            acc = acc * next;
            i = next;
        }
        Some(Num { mantissa: acc as i128, scale: 0 })
    }
}

/// Digits of `v` with zero written as `"0"`.
fn nat_str_chars(v: u128) -> (r: Vec<char>)
    ensures
        r@ == sp_nat_str(v as nat),
{
    if v == 0 {
        let mut r: Vec<char> = Vec::new();
        r.push('0');
        proof {
            assert(r@ =~= seq!['0']);
        }
        r
    } else {
        nat_digits(v)
    }
}

/// `dgs` left-padded with `'0'` up to `width` characters.
fn zero_pad_chars(dgs: Vec<char>, width: usize) -> (r: Vec<char>)
    ensures
        r@ == sp_zero_pad(dgs@, width as nat),
{
    let mut r: Vec<char> = Vec::new();
    let mut need: usize = if width > dgs.len() {
        width - dgs.len()
    } else {
        0
    };
    proof {
        lemma_zero_pad_shape(dgs@, width as nat);
    }
    let mut pushed: usize = 0;
    while pushed < need
        invariant
            pushed <= need,
            r@ =~= Seq::new(pushed as nat, |i: int| '0'),
        decreases need - pushed,
    {
        r.push('0');
        pushed = pushed + 1;
        proof {
            assert(r@ =~= Seq::new(pushed as nat, |i: int| '0'));
        }
    }
    let mut tail = dgs;
    r.append(&mut tail);
    proof {
        assert(r@ =~= sp_zero_pad(dgs@, width as nat));
    }
    r
}

/// The padded string is the needed zeros followed by the digits.
proof fn lemma_zero_pad_shape(dgs: Seq<char>, width: nat)
    ensures
        sp_zero_pad(dgs, width) == Seq::new(
            if width > dgs.len() {
                (width - dgs.len()) as nat
            } else {
                0
            },
            |i: int| '0',
        ) + dgs,
    decreases width,
{
    if width <= dgs.len() {
        assert(sp_zero_pad(dgs, width) =~= Seq::new(0, |i: int| '0') + dgs);
    } else {
        lemma_zero_pad_shape(dgs, (width - 1) as nat);
        assert(seq!['0'] + (Seq::new(
            if width - 1 > dgs.len() {
                (width - 1 - dgs.len()) as nat
            } else {
                0
            },
            |i: int| '0',
        ) + dgs) =~= Seq::new((width - dgs.len()) as nat, |i: int| '0') + dgs);
    }
}

/// First occurrence of `c` in `s`.
pub open spec fn sp_find_char(s: Seq<char>, c: char) -> Option<nat>
    decreases s.len(),
{
    if s.len() == 0 {
        None
    } else if s[0] == c {
        Some(0)
    } else {
        match sp_find_char(s.drop_first(), c) {
            Some(i) => Some((i + 1) as nat),
            None => None,
        }
    }
}

pub proof fn lemma_find_char(s: Seq<char>, c: char)
    ensures
        match sp_find_char(s, c) {
            Some(i) => i < s.len() && s[i as int] == c && forall|j: int| 0 <= j < i ==> s[j] != c,
            None => forall|j: int| 0 <= j < s.len() ==> s[j] != c,
        },
    decreases s.len(),
{
    if s.len() > 0 && s[0] != c {
        let t = s.drop_first();
        lemma_find_char(t, c);
        assert(forall|j: int| 1 <= j < s.len() ==> s[j] == t[j - 1]);
    }
}

/// The decimal token grammar: an optional minus sign, one or more digits,
/// and optionally a dot followed by one or more digits; the value must fit
/// the representable range.
pub open spec fn sp_parse_dec(s: Seq<char>) -> Option<NumV> {
    let neg = s.len() > 0 && s[0] == '-';
    let t = if neg {
        s.drop_first()
    } else {
        s
    };
    match sp_find_char(t, '.') {
        None => {
            if t.len() >= 1 && all_digits(t) && sp_digits_val(t) <= MAX_MANTISSA as nat {
                Some(
                    NumV {
                        m: if neg {
                            -(sp_digits_val(t) as int)
                        } else {
                            sp_digits_val(t) as int
                        },
                        s: 0,
                    },
                )
            } else {
                None
            }
        },
        Some(i) => {
            let ip = t.subrange(0, i as int);
            let fp = t.subrange(i as int + 1, t.len() as int);
            if ip.len() >= 1 && fp.len() >= 1 && all_digits(ip) && all_digits(fp) && fp.len()
                <= MAX_SCALE as nat && sp_digits_val(ip + fp) <= MAX_MANTISSA as nat {
                Some(
                    NumV {
                        m: if neg {
                            -(sp_digits_val(ip + fp) as int)
                        } else {
                            sp_digits_val(ip + fp) as int
                        },
                        s: fp.len(),
                    },
                )
            } else {
                None
            }
        },
    }
}

/// `10^(x+y)` is the product of the powers.
pub proof fn lemma_pow10_add(x: nat, y: nat)
    ensures
        pow10((x + y) as nat) == pow10(x) * pow10(y),
    decreases x,
{
    if x == 0 {
        assert(1 * pow10(y) == pow10(y)) by (nonlinear_arith);
    } else {
        lemma_pow10_add((x - 1) as nat, y);
        assert(((x - 1) + y) as nat + 1 == (x + y) as nat);
        assert(pow10((x + y) as nat) == 10 * pow10(((x - 1) + y) as nat));
        assert(10 * (pow10((x - 1) as nat) * pow10(y)) == (10 * pow10((x - 1) as nat)) * pow10(
            y,
        )) by (nonlinear_arith);
    }
}

/// Denoted-value equality is transitive.
pub proof fn lemma_num_eq_v_trans(x: NumV, y: NumV, z: NumV)
    requires
        num_eq_v(x, y),
        num_eq_v(y, z),
    ensures
        num_eq_v(x, z),
{
    lemma_pow10_pos(x.s);
    lemma_pow10_pos(y.s);
    lemma_pow10_pos(z.s);
    let px = pow10(x.s);
    let py = pow10(y.s);
    let pz = pow10(z.s);
    assert(x.m * pz * py == z.m * px * py) by (nonlinear_arith)
        requires x.m * py == y.m * px, y.m * pz == z.m * py,
    ;
    assert(x.m * pz == z.m * px) by (nonlinear_arith)
        requires x.m * pz * py == z.m * px * py, py >= 1,
    ;
}

/// The ordered half of normal-form uniqueness: with the smaller scale first.
proof fn lemma_norm_unique_le(a: NumV, b: NumV)
    requires
        num_eq_v(a, b),
        sp_norm(a).s <= sp_norm(b).s,
    ensures
        sp_norm(a) == sp_norm(b),
{
    lemma_norm_value(a);
    lemma_norm_value(b);
    let na = sp_norm(a);
    let nb = sp_norm(b);
    lemma_num_eq_v_trans(na, a, b);
    assert(num_eq_v(b, nb));
    lemma_num_eq_v_trans(na, b, nb);
    lemma_norm_mag_value(mag_of(a.m), a.s);
    lemma_norm_mag_value(mag_of(b.m), b.s);
    lemma_pow10_pos(na.s);
    lemma_pow10_pos(nb.s);
    if na.m == 0 {
        assert(nb.m == 0) by (nonlinear_arith)
            requires 0 * pow10(nb.s) == nb.m * pow10(na.s), pow10(na.s) >= 1, pow10(nb.s) >= 1,
        ;
        assert(na.s == 0 && nb.s == 0) by {
            assert(mag_of(na.m) == 0 && mag_of(nb.m) == 0);
        }
    } else {
        let d = (nb.s - na.s) as nat;
        lemma_pow10_add(na.s, d);
        assert(na.m * pow10(d) == nb.m) by (nonlinear_arith)
            requires
                na.m * (pow10(na.s) * pow10(d)) == nb.m * pow10(na.s),
                pow10(na.s) >= 1,
        ;
        if d > 0 {
            assert(pow10(d) == 10 * pow10((d - 1) as nat));
            lemma_pow10_pos((d - 1) as nat);
            let mb = mag_of(nb.m);
            assert(mb == mag_of(na.m) * pow10(d)) by (nonlinear_arith)
                requires
                    nb.m == na.m * pow10(d),
                    pow10(d) >= 1,
                    mb == mag_of(nb.m),
                    mag_of(na.m) == (if na.m < 0 { -na.m } else { na.m }),
                    mag_of(nb.m) == (if nb.m < 0 { -nb.m } else { nb.m }),
            ;
            let k = mag_of(na.m) * pow10((d - 1) as nat);
            assert(mb == k * 10) by (nonlinear_arith)
                requires
                    mb == mag_of(na.m) * (10 * pow10((d - 1) as nat)),
                    k == mag_of(na.m) * pow10((d - 1) as nat),
            ;
            vstd::arithmetic::div_mod::lemma_mod_multiples_basic(k as int, 10);
            assert(mb % 10 == 0);
            assert(nb.s > 0);
            assert(mag_of(nb.m) % 10 != 0);
            assert(false);
        } else {
            assert(na.m == nb.m);
            assert(na.s == nb.s);
            assert(na == nb);
        }
    }
    if na.m == 0 {
        assert(na == nb);
    }
}

/// Equal denoted values have equal normal forms: the canonical text of two
/// numerically equal decimals is the same.
pub proof fn lemma_norm_unique(a: NumV, b: NumV)
    requires
        num_eq_v(a, b),
    ensures
        sp_norm(a) == sp_norm(b),
{
    if sp_norm(a).s <= sp_norm(b).s {
        lemma_norm_unique_le(a, b);
    } else {
        assert(num_eq_v(b, a));
        lemma_norm_unique_le(b, a);
    }
}

/// A value below `10^w` prints in at most `w` digits.
proof fn lemma_digits_len_bound(v: nat, w: nat)
    requires
        v < pow10(w),
    ensures
        sp_nat_digits(v).len() <= w,
    decreases w,
{
    if v > 0 {
        assert(w > 0);
        assert(pow10(w) == 10 * pow10((w - 1) as nat));
        assert(v / 10 < pow10((w - 1) as nat)) by (nonlinear_arith)
            requires v < 10 * pow10((w - 1) as nat),
        ;
        lemma_digits_len_bound(v / 10, (w - 1) as nat);
    }
}

/// A run of zero characters denotes zero.
proof fn lemma_digits_val_zeros(k: nat)
    ensures
        sp_digits_val(Seq::new(k, |i: int| '0')) == 0,
        all_digits(Seq::new(k, |i: int| '0')),
    decreases k,
{
    if k > 0 {
        lemma_digits_val_zeros((k - 1) as nat);
        assert(Seq::new(k, |i: int| '0').drop_last() =~= Seq::new((k - 1) as nat, |i: int| '0'));
    }
}

/// Printing a well-formed decimal and parsing the text back yields its
/// normal form: the number case of the literal round trip.
#[verifier::spinoff_prover]
#[verifier::rlimit(100)]
pub proof fn lemma_num_str_roundtrip(n: NumV)
    requires
        num_wf(n),
    ensures
        sp_parse_dec(sp_num_str(n)) == Some(sp_norm(n)),
{
    lemma_norm_value(n);
    let k = sp_norm(n);
    let mag = mag_of(k.m);
    let s = sp_num_str(n);
    let neg = k.m < 0;
    if k.s == 0 {
        let body = sp_nat_str(mag);
        lemma_digits_roundtrip(mag);
        assert(all_digits(body) && body.len() >= 1 && sp_digits_val(body) == mag) by {
            if mag == 0 {
                assert(body =~= seq!['0']);
                assert(body.drop_last() =~= Seq::<char>::empty());
            }
        }
        let t: Seq<char> = if neg {
            assert(s[0] == '-');
            assert(s.drop_first() =~= body);
            s.drop_first()
        } else {
            assert(s =~= body);
            assert(is_digit(s[0]));
            s
        };
        assert(t == body);
        lemma_find_char(t, '.');
        match sp_find_char(t, '.') {
            Some(i) => {
                assert(is_digit(t[i as int]));
                assert(false);
            },
            None => {},
        }
        assert(mag <= MAX_MANTISSA as nat);
    } else {
        let p = pow10(k.s) as nat;
        lemma_pow10_pos(k.s);
        let ip = sp_nat_str(mag / p);
        let dgs = sp_nat_digits(mag % p);
        let fpad = sp_zero_pad(dgs, k.s);
        lemma_digits_roundtrip(mag / p);
        lemma_digits_roundtrip(mag % p);
        assert(all_digits(ip) && ip.len() >= 1 && sp_digits_val(ip) == mag / p) by {
            if mag / p == 0 {
                assert(ip =~= seq!['0']);
                assert(ip.drop_last() =~= Seq::<char>::empty());
            }
        }
        assert(mag % p < p);
        lemma_digits_len_bound(mag % p, k.s);
        lemma_zero_pad_shape(dgs, k.s);
        let zeros = Seq::new((k.s - dgs.len()) as nat, |i: int| '0');
        assert(fpad =~= zeros + dgs);
        lemma_digits_val_zeros((k.s - dgs.len()) as nat);
        lemma_digits_val_append(zeros, dgs);
        assert(sp_digits_val(fpad) == mag % p);
        assert(fpad.len() == k.s);
        assert(all_digits(fpad)) by {
            assert(forall|j: int|
                0 <= j < fpad.len() ==> #[trigger] fpad[j] == (if j < zeros.len() {
                    '0'
                } else {
                    dgs[j - zeros.len()]
                }));
        }
        let body = ip + seq!['.'] + fpad;
        assert(s =~= (if neg {
            seq!['-'] + body
        } else {
            body
        }));
        let t: Seq<char> = if neg {
            assert(s[0] == '-');
            assert(s.drop_first() =~= body);
            s.drop_first()
        } else {
            assert(s =~= body);
            assert(is_digit(s[0]));
            s
        };
        assert(t == body);
        let d = ip.len() as int;
        assert(t[d] == '.');
        assert(forall|j: int| 0 <= j < d ==> #[trigger] t[j] == ip[j] && is_digit(ip[j]));
        lemma_find_char(t, '.');
        match sp_find_char(t, '.') {
            None => {
                assert(false);
            },
            Some(i) => {
                assert(i <= d);
                assert(i >= d) by {
                    if i < d {
                        assert(is_digit(t[i as int]));
                    }
                }
                let ip2 = t.subrange(0, d);
                let fp2 = t.subrange(d + 1, t.len() as int);
                assert(ip2 =~= ip);
                assert(fp2 =~= fpad);
                lemma_digits_val_append(ip, fpad);
                assert(sp_digits_val(ip + fpad) == (mag / p) * p + mag % p) by (nonlinear_arith)
                    requires
                        sp_digits_val(ip + fpad) == sp_digits_val(ip) * pow10(fpad.len()) + sp_digits_val(fpad),
                        sp_digits_val(ip) == mag / p,
                        sp_digits_val(fpad) == mag % p,
                        pow10(fpad.len()) == p,
                ;
                assert((mag / p) * p + mag % p == mag) by (nonlinear_arith)
                    requires p >= 1,
                ;
                assert(mag <= MAX_MANTISSA as nat);
            },
        }
    }
}

/// Value of a digit character.
pub fn char_digit_val(c: char) -> (r: u8)
    requires
        is_digit(c),
    ensures
        r as nat == digit_val(c),
        r < 10,
{
    ((c as u32) - ('0' as u32)) as u8
}

/// The value of the digit run `cs[lo..hi]`, unless it exceeds the mantissa
/// range.
#[verifier::loop_isolation(false)]
pub fn digits_val_checked(cs: &Vec<char>, lo: usize, hi: usize) -> (r: Option<u128>)
    requires
        lo <= hi <= cs@.len(),
        all_digits(cs@.subrange(lo as int, hi as int)),
    ensures
        match r {
            Some(v) => v as nat == sp_digits_val(cs@.subrange(lo as int, hi as int)) && v
                <= MAX_MANTISSA as u128,
            None => sp_digits_val(cs@.subrange(lo as int, hi as int)) > MAX_MANTISSA as nat,
        },
{
    let full = Ghost(cs@.subrange(lo as int, hi as int));
    let mut acc: u128 = 0;
    let mut i: usize = lo;
    while i < hi
        invariant
            lo <= i <= hi,
            acc as nat == sp_digits_val(cs@.subrange(lo as int, i as int)),
            acc <= MAX_MANTISSA as u128,
        decreases hi - i,
    {
        let c = cs[i];
        proof {
            assert(full@[i - lo] == cs@[i as int]);
        }
        let d = char_digit_val(c);
        let acc2: u128 = acc * 10 + (d as u128);
        proof {
            assert(cs@.subrange(lo as int, i as int + 1).drop_last() =~= cs@.subrange(
                lo as int,
                i as int,
            ));
            assert(cs@.subrange(lo as int, i as int + 1).last() == cs@[i as int]);
        }
        if acc2 > MAX_MANTISSA as u128 {
            proof {
                lemma_digits_val_prefix(full@, i as int + 1 - lo);
                assert(full@.subrange(0, i as int + 1 - lo) =~= cs@.subrange(
                    lo as int,
                    i as int + 1,
                ));
            }
            return None;
        }
        acc = acc2;
        i = i + 1;
    }
    Some(acc)
}

/// Parse a decimal token, as `sp_parse_dec` describes.
#[verifier::loop_isolation(false)]
#[verifier::spinoff_prover]
#[verifier::rlimit(100)]
pub fn parse_dec_chars(cs: &Vec<char>) -> (r: Option<Num>)
    ensures
        match r {
            Some(n) => sp_parse_dec(cs@) == Some(n@) && n.wf(),
            None => sp_parse_dec(cs@) is None,
        },
{
    let neg: bool = cs.len() > 0 && cs[0] == '-';
    let start: usize = if neg {
        1
    } else {
        0
    };
    let ghost t = if neg {
        cs@.drop_first()
    } else {
        cs@
    };
    proof {
        assert(t =~= cs@.subrange(start as int, cs@.len() as int));
        lemma_find_char(t, '.');
    }
    // Find the first dot.
    let mut i: usize = start;
    while i < cs.len() && cs[i] != '.'
        invariant
            start <= i <= cs@.len(),
            forall|j: int| start <= j < i ==> cs@[j] != '.',
        decreases cs@.len() - i,
    {
        i = i + 1;
    }
    if i == cs.len() {
            proof {
                assert(forall|j: int| 0 <= j < t.len() ==> t[j] == cs@[start + j]);
                match sp_find_char(t, '.') {
                    Some(k) => {
                        assert(t[k as int] == cs@[start + k]);
                        assert(false);
                    },
                    None => {},
                }
            }
            if cs.len() == start {
                proof {
                    assert(t.len() == 0);
                }
                return None;
            }
            // Every remaining character must be a digit.
            let mut j: usize = start;
            while j < cs.len()
                invariant
                    start <= j <= cs@.len(),
                    forall|k: int| start <= k < j ==> is_digit(cs@[k]),
                decreases cs@.len() - j,
            {
                let c = cs[j];
                if !('0' <= c && c <= '9') {
                    proof {
                        assert(!all_digits(t)) by {
                            assert(t[j - start] == cs@[j as int]);
                        }
                    }
                    return None;
                }
                j = j + 1;
            }
            proof {
                assert(all_digits(t)) by {
                    assert(forall|k: int| 0 <= k < t.len() ==> t[k] == cs@[start + k]);
                }
            }
            match digits_val_checked(cs, start, cs.len()) {
                Some(v) => {
                    let m: i128 = if neg {
                        -(v as i128)
                    } else {
                        v as i128
                    };
                    Some(Num { mantissa: m, scale: 0 })
                },
                None => None,
            }
        } else {
            let d: usize = i;
            proof {
                assert(t[d - start] == '.');
                assert(sp_find_char(t, '.') == Some((d - start) as nat)) by {
                    match sp_find_char(t, '.') {
                        Some(k) => {
                            if k < d - start {
                                assert(cs@[start + k] == '.');
                            }
                            if k > d - start {
                                assert(t[d - start] != '.');
                            }
                        },
                        None => {
                            assert(t[d - start] != '.');
                        },
                    }
                }
            }
            let ghost ip = t.subrange(0, d - start);
            let ghost fp = t.subrange(d - start + 1, t.len() as int);
            if d == start || d + 1 == cs.len() {
                proof {
                    assert(ip.len() == 0 || fp.len() == 0);
                }
                return None;
            }
            let fplen: usize = cs.len() - d - 1;
            if fplen > MAX_SCALE as usize {
                return None;
            }
            // Both digit runs must hold digits only.
            let mut j: usize = start;
            let mut digits: Vec<char> = Vec::new();
            while j < cs.len()
                invariant
                    start <= j <= cs@.len(),
                    start <= d < cs@.len(),
                    j != d ==> j > d || j < d,
                    forall|k: int| start <= k < j && k != d ==> is_digit(cs@[k]),
                    digits@ =~= if j <= d {
                        cs@.subrange(start as int, j as int)
                    } else {
                        cs@.subrange(start as int, d as int) + cs@.subrange(d as int + 1, j as int)
                    },
                decreases cs@.len() - j,
            {
                let c = cs[j];
                if j != d {
                    if !('0' <= c && c <= '9') {
                        proof {
                            if j < d {
                                assert(ip[j - start] == cs@[j as int]);
                                assert(!all_digits(ip));
                            } else {
                                assert(fp[j - (d + 1)] == cs@[j as int]);
                                assert(!all_digits(fp));
                            }
                        }
                        return None;
                    }
                    digits.push(c);
                }
                j = j + 1;
            }
            proof {
                assert(digits@ =~= ip + fp);
                assert(all_digits(ip)) by {
                    assert(forall|k: int| 0 <= k < ip.len() ==> ip[k] == cs@[start + k]);
                }
                assert(all_digits(fp)) by {
                    assert(forall|k: int| 0 <= k < fp.len() ==> fp[k] == cs@[d + 1 + k]);
                }
                assert(all_digits(digits@.subrange(0, digits@.len() as int))) by {
                    assert(digits@.subrange(0, digits@.len() as int) =~= digits@);
                }
                assert(fp.len() == fplen as nat);
            }
            match digits_val_checked(&digits, 0, digits.len()) {
                Some(v) => {
                    proof {
                        assert(digits@.subrange(0, digits@.len() as int) =~= ip + fp);
                    }
                    let m: i128 = if neg {
                        -(v as i128)
                    } else {
                        v as i128
                    };
                    Some(Num { mantissa: m, scale: fplen as u32 })
                },
                None => {
                    proof {
                        assert(digits@.subrange(0, digits@.len() as int) =~= ip + fp);
                    }
                    None
                },
            }
        }
}

} // verus!
