//! Unit-aware numeric values: pixels, percentages, and plain numbers.
//!
//! A value is an exact decimal: `mantissa / 10^scale`, negated when `neg`
//! holds.  Parsing a malformed string yields a typed failure, never a
//! silently-zeroed value, and printing a parsed value reproduces it.

use vstd::prelude::*;
use crate::strutil::all_digits;
use crate::strutil::dec_digits;
use crate::strutil::digit_val;
use crate::strutil::digits_end;
use crate::strutil::is_digit;
use crate::strutil::is_digit_char;
use crate::strutil::lemma_dec_digits;
use crate::strutil::lemma_digits_end_is;
use crate::strutil::lemma_digits_end_props;
use crate::strutil::lemma_padded_digits;
use crate::strutil::lemma_pow10_pos;
use crate::strutil::lemma_seq_val_concat;
use crate::strutil::lemma_seq_val_nonneg;
use crate::strutil::padded_digits;
use crate::strutil::pow10;
use crate::strutil::seq_val;
use crate::strutil::u64_to_dec;
use crate::strutil::u64_to_padded;
use vstd::arithmetic::div_mod::lemma_fundamental_div_mod;
use vstd::string::*;

verus! {

/// The unit a numeric value carries.
#[derive(Clone, Copy, Debug, PartialEq, Eq, Structural)]
pub enum Unit {
    Pixel,
    Percent,
    Plain,
}

/// An exact decimal quantity with a unit.
#[derive(Clone, Copy, Debug, PartialEq, Eq, Structural)]
pub struct Size {
    pub unit: Unit,
    pub neg: bool,
    pub mantissa: u64,
    pub scale: u32,
}

/// Malformed or unrepresentable numeric text.
#[derive(Clone, Copy, Debug, PartialEq, Eq, Structural)]
pub struct SizeError;

/// Highest fraction width the parser accepts.
pub const MAX_SCALE: u32 = 18;

impl Size {
    /// Canonical form: no trailing fraction zeros, no negative zero,
    /// and a fraction narrow enough to round-trip through `u64` math.
    pub open spec fn wf(self) -> bool {
        self.scale <= MAX_SCALE && (self.scale == 0 || self.mantissa % 10 != 0) && (self.neg
            ==> self.mantissa > 0)
    }

    /// Whole pixels.
    pub fn pixels(n: u64) -> (r: Size)
        ensures
            r == (Size { unit: Unit::Pixel, neg: false, mantissa: n, scale: 0u32 }),
            r.wf(),
    {
        Size { unit: Unit::Pixel, neg: false, mantissa: n, scale: 0 }
    }

    /// Whole percent points.
    pub fn percent(n: u64) -> (r: Size)
        ensures
            r == (Size { unit: Unit::Percent, neg: false, mantissa: n, scale: 0u32 }),
            r.wf(),
    {
        Size { unit: Unit::Percent, neg: false, mantissa: n, scale: 0 }
    }
}

/// Characters of a unit suffix.
pub open spec fn unit_chars(u: Unit) -> Seq<char> {
    match u {
        Unit::Pixel => seq!['p', 'x'],
        Unit::Percent => seq!['%'],
        Unit::Plain => Seq::<char>::empty(),
    }
}

/// Unit named by a suffix, if any.
pub open spec fn spec_unit(s: Seq<char>) -> Option<Unit> {
    if s.len() == 0 {
        Some(Unit::Plain)
    } else if s.len() == 1 && s[0] == '%' {
        Some(Unit::Percent)
    } else if s.len() == 2 && s[0] == 'p' && s[1] == 'x' {
        Some(Unit::Pixel)
    } else {
        None
    }
}

/// Strip trailing fraction zeros and normalize a negative zero.
pub open spec fn spec_normalize(u: Unit, neg: bool, m: nat, sc: nat) -> Size
    decreases sc,
{
    if sc > 0 && m % 10 == 0 {
        spec_normalize(u, neg, m / 10, (sc - 1) as nat)
    } else {
        Size { unit: u, neg: neg && m > 0, mantissa: m as u64, scale: sc as u32 }
    }
}

pub proof fn lemma_normalize_wf(u: Unit, neg: bool, m: nat, sc: nat)
    requires
        m <= u64::MAX,
    ensures
        spec_normalize(u, neg, m, sc).mantissa <= m,
        spec_normalize(u, neg, m, sc).scale <= sc,
        spec_normalize(u, neg, m, sc).scale <= MAX_SCALE ==> spec_normalize(u, neg, m, sc).wf(),
    decreases sc,
{
    if sc > 0 && m % 10 == 0 {
        lemma_normalize_wf(u, neg, m / 10, (sc - 1) as nat);
    }
}

/// Assemble a parsed value from its pieces; `None` when the suffix is
/// unknown or the digits do not fit the representation.
pub open spec fn spec_build(neg: bool, intd: Seq<char>, fracd: Seq<char>, suffix: Seq<char>) -> Option<Size> {
    match spec_unit(suffix) {
        None => None,
        Some(u) => {
            let m = seq_val(intd) * pow10(fracd.len()) + seq_val(fracd);
            if m > u64::MAX || fracd.len() > MAX_SCALE {
                None
            } else {
                Some(spec_normalize(u, neg, m as nat, fracd.len()))
            }
        },
    }
}

/// Grammar: optional sign, digits, an optional point followed by digits,
/// and one of the suffixes `px`, `%`, or none.
pub open spec fn spec_parse(s: Seq<char>) -> Option<Size> {
    if s.len() == 0 {
        None
    } else {
        let neg = s[0] == '-';
        let i0: int = if s[0] == '-' || s[0] == '+' {
            1
        } else {
            0
        };
        let d1 = digits_end(s, i0);
        if d1 == i0 {
            None
        } else if d1 < s.len() && s[d1] == '.' {
            let d2 = digits_end(s, d1 + 1);
            if d2 == d1 + 1 {
                None
            } else {
                spec_build(
                    neg,
                    s.subrange(i0, d1),
                    s.subrange(d1 + 1, d2),
                    s.subrange(d2, s.len() as int),
                )
            }
        } else {
            spec_build(neg, s.subrange(i0, d1), Seq::<char>::empty(), s.subrange(d1, s.len() as int))
        }
    }
}

impl Size {
    /// Canonical text: sign, integer digits, fraction when present, suffix.
    pub open spec fn spec_str(self) -> Seq<char> {
        let p = pow10(self.scale as nat);
        let ip = self.mantissa as int / p;
        let fr = self.mantissa as int % p;
        (if self.neg {
            seq!['-']
        } else {
            Seq::<char>::empty()
        }) + dec_digits(ip as nat) + (if self.scale > 0 {
            seq!['.'] + padded_digits(fr as nat, self.scale as nat)
        } else {
            Seq::<char>::empty()
        }) + unit_chars(self.unit)
    }
}

/// Value of the accumulator after consuming the digit run at `i`.
pub open spec fn scan_val(s: Seq<char>, i: int, acc: u64) -> int {
    acc * pow10((digits_end(s, i) - i) as nat) + seq_val(s.subrange(i, digits_end(s, i)))
}

fn scan_digits(s: &str, i: usize, acc: u64) -> (r: Option<(u64, usize)>)
    requires
        i <= s@.len(),
    ensures
        match r {
            Some(v) => v.1 == digits_end(s@, i as int) && i <= v.1 <= s@.len() && v.0 == scan_val(
                s@,
                i as int,
                acc,
            ),
            None => scan_val(s@, i as int, acc) > u64::MAX,
        },
    decreases s@.len() - i,
{
    proof {
        lemma_digits_end_props(s@, i as int);
    }
    let len = s.unicode_len();
    if i == len || !is_digit(s.get_char(i)) {
        assert(digits_end(s@, i as int) == i);
        assert(s@.subrange(i as int, i as int) =~= Seq::<char>::empty());
        assert(scan_val(s@, i as int, acc) == acc * 1);
        Some((acc, i))
    } else {
        let c = s.get_char(i);
        let d: u64 = (c as u32 as u64) - ('0' as u32 as u64);
        assert(d == digit_val(c));
        let ghost de = digits_end(s@, i as int);
        proof {
            assert(digits_end(s@, i as int) == digits_end(s@, i as int + 1));
            let tail = s@.subrange(i as int + 1, de);
            let whole = s@.subrange(i as int, de);
            assert(whole =~= seq![c] + tail);
            lemma_seq_val_concat(seq![c], tail);
            assert(seq_val(seq![c]) == digit_val(c)) by {
                assert(seq![c].drop_last() =~= Seq::<char>::empty());
                assert(seq![c].last() == c);
                assert(seq_val(Seq::<char>::empty()) == 0);
                assert(seq_val(seq![c]) == seq_val(seq![c].drop_last()) * 10 + digit_val(
                    seq![c].last(),
                ));
            }
            assert(all_digits(tail)) by {
                lemma_digits_end_props(s@, i as int);
            }
            lemma_seq_val_nonneg(tail);
            lemma_pow10_pos((de - (i as int + 1)) as nat);
            // value of the whole run from i equals the value of the run from i+1
            // with the accumulator advanced by one digit
            assert(seq_val(whole) == digit_val(c) * pow10((de - i - 1) as nat) + seq_val(tail));
            assert(pow10((de - i) as nat) == 10 * pow10((de - i - 1) as nat));
            assert(acc * (10 * pow10((de - i - 1) as nat)) == (acc * 10) * pow10(
                (de - i - 1) as nat,
            )) by (nonlinear_arith);
            assert((acc * 10) * pow10((de - i - 1) as nat) + digit_val(c) * pow10(
                (de - i - 1) as nat,
            ) == (acc * 10 + digit_val(c)) * pow10((de - i - 1) as nat)) by (nonlinear_arith);
        }
        let step = match acc.checked_mul(10) {
            Some(t) => t.checked_add(d),
            None => None,
        };
        match step {
            Some(acc2) => {
                assert(scan_val(s@, i as int, acc) == scan_val(s@, i as int + 1, acc2));
                scan_digits(s, i + 1, acc2)
            },
            None => {
                proof {
                    let acc2t = acc * 10 + d;
                    let tail = s@.subrange(i as int + 1, de);
                    assert(acc2t > u64::MAX);
                    assert(acc2t * pow10((de - i - 1) as nat) >= acc2t) by (nonlinear_arith)
                        requires
                            pow10((de - i - 1) as nat) >= 1,
                            acc2t >= 0,
                    ;
                    assert(scan_val(s@, i as int, acc) >= acc2t);
                }
                None
            },
        }
    }
}

fn parse_unit(s: &str, i: usize) -> (r: Option<Unit>)
    requires
        i <= s@.len(),
    ensures
        r == spec_unit(s@.subrange(i as int, s@.len() as int)),
{
    let len = s.unicode_len();
    let ghost suf = s@.subrange(i as int, s@.len() as int);
    if i == len {
        assert(suf.len() == 0);
        Some(Unit::Plain)
    } else if len - i == 1 && s.get_char(i) == '%' {
        assert(suf[0] == '%');
        Some(Unit::Percent)
    } else if len - i == 2 && s.get_char(i) == 'p' && s.get_char(i + 1) == 'x' {
        assert(suf[0] == 'p' && suf[1] == 'x');
        Some(Unit::Pixel)
    } else {
        assert(spec_unit(suf) is None) by {
            assert(suf.len() >= 1);
            assert(suf[0] == s@[i as int]);
            if suf.len() == 2 {
                assert(suf[1] == s@[i as int + 1]);
            }
        }
        None
    }
}

fn normalize(u: Unit, neg: bool, m: u64, sc: u32) -> (r: Size)
    ensures
        r == spec_normalize(u, neg, m as nat, sc as nat),
    decreases sc,
{
    if sc > 0 && m % 10 == 0 {
        normalize(u, neg, m / 10, sc - 1)
    } else {
        Size { unit: u, neg: neg && m > 0, mantissa: m, scale: sc }
    }
}

/// The integer digits alone already exceed `u64`: every grammar branch
/// rejects, because the combined mantissa only grows from there.
proof fn lemma_int_overflow_rejects(s: Seq<char>, i0: int)
    requires
        0 <= i0 <= s.len(),
        s.len() > 0,
        seq_val(s.subrange(i0, digits_end(s, i0))) > u64::MAX,
        i0 == (if s[0] == '-' || s[0] == '+' { 1int } else { 0int }),
    ensures
        spec_parse(s) is None,
{
    let d1 = digits_end(s, i0);
    lemma_digits_end_props(s, i0);
    let intd = s.subrange(i0, d1);
    if d1 == i0 {
        assert(intd =~= Seq::<char>::empty());
        assert(seq_val(intd) == 0);
    } else {
        lemma_seq_val_nonneg(intd);
        if d1 < s.len() && s[d1] == '.' {
            let d2 = digits_end(s, d1 + 1);
            lemma_digits_end_props(s, d1 + 1);
            if d2 != d1 + 1 {
                let fracd = s.subrange(d1 + 1, d2);
                let suffix = s.subrange(d2, s.len() as int);
                lemma_seq_val_nonneg(fracd);
                lemma_pow10_pos(fracd.len());
                assert(seq_val(intd) * pow10(fracd.len()) >= seq_val(intd)) by (nonlinear_arith)
                    requires
                        seq_val(intd) >= 0,
                        pow10(fracd.len()) >= 1,
                ;
            }
        } else {
            let suffix = s.subrange(d1, s.len() as int);
            assert(seq_val(Seq::<char>::empty()) == 0);
            assert(pow10(0) == 1);
        }
    }
}

impl Size {
    /// Read a dimension from text.  Returns exactly what the grammar
    /// `spec_parse` names, and a typed failure on anything else.
    pub fn parse(text: &str) -> (r: Result<Size, SizeError>)
        ensures
            match r {
                Ok(v) => spec_parse(text@) == Some(v) && v.wf(),
                Err(_) => spec_parse(text@) is None,
            },
    {
        let ghost s = text@;
        let len = text.unicode_len();
        if len == 0 {
            return Err(SizeError);
        }
        let c0 = text.get_char(0);
        let neg = c0 == '-';
        let i0: usize = if c0 == '-' || c0 == '+' {
            1
        } else {
            0
        };
        let scan1 = scan_digits(text, i0, 0);
        proof {
            lemma_digits_end_props(s, i0 as int);
        }
        let (m1, d1) = match scan1 {
            Some(v) => v,
            None => {
                proof {
                    assert(scan_val(s, i0 as int, 0) == seq_val(
                        s.subrange(i0 as int, digits_end(s, i0 as int)),
                    ));
                    lemma_int_overflow_rejects(s, i0 as int);
                }
                return Err(SizeError);
            },
        };
        let ghost intd = s.subrange(i0 as int, d1 as int);
        if d1 == i0 {
            assert(spec_parse(s) is None);
            return Err(SizeError);
        }
        assert(m1 == seq_val(intd)) by {
            assert(pow10(0) == 1);
        }
        if d1 < len && text.get_char(d1) == '.' {
            let scan2 = scan_digits(text, d1 + 1, m1);
            proof {
                lemma_digits_end_props(s, d1 as int + 1);
            }
            let ghost d2s = digits_end(s, d1 as int + 1);
            let ghost fracd = s.subrange(d1 as int + 1, d2s);
            proof {
                // what the fraction scan computes is the mantissa the grammar names
                assert(scan_val(s, d1 as int + 1, m1) == m1 * pow10(fracd.len() as nat) + seq_val(
                    fracd,
                ));
            }
            let (m2, d2) = match scan2 {
                Some(v) => v,
                None => {
                    proof {
                        if d2s == d1 as int + 1 {
                            assert(fracd =~= Seq::<char>::empty());
                            assert(seq_val(fracd) == 0);
                            assert(pow10(0) == 1);
                            assert(scan_val(s, d1 as int + 1, m1) == m1);
                        }
                        assert(spec_parse(s) is None);
                    }
                    return Err(SizeError);
                },
            };
            if d2 == d1 + 1 {
                assert(spec_parse(s) is None);
                return Err(SizeError);
            }
            let scale_w = d2 - d1 - 1;
            assert(m2 == seq_val(intd) * pow10(scale_w as nat) + seq_val(fracd));
            if scale_w > MAX_SCALE as usize {
                assert(spec_parse(s) is None);
                return Err(SizeError);
            }
            let u = match parse_unit(text, d2) {
                Some(u) => u,
                None => {
                    assert(spec_parse(s) is None);
                    return Err(SizeError);
                },
            };
            let r = normalize(u, neg, m2, scale_w as u32);
            proof {
                lemma_normalize_wf(u, neg, m2 as nat, scale_w as nat);
            }
            Ok(r)
        } else {
            let u = match parse_unit(text, d1) {
                Some(u) => u,
                None => {
                    assert(spec_parse(s) is None);
                    return Err(SizeError);
                },
            };
            proof {
                assert(seq_val(Seq::<char>::empty()) == 0);
                assert(pow10(0) == 1);
                lemma_normalize_wf(u, neg, m1 as nat, 0);
            }
            let r = normalize(u, neg, m1, 0);
            Ok(r)
        }
    }
}



proof fn lemma_pow10_vals()
    ensures
        pow10(17) == 0x16345785D8A0000,
        pow10(18) == 0xDE0B6B3A7640000,
{
    assert(pow10(0) == 1);
    assert(pow10(1) == 10);
    assert(pow10(2) == 100);
    assert(pow10(3) == 1000);
    assert(pow10(4) == 10000);
    assert(pow10(5) == 100000);
    assert(pow10(6) == 1000000);
    assert(pow10(7) == 10000000);
    assert(pow10(8) == 100000000);
    assert(pow10(9) == 1000000000);
    assert(pow10(10) == 10000000000);
    assert(pow10(11) == 100000000000);
    assert(pow10(12) == 1000000000000);
    assert(pow10(13) == 10000000000000);
    assert(pow10(14) == 100000000000000);
    assert(pow10(15) == 1000000000000000);
    assert(pow10(16) == 10000000000000000);
    assert(pow10(17) == 100000000000000000);
    assert(pow10(18) == 1000000000000000000);
}

proof fn lemma_pow10_mono(a: nat, b: nat)
    requires
        a <= b,
    ensures
        pow10(a) <= pow10(b),
    decreases b,
{
    if a < b {
        lemma_pow10_mono(a, (b - 1) as nat);
        lemma_pow10_pos((b - 1) as nat);
    }
}

fn pow10_u64(e: u32) -> (r: u64)
    requires
        e <= MAX_SCALE,
    ensures
        r as int == pow10(e as nat),
{
    let mut r: u64 = 1;
    let mut k: u32 = 0;
    while k < e
        invariant
            k <= e <= MAX_SCALE,
            r as int == pow10(k as nat),
        decreases e - k,
    {
        proof {
            lemma_pow10_mono(k as nat, 17);
            lemma_pow10_vals();
        }
        r = r * 10;
        k = k + 1;
    }
    r
}

impl Size {
    /// Canonical text of the value; a pixel quantity always carries `px`.
    pub fn to_string(&self) -> (r: String)
        requires
            self.wf(),
        ensures
            r@ == self.spec_str(),
    {
        proof {
            reveal_strlit("-");
            reveal_strlit(".");
            reveal_strlit("px");
            reveal_strlit("%");
            lemma_pow10_pos(self.scale as nat);
        }
        let mut out = String::new();
        if self.neg {
            out.append("-");
        }
        let p = pow10_u64(self.scale);
        assert(p >= 1);
        let ip = self.mantissa / p;
        let fr = self.mantissa % p;
        let ds = u64_to_dec(ip);
        out.append(ds.as_str());
        if self.scale > 0 {
            out.append(".");
            let fs = u64_to_padded(fr, self.scale);
            out.append(fs.as_str());
        }
        match self.unit {
            Unit::Pixel => out.append("px"),
            Unit::Percent => out.append("%"),
            Unit::Plain => {},
        }
        proof {
            assert("-"@ =~= seq!['-']);
            assert("."@ =~= seq!['.']);
            assert("px"@ =~= seq!['p', 'x']);
            assert("%"@ =~= seq!['%']);
            assert(ip as int == self.mantissa as int / pow10(self.scale as nat));
            assert(fr as int == self.mantissa as int % pow10(self.scale as nat));
            assert(out@ =~= self.spec_str());
        }
        out
    }
}

/// Printing a canonical value and reading it back returns the same value:
/// the parse of `v.spec_str()` is exactly `v` for every well-formed `v`.
pub proof fn lemma_size_round_trip(v: Size)
    requires
        v.wf(),
    ensures
        spec_parse(v.spec_str()) == Some(v),
{
    let s = v.spec_str();
    let p = pow10(v.scale as nat);
    lemma_pow10_pos(v.scale as nat);
    let m = v.mantissa as int;
    let ip = m / p;
    let fr = m % p;
    lemma_fundamental_div_mod(m, p);
    lemma_dec_digits(ip as nat);
    let intd = dec_digits(ip as nat);
    let l1 = intd.len() as int;
    let sign: Seq<char> = if v.neg { seq!['-'] } else { Seq::<char>::empty() };
    let fracpart: Seq<char> = if v.scale > 0 {
        seq!['.'] + padded_digits(fr as nat, v.scale as nat)
    } else {
        Seq::<char>::empty()
    };
    let uc = unit_chars(v.unit);
    assert(s == sign + intd + fracpart + uc);
    let i0 = if v.neg { 1int } else { 0int };
    let d1 = i0 + l1;
    if v.scale > 0 {
        lemma_padded_digits(fr as nat, v.scale as nat);
    }
    // each position of the printed text
    assert forall|j: int| i0 <= j < d1 implies s[j] == intd[j - i0] by {}
    assert(forall|j: int| i0 <= j < d1 ==> is_digit_char(#[trigger] s[j]));
    if v.neg {
        assert(s[0] == '-');
    } else {
        assert(s[0] == intd[0]);
        assert(is_digit_char(s[0]));
        assert(s[0] != '-' && s[0] != '+');
    }
    assert(s.len() > 0);
    assert((s[0] == '-') == v.neg);
    assert((if s[0] == '-' || s[0] == '+' { 1int } else { 0int }) == i0);
    if v.scale > 0 {
        let fracd = padded_digits(fr as nat, v.scale as nat);
        let d2 = d1 + 1 + v.scale as int;
        assert(s[d1] == '.');
        lemma_digits_end_is(s, i0, d1);
        assert forall|j: int| d1 + 1 <= j < d2 implies s[j] == fracd[j - d1 - 1] by {}
        assert(forall|j: int| d1 + 1 <= j < d2 ==> is_digit_char(#[trigger] s[j]));
        if d2 < s.len() {
            assert(s[d2] == uc[0]);
            assert(!is_digit_char(s[d2]));
        }
        lemma_digits_end_is(s, d1 + 1, d2);
        assert(s.subrange(i0, d1) =~= intd);
        assert(s.subrange(d1 + 1, d2) =~= fracd);
        assert(s.subrange(d2, s.len() as int) =~= uc);
        assert(spec_unit(uc) == Some(v.unit));
        let mb = seq_val(intd) * pow10(fracd.len()) + seq_val(fracd);
        assert(seq_val(intd) == ip && seq_val(fracd) == fr);
        assert(mb == ip * p + fr) by {
            assert(fracd.len() == v.scale as nat);
            assert(ip * p == p * ip) by (nonlinear_arith);
        }
        assert(mb == m);
        assert(spec_parse(s) == spec_build(v.neg, intd, fracd, uc));
        assert(spec_normalize(v.unit, v.neg, m as nat, v.scale as nat) == v);
    } else {
        assert(fr == 0);
        assert(ip == m) by {
            assert(m / 1 == m && m % 1 == 0);
        }
        assert(fracpart =~= Seq::<char>::empty());
        if d1 < s.len() {
            assert(s[d1] == uc[0]);
            assert(!is_digit_char(s[d1]));
            assert(s[d1] != '.');
        }
        lemma_digits_end_is(s, i0, d1);
        assert(s.subrange(i0, d1) =~= intd);
        assert(s.subrange(d1, s.len() as int) =~= uc);
        assert(spec_unit(uc) == Some(v.unit));
        let mb = seq_val(intd) * pow10(0) + seq_val(Seq::<char>::empty());
        assert(seq_val(Seq::<char>::empty()) == 0);
        assert(pow10(0) == 1);
        assert(mb == m);
        assert(spec_parse(s) == spec_build(v.neg, intd, Seq::<char>::empty(), uc));
        assert(spec_normalize(v.unit, v.neg, m as nat, 0) == v);
    }
}

/// Scaling a percentage against an absolute or relative base: the
/// mantissas multiply and the scales add, shifted two places for the
/// percent denominator.  `None` when the product leaves `u64`.
pub open spec fn spec_percent_of(pct: Size, base: Size) -> Option<Size> {
    let m = pct.mantissa as int * base.mantissa as int;
    let sc = pct.scale as nat + base.scale as nat + 2;
    let neg = pct.neg != base.neg;
    if m > u64::MAX {
        None
    } else {
        let n = spec_normalize(base.unit, neg, m as nat, sc);
        if n.scale > MAX_SCALE {
            None
        } else {
            Some(n)
        }
    }
}

/// Scaling by a plain ratio preserves the unit.
pub open spec fn spec_multiply_by(a: Size, f: Size) -> Option<Size> {
    let m = a.mantissa as int * f.mantissa as int;
    let sc = a.scale as nat + f.scale as nat;
    let neg = a.neg != f.neg;
    if m > u64::MAX {
        None
    } else {
        let n = spec_normalize(a.unit, neg, m as nat, sc);
        if n.scale > MAX_SCALE {
            None
        } else {
            Some(n)
        }
    }
}

/// Truncating division, kept to a thousandth: the mantissa scaled by
/// 1000 is divided and three fraction places are added before
/// normalizing.  `None` when the result cannot be represented.
pub open spec fn spec_divide(a: Size, n: u64) -> Option<Size> {
    let q = (a.mantissa as int * 1000) / (n as int);
    if q > u64::MAX {
        None
    } else {
        let nn = spec_normalize(a.unit, a.neg, q as nat, a.scale as nat + 3);
        if nn.scale > MAX_SCALE {
            None
        } else {
            Some(nn)
        }
    }
}

impl Size {
    /// This value, read as a percentage, applied to `base`.
    /// Percent of pixels yields pixels; percent of percent multiplies.
    pub fn percent_of(&self, base: &Size) -> (r: Option<Size>)
        requires
            self.unit == Unit::Percent,
            self.wf(),
            base.wf(),
        ensures
            r == spec_percent_of(*self, *base),
            r is Some ==> r.unwrap().wf(),
    {
        match self.mantissa.checked_mul(base.mantissa) {
            None => None,
            Some(m) => {
                let n = normalize(base.unit, self.neg != base.neg, m, self.scale + base.scale + 2);
                proof {
                    lemma_normalize_wf(
                        base.unit,
                        self.neg != base.neg,
                        m as nat,
                        self.scale as nat + base.scale as nat + 2,
                    );
                }
                if n.scale > MAX_SCALE {
                    None
                } else {
                    Some(n)
                }
            },
        }
    }

    /// Scale by a plain (unitless) ratio, preserving this value's unit.
    pub fn multiply_by(&self, f: &Size) -> (r: Option<Size>)
        requires
            f.unit == Unit::Plain,
            self.wf(),
            f.wf(),
        ensures
            r == spec_multiply_by(*self, *f),
            r is Some ==> r.unwrap().wf(),
    {
        match self.mantissa.checked_mul(f.mantissa) {
            None => None,
            Some(m) => {
                let n = normalize(self.unit, self.neg != f.neg, m, self.scale + f.scale);
                proof {
                    lemma_normalize_wf(
                        self.unit,
                        self.neg != f.neg,
                        m as nat,
                        self.scale as nat + f.scale as nat,
                    );
                }
                if n.scale > MAX_SCALE {
                    None
                } else {
                    Some(n)
                }
            },
        }
    }

    /// Divide into `n` equal shares, to a thousandth.
    pub fn divide(&self, n: u64) -> (r: Option<Size>)
        requires
            n > 0,
            self.wf(),
        ensures
            r == spec_divide(*self, n),
            r is Some ==> r.unwrap().wf(),
    {
        let wide: u128 = (self.mantissa as u128) * 1000;
        let q128: u128 = wide / (n as u128);
        if q128 > u64::MAX as u128 {
            None
        } else {
            let q: u64 = q128 as u64;
            let nn = normalize(self.unit, self.neg, q, self.scale + 3);
            proof {
                lemma_normalize_wf(self.unit, self.neg, q as nat, self.scale as nat + 3);
            }
            if nn.scale > MAX_SCALE {
                None
            } else {
                Some(nn)
            }
        }
    }
}

} // verus!
