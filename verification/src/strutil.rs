//! Character classes, decimal digit sequences and their numeric values,
//! and lexicographic ordering of character sequences.

use vstd::prelude::*;

verus! {

/// Does `c` stand for a decimal digit?
pub open spec fn is_digit_char(c: char) -> bool {
    '0' <= c && c <= '9'
}

/// Numeric value of a digit character.
pub open spec fn digit_val(c: char) -> int {
    c as int - '0' as int
}

/// Digit character for a value in 0..10.
pub open spec fn digit_char(d: int) -> char {
    if d == 0 {
        '0'
    } else if d == 1 {
        '1'
    } else if d == 2 {
        '2'
    } else if d == 3 {
        '3'
    } else if d == 4 {
        '4'
    } else if d == 5 {
        '5'
    } else if d == 6 {
        '6'
    } else if d == 7 {
        '7'
    } else if d == 8 {
        '8'
    } else {
        '9'
    }
}

/// Every character of `s` is a decimal digit.
pub open spec fn all_digits(s: Seq<char>) -> bool {
    forall|i: int| 0 <= i < s.len() ==> is_digit_char(#[trigger] s[i])
}

/// Numeric value of a digit sequence read in base ten.
pub open spec fn seq_val(s: Seq<char>) -> int
    decreases s.len(),
{
    if s.len() == 0 {
        0
    } else {
        seq_val(s.drop_last()) * 10 + digit_val(s.last())
    }
}

/// Ten to the power `e`.
pub open spec fn pow10(e: nat) -> int
    decreases e,
{
    if e == 0 {
        1
    } else {
        10 * pow10((e - 1) as nat)
    }
}

/// Decimal digits of `n`, most significant first, without leading zeros
/// (the single digit `0` for zero).
pub open spec fn dec_digits(n: nat) -> Seq<char>
    decreases n,
{
    if n < 10 {
        seq![digit_char(n as int)]
    } else {
        dec_digits(n / 10) + seq![digit_char(n as int % 10)]
    }
}

/// The last `width` decimal digits of `n`, zero-padded on the left.
pub open spec fn padded_digits(n: nat, width: nat) -> Seq<char>
    decreases width,
{
    if width == 0 {
        Seq::<char>::empty()
    } else {
        padded_digits(n / 10, (width - 1) as nat) + seq![digit_char(n as int % 10)]
    }
}

pub proof fn lemma_pow10_pos(e: nat)
    ensures
        pow10(e) >= 1,
    decreases e,
{
    if e > 0 {
        lemma_pow10_pos((e - 1) as nat);
    }
}


pub proof fn lemma_seq_val_nonneg(s: Seq<char>)
    requires
        all_digits(s),
    ensures
        seq_val(s) >= 0,
    decreases s.len(),
{
    if s.len() > 0 {
        assert(is_digit_char(s[s.len() - 1]));
        lemma_seq_val_nonneg(s.drop_last());
    }
}


/// Appending digit sequences multiplies the left value by the width of the right.
pub proof fn lemma_seq_val_concat(a: Seq<char>, b: Seq<char>)
    ensures
        seq_val(a + b) == seq_val(a) * pow10(b.len()) + seq_val(b),
    decreases b.len(),
{
    if b.len() == 0 {
        assert(a + b =~= a);
    } else {
        lemma_seq_val_concat(a, b.drop_last());
        assert((a + b).drop_last() =~= a + b.drop_last());
        assert((a + b).last() == b.last());
        assert(seq_val(a + b) == (seq_val(a) * pow10((b.len() - 1) as nat) + seq_val(b.drop_last()))
            * 10 + digit_val(b.last()));
        assert(seq_val(a) * pow10((b.len() - 1) as nat) * 10 == seq_val(a) * (10 * pow10(
            (b.len() - 1) as nat,
        ))) by (nonlinear_arith);
        assert((seq_val(a) * pow10((b.len() - 1) as nat) + seq_val(b.drop_last())) * 10 == seq_val(
            a,
        ) * pow10((b.len() - 1) as nat) * 10 + seq_val(b.drop_last()) * 10) by (nonlinear_arith);
    }
}

pub proof fn lemma_dec_digits(n: nat)
    ensures
        all_digits(dec_digits(n)),
        dec_digits(n).len() >= 1,
        seq_val(dec_digits(n)) == n,
    decreases n,
{
    if n < 10 {
        let s = dec_digits(n);
        assert(s =~= seq![digit_char(n as int)]);
        assert(s.drop_last() =~= Seq::<char>::empty());
        assert(s.last() == digit_char(n as int));
        assert(is_digit_char(digit_char(n as int)));
        assert(digit_val(digit_char(n as int)) == n as int);
        assert(seq_val(s) == seq_val(Seq::<char>::empty()) * 10 + digit_val(digit_char(n as int)));
    } else {
        lemma_dec_digits(n / 10);
        let pre = dec_digits(n / 10);
        let s = dec_digits(n);
        assert(s =~= pre + seq![digit_char(n as int % 10)]);
        assert(s.drop_last() =~= pre);
        assert(is_digit_char(digit_char(n as int % 10)));
        assert(digit_val(digit_char(n as int % 10)) == n as int % 10);
        assert(seq_val(s) == (n / 10) * 10 + n % 10);
        assert((n / 10) * 10 + n % 10 == n) by (nonlinear_arith);
        assert(forall|i: int| 0 <= i < s.len() ==> is_digit_char(#[trigger] s[i])) by {
            assert(forall|i: int| 0 <= i < pre.len() ==> is_digit_char(#[trigger] pre[i]));
        }
    }
}

pub proof fn lemma_padded_digits(n: nat, width: nat)
    requires
        n < pow10(width),
    ensures
        all_digits(padded_digits(n, width)),
        padded_digits(n, width).len() == width,
        seq_val(padded_digits(n, width)) == n,
    decreases width,
{
    if width == 0 {
        lemma_pow10_pos(width);
    } else {
        assert(n / 10 < pow10((width - 1) as nat)) by {
            assert(pow10(width) == 10 * pow10((width - 1) as nat));
            assert(n < 10 * pow10((width - 1) as nat) ==> n / 10 < pow10((width - 1) as nat))
                by (nonlinear_arith);
        }
        lemma_padded_digits(n / 10, (width - 1) as nat);
        let pre = padded_digits(n / 10, (width - 1) as nat);
        let s = padded_digits(n, width);
        assert(s =~= pre + seq![digit_char(n as int % 10)]);
        assert(s.drop_last() =~= pre);
        assert(is_digit_char(digit_char(n as int % 10)));
        assert(digit_val(digit_char(n as int % 10)) == n as int % 10);
        assert(seq_val(s) == (n / 10) * 10 + n % 10);
        assert((n / 10) * 10 + n % 10 == n) by (nonlinear_arith);
        assert(forall|i: int| 0 <= i < s.len() ==> is_digit_char(#[trigger] s[i])) by {
            assert(forall|i: int| 0 <= i < pre.len() ==> is_digit_char(#[trigger] pre[i]));
        }
    }
}

/// Exec digit test.
pub fn is_digit(c: char) -> (r: bool)
    ensures
        r == is_digit_char(c),
{
    '0' <= c && c <= '9'
}

/// One-character string for a digit value.
pub fn digit_str(d: u64) -> (r: &'static str)
    requires
        d < 10,
    ensures
        r@ =~= seq![digit_char(d as int)],
{
    proof {
        reveal_strlit("0");
        reveal_strlit("1");
        reveal_strlit("2");
        reveal_strlit("3");
        reveal_strlit("4");
        reveal_strlit("5");
        reveal_strlit("6");
        reveal_strlit("7");
        reveal_strlit("8");
        reveal_strlit("9");
    }
    if d == 0 {
        "0"
    } else if d == 1 {
        "1"
    } else if d == 2 {
        "2"
    } else if d == 3 {
        "3"
    } else if d == 4 {
        "4"
    } else if d == 5 {
        "5"
    } else if d == 6 {
        "6"
    } else if d == 7 {
        "7"
    } else if d == 8 {
        "8"
    } else {
        "9"
    }
}

/// Decimal rendering of `n` without leading zeros.
pub fn u64_to_dec(n: u64) -> (r: String)
    ensures
        r@ == dec_digits(n as nat),
    decreases n,
{
    if n < 10 {
        digit_str(n).to_owned()
    } else {
        let mut s = u64_to_dec(n / 10);
        s.append(digit_str(n % 10));
        assert(s@ =~= dec_digits(n as nat));
        s
    }
}

/// Decimal rendering of the last `width` digits of `n`, zero-padded.
pub fn u64_to_padded(n: u64, width: u32) -> (r: String)
    ensures
        r@ == padded_digits(n as nat, width as nat),
    decreases width,
{
    if width == 0 {
        String::new()
    } else {
        let mut s = u64_to_padded(n / 10, width - 1);
        s.append(digit_str(n % 10));
        assert(s@ =~= padded_digits(n as nat, width as nat));
        s
    }
}


/// First position at or after `i` that does not hold a digit.
pub open spec fn digits_end(s: Seq<char>, i: int) -> int
    decreases s.len() - i,
{
    if 0 <= i < s.len() && is_digit_char(s[i]) {
        digits_end(s, i + 1)
    } else {
        i
    }
}

pub proof fn lemma_digits_end_props(s: Seq<char>, i: int)
    requires
        0 <= i <= s.len(),
    ensures
        i <= digits_end(s, i) <= s.len(),
        forall|j: int| i <= j < digits_end(s, i) ==> is_digit_char(#[trigger] s[j]),
        digits_end(s, i) < s.len() ==> !is_digit_char(s[digits_end(s, i)]),
        all_digits(s.subrange(i, digits_end(s, i))),
    decreases s.len() - i,
{
    if 0 <= i < s.len() && is_digit_char(s[i]) {
        lemma_digits_end_props(s, i + 1);
    }
    let e = digits_end(s, i);
    assert(forall|j: int|
        0 <= j < e - i ==> #[trigger] s.subrange(i, e)[j] == s[i + j] && is_digit_char(s[i + j]));
}

/// A run of digits from `i` to `j`, with a non-digit (or the end) at `j`,
/// is exactly what `digits_end` finds.
pub proof fn lemma_digits_end_is(s: Seq<char>, i: int, j: int)
    requires
        0 <= i <= j <= s.len(),
        forall|k: int| i <= k < j ==> is_digit_char(#[trigger] s[k]),
        j == s.len() || !is_digit_char(s[j]),
    ensures
        digits_end(s, i) == j,
    decreases j - i,
{
    if i < j {
        assert(is_digit_char(s[i]));
        lemma_digits_end_is(s, i + 1, j);
    }
}


/// The Unicode white-space characters, as the standard library's
/// trimming knows them.
pub open spec fn is_space_char(c: char) -> bool {
    ('\u{0009}' <= c && c <= '\u{000D}') || c == ' ' || c == '\u{0085}' || c == '\u{00A0}'
        || c == '\u{1680}' || ('\u{2000}' <= c && c <= '\u{200A}') || c == '\u{2028}' || c
        == '\u{2029}' || c == '\u{202F}' || c == '\u{205F}' || c == '\u{3000}'
}

pub open spec fn all_spaces(s: Seq<char>) -> bool {
    forall|i: int| 0 <= i < s.len() ==> is_space_char(#[trigger] s[i])
}

/// Does the text hold nothing but spaces?
pub fn is_blank(s: &str) -> (r: bool)
    ensures
        r == all_spaces(s@),
{
    let n = s.unicode_len();
    let mut i: usize = 0;
    while i < n
        invariant
            n == s@.len(),
            i <= n,
            forall|j: int| 0 <= j < i ==> is_space_char(#[trigger] s@[j]),
        decreases n - i,
    {
        if !is_space(s.get_char(i)) {
            return false;
        }
        i = i + 1;
    }
    true
}


/// First position at or after `i` that is not a space.
pub open spec fn sp_end(s: Seq<char>, i: int) -> int
    decreases s.len() - i,
{
    if 0 <= i < s.len() && is_space_char(s[i]) {
        sp_end(s, i + 1)
    } else {
        i
    }
}

/// First position at or before `i` with no space just before it.
pub open spec fn sp_begin(s: Seq<char>, i: int) -> int
    decreases i,
{
    if 0 < i <= s.len() && is_space_char(s[i - 1]) {
        sp_begin(s, i - 1)
    } else {
        i
    }
}

/// `s` without leading and trailing spaces.
pub open spec fn trimmed(s: Seq<char>) -> Seq<char> {
    let a = sp_end(s, 0);
    let b = sp_begin(s, s.len() as int);
    if a < b {
        s.subrange(a, b)
    } else {
        Seq::<char>::empty()
    }
}

pub proof fn lemma_sp_end_props(s: Seq<char>, i: int)
    requires
        0 <= i <= s.len(),
    ensures
        i <= sp_end(s, i) <= s.len(),
        forall|j: int| i <= j < sp_end(s, i) ==> is_space_char(#[trigger] s[j]),
        sp_end(s, i) < s.len() ==> !is_space_char(s[sp_end(s, i)]),
    decreases s.len() - i,
{
    if 0 <= i < s.len() && is_space_char(s[i]) {
        lemma_sp_end_props(s, i + 1);
    }
}

pub proof fn lemma_sp_begin_props(s: Seq<char>, i: int)
    requires
        0 <= i <= s.len(),
    ensures
        0 <= sp_begin(s, i) <= i,
        forall|j: int| sp_begin(s, i) <= j < i ==> is_space_char(#[trigger] s[j]),
        sp_begin(s, i) > 0 ==> !is_space_char(s[sp_begin(s, i) - 1]),
    decreases i,
{
    if 0 < i <= s.len() && is_space_char(s[i - 1]) {
        lemma_sp_begin_props(s, i - 1);
    }
}


/// Exec space test.
pub fn is_space(c: char) -> (r: bool)
    ensures
        r == is_space_char(c),
{
    ('\u{0009}' <= c && c <= '\u{000D}') || c == ' ' || c == '\u{0085}' || c == '\u{00A0}'
        || c == '\u{1680}' || ('\u{2000}' <= c && c <= '\u{200A}') || c == '\u{2028}' || c
        == '\u{2029}' || c == '\u{202F}' || c == '\u{205F}' || c == '\u{3000}'
}

/// Remove leading and trailing spaces.
pub fn trim(s: &str) -> (r: String)
    ensures
        r@ == trimmed(s@),
{
    let n = s.unicode_len();
    let mut a: usize = 0;
    while a < n && is_space(s.get_char(a))
        invariant
            n == s@.len(),
            a <= n,
            sp_end(s@, 0) == sp_end(s@, a as int),
        decreases n - a,
    {
        a = a + 1;
    }
    assert(sp_end(s@, a as int) == a);
    let mut b: usize = n;
    while b > a && is_space(s.get_char(b - 1))
        invariant
            n == s@.len(),
            a <= b <= n,
            sp_end(s@, 0) == a,
            sp_begin(s@, n as int) == sp_begin(s@, b as int),
        decreases b,
    {
        b = b - 1;
    }
    if b > a {
        assert(sp_begin(s@, b as int) == b) by {
            assert(!(0 < b <= s@.len() && is_space_char(s@[b - 1])));
        }
        let sub = s.substring_char(a, b);
        sub.to_owned()
    } else {
        // only spaces: the beginning scan already consumed everything
        assert(b == a);
        proof {
            lemma_sp_begin_props(s@, b as int);
        }
        assert(sp_begin(s@, b as int) <= b);
        assert(trimmed(s@) =~= Seq::<char>::empty());
        String::new()
    }
}

/// First comma at or after `i`, or the length when none is left.
pub open spec fn comma_end(s: Seq<char>, i: int) -> int
    decreases s.len() - i,
{
    if 0 <= i < s.len() && s[i] != ',' {
        comma_end(s, i + 1)
    } else {
        i
    }
}

pub proof fn lemma_comma_end_props(s: Seq<char>, i: int)
    requires
        0 <= i <= s.len(),
    ensures
        i <= comma_end(s, i) <= s.len(),
        comma_end(s, i) < s.len() ==> s[comma_end(s, i)] == ',',
    decreases s.len() - i,
{
    if 0 <= i < s.len() && s[i] != ',' {
        lemma_comma_end_props(s, i + 1);
    }
}

/// The comma-separated items of `s` from `i` on, each trimmed.
pub open spec fn csv_from(s: Seq<char>, i: int) -> Seq<Seq<char>>
    decreases s.len() - i,
{
    let j0 = comma_end(s, i);
    let j = if j0 < i {
        i
    } else {
        j0
    };
    if j >= s.len() {
        seq![trimmed(s.subrange(i, s.len() as int))]
    } else {
        seq![trimmed(s.subrange(i, j))] + csv_from(s, j + 1)
    }
}

fn split_csv_from(s: &str, i: usize) -> (r: Vec<String>)
    requires
        i <= s@.len(),
    ensures
        r.deep_view() == csv_from(s@, i as int),
    decreases s@.len() - i,
{
    proof {
        lemma_comma_end_props(s@, i as int);
    }
    let n = s.unicode_len();
    let mut k: usize = i;
    while k < n && s.get_char(k) != ','
        invariant
            n == s@.len(),
            i <= k <= n,
            comma_end(s@, i as int) == comma_end(s@, k as int),
        decreases n - k,
    {
        k = k + 1;
    }
    assert(comma_end(s@, k as int) == k);
    let word = trim(s.substring_char(i, k));
    if k == n {
        let mut out: Vec<String> = Vec::new();
        out.push(word);
        proof {
            assert(out.deep_view() =~= csv_from(s@, i as int));
        }
        out
    } else {
        let rest = split_csv_from(s, k + 1);
        let mut out: Vec<String> = Vec::new();
        out.push(word);
        let mut rest = rest;
        out.append(&mut rest);
        proof {
            assert(out.deep_view() =~= csv_from(s@, i as int));
        }
        out
    }
}

/// Split on commas and trim each item.
pub fn split_csv(s: &str) -> (r: Vec<String>)
    ensures
        r.deep_view() == csv_from(s@, 0),
{
    split_csv_from(s, 0)
}


/// Is `p` a prefix of `s`?
pub open spec fn is_prefix(p: Seq<char>, s: Seq<char>) -> bool {
    p.len() <= s.len() && s.subrange(0, p.len() as int) == p
}

/// Exec prefix test.
pub fn starts_with(s: &str, p: &str) -> (r: bool)
    ensures
        r == is_prefix(p@, s@),
{
    let sn = s.unicode_len();
    let pn = p.unicode_len();
    if pn > sn {
        return false;
    }
    let mut i: usize = 0;
    while i < pn
        invariant
            sn == s@.len(),
            pn == p@.len(),
            pn <= sn,
            i <= pn,
            forall|j: int| 0 <= j < i ==> s@[j] == p@[j],
        decreases pn - i,
    {
        if s.get_char(i) != p.get_char(i) {
            assert(s@.subrange(0, pn as int)[i as int] != p@[i as int]);
            return false;
        }
        i = i + 1;
    }
    assert(s@.subrange(0, pn as int) =~= p@);
    true
}


/// First position at or after `i` that holds a space.
pub open spec fn word_end(s: Seq<char>, i: int) -> int
    decreases s.len() - i,
{
    if 0 <= i < s.len() && !is_space_char(s[i]) {
        word_end(s, i + 1)
    } else {
        i
    }
}

/// The space-separated words of `s` from `i` on, empty runs skipped.
pub open spec fn space_words_from(s: Seq<char>, i: int) -> Seq<Seq<char>>
    decreases s.len() - i,
{
    let j0 = sp_end(s, i);
    let j = if j0 < i {
        i
    } else {
        j0
    };
    if j >= s.len() {
        Seq::<Seq<char>>::empty()
    } else {
        let e0 = word_end(s, j);
        let e1 = if e0 <= j {
            j + 1
        } else {
            e0
        };
        let e = if e1 > s.len() {
            s.len() as int
        } else {
            e1
        };
        seq![s.subrange(j, e)] + space_words_from(s, e)
    }
}

/// Split on spaces, dropping empty runs.
#[verifier::loop_isolation(false)]
pub fn split_spaces(s: &str) -> (r: Vec<String>)
    ensures
        r.deep_view() == space_words_from(s@, 0),
{
    split_spaces_from(s, 0)
}

fn split_spaces_from(s: &str, i: usize) -> (r: Vec<String>)
    requires
        i <= s@.len(),
    ensures
        r.deep_view() == space_words_from(s@, i as int),
    decreases s@.len() - i,
{
    proof {
        lemma_sp_end_props(s@, i as int);
    }
    let n = s.unicode_len();
    let mut j: usize = i;
    while j < n && is_space(s.get_char(j))
        invariant
            n == s@.len(),
            i <= j <= n,
            sp_end(s@, i as int) == sp_end(s@, j as int),
        decreases n - j,
    {
        j = j + 1;
    }
    assert(sp_end(s@, j as int) == j);
    if j == n {
        let out: Vec<String> = Vec::new();
        proof {
            assert(out.deep_view() =~= space_words_from(s@, i as int));
        }
        return out;
    }
    let mut e: usize = j;
    while e < n && !is_space(s.get_char(e))
        invariant
            n == s@.len(),
            j <= e <= n,
            word_end(s@, j as int) == word_end(s@, e as int),
        decreases n - e,
    {
        e = e + 1;
    }
    assert(word_end(s@, e as int) == e);
    assert(e > j) by {
        assert(!is_space_char(s@[j as int]));
    }
    let word = s.substring_char(j, e).to_owned();
    let rest = split_spaces_from(s, e);
    let mut out: Vec<String> = Vec::new();
    out.push(word);
    let mut rest = rest;
    out.append(&mut rest);
    proof {
        assert(out.deep_view() =~= space_words_from(s@, i as int));
    }
    out
}

/// Strict lexicographic order on character sequences by code point.
pub open spec fn seq_lt(a: Seq<char>, b: Seq<char>) -> bool
    decreases a.len(),
{
    if b.len() == 0 {
        false
    } else if a.len() == 0 {
        true
    } else if a[0] < b[0] {
        true
    } else if a[0] > b[0] {
        false
    } else {
        seq_lt(a.skip(1), b.skip(1))
    }
}

pub open spec fn seq_le(a: Seq<char>, b: Seq<char>) -> bool {
    seq_lt(a, b) || a == b
}

pub proof fn lemma_seq_lt_trichotomy(a: Seq<char>, b: Seq<char>)
    ensures
        seq_lt(a, b) || seq_lt(b, a) || a == b,
    decreases a.len(),
{
    if a.len() == 0 && b.len() == 0 {
        assert(a =~= b);
    } else if a.len() > 0 && b.len() > 0 && a[0] == b[0] {
        lemma_seq_lt_trichotomy(a.skip(1), b.skip(1));
        if a.skip(1) == b.skip(1) {
            assert(a.len() == b.len()) by {
                assert(a.skip(1).len() == a.len() - 1);
                assert(b.skip(1).len() == b.len() - 1);
            }
            assert forall|i: int| 0 <= i < a.len() implies a[i] == b[i] by {
                if i > 0 {
                    assert(a.skip(1)[i - 1] == a[i]);
                    assert(b.skip(1)[i - 1] == b[i]);
                }
            }
            assert(a =~= b);
        }
    }
}

pub proof fn lemma_seq_lt_asym(a: Seq<char>, b: Seq<char>)
    requires
        seq_lt(a, b),
    ensures
        !seq_lt(b, a),
        a != b,
    decreases a.len(),
{
    if b.len() > 0 && a.len() > 0 && a[0] == b[0] {
        lemma_seq_lt_asym(a.skip(1), b.skip(1));
        if a == b {
            assert(a.skip(1) =~= b.skip(1));
        }
    } else if b.len() > 0 && a.len() == 0 {
        if a == b {
            assert(b.len() == 0);
        }
    }
}

pub proof fn lemma_seq_lt_trans(a: Seq<char>, b: Seq<char>, c: Seq<char>)
    requires
        seq_lt(a, b),
        seq_lt(b, c),
    ensures
        seq_lt(a, c),
    decreases a.len(),
{
    if a.len() > 0 && b.len() > 0 && c.len() > 0 && a[0] == b[0] && b[0] == c[0] {
        lemma_seq_lt_trans(a.skip(1), b.skip(1), c.skip(1));
    }
}

/// Exec comparison: is `a` strictly before `b` in lexicographic order?
pub fn str_lt(a: &str, b: &str) -> (r: bool)
    ensures
        r == seq_lt(a@, b@),
{
    let r = str_lt_from(a, b, 0);
    assert(a@.skip(0) =~= a@);
    assert(b@.skip(0) =~= b@);
    r
}

fn str_lt_from(a: &str, b: &str, i: usize) -> (r: bool)
    requires
        i <= a@.len(),
        i <= b@.len(),
    ensures
        r == seq_lt(a@.skip(i as int), b@.skip(i as int)),
    decreases a@.len() - i,
{
    let alen = a.unicode_len();
    let blen = b.unicode_len();
    if i == blen {
        false
    } else if i == alen {
        true
    } else {
        let ca = a.get_char(i);
        let cb = b.get_char(i);
        assert(a@.skip(i as int)[0] == ca);
        assert(b@.skip(i as int)[0] == cb);
        if ca < cb {
            true
        } else if ca > cb {
            false
        } else {
            let r = str_lt_from(a, b, i + 1);
            assert(a@.skip(i as int).skip(1) =~= a@.skip(i + 1));
            assert(b@.skip(i as int).skip(1) =~= b@.skip(i + 1));
            r
        }
    }
}

} // verus!
