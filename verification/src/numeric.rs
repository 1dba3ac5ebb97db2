//! Decimal numerals: rendering unsigned integers as digit strings and
//! reading digit strings back, with exact specifications.
//!
//! The wire protocol carries every number as decimal text, so both the
//! parameter encoder and the response decoder rest on these functions.

use vstd::prelude::*;

verus! {

/// The digit character for one value below ten.
pub open spec fn digit_char(d: nat) -> char {
    if d == 0 {
        '0'
    } else if d == 1 {
        '1'
    } else if d == 2 {
        '2'
    } else if d == 3 {
        '3'
    } else if d == 4 {
        '4'
    } else if d == 5 {
        '5'
    } else if d == 6 {
        '6'
    } else if d == 7 {
        '7'
    } else if d == 8 {
        '8'
    } else {
        '9'
    }
}

/// The canonical decimal numeral of `n`: no sign, no leading zeros
/// (a single `'0'` for zero itself).
pub open spec fn dec_str(n: nat) -> Seq<char>
    decreases n,
{
    if n < 10 {
        seq![digit_char(n)]
    } else {
        dec_str(n / 10).push(digit_char(n % 10))
    }
}

pub open spec fn is_digit(c: char) -> bool {
    48 <= c as u32 && c as u32 <= 57
}

pub open spec fn digit_val(c: char) -> int {
    c as u32 - 48
}

pub open spec fn all_digits(s: Seq<char>) -> bool {
    forall|i: int| 0 <= i < s.len() ==> is_digit(#[trigger] s[i])
}

/// The numeric value of a digit string, most significant digit first.
pub open spec fn dec_val(s: Seq<char>) -> int
    decreases s.len(),
{
    if s.len() == 0 {
        0
    } else {
        dec_val(s.drop_last()) * 10 + digit_val(s.last())
    }
}

/// What reading an unsigned decimal field yields: the value, exactly when
/// the text is a nonempty run of digits whose value fits in a `u64`.
pub open spec fn parse_u64_spec(s: Seq<char>) -> Option<u64> {
    if s.len() > 0 && all_digits(s) && dec_val(s) <= u64::MAX {
        Some(dec_val(s) as u64)
    } else {
        None
    }
}

pub proof fn lemma_dec_val_nonneg(s: Seq<char>)
    requires
        all_digits(s),
    ensures
        dec_val(s) >= 0,
    decreases s.len(),
{
    if s.len() > 0 {
        assert(all_digits(s.drop_last()));
        lemma_dec_val_nonneg(s.drop_last());
    }
}

/// A prefix of a digit string never exceeds the whole string's value.
pub proof fn lemma_dec_val_prefix(s: Seq<char>, j: int)
    requires
        all_digits(s),
        0 <= j <= s.len(),
    ensures
        dec_val(s.subrange(0, j)) <= dec_val(s),
    decreases s.len(),
{
    if j == s.len() {
        assert(s.subrange(0, j) =~= s);
    } else {
        let t = s.drop_last();
        assert(all_digits(t));
        assert(s.subrange(0, j) =~= t.subrange(0, j));
        lemma_dec_val_prefix(t, j);
        lemma_dec_val_nonneg(t);
    }
}

/// The canonical numeral of `n` is all digits and reads back as `n`.
pub proof fn lemma_dec_str_val(n: nat)
    ensures
        dec_str(n).len() >= 1,
        all_digits(dec_str(n)),
        dec_val(dec_str(n)) == n,
    decreases n,
{
    if n < 10 {
        assert(dec_str(n) =~= seq![digit_char(n)]);
        assert(dec_str(n).drop_last() =~= Seq::<char>::empty());
        assert(dec_str(n).last() == digit_char(n));
        assert(digit_val(digit_char(n)) == n);
        assert(dec_val(Seq::<char>::empty()) == 0);
        assert(dec_val(dec_str(n)) == dec_val(Seq::<char>::empty()) * 10 + digit_val(dec_str(n).last()));
    } else {
        lemma_dec_str_val(n / 10);
        let w = dec_str(n / 10).push(digit_char(n % 10));
        assert(w.drop_last() =~= dec_str(n / 10));
        assert(w.last() == digit_char(n % 10));
        assert(digit_val(digit_char(n % 10)) == n % 10);
        assert(dec_val(w) == (n / 10) * 10 + n % 10);
        assert(n == (n / 10) * 10 + n % 10) by {
            vstd::arithmetic::div_mod::lemma_fundamental_div_mod(n as int, 10);
        }
        assert(dec_str(n) == w);
        assert(all_digits(w));
    }
}

/// The digit character of one value below ten, as a one-character string.
fn digit_str(d: u64) -> (r: &'static str)
    requires
        d < 10,
    ensures
        r@ =~= seq![digit_char(d as nat)],
{
    proof {
        reveal_strlit("0");
        reveal_strlit("1");
        reveal_strlit("2");
        reveal_strlit("3");
        reveal_strlit("4");
        reveal_strlit("5");
        reveal_strlit("6");
        reveal_strlit("7");
        reveal_strlit("8");
        reveal_strlit("9");
    }
    match d {
        0 => "0",
        1 => "1",
        2 => "2",
        3 => "3",
        4 => "4",
        5 => "5",
        6 => "6",
        7 => "7",
        8 => "8",
        _ => "9",
    }
}

/// Renders `n` as its canonical decimal numeral.
pub fn u64_to_string(n: u64) -> (r: String)
    ensures
        r@ == dec_str(n as nat),
    decreases n,
{
    if n < 10 {
        digit_str(n).to_owned()
    } else {
        let high = u64_to_string(n / 10);
        high.concat(digit_str(n % 10))
    }
}

/// Reads an unsigned decimal field.  Returns the value exactly when the
/// text is a nonempty run of digits whose value fits; anything else —
/// empty text, a non-digit character, overflow — yields `None`.
pub fn parse_u64(s: &str) -> (r: Option<u64>)
    ensures
        r == parse_u64_spec(s@),
{
    let len = s.unicode_len();
    if len == 0 {
        return None;
    }
    let mut n: u64 = 0;
    let mut i: usize = 0;
    while i < len
        invariant
            0 < len == s@.len(),
            0 <= i <= len,
            all_digits(s@.subrange(0, i as int)),
            n == dec_val(s@.subrange(0, i as int)),
        decreases len - i,
    {
        let c = s.get_char(i);
        let cu = c as u32;
        if cu < 48 || cu > 57 {
            assert(!is_digit(s@[i as int]));
            return None;
        }
        let d: u64 = (cu - 48) as u64;
        assert(d == digit_val(s@[i as int]));
        let ghost pre = s@.subrange(0, i as int);
        let ghost cur = s@.subrange(0, i as int + 1);
        assert(cur.drop_last() =~= pre);
        assert(cur.last() == s@[i as int]);
        let stepped = match n.checked_mul(10) {
            Some(m) => m.checked_add(d),
            None => None,
        };
        match stepped {
            Some(m) => {
                n = m;
            },
            None => {
                proof {
                    assert(dec_val(cur) > u64::MAX);
                    if all_digits(s@) {
                        lemma_dec_val_prefix(s@, i as int + 1);
                    }
                }
                return None;
            },
        }
        i = i + 1;
    }
    proof {
        assert(s@.subrange(0, len as int) =~= s@);
    }
    Some(n)
}

/// What reading a `u8` field yields: the value, exactly when the text is a
/// nonempty digit run whose value fits in a `u8`.
pub open spec fn parse_u8_spec(s: Seq<char>) -> Option<u8> {
    match parse_u64_spec(s) {
        Some(v) => if v <= u8::MAX {
            Some(v as u8)
        } else {
            None
        },
        None => None,
    }
}

/// What reading a `u32` field yields: the value, exactly when the text is a
/// nonempty digit run whose value fits in a `u32`.
pub open spec fn parse_u32_spec(s: Seq<char>) -> Option<u32> {
    match parse_u64_spec(s) {
        Some(v) => if v <= u32::MAX {
            Some(v as u32)
        } else {
            None
        },
        None => None,
    }
}

/// Reads a `u8` field.
pub fn parse_u8(s: &str) -> (r: Option<u8>)
    ensures
        r == parse_u8_spec(s@),
{
    match parse_u64(s) {
        Some(v) => if v <= 255 {
            Some(v as u8)
        } else {
            None
        },
        None => None,
    }
}

/// Reads a `u32` field.
pub fn parse_u32(s: &str) -> (r: Option<u32>)
    ensures
        r == parse_u32_spec(s@),
{
    match parse_u64(s) {
        Some(v) => if v <= 0xffff_ffff {
            Some(v as u32)
        } else {
            None
        },
        None => None,
    }
}

/// A nonnegative decimal number with an exact fraction, as the wire carries
/// fractional score fields: the whole part, and the fraction's digits as
/// written (`"93.5"` is whole `93`, fraction `"5"`).  Exactness matters:
/// nothing is rounded through a binary representation.
#[derive(Debug, Clone, PartialEq)]
pub struct Decimal {
    pub whole: u64,
    pub frac: String,
}

/// The mathematical shape of a `Decimal`.
pub struct DecimalV {
    pub whole: u64,
    pub frac: Seq<char>,
}

impl View for Decimal {
    type V = DecimalV;

    open spec fn view(&self) -> DecimalV {
        DecimalV { whole: self.whole, frac: self.frac@ }
    }
}

/// A decimal that reads back from its own rendering: the fraction is all
/// digits.
pub open spec fn wf_decimal(d: DecimalV) -> bool {
    all_digits(d.frac)
}

/// First position at or after `i` that holds `'.'` (or the end).
pub open spec fn scan_dot(s: Seq<char>, i: int) -> int
    decreases s.len() - i,
{
    if 0 <= i && i < s.len() && s[i] != '.' {
        scan_dot(s, i + 1)
    } else {
        i
    }
}

pub proof fn lemma_scan_dot_bounds(s: Seq<char>, i: int)
    requires
        0 <= i <= s.len(),
    ensures
        i <= scan_dot(s, i) <= s.len(),
        forall|k: int| i <= k < scan_dot(s, i) ==> #[trigger] s[k] != '.',
        scan_dot(s, i) < s.len() ==> s[scan_dot(s, i)] == '.',
    decreases s.len() - i,
{
    if i < s.len() && s[i] != '.' {
        lemma_scan_dot_bounds(s, i + 1);
    }
}

/// What reading a fractional numeric field yields: whole digits, optionally
/// a dot and fraction digits.  Any other content — empty text, a stray
/// character, a second dot, overflow of the whole part — yields `None`.
pub open spec fn parse_decimal_spec(s: Seq<char>) -> Option<DecimalV> {
    let d = scan_dot(s, 0);
    if d == s.len() {
        match parse_u64_spec(s) {
            Some(w) => Some(DecimalV { whole: w, frac: Seq::<char>::empty() }),
            None => None,
        }
    } else {
        let frac = s.subrange(d + 1, s.len() as int);
        match parse_u64_spec(s.subrange(0, d)) {
            Some(w) => if all_digits(frac) {
                Some(DecimalV { whole: w, frac })
            } else {
                None
            },
            None => None,
        }
    }
}

/// The canonical rendering of a decimal: the whole part's numeral, then a
/// dot and the fraction digits when there are any.
pub open spec fn ser_decimal(d: DecimalV) -> Seq<char> {
    if d.frac.len() == 0 {
        dec_str(d.whole as nat)
    } else {
        dec_str(d.whole as nat) + seq!['.'] + d.frac
    }
}

/// Reading back a rendered decimal yields the same value.
pub proof fn lemma_decimal_roundtrip(d: DecimalV)
    requires
        wf_decimal(d),
    ensures
        parse_decimal_spec(ser_decimal(d)) == Some(d),
{
    lemma_dec_str_val(d.whole as nat);
    let w = dec_str(d.whole as nat);
    let ghost wn: int = w.len() as int;
    if d.frac.len() == 0 {
        let s = ser_decimal(d);
        assert(s == w);
        lemma_scan_dot_bounds(s, 0);
        if scan_dot(s, 0) < s.len() {
            assert(s[scan_dot(s, 0)] == '.');
            assert(is_digit(s[scan_dot(s, 0)]));
            assert(false);
        }
        assert(parse_u64_spec(s) == Some(d.whole));
        assert(DecimalV { whole: d.whole, frac: Seq::<char>::empty() } == d) by {
            assert(d.frac =~= Seq::<char>::empty());
        }
    } else {
        let s = ser_decimal(d);
        assert(s == w + seq!['.'] + d.frac);
        lemma_scan_dot_bounds(s, 0);
        let sd = scan_dot(s, 0);
        assert(s[wn] == '.');
        assert(sd <= wn) by {
            if sd > wn {
                assert(s[wn] != '.');
            }
        }
        assert(sd == wn) by {
            if sd < wn {
                assert(s[sd] == '.');
                assert(s[sd] == w[sd]);
                assert(is_digit(w[sd]));
            }
        }
        assert(sd < s.len());
        assert(s.subrange(0, sd) =~= w);
        assert(s.subrange(sd + 1, s.len() as int) =~= d.frac);
        assert(parse_u64_spec(s.subrange(0, sd)) == Some(d.whole));
    }
}

fn scan_dot_at(s: &str) -> (r: usize)
    ensures
        r == scan_dot(s@, 0),
        0 <= r <= s@.len(),
{
    let len = s.unicode_len();
    let mut j: usize = 0;
    while j < len
        invariant
            0 <= j <= len,
            len == s@.len(),
            scan_dot(s@, 0) == scan_dot(s@, j as int),
        decreases len - j,
    {
        let c = s.get_char(j);
        if c == '.' {
            return j;
        }
        j = j + 1;
    }
    j
}

/// Reads a fractional numeric field.
pub fn parse_decimal(s: &str) -> (r: Option<Decimal>)
    ensures
        match parse_decimal_spec(s@) {
            Some(v) => r matches Some(d) && d@ == v,
            None => r is None,
        },
{
    let len = s.unicode_len();
    let dot = scan_dot_at(s);
    if dot == len {
        match parse_u64(s) {
            Some(w) => {
                let frac = String::new();
                Some(Decimal { whole: w, frac })
            },
            None => None,
        }
    } else {
        let whole_txt = s.substring_char(0, dot);
        let frac_txt = s.substring_char(dot + 1, len);
        match parse_u64(whole_txt) {
            Some(w) => {
                let fl = frac_txt.unicode_len();
                let mut t: usize = 0;
                while t < fl
                    invariant
                        0 <= t <= fl,
                        fl == frac_txt@.len(),
                        len == s@.len(),
                        dot < len,
                        dot == scan_dot(s@, 0),
                        frac_txt@ == s@.subrange(dot as int + 1, s@.len() as int),
                        forall|u: int| 0 <= u < t ==> is_digit(#[trigger] frac_txt@[u]),
                    decreases fl - t,
                {
                    let c = frac_txt.get_char(t);
                    let cu = c as u32;
                    if cu < 48 || cu > 57 {
                        proof {
                            let frac = s@.subrange(dot as int + 1, s@.len() as int);
                            assert(frac[t as int] == frac_txt@[t as int]);
                            assert(!is_digit(frac[t as int]));
                            assert(!all_digits(frac));
                        }
                        return None;
                    }
                    t = t + 1;
                }
                Some(Decimal { whole: w, frac: frac_txt.to_owned() })
            },
            None => None,
        }
    }
}

/// Renders a decimal exactly as `ser_decimal` states.
pub fn decimal_to_string(d: &Decimal) -> (r: String)
    ensures
        r@ == ser_decimal(d@),
{
    proof {
        reveal_strlit(".");
    }
    let mut s = u64_to_string(d.whole);
    if d.frac.as_str().unicode_len() > 0 {
        s.append(".");
        s.append(d.frac.as_str());
        proof {
            assert(s@ =~= dec_str(d@.whole as nat) + seq!['.'] + d@.frac);
        }
    }
    s
}

} // verus!
