//! Money as a signed fixed-point number of cents (two decimal places),
//! with the text forms the rest of the system reads and writes.

use vstd::prelude::*;
use vstd::string::StrSliceExecFns;
use crate::text::{
    all_digits, check_all_digits, digits_val, parse_digits, pow10, dec_str, dec_str_pad,
    append_dec, append_dec_pad, push_char, lemma_digits_val_bound, lemma_pow10_monotonic,
};

verus! {

/// Largest magnitude an amount may carry, in cents. Keeps any sum of up to
/// a million amounts inside a `u64`/`i64`.
pub const AMOUNT_LIMIT_CENTS: i64 = 10_000_000_000_000;

/// A monetary amount: `cents / 100` units of currency.
#[derive(Debug, Clone, Copy, PartialEq, Eq, Structural)]
pub struct Amount {
    pub cents: i64,
}

impl Amount {
    /// Every amount the library builds satisfies this bound.
    pub open spec fn bounded(self) -> bool {
        -AMOUNT_LIMIT_CENTS <= self.cents <= AMOUNT_LIMIT_CENTS
    }

    pub fn from_cents(cents: i64) -> (a: Amount)
        ensures
            a.cents == cents,
    {
        Amount { cents }
    }

    pub fn zero() -> (a: Amount)
        ensures
            a.cents == 0,
    {
        Amount { cents: 0 }
    }

    /// The absolute value in cents, what aggregation sums.
    pub fn abs_cents(&self) -> (r: u64)
        requires
            self.bounded(),
        ensures
            r == abs_cents_spec(*self),
    {
        if self.cents < 0 {
            (-self.cents) as u64
        } else {
            self.cents as u64
        }
    }

    pub fn le(&self, other: &Amount) -> (r: bool)
        ensures
            r == (self.cents <= other.cents),
    {
        self.cents <= other.cents
    }

    pub fn is_negative(&self) -> (r: bool)
        ensures
            r == (self.cents < 0),
    {
        self.cents < 0
    }

    /// Exact sum; the caller answers for keeping results in bounds.
    pub fn plus(&self, other: &Amount) -> (r: Amount)
        requires
            self.bounded(),
            other.bounded(),
        ensures
            r.cents == self.cents + other.cents,
    {
        Amount { cents: self.cents + other.cents }
    }

    /// Exact difference; the caller answers for keeping results in bounds.
    pub fn minus(&self, other: &Amount) -> (r: Amount)
        requires
            self.bounded(),
            other.bounded(),
        ensures
            r.cents == self.cents - other.cents,
    {
        Amount { cents: self.cents - other.cents }
    }

    pub fn in_bounds(&self) -> (r: bool)
        ensures
            r == self.bounded(),
    {
        -AMOUNT_LIMIT_CENTS <= self.cents && self.cents <= AMOUNT_LIMIT_CENTS
    }
}

pub open spec fn abs_cents_spec(a: Amount) -> int {
    if a.cents < 0 {
        -a.cents
    } else {
        a.cents as int
    }
}

/// Index of the first `'.'` in `s`, or `s.len()` if there is none.
pub open spec fn dot_pos(s: Seq<char>) -> int
    decreases s.len(),
{
    if s.len() == 0 {
        0
    } else if s[0] == '.' {
        0
    } else {
        1 + dot_pos(s.drop_first())
    }
}

proof fn lemma_dot_pos_at(s: Seq<char>, i: int)
    requires
        0 <= i <= s.len(),
        forall|k: int| 0 <= k < i ==> s[k] != '.',
        i == s.len() || s[i] == '.',
    ensures
        dot_pos(s) == i,
    decreases i,
{
    if i > 0 {
        lemma_dot_pos_at(s.drop_first(), i - 1);
    }
}

/// The amount a text denotes, in cents: an optional sign, one to eleven
/// integer digits, and optionally a dot with one or two fraction digits.
pub open spec fn amount_parse_spec(s: Seq<char>) -> Option<int> {
    let signed = s.len() > 0 && (s[0] == '-' || s[0] == '+');
    let neg = s.len() > 0 && s[0] == '-';
    let body = if signed {
        s.drop_first()
    } else {
        s
    };
    let p = dot_pos(body);
    if p == body.len() {
        if 1 <= body.len() <= 11 && all_digits(body) {
            Some(if neg { -(digits_val(body) * 100) } else { digits_val(body) * 100 })
        } else {
            Option::<int>::None
        }
    } else {
        let ip = body.subrange(0, p);
        let fp = body.subrange(p + 1, body.len() as int);
        if 1 <= ip.len() <= 11 && all_digits(ip) && 1 <= fp.len() <= 2 && all_digits(fp) {
            let mag = digits_val(ip) * 100 + digits_val(fp) * (if fp.len() == 1 { 10int } else { 1int });
            Some(if neg { -mag } else { mag })
        } else {
            Option::<int>::None
        }
    }
}

proof fn lemma_digits_val_scaled_bound(s: Seq<char>, limit: int)
    requires
        all_digits(s),
        s.len() <= 11,
        pow10(11) == limit,
    ensures
        0 <= digits_val(s) < limit,
{
    lemma_digits_val_bound(s);
    lemma_pow10_monotonic(s.len() as int, 11);
}

/// Parses an amount from text; `None` exactly on text outside the grammar.
pub fn amount_from_str(s: &str) -> (r: Option<Amount>)
    ensures
        r is Some <==> amount_parse_spec(s@) is Some,
        r matches Some(a) ==> {
            &&& amount_parse_spec(s@) == Some(a.cents as int)
            &&& a.bounded()
        },
{
    let len = s.unicode_len();
    let mut start: usize = 0;
    let mut neg = false;
    if len > 0 {
        let c0 = s.get_char(0);
        if c0 == '-' {
            neg = true;
            start = 1;
        } else if c0 == '+' {
            start = 1;
        }
    }
    let ghost body = if start == 1 {
        s@.drop_first()
    } else {
        s@
    };
    proof {
        assert(forall|k: int| 0 <= k < body.len() ==> body[k] == s@[k + start]);
    }
    // find the first dot in the body
    let mut i: usize = start;
    while i < len && s.get_char(i) != '.'
        invariant
            start <= i <= len,
            len == s@.len(),
            start == 0 || start == 1,
            forall|k: int| start <= k < i ==> s@[k] != '.',
        decreases len - i,
    {
        i = i + 1;
    }
    proof {
        lemma_dot_pos_at(body, i - start as int);
        assert(dot_pos(body) == i - start);
    }
    if i == len {
        // no dot: integer amount
        if len - start < 1 || len - start > 11 || !check_all_digits(s, start, len) {
            proof {
                assert(body =~= s@.subrange(start as int, len as int));
            }
            return None;
        }
        proof {
            assert(body =~= s@.subrange(start as int, len as int));
        }
        let mag = parse_digits(s, start, len);
        proof {
            assert(pow10(11) == 100_000_000_000) by {
                reveal_with_fuel(pow10, 12);
            }
            lemma_digits_val_scaled_bound(body, 100_000_000_000);
        }
        let cents: i64 = (mag as i64) * 100;
        let r = if neg {
            Amount { cents: -cents }
        } else {
            Amount { cents }
        };
        return Some(r);
    }
    // a dot at i: integer part then one or two fraction digits
    let ip_len = i - start;
    let fp_len = len - (i + 1);
    let ghost ip = body.subrange(0, i - start as int);
    let ghost fp = body.subrange(i - start as int + 1, body.len() as int);
    proof {
        assert(ip =~= s@.subrange(start as int, i as int));
        assert(fp =~= s@.subrange(i as int + 1, len as int));
    }
    if ip_len < 1 || ip_len > 11 || fp_len < 1 || fp_len > 2 {
        return None;
    }
    if !check_all_digits(s, start, i) || !check_all_digits(s, i + 1, len) {
        return None;
    }
    let ipv = parse_digits(s, start, i);
    let fpv = parse_digits(s, i + 1, len);
    proof {
        assert(pow10(11) == 100_000_000_000) by {
            reveal_with_fuel(pow10, 12);
        }
        lemma_digits_val_scaled_bound(ip, 100_000_000_000);
        lemma_digits_val_bound(fp);
        assert(pow10(2) == 100) by {
            reveal_with_fuel(pow10, 3);
        }
        lemma_pow10_monotonic(fp.len() as int, 2);
    }
    let scale: u64 = if fp_len == 1 {
        10
    } else {
        1
    };
    let mag: u64 = ipv * 100 + fpv * scale;
    let cents: i64 = mag as i64;
    let r = if neg {
        Amount { cents: -cents }
    } else {
        Amount { cents }
    };
    Some(r)
}

/// The canonical text of an amount: sign, units, dot, two cent digits.
pub open spec fn amount_str(c: int) -> Seq<char> {
    let a = if c < 0 {
        -c
    } else {
        c
    };
    let sign: Seq<char> = if c < 0 {
        seq!['-']
    } else {
        Seq::<char>::empty()
    };
    sign + dec_str(a / 100) + seq!['.'] + dec_str_pad(a % 100, 2)
}

impl Amount {
    /// Renders the amount as text, always with two decimal places.
    pub fn to_text(&self) -> (r: String)
        requires
            self.bounded(),
        ensures
            r@ == amount_str(self.cents as int),
    {
        let mut out = String::new();
        let mag: u64 = if self.cents < 0 {
            push_char(&mut out, '-');
            (-self.cents) as u64
        } else {
            self.cents as u64
        };
        append_dec(&mut out, mag / 100);
        push_char(&mut out, '.');
        append_dec_pad(&mut out, mag % 100, 2);
        proof {
            assert(out@ =~= amount_str(self.cents as int));
        }
        out
    }
}

} // verus!
