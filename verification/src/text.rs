//! Text primitives shared across the library: whitespace trimming, a
//! lexicographic order on strings, decimal digit parsing and formatting,
//! and case folding.

use vstd::prelude::*;
use vstd::string::StrSliceExecFns;

verus! {

/// The characters Unicode marks with the White_Space property, the set
/// `str::trim` strips.
pub open spec fn is_space(c: char) -> bool {
    ||| c == ' '
    ||| c == '\t'
    ||| c == '\n'
    ||| c == '\r'
    ||| c == '\u{b}'
    ||| c == '\u{c}'
    ||| c == '\u{85}'
    ||| c == '\u{a0}'
    ||| c == '\u{1680}'
    ||| ('\u{2000}' <= c && c <= '\u{200a}')
    ||| c == '\u{2028}'
    ||| c == '\u{2029}'
    ||| c == '\u{202f}'
    ||| c == '\u{205f}'
    ||| c == '\u{3000}'
}

pub fn is_space_exec(c: char) -> (r: bool)
    ensures
        r == is_space(c),
{
    let u = c as u32;
    c == ' ' || c == '\t' || c == '\n' || c == '\r' || c == '\u{b}' || c == '\u{c}'
        || c == '\u{85}' || c == '\u{a0}' || c == '\u{1680}'
        || (0x2000 <= u && u <= 0x200a) || c == '\u{2028}' || c == '\u{2029}'
        || c == '\u{202f}' || c == '\u{205f}' || c == '\u{3000}'
}

pub open spec fn trim_front(s: Seq<char>) -> Seq<char>
    decreases s.len(),
{
    if s.len() > 0 && is_space(s[0]) {
        trim_front(s.drop_first())
    } else {
        s
    }
}

pub open spec fn trim_back(s: Seq<char>) -> Seq<char>
    decreases s.len(),
{
    if s.len() > 0 && is_space(s[s.len() - 1]) {
        trim_back(s.drop_last())
    } else {
        s
    }
}

/// What `str::trim` leaves: the input without leading and trailing
/// whitespace.
pub open spec fn trim_spec(s: Seq<char>) -> Seq<char> {
    trim_back(trim_front(s))
}

proof fn lemma_trim_front_subrange(s: Seq<char>, i: int)
    requires
        0 <= i <= s.len(),
        forall|k: int| 0 <= k < i ==> is_space(#[trigger] s[k]),
        i == s.len() || !is_space(s[i]),
    ensures
        trim_front(s) =~= s.subrange(i, s.len() as int),
    decreases i,
{
    if i == 0 {
        assert(trim_front(s) =~= s.subrange(0, s.len() as int)) by {
            if s.len() > 0 && is_space(s[0]) {
                assert(!is_space(s[0]));
            }
        }
    } else {
        assert(is_space(s[0]));
        lemma_trim_front_subrange(s.drop_first(), i - 1);
        assert(s.drop_first().subrange(i - 1, s.drop_first().len() as int) =~= s.subrange(
            i,
            s.len() as int,
        ));
    }
}

proof fn lemma_trim_back_subrange(s: Seq<char>, j: int)
    requires
        0 <= j <= s.len(),
        forall|k: int| j <= k < s.len() ==> is_space(#[trigger] s[k]),
        j == 0 || !is_space(s[j - 1]),
    ensures
        trim_back(s) =~= s.subrange(0, j),
    decreases s.len() - j,
{
    if j == s.len() {
        assert(trim_back(s) =~= s.subrange(0, j)) by {
            if s.len() > 0 && is_space(s[s.len() - 1]) {
                assert(!is_space(s[j - 1]));
            }
        }
    } else {
        assert(is_space(s[s.len() - 1]));
        lemma_trim_back_subrange(s.drop_last(), j);
        assert(s.drop_last().subrange(0, j) =~= s.subrange(0, j));
    }
}

/// Strips leading and trailing whitespace, as `str::trim` does.
pub fn trim(s: &str) -> (r: &str)
    ensures
        r@ == trim_spec(s@),
{
    let len = s.unicode_len();
    let mut start: usize = 0;
    while start < len && is_space_exec(s.get_char(start))
        invariant
            0 <= start <= len,
            len == s@.len(),
            forall|k: int| 0 <= k < start ==> is_space(#[trigger] s@[k]),
        decreases len - start,
    {
        start = start + 1;
    }
    if start == len {
        proof {
            lemma_trim_front_subrange(s@, len as int);
            assert(trim_front(s@) =~= Seq::<char>::empty());
            assert(trim_back(Seq::<char>::empty()) =~= Seq::<char>::empty());
        }
        let r = s.substring_char(len, len);
        proof {
            assert(r@ =~= trim_spec(s@));
        }
        return r;
    }
    let mut end: usize = len;
    while end > start && is_space_exec(s.get_char(end - 1))
        invariant
            start <= end <= len,
            len == s@.len(),
            forall|k: int| end <= k < len ==> is_space(#[trigger] s@[k]),
        decreases end,
    {
        end = end - 1;
    }
    let r = s.substring_char(start, end);
    proof {
        lemma_trim_front_subrange(s@, start as int);
        let t = s@.subrange(start as int, len as int);
        let j = end - start as int;
        if end > start {
            assert(t[j - 1] == s@[end - 1]);
        }
        lemma_trim_back_subrange(t, j);
        assert(t.subrange(0, j) =~= s@.subrange(start as int, end as int));
    }
    r
}

/// Lexicographic `<=` on strings, by Unicode code point; the order ids and
/// category names sort by.
pub open spec fn lex_le(a: Seq<char>, b: Seq<char>) -> bool
    decreases a.len(),
{
    if a.len() == 0 {
        true
    } else if b.len() == 0 {
        false
    } else if a[0] != b[0] {
        (a[0] as int) < (b[0] as int)
    } else {
        lex_le(a.drop_first(), b.drop_first())
    }
}

pub proof fn lemma_lex_le_reflexive(a: Seq<char>)
    ensures
        lex_le(a, a),
    decreases a.len(),
{
    if a.len() > 0 {
        lemma_lex_le_reflexive(a.drop_first());
    }
}

pub proof fn lemma_lex_le_total(a: Seq<char>, b: Seq<char>)
    ensures
        lex_le(a, b) || lex_le(b, a),
    decreases a.len(),
{
    if a.len() > 0 && b.len() > 0 && a[0] == b[0] {
        lemma_lex_le_total(a.drop_first(), b.drop_first());
    }
}

pub proof fn lemma_lex_le_antisymmetric(a: Seq<char>, b: Seq<char>)
    requires
        lex_le(a, b),
        lex_le(b, a),
    ensures
        a == b,
    decreases a.len(),
{
    if a.len() == 0 {
        assert(b.len() == 0);
        assert(a =~= b);
    } else {
        assert(b.len() > 0);
        assert(a[0] == b[0]);
        lemma_lex_le_antisymmetric(a.drop_first(), b.drop_first());
        assert(a =~= seq![a[0]] + a.drop_first());
        assert(b =~= seq![b[0]] + b.drop_first());
    }
}

pub proof fn lemma_lex_le_transitive(a: Seq<char>, b: Seq<char>, c: Seq<char>)
    requires
        lex_le(a, b),
        lex_le(b, c),
    ensures
        lex_le(a, c),
    decreases a.len(),
{
    if a.len() > 0 && b.len() > 0 && c.len() > 0 && a[0] == b[0] && b[0] == c[0] {
        lemma_lex_le_transitive(a.drop_first(), b.drop_first(), c.drop_first());
    }
}

/// Lexicographic comparison of two strings.
pub fn str_le(a: &str, b: &str) -> (r: bool)
    ensures
        r == lex_le(a@, b@),
    decreases a@.len(),
{
    let alen = a.unicode_len();
    let blen = b.unicode_len();
    if alen == 0 {
        true
    } else if blen == 0 {
        false
    } else {
        let ca = a.get_char(0);
        let cb = b.get_char(0);
        if ca != cb {
            (ca as u32) < (cb as u32)
        } else {
            let ra = a.substring_char(1, alen);
            let rb = b.substring_char(1, blen);
            proof {
                assert(ra@ =~= a@.drop_first());
                assert(rb@ =~= b@.drop_first());
            }
            str_le(ra, rb)
        }
    }
}

/// Strict lexicographic `<`.
pub open spec fn lex_lt(a: Seq<char>, b: Seq<char>) -> bool {
    lex_le(a, b) && a != b
}

/// String equality by characters.
pub fn str_eq(a: &str, b: &str) -> (r: bool)
    ensures
        r == (a@ == b@),
{
    let sa = a.to_owned();
    let sb = b.to_owned();
    sa.eq(&sb)
}

/// The first `n` characters of `s`, or all of it when shorter.
pub fn take_chars(s: &str, n: usize) -> (r: String)
    ensures
        s@.len() <= n ==> r@ == s@,
        s@.len() > n ==> r@ == s@.subrange(0, n as int),
{
    let len = s.unicode_len();
    if len <= n {
        s.to_owned()
    } else {
        let t = s.substring_char(0, n);
        t.to_owned()
    }
}

/// Strict lexicographic comparison of two strings.
pub fn str_lt(a: &str, b: &str) -> (r: bool)
    ensures
        r == lex_lt(a@, b@),
{
    let le = str_le(a, b);
    let ge = str_le(b, a);
    proof {
        lemma_lex_le_total(a@, b@);
        if le && ge {
            lemma_lex_le_antisymmetric(a@, b@);
        }
        if a@ == b@ {
            lemma_lex_le_reflexive(a@);
        }
    }
    le && !ge
}

pub open spec fn is_digit(c: char) -> bool {
    '0' <= c && c <= '9'
}

pub open spec fn digit_val(c: char) -> int {
    c as int - 48
}

pub open spec fn digit_char(d: int) -> char {
    if d == 0 {
        '0'
    } else if d == 1 {
        '1'
    } else if d == 2 {
        '2'
    } else if d == 3 {
        '3'
    } else if d == 4 {
        '4'
    } else if d == 5 {
        '5'
    } else if d == 6 {
        '6'
    } else if d == 7 {
        '7'
    } else if d == 8 {
        '8'
    } else {
        '9'
    }
}

pub open spec fn all_digits(s: Seq<char>) -> bool {
    forall|i: int| 0 <= i < s.len() ==> is_digit(#[trigger] s[i])
}

/// The number a string of decimal digits denotes.
pub open spec fn digits_val(s: Seq<char>) -> int
    decreases s.len(),
{
    if s.len() == 0 {
        0
    } else {
        digits_val(s.drop_last()) * 10 + digit_val(s.last())
    }
}

/// Decimal digits of `n`, without leading zeros (a single `'0'` for 0).
pub open spec fn dec_str(n: int) -> Seq<char>
    decreases n,
{
    if n <= 0 {
        seq!['0']
    } else if n < 10 {
        seq![digit_char(n)]
    } else {
        dec_str(n / 10).push(digit_char(n % 10))
    }
}

fn digit_char_exec(d: u64) -> (c: char)
    requires
        d < 10,
    ensures
        c == digit_char(d as int),
{
    match d {
        0 => '0',
        1 => '1',
        2 => '2',
        3 => '3',
        4 => '4',
        5 => '5',
        6 => '6',
        7 => '7',
        8 => '8',
        _ => '9',
    }
}

/// Relies on std's `String::push`: appends exactly the one character.
#[verifier::external_body]
pub fn push_char(s: &mut String, c: char)
    ensures
        final(s)@ == old(s)@.push(c),
{
    s.push(c);
}

/// Appends the decimal digits of `n`.
pub fn append_dec(s: &mut String, n: u64)
    ensures
        final(s)@ == old(s)@ + dec_str(n as int),
    decreases n,
{
    if n < 10 {
        push_char(s, digit_char_exec(n));
        proof {
            assert(s@ =~= old(s)@ + dec_str(n as int));
        }
    } else {
        append_dec(s, n / 10);
        push_char(s, digit_char_exec(n % 10));
        proof {
            assert(s@ =~= old(s)@ + dec_str(n as int));
        }
    }
}

/// Decimal digits of `n`, left-padded with zeros to at least `w` characters.
pub open spec fn dec_str_pad(n: int, w: int) -> Seq<char> {
    let s = dec_str(n);
    if s.len() >= w {
        s
    } else {
        Seq::new((w - s.len()) as nat, |i: int| '0') + s
    }
}

/// Appends `n` zero-padded to at least `w` digits (`w` at most 4).
pub fn append_dec_pad(s: &mut String, n: u64, w: u64)
    requires
        w <= 4,
    ensures
        final(s)@ == old(s)@ + dec_str_pad(n as int, w as int),
{
    let mut pad: u64 = 0;
    let digits = count_digits(n);
    let mut t = String::new();
    while pad + digits < w
        invariant
            digits == dec_str(n as int).len(),
            1 <= digits <= 20,
            w <= 4,
            pad <= 4,
            pad + digits <= w || pad == 0,
            t@ =~= Seq::new(pad as nat, |i: int| '0'),
        decreases w - pad - digits,
    {
        push_char(&mut t, '0');
        pad = pad + 1;
        proof {
            assert(t@ =~= Seq::new(pad as nat, |i: int| '0'));
        }
    }
    append_str(s, t.as_str());
    append_dec(s, n);
    proof {
        assert(t@ + dec_str(n as int) =~= dec_str_pad(n as int, w as int));
        assert(s@ =~= old(s)@ + dec_str_pad(n as int, w as int));
    }
}

/// The number of decimal digits `dec_str` uses for `n`.
fn count_digits(n: u64) -> (r: u64)
    ensures
        r == dec_str(n as int).len(),
        1 <= r <= 20,
    decreases n,
{
    proof {
        assert(pow10(20) == 100_000_000_000_000_000_000) by {
            reveal_with_fuel(pow10, 21);
        }
        lemma_dec_str_len_bound(n as int, 20);
    }
    if n < 10 {
        1
    } else {
        1 + count_digits(n / 10)
    }
}

proof fn lemma_dec_str_len_bound(n: int, k: int)
    requires
        1 <= k,
        n < pow10(k),
    ensures
        dec_str(n).len() <= k,
    decreases k,
{
    if n >= 10 {
        if k == 1 {
            assert(pow10(1) == 10) by {
                reveal_with_fuel(pow10, 2);
            }
        } else {
            lemma_pow10_positive(k - 1);
            assert(pow10(k) == 10 * pow10(k - 1));
            assert(n / 10 < pow10(k - 1)) by (nonlinear_arith)
                requires
                    n < 10 * pow10(k - 1),
                    pow10(k - 1) >= 1,
                    n >= 10,
            ;
            lemma_dec_str_len_bound(n / 10, k - 1);
        }
    }
}

pub open spec fn pow10(k: int) -> int
    decreases k,
{
    if k <= 0 {
        1
    } else {
        10 * pow10(k - 1)
    }
}

/// Appends `t` to `s`.
pub fn append_str(s: &mut String, t: &str)
    ensures
        final(s)@ == old(s)@ + t@,
{
    s.append(t);
}

/// Relies on std's `String::pop`: removes the last character, if any.
#[verifier::external_body]
pub fn pop_char(s: &mut String)
    ensures
        old(s)@.len() == 0 ==> *final(s) == *old(s),
        old(s)@.len() > 0 ==> final(s)@ == old(s)@.drop_last(),
{
    s.pop();
}

/// Parses the digits of `s[from..to]` as a number (at most 11 digits).
pub fn parse_digits(s: &str, from: usize, to: usize) -> (r: u64)
    requires
        from <= to <= s@.len(),
        to - from <= 11,
        all_digits(s@.subrange(from as int, to as int)),
    ensures
        r == digits_val(s@.subrange(from as int, to as int)),
        r < pow10(to - from as int),
{
    let mut acc: u64 = 0;
    let mut i: usize = from;
    while i < to
        invariant
            from <= i <= to <= s@.len(),
            to - from <= 11,
            all_digits(s@.subrange(from as int, to as int)),
            acc == digits_val(s@.subrange(from as int, i as int)),
            acc < pow10(i - from),
        decreases to - i,
    {
        let c = s.get_char(i);
        proof {
            assert(s@.subrange(from as int, to as int)[i - from] == s@[i as int]);
            assert(is_digit(s@[i as int]));
            lemma_pow10_monotonic(i - from, 10);
            assert(pow10(10) == 10_000_000_000) by {
                reveal_with_fuel(pow10, 11);
            }
        }
        let d: u64 = ((c as u32) - 48) as u64;
        acc = acc * 10 + d;
        i = i + 1;
        proof {
            assert(s@.subrange(from as int, i as int).drop_last() =~= s@.subrange(
                from as int,
                i - 1,
            ));
        }
    }
    proof {
        assert(s@.subrange(from as int, i as int) =~= s@.subrange(from as int, to as int));
    }
    acc
}

/// A string of digits denotes a number below ten to its length.
pub proof fn lemma_digits_val_bound(s: Seq<char>)
    requires
        all_digits(s),
    ensures
        0 <= digits_val(s) < pow10(s.len() as int),
    decreases s.len(),
{
    if s.len() > 0 {
        assert(all_digits(s.drop_last())) by {
            assert(forall|i: int| 0 <= i < s.len() - 1 ==> #[trigger] s.drop_last()[i] == s[i]);
        }
        lemma_digits_val_bound(s.drop_last());
        assert(is_digit(s.last()));
        assert(pow10(s.len() as int) == 10 * pow10(s.len() - 1));
    }
}

/// Checks that every character of `s[from..to]` is a decimal digit.
pub fn check_all_digits(s: &str, from: usize, to: usize) -> (r: bool)
    requires
        from <= to <= s@.len(),
    ensures
        r == all_digits(s@.subrange(from as int, to as int)),
{
    let mut i: usize = from;
    while i < to
        invariant
            from <= i <= to <= s@.len(),
            forall|k: int| from <= k < i ==> is_digit(#[trigger] s@[k]),
        decreases to - i,
    {
        let c = s.get_char(i);
        let u = c as u32;
        if u < 48 || u > 57 {
            proof {
                assert(s@.subrange(from as int, to as int)[i - from as int] == s@[i as int]);
                assert(!is_digit(s@[i as int]));
            }
            return false;
        }
        i = i + 1;
    }
    proof {
        assert forall|k: int| 0 <= k < to - from implies is_digit(
            #[trigger] s@.subrange(from as int, to as int)[k],
        ) by {
            assert(s@.subrange(from as int, to as int)[k] == s@[from + k]);
        }
    }
    true
}

pub proof fn lemma_pow10_monotonic(a: int, b: int)
    requires
        a <= b,
    ensures
        pow10(a) <= pow10(b),
    decreases b - a,
{
    if a < b {
        lemma_pow10_monotonic(a, b - 1);
        if b > 0 {
            assert(pow10(b) == 10 * pow10(b - 1));
            lemma_pow10_positive(b - 1);
        }
    }
}

pub proof fn lemma_pow10_positive(k: int)
    ensures
        pow10(k) >= 1,
    decreases k,
{
    if k > 0 {
        lemma_pow10_positive(k - 1);
    }
}

/// Index of the first occurrence of `c` in `s`, or `s.len()` if none.
pub open spec fn char_pos(s: Seq<char>, c: char) -> int
    decreases s.len(),
{
    if s.len() == 0 {
        0
    } else if s[0] == c {
        0
    } else {
        1 + char_pos(s.drop_first(), c)
    }
}

pub proof fn lemma_char_pos_at(s: Seq<char>, c: char, i: int)
    requires
        0 <= i <= s.len(),
        forall|k: int| 0 <= k < i ==> s[k] != c,
        i == s.len() || s[i] == c,
    ensures
        char_pos(s, c) == i,
    decreases i,
{
    if i > 0 {
        lemma_char_pos_at(s.drop_first(), c, i - 1);
    }
}

/// `s` split at every occurrence of `c`; no occurrence gives the one-part
/// split, and separators at the ends give empty parts.
pub open spec fn split_at(s: Seq<char>, c: char) -> Seq<Seq<char>>
    decreases s.len(),
{
    let p = char_pos(s, c);
    if 0 <= p < s.len() {
        seq![s.subrange(0, p)] + split_at(s.subrange(p + 1, s.len() as int), c)
    } else {
        seq![s]
    }
}

/// Splits a string at every occurrence of `c`.
pub fn split_char(s: &str, c: char) -> (r: Vec<String>)
    ensures
        r.deep_view() == split_at(s@, c),
    decreases s@.len(),
{
    let len = s.unicode_len();
    let mut i: usize = 0;
    while i < len && s.get_char(i) != c
        invariant
            0 <= i <= len,
            len == s@.len(),
            forall|k: int| 0 <= k < i ==> s@[k] != c,
        decreases len - i,
    {
        i = i + 1;
    }
    proof {
        lemma_char_pos_at(s@, c, i as int);
    }
    if i == len {
        let mut v: Vec<String> = Vec::new();
        v.push(s.to_owned());
        proof {
            assert(v.deep_view() =~~= split_at(s@, c));
        }
        v
    } else {
        let head = s.substring_char(0, i);
        let tail = s.substring_char(i + 1, len);
        let rest = split_char(tail, c);
        let mut v: Vec<String> = Vec::new();
        v.push(head.to_owned());
        let mut j: usize = 0;
        while j < rest.len()
            invariant
                0 <= j <= rest.len(),
                v@.len() == j + 1,
                v@[0]@ == head@,
                forall|k: int| 0 <= k < j ==> #[trigger] v@[k + 1]@ == rest@[k]@,
            decreases rest.len() - j,
        {
            let part = rest[j].clone();
            v.push(part);
            j = j + 1;
        }
        proof {
            assert(head@ == s@.subrange(0, i as int));
            assert(tail@ == s@.subrange(i + 1, len as int));
            assert forall|k: int| 0 <= k < v@.len() implies #[trigger] v.deep_view()[k]
                == split_at(s@, c)[k] by {
                if k > 0 {
                    assert(v@[(k - 1) + 1]@ == rest@[k - 1]@);
                    assert(rest.deep_view()[k - 1] == rest@[k - 1]@);
                }
            }
            assert(v.deep_view() =~~= split_at(s@, c));
        }
        v
    }
}

/// Name for what `str::to_lowercase` returns; it depends on the characters
/// of the input alone.
pub uninterp spec fn lower_of(s: Seq<char>) -> Seq<char>;

/// Relies on `str::to_lowercase`: the result is a function of the input
/// characters alone; an empty input gives an empty result.
#[verifier::external_body]
pub fn to_lowercase(s: &str) -> (r: String)
    ensures
        r@ == lower_of(s@),
        s@.len() == 0 ==> r@.len() == 0,
{
    s.to_lowercase()
}

/// Case-insensitive equality, by full lowercasing as the browse filter does.
pub fn eq_ignore_case(a: &str, b: &str) -> (r: bool)
    ensures
        r == (lower_of(a@) == lower_of(b@)),
{
    let la = to_lowercase(a);
    let lb = to_lowercase(b);
    la.eq(&lb)
}

} // verus!
