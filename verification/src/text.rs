//! Character-level reading of plain-text logs: lines, whitespace-separated words,
//! unsigned decimal integers and the shape of a decimal floating-point literal.
use vstd::prelude::*;

verus! {

// ---------------------------------------------------------------------------
// Specifications
// ---------------------------------------------------------------------------

/// The characters that carry the Unicode `White_Space` property, which is what
/// `char::is_whitespace` tests.
pub open spec fn is_ws(c: char) -> bool {
    ||| ('\u{9}' <= c && c <= '\u{d}')
    ||| c == ' '
    ||| c == '\u{85}'
    ||| c == '\u{a0}'
    ||| c == '\u{1680}'
    ||| ('\u{2000}' <= c && c <= '\u{200a}')
    ||| c == '\u{2028}'
    ||| c == '\u{2029}'
    ||| c == '\u{202f}'
    ||| c == '\u{205f}'
    ||| c == '\u{3000}'
}

/// Number of leading characters of `s` that are not whitespace.
pub open spec fn token_len(s: Seq<char>) -> nat
    decreases s.len(),
{
    if s.len() == 0 || is_ws(s[0]) {
        0
    } else {
        1 + token_len(s.drop_first())
    }
}

/// The maximal runs of non-whitespace characters of `s`, in order
/// (what `str::split_whitespace` yields).
pub open spec fn words(s: Seq<char>) -> Seq<Seq<char>>
    decreases s.len(),
{
    if s.len() == 0 {
        Seq::empty()
    } else if is_ws(s[0]) {
        words(s.drop_first())
    } else {
        let n = token_len(s);
        proof {
            lemma_token_len_bound(s);
        }
        seq![s.take(n as int)] + words(s.skip(n as int))
    }
}

/// Number of leading characters of `s` before the first line feed.
pub open spec fn line_len(s: Seq<char>) -> nat
    decreases s.len(),
{
    if s.len() == 0 || s[0] == '\n' {
        0
    } else {
        1 + line_len(s.drop_first())
    }
}

/// The lines of `s` split at line feeds; a final line feed does not start
/// another line and an empty text has no line (as `BufRead::lines` reads it;
/// a carriage return left at the end of a line is whitespace to every reader here).
pub open spec fn lines(s: Seq<char>) -> Seq<Seq<char>>
    decreases s.len(),
{
    if s.len() == 0 {
        Seq::empty()
    } else {
        let n = line_len(s);
        proof {
            lemma_line_len_bound(s);
        }
        if n == s.len() {
            seq![s]
        } else {
            seq![s.take(n as int)] + lines(s.skip(n + 1 as int))
        }
    }
}

pub open spec fn is_digit(c: char) -> bool {
    '0' <= c && c <= '9'
}

pub open spec fn all_digits(s: Seq<char>) -> bool {
    forall|i: int| 0 <= i < s.len() ==> is_digit(#[trigger] s[i])
}

pub open spec fn digit_value(c: char) -> nat {
    (c as int - '0' as int) as nat
}

/// The value of a string of decimal digits.
pub open spec fn digits_value(s: Seq<char>) -> nat
    decreases s.len(),
{
    if s.len() == 0 {
        0
    } else {
        digits_value(s.drop_last()) * 10 + digit_value(s.last())
    }
}

/// The digits of an unsigned decimal literal: an optional leading `+`
/// followed by at least one ASCII digit (the form `from_str` accepts for
/// unsigned integers, before the range check).
pub open spec fn unsigned_digits(s: Seq<char>) -> Option<Seq<char>> {
    let d = if s.len() > 0 && s[0] == '+' { s.drop_first() } else { s };
    if d.len() > 0 && all_digits(d) {
        Some(d)
    } else {
        None
    }
}

/// The value of `s` read as an unsigned decimal integer of at most `max`;
/// `None` where `str::parse` for an unsigned type with that maximum fails.
pub open spec fn parse_unsigned(s: Seq<char>, max: nat) -> Option<nat> {
    match unsigned_digits(s) {
        Some(d) => if digits_value(d) <= max {
            Some(digits_value(d))
        } else {
            None
        },
        None => None,
    }
}

/// `c` is the lower-case character `lower`, or its upper-case ASCII form.
pub open spec fn same_ignoring_ascii_case(c: char, lower: char) -> bool {
    c == lower || ('A' <= c && c <= 'Z' && c as u32 + 32 == lower as u32)
}

/// `s` equals the lower-case ASCII word `w` when ASCII letters are compared
/// without regard to case.
pub open spec fn eq_ignore_ascii_case(s: Seq<char>, w: Seq<char>) -> bool {
    &&& s.len() == w.len()
    &&& forall|i: int| 0 <= i < s.len() ==> same_ignoring_ascii_case(#[trigger] s[i], w[i])
}

/// A mantissa: digits with at most one `.` among them and at least one digit.
pub open spec fn is_mantissa(m: Seq<char>) -> bool {
    ||| (m.len() > 0 && all_digits(m))
    ||| exists|d: int|
        0 <= d < m.len() && #[trigger] m[d] == '.' && all_digits(m.take(d)) && all_digits(
            m.skip(d + 1),
        ) && m.len() >= 2
}

/// An exponent: `e` or `E`, an optional sign, at least one digit.
pub open spec fn is_exponent(x: Seq<char>) -> bool {
    &&& x.len() >= 2
    &&& (x[0] == 'e' || x[0] == 'E')
    &&& {
        let r = x.drop_first();
        let ds = if r[0] == '+' || r[0] == '-' { r.drop_first() } else { r };
        ds.len() > 0 && all_digits(ds)
    }
}

/// An unsigned decimal number: a mantissa, then optionally an exponent that
/// starts at the first `e` or `E`.
pub open spec fn is_decimal_number(b: Seq<char>) -> bool {
    ||| (is_mantissa(b) && forall|i: int| 0 <= i < b.len() ==> #[trigger] b[i] != 'e' && b[i] != 'E')
    ||| exists|k: int|
        0 <= k < b.len() && (#[trigger] b[k] == 'e' || b[k] == 'E') && is_mantissa(b.take(k))
            && is_exponent(b.skip(k))
}

/// The strings that the standard library reads as a floating-point number: an
/// optional sign, then `inf`, `infinity` or `nan` in any ASCII case, or a
/// decimal number (`Digit+`, `Digit+ '.' Digit*` or `Digit* '.' Digit+`,
/// optionally followed by `e`/`E`, an optional sign and `Digit+`).
pub open spec fn is_float_literal(s: Seq<char>) -> bool {
    let b = if s.len() > 0 && (s[0] == '+' || s[0] == '-') { s.drop_first() } else { s };
    ||| eq_ignore_ascii_case(b, seq!['i', 'n', 'f'])
    ||| eq_ignore_ascii_case(b, seq!['i', 'n', 'f', 'i', 'n', 'i', 't', 'y'])
    ||| eq_ignore_ascii_case(b, seq!['n', 'a', 'n'])
    ||| is_decimal_number(b)
}

/// An optional `+` or `-`.
pub open spec fn is_optional_sign(s: Seq<char>) -> bool {
    s.len() == 0 || (s.len() == 1 && (s[0] == '+' || s[0] == '-'))
}

/// Every decimal written with a point and an exponent reads as a float, as
/// `str::parse::<f32>` reads it: an optional sign, digits, a point, digits
/// (not both runs of digits empty), `e` or `E`, an optional sign and at
/// least one digit, for instance `1.5e-05`, `-.5E3` or `7.e+0`.
pub proof fn lemma_point_and_exponent_is_float(
    sign: Seq<char>,
    int_part: Seq<char>,
    frac_part: Seq<char>,
    e: char,
    exp_sign: Seq<char>,
    exp_digits: Seq<char>,
)
    requires
        is_optional_sign(sign),
        all_digits(int_part),
        all_digits(frac_part),
        int_part.len() + frac_part.len() > 0,
        e == 'e' || e == 'E',
        is_optional_sign(exp_sign),
        exp_digits.len() > 0,
        all_digits(exp_digits),
    ensures
        is_float_literal(sign + int_part + seq!['.'] + frac_part + seq![e] + exp_sign + exp_digits),
{
    let m = int_part + seq!['.'] + frac_part;
    let x = seq![e] + exp_sign + exp_digits;
    let body = m + x;
    let s = sign + int_part + seq!['.'] + frac_part + seq![e] + exp_sign + exp_digits;
    assert(s =~= sign + body);
    // The mantissa: the point splits it into two runs of digits.
    let d = int_part.len() as int;
    assert(m[d] == '.');
    assert(m.take(d) =~= int_part);
    assert(m.skip(d + 1) =~= frac_part);
    assert(is_mantissa(m));
    // The exponent.
    let r = x.drop_first();
    assert(r =~= exp_sign + exp_digits);
    if exp_sign.len() == 1 {
        assert(r.drop_first() =~= exp_digits);
    } else {
        assert(r =~= exp_digits);
        assert(is_digit(exp_digits[0]));
    }
    assert(is_exponent(x));
    // The number: its first `e` follows the mantissa.
    let k = m.len() as int;
    assert(body[k] == e);
    assert(body.take(k) =~= m);
    assert(body.skip(k) =~= x);
    assert(is_decimal_number(body));
    // The sign.
    if sign.len() == 1 {
        assert(s.drop_first() =~= body);
    } else {
        assert(s =~= body);
        if d > 0 {
            assert(is_digit(int_part[0]));
            assert(body[0] == int_part[0]);
        } else {
            assert(body[0] == '.');
        }
    }
}

// ---------------------------------------------------------------------------
// Lemmas
// ---------------------------------------------------------------------------

pub proof fn lemma_token_len_bound(s: Seq<char>)
    ensures
        token_len(s) <= s.len(),
        s.len() > 0 && !is_ws(s[0]) ==> token_len(s) >= 1,
    decreases s.len(),
{
    if s.len() > 0 && !is_ws(s[0]) {
        lemma_token_len_bound(s.drop_first());
    }
}

pub proof fn lemma_line_len_bound(s: Seq<char>)
    ensures
        line_len(s) <= s.len(),
    decreases s.len(),
{
    if s.len() > 0 && s[0] != '\n' {
        lemma_line_len_bound(s.drop_first());
    }
}

proof fn lemma_token_len_exact(t: Seq<char>, n: nat)
    requires
        n <= t.len(),
        forall|k: int| 0 <= k < n ==> !is_ws(#[trigger] t[k]),
        n == t.len() || is_ws(t[n as int]),
    ensures
        token_len(t) == n,
    decreases n,
{
    if n > 0 {
        let r = t.drop_first();
        assert forall|k: int| 0 <= k < n - 1 implies !is_ws(#[trigger] r[k]) by {
            assert(r[k] == t[k + 1]);
        }
        if n < t.len() {
            assert(r[n - 1] == t[n as int]);
        }
        lemma_token_len_exact(r, (n - 1) as nat);
    }
}

pub proof fn lemma_line_len_first_newline(s: Seq<char>)
    ensures
        line_len(s) <= s.len(),
        forall|k: int| 0 <= k < line_len(s) ==> #[trigger] s[k] != '\n',
        line_len(s) < s.len() ==> s[line_len(s) as int] == '\n',
    decreases s.len(),
{
    if s.len() > 0 && s[0] != '\n' {
        let r = s.drop_first();
        lemma_line_len_first_newline(r);
        assert forall|k: int| 0 <= k < line_len(s) implies #[trigger] s[k] != '\n' by {
            if k > 0 {
                assert(s[k] == r[k - 1]);
            }
        }
        if line_len(s) < s.len() {
            assert(s[line_len(s) as int] == r[line_len(r) as int]);
        }
    }
}

/// Appending a line without line feeds to a text that is empty or ends with
/// a line feed adds that line, and only it, to the text's lines.
pub proof fn lemma_lines_append(c: Seq<char>, l: Seq<char>)
    requires
        c.len() == 0 || c.last() == '\n',
        l.len() > 0,
        forall|k: int| 0 <= k < l.len() ==> #[trigger] l[k] != '\n',
    ensures
        lines(c + l) == lines(c).push(l),
    decreases c.len(),
{
    if c.len() == 0 {
        assert(c + l =~= l);
        lemma_line_len_exact(l, l.len());
        assert(lines(c) =~= Seq::<Seq<char>>::empty());
        assert(lines(l) =~= seq![l]);
        assert(lines(c).push(l) =~= seq![l]);
    } else {
        let s = c + l;
        lemma_line_len_first_newline(c);
        let n = line_len(c);
        assert(n < c.len()) by {
            if n == c.len() {
                assert(c[c.len() - 1] != '\n');
            }
        }
        assert forall|k: int| 0 <= k < n implies #[trigger] s[k] != '\n' by {
            assert(s[k] == c[k]);
        }
        assert(s[n as int] == c[n as int]);
        lemma_line_len_exact(s, n);
        assert(s.take(n as int) =~= c.take(n as int));
        let c2 = c.skip(n + 1 as int);
        assert(s.skip(n + 1 as int) =~= c2 + l);
        if c2.len() > 0 {
            assert(c2.last() == c.last());
        }
        lemma_lines_append(c2, l);
        assert(lines(c) == seq![c.take(n as int)] + lines(c2));
        assert(lines(s) == seq![s.take(n as int)] + lines(c2 + l));
        assert(lines(s) =~= lines(c).push(l));
    }
}

/// A final line feed after a line without line feeds starts no other line:
/// it leaves the text's lines as they were.
pub proof fn lemma_lines_final_line_feed(c: Seq<char>, l: Seq<char>)
    requires
        c.len() == 0 || c.last() == '\n',
        l.len() > 0,
        forall|k: int| 0 <= k < l.len() ==> #[trigger] l[k] != '\n',
    ensures
        lines(c + l.push('\n')) == lines(c + l),
        lines(c + l) == lines(c).push(l),
    decreases c.len(),
{
    lemma_lines_append(c, l);
    let s = c + l.push('\n');
    if c.len() == 0 {
        assert(s =~= l.push('\n'));
        lemma_line_len_exact(s, l.len());
        assert(s.take(l.len() as int) =~= l);
        let rest = s.skip(l.len() + 1 as int);
        assert(rest.len() == 0);
        assert(lines(rest) == Seq::<Seq<char>>::empty());
        assert(line_len(s) < s.len());
        assert(lines(s) == seq![s.take(l.len() as int)] + lines(rest));
        assert(lines(s) =~= seq![l]);
        assert(lines(c) =~= Seq::<Seq<char>>::empty());
        assert(lines(c).push(l) =~= seq![l]);
    } else {
        lemma_line_len_first_newline(c);
        let n = line_len(c);
        assert(n < c.len()) by {
            if n == c.len() {
                assert(c[c.len() - 1] != '\n');
            }
        }
        assert forall|k: int| 0 <= k < n implies #[trigger] s[k] != '\n' by {
            assert(s[k] == c[k]);
        }
        assert(s[n as int] == c[n as int]);
        lemma_line_len_exact(s, n);
        assert(s.take(n as int) =~= c.take(n as int));
        let c2 = c.skip(n + 1 as int);
        assert(s.skip(n + 1 as int) =~= c2 + l.push('\n'));
        if c2.len() > 0 {
            assert(c2.last() == c.last());
        }
        lemma_lines_final_line_feed(c2, l);
        assert(lines(c) == seq![c.take(n as int)] + lines(c2));
        assert(lines(s) == seq![s.take(n as int)] + lines(c2 + l.push('\n')));
        assert(lines(s) =~= lines(c).push(l));
    }
}

proof fn lemma_line_len_exact(t: Seq<char>, n: nat)
    requires
        n <= t.len(),
        forall|k: int| 0 <= k < n ==> #[trigger] t[k] != '\n',
        n == t.len() || t[n as int] == '\n',
    ensures
        line_len(t) == n,
    decreases n,
{
    if n > 0 {
        let r = t.drop_first();
        assert forall|k: int| 0 <= k < n - 1 implies #[trigger] r[k] != '\n' by {
            assert(r[k] == t[k + 1]);
        }
        if n < t.len() {
            assert(r[n - 1] == t[n as int]);
        }
        lemma_line_len_exact(r, (n - 1) as nat);
    }
}

proof fn lemma_digits_value_push(s: Seq<char>, m: int)
    requires
        0 <= m < s.len(),
    ensures
        digits_value(s.take(m + 1)) == digits_value(s.take(m)) * 10 + digit_value(s[m]),
{
    assert(s.take(m + 1).drop_last() =~= s.take(m));
}

proof fn lemma_digits_value_monotone(s: Seq<char>, m: int)
    requires
        0 <= m <= s.len(),
    ensures
        digits_value(s.take(m)) <= digits_value(s),
    decreases s.len() - m,
{
    if m < s.len() {
        lemma_digits_value_push(s, m);
        lemma_digits_value_monotone(s, m + 1);
    } else {
        assert(s.take(m) =~= s);
    }
}

// ---------------------------------------------------------------------------
// Executable reading
// ---------------------------------------------------------------------------

/// The characters of `s`, in order.
pub fn chars_of(s: &str) -> (v: Vec<char>)
    ensures
        v@ == s@,
{
    let mut v: Vec<char> = Vec::new();
    for c in it: s.chars()
        invariant
            v@ == it.seq().take(it.index() as int),
            it.seq() == s@,
    {
        v.push(c);
    }
    v
}

/// Whether `c` is whitespace in the sense of `char::is_whitespace`.
/// The character sequences held by a vector of character vectors.
pub open spec fn views(v: Seq<Vec<char>>) -> Seq<Seq<char>> {
    v.map_values(|x: Vec<char>| x@)
}

pub fn is_whitespace(c: char) -> (b: bool)
    ensures
        b == is_ws(c),
{
    ('\u{9}' <= c && c <= '\u{d}') || c == ' ' || c == '\u{85}' || c == '\u{a0}' || c
        == '\u{1680}' || ('\u{2000}' <= c && c <= '\u{200a}') || c == '\u{2028}' || c
        == '\u{2029}' || c == '\u{202f}' || c == '\u{205f}' || c == '\u{3000}'
}

/// Copies `s[lo..hi]`.
fn copy_range(s: &Vec<char>, lo: usize, hi: usize) -> (r: Vec<char>)
    requires
        lo <= hi <= s.len(),
    ensures
        r@ == s@.subrange(lo as int, hi as int),
{
    let mut r: Vec<char> = Vec::new();
    let mut k: usize = lo;
    while k < hi
        invariant
            lo <= k <= hi <= s.len(),
            r@ == s@.subrange(lo as int, k as int),
        decreases hi - k,
    {
        r.push(s[k]);
        k = k + 1;
        assert(r@ =~= s@.subrange(lo as int, k as int));
    }
    r
}

/// The whitespace-separated words of `s`, in order.
pub fn split_words(s: &Vec<char>) -> (ws: Vec<Vec<char>>)
    ensures
        views(ws@) == words(s@),
{
    let mut ws: Vec<Vec<char>> = Vec::new();
    let mut i: usize = 0;
    assert(s@.skip(0) =~= s@);
    while i < s.len()
        invariant
            i <= s.len(),
            words(s@) == views(ws@) + words(s@.skip(i as int)),
        decreases s.len() - i,
    {
        let ghost t = s@.skip(i as int);
        if is_whitespace(s[i]) {
            assert(t.drop_first() =~= s@.skip(i + 1));
            i = i + 1;
        } else {
            let mut j: usize = i;
            while j < s.len() && !is_whitespace(s[j])
                invariant
                    i <= j <= s.len(),
                    forall|k: int| i <= k < j ==> !is_ws(#[trigger] s@[k]),
                decreases s.len() - j,
            {
                j = j + 1;
            }
            let w = copy_range(s, i, j);
            proof {
                assert forall|k: int| 0 <= k < j - i implies !is_ws(#[trigger] t[k]) by {
                    assert(t[k] == s@[i + k]);
                }
                if j < s.len() {
                    assert(t[j - i] == s@[j as int]);
                }
                lemma_token_len_exact(t, (j - i) as nat);
                assert(t.take(j - i) =~= s@.subrange(i as int, j as int));
                assert(t.skip(j - i) =~= s@.skip(j as int));
            }
            let ghost before = views(ws@);
            ws.push(w);
            assert(views(ws@) =~= before.push(s@.subrange(i as int, j as int)));
            i = j;
        }
    }
    assert(s@.skip(i as int) =~= Seq::<char>::empty());
    assert(views(ws@) + Seq::<Seq<char>>::empty() =~= views(ws@));
    ws
}

/// The lines of `s` (see [`lines`]).
pub fn split_lines(s: &Vec<char>) -> (ls: Vec<Vec<char>>)
    ensures
        views(ls@) == lines(s@),
{
    let mut ls: Vec<Vec<char>> = Vec::new();
    let mut i: usize = 0;
    assert(s@.skip(0) =~= s@);
    while i < s.len()
        invariant
            i <= s.len(),
            lines(s@) == views(ls@) + lines(s@.skip(i as int)),
        decreases s.len() - i,
    {
        let ghost t = s@.skip(i as int);
        let mut j: usize = i;
        while j < s.len() && s[j] != '\n'
            invariant
                i <= j <= s.len(),
                forall|k: int| i <= k < j ==> #[trigger] s@[k] != '\n',
            decreases s.len() - j,
        {
            j = j + 1;
        }
        let line = copy_range(s, i, j);
        proof {
            assert forall|k: int| 0 <= k < j - i implies #[trigger] t[k] != '\n' by {
                assert(t[k] == s@[i + k]);
            }
            if j < s.len() {
                assert(t[j - i] == s@[j as int]);
            }
            lemma_line_len_exact(t, (j - i) as nat);
        }
        let ghost before = views(ls@);
        ls.push(line);
        assert(views(ls@) =~= before.push(s@.subrange(i as int, j as int)));
        if j == s.len() {
            assert(t =~= s@.subrange(i as int, j as int));
            assert(s@.skip(j as int) =~= Seq::<char>::empty());
            i = j;
        } else {
            assert(t.take(j - i) =~= s@.subrange(i as int, j as int));
            assert(t.skip(j - i + 1) =~= s@.skip(j + 1));
            i = j + 1;
        }
    }
    assert(s@.skip(i as int) =~= Seq::<char>::empty());
    assert(views(ls@) + Seq::<Seq<char>>::empty() =~= views(ls@));
    ls
}

/// Reads `s` as an unsigned decimal integer of at most `max`.
pub fn parse_unsigned_at_most(s: &Vec<char>, max: u64) -> (r: Option<u64>)
    ensures
        match r {
            Some(v) => parse_unsigned(s@, max as nat) == Some(v as nat),
            None => parse_unsigned(s@, max as nat) is None,
        },
{
    let start: usize = if s.len() > 0 && s[0] == '+' { 1 } else { 0 };
    let ghost d = if s@.len() > 0 && s@[0] == '+' { s@.drop_first() } else { s@ };
    assert(d =~= s@.skip(start as int));
    if start == s.len() {
        return None;
    }
    let mut acc: u64 = 0;
    let mut k: usize = start;
    assert(d.take(0) =~= Seq::<char>::empty());
    while k < s.len()
        invariant
            start <= k <= s.len(),
            start < s.len(),
            d == s@.skip(start as int),
            d == (if s@.len() > 0 && s@[0] == '+' { s@.drop_first() } else { s@ }),
            acc as nat == digits_value(d.take(k - start)),
            acc <= max,
            all_digits(d.take(k - start)),
        decreases s.len() - k,
    {
        let c = s[k];
        if !('0' <= c && c <= '9') {
            assert(d[k - start] == c);
            assert(!is_digit(d[k - start]));
            assert(!all_digits(d));
            return None;
        }
        let dig: u64 = (c as u64) - ('0' as u64);
        let ghost m: int = k - start;
        proof {
            assert(d[m] == c);
            lemma_digits_value_push(d, m);
            assert(digit_value(c) == dig);
            assert(d.take(m + 1) =~= d.take(m).push(c));
        }
        if dig > max || acc > (max - dig) / 10 {
            proof {
                assert(acc * 10 + dig > max) by (nonlinear_arith)
                    requires
                        dig > max || acc > (max - dig) / 10,
                        max >= 0,
                ;
                lemma_digits_value_monotone(d, m + 1);
            }
            return None;
        }
        assert(acc * 10 + dig <= max) by (nonlinear_arith)
            requires
                dig <= max,
                acc <= (max - dig) / 10,
        ;
        acc = acc * 10 + dig;
        k = k + 1;
    }
    assert(d.take(k - start) =~= d);
    Some(acc)
}

/// Reads `s` as a `u32`, as `str::parse::<u32>` does.
pub fn parse_u32(s: &Vec<char>) -> (r: Option<u32>)
    ensures
        match r {
            Some(v) => parse_unsigned(s@, u32::MAX as nat) == Some(v as nat),
            None => parse_unsigned(s@, u32::MAX as nat) is None,
        },
{
    match parse_unsigned_at_most(s, u32::MAX as u64) {
        Some(v) => Some(v as u32),
        None => None,
    }
}

/// Reads `s` as a `usize`, as `str::parse::<usize>` does.
pub fn parse_usize(s: &Vec<char>) -> (r: Option<usize>)
    ensures
        match r {
            Some(v) => parse_unsigned(s@, usize::MAX as nat) == Some(v as nat),
            None => parse_unsigned(s@, usize::MAX as nat) is None,
        },
{
    match parse_unsigned_at_most(s, usize::MAX as u64) {
        Some(v) => Some(v as usize),
        None => None,
    }
}

fn digits_in(s: &Vec<char>, lo: usize, hi: usize) -> (b: bool)
    requires
        lo <= hi <= s.len(),
    ensures
        b == all_digits(s@.subrange(lo as int, hi as int)),
{
    let ghost t = s@.subrange(lo as int, hi as int);
    let mut k: usize = lo;
    while k < hi
        invariant
            lo <= k <= hi <= s.len(),
            t == s@.subrange(lo as int, hi as int),
            forall|i: int| lo <= i < k ==> is_digit(#[trigger] s@[i]),
        decreases hi - k,
    {
        if !('0' <= s[k] && s[k] <= '9') {
            assert(t[k - lo] == s@[k as int]);
            assert(!is_digit(t[k - lo]));
            return false;
        }
        k = k + 1;
    }
    assert forall|i: int| 0 <= i < t.len() implies is_digit(#[trigger] t[i]) by {
        assert(t[i] == s@[lo + i]);
    }
    true
}

/// Whether `s[lo..hi]` spells the lower-case word `w`, ignoring ASCII case.
pub fn spells_word(s: &Vec<char>, lo: usize, hi: usize, w: &[char]) -> (b: bool)
    requires
        lo <= hi <= s.len(),
    ensures
        b == eq_ignore_ascii_case(s@.subrange(lo as int, hi as int), w@),
{
    let ghost t = s@.subrange(lo as int, hi as int);
    if hi - lo != w.len() {
        return false;
    }
    let mut k: usize = 0;
    while k < w.len()
        invariant
            lo <= hi <= s.len(),
            hi - lo == w.len(),
            k <= w.len(),
            t == s@.subrange(lo as int, hi as int),
            forall|i: int| 0 <= i < k ==> same_ignoring_ascii_case(#[trigger] t[i], w@[i]),
        decreases w.len() - k,
    {
        let c = s[lo + k];
        let l = w[k];
        assert(t[k as int] == c);
        if !(c == l || ('A' <= c && c <= 'Z' && (c as u32) + 32 == (l as u32))) {
            assert(!same_ignoring_ascii_case(t[k as int], w@[k as int]));
            return false;
        }
        assert(same_ignoring_ascii_case(t[k as int], w@[k as int]));
        k = k + 1;
    }
    true
}

/// First index in `lo..hi` holding `a` or `b`, or `hi`.
fn find_either(s: &Vec<char>, lo: usize, hi: usize, a: char, b: char) -> (p: usize)
    requires
        lo <= hi <= s.len(),
    ensures
        lo <= p <= hi,
        forall|i: int| lo <= i < p ==> #[trigger] s@[i] != a && s@[i] != b,
        p < hi ==> (s@[p as int] == a || s@[p as int] == b),
{
    let mut k: usize = lo;
    while k < hi && s[k] != a && s[k] != b
        invariant
            lo <= k <= hi <= s.len(),
            forall|i: int| lo <= i < k ==> #[trigger] s@[i] != a && s@[i] != b,
        decreases hi - k,
    {
        k = k + 1;
    }
    k
}

fn is_mantissa_in(s: &Vec<char>, lo: usize, hi: usize) -> (b: bool)
    requires
        lo <= hi <= s.len(),
    ensures
        b == is_mantissa(s@.subrange(lo as int, hi as int)),
{
    let ghost m = s@.subrange(lo as int, hi as int);
    let p = find_either(s, lo, hi, '.', '.');
    if p == hi {
        let r = hi > lo && digits_in(s, lo, hi);
        proof {
            if !r && hi > lo {
                assert forall|d: int| 0 <= d < m.len() && #[trigger] m[d] == '.' implies false by {
                    assert(m[d] == s@[lo + d]);
                }
            }
        }
        r
    } else {
        let r = digits_in(s, lo, p) && digits_in(s, p + 1, hi) && hi - lo >= 2;
        proof {
            let d0: int = p - lo;
            assert(m[d0] == s@[p as int]);
            assert(m.take(d0) =~= s@.subrange(lo as int, p as int));
            assert(m.skip(d0 + 1) =~= s@.subrange(p + 1, hi as int));
            if r {
                assert(m.len() >= 2);
            } else {
                assert(!is_digit(m[d0]));
                assert forall|d: int|
                    0 <= d < m.len() && #[trigger] m[d] == '.' && all_digits(m.take(d))
                        && all_digits(m.skip(d + 1)) && m.len() >= 2 implies false by {
                    if d < d0 {
                        assert(m[d] == s@[lo + d]);
                    } else if d > d0 {
                        assert(m.take(d)[d0] == m[d0]);
                    }
                }
            }
        }
        r
    }
}

fn is_exponent_in(s: &Vec<char>, lo: usize, hi: usize) -> (b: bool)
    requires
        lo <= hi <= s.len(),
    ensures
        b == is_exponent(s@.subrange(lo as int, hi as int)),
{
    let ghost x = s@.subrange(lo as int, hi as int);
    if hi - lo < 2 {
        return false;
    }
    if s[lo] != 'e' && s[lo] != 'E' {
        assert(x[0] == s@[lo as int]);
        return false;
    }
    let st = lo + 1;
    let ds = if s[st] == '+' || s[st] == '-' { st + 1 } else { st };
    let r = ds < hi && digits_in(s, ds, hi);
    proof {
        let rr = x.drop_first();
        assert(x[0] == s@[lo as int]);
        assert(rr =~= s@.subrange(st as int, hi as int));
        assert(rr[0] == s@[st as int]);
        let dd = if rr[0] == '+' || rr[0] == '-' { rr.drop_first() } else { rr };
        assert(dd =~= s@.subrange(ds as int, hi as int));
    }
    r
}

fn is_decimal_number_in(s: &Vec<char>, lo: usize, hi: usize) -> (b: bool)
    requires
        lo <= hi <= s.len(),
    ensures
        b == is_decimal_number(s@.subrange(lo as int, hi as int)),
{
    let ghost t = s@.subrange(lo as int, hi as int);
    let k = find_either(s, lo, hi, 'e', 'E');
    if k == hi {
        let r = is_mantissa_in(s, lo, hi);
        proof {
            assert forall|i: int| 0 <= i < t.len() implies #[trigger] t[i] != 'e' && t[i] != 'E' by {
                assert(t[i] == s@[lo + i]);
            }
        }
        r
    } else {
        let r = is_mantissa_in(s, lo, k) && is_exponent_in(s, k, hi);
        proof {
            let k0: int = k - lo;
            assert(t[k0] == s@[k as int]);
            assert(t.take(k0) =~= s@.subrange(lo as int, k as int));
            assert(t.skip(k0) =~= s@.subrange(k as int, hi as int));
            if !r {
                assert forall|kk: int|
                    0 <= kk < t.len() && (#[trigger] t[kk] == 'e' || t[kk] == 'E') && is_mantissa(
                        t.take(kk),
                    ) && is_exponent(t.skip(kk)) implies false by {
                    if kk < k0 {
                        assert(t[kk] == s@[lo + kk]);
                    } else if kk > k0 {
                        let m = t.take(kk);
                        assert(m[k0] == t[k0]);
                        if m.len() > 0 && all_digits(m) {
                            assert(is_digit(m[k0]));
                        } else {
                            let d = choose|d: int|
                                0 <= d < m.len() && #[trigger] m[d] == '.' && all_digits(m.take(d))
                                    && all_digits(m.skip(d + 1)) && m.len() >= 2;
                            if k0 < d {
                                assert(m.take(d)[k0] == m[k0]);
                            } else if k0 > d {
                                assert(m.skip(d + 1)[k0 - d - 1] == m[k0]);
                            }
                        }
                    }
                }
            }
        }
        r
    }
}

/// Whether the standard library reads `s` as a floating-point number
/// (see [`is_float_literal`]).
pub fn float_literal(s: &Vec<char>) -> (b: bool)
    ensures
        b == is_float_literal(s@),
{
    let start: usize = if s.len() > 0 && (s[0] == '+' || s[0] == '-') { 1 } else { 0 };
    let ghost bb = if s@.len() > 0 && (s@[0] == '+' || s@[0] == '-') { s@.drop_first() } else { s@ };
    assert(bb =~= s@.subrange(start as int, s@.len() as int));
    let inf = ['i', 'n', 'f'];
    let infinity = ['i', 'n', 'f', 'i', 'n', 'i', 't', 'y'];
    let nan = ['n', 'a', 'n'];
    assert(inf@ =~= seq!['i', 'n', 'f']);
    assert(infinity@ =~= seq!['i', 'n', 'f', 'i', 'n', 'i', 't', 'y']);
    assert(nan@ =~= seq!['n', 'a', 'n']);
    spells_word(s, start, s.len(), &inf) || spells_word(s, start, s.len(), &infinity)
        || spells_word(s, start, s.len(), &nan) || is_decimal_number_in(s, start, s.len())
}

} // verus!
