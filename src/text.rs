//! Character-level building blocks shared by every section of a chart:
//! character classes and the runs they form, fixed tokens, decimal numbers,
//! and the text that the serializers append to.
use vstd::prelude::*;
use vstd::std_specs::iter::IteratorSpec;
use vstd::string::StringExecFns;

verus! {

/// Relies on `String::push`: the character is appended at the end.
pub assume_specification[ String::push ](s: &mut String, ch: char)
    ensures
        final(s)@ == old(s)@.push(ch),
;

/// The classes of characters whose runs the grammar reads.
#[derive(Debug, Clone, Copy, PartialEq, Eq)]
pub enum CharClass {
    /// Space, tab, carriage return, line feed.
    Space,
    /// Space and tab.
    Blank,
    /// ASCII decimal digits.
    Digit,
    /// ASCII letters.
    Alpha,
    /// ASCII letters and digits.
    AlphaNum,
    /// Anything but a carriage return or a line feed.
    LineText,
    /// Anything but a double quote.
    QuoteText,
    /// Anything but an opening square bracket.
    NotBracket,
}

pub open spec fn is_digit(c: char) -> bool {
    '0' <= c && c <= '9'
}

pub open spec fn is_alpha(c: char) -> bool {
    ('a' <= c && c <= 'z') || ('A' <= c && c <= 'Z')
}

pub open spec fn in_class(c: char, k: CharClass) -> bool {
    match k {
        CharClass::Space => c == ' ' || c == '\t' || c == '\r' || c == '\n',
        CharClass::Blank => c == ' ' || c == '\t',
        CharClass::Digit => is_digit(c),
        CharClass::Alpha => is_alpha(c),
        CharClass::AlphaNum => is_alpha(c) || is_digit(c),
        CharClass::LineText => c != '\r' && c != '\n',
        CharClass::QuoteText => c != '"',
        CharClass::NotBracket => c != '[',
    }
}

/// The end of the longest run of characters of class `k` that starts at `i`.
pub open spec fn span(s: Seq<char>, i: int, k: CharClass) -> int
    decreases s.len() - i,
{
    if 0 <= i < s.len() && in_class(s[i], k) {
        span(s, i + 1, k)
    } else {
        i
    }
}

/// Where whitespace that starts at `i` ends.
pub open spec fn skip_ws(s: Seq<char>, i: int) -> int {
    span(s, i, CharClass::Space)
}

/// One or more whitespace characters.
pub open spec fn p_ws1(s: Seq<char>, i: int) -> Result<int, int> {
    let j = skip_ws(s, i);
    if j > i {
        Ok(j)
    } else {
        Err(i)
    }
}

/// The fixed token `t` at `i`.
pub open spec fn p_tag(s: Seq<char>, i: int, t: Seq<char>) -> Result<int, int> {
    if 0 <= i && i + t.len() <= s.len() && s.subrange(i, i + t.len()) == t {
        Ok(i + t.len())
    } else {
        Err(i)
    }
}

/// The single character `c` at `i`.
pub open spec fn p_char(s: Seq<char>, i: int, c: char) -> Result<int, int> {
    if 0 <= i < s.len() && s[i] == c {
        Ok(i + 1)
    } else {
        Err(i)
    }
}

pub open spec fn digit_value(c: char) -> int {
    (c as u32) - ('0' as u32)
}

/// The number that a run of decimal digits writes.
pub open spec fn dec_value(d: Seq<char>) -> int
    decreases d.len(),
{
    if d.len() == 0 {
        0
    } else {
        dec_value(d.drop_last()) * 10 + digit_value(d.last())
    }
}

/// An unsigned 32-bit decimal number: one or more digits, as many as follow,
/// whose value fits.
pub open spec fn p_u32(s: Seq<char>, i: int) -> Result<(u32, int), int> {
    let j = span(s, i, CharClass::Digit);
    if j == i || dec_value(s.subrange(i, j)) > u32::MAX {
        Err(i)
    } else {
        Ok((dec_value(s.subrange(i, j)) as u32, j))
    }
}

/// All of `d` is decimal digits.
pub open spec fn all_digits(d: Seq<char>) -> bool {
    forall|t: int| 0 <= t < d.len() ==> is_digit(#[trigger] d[t])
}

/// A whole text read as an unsigned 32-bit number: an optional `+`, then one
/// or more digits and nothing else, with a value that fits.
pub open spec fn text_u32(v: Seq<char>) -> Option<u32> {
    let d = if v.len() > 0 && v[0] == '+' {
        v.skip(1)
    } else {
        v
    };
    if d.len() > 0 && all_digits(d) && dec_value(d) <= u32::MAX {
        Some(dec_value(d) as u32)
    } else {
        None
    }
}

pub open spec fn digit_char(d: nat) -> char {
    ((d + 48) as u8) as char
}

/// The decimal text of `n`, without leading zeros.
pub open spec fn dec(n: nat) -> Seq<char>
    decreases n,
{
    if n < 10 {
        seq![digit_char(n)]
    } else {
        dec(n / 10).push(digit_char(n % 10))
    }
}

pub fn class_has(c: char, k: CharClass) -> (r: bool)
    ensures
        r == in_class(c, k),
{
    match k {
        CharClass::Space => c == ' ' || c == '\t' || c == '\r' || c == '\n',
        CharClass::Blank => c == ' ' || c == '\t',
        CharClass::Digit => '0' <= c && c <= '9',
        CharClass::Alpha => ('a' <= c && c <= 'z') || ('A' <= c && c <= 'Z'),
        CharClass::AlphaNum => ('a' <= c && c <= 'z') || ('A' <= c && c <= 'Z') || ('0' <= c
            && c <= '9'),
        CharClass::LineText => c != '\r' && c != '\n',
        CharClass::QuoteText => c != '"',
        CharClass::NotBracket => c != '[',
    }
}

pub proof fn lemma_span_bounds(s: Seq<char>, i: int, k: CharClass)
    requires
        0 <= i <= s.len(),
    ensures
        i <= span(s, i, k) <= s.len(),
        forall|t: int| i <= t < span(s, i, k) ==> in_class(#[trigger] s[t], k),
        span(s, i, k) == s.len() || !in_class(s[span(s, i, k)], k),
    decreases s.len() - i,
{
    if i < s.len() && in_class(s[i], k) {
        lemma_span_bounds(s, i + 1, k);
    }
}

/// A run that is known to end at `j` is what `span` finds.
pub proof fn lemma_span_stop(s: Seq<char>, i: int, j: int, k: CharClass)
    requires
        0 <= i <= j <= s.len(),
        forall|t: int| i <= t < j ==> in_class(#[trigger] s[t], k),
        j == s.len() || !in_class(s[j], k),
    ensures
        span(s, i, k) == j,
    decreases j - i,
{
    if i < j {
        lemma_span_stop(s, i + 1, j, k);
    }
}

/// Reads the run of class `k` that starts at `i`.
pub fn scan(s: &Vec<char>, i: usize, k: CharClass) -> (j: usize)
    requires
        i <= s@.len(),
    ensures
        j == span(s@, i as int, k),
        i <= j <= s@.len(),
{
    let mut j = i;
    while j < s.len() && class_has(s[j], k)
        invariant
            i <= j <= s@.len(),
            span(s@, j as int, k) == span(s@, i as int, k),
        decreases s@.len() - j,
    {
        j = j + 1;
    }
    j
}

/// Reads the fixed token `t` at `i`.
pub fn tag(s: &Vec<char>, i: usize, t: &str) -> (r: Result<usize, usize>)
    requires
        i <= s@.len(),
    ensures
        match r {
            Ok(j) => p_tag(s@, i as int, t@) == Ok::<int, int>(j as int),
            Err(e) => p_tag(s@, i as int, t@) == Err::<int, int>(e as int),
        },
{
    let n = t.unicode_len();
    if n > s.len() - i {
        return Err(i);
    }
    let mut k: usize = 0;
    while k < n
        invariant
            k <= n,
            n == t@.len(),
            i + n <= s.len(),
            forall|q: int| 0 <= q < k ==> s@[i + q] == t@[q],
        decreases n - k,
    {
        if s[i + k] != t.get_char(k) {
            assert(s@.subrange(i as int, i + n)[k as int] != t@[k as int]);
            return Err(i);
        }
        k = k + 1;
    }
    assert(s@.subrange(i as int, i + n) =~= t@);
    Ok(i + n)
}

/// Reads the character `c` at `i`.
pub fn single(s: &Vec<char>, i: usize, c: char) -> (r: Result<usize, usize>)
    requires
        i <= s@.len(),
    ensures
        match r {
            Ok(j) => p_char(s@, i as int, c) == Ok::<int, int>(j as int),
            Err(e) => p_char(s@, i as int, c) == Err::<int, int>(e as int),
        },
{
    if i < s.len() && s[i] == c {
        Ok(i + 1)
    } else {
        Err(i)
    }
}

/// Reads one or more whitespace characters.
pub fn ws1(s: &Vec<char>, i: usize) -> (r: Result<usize, usize>)
    requires
        i <= s@.len(),
    ensures
        match r {
            Ok(j) => p_ws1(s@, i as int) == Ok::<int, int>(j as int) && j <= s@.len(),
            Err(e) => p_ws1(s@, i as int) == Err::<int, int>(e as int),
        },
{
    let j = scan(s, i, CharClass::Space);
    if j > i {
        Ok(j)
    } else {
        Err(i)
    }
}

pub proof fn lemma_dec_value_nonneg(d: Seq<char>)
    requires
        all_digits(d),
    ensures
        dec_value(d) >= 0,
    decreases d.len(),
{
    if d.len() > 0 {
        assert(is_digit(d[d.len() - 1]));
        lemma_dec_value_nonneg(d.drop_last());
    }
}

/// A longer run of digits writes a number at least as large.
pub proof fn lemma_dec_value_grows(s: Seq<char>, i: int, j: int, e: int)
    requires
        0 <= i <= j <= e <= s.len(),
        forall|t: int| i <= t < e ==> is_digit(#[trigger] s[t]),
    ensures
        dec_value(s.subrange(i, j)) <= dec_value(s.subrange(i, e)),
    decreases e - j,
{
    if j < e {
        lemma_dec_value_grows(s, i, j, e - 1);
        assert(s.subrange(i, e).drop_last() =~= s.subrange(i, e - 1));
        assert(is_digit(s[e - 1]));
        assert(s.subrange(i, e).last() == s[e - 1]);
        assert(all_digits(s.subrange(i, e - 1)));
        lemma_dec_value_nonneg(s.subrange(i, e - 1));
    }
}

/// Reads an unsigned 32-bit decimal number at `i`.
pub fn parse_u32(s: &Vec<char>, i: usize) -> (r: Result<(u32, usize), usize>)
    requires
        i <= s@.len(),
    ensures
        match r {
            Ok((v, j)) => p_u32(s@, i as int) == Ok::<(u32, int), int>((v, j as int)) && j
                <= s@.len(),
            Err(e) => p_u32(s@, i as int) == Err::<(u32, int), int>(e as int),
        },
{
    let e = scan(s, i, CharClass::Digit);
    proof {
        lemma_span_bounds(s@, i as int, CharClass::Digit);
    }
    if e == i {
        return Err(i);
    }
    let mut v: u32 = 0;
    let mut j = i;
    while j < e
        invariant
            i <= j <= e,
            e == span(s@, i as int, CharClass::Digit),
            e <= s@.len(),
            forall|t: int| i <= t < e ==> is_digit(#[trigger] s@[t]),
            v as int == dec_value(s@.subrange(i as int, j as int)),
        decreases e - j,
    {
        let c = s[j];
        let d = (c as u32) - ('0' as u32);
        assert(s@.subrange(i as int, j + 1).drop_last() =~= s@.subrange(i as int, j as int));
        if v > (u32::MAX - d) / 10 {
            proof {
                lemma_dec_value_grows(s@, i as int, j + 1, e as int);
            }
            return Err(i);
        }
        v = v * 10 + d;
        j = j + 1;
    }
    Ok((v, e))
}

/// Reads a whole text as an unsigned 32-bit number.
pub fn text_to_u32(v: &Vec<char>) -> (r: Option<u32>)
    ensures
        r == text_u32(v@),
{
    let start: usize = if v.len() > 0 && v[0] == '+' {
        1
    } else {
        0
    };
    let ghost d = if v@.len() > 0 && v@[0] == '+' {
        v@.skip(1)
    } else {
        v@
    };
    assert(d =~= v@.subrange(start as int, v@.len() as int));
    if start >= v.len() {
        return None;
    }
    let mut val: u32 = 0;
    let mut j = start;
    while j < v.len()
        invariant
            start <= j <= v@.len(),
            d =~= v@.subrange(start as int, v@.len() as int),
            d == (if v@.len() > 0 && v@[0] == '+' {
                v@.skip(1)
            } else {
                v@
            }),
            forall|t: int| start <= t < j ==> is_digit(#[trigger] v@[t]),
            val as int == dec_value(v@.subrange(start as int, j as int)),
        decreases v@.len() - j,
    {
        let c = v[j];
        if !('0' <= c && c <= '9') {
            assert(d[j - start] == c);
            assert(!is_digit(d[j - start]));
            assert(!all_digits(d));
            return None;
        }
        let dg = (c as u32) - ('0' as u32);
        assert(v@.subrange(start as int, j + 1).drop_last() =~= v@.subrange(
            start as int,
            j as int,
        ));
        if val > (u32::MAX - dg) / 10 {
            proof {
                lemma_all_digits_of_run(v@, start as int, v@.len() as int, d);
                if all_digits(d) {
                    lemma_dec_value_grows(v@, start as int, j + 1, v@.len() as int);
                    assert(d =~= v@.subrange(start as int, v@.len() as int));
                    assert(dec_value(d) > u32::MAX);
                }
            }
            return None;
        }
        val = val * 10 + dg;
        j = j + 1;
    }
    proof {
        assert forall|t: int| 0 <= t < d.len() implies is_digit(#[trigger] d[t]) by {
            assert(d[t] == v@[start + t]);
        }
    }
    Some(val)
}

proof fn lemma_all_digits_of_run(s: Seq<char>, i: int, e: int, d: Seq<char>)
    requires
        0 <= i <= e <= s.len(),
        d == s.subrange(i, e),
    ensures
        all_digits(d) ==> forall|t: int| i <= t < e ==> is_digit(#[trigger] s[t]),
{
    if all_digits(d) {
        assert forall|t: int| i <= t < e implies is_digit(#[trigger] s[t]) by {
            assert(d[t - i] == s[t]);
        }
    }
}

/// Appends the decimal text of `n`.
pub fn push_u32(out: &mut String, n: u32)
    ensures
        final(out)@ == old(out)@ + dec(n as nat),
    decreases n,
{
    if n >= 10 {
        push_u32(out, n / 10);
    }
    let c = ((n % 10) as u8 + 48) as char;
    out.push(c);
    proof {
        if n < 10 {
            assert(dec(n as nat) == seq![digit_char(n as nat)]);
        }
    }
    assert(final(out)@ =~= old(out)@ + dec(n as nat));
}

/// Appends a fixed text.
pub fn push_text(out: &mut String, t: &str)
    ensures
        final(out)@ == old(out)@ + t@,
{
    out.append(t);
}

/// Appends the characters of `t`.
pub fn push_chars(out: &mut String, t: &String)
    ensures
        final(out)@ == old(out)@ + t@,
{
    out.append(t.as_str());
}

/// `p` begins with `t`.
pub open spec fn has_prefix(p: Seq<char>, t: Seq<char>) -> bool {
    t.len() <= p.len() && p.subrange(0, t.len() as int) == t
}

/// Whether `s[i..j]` is the text `t`.
pub fn is_text(s: &Vec<char>, i: usize, j: usize, t: &str) -> (r: bool)
    requires
        i <= j <= s@.len(),
    ensures
        r == (s@.subrange(i as int, j as int) == t@),
{
    match tag(s, i, t) {
        Ok(e) => {
            if e == j {
                true
            } else {
                assert(s@.subrange(i as int, j as int).len() != t@.len());
                false
            }
        },
        Err(_) => {
            proof {
                if s@.subrange(i as int, j as int) == t@ {
                    assert(s@.subrange(i as int, i + t@.len()) =~= t@);
                }
            }
            false
        },
    }
}

/// Whether `s[i..j]` begins with the text `t`.
pub fn begins_with(s: &Vec<char>, i: usize, j: usize, t: &str) -> (r: bool)
    requires
        i <= j <= s@.len(),
    ensures
        r == has_prefix(s@.subrange(i as int, j as int), t@),
{
    let p = Ghost(s@.subrange(i as int, j as int));
    match tag(s, i, t) {
        Ok(e) => {
            if e <= j {
                assert(p@.subrange(0, t@.len() as int) =~= s@.subrange(i as int, e as int));
                true
            } else {
                false
            }
        },
        Err(_) => {
            proof {
                if has_prefix(p@, t@) {
                    assert(s@.subrange(i as int, i + t@.len()) =~= p@.subrange(0, t@.len() as int));
                }
            }
            false
        },
    }
}

/// The characters of `s`, in order.
pub fn chars_of(s: &str) -> (r: Vec<char>)
    ensures
        r@ == s@,
{
    let mut out: Vec<char> = Vec::new();
    let mut it = s.chars();
    loop
        invariant
            out@ + it.remaining() == s@,
            it.obeys_prophetic_iter_laws(),
            it.decrease() is Some,
        ensures
            out@ == s@,
        decreases it.decrease()->0,
    {
        match it.next() {
            Some(c) => {
                out.push(c);
            },
            None => {
                assert(out@ =~= s@);
                break;
            },
        }
    }
    out
}

/// A text made of the characters `s[i..j]`.
pub fn text_of(s: &Vec<char>, i: usize, j: usize) -> (r: String)
    requires
        i <= j <= s@.len(),
    ensures
        r@ == s@.subrange(i as int, j as int),
{
    let mut out = String::new();
    let mut k = i;
    while k < j
        invariant
            i <= k <= j <= s@.len(),
            out@ == s@.subrange(i as int, k as int),
        decreases j - k,
    {
        out.push(s[k]);
        assert(s@.subrange(i as int, k + 1) =~= s@.subrange(i as int, k as int).push(s@[k as int]));
        k = k + 1;
    }
    out
}

} // verus!
