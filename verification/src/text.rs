//! Verified text helpers: whitespace trimming, ASCII case folding, decimal
//! rendering and parsing, and placeholder replacement. Every function here is
//! specified over `Seq<char>` and proved against that specification.

use vstd::prelude::*;

verus! {

/// Relies on `String::push`: appends exactly the given character to the end
/// of the string.
#[verifier::external_body]
pub(crate) fn push_char(s: &mut String, c: char)
    ensures
        final(s)@ == old(s)@.push(c),
{
    s.push(c);
}

/// The Unicode white-space characters, as `char::is_whitespace` lists them.
pub open spec fn is_space_char(c: char) -> bool {
    ||| c == ' '
    ||| c == '\t'
    ||| c == '\n'
    ||| c == '\u{000B}'
    ||| c == '\u{000C}'
    ||| c == '\r'
    ||| c == '\u{0085}'
    ||| c == '\u{00A0}'
    ||| c == '\u{1680}'
    ||| c == '\u{2000}'
    ||| c == '\u{2001}'
    ||| c == '\u{2002}'
    ||| c == '\u{2003}'
    ||| c == '\u{2004}'
    ||| c == '\u{2005}'
    ||| c == '\u{2006}'
    ||| c == '\u{2007}'
    ||| c == '\u{2008}'
    ||| c == '\u{2009}'
    ||| c == '\u{200A}'
    ||| c == '\u{2028}'
    ||| c == '\u{2029}'
    ||| c == '\u{202F}'
    ||| c == '\u{205F}'
    ||| c == '\u{3000}'
}

pub fn is_space(c: char) -> (r: bool)
    ensures
        r == is_space_char(c),
{
    c == ' ' || c == '\t' || c == '\n' || c == '\u{000B}' || c == '\u{000C}' || c == '\r'
        || c == '\u{0085}' || c == '\u{00A0}' || c == '\u{1680}' || c == '\u{2000}'
        || c == '\u{2001}' || c == '\u{2002}' || c == '\u{2003}' || c == '\u{2004}'
        || c == '\u{2005}' || c == '\u{2006}' || c == '\u{2007}' || c == '\u{2008}'
        || c == '\u{2009}' || c == '\u{200A}' || c == '\u{2028}' || c == '\u{2029}'
        || c == '\u{202F}' || c == '\u{205F}' || c == '\u{3000}'
}

/// ASCII case folding: the letters `A` to `Z` map to `a` to `z`; every other
/// character is left alone.
pub open spec fn lower_char(c: char) -> char {
    if 65 <= c as u32 <= 90 {
        (c as u32 + 32) as char
    } else {
        c
    }
}

/// ASCII case folding: the letters `a` to `z` map to `A` to `Z`; every other
/// character is left alone.
pub open spec fn upper_char(c: char) -> char {
    if 97 <= c as u32 <= 122 {
        (c as u32 - 32) as char
    } else {
        c
    }
}

pub open spec fn lower_seq(s: Seq<char>) -> Seq<char> {
    s.map_values(|c: char| lower_char(c))
}

pub open spec fn upper_seq(s: Seq<char>) -> Seq<char> {
    s.map_values(|c: char| upper_char(c))
}

fn lower_char_exec(c: char) -> (r: char)
    ensures
        r == lower_char(c),
{
    let u = c as u32;
    if 65 <= u && u <= 90 {
        ((u as u8) + 32) as char
    } else {
        c
    }
}

fn upper_char_exec(c: char) -> (r: char)
    ensures
        r == upper_char(c),
{
    let u = c as u32;
    if 97 <= u && u <= 122 {
        ((u as u8) - 32) as char
    } else {
        c
    }
}

/// Folds every ASCII upper-case letter of the string to lower case.
pub fn lower_str(s: &str) -> (r: String)
    ensures
        r@ == lower_seq(s@),
{
    let n = s.unicode_len();
    let mut out = String::new();
    let mut i: usize = 0;
    while i < n
        invariant
            i <= n,
            n == s@.len(),
            out@ == lower_seq(s@.take(i as int)),
        decreases n - i,
    {
        let c = s.get_char(i);
        push_char(&mut out, lower_char_exec(c));
        proof {
            assert(s@.take(i + 1 as int) =~= s@.take(i as int).push(s@[i as int]));
            assert(out@ =~= lower_seq(s@.take(i + 1 as int)));
        }
        i += 1;
    }
    proof {
        assert(s@.take(n as int) =~= s@);
    }
    out
}

/// Folds every ASCII lower-case letter of the string to upper case.
pub fn upper_str(s: &str) -> (r: String)
    ensures
        r@ == upper_seq(s@),
{
    let n = s.unicode_len();
    let mut out = String::new();
    let mut i: usize = 0;
    while i < n
        invariant
            i <= n,
            n == s@.len(),
            out@ == upper_seq(s@.take(i as int)),
        decreases n - i,
    {
        let c = s.get_char(i);
        push_char(&mut out, upper_char_exec(c));
        proof {
            assert(s@.take(i + 1 as int) =~= s@.take(i as int).push(s@[i as int]));
            assert(out@ =~= upper_seq(s@.take(i + 1 as int)));
        }
        i += 1;
    }
    proof {
        assert(s@.take(n as int) =~= s@);
    }
    out
}

/// Case folding never produces or removes white space.
pub proof fn lemma_case_fold_space(c: char)
    ensures
        is_space_char(lower_char(c)) == is_space_char(c),
        is_space_char(upper_char(c)) == is_space_char(c),
{
}

/// Case folding is idempotent, and folding one way absorbs the other.
pub proof fn lemma_case_fold_char(c: char)
    ensures
        lower_char(lower_char(c)) == lower_char(c),
        upper_char(upper_char(c)) == upper_char(c),
        lower_char(upper_char(c)) == lower_char(c),
        upper_char(lower_char(c)) == upper_char(c),
{
}

/// The sequence forms of the case-fold identities.
pub proof fn lemma_case_fold_seq(s: Seq<char>)
    ensures
        lower_seq(lower_seq(s)) == lower_seq(s),
        upper_seq(upper_seq(s)) == upper_seq(s),
        lower_seq(upper_seq(s)) == lower_seq(s),
        upper_seq(lower_seq(s)) == upper_seq(s),
{
    assert forall|i: int| 0 <= i < s.len() implies lower_seq(lower_seq(s))[i] == lower_seq(s)[i]
        && upper_seq(upper_seq(s))[i] == upper_seq(s)[i] && lower_seq(upper_seq(s))[i]
        == lower_seq(s)[i] && upper_seq(lower_seq(s))[i] == upper_seq(s)[i] by {
        lemma_case_fold_char(s[i]);
    }
    assert(lower_seq(lower_seq(s)) =~= lower_seq(s));
    assert(upper_seq(upper_seq(s)) =~= upper_seq(s));
    assert(lower_seq(upper_seq(s)) =~= lower_seq(s));
    assert(upper_seq(lower_seq(s)) =~= upper_seq(s));
}

/// Number of white-space characters at the start of the sequence.
pub open spec fn trim_start_len(s: Seq<char>) -> int
    decreases s.len(),
{
    if s.len() == 0 || !is_space_char(s[0]) {
        0
    } else {
        1 + trim_start_len(s.drop_first())
    }
}

/// Number of white-space characters at the end of the sequence.
pub open spec fn trim_end_len(s: Seq<char>) -> int
    decreases s.len(),
{
    if s.len() == 0 || !is_space_char(s.last()) {
        0
    } else {
        1 + trim_end_len(s.drop_last())
    }
}

/// The sequence with leading and trailing white space removed.
pub open spec fn trim_seq(s: Seq<char>) -> Seq<char> {
    if trim_start_len(s) == s.len() {
        Seq::empty()
    } else {
        s.subrange(trim_start_len(s), s.len() - trim_end_len(s))
    }
}

pub proof fn lemma_trim_start(s: Seq<char>)
    ensures
        0 <= trim_start_len(s) <= s.len(),
        forall|i: int| 0 <= i < trim_start_len(s) ==> is_space_char(#[trigger] s[i]),
        trim_start_len(s) < s.len() ==> !is_space_char(s[trim_start_len(s)]),
    decreases s.len(),
{
    if s.len() > 0 && is_space_char(s[0]) {
        lemma_trim_start(s.drop_first());
        assert forall|i: int| 0 <= i < trim_start_len(s) implies is_space_char(#[trigger] s[i]) by {
            if i > 0 {
                assert(s.drop_first()[i - 1] == s[i]);
            }
        }
        if trim_start_len(s) < s.len() {
            assert(s.drop_first()[trim_start_len(s) - 1] == s[trim_start_len(s)]);
        }
    }
}

pub proof fn lemma_trim_end(s: Seq<char>)
    ensures
        0 <= trim_end_len(s) <= s.len(),
        forall|i: int| s.len() - trim_end_len(s) <= i < s.len() ==> is_space_char(#[trigger] s[i]),
        trim_end_len(s) < s.len() ==> !is_space_char(s[s.len() - trim_end_len(s) - 1]),
    decreases s.len(),
{
    if s.len() > 0 && is_space_char(s.last()) {
        lemma_trim_end(s.drop_last());
        assert forall|i: int| s.len() - trim_end_len(s) <= i < s.len() implies is_space_char(
            #[trigger] s[i],
        ) by {
            if i < s.len() - 1 {
                assert(s.drop_last()[i] == s[i]);
            }
        }
        if trim_end_len(s) < s.len() {
            assert(s.drop_last()[s.len() - trim_end_len(s) - 1] == s[s.len() - trim_end_len(s)
                - 1]);
        }
    }
}

/// The count of leading spaces is pinned by its first-witness description.
pub proof fn lemma_trim_start_is(s: Seq<char>, k: int)
    requires
        0 <= k <= s.len(),
        forall|i: int| 0 <= i < k ==> is_space_char(#[trigger] s[i]),
        k < s.len() ==> !is_space_char(s[k]),
    ensures
        trim_start_len(s) == k,
    decreases s.len(),
{
    if s.len() > 0 && is_space_char(s[0]) {
        assert forall|i: int| 0 <= i < k - 1 implies is_space_char(#[trigger] s.drop_first()[i]) by {
            assert(s.drop_first()[i] == s[i + 1]);
        }
        if k - 1 < s.drop_first().len() {
            assert(s.drop_first()[k - 1] == s[k]);
        }
        lemma_trim_start_is(s.drop_first(), k - 1);
    }
}

/// The count of trailing spaces is pinned by its first-witness description.
pub proof fn lemma_trim_end_is(s: Seq<char>, k: int)
    requires
        0 <= k <= s.len(),
        forall|i: int| s.len() - k <= i < s.len() ==> is_space_char(#[trigger] s[i]),
        k < s.len() ==> !is_space_char(s[s.len() - k - 1]),
    ensures
        trim_end_len(s) == k,
    decreases s.len(),
{
    if s.len() > 0 && is_space_char(s.last()) {
        assert forall|i: int|
            s.drop_last().len() - (k - 1) <= i < s.drop_last().len() implies is_space_char(
            #[trigger] s.drop_last()[i],
        ) by {
            assert(s.drop_last()[i] == s[i]);
        }
        if k - 1 < s.drop_last().len() {
            assert(s.drop_last()[s.drop_last().len() - (k - 1) - 1] == s[s.len() - k - 1]);
        }
        lemma_trim_end_is(s.drop_last(), k - 1);
    }
}

/// Trimming is idempotent.
pub proof fn lemma_trim_idempotent(s: Seq<char>)
    ensures
        trim_seq(trim_seq(s)) == trim_seq(s),
{
    lemma_trim_start(s);
    lemma_trim_end(s);
    let t = trim_seq(s);
    if trim_start_len(s) == s.len() {
        assert(t =~= Seq::<char>::empty());
        assert(trim_seq(t) =~= Seq::<char>::empty());
    } else {
        let a = trim_start_len(s);
        let b = s.len() - trim_end_len(s);
        assert(t[0] == s[a]);
        assert(t[t.len() - 1] == s[b - 1]);
        lemma_trim_start_is(t, 0);
        lemma_trim_end_is(t, 0);
        assert(trim_seq(t) =~= t);
    }
}

/// Trimming commutes with case folding, which neither adds nor removes
/// white space.
pub proof fn lemma_trim_case_fold(s: Seq<char>)
    ensures
        trim_seq(lower_seq(s)) == lower_seq(trim_seq(s)),
        trim_seq(upper_seq(s)) == upper_seq(trim_seq(s)),
{
    lemma_trim_start(s);
    lemma_trim_end(s);
    let ls = lower_seq(s);
    let us = upper_seq(s);
    assert forall|i: int| 0 <= i < s.len() implies is_space_char(#[trigger] ls[i])
        == is_space_char(s[i]) && is_space_char(us[i]) == is_space_char(s[i]) by {
        lemma_case_fold_space(s[i]);
    }
    lemma_trim_start_is(ls, trim_start_len(s));
    lemma_trim_end_is(ls, trim_end_len(s));
    lemma_trim_start_is(us, trim_start_len(s));
    lemma_trim_end_is(us, trim_end_len(s));
    if trim_start_len(s) == s.len() {
        assert(trim_seq(ls) =~= lower_seq(trim_seq(s)));
        assert(trim_seq(us) =~= upper_seq(trim_seq(s)));
    } else {
        assert(trim_seq(ls) =~= lower_seq(trim_seq(s)));
        assert(trim_seq(us) =~= upper_seq(trim_seq(s)));
    }
}

/// Removes leading and trailing white space, as the trim transform does.
pub fn trim_str(s: &str) -> (r: String)
    ensures
        r@ == trim_seq(s@),
{
    let n = s.unicode_len();
    let mut start: usize = 0;
    while start < n && is_space(s.get_char(start))
        invariant
            start <= n,
            n == s@.len(),
            forall|i: int| 0 <= i < start ==> is_space_char(#[trigger] s@[i]),
        decreases n - start,
    {
        start += 1;
    }
    proof {
        lemma_trim_start_is(s@, start as int);
    }
    if start == n {
        proof {
            assert(trim_seq(s@) =~= Seq::<char>::empty());
        }
        return String::new();
    }
    let mut end: usize = n;
    while end > start && is_space(s.get_char(end - 1))
        invariant
            start <= end <= n,
            n == s@.len(),
            forall|i: int| end <= i < n ==> is_space_char(#[trigger] s@[i]),
        decreases end,
    {
        end -= 1;
    }
    // the character at `start` is not white space, so the trailing run stops
    // at or after it
    proof {
        assert(!is_space_char(s@[start as int]));
        assert(end > start);
        assert(!is_space_char(s@[end - 1 as int]));
        lemma_trim_end_is(s@, (n - end) as int);
    }
    let piece = s.substring_char(start, end);
    piece.to_owned()
}

/// The character for one decimal digit.
pub open spec fn digit_char(d: int) -> char {
    if d == 0 {
        '0'
    } else if d == 1 {
        '1'
    } else if d == 2 {
        '2'
    } else if d == 3 {
        '3'
    } else if d == 4 {
        '4'
    } else if d == 5 {
        '5'
    } else if d == 6 {
        '6'
    } else if d == 7 {
        '7'
    } else if d == 8 {
        '8'
    } else {
        '9'
    }
}

/// The decimal digits of a non-negative integer, most significant first.
pub open spec fn dec_digits(n: int) -> Seq<char>
    recommends
        n >= 0,
    decreases n,
{
    if n < 10 {
        seq![digit_char(n)]
    } else {
        dec_digits(n / 10).push(digit_char(n % 10))
    }
}

fn digit_char_exec(d: u64) -> (r: char)
    requires
        d < 10,
    ensures
        r == digit_char(d as int),
{
    if d == 0 {
        '0'
    } else if d == 1 {
        '1'
    } else if d == 2 {
        '2'
    } else if d == 3 {
        '3'
    } else if d == 4 {
        '4'
    } else if d == 5 {
        '5'
    } else if d == 6 {
        '6'
    } else if d == 7 {
        '7'
    } else if d == 8 {
        '8'
    } else {
        '9'
    }
}

/// Appends the decimal digits of `n` to the string.
pub fn push_u64_digits(out: &mut String, n: u64)
    ensures
        final(out)@ == old(out)@ + dec_digits(n as int),
    decreases n,
{
    if n < 10 {
        push_char(out, digit_char_exec(n));
        proof {
            assert(final(out)@ =~= old(out)@ + dec_digits(n as int));
        }
    } else {
        push_u64_digits(out, n / 10);
        push_char(out, digit_char_exec(n % 10));
        proof {
            assert(final(out)@ =~= old(out)@ + dec_digits(n as int));
        }
    }
}

/// The decimal rendering of a non-negative integer.
pub fn u64_to_string(n: u64) -> (r: String)
    ensures
        r@ == dec_digits(n as int),
{
    let mut out = String::new();
    push_u64_digits(&mut out, n);
    proof {
        assert(out@ =~= dec_digits(n as int));
    }
    out
}

/// The six decimal digits of a fractional part below one million.
pub open spec fn frac6(frac: int) -> Seq<char>
    recommends
        0 <= frac < 1_000_000,
{
    seq![
        digit_char(frac / 100_000 % 10),
        digit_char(frac / 10_000 % 10),
        digit_char(frac / 1_000 % 10),
        digit_char(frac / 100 % 10),
        digit_char(frac / 10 % 10),
        digit_char(frac % 10),
    ]
}

/// The sequence with its trailing zero digits removed.
pub open spec fn strip_zeros(s: Seq<char>) -> Seq<char>
    decreases s.len(),
{
    if s.len() == 0 || s.last() != '0' {
        s
    } else {
        strip_zeros(s.drop_last())
    }
}

/// The decimal rendering of a fixed-point number held in millionths: the
/// whole part, and the fractional digits without trailing zeros when the
/// number is not whole.
pub open spec fn render_micros(m: int) -> Seq<char> {
    let mag = if m < 0 {
        -m
    } else {
        m
    };
    let sign: Seq<char> = if m < 0 {
        seq!['-']
    } else {
        Seq::empty()
    };
    let whole = mag / 1_000_000;
    let frac = mag % 1_000_000;
    if frac == 0 {
        sign + dec_digits(whole)
    } else {
        sign + dec_digits(whole) + seq!['.'] + strip_zeros(frac6(frac))
    }
}

/// Renders a fixed-point number the way the error messages show bounds.
pub fn num_to_string(n: &crate::value::Num) -> (r: String)
    requires
        n.wf(),
    ensures
        r@ == render_micros(n.micros as int),
{
    let m = n.micros;
    let mut out = String::new();
    let mag: u64 = if m < 0 {
        push_char(&mut out, '-');
        (-m) as u64
    } else {
        m as u64
    };
    let whole = mag / 1_000_000;
    let frac = mag % 1_000_000;
    push_u64_digits(&mut out, whole);
    if frac == 0 {
        proof {
            assert(out@ =~= render_micros(n.micros as int));
        }
        return out;
    }
    push_char(&mut out, '.');
    let d0 = frac / 100_000 % 10;
    let d1 = frac / 10_000 % 10;
    let d2 = frac / 1_000 % 10;
    let d3 = frac / 100 % 10;
    let d4 = frac / 10 % 10;
    let d5 = frac % 10;
    push_char(&mut out, digit_char_exec(d0));
    if d1 != 0 || d2 != 0 || d3 != 0 || d4 != 0 || d5 != 0 {
        push_char(&mut out, digit_char_exec(d1));
    }
    if d2 != 0 || d3 != 0 || d4 != 0 || d5 != 0 {
        push_char(&mut out, digit_char_exec(d2));
    }
    if d3 != 0 || d4 != 0 || d5 != 0 {
        push_char(&mut out, digit_char_exec(d3));
    }
    if d4 != 0 || d5 != 0 {
        push_char(&mut out, digit_char_exec(d4));
    }
    if d5 != 0 {
        push_char(&mut out, digit_char_exec(d5));
    }
    proof {
        let f6 = frac6(frac as int);
        let f5 = f6.drop_last();
        let f4 = f5.drop_last();
        let f3 = f4.drop_last();
        let f2 = f3.drop_last();
        let f1 = f2.drop_last();
        assert(f5 =~= seq![
            digit_char(d0 as int),
            digit_char(d1 as int),
            digit_char(d2 as int),
            digit_char(d3 as int),
            digit_char(d4 as int),
        ]);
        assert(f4 =~= seq![
            digit_char(d0 as int),
            digit_char(d1 as int),
            digit_char(d2 as int),
            digit_char(d3 as int),
        ]);
        assert(f3 =~= seq![
            digit_char(d0 as int),
            digit_char(d1 as int),
            digit_char(d2 as int),
        ]);
        assert(f2 =~= seq![digit_char(d0 as int), digit_char(d1 as int)]);
        assert(f1 =~= seq![digit_char(d0 as int)]);
        if d5 != 0 {
            assert(strip_zeros(f6) == f6);
            assert(out@ =~= render_micros(n.micros as int));
        } else {
            assert(f6.last() == '0');
            assert(strip_zeros(f6) == strip_zeros(f5));
            if d4 != 0 {
                assert(strip_zeros(f5) == f5);
                assert(out@ =~= render_micros(n.micros as int));
            } else {
                assert(f5.last() == '0');
                assert(strip_zeros(f5) == strip_zeros(f4));
                if d3 != 0 {
                    assert(strip_zeros(f4) == f4);
                    assert(out@ =~= render_micros(n.micros as int));
                } else {
                    assert(f4.last() == '0');
                    assert(strip_zeros(f4) == strip_zeros(f3));
                    if d2 != 0 {
                        assert(strip_zeros(f3) == f3);
                        assert(out@ =~= render_micros(n.micros as int));
                    } else {
                        assert(f3.last() == '0');
                        assert(strip_zeros(f3) == strip_zeros(f2));
                        if d1 != 0 {
                            assert(strip_zeros(f2) == f2);
                            assert(out@ =~= render_micros(n.micros as int));
                        } else {
                            assert(f2.last() == '0');
                            assert(strip_zeros(f2) == strip_zeros(f1));
                            assert(d0 != 0);
                            assert(strip_zeros(f1) == f1);
                            assert(out@ =~= render_micros(n.micros as int));
                        }
                    }
                }
            }
        }
    }
    out
}

pub open spec fn is_digit(c: char) -> bool {
    48 <= c as u32 <= 57
}

pub open spec fn digit_val(c: char) -> int {
    c as u32 - 48
}

pub open spec fn all_digits(s: Seq<char>) -> bool {
    forall|i: int| 0 <= i < s.len() ==> is_digit(#[trigger] s[i])
}

/// The value of a sequence of decimal digits.
pub open spec fn digits_val(s: Seq<char>) -> int
    decreases s.len(),
{
    if s.len() == 0 {
        0
    } else {
        digits_val(s.drop_last()) * 10 + digit_val(s.last())
    }
}

pub open spec fn pow10(k: int) -> int
    decreases k,
{
    if k <= 0 {
        1
    } else {
        10 * pow10(k - 1)
    }
}

pub proof fn lemma_digits_val_nonneg(s: Seq<char>)
    requires
        all_digits(s),
    ensures
        digits_val(s) >= 0,
    decreases s.len(),
{
    if s.len() > 0 {
        assert(forall|i: int|
            0 <= i < s.drop_last().len() ==> s.drop_last()[i] == #[trigger] s[i]);
        lemma_digits_val_nonneg(s.drop_last());
    }
}

pub proof fn lemma_digits_val_bound(s: Seq<char>)
    requires
        all_digits(s),
    ensures
        0 <= digits_val(s) < pow10(s.len() as int),
    decreases s.len(),
{
    if s.len() > 0 {
        assert(forall|i: int|
            0 <= i < s.drop_last().len() ==> s.drop_last()[i] == #[trigger] s[i]);
        lemma_digits_val_bound(s.drop_last());
    }
}

/// Position of the first dot in the sequence, if any.
pub open spec fn dot_pos(s: Seq<char>) -> Option<int>
    decreases s.len(),
{
    if s.len() == 0 {
        None
    } else if s[0] == '.' {
        Some(0int)
    } else {
        match dot_pos(s.drop_first()) {
            Some(p) => Some(p + 1),
            None => None,
        }
    }
}

pub proof fn lemma_dot_pos_none(s: Seq<char>)
    requires
        forall|i: int| 0 <= i < s.len() ==> #[trigger] s[i] != '.',
    ensures
        dot_pos(s) is None,
    decreases s.len(),
{
    if s.len() > 0 {
        assert forall|i: int| 0 <= i < s.drop_first().len() implies #[trigger] s.drop_first()[i]
            != '.' by {
            assert(s.drop_first()[i] == s[i + 1]);
        }
        lemma_dot_pos_none(s.drop_first());
    }
}

pub proof fn lemma_dot_pos_is(s: Seq<char>, k: int)
    requires
        0 <= k < s.len(),
        s[k] == '.',
        forall|i: int| 0 <= i < k ==> #[trigger] s[i] != '.',
    ensures
        dot_pos(s) == Some(k),
    decreases s.len(),
{
    if k > 0 {
        assert forall|i: int| 0 <= i < k - 1 implies #[trigger] s.drop_first()[i] != '.' by {
            assert(s.drop_first()[i] == s[i + 1]);
        }
        assert(s.drop_first()[k - 1] == s[k]);
        lemma_dot_pos_is(s.drop_first(), k - 1);
    }
}

/// The number a decimal literal denotes, in millionths: an optional leading
/// minus sign, a non-empty whole part, and an optional fractional part of at
/// most six digits. `None` when the text is not of that shape or the value
/// falls outside the fixed range.
pub open spec fn parse_micros(s: Seq<char>) -> Option<int> {
    let neg = s.len() > 0 && s[0] == '-';
    let body = if neg {
        s.drop_first()
    } else {
        s
    };
    match dot_pos(body) {
        None => if body.len() > 0 && all_digits(body) && digits_val(body) * 1_000_000
            <= crate::value::NUM_LIMIT_MICROS {
            Some(
                if neg {
                    -(digits_val(body) * 1_000_000)
                } else {
                    digits_val(body) * 1_000_000
                },
            )
        } else {
            None
        },
        Some(p) => {
            let ip = body.take(p);
            let fp = body.skip(p + 1);
            if p > 0 && 1 <= fp.len() <= 6 && all_digits(ip) && all_digits(fp) {
                let v = digits_val(ip) * 1_000_000 + digits_val(fp) * pow10(6 - fp.len());
                if v <= crate::value::NUM_LIMIT_MICROS {
                    Some(
                        if neg {
                            -v
                        } else {
                            v
                        },
                    )
                } else {
                    None
                }
            } else {
                None
            }
        },
    }
}

/// Reads the digits `s[from..to]`, returning their exact value, or `None`
/// when the value exceeds the whole-part limit.
fn scan_digits(s: &str, from: usize, to: usize) -> (r: Option<u64>)
    requires
        from <= to <= s@.len(),
        all_digits(s@.subrange(from as int, to as int)),
    ensures
        match r {
            Some(v) => v == digits_val(s@.subrange(from as int, to as int)) && v
                <= 9_000_000_000_000,
            None => digits_val(s@.subrange(from as int, to as int)) > 9_000_000_000_000,
        },
{
    let ghost whole = s@.subrange(from as int, to as int);
    proof {
        lemma_digits_val_nonneg(whole);
    }
    let mut acc: u64 = 0;
    let mut i = from;
    while i < to
        invariant
            from <= i <= to <= s@.len(),
            whole == s@.subrange(from as int, to as int),
            all_digits(whole),
            acc == digits_val(whole.take(i - from)),
            acc <= 9_000_000_000_000,
        decreases to - i,
    {
        let c = s.get_char(i);
        proof {
            assert(whole[i - from] == s@[i as int]);
            assert(is_digit(whole[i - from]));
            assert(whole.take(i + 1 - from).drop_last() =~= whole.take(i - from));
            assert(whole.take(i + 1 - from).last() == whole[i - from]);
        }
        let d = (c as u32) as u64 - 48;
        let next = acc * 10 + d;
        if next > 9_000_000_000_000 {
            proof {
                lemma_digits_prefix_grows(whole, i + 1 - from);
            }
            return None;
        }
        acc = next;
        i += 1;
    }
    proof {
        assert(whole.take(to - from) =~= whole);
    }
    Some(acc)
}

/// A digit sequence is worth at least as much as any of its prefixes.
pub proof fn lemma_digits_prefix_grows(s: Seq<char>, k: int)
    requires
        all_digits(s),
        0 <= k <= s.len(),
    ensures
        digits_val(s) >= digits_val(s.take(k)),
    decreases s.len() - k,
{
    if k < s.len() {
        lemma_digits_prefix_grows(s, k + 1);
        assert(s.take(k + 1).drop_last() =~= s.take(k));
        assert(s.take(k + 1).last() == s[k]);
        assert(forall|i: int| 0 <= i < k + 1 ==> s.take(k + 1)[i] == #[trigger] s[i]);
        lemma_digits_val_nonneg(s.take(k));
        assert(digits_val(s.take(k + 1)) == digits_val(s.take(k)) * 10 + digit_val(s[k]));
    } else {
        assert(s.take(k) =~= s);
    }
}

/// Parses a decimal literal into a fixed-point number; `None` exactly when
/// `parse_micros` refuses the text.
pub fn parse_decimal(s: &str) -> (r: Option<crate::value::Num>)
    ensures
        match r {
            Some(n) => parse_micros(s@) == Some(n.micros as int) && n.wf(),
            None => parse_micros(s@) is None,
        },
{
    let n = s.unicode_len();
    let neg = n > 0 && s.get_char(0) == '-';
    let start: usize = if neg {
        1
    } else {
        0
    };
    let ghost body = if neg {
        s@.drop_first()
    } else {
        s@
    };
    proof {
        assert(body =~= s@.subrange(start as int, n as int));
    }
    // find the first dot in the body
    let mut dot: Option<usize> = None;
    let mut i = start;
    while i < n
        invariant
            start <= i <= n,
            n == s@.len(),
            body == s@.subrange(start as int, n as int),
            match dot {
                Some(p) => start <= p < i && s@[p as int] == '.' && (forall|j: int|
                    start <= j < p ==> #[trigger] s@[j] != '.'),
                None => forall|j: int| start <= j < i ==> #[trigger] s@[j] != '.',
            },
        decreases n - i,
    {
        if dot.is_none() && s.get_char(i) == '.' {
            dot = Some(i);
        }
        i += 1;
    }
    proof {
        match dot {
            Some(p) => {
                assert(body[p - start] == s@[p as int]);
                assert forall|j: int| 0 <= j < p - start implies #[trigger] body[j] != '.' by {
                    assert(body[j] == s@[j + start]);
                }
                lemma_dot_pos_is(body, p - start);
            },
            None => {
                assert forall|j: int| 0 <= j < body.len() implies #[trigger] body[j] != '.' by {
                    assert(body[j] == s@[j + start]);
                }
                lemma_dot_pos_none(body);
            },
        }
    }
    let ip_end: usize = match dot {
        Some(p) => p,
        None => n,
    };
    // the whole part must be non-empty digits
    if ip_end == start {
        return None;
    }
    let ghost ip = body.take(ip_end - start);
    if !check_digits(s, start, ip_end) {
        proof {
            assert forall|j: int| 0 <= j < ip.len() implies ip[j] == #[trigger] s@.subrange(
                start as int,
                ip_end as int,
            )[j] by {}
            assert(ip =~= s@.subrange(start as int, ip_end as int));
        }
        return None;
    }
    proof {
        assert(ip =~= s@.subrange(start as int, ip_end as int));
    }
    let whole = match scan_digits(s, start, ip_end) {
        Some(v) => v,
        None => {
            proof {
                lemma_digits_val_nonneg(ip);
                if let Some(pp) = dot_pos(body) {
                    let fpx = body.skip(pp + 1);
                    if all_digits(fpx) {
                        lemma_digits_val_nonneg(fpx);
                        lemma_pow10_pos(6 - fpx.len());
                    }
                }
            }
            return None;
        },
    };
    let total: u64;
    match dot {
        Some(p) => {
            let ghost fp = body.skip(p - start + 1);
            proof {
                assert(fp =~= s@.subrange(p as int + 1, n as int));
            }
            let flen = n - (p + 1);
            if flen == 0 || flen > 6 {
                return None;
            }
            if !check_digits(s, p + 1, n) {
                return None;
            }
            let f = match scan_digits(s, p + 1, n) {
                Some(v) => v,
                None => {
                    // a fractional part of at most six digits never exceeds
                    // the whole-part limit, so this branch cannot be reached
                    proof {
                        lemma_digits_val_bound(fp);
                        lemma_pow10_concrete();
                        assert(false);
                    }
                    return None;
                },
            };
            proof {
                lemma_digits_val_bound(fp);
                lemma_pow10_concrete();
            }
            proof {
                lemma_pow10_concrete();
                assert(fp.len() == flen);
                assert(f == digits_val(fp));
                assert(f < pow10(flen as int));
            }
            let fmicros: u64 = if flen == 1 {
                proof {
                    assert(f <= 9);
                }
                f * 100_000
            } else if flen == 2 {
                proof {
                    assert(f <= 99);
                }
                f * 10_000
            } else if flen == 3 {
                proof {
                    assert(f <= 999);
                }
                f * 1_000
            } else if flen == 4 {
                proof {
                    assert(f <= 9_999);
                }
                f * 100
            } else if flen == 5 {
                proof {
                    assert(f <= 99_999);
                }
                f * 10
            } else {
                proof {
                    assert(f <= 999_999);
                }
                f * 1
            };
            proof {
                assert(fmicros == digits_val(fp) * pow10(6 - fp.len()));
                assert(fmicros < 1_000_000);
            }
            total = whole * 1_000_000 + fmicros;
        },
        None => {
            total = whole * 1_000_000;
        },
    }
    if total > 9_000_000_000_000_000_000 {
        return None;
    }
    let micros: i64 = if neg {
        -(total as i64)
    } else {
        total as i64
    };
    Some(crate::value::Num { micros })
}

/// A parsed number lies within the fixed range.
pub proof fn lemma_parse_micros_range(s: Seq<char>)
    ensures
        parse_micros(s) matches Some(n) ==> -9_000_000_000_000_000_000 <= n
            <= 9_000_000_000_000_000_000,
{
    let neg = s.len() > 0 && s[0] == '-';
    let body = if neg {
        s.drop_first()
    } else {
        s
    };
    match dot_pos(body) {
        None => {
            if body.len() > 0 && all_digits(body) {
                lemma_digits_val_nonneg(body);
            }
        },
        Some(p) => {
            let ip = body.take(p);
            let fp = body.skip(p + 1);
            if p > 0 && 1 <= fp.len() <= 6 && all_digits(ip) && all_digits(fp) {
                lemma_digits_val_nonneg(ip);
                lemma_digits_val_nonneg(fp);
                lemma_pow10_pos(6 - fp.len());
            }
        },
    }
}

pub proof fn lemma_pow10_pos(k: int)
    ensures
        pow10(k) >= 1,
    decreases k,
{
    if k > 0 {
        lemma_pow10_pos(k - 1);
    }
}

pub proof fn lemma_pow10_concrete()
    ensures
        pow10(0) == 1,
        pow10(1) == 10,
        pow10(2) == 100,
        pow10(3) == 1_000,
        pow10(4) == 10_000,
        pow10(5) == 100_000,
        pow10(6) == 1_000_000,
{
}


/// Every occurrence of `pat` replaced by `rep`, scanning left to right over
/// non-overlapping matches, as `str::replace` does.
pub open spec fn replace_seq(s: Seq<char>, pat: Seq<char>, rep: Seq<char>) -> Seq<char>
    recommends
        pat.len() > 0,
    decreases s.len(),
    when pat.len() > 0
{
    if s.len() < pat.len() {
        s
    } else if s.take(pat.len() as int) == pat {
        rep + replace_seq(s.skip(pat.len() as int), pat, rep)
    } else {
        seq![s[0]] + replace_seq(s.drop_first(), pat, rep)
    }
}

/// Replaces every occurrence of `pat` with `rep`.
pub fn replace_str(s: &str, pat: &str, rep: &str) -> (r: String)
    requires
        pat@.len() > 0,
    ensures
        r@ == replace_seq(s@, pat@, rep@),
    decreases s@.len(),
{
    let sl = s.unicode_len();
    let pl = pat.unicode_len();
    if sl < pl {
        return s.to_owned();
    }
    let head = s.substring_char(0, pl);
    if head.to_owned() == pat.to_owned() {
        let rest = replace_str(s.substring_char(pl, sl), pat, rep);
        let mut out = rep.to_owned();
        out.append(rest.as_str());
        proof {
            assert(s@.take(pl as int) == pat@);
            assert(s@.skip(pl as int) =~= s@.subrange(pl as int, sl as int));
        }
        out
    } else {
        let mut out = s.substring_char(0, 1).to_owned();
        let rest = replace_str(s.substring_char(1, sl), pat, rep);
        out.append(rest.as_str());
        proof {
            assert(s@.take(pl as int) != pat@);
            assert(s@.subrange(0, 1) =~= seq![s@[0]]);
            assert(s@.drop_first() =~= s@.subrange(1, sl as int));
        }
        out
    }
}

/// True exactly when `s[from..to]` consists of decimal digits.
fn check_digits(s: &str, from: usize, to: usize) -> (r: bool)
    requires
        from <= to <= s@.len(),
    ensures
        r == all_digits(s@.subrange(from as int, to as int)),
{
    let ghost part = s@.subrange(from as int, to as int);
    let mut i = from;
    while i < to
        invariant
            from <= i <= to <= s@.len(),
            part == s@.subrange(from as int, to as int),
            forall|j: int| 0 <= j < i - from ==> is_digit(#[trigger] part[j]),
        decreases to - i,
    {
        let c = s.get_char(i);
        let u = c as u32;
        proof {
            assert(part[i - from] == s@[i as int]);
        }
        if !(48 <= u && u <= 57) {
            return false;
        }
        i += 1;
    }
    true
}

} // verus!
