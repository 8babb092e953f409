//! Small verified helpers for working with strings and decimal digits.

use vstd::prelude::*;
use vstd::string::StrSliceExecFns;
use vstd::string::StringExecFns;

verus! {

/// Character-wise equality of two string slices.
pub fn str_eq(a: &str, b: &str) -> (r: bool)
    ensures
        r == (a@ == b@),
{
    let alen = a.unicode_len();
    let blen = b.unicode_len();
    if alen != blen {
        return false;
    }
    let mut i: usize = 0;
    while i < alen
        invariant
            i <= alen,
            alen == a@.len(),
            alen == b@.len(),
            forall|j: int| 0 <= j < i ==> a@[j] == b@[j],
        decreases alen - i,
    {
        if a.get_char(i) != b.get_char(i) {
            return false;
        }
        i = i + 1;
    }
    proof {
        assert(a@ =~= b@);
    }
    true
}

/// The decimal digit character for a value below ten.
pub open spec fn digit_char(d: int) -> char {
    if d == 0 {
        '0'
    } else if d == 1 {
        '1'
    } else if d == 2 {
        '2'
    } else if d == 3 {
        '3'
    } else if d == 4 {
        '4'
    } else if d == 5 {
        '5'
    } else if d == 6 {
        '6'
    } else if d == 7 {
        '7'
    } else if d == 8 {
        '8'
    } else {
        '9'
    }
}

/// A one-character string slice holding the decimal digit `d`.
fn digit_str(d: u8) -> (r: &'static str)
    requires
        d < 10,
    ensures
        r@ =~= seq![digit_char(d as int)],
{
    proof {
        reveal_strlit("0");
        reveal_strlit("1");
        reveal_strlit("2");
        reveal_strlit("3");
        reveal_strlit("4");
        reveal_strlit("5");
        reveal_strlit("6");
        reveal_strlit("7");
        reveal_strlit("8");
        reveal_strlit("9");
    }
    match d {
        0 => "0",
        1 => "1",
        2 => "2",
        3 => "3",
        4 => "4",
        5 => "5",
        6 => "6",
        7 => "7",
        8 => "8",
        _ => "9",
    }
}

/// The decimal rendering of a byte value, without leading zeroes.
pub open spec fn spec_dec_u8(n: u8) -> Seq<char> {
    if n < 10 {
        seq![digit_char(n as int)]
    } else if n < 100 {
        seq![digit_char(n as int / 10), digit_char(n as int % 10)]
    } else {
        seq![
            digit_char(n as int / 100),
            digit_char((n as int / 10) % 10),
            digit_char(n as int % 10),
        ]
    }
}

/// Renders a byte value in decimal.
pub fn dec_u8_string(n: u8) -> (r: String)
    ensures
        r@ =~= spec_dec_u8(n),
{
    let mut s = String::new();
    if n >= 100 {
        s.append(digit_str(n / 100));
    }
    if n >= 10 {
        s.append(digit_str((n / 10) % 10));
    }
    s.append(digit_str(n % 10));
    s
}

/// ASCII whitespace, the separators of the text capture format.
pub open spec fn is_space(c: char) -> bool {
    c == ' ' || c == '\t' || c == '\n' || c == '\r'
}

/// Exec mirror of `is_space`.
pub fn char_is_space(c: char) -> (r: bool)
    ensures
        r == is_space(c),
{
    c == ' ' || c == '\t' || c == '\n' || c == '\r'
}

/// Length of the leading run of non-space characters.
pub open spec fn token_len(s: Seq<char>) -> int
    decreases s.len(),
{
    if s.len() == 0 || is_space(s[0]) {
        0
    } else {
        1 + token_len(s.drop_first())
    }
}

/// A token never extends past the end of its string, and a non-space
/// first character starts a token of at least one character.
pub proof fn lemma_token_len_bounds(s: Seq<char>)
    ensures
        0 <= token_len(s) <= s.len(),
        s.len() > 0 && !is_space(s[0]) ==> 1 <= token_len(s),
    decreases s.len(),
{
    if s.len() == 0 || is_space(s[0]) {
    } else {
        lemma_token_len_bounds(s.drop_first());
    }
}

/// The non-space run of `s` starting at `start` ends exactly at `i`.
proof fn lemma_token_len_at(s: Seq<char>, start: int, i: int)
    requires
        0 <= start <= i <= s.len(),
        forall|j: int| start <= j < i ==> !is_space(#[trigger] s[j]),
        i == s.len() || is_space(s[i]),
    ensures
        token_len(s.skip(start)) == i - start,
    decreases i - start,
{
    if start == i {
        if i < s.len() {
            assert(s.skip(start)[0] == s[start]);
        }
    } else {
        assert(s.skip(start)[0] == s[start]);
        assert(s.skip(start).drop_first() =~= s.skip(start + 1));
        lemma_token_len_at(s, start + 1, i);
    }
}

/// The whitespace-separated tokens of `s`, in order; runs of whitespace
/// separate tokens and empty tokens do not arise.
pub open spec fn spec_split_ws(s: Seq<char>) -> Seq<Seq<char>>
    decreases s.len(),
    via spec_split_ws_dec
{
    if s.len() == 0 {
        Seq::empty()
    } else if is_space(s[0]) {
        spec_split_ws(s.drop_first())
    } else {
        seq![s.take(token_len(s))] + spec_split_ws(s.skip(token_len(s)))
    }
}

#[via_fn]
proof fn spec_split_ws_dec(s: Seq<char>) {
    if s.len() > 0 && !is_space(s[0]) {
        lemma_token_len_bounds(s);
    }
}

/// Splits a string at whitespace, as the text capture format requires.
pub fn split_ws<'a>(s: &'a str) -> (toks: Vec<&'a str>)
    ensures
        toks.deep_view() == spec_split_ws(s@),
{
    let n = s.unicode_len();
    let mut toks: Vec<&'a str> = Vec::new();
    let mut i: usize = 0;
    proof {
        assert(s@.skip(0) =~= s@);
    }
    while i < n
        invariant
            0 <= i <= n,
            n == s@.len(),
            spec_split_ws(s@) == toks.deep_view() + spec_split_ws(s@.skip(i as int)),
        decreases n - i,
    {
        let c = s.get_char(i);
        if char_is_space(c) {
            proof {
                assert(s@.skip(i as int).drop_first() =~= s@.skip(i + 1));
            }
            i = i + 1;
        } else {
            let start = i;
            i = i + 1;
            while i < n && !char_is_space(s.get_char(i))
                invariant
                    start < i <= n,
                    n == s@.len(),
                    forall|j: int| start <= j < i ==> !is_space(#[trigger] s@[j]),
                decreases n - i,
            {
                i = i + 1;
            }
            let tok = s.substring_char(start, i);
            proof {
                let rest = s@.skip(start as int);
                lemma_token_len_at(s@, start as int, i as int);
                assert(spec_split_ws(rest) == seq![rest.take(token_len(rest))] + spec_split_ws(
                    rest.skip(token_len(rest)),
                ));
                assert(rest.take(i - start) =~= s@.subrange(start as int, i as int));
                assert(rest.skip(i - start) =~= s@.skip(i as int));
            }
            let ghost before = toks.deep_view();
            toks.push(tok);
            proof {
                assert(toks.deep_view() =~= before.push(tok@));
                assert(toks.deep_view() + spec_split_ws(s@.skip(i as int)) =~= spec_split_ws(s@));
            }
        }
    }
    proof {
        assert(s@.skip(n as int) =~= Seq::<char>::empty());
        assert(toks.deep_view() + spec_split_ws(s@.skip(n as int)) =~= toks.deep_view());
    }
    toks
}

/// The fields of `s` separated by `sep`, empty fields kept; there is always
/// at least one field.
pub open spec fn spec_split_sep(s: Seq<char>, sep: char) -> Seq<Seq<char>>
    decreases s.len(),
    via spec_split_sep_dec
{
    match s.index_of_first(sep) {
        Option::None => seq![s],
        Option::Some(k) => seq![s.take(k)] + spec_split_sep(s.skip(k + 1), sep),
    }
}

#[via_fn]
proof fn spec_split_sep_dec(s: Seq<char>, sep: char) {
    s.index_of_first_ensures(sep);
}

/// Splits a string at every occurrence of `sep`, keeping empty fields.
pub fn split_sep<'a>(s: &'a str, sep: char) -> (fields: Vec<&'a str>)
    ensures
        fields.deep_view() == spec_split_sep(s@, sep),
{
    let n = s.unicode_len();
    let mut fields: Vec<&'a str> = Vec::new();
    let mut start: usize = 0;
    let mut i: usize = 0;
    proof {
        assert(s@.skip(0) =~= s@);
    }
    while i < n
        invariant
            0 <= start <= i <= n,
            n == s@.len(),
            forall|j: int| start <= j < i ==> s@[j] != sep,
            spec_split_sep(s@, sep) == fields.deep_view() + spec_split_sep(
                s@.skip(start as int),
                sep,
            ),
        decreases n - i,
    {
        let c = s.get_char(i);
        if c == sep {
            let f = s.substring_char(start, i);
            proof {
                let rest = s@.skip(start as int);
                assert(rest[i - start] == sep);
                assert(rest.contains(sep));
                rest.index_of_first_ensures(sep);
                let k = rest.index_of_first(sep)->0;
                assert(rest[k] == sep);
                assert(k == i - start) by {
                    if k < i - start {
                        assert(rest[k] == s@[start + k]);
                        assert(s@[start + k] != sep);
                    }
                }
                assert(rest.take(i - start) =~= s@.subrange(start as int, i as int));
                assert(rest.skip(i - start + 1) =~= s@.skip(i + 1));
            }
            let ghost before = fields.deep_view();
            fields.push(f);
            i = i + 1;
            start = i;
            proof {
                assert(fields.deep_view() =~= before.push(f@));
                assert(fields.deep_view() + spec_split_sep(s@.skip(start as int), sep)
                    =~= spec_split_sep(s@, sep));
            }
        } else {
            i = i + 1;
        }
    }
    let f = s.substring_char(start, n);
    proof {
        let rest = s@.skip(start as int);
        assert(forall|j: int| 0 <= j < rest.len() ==> rest[j] == s@[start + j]);
        assert(!rest.contains(sep)) by {
            if rest.contains(sep) {
                let k = choose|k: int| 0 <= k < rest.len() && rest[k] == sep;
                assert(s@[start + k] == sep);
            }
        }
        rest.index_of_first_ensures(sep);
        assert(spec_split_sep(rest, sep) == seq![rest]);
        assert(rest.take(n - start) =~= s@.subrange(start as int, n as int));
        assert(f@ =~= rest);
    }
    let ghost before = fields.deep_view();
    fields.push(f);
    proof {
        assert(fields.deep_view() =~= before.push(f@));
        assert(before.push(f@) =~= before + seq![s@.skip(start as int)]);
    }
    fields
}

/// A decimal digit.
pub open spec fn is_digit(c: char) -> bool {
    48 <= c as u32 <= 57
}

/// Value of a decimal digit.
pub open spec fn digit_val(c: char) -> int {
    c as u32 - 48
}

/// Every character of `s` is a decimal digit.
pub open spec fn all_digits(s: Seq<char>) -> bool {
    forall|i: int| 0 <= i < s.len() ==> is_digit(#[trigger] s[i])
}

/// The value of a digit string read in base ten.
pub open spec fn dec_val(s: Seq<char>) -> int
    decreases s.len(),
{
    if s.len() == 0 {
        0
    } else {
        dec_val(s.drop_last()) * 10 + digit_val(s.last())
    }
}

/// `s` without one leading plus sign, if any.
pub open spec fn strip_plus(s: Seq<char>) -> Seq<char> {
    if s.len() >= 1 && s[0] == '+' {
        s.drop_first()
    } else {
        s
    }
}

/// The unsigned decimal reading of `s`, with Rust's `parse` conventions
/// (an optional leading plus sign, at least one digit, nothing else), or
/// nothing when `s` is malformed or its value exceeds `max`.
pub open spec fn spec_parse_uint(s: Seq<char>, max: u64) -> Option<u64> {
    let b = strip_plus(s);
    if b.len() == 0 || !all_digits(b) {
        None
    } else if dec_val(b) > max {
        None
    } else {
        Some(dec_val(b) as u64)
    }
}

/// The signed decimal reading of `s` within the thirty-two-bit range, with
/// Rust's `parse` conventions (an optional sign, at least one digit).
pub open spec fn spec_parse_i32(s: Seq<char>) -> Option<i32> {
    if s.len() >= 1 && s[0] == '-' {
        let b = s.drop_first();
        if b.len() == 0 || !all_digits(b) {
            None
        } else if dec_val(b) > 0x8000_0000 {
            None
        } else {
            Some((-dec_val(b)) as i32)
        }
    } else {
        let b = strip_plus(s);
        if b.len() == 0 || !all_digits(b) {
            None
        } else if dec_val(b) > 0x7fff_ffff {
            None
        } else {
            Some(dec_val(b) as i32)
        }
    }
}

/// A digit string's value is never negative.
pub proof fn lemma_dec_val_nonneg(s: Seq<char>)
    requires
        all_digits(s),
    ensures
        dec_val(s) >= 0,
{
    lemma_dec_val_monotone(s, 0);
}

/// Appending digits never lowers the value of a digit string.
proof fn lemma_dec_val_monotone(s: Seq<char>, j: int)
    requires
        all_digits(s),
        0 <= j <= s.len(),
    ensures
        0 <= dec_val(s.take(j)) <= dec_val(s),
    decreases s.len(),
{
    if s.len() == 0 {
        assert(s.take(j) =~= s);
    } else if j == s.len() {
        assert(s.take(j) =~= s);
        lemma_dec_val_monotone(s.drop_last(), s.len() - 1);
        assert(s.drop_last().take(s.len() - 1) =~= s.drop_last());
    } else {
        assert(s.drop_last().take(j) =~= s.take(j));
        assert(all_digits(s.drop_last()));
        lemma_dec_val_monotone(s.drop_last(), j);
    }
}

/// Reading one more digit multiplies by ten and adds it.
proof fn lemma_dec_val_step(s: Seq<char>, i: int)
    requires
        0 <= i < s.len(),
    ensures
        dec_val(s.take(i + 1)) == dec_val(s.take(i)) * 10 + digit_val(s[i]),
{
    assert(s.take(i + 1).drop_last() =~= s.take(i));
    assert(s.take(i + 1).last() == s[i]);
}

/// Parses an unsigned decimal with an upper bound, exactly as `parse` for
/// an unsigned integer type with maximum `max` would.
pub fn parse_uint(s: &str, max: u64) -> (r: Option<u64>)
    ensures
        r == spec_parse_uint(s@, max),
        r is Some ==> r->0 <= max,
{
    let n = s.unicode_len();
    let mut i: usize = 0;
    if n > 0 && s.get_char(0) == '+' {
        i = 1;
    }
    let ghost b = strip_plus(s@);
    let ghost off = i as int;
    proof {
        assert(b =~= s@.skip(off));
    }
    if i >= n {
        return None;
    }
    let mut acc: u64 = 0;
    proof {
        assert(b.take(0) =~= Seq::<char>::empty());
    }
    while i < n
        invariant
            off <= i <= n,
            n == s@.len(),
            off == 0 || off == 1,
            b == s@.skip(off),
            b == strip_plus(s@),
            n - off == b.len(),
            acc == dec_val(b.take(i - off)),
            acc <= max,
            all_digits(b.take(i - off)),
        decreases n - i,
    {
        let c = s.get_char(i);
        let cu = c as u32;
        proof {
            assert(b[i - off] == s@[i as int]);
        }
        if cu < 48 || cu > 57 {
            assert(!is_digit(b[i - off]));
            return None;
        }
        let d = (cu - 48) as u64;
        let t: u128 = (acc as u128) * 10 + (d as u128);
        proof {
            lemma_dec_val_step(b, i - off);
            assert(all_digits(b.take(i - off + 1)));
        }
        if t > max as u128 {
            proof {
                if all_digits(b) {
                    lemma_dec_val_monotone(b, i - off + 1);
                }
            }
            return None;
        }
        acc = t as u64;
        i = i + 1;
    }
    proof {
        assert(b.take(n - off) =~= b);
    }
    Some(acc)
}

/// Parses a signed decimal into the thirty-two-bit range, exactly as
/// `parse` for `i32` would.
pub fn parse_int32(s: &str) -> (r: Option<i32>)
    ensures
        r == spec_parse_i32(s@),
{
    let n = s.unicode_len();
    if n > 0 && s.get_char(0) == '-' {
        if n > 1 && s.get_char(1) == '+' {
            // a sign after the minus is not a digit
            proof {
                assert(s@.drop_first()[0] == '+');
                assert(!is_digit(s@.drop_first()[0]));
            }
            return None;
        }
        let body = s.substring_char(1, n);
        proof {
            assert(body@ =~= s@.drop_first());
            assert(strip_plus(body@) == body@);
        }
        match parse_uint(body, 0x8000_0000) {
            Some(m) => {
                proof {
                    lemma_dec_val_nonneg(body@);
                }
                if m == 0x8000_0000 {
                    Some(i32::MIN)
                } else {
                    Some(-(m as i32))
                }
            },
            None => None,
        }
    } else {
        match parse_uint(s, 0x7fff_ffff) {
            Some(m) => {
                proof {
                    lemma_dec_val_nonneg(strip_plus(s@));
                }
                Some(m as i32)
            },
            None => None,
        }
    }
}

} // verus!
