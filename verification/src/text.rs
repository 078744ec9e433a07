//! Verified text helpers: string equality, substring search with optional
//! ASCII case folding, and decimal number parsing.

use vstd::prelude::*;

verus! {

/// ASCII lower-casing of one character; anything outside `A`..`Z` is kept.
pub open spec fn spec_lower_char(c: char) -> char {
    if 'A' <= c && c <= 'Z' {
        ((c as u8) + 32) as char
    } else {
        c
    }
}

/// ASCII lower-casing of a character sequence.
pub open spec fn lower_chars(s: Seq<char>) -> Seq<char> {
    Seq::new(s.len(), |i: int| spec_lower_char(s[i]))
}

/// `needle` occurs in `hay` starting at position `i`.
pub open spec fn contains_seq_at(hay: Seq<char>, needle: Seq<char>, i: int) -> bool {
    0 <= i && i + needle.len() <= hay.len() && hay.subrange(i, i + needle.len()) == needle
}

/// `needle` occurs somewhere in `hay`.
pub open spec fn seq_contains(hay: Seq<char>, needle: Seq<char>) -> bool {
    exists|i: int| contains_seq_at(hay, needle, i)
}

fn lower_char(c: char) -> (r: char)
    ensures
        r == spec_lower_char(c),
{
    if c >= 'A' && c <= 'Z' {
        ((c as u8) + 32) as char
    } else {
        c
    }
}

/// Character-for-character string equality.
pub fn str_eq(a: &str, b: &str) -> (r: bool)
    ensures
        r == (a@ == b@),
{
    let alen = a.unicode_len();
    let blen = b.unicode_len();
    if alen != blen {
        return false;
    }
    let mut i: usize = 0;
    while i < alen
        invariant
            alen == a@.len(),
            alen == b@.len(),
            i <= alen,
            forall|j: int| 0 <= j < i ==> a@[j] == b@[j],
        decreases alen - i,
    {
        if a.get_char(i) != b.get_char(i) {
            return false;
        }
        i = i + 1;
    }
    proof {
        assert(a@ =~= b@);
    }
    true
}

/// One implementation behind both substring searches: when `fold` is set the
/// haystack is ASCII-lower-cased before matching, so the needle must already
/// be lower case for a case-insensitive search.
fn contains_impl(hay: &str, needle: &str, fold: bool) -> (r: bool)
    ensures
        r == seq_contains(if fold { lower_chars(hay@) } else { hay@ }, needle@),
{
    let ghost h: Seq<char> = if fold {
        lower_chars(hay@)
    } else {
        hay@
    };
    let hlen = hay.unicode_len();
    let nlen = needle.unicode_len();
    if nlen > hlen {
        proof {
            assert(forall|i: int| !contains_seq_at(h, needle@, i));
        }
        return false;
    }
    if nlen == 0 {
        proof {
            assert(h.subrange(0, 0) =~= needle@);
            assert(contains_seq_at(h, needle@, 0));
        }
        return true;
    }
    let mut i: usize = 0;
    while i <= hlen - nlen
        invariant
            h == (if fold { lower_chars(hay@) } else { hay@ }),
            h.len() == hay@.len(),
            hlen == hay@.len(),
            nlen == needle@.len(),
            1 <= nlen <= hlen,
            i <= hlen - nlen + 1,
            forall|k: int| 0 <= k < i ==> !contains_seq_at(h, needle@, k),
        decreases hlen - nlen + 1 - i,
    {
        let mut j: usize = 0;
        let mut hit: bool = true;
        while j < nlen
            invariant
                h == (if fold { lower_chars(hay@) } else { hay@ }),
                h.len() == hay@.len(),
                hlen == hay@.len(),
                nlen == needle@.len(),
                i + nlen <= hlen,
                j <= nlen,
                hit ==> forall|m: int| 0 <= m < j ==> h[i + m] == needle@[m],
                !hit ==> !contains_seq_at(h, needle@, i as int),
            decreases nlen - j,
        {
            let hc = if fold {
                lower_char(hay.get_char(i + j))
            } else {
                hay.get_char(i + j)
            };
            if hc != needle.get_char(j) {
                proof {
                    assert(h[i + j] != needle@[j as int]);
                    if contains_seq_at(h, needle@, i as int) {
                        assert(h.subrange(i as int, i + needle@.len())[j as int] == needle@[
                        j as int]);
                    }
                }
                hit = false;
                j = nlen;
            } else {
                j = j + 1;
            }
        }
        if hit {
            proof {
                assert(h.subrange(i as int, i + needle@.len()) =~= needle@);
                assert(contains_seq_at(h, needle@, i as int));
            }
            return true;
        }
        i = i + 1;
    }
    proof {
        assert(forall|k: int| !contains_seq_at(h, needle@, k));
    }
    false
}

/// Exact substring search.
pub fn str_contains(hay: &str, needle: &str) -> (r: bool)
    ensures
        r == seq_contains(hay@, needle@),
{
    contains_impl(hay, needle, false)
}

/// Case-insensitive substring search; `needle` must already be ASCII lower
/// case.
pub fn str_contains_lower(hay: &str, needle: &str) -> (r: bool)
    ensures
        r == seq_contains(lower_chars(hay@), needle@),
{
    contains_impl(hay, needle, true)
}

/// Splitting `s` at every occurrence of `sep`: the tokens between the
/// separators, in order, with an empty token between adjacent separators and
/// at the ends. There is always at least one token.
pub open spec fn split_on(s: Seq<char>, sep: char) -> Seq<Seq<char>>
    decreases s.len(),
{
    if s.len() == 0 {
        seq![s]
    } else if s[0] == sep {
        seq![Seq::<char>::empty()] + split_on(s.drop_first(), sep)
    } else {
        let rest = split_on(s.drop_first(), sep);
        seq![seq![s[0]] + rest[0]] + rest.drop_first()
    }
}

/// A split yields at least one token.
pub proof fn lemma_split_nonempty(s: Seq<char>, sep: char)
    ensures
        split_on(s, sep).len() >= 1,
    decreases s.len(),
{
    if s.len() > 0 {
        lemma_split_nonempty(s.drop_first(), sep);
    }
}

/// A separator-free sequence is one single token.
proof fn lemma_split_no_sep(s: Seq<char>, sep: char)
    requires
        forall|i: int| 0 <= i < s.len() ==> s[i] != sep,
    ensures
        split_on(s, sep) == seq![s],
    decreases s.len(),
{
    if s.len() > 0 {
        assert(forall|i: int| 0 <= i < s.len() - 1 ==> s.drop_first()[i] == s[i + 1]);
        lemma_split_no_sep(s.drop_first(), sep);
        assert(split_on(s, sep) =~= seq![seq![s[0]] + s.drop_first()]);
        assert(seq![s[0]] + s.drop_first() =~= s);
        assert(split_on(s, sep) =~= seq![s]);
    }
}

/// The first separator closes the first token: splitting `t + sep + r` with
/// a separator-free `t` yields `t` followed by the split of `r`.
proof fn lemma_split_first(t: Seq<char>, r: Seq<char>, sep: char)
    requires
        forall|i: int| 0 <= i < t.len() ==> t[i] != sep,
    ensures
        split_on(t + seq![sep] + r, sep) == seq![t] + split_on(r, sep),
    decreases t.len(),
{
    let s = t + seq![sep] + r;
    if t.len() == 0 {
        assert(s[0] == sep);
        assert(s.drop_first() =~= r);
        assert(split_on(s, sep) =~= seq![Seq::<char>::empty()] + split_on(r, sep));
        assert(t =~= Seq::<char>::empty());
    } else {
        assert(s[0] == t[0] && t[0] != sep);
        assert(forall|i: int| 0 <= i < t.len() - 1 ==> t.drop_first()[i] == t[i + 1]);
        assert(s.drop_first() =~= t.drop_first() + seq![sep] + r);
        lemma_split_first(t.drop_first(), r, sep);
        lemma_split_nonempty(r, sep);
        let rest = split_on(s.drop_first(), sep);
        assert(rest == seq![t.drop_first()] + split_on(r, sep));
        assert(rest[0] == t.drop_first());
        assert(seq![s[0]] + rest[0] =~= t);
        assert(rest.drop_first() =~= split_on(r, sep));
        assert(split_on(s, sep) =~= seq![t] + split_on(r, sep));
    }
}

/// Splits a string at every occurrence of `sep`, like `str::split`: the
/// tokens between the separators, with empty tokens kept.
pub fn split_string(s: &str, sep: char) -> (v: Vec<String>)
    ensures
        v.deep_view() == split_on(s@, sep),
{
    let len = s.unicode_len();
    let mut tokens: Vec<String> = Vec::new();
    let mut start: usize = 0;
    let mut i: usize = 0;
    proof {
        assert(s@.skip(0) =~= s@);
        assert(tokens.deep_view() =~= Seq::<Seq<char>>::empty());
        assert(split_on(s@, sep) =~= tokens.deep_view() + split_on(s@, sep));
    }
    while i < len
        invariant
            start <= i <= len,
            len == s@.len(),
            forall|j: int| start <= j < i ==> s@[j] != sep,
            split_on(s@, sep) == tokens.deep_view() + split_on(s@.skip(start as int), sep),
        decreases len - i,
    {
        if s.get_char(i) == sep {
            let token = String::from_str(s.substring_char(start, i));
            let ghost toks_before = tokens.deep_view();
            tokens.push(token);
            proof {
                let t = s@.subrange(start as int, i as int);
                assert(forall|j: int| 0 <= j < t.len() ==> t[j] != sep);
                assert(s@.skip(start as int) =~= t + seq![sep] + s@.skip(i + 1));
                lemma_split_first(t, s@.skip(i + 1), sep);
                assert(tokens.deep_view() =~= toks_before + seq![t]);
                assert(split_on(s@, sep) =~= tokens.deep_view() + split_on(
                    s@.skip(i + 1),
                    sep,
                ));
            }
            start = i + 1;
        }
        i = i + 1;
    }
    let token = String::from_str(s.substring_char(start, len));
    let ghost toks_before = tokens.deep_view();
    tokens.push(token);
    proof {
        let t = s@.subrange(start as int, len as int);
        assert(t =~= s@.skip(start as int));
        assert(forall|j: int| 0 <= j < t.len() ==> t[j] != sep);
        lemma_split_no_sep(t, sep);
        assert(tokens.deep_view() =~= toks_before + seq![t]);
        assert(split_on(s@, sep) =~= tokens.deep_view());
    }
    tokens
}

/// The non-empty entries of a token list, in order.
pub open spec fn nonempty_tokens(parts: Seq<Seq<char>>) -> Seq<Seq<char>>
    decreases parts.len(),
{
    if parts.len() == 0 {
        Seq::<Seq<char>>::empty()
    } else if parts[0].len() > 0 {
        seq![parts[0]] + nonempty_tokens(parts.drop_first())
    } else {
        nonempty_tokens(parts.drop_first())
    }
}

/// The whitespace-separated fields of a line: the maximal runs of
/// non-space characters.
pub open spec fn space_fields(s: Seq<char>) -> Seq<Seq<char>> {
    nonempty_tokens(split_on(s, ' '))
}

/// Appending a token appends it to the non-empty entries exactly when it is
/// non-empty.
proof fn lemma_nonempty_tokens_snoc(parts: Seq<Seq<char>>, t: Seq<char>)
    ensures
        nonempty_tokens(parts.push(t)) == nonempty_tokens(parts) + (if t.len() > 0 {
            seq![t]
        } else {
            Seq::<Seq<char>>::empty()
        }),
    decreases parts.len(),
{
    let tail = (if t.len() > 0 {
        seq![t]
    } else {
        Seq::<Seq<char>>::empty()
    });
    if parts.len() == 0 {
        assert(parts.push(t) =~= seq![t]);
        assert(seq![t].drop_first() =~= Seq::<Seq<char>>::empty());
        assert(nonempty_tokens(Seq::<Seq<char>>::empty()) =~= Seq::<Seq<char>>::empty());
        assert(nonempty_tokens(parts.push(t)) =~= nonempty_tokens(parts) + tail);
    } else {
        lemma_nonempty_tokens_snoc(parts.drop_first(), t);
        assert(parts.push(t).drop_first() =~= parts.drop_first().push(t));
        assert(parts.push(t)[0] == parts[0]);
        assert(nonempty_tokens(parts.push(t)) =~= nonempty_tokens(parts) + tail);
    }
}

/// Splits a line into its whitespace-separated fields, like
/// `str::split_whitespace` over spaces.
pub fn split_fields(s: &str) -> (v: Vec<String>)
    ensures
        v.deep_view() == space_fields(s@),
{
    let parts = split_string(s, ' ');
    let mut fields: Vec<String> = Vec::new();
    let mut i: usize = 0;
    proof {
        assert(parts.deep_view().take(0) =~= Seq::<Seq<char>>::empty());
        assert(fields.deep_view() =~= nonempty_tokens(parts.deep_view().take(0)));
    }
    while i < parts.len()
        invariant
            i <= parts@.len(),
            parts.deep_view() == split_on(s@, ' '),
            fields.deep_view() == nonempty_tokens(parts.deep_view().take(i as int)),
        decreases parts@.len() - i,
    {
        let ghost fields_before = fields.deep_view();
        if !parts[i].as_str().is_empty() {
            fields.push(parts[i].clone());
            proof {
                assert(fields.deep_view() =~= fields_before + seq![parts.deep_view()[i as int]]);
            }
        }
        proof {
            assert(parts.deep_view().take(i + 1) =~= parts.deep_view().take(i as int).push(
                parts.deep_view()[i as int],
            ));
            lemma_nonempty_tokens_snoc(parts.deep_view().take(i as int), parts.deep_view()[
            i as int]);
        }
        i = i + 1;
    }
    proof {
        assert(parts.deep_view().take(parts@.len() as int) =~= parts.deep_view());
    }
    fields
}

/// The decimal digits of a number, most significant first.
pub open spec fn dec_chars(n: nat) -> Seq<char>
    decreases n,
{
    if n < 10 {
        seq![((48 + n) as u8) as char]
    } else {
        dec_chars(n / 10) + seq![((48 + n % 10) as u8) as char]
    }
}

/// One decimal digit as a string.
fn digit_str(d: u8) -> (s: &'static str)
    requires
        d < 10,
    ensures
        s@ == seq![((48 + d) as u8) as char],
{
    proof {
        reveal_strlit("0");
        reveal_strlit("1");
        reveal_strlit("2");
        reveal_strlit("3");
        reveal_strlit("4");
        reveal_strlit("5");
        reveal_strlit("6");
        reveal_strlit("7");
        reveal_strlit("8");
        reveal_strlit("9");
    }
    if d == 0 {
        "0"
    } else if d == 1 {
        "1"
    } else if d == 2 {
        "2"
    } else if d == 3 {
        "3"
    } else if d == 4 {
        "4"
    } else if d == 5 {
        "5"
    } else if d == 6 {
        "6"
    } else if d == 7 {
        "7"
    } else if d == 8 {
        "8"
    } else {
        "9"
    }
}

/// The decimal string of a 16-bit number, as `u16` values print.
pub fn u16_to_decimal(n: u16) -> (s: String)
    ensures
        s@ == dec_chars(n as nat),
    decreases n,
{
    if n < 10 {
        String::from_str(digit_str(n as u8))
    } else {
        let mut s = u16_to_decimal(n / 10);
        s.append(digit_str((n % 10) as u8));
        s
    }
}

/// A decimal digit.
pub open spec fn is_digit(c: char) -> bool {
    '0' <= c && c <= '9'
}

/// The value of one decimal digit.
pub open spec fn digit_val(c: char) -> nat
    recommends
        is_digit(c),
{
    ((c as u8) - 48) as nat
}

/// Every character of `s` is a decimal digit.
pub open spec fn all_digits(s: Seq<char>) -> bool {
    forall|i: int| 0 <= i < s.len() ==> is_digit(#[trigger] s[i])
}

/// The number a digit string denotes, most significant digit first.
pub open spec fn digits_value(s: Seq<char>) -> nat
    decreases s.len(),
{
    if s.len() == 0 {
        0
    } else {
        digits_value(s.drop_last()) * 10 + digit_val(s.last())
    }
}

/// The digit part of a signed decimal literal: everything after a leading
/// sign, if any.
pub open spec fn signed_body(s: Seq<char>) -> Seq<char> {
    if s.len() > 0 && (s[0] == '-' || s[0] == '+') {
        s.drop_first()
    } else {
        s
    }
}

/// The digit part of an unsigned decimal literal: everything after a
/// leading plus, if any.
pub open spec fn unsigned_body(s: Seq<char>) -> Seq<char> {
    if s.len() > 0 && s[0] == '+' {
        s.drop_first()
    } else {
        s
    }
}

/// What `str::parse::<i32>` accepts: an optional sign, then at least one
/// digit, denoting a value within the 32-bit signed range.
pub open spec fn spec_parse_i32(s: Seq<char>) -> Option<int> {
    let body = signed_body(s);
    let negative = s.len() > 0 && s[0] == '-';
    if body.len() == 0 || !all_digits(body) {
        None
    } else {
        let v = if negative {
            -(digits_value(body) as int)
        } else {
            digits_value(body) as int
        };
        if i32::MIN <= v <= i32::MAX {
            Some(v)
        } else {
            None
        }
    }
}

/// Growing a digit string never shrinks its value.
proof fn lemma_digits_value_extend(t: Seq<char>, k: int)
    requires
        0 <= k <= t.len(),
    ensures
        digits_value(t) >= digits_value(t.take(k)),
    decreases t.len() - k,
{
    if k < t.len() {
        assert(t.take(k + 1).drop_last() =~= t.take(k));
        assert(t.take(k + 1).last() == t[k]);
        assert(digits_value(t.take(k + 1)) == digits_value(t.take(k)) * 10 + digit_val(t[k]));
        lemma_digits_value_extend(t, k + 1);
    } else {
        assert(t.take(k) =~= t);
    }
}

/// Parses a signed 32-bit decimal integer exactly as `str::parse::<i32>`
/// does.
pub fn parse_i32(s: &str) -> (r: Option<i32>)
    ensures
        match spec_parse_i32(s@) {
            Some(v) => r matches Some(x) && x == v,
            None => r is None,
        },
{
    let len = s.unicode_len();
    if len == 0 {
        return None;
    }
    let first = s.get_char(0);
    let negative = first == '-';
    let start: usize = if first == '-' || first == '+' {
        1
    } else {
        0
    };
    let ghost body: Seq<char> = signed_body(s@);
    proof {
        if start == 0 {
            assert(body =~= s@);
        } else {
            assert(body =~= s@.drop_first());
            assert(body =~= s@.skip(1));
        }
    }
    if start == len {
        return None;
    }
    let mut acc: u64 = 0;
    let mut big: bool = false;
    let mut i: usize = start;
    while i < len
        invariant
            start <= i <= len,
            len == s@.len(),
            start <= 1,
            body == signed_body(s@),
            body == s@.skip(start as int),
            all_digits(body.take(i - start)),
            !big ==> acc == digits_value(body.take(i - start)) && acc <= 0x8000_0000,
            big ==> digits_value(body.take(i - start)) > 0x8000_0000,
        decreases len - i,
    {
        let c = s.get_char(i);
        if c < '0' || c > '9' {
            proof {
                assert(body[i - start] == c);
                assert(!is_digit(body[i - start]));
            }
            return None;
        }
        let d: u8 = (c as u8) - 48;
        proof {
            assert(body.take(i + 1 - start).drop_last() =~= body.take(i - start));
            assert(body.take(i + 1 - start).last() == body[i - start]);
            assert(body[i - start] == c);
        }
        if big {
            proof {
                let prev = digits_value(body.take(i - start));
                assert(digits_value(body.take(i + 1 - start)) == prev * 10 + digit_val(c));
                assert(prev * 10 >= prev) by (nonlinear_arith)
                    requires
                        prev >= 0,
                ;
            }
        } else {
            acc = acc * 10 + (d as u64);
            if acc > 0x8000_0000 {
                big = true;
            }
        }
        i = i + 1;
    }
    proof {
        assert(body.take(len - start) =~= body);
    }
    if big {
        return None;
    }
    if negative {
        Some((-(acc as i64)) as i32)
    } else {
        if acc > 0x7FFF_FFFF {
            None
        } else {
            Some(acc as i32)
        }
    }
}

/// The number a string parses to as a 32-bit signed integer, or zero when
/// it does not parse, the usual fallback when a protocol field is loose.
pub open spec fn parse_or_zero(s: Seq<char>) -> int {
    match spec_parse_i32(s) {
        Some(v) => v,
        None => 0,
    }
}

/// Parses a signed 32-bit decimal integer, falling back to zero.
pub fn parse_i32_or_zero(s: &str) -> (r: i32)
    ensures
        r as int == parse_or_zero(s@),
{
    match parse_i32(s) {
        Some(v) => v,
        None => 0,
    }
}

/// What `str::parse::<u16>` accepts: an optional plus sign, then at least
/// one digit, denoting a value of at most 65535.
pub open spec fn spec_parse_u16(s: Seq<char>) -> Option<u16> {
    let body = unsigned_body(s);
    if body.len() == 0 || !all_digits(body) {
        None
    } else if digits_value(body) <= u16::MAX {
        Some(digits_value(body) as u16)
    } else {
        None
    }
}

/// Parses an unsigned 16-bit decimal integer exactly as `str::parse::<u16>`
/// does.
pub fn parse_u16(s: &str) -> (r: Option<u16>)
    ensures
        r == spec_parse_u16(s@),
{
    let len = s.unicode_len();
    if len == 0 {
        return None;
    }
    let start: usize = if s.get_char(0) == '+' {
        1
    } else {
        0
    };
    let ghost body: Seq<char> = unsigned_body(s@);
    proof {
        if start == 0 {
            assert(body =~= s@);
        } else {
            assert(body =~= s@.drop_first());
            assert(body =~= s@.skip(1));
        }
    }
    if start == len {
        return None;
    }
    let mut acc: u32 = 0;
    let mut big: bool = false;
    let mut i: usize = start;
    while i < len
        invariant
            start <= i <= len,
            len == s@.len(),
            start <= 1,
            body == unsigned_body(s@),
            body == s@.skip(start as int),
            all_digits(body.take(i - start)),
            !big ==> acc == digits_value(body.take(i - start)) && acc <= 0xFFFF,
            big ==> digits_value(body.take(i - start)) > 0xFFFF,
        decreases len - i,
    {
        let c = s.get_char(i);
        if c < '0' || c > '9' {
            proof {
                assert(body[i - start] == c);
                assert(!is_digit(body[i - start]));
            }
            return None;
        }
        let d: u8 = (c as u8) - 48;
        proof {
            assert(body.take(i + 1 - start).drop_last() =~= body.take(i - start));
            assert(body.take(i + 1 - start).last() == body[i - start]);
            assert(body[i - start] == c);
        }
        if big {
            proof {
                let prev = digits_value(body.take(i - start));
                assert(digits_value(body.take(i + 1 - start)) == prev * 10 + digit_val(c));
                assert(prev * 10 >= prev) by (nonlinear_arith)
                    requires
                        prev >= 0,
                ;
            }
        } else {
            acc = acc * 10 + (d as u32);
            if acc > 0xFFFF {
                big = true;
            }
        }
        i = i + 1;
    }
    proof {
        assert(body.take(len - start) =~= body);
    }
    if big {
        return None;
    }
    Some(acc as u16)
}

} // verus!
