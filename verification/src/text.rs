//! Verified helpers for the character-level work the engine does on keys,
//! paths and wire strings: equality, substring search, splitting on a
//! delimiter, joining, and decimal parsing / printing.

use vstd::prelude::*;

verus! {

/// True when the needle `n` occurs in `h` starting at index `i`.
pub open spec fn matches_at(h: Seq<char>, n: Seq<char>, i: int) -> bool {
    0 <= i && i + n.len() <= h.len() && h.subrange(i, i + n.len() as int) == n
}

/// True when the needle `n` occurs somewhere in `h`.
pub open spec fn contains_seq(h: Seq<char>, n: Seq<char>) -> bool {
    exists|i: int| matches_at(h, n, i)
}

/// Character-for-character equality of two string slices.
pub fn str_eq(a: &str, b: &str) -> (r: bool)
    ensures
        r == (a@ == b@),
{
    let alen = a.unicode_len();
    let blen = b.unicode_len();
    if alen != blen {
        return false;
    }
    let mut i: usize = 0;
    while i < alen
        invariant
            alen == a@.len(),
            blen == b@.len(),
            alen == blen,
            i <= alen,
            forall|j: int| 0 <= j < i ==> a@[j] == b@[j],
        decreases alen - i,
    {
        if a.get_char(i) != b.get_char(i) {
            return false;
        }
        i += 1;
    }
    proof {
        assert(a@ =~= b@);
    }
    true
}

/// Does `h` match `n` at position `i`? Helper for the searches below.
fn check_match_at(h: &str, n: &str, i: usize) -> (r: bool)
    requires
        i + n@.len() <= h@.len(),
        h@.len() <= usize::MAX,
    ensures
        r == matches_at(h@, n@, i as int),
{
    let nlen = n.unicode_len();
    let mut j: usize = 0;
    while j < nlen
        invariant
            nlen == n@.len(),
            i + nlen <= h@.len(),
            h@.len() <= usize::MAX,
            j <= nlen,
            forall|k: int| 0 <= k < j ==> h@[i + k] == n@[k],
        decreases nlen - j,
    {
        if h.get_char(i + j) != n.get_char(j) {
            proof {
                assert(h@.subrange(i as int, i + n@.len() as int)[j as int] != n@[j as int]);
            }
            return false;
        }
        j += 1;
    }
    proof {
        assert(h@.subrange(i as int, i + n@.len() as int) =~= n@);
    }
    true
}

/// Leftmost occurrence of `n` in `h`, if any.
pub fn find_first(h: &str, n: &str) -> (r: Option<usize>)
    ensures
        match r {
            Some(i) => matches_at(h@, n@, i as int) && forall|j: int|
                0 <= j < i ==> !matches_at(h@, n@, j),
            None => !contains_seq(h@, n@),
        },
{
    let hlen = h.unicode_len();
    let nlen = n.unicode_len();
    if nlen > hlen {
        return None;
    }
    if nlen == 0 {
        proof {
            assert(h@.subrange(0, 0) =~= n@);
        }
        return Some(0);
    }
    let mut i: usize = 0;
    while i <= hlen - nlen
        invariant
            hlen == h@.len(),
            nlen == n@.len(),
            1 <= nlen <= hlen,
            i <= hlen - nlen + 1,
            forall|j: int| 0 <= j < i ==> !matches_at(h@, n@, j),
        decreases hlen + 1 - nlen - i,
    {
        if check_match_at(h, n, i) {
            return Some(i);
        }
        i += 1;
    }
    None
}

/// Does `h` contain `n` anywhere?
pub fn str_contains(h: &str, n: &str) -> (r: bool)
    ensures
        r == contains_seq(h@, n@),
{
    match find_first(h, n) {
        Some(_) => true,
        None => false,
    }
}

/// Splitting a character sequence on a delimiter. The result always has at
/// least one part; splitting the empty sequence gives one empty part.
pub open spec fn split_seq(s: Seq<char>, d: char) -> Seq<Seq<char>>
    decreases s.len(),
{
    if s.len() == 0 {
        seq![Seq::<char>::empty()]
    } else if s[0] == d {
        seq![Seq::<char>::empty()] + split_seq(s.subrange(1, s.len() as int), d)
    } else {
        let rest = split_seq(s.subrange(1, s.len() as int), d);
        seq![seq![s[0]] + rest[0]] + rest.subrange(1, rest.len() as int)
    }
}

/// Joining parts with a delimiter; the inverse of `split_seq`.
pub open spec fn join_seq(parts: Seq<Seq<char>>, d: char) -> Seq<char>
    decreases parts.len(),
{
    if parts.len() == 0 {
        Seq::<char>::empty()
    } else if parts.len() == 1 {
        parts[0]
    } else {
        parts[0] + seq![d] + join_seq(parts.subrange(1, parts.len() as int), d)
    }
}

pub proof fn lemma_split_len(s: Seq<char>, d: char)
    ensures
        split_seq(s, d).len() >= 1,
    decreases s.len(),
{
    if s.len() == 0 {
    } else if s[0] == d {
        lemma_split_len(s.subrange(1, s.len() as int), d);
    } else {
        lemma_split_len(s.subrange(1, s.len() as int), d);
    }
}

/// Joining undoes splitting.
pub proof fn lemma_join_split(s: Seq<char>, d: char)
    ensures
        join_seq(split_seq(s, d), d) == s,
    decreases s.len(),
{
    if s.len() == 0 {
        assert(join_seq(split_seq(s, d), d) =~= s);
    } else {
        let tail = s.subrange(1, s.len() as int);
        lemma_join_split(tail, d);
        lemma_split_len(tail, d);
        let rest = split_seq(tail, d);
        if s[0] == d {
            let r = split_seq(s, d);
            assert(r.subrange(1, r.len() as int) =~= rest);
            assert(join_seq(r, d) == Seq::<char>::empty() + seq![d] + join_seq(rest, d));
            assert(join_seq(r, d) =~= s);
        } else {
            let r = split_seq(s, d);
            assert(r[0] == seq![s[0]] + rest[0]);
            if rest.len() == 1 {
                assert(r.len() == 1);
                assert(join_seq(r, d) == seq![s[0]] + rest[0]);
                assert(join_seq(rest, d) == rest[0]);
                assert(join_seq(r, d) =~= s);
            } else {
                assert(r.subrange(1, r.len() as int) =~= rest.subrange(1, rest.len() as int));
                assert(join_seq(r, d) == (seq![s[0]] + rest[0]) + seq![d] + join_seq(
                    rest.subrange(1, rest.len() as int),
                    d,
                ));
                assert(join_seq(rest, d) == rest[0] + seq![d] + join_seq(
                    rest.subrange(1, rest.len() as int),
                    d,
                ));
                assert(join_seq(r, d) =~= seq![s[0]] + join_seq(rest, d));
                assert(join_seq(r, d) =~= s);
            }
        }
    }
}

/// When the first `k` characters are free of the delimiter and `s[k]` is the
/// delimiter, the first part of the split is exactly those `k` characters.
proof fn lemma_split_at_delim(s: Seq<char>, d: char, k: int)
    requires
        0 <= k < s.len(),
        s[k] == d,
        forall|j: int| 0 <= j < k ==> s[j] != d,
    ensures
        split_seq(s, d) == seq![s.subrange(0, k)] + split_seq(s.subrange(k + 1, s.len() as int), d),
    decreases k,
{
    if k == 0 {
        assert(s.subrange(0, 0) =~= Seq::<char>::empty());
        assert(s.subrange(1, s.len() as int) =~= s.subrange(k + 1, s.len() as int));
    } else {
        let tail = s.subrange(1, s.len() as int);
        lemma_split_at_delim(tail, d, k - 1);
        lemma_split_len(s.subrange(k + 1, s.len() as int), d);
        let rest = split_seq(tail, d);
        assert(tail.subrange(k, tail.len() as int) =~= s.subrange(k + 1, s.len() as int));
        assert(rest == seq![tail.subrange(0, k - 1)] + split_seq(
            s.subrange(k + 1, s.len() as int),
            d,
        ));
        assert(seq![s[0]] + rest[0] =~= s.subrange(0, k));
        let r = split_seq(s, d);
        assert(r.subrange(1, r.len() as int) =~= split_seq(s.subrange(k + 1, s.len() as int), d));
        assert(r =~= seq![s.subrange(0, k)] + split_seq(s.subrange(k + 1, s.len() as int), d));
    }
}

/// When `s` is free of the delimiter, the split is a single part: `s` itself.
proof fn lemma_split_no_delim(s: Seq<char>, d: char)
    requires
        forall|j: int| 0 <= j < s.len() ==> s[j] != d,
    ensures
        split_seq(s, d) == seq![s],
    decreases s.len(),
{
    if s.len() == 0 {
        assert(split_seq(s, d) =~~= seq![s]);
    } else {
        let tail = s.subrange(1, s.len() as int);
        lemma_split_no_delim(tail, d);
        assert(seq![s[0]] + tail =~= s);
        let rest = split_seq(tail, d);
        let r = split_seq(s, d);
        assert(r.subrange(1, r.len() as int) =~~= Seq::<Seq<char>>::empty());
        assert(r =~~= seq![s]);
    }
}

/// Split a string slice on a delimiter character, producing owned segments.
pub fn split_str(s: &str, d: char) -> (r: Vec<String>)
    ensures
        r.deep_view() == split_seq(s@, d),
        r.len() >= 1,
{
    let len = s.unicode_len();
    let mut parts: Vec<String> = Vec::new();
    let mut start: usize = 0;
    let mut i: usize = 0;
    proof {
        assert(s@.subrange(0, len as int) =~= s@);
        assert(parts.deep_view() + split_seq(s@.subrange(0, len as int), d) =~~= split_seq(
            s@,
            d,
        ));
    }
    while i < len
        invariant
            len == s@.len(),
            start <= i <= len,
            forall|j: int| start <= j < i ==> s@[j] != d,
            split_seq(s@, d) == parts.deep_view() + split_seq(
                s@.subrange(start as int, len as int),
                d,
            ),
        decreases len - i,
    {
        if s.get_char(i) == d {
            let seg = s.substring_char(start, i);
            let seg_string = seg.to_owned();
            proof {
                let suff = s@.subrange(start as int, len as int);
                lemma_split_at_delim(suff, d, i - start);
                assert(suff.subrange(0, i - start) =~= s@.subrange(start as int, i as int));
                assert(suff.subrange(i - start + 1, suff.len() as int) =~= s@.subrange(
                    i + 1,
                    len as int,
                ));
                assert((parts.deep_view() + seq![seg_string@]) + split_seq(
                    s@.subrange(i + 1, len as int),
                    d,
                ) =~= parts.deep_view() + split_seq(s@.subrange(start as int, len as int), d));
            }
            parts.push(seg_string);
            proof {
                assert(parts.deep_view() =~= parts.deep_view().subrange(
                    0,
                    parts.deep_view().len() - 1,
                ) + seq![parts.deep_view().last()]);
            }
            start = i + 1;
        }
        i += 1;
    }
    let seg = s.substring_char(start, len);
    let seg_string = seg.to_owned();
    parts.push(seg_string);
    proof {
        let suff = s@.subrange(start as int, len as int);
        lemma_split_no_delim(suff, d);
        assert(parts.deep_view() =~= parts.deep_view().subrange(0, parts.deep_view().len() - 1)
            + seq![suff]);
        assert(parts.deep_view() =~= split_seq(s@, d));
    }
    parts
}

/// Join the segments `parts[from..]` with the single-character separator
/// `sep`, the executable counterpart of `join_seq`.
pub fn join_from(parts: &Vec<String>, from: usize, sep: &str) -> (r: String)
    requires
        sep@.len() == 1,
        from <= parts.len(),
    ensures
        r@ == join_seq(
            parts.deep_view().subrange(from as int, parts.deep_view().len() as int),
            sep@[0],
        ),
    decreases parts.len() - from,
{
    let ghost tail = parts.deep_view().subrange(from as int, parts.deep_view().len() as int);
    if from >= parts.len() {
        proof {
            assert(tail =~~= Seq::<Seq<char>>::empty());
        }
        String::new()
    } else if from + 1 == parts.len() {
        let r = parts[from].clone();
        proof {
            assert(tail.len() == 1);
            assert(tail[0] == parts.deep_view()[from as int]);
        }
        r
    } else {
        let mut r = parts[from].clone();
        r.append(sep);
        let rest = join_from(parts, from + 1, sep);
        r.append(rest.as_str());
        proof {
            assert(tail.subrange(1, tail.len() as int) =~= parts.deep_view().subrange(
                from + 1,
                parts.deep_view().len() as int,
            ));
            assert(seq![sep@[0]] =~= sep@);
            assert(r@ =~= join_seq(tail, sep@[0]));
        }
        r
    }
}

/// Decimal digits and their values.
pub open spec fn is_dec_digit(c: char) -> bool {
    '0' <= c && c <= '9'
}

pub open spec fn digit_val(c: char) -> int {
    c as int - '0' as int
}

pub open spec fn all_digits(s: Seq<char>) -> bool {
    forall|i: int| 0 <= i < s.len() ==> is_dec_digit(#[trigger] s[i])
}

/// The numeric value of a sequence of decimal digits, most significant first.
pub open spec fn digits_val(s: Seq<char>) -> int
    decreases s.len(),
{
    if s.len() == 0 {
        0
    } else {
        digits_val(s.drop_last()) * 10 + digit_val(s.last())
    }
}

/// The digit run of a decimal integer string, past any single leading sign.
pub open spec fn dec_body(s: Seq<char>) -> Seq<char> {
    if s.len() > 0 && (s[0] == '-' || s[0] == '+') {
        s.subrange(1, s.len() as int)
    } else {
        s
    }
}

pub open spec fn dec_negative(s: Seq<char>) -> bool {
    s.len() > 0 && s[0] == '-'
}

/// An optional sign followed by one or more decimal digits.
pub open spec fn is_dec_int_str(s: Seq<char>) -> bool {
    dec_body(s).len() > 0 && all_digits(dec_body(s))
}

pub open spec fn dec_int_val(s: Seq<char>) -> int {
    if dec_negative(s) {
        -digits_val(dec_body(s))
    } else {
        digits_val(dec_body(s))
    }
}

/// A decimal string whose value fits in an `i64`.
pub open spec fn is_i64_str(s: Seq<char>) -> bool {
    is_dec_int_str(s) && i64::MIN <= dec_int_val(s) <= i64::MAX
}

/// A decimal string (no minus sign) whose value fits in a `u32`.
pub open spec fn is_u32_str(s: Seq<char>) -> bool {
    is_dec_int_str(s) && !dec_negative(s) && dec_int_val(s) <= u32::MAX
}

proof fn lemma_digits_val_nonneg(s: Seq<char>)
    requires
        all_digits(s),
    ensures
        digits_val(s) >= 0,
    decreases s.len(),
{
    if s.len() > 0 {
        assert(all_digits(s.drop_last())) by {
            assert(forall|i: int|
                0 <= i < s.len() - 1 ==> s.drop_last()[i] == #[trigger] s[i]);
        }
        lemma_digits_val_nonneg(s.drop_last());
    }
}

/// A longer digit run never has a smaller value than any of its prefixes.
proof fn lemma_digits_val_prefix(s: Seq<char>, i: int)
    requires
        all_digits(s),
        0 <= i <= s.len(),
    ensures
        digits_val(s.subrange(0, i)) <= digits_val(s),
    decreases s.len() - i,
{
    if i == s.len() {
        assert(s.subrange(0, i) =~= s);
    } else {
        let p = s.subrange(0, i + 1);
        assert(all_digits(p)) by {
            assert(forall|j: int| 0 <= j < p.len() ==> p[j] == #[trigger] s[j]);
        }
        assert(p.drop_last() =~= s.subrange(0, i));
        lemma_digits_val_nonneg(s.subrange(0, i));
        assert(digits_val(p) == digits_val(s.subrange(0, i)) * 10 + digit_val(s[i]));
        assert(digits_val(s.subrange(0, i)) <= digits_val(p)) by {
            lemma_digits_val_nonneg(p.drop_last());
        }
        lemma_digits_val_prefix(s, i + 1);
    }
}

/// Digit value of a digit character, or `None` when `c` is not a digit.
fn char_digit(c: char) -> (r: Option<u64>)
    ensures
        match r {
            Some(d) => is_dec_digit(c) && d == digit_val(c) && d < 10,
            None => !is_dec_digit(c),
        },
{
    match c {
        '0' => Some(0),
        '1' => Some(1),
        '2' => Some(2),
        '3' => Some(3),
        '4' => Some(4),
        '5' => Some(5),
        '6' => Some(6),
        '7' => Some(7),
        '8' => Some(8),
        '9' => Some(9),
        _ => None,
    }
}

/// The value of the digit run `s[from..]`, or `None` when it is empty,
/// contains a non-digit, or its value exceeds `cap`.
fn parse_magnitude(s: &str, from: usize, cap: u64) -> (r: Option<u64>)
    requires
        from <= s@.len(),
        s@.len() <= usize::MAX,
        cap <= 9223372036854775808u64,
    ensures
        match r {
            Some(v) => {
                let body = s@.subrange(from as int, s@.len() as int)
                ;
                body.len() > 0 && all_digits(body) && v == digits_val(body) && v <= cap
            },
            None => {
                let body = s@.subrange(from as int, s@.len() as int)
                ;
                body.len() == 0 || !all_digits(body) || digits_val(body) > cap
            },
        },
{
    let len = s.unicode_len();
    if from >= len {
        return None;
    }
    let ghost body = s@.subrange(from as int, s@.len() as int);
    let mut acc: u64 = 0;
    let mut i: usize = from;
    while i < len
        invariant
            len == s@.len(),
            from <= i <= len,
            body == s@.subrange(from as int, s@.len() as int),
            all_digits(body.subrange(0, i - from)),
            acc == digits_val(body.subrange(0, i - from)),
            acc <= cap,
            cap <= 9223372036854775808u64,
        decreases len - i,
    {
        let c = s.get_char(i);
        let d = match char_digit(c) {
            Some(d) => d,
            None => {
                proof {
                    assert(!is_dec_digit(body[i - from]));
                }
                return None;
            },
        };
        proof {
            assert(body.subrange(0, i + 1 - from).drop_last() =~= body.subrange(0, i - from));
            assert(body.subrange(0, i + 1 - from).last() == c);
        }
        if acc > (u64::MAX - 9) / 10 || acc * 10 > u64::MAX - d || acc * 10 + d > cap {
            proof {
                let pref = body.subrange(0, i + 1 - from);
                assert(all_digits(pref));
                assert(digits_val(pref) == digits_val(pref.drop_last()) * 10 + digit_val(
                    pref.last(),
                ));
                assert(digits_val(pref) == acc * 10 + d);
                if all_digits(body) {
                    lemma_digits_val_prefix(body, i + 1 - from);
                    lemma_digits_val_nonneg(body.subrange(0, i - from));
                    assert(digits_val(body) >= digits_val(pref));
                    assert(digits_val(pref) > cap);
                }
            }
            return None;
        }
        acc = acc * 10 + d;
        proof {
            assert(all_digits(body.subrange(0, i + 1 - from)));
        }
        i += 1;
    }
    proof {
        assert(body.subrange(0, i - from) =~= body);
    }
    Some(acc)
}

/// Parse a decimal `i64`, accepting an optional leading `+` or `-`,
/// exactly on the strings `is_i64_str` describes.
pub fn parse_i64(s: &str) -> (r: Option<i64>)
    ensures
        match r {
            Some(v) => is_i64_str(s@) && v == dec_int_val(s@),
            None => !is_i64_str(s@),
        },
{
    let len = s.unicode_len();
    if len == 0 {
        return None;
    }
    let c0 = s.get_char(0);
    let negative = c0 == '-';
    let from: usize = if c0 == '-' || c0 == '+' {
        1
    } else {
        0
    };
    proof {
        assert(dec_body(s@) =~= s@.subrange(from as int, s@.len() as int));
    }
    if negative {
        match parse_magnitude(s, from, 9223372036854775808u64) {
            Some(mag) => {
                let v: i64 = if mag == 9223372036854775808u64 {
                    i64::MIN
                } else {
                    -(mag as i64)
                };
                Some(v)
            },
            None => None,
        }
    } else {
        match parse_magnitude(s, from, i64::MAX as u64) {
            Some(mag) => Some(mag as i64),
            None => None,
        }
    }
}

/// Parse a decimal `u32`, accepting an optional leading `+`,
/// exactly on the strings `is_u32_str` describes.
pub fn parse_u32(s: &str) -> (r: Option<u32>)
    ensures
        match r {
            Some(v) => is_u32_str(s@) && v == dec_int_val(s@),
            None => !is_u32_str(s@),
        },
{
    let len = s.unicode_len();
    if len == 0 {
        return None;
    }
    let c0 = s.get_char(0);
    if c0 == '-' {
        return None;
    }
    let from: usize = if c0 == '+' {
        1
    } else {
        0
    };
    proof {
        assert(dec_body(s@) =~= s@.subrange(from as int, s@.len() as int));
    }
    match parse_magnitude(s, from, u32::MAX as u64) {
        Some(mag) => Some(mag as u32),
        None => None,
    }
}

/// The character for a single decimal digit value.
pub open spec fn digit_char(n: int) -> char {
    if n == 0 {
        '0'
    } else if n == 1 {
        '1'
    } else if n == 2 {
        '2'
    } else if n == 3 {
        '3'
    } else if n == 4 {
        '4'
    } else if n == 5 {
        '5'
    } else if n == 6 {
        '6'
    } else if n == 7 {
        '7'
    } else if n == 8 {
        '8'
    } else {
        '9'
    }
}

/// The decimal rendering of a non-negative integer, no sign, no leading zeros.
pub open spec fn u_dec_str(n: int) -> Seq<char>
    decreases n,
{
    if n < 10 {
        seq![digit_char(n)]
    } else {
        u_dec_str(n / 10) + seq![digit_char(n % 10)]
    }
}

/// The decimal rendering of an integer, `-` prefixed when negative.
pub open spec fn i_dec_str(n: int) -> Seq<char> {
    if n < 0 {
        seq!['-'] + u_dec_str(-n)
    } else {
        u_dec_str(n)
    }
}

fn digit_str(d: u64) -> (r: &'static str)
    requires
        d < 10,
    ensures
        r@ == seq![digit_char(d as int)],
{
    proof {
        reveal_strlit("0");
        reveal_strlit("1");
        reveal_strlit("2");
        reveal_strlit("3");
        reveal_strlit("4");
        reveal_strlit("5");
        reveal_strlit("6");
        reveal_strlit("7");
        reveal_strlit("8");
        reveal_strlit("9");
    }
    let r = match d {
        0 => "0",
        1 => "1",
        2 => "2",
        3 => "3",
        4 => "4",
        5 => "5",
        6 => "6",
        7 => "7",
        8 => "8",
        _ => "9",
    };
    proof {
        assert(r@ =~= seq![digit_char(d as int)]);
    }
    r
}

/// Render a `u64` in decimal.
pub fn u64_to_string(n: u64) -> (r: String)
    ensures
        r@ == u_dec_str(n as int),
    decreases n,
{
    if n < 10 {
        digit_str(n).to_owned()
    } else {
        let mut prefix = u64_to_string(n / 10);
        prefix.append(digit_str(n % 10));
        prefix
    }
}

/// Render a `u32` in decimal.
pub fn u32_to_string(n: u32) -> (r: String)
    ensures
        r@ == u_dec_str(n as int),
{
    u64_to_string(n as u64)
}

/// Render an `i64` in decimal, `-` prefixed when negative.
pub fn i64_to_string(n: i64) -> (r: String)
    ensures
        r@ == i_dec_str(n as int),
{
    if n >= 0 {
        u64_to_string(n as u64)
    } else {
        let mag: u64 = if n == i64::MIN {
            9223372036854775808u64
        } else {
            (-n) as u64
        };
        let mut r = String::new();
        r.append("-");
        let digits = u64_to_string(mag);
        r.append(digits.as_str());
        proof {
            reveal_strlit("-");
            assert(r@ =~= i_dec_str(n as int));
        }
        r
    }
}

} // verus!
