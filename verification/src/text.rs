//! Character classes, string splitting and joining, and decimal
//! parsing/formatting for the string-encoded timestamps.
//!
//! Every on-disk format of the store (snapshot rows, seed rows, generation
//! log lines) is line- and comma-structured text over narrow ASCII character
//! classes, so all parsing below is explicit field splitting plus per-field
//! character-class validation.

use vstd::prelude::*;
use vstd::string::*;

verus! {

// ---------------------------------------------------------------------------
// Character classes
// ---------------------------------------------------------------------------

/// The character classes that fields of the on-disk formats draw from.
#[derive(Clone, Copy)]
pub enum CharKind {
    /// `0-9`
    Digit,
    /// `a-z0-9`: the shape of a shortcut slug.
    LowerAlnum,
    /// `0-9a-f`: a lowercase hexadecimal digit of an instance id.
    HexLower,
    /// `-a-zA-Z0-9@:%._+~#=`: the host portion of a shortcut target URL.
    Host,
    /// `a-zA-Z0-9()`: the top-level-domain portion of a target URL.
    Tld,
    /// `-a-zA-Z0-9()!@:%_+.~#?&/=`: the trailing portion of a target URL.
    Tail,
    /// `a-zA-Z0-9-._~`: the shape of a bearer token carried in a cookie.
    Token,
}

pub open spec fn is_digit(c: char) -> bool {
    '0' <= c && c <= '9'
}

pub open spec fn is_lower(c: char) -> bool {
    'a' <= c && c <= 'z'
}

pub open spec fn is_upper(c: char) -> bool {
    'A' <= c && c <= 'Z'
}

pub open spec fn char_in(k: CharKind, c: char) -> bool {
    match k {
        CharKind::Digit => is_digit(c),
        CharKind::LowerAlnum => is_digit(c) || is_lower(c),
        CharKind::HexLower => is_digit(c) || ('a' <= c && c <= 'f'),
        CharKind::Host => is_digit(c) || is_lower(c) || is_upper(c) || c == '-' || c == '@'
            || c == ':' || c == '%' || c == '.' || c == '_' || c == '+' || c == '~' || c == '#'
            || c == '=',
        CharKind::Tld => is_digit(c) || is_lower(c) || is_upper(c) || c == '(' || c == ')',
        CharKind::Tail => is_digit(c) || is_lower(c) || is_upper(c) || c == '-' || c == '('
            || c == ')' || c == '!' || c == '@' || c == ':' || c == '%' || c == '_' || c == '+'
            || c == '.' || c == '~' || c == '#' || c == '?' || c == '&' || c == '/' || c == '=',
        CharKind::Token => is_digit(c) || is_lower(c) || is_upper(c) || c == '-' || c == '.'
            || c == '_' || c == '~',
    }
}

/// Every character of `s` lies in class `k`.
pub open spec fn all_in(k: CharKind, s: Seq<char>) -> bool {
    forall|i: int| 0 <= i < s.len() ==> char_in(k, #[trigger] s[i])
}

fn char_in_exec(k: CharKind, c: char) -> (r: bool)
    ensures
        r == char_in(k, c),
{
    match k {
        CharKind::Digit => '0' <= c && c <= '9',
        CharKind::LowerAlnum => ('0' <= c && c <= '9') || ('a' <= c && c <= 'z'),
        CharKind::HexLower => ('0' <= c && c <= '9') || ('a' <= c && c <= 'f'),
        CharKind::Host => ('0' <= c && c <= '9') || ('a' <= c && c <= 'z') || ('A' <= c && c
            <= 'Z') || c == '-' || c == '@' || c == ':' || c == '%' || c == '.' || c == '_' || c
            == '+' || c == '~' || c == '#' || c == '=',
        CharKind::Tld => ('0' <= c && c <= '9') || ('a' <= c && c <= 'z') || ('A' <= c && c <= 'Z')
            || c == '(' || c == ')',
        CharKind::Tail => ('0' <= c && c <= '9') || ('a' <= c && c <= 'z') || ('A' <= c && c
            <= 'Z') || c == '-' || c == '(' || c == ')' || c == '!' || c == '@' || c == ':' || c
            == '%' || c == '_' || c == '+' || c == '.' || c == '~' || c == '#' || c == '?' || c
            == '&' || c == '/' || c == '=',
        CharKind::Token => ('0' <= c && c <= '9') || ('a' <= c && c <= 'z') || ('A' <= c && c
            <= 'Z') || c == '-' || c == '.' || c == '_' || c == '~',
    }
}

/// Check that a range `[from, to)` of `s` lies entirely in class `k`.
pub fn range_in(k: CharKind, s: &str, from: usize, to: usize) -> (r: bool)
    requires
        from <= to <= s@.len(),
    ensures
        r == all_in(k, s@.subrange(from as int, to as int)),
{
    let mut i = from;
    while i < to
        invariant
            from <= i <= to <= s@.len(),
            forall|j: int| from <= j < i ==> char_in(k, #[trigger] s@[j]),
        decreases to - i,
    {
        if !char_in_exec(k, s.get_char(i)) {
            assert(!all_in(k, s@.subrange(from as int, to as int))) by {
                assert(s@.subrange(from as int, to as int)[i - from] == s@[i as int]);
            }
            return false;
        }
        i = i + 1;
    }
    assert forall|j: int| 0 <= j < to - from implies char_in(
        k,
        #[trigger] s@.subrange(from as int, to as int)[j],
    ) by {
        assert(s@.subrange(from as int, to as int)[j] == s@[from + j]);
    }
    true
}

/// Check that all of `s` lies in class `k`.
pub fn str_in(k: CharKind, s: &str) -> (r: bool)
    ensures
        r == all_in(k, s@),
{
    let n = s.unicode_len();
    let r = range_in(k, s, 0, n);
    assert(s@.subrange(0, s@.len() as int) =~= s@);
    r
}

// ---------------------------------------------------------------------------
// String equality
// ---------------------------------------------------------------------------

/// Equality of two string slices, stated over their character sequences.
pub fn str_eq(a: &str, b: &str) -> (r: bool)
    ensures
        r == (a@ == b@),
{
    let x = a.to_owned();
    let y = b.to_owned();
    x == y
}

// ---------------------------------------------------------------------------
// Splitting and joining
// ---------------------------------------------------------------------------

/// Split `s` at every occurrence of `sep`. The result always has at least
/// one element; `n` separators yield `n + 1` fields, empty fields included.
pub open spec fn split_chars(s: Seq<char>, sep: char) -> Seq<Seq<char>>
    decreases s.len(),
{
    if s.len() == 0 {
        seq![Seq::<char>::empty()]
    } else {
        let r = split_chars(s.drop_last(), sep);
        if s.last() == sep {
            r.push(Seq::<char>::empty())
        } else {
            r.update(r.len() - 1, r.last().push(s.last()))
        }
    }
}

/// Concatenate `parts` with `sep` between consecutive elements.
pub open spec fn join_chars(parts: Seq<Seq<char>>, sep: char) -> Seq<char>
    decreases parts.len(),
{
    if parts.len() == 0 {
        Seq::<char>::empty()
    } else if parts.len() == 1 {
        parts[0]
    } else {
        join_chars(parts.drop_last(), sep).push(sep) + parts.last()
    }
}

/// Joining one more part appends a separator (unless nothing was joined
/// yet) and the part.
pub proof fn lemma_join_push(parts: Seq<Seq<char>>, x: Seq<char>, sep: char)
    ensures
        parts.len() == 0 ==> join_chars(parts.push(x), sep) == x,
        parts.len() > 0 ==> join_chars(parts.push(x), sep) == join_chars(parts, sep).push(sep)
            + x,
{
    assert(parts.push(x).drop_last() =~~= parts);
    assert(parts.push(x).last() == x);
    if parts.len() == 0 {
        assert(parts.push(x)[0] == x);
    }
}

pub proof fn lemma_split_len(s: Seq<char>, sep: char)
    ensures
        split_chars(s, sep).len() >= 1,
    decreases s.len(),
{
    if s.len() > 0 {
        lemma_split_len(s.drop_last(), sep);
    }
}

/// A sequence without the separator splits into exactly itself.
pub proof fn lemma_split_clean(s: Seq<char>, sep: char)
    requires
        forall|i: int| 0 <= i < s.len() ==> s[i] != sep,
    ensures
        split_chars(s, sep) == seq![s],
    decreases s.len(),
{
    if s.len() == 0 {
        assert(split_chars(s, sep) =~~= seq![s]);
    } else {
        assert(s.last() == s[s.len() - 1]);
        lemma_split_clean(s.drop_last(), sep);
        assert(split_chars(s, sep) =~~= seq![s]);
    }
}

/// Appending a separator appends one empty field.
pub proof fn lemma_split_push_sep(s: Seq<char>, sep: char)
    ensures
        split_chars(s.push(sep), sep) == split_chars(s, sep).push(Seq::<char>::empty()),
{
    assert(s.push(sep).drop_last() =~= s);
    assert(split_chars(s.push(sep), sep) =~~= split_chars(s, sep).push(Seq::<char>::empty()));
}

/// Appending separator-free text extends the final field.
pub proof fn lemma_split_push_clean(s: Seq<char>, tail: Seq<char>, sep: char)
    requires
        forall|i: int| 0 <= i < tail.len() ==> tail[i] != sep,
    ensures
        split_chars(s + tail, sep) == split_chars(s, sep).update(
            split_chars(s, sep).len() - 1,
            split_chars(s, sep).last() + tail,
        ),
    decreases tail.len(),
{
    lemma_split_len(s, sep);
    let base = split_chars(s, sep);
    if tail.len() == 0 {
        assert(s + tail =~= s);
        assert(base.last() + tail =~= base.last());
        assert(base.update(base.len() - 1, base.last() + tail) =~~= base);
    } else {
        assert(tail.last() == tail[tail.len() - 1]);
        lemma_split_push_clean(s, tail.drop_last(), sep);
        assert((s + tail).drop_last() =~= s + tail.drop_last());
        assert((s + tail).last() == tail.last());
        let mid = split_chars(s + tail.drop_last(), sep);
        assert(split_chars(s + tail, sep) == mid.update(mid.len() - 1, mid.last().push(
            tail.last(),
        )));
        assert(mid.last() == base.last() + tail.drop_last());
        assert((base.last() + tail.drop_last()).push(tail.last()) =~= base.last() + tail);
        assert(mid.update(mid.len() - 1, mid.last().push(tail.last())) =~~= base.update(
            base.len() - 1,
            base.last() + tail,
        ));
    }
}

/// Splitting inverts joining, provided no field contains the separator.
pub proof fn lemma_split_join(parts: Seq<Seq<char>>, sep: char)
    requires
        parts.len() >= 1,
        forall|i: int, j: int|
            0 <= i < parts.len() && 0 <= j < parts[i].len() ==> #[trigger] parts[i][j] != sep,
    ensures
        split_chars(join_chars(parts, sep), sep) == parts,
    decreases parts.len(),
{
    if parts.len() == 1 {
        lemma_split_clean(parts[0], sep);
        assert(split_chars(join_chars(parts, sep), sep) =~~= parts);
    } else {
        let fore = parts.drop_last();
        assert(forall|i: int, j: int|
            0 <= i < fore.len() && 0 <= j < fore[i].len() ==> #[trigger] fore[i][j] != sep);
        lemma_split_join(fore, sep);
        let a = join_chars(fore, sep);
        lemma_split_push_sep(a, sep);
        let b = split_chars(a.push(sep), sep);
        assert(b == fore.push(Seq::<char>::empty()));
        lemma_split_push_clean(a.push(sep), parts.last(), sep);
        assert(a.push(sep) + parts.last() == join_chars(parts, sep));
        assert(b.last() == Seq::<char>::empty());
        assert(Seq::<char>::empty() + parts.last() =~= parts.last());
        assert(b.update(b.len() - 1, b.last() + parts.last()) =~~= parts);
    }
}

/// No field produced by splitting contains the separator.
pub proof fn lemma_split_parts_clean(s: Seq<char>, sep: char)
    ensures
        forall|i: int, j: int|
            0 <= i < split_chars(s, sep).len() && 0 <= j < split_chars(s, sep)[i].len()
                ==> #[trigger] split_chars(s, sep)[i][j] != sep,
    decreases s.len(),
{
    if s.len() > 0 {
        lemma_split_parts_clean(s.drop_last(), sep);
        let fore = split_chars(s.drop_last(), sep);
        lemma_split_len(s.drop_last(), sep);
        assert forall|i: int, j: int|
            0 <= i < split_chars(s, sep).len() && 0 <= j < split_chars(s, sep)[i].len()
            implies #[trigger] split_chars(s, sep)[i][j] != sep by {
            if s.last() == sep {
                if i < fore.len() {
                    assert(split_chars(s, sep)[i] == fore[i]);
                }
            } else {
                if i < fore.len() - 1 {
                    assert(split_chars(s, sep)[i] == fore[i]);
                } else {
                    assert(split_chars(s, sep)[i] == fore.last().push(s.last()));
                    if j < fore.last().len() {
                        assert(fore[fore.len() - 1][j] != sep);
                    }
                }
            }
        }
    }
}

/// Splitting a concatenation: the first part's fields, except that its
/// final field merges with whatever the second part's text begins with.
pub proof fn lemma_split_concat(a: Seq<char>, b: Seq<char>, sep: char)
    ensures
        split_chars(a + b, sep) == split_chars(a, sep).drop_last() + split_chars(
            split_chars(a, sep).last() + b,
            sep,
        ),
    decreases b.len(),
{
    lemma_split_len(a, sep);
    let fa = split_chars(a, sep);
    if b.len() == 0 {
        assert(a + b =~= a);
        lemma_split_parts_clean(a, sep);
        assert(fa.last() + b =~= fa.last());
        assert forall|j: int| 0 <= j < fa.last().len() implies fa.last()[j] != sep by {
            assert(fa[fa.len() - 1][j] != sep);
        }
        lemma_split_clean(fa.last(), sep);
        assert(fa.drop_last() + seq![fa.last()] =~~= fa);
    } else {
        lemma_split_concat(a, b.drop_last(), sep);
        let c = b.last();
        assert((a + b).drop_last() =~= a + b.drop_last());
        assert((a + b).last() == c);
        assert((fa.last() + b).drop_last() =~= fa.last() + b.drop_last());
        assert((fa.last() + b).last() == c);
        let mid = split_chars(a + b.drop_last(), sep);
        let sub = split_chars(fa.last() + b.drop_last(), sep);
        lemma_split_len(fa.last() + b.drop_last(), sep);
        assert(mid == fa.drop_last() + sub);
        if c == sep {
            assert(split_chars(a + b, sep) == mid.push(Seq::<char>::empty()));
            assert(split_chars(fa.last() + b, sep) == sub.push(Seq::<char>::empty()));
            assert(mid.push(Seq::<char>::empty()) =~~= fa.drop_last() + sub.push(
                Seq::<char>::empty(),
            ));
        } else {
            assert(split_chars(a + b, sep) == mid.update(mid.len() - 1, mid.last().push(c)));
            assert(split_chars(fa.last() + b, sep) == sub.update(sub.len() - 1, sub.last().push(
                c,
            )));
            assert(mid.last() == sub.last());
            assert(mid.update(mid.len() - 1, mid.last().push(c)) =~~= fa.drop_last()
                + sub.update(sub.len() - 1, sub.last().push(c)));
        }
    }
}

/// Split `s` at every occurrence of `sep`, yielding owned fields.
pub fn split_str(s: &str, sep: char) -> (parts: Vec<String>)
    ensures
        parts.deep_view() =~= split_chars(s@, sep),
        parts.len() >= 1,
{
    let n = s.unicode_len();
    let mut parts: Vec<String> = Vec::new();
    let mut start: usize = 0;
    let mut i: usize = 0;
    proof {
        assert(split_chars(s@.subrange(0, 0), sep) =~~= parts.deep_view().push(
            s@.subrange(0, 0),
        ));
    }
    while i < n
        invariant
            i <= n == s@.len(),
            start <= i,
            split_chars(s@.subrange(0, i as int), sep) == parts.deep_view().push(
                s@.subrange(start as int, i as int),
            ),
        decreases n - i,
    {
        let c = s.get_char(i);
        proof {
            assert(s@.subrange(0, i + 1).drop_last() =~= s@.subrange(0, i as int));
            assert(s@.subrange(0, i + 1).last() == s@[i as int]);
        }
        if c == sep {
            let field = s.substring_char(start, i).to_owned();
            let ghost pd = parts.deep_view();
            parts.push(field);
            proof {
                assert(parts.deep_view() =~~= pd.push(s@.subrange(start as int, i as int)));
                assert(split_chars(s@.subrange(0, i + 1), sep) =~~= parts.deep_view().push(
                    s@.subrange(i + 1, i + 1),
                ));
            }
            start = i + 1;
        } else {
            proof {
                let pre = split_chars(s@.subrange(0, i as int), sep);
                lemma_split_len(s@.subrange(0, i as int), sep);
                assert(pre.last() == s@.subrange(start as int, i as int));
                assert(s@.subrange(start as int, i as int).push(s@[i as int]) =~= s@.subrange(
                    start as int,
                    i + 1,
                ));
                assert(split_chars(s@.subrange(0, i + 1), sep) =~~= parts.deep_view().push(
                    s@.subrange(start as int, i + 1),
                ));
            }
        }
        i = i + 1;
    }
    let field = s.substring_char(start, n).to_owned();
    let ghost pd = parts.deep_view();
    parts.push(field);
    proof {
        assert(s@.subrange(0, n as int) =~= s@);
        assert(parts.deep_view() =~~= pd.push(s@.subrange(start as int, n as int)));
    }
    parts
}

// ---------------------------------------------------------------------------
// Decimal strings
// ---------------------------------------------------------------------------

/// A single decimal digit, as a character. Callers pass `0 <= d <= 9`.
pub open spec fn digit_char(d: int) -> char {
    if d == 0 {
        '0'
    } else if d == 1 {
        '1'
    } else if d == 2 {
        '2'
    } else if d == 3 {
        '3'
    } else if d == 4 {
        '4'
    } else if d == 5 {
        '5'
    } else if d == 6 {
        '6'
    } else if d == 7 {
        '7'
    } else if d == 8 {
        '8'
    } else {
        '9'
    }
}

/// The numeric value of a digit character.
pub open spec fn digit_val(c: char) -> int {
    (c as u32) as int - ('0' as u32) as int
}

/// The value of a string of decimal digits (most significant first).
pub open spec fn decimal_value(s: Seq<char>) -> int
    decreases s.len(),
{
    if s.len() == 0 {
        0
    } else {
        decimal_value(s.drop_last()) * 10 + digit_val(s.last())
    }
}

/// The canonical decimal digit string of `n`, without leading zeroes
/// (except for `n == 0`, which is `"0"`).
pub open spec fn decimal_digits(n: nat) -> Seq<char>
    decreases n,
{
    if n < 10 {
        seq![digit_char(n as int)]
    } else {
        decimal_digits(n / 10).push(digit_char((n % 10) as int))
    }
}

/// A digit string's value is never negative.
pub proof fn lemma_decimal_value_nonneg(s: Seq<char>)
    requires
        all_in(CharKind::Digit, s),
    ensures
        decimal_value(s) >= 0,
    decreases s.len(),
{
    if s.len() > 0 {
        lemma_decimal_value_nonneg(s.drop_last());
    }
}

/// A digit string's value only grows as more digits are appended.
pub proof fn lemma_decimal_prefix_bound(s: Seq<char>, i: int)
    requires
        all_in(CharKind::Digit, s),
        0 <= i <= s.len(),
    ensures
        decimal_value(s.subrange(0, i)) <= decimal_value(s),
    decreases s.len() - i,
{
    if i < s.len() {
        lemma_decimal_prefix_bound(s, i + 1);
        let a = s.subrange(0, i);
        let b = s.subrange(0, i + 1);
        assert(b.drop_last() =~= a);
        lemma_decimal_value_nonneg(a);
        assert(is_digit(b.last()));
        assert(decimal_value(a) <= decimal_value(b));
    } else {
        assert(s.subrange(0, i) =~= s);
    }
}

/// Parse a string of decimal digits into a `u128`, exactly as the
/// timestamp fields of entries are interpreted: the result exists if and
/// only if the string is nonempty, all digits, and fits in 128 bits.
pub fn parse_decimal(s: &str) -> (r: Option<u128>)
    ensures
        match r {
            Some(v) => s@.len() > 0 && all_in(CharKind::Digit, s@) && v == decimal_value(s@),
            None => s@.len() == 0 || !all_in(CharKind::Digit, s@) || decimal_value(s@)
                > u128::MAX,
        },
{
    let n = s.unicode_len();
    if n == 0 {
        return None;
    }
    let mut v: u128 = 0;
    let mut i: usize = 0;
    while i < n
        invariant
            0 < n == s@.len(),
            i <= n,
            forall|j: int| 0 <= j < i ==> is_digit(#[trigger] s@[j]),
            v == decimal_value(s@.subrange(0, i as int)),
        decreases n - i,
    {
        let c = s.get_char(i);
        if !char_in_exec(CharKind::Digit, c) {
            assert(!all_in(CharKind::Digit, s@));
            return None;
        }
        let d: u128 = (c as u32 as u128) - 48;
        proof {
            assert(s@.subrange(0, i + 1).drop_last() =~= s@.subrange(0, i as int));
            assert(s@.subrange(0, i + 1).last() == s@[i as int]);
        }
        if v > (u128::MAX - d) / 10 {
            proof {
                assert(decimal_value(s@.subrange(0, i + 1)) > u128::MAX);
                assert forall|j: int| 0 <= j < s@.len() implies is_digit(#[trigger] s@[j]) || !all_in(
                    CharKind::Digit,
                    s@,
                ) by {}
                if all_in(CharKind::Digit, s@) {
                    lemma_decimal_prefix_bound(s@, i + 1);
                }
            }
            return None;
        }
        v = v * 10 + d;
        i = i + 1;
    }
    proof {
        assert(s@.subrange(0, n as int) =~= s@);
    }
    Some(v)
}

/// Formatting a number yields a digit string that parses back to it:
/// the canonical digits are nonempty, all digits, and have the number
/// as their value.
pub proof fn lemma_decimal_digits_value(n: nat)
    ensures
        decimal_digits(n).len() > 0,
        all_in(CharKind::Digit, decimal_digits(n)),
        decimal_value(decimal_digits(n)) == n,
    decreases n,
{
    if n < 10 {
        assert(decimal_value(decimal_digits(n)) == n) by {
            assert(decimal_digits(n) == seq![digit_char(n as int)]);
            assert(seq![digit_char(n as int)].drop_last() =~= Seq::<char>::empty());
            assert(seq![digit_char(n as int)].last() == digit_char(n as int));
            assert(decimal_value(Seq::<char>::empty()) == 0);
            assert(digit_val(digit_char(n as int)) == n);
        }
        assert forall|i: int| 0 <= i < decimal_digits(n).len() implies char_in(
            CharKind::Digit,
            #[trigger] decimal_digits(n)[i],
        ) by {}
    } else {
        lemma_decimal_digits_value(n / 10);
        let fore = decimal_digits(n / 10);
        let d = (n % 10) as int;
        assert(decimal_digits(n) == fore.push(digit_char(d)));
        assert(fore.push(digit_char(d)).drop_last() =~= fore);
        assert(decimal_value(decimal_digits(n)) == decimal_value(fore) * 10 + digit_val(
            digit_char(d),
        ));
        assert(digit_val(digit_char(d)) == d);
        assert(n == (n / 10) * 10 + n % 10);
        assert forall|i: int| 0 <= i < decimal_digits(n).len() implies char_in(
            CharKind::Digit,
            #[trigger] decimal_digits(n)[i],
        ) by {
            if i < fore.len() {
                assert(decimal_digits(n)[i] == fore[i]);
            }
        }
    }
}

/// The decimal string of a digit below ten.
fn digit_str(d: u128) -> (r: &'static str)
    requires
        d < 10,
    ensures
        r@ =~= seq![digit_char(d as int)],
{
    proof {
        reveal_strlit("0");
        reveal_strlit("1");
        reveal_strlit("2");
        reveal_strlit("3");
        reveal_strlit("4");
        reveal_strlit("5");
        reveal_strlit("6");
        reveal_strlit("7");
        reveal_strlit("8");
        reveal_strlit("9");
    }
    if d == 0 {
        "0"
    } else if d == 1 {
        "1"
    } else if d == 2 {
        "2"
    } else if d == 3 {
        "3"
    } else if d == 4 {
        "4"
    } else if d == 5 {
        "5"
    } else if d == 6 {
        "6"
    } else if d == 7 {
        "7"
    } else if d == 8 {
        "8"
    } else {
        "9"
    }
}

/// Format `n` as its canonical decimal digit string.
pub fn format_decimal(n: u128) -> (r: String)
    ensures
        r@ =~= decimal_digits(n as nat),
    decreases n,
{
    if n < 10 {
        digit_str(n).to_owned()
    } else {
        let mut s = format_decimal(n / 10);
        s.append(digit_str(n % 10));
        s
    }
}

} // verus!
