//! A small model of the `str` operations that the ddcutil output parsers use
//! (`lines`, `trim`, `split_whitespace`, `split_once`, `parse`), written as
//! spec functions over `Seq<char>`, together with executable counterparts that
//! work on index ranges of a `&[char]`.
use vstd::prelude::*;

verus! {

// ---------------------------------------------------------------------------
// Specification
// ---------------------------------------------------------------------------

/// `char::is_whitespace`: the Unicode `White_Space` property.
pub open spec fn is_whitespace(c: char) -> bool {
    ||| c == '\t'
    ||| c == '\n'
    ||| c == '\u{0B}'
    ||| c == '\u{0C}'
    ||| c == '\r'
    ||| c == ' '
    ||| c == '\u{85}'
    ||| c == '\u{A0}'
    ||| c == '\u{1680}'
    ||| ('\u{2000}' <= c && c <= '\u{200A}')
    ||| c == '\u{2028}'
    ||| c == '\u{2029}'
    ||| c == '\u{202F}'
    ||| c == '\u{205F}'
    ||| c == '\u{3000}'
}

/// `str::trim_start`: `s` without its leading whitespace.
pub open spec fn trim_start(s: Seq<char>) -> Seq<char>
    decreases s.len(),
{
    if s.len() > 0 && is_whitespace(s[0]) {
        trim_start(s.drop_first())
    } else {
        s
    }
}

/// `str::trim_end`: `s` without its trailing whitespace.
pub open spec fn trim_end(s: Seq<char>) -> Seq<char>
    decreases s.len(),
{
    if s.len() > 0 && is_whitespace(s.last()) {
        trim_end(s.drop_last())
    } else {
        s
    }
}

/// `str::trim`: `s` without leading and trailing whitespace.
pub open spec fn trim(s: Seq<char>) -> Seq<char> {
    trim_end(trim_start(s))
}

/// `str::starts_with`.
pub open spec fn starts_with(s: Seq<char>, prefix: Seq<char>) -> bool {
    prefix.len() <= s.len() && s.take(prefix.len() as int) == prefix
}

/// The part of `s` before the first occurrence of `c` (all of `s` when `c`
/// does not occur).
pub open spec fn take_until(s: Seq<char>, c: char) -> Seq<char>
    decreases s.len(),
{
    if s.len() == 0 || s[0] == c {
        Seq::empty()
    } else {
        seq![s[0]] + take_until(s.drop_first(), c)
    }
}

/// `str::split_once` with a `char` pattern: the parts before and after the
/// first occurrence of `c`, or `None` when `c` does not occur.
pub open spec fn split_once(s: Seq<char>, c: char) -> Option<(Seq<char>, Seq<char>)> {
    let head = take_until(s, c);
    if head.len() < s.len() {
        Some((head, s.skip(head.len() as int + 1)))
    } else {
        None
    }
}

/// A line as `str::lines` yields it: one `'\r'` before the `'\n'` is dropped.
pub open spec fn strip_cr(line: Seq<char>) -> Seq<char> {
    if line.len() > 0 && line.last() == '\r' {
        line.drop_last()
    } else {
        line
    }
}

/// `str::lines`: the text split at `"\n"` and `"\r\n"`; a final line ending
/// adds no empty line, and the empty text has no lines.
pub open spec fn lines(s: Seq<char>) -> Seq<Seq<char>>
    decreases s.len(),
{
    if s.len() == 0 {
        Seq::empty()
    } else {
        let head = take_until(s, '\n');
        if head.len() < s.len() {
            seq![strip_cr(head)] + lines(s.skip(head.len() as int + 1))
        } else {
            seq![s]
        }
    }
}

/// The leading run of non-whitespace characters of `s`.
pub open spec fn take_word(s: Seq<char>) -> Seq<char>
    decreases s.len(),
{
    if s.len() == 0 || is_whitespace(s[0]) {
        Seq::empty()
    } else {
        seq![s[0]] + take_word(s.drop_first())
    }
}

/// `str::split_whitespace`: the maximal runs of non-whitespace characters of
/// `s`, in order.
pub open spec fn split_whitespace(s: Seq<char>) -> Seq<Seq<char>>
    decreases s.len(),
{
    if s.len() == 0 {
        Seq::empty()
    } else if is_whitespace(s[0]) {
        split_whitespace(s.drop_first())
    } else {
        let word = take_word(s);
        proof {
            lemma_take_word_len(s);
        }
        seq![word] + split_whitespace(s.skip(word.len() as int))
    }
}

/// The code point that `char::to_ascii_lowercase` gives for `c`.
pub open spec fn ascii_lower_code(c: char) -> u32 {
    if 'A' <= c && c <= 'Z' {
        (c as u32 + 32) as u32
    } else {
        c as u32
    }
}

/// `str::eq_ignore_ascii_case`.
pub open spec fn eq_ignore_ascii_case(a: Seq<char>, b: Seq<char>) -> bool {
    &&& a.len() == b.len()
    &&& forall|i: int| 0 <= i < a.len() ==> ascii_lower_code(a[i]) == ascii_lower_code(b[i])
}

/// `char::to_digit(radix)`, for a radix of at most 36.
pub open spec fn digit_value(c: char, radix: nat) -> Option<nat> {
    let v: int = if '0' <= c && c <= '9' {
        c as int - '0' as int
    } else if 'a' <= c && c <= 'z' {
        c as int - 'a' as int + 10
    } else if 'A' <= c && c <= 'Z' {
        c as int - 'A' as int + 10
    } else {
        36
    };
    if v < radix {
        Some(v as nat)
    } else {
        None
    }
}

/// The number that the digits `ds` spell in `radix`, most significant
/// first; `None` when one of them is not a digit.
pub open spec fn digits_value(ds: Seq<char>, radix: nat) -> Option<nat>
    decreases ds.len(),
{
    if ds.len() == 0 {
        Some(0)
    } else {
        match (digits_value(ds.drop_last(), radix), digit_value(ds.last(), radix)) {
            (Some(high), Some(low)) => Some(high * radix + low),
            _ => None,
        }
    }
}

/// `from_str_radix` of an unsigned integer type whose largest value is
/// `max`: an optional `'+'`, then at least one digit, with a value of at most
/// `max`.
pub open spec fn parse_unsigned(s: Seq<char>, radix: nat, max: nat) -> Option<nat> {
    let ds = if s.len() > 0 && s[0] == '+' {
        s.drop_first()
    } else {
        s
    };
    if ds.len() == 0 {
        None
    } else {
        match digits_value(ds, radix) {
            Some(v) => if v <= max {
                Some(v)
            } else {
                None
            },
            None => None,
        }
    }
}

/// `s.parse::<u32>()`.
pub open spec fn parse_u32(s: Seq<char>) -> Option<u32> {
    match parse_unsigned(s, 10, u32::MAX as nat) {
        Some(v) => Some(v as u32),
        None => None,
    }
}

/// `s.parse::<u8>()`.
pub open spec fn parse_u8(s: Seq<char>) -> Option<u8> {
    match parse_unsigned(s, 10, u8::MAX as nat) {
        Some(v) => Some(v as u8),
        None => None,
    }
}

/// `u8::from_str_radix(s, 16)`.
pub open spec fn parse_hex_u8(s: Seq<char>) -> Option<u8> {
    match parse_unsigned(s, 16, u8::MAX as nat) {
        Some(v) => Some(v as u8),
        None => None,
    }
}

/// The text of each range `(start, end)` of `cs`.
pub open spec fn range_texts(cs: Seq<char>, ranges: Seq<(usize, usize)>) -> Seq<Seq<char>> {
    ranges.map_values(|r: (usize, usize)| cs.subrange(r.0 as int, r.1 as int))
}

// ---------------------------------------------------------------------------
// Lemmas
// ---------------------------------------------------------------------------

pub proof fn lemma_take_word_len(s: Seq<char>)
    ensures
        take_word(s).len() <= s.len(),
        take_word(s) == s.take(take_word(s).len() as int),
        s.len() > 0 && !is_whitespace(s[0]) ==> take_word(s).len() >= 1,
        take_word(s).len() < s.len() ==> is_whitespace(s[take_word(s).len() as int]),
    decreases s.len(),
{
    if s.len() > 0 && !is_whitespace(s[0]) {
        lemma_take_word_len(s.drop_first());
        assert(take_word(s) =~= s.take(take_word(s).len() as int));
    }
}

pub proof fn lemma_take_until_len(s: Seq<char>, c: char)
    ensures
        take_until(s, c).len() <= s.len(),
        take_until(s, c) == s.take(take_until(s, c).len() as int),
        take_until(s, c).len() < s.len() ==> s[take_until(s, c).len() as int] == c,
        forall|i: int| 0 <= i < take_until(s, c).len() ==> s[i] != c,
    decreases s.len(),
{
    if s.len() > 0 && s[0] != c {
        lemma_take_until_len(s.drop_first(), c);
        assert(take_until(s, c) =~= s.take(take_until(s, c).len() as int));
        assert forall|i: int| 0 <= i < take_until(s, c).len() implies s[i] != c by {
            if i > 0 {
                assert(s[i] == s.drop_first()[i - 1]);
            }
        }
    }
}

pub proof fn lemma_trim_start_is_suffix(s: Seq<char>)
    ensures
        trim_start(s).len() <= s.len(),
        trim_start(s) == s.skip(s.len() - trim_start(s).len()),
    decreases s.len(),
{
    if s.len() > 0 && is_whitespace(s[0]) {
        lemma_trim_start_is_suffix(s.drop_first());
        assert(trim_start(s) =~= s.skip(s.len() - trim_start(s).len()));
    } else {
        assert(s =~= s.skip(0));
    }
}

pub proof fn lemma_trim_end_is_prefix(s: Seq<char>)
    ensures
        trim_end(s).len() <= s.len(),
        trim_end(s) == s.take(trim_end(s).len() as int),
    decreases s.len(),
{
    if s.len() > 0 && is_whitespace(s.last()) {
        lemma_trim_end_is_prefix(s.drop_last());
        assert(trim_end(s) =~= s.take(trim_end(s).len() as int));
    } else {
        assert(s =~= s.take(s.len() as int));
    }
}

/// Trimming keeps a character out of a text that does not hold it.
pub proof fn lemma_trim_keeps_out(s: Seq<char>, c: char)
    requires
        !s.contains(c),
    ensures
        !trim(s).contains(c),
{
    lemma_trim_start_is_suffix(s);
    let t = trim_start(s);
    lemma_trim_end_is_prefix(t);
    assert forall|i: int| 0 <= i < trim(s).len() implies trim(s)[i] != c by {
        assert(trim(s)[i] == t[i]);
        assert(t[i] == s[s.len() - t.len() + i]);
    }
}

/// Once a digit string has grown past `max`, no longer digit string that
/// starts with it comes back under it.
pub proof fn lemma_digits_value_monotone(ds: Seq<char>, radix: nat, k: int)
    requires
        0 <= k <= ds.len(),
        radix >= 1,
        digits_value(ds.take(k), radix) is Some,
        digits_value(ds, radix) is Some,
    ensures
        digits_value(ds, radix)->0 >= digits_value(ds.take(k), radix)->0,
    decreases ds.len() - k,
{
    if k < ds.len() {
        let d = ds.take(k + 1);
        assert(d.drop_last() =~= ds.take(k));
        let high = digits_value(ds.take(k), radix)->0;
        // The longer prefix is a digit string too.
        lemma_digits_prefix_some(ds, radix, k + 1);
        assert(digits_value(d, radix)->0 >= high) by (nonlinear_arith)
            requires
                digits_value(d, radix)->0 == high * radix + digit_value(d.last(), radix)->0,
                radix >= 1,
        {
        }
        lemma_digits_value_monotone(ds, radix, k + 1);
    } else {
        assert(ds.take(k) =~= ds);
    }
}

/// Every prefix of a digit string is a digit string.
pub proof fn lemma_digits_prefix_some(ds: Seq<char>, radix: nat, k: int)
    requires
        0 <= k <= ds.len(),
        digits_value(ds, radix) is Some,
    ensures
        digits_value(ds.take(k), radix) is Some,
        k >= 1 ==> digit_value(ds.take(k).last(), radix) is Some,
        k >= 1 ==> digits_value(ds.take(k), radix)->0 == digits_value(ds.take(k - 1), radix)->0
            * radix + digit_value(ds[k - 1], radix)->0,
    decreases ds.len() - k,
{
    if k < ds.len() {
        lemma_digits_prefix_some(ds.drop_last(), radix, k);
        assert(ds.drop_last().take(k) =~= ds.take(k));
        if k >= 1 {
            assert(ds.drop_last().take(k - 1) =~= ds.take(k - 1));
        }
    } else {
        assert(ds.take(k) =~= ds);
        if k >= 1 {
            assert(ds.take(k).drop_last() =~= ds.take(k - 1));
        }
    }
}

// ---------------------------------------------------------------------------
// Executable counterparts
// ---------------------------------------------------------------------------

/// The characters of `s`, in order.
pub(crate) fn to_chars(s: &str) -> (out: Vec<char>)
    ensures
        out@ == s@,
{
    let mut out: Vec<char> = Vec::new();
    for c in it: s.chars()
        invariant
            out@ == it.seq().take(it.index() as int),
            it.seq() == s@,
    {
        out.push(c);
    }
    out
}

/// `String::push`: appends `c` to the end of `s`.
#[verifier::external_body]
pub(crate) fn push_char(s: &mut String, c: char)
    ensures
        final(s)@ == old(s)@.push(c),
{
    s.push(c);
}

/// A new `String` holding the characters `cs[start..end]`.
pub(crate) fn string_from(cs: &[char], start: usize, end: usize) -> (out: String)
    requires
        start <= end <= cs@.len(),
    ensures
        out@ == cs@.subrange(start as int, end as int),
{
    let mut out = String::new();
    let mut i = start;
    while i < end
        invariant
            start <= i <= end <= cs@.len(),
            out@ == cs@.subrange(start as int, i as int),
        decreases end - i,
    {
        push_char(&mut out, cs[i]);
        assert(cs@.subrange(start as int, i + 1) =~= cs@.subrange(start as int, i as int).push(
            cs@[i as int],
        ));
        i += 1;
    }
    out
}

/// `char::is_whitespace`.
pub(crate) fn is_whitespace_char(c: char) -> (b: bool)
    ensures
        b == is_whitespace(c),
{
    c == '\t' || c == '\n' || c == '\u{0B}' || c == '\u{0C}' || c == '\r' || c == ' ' || c
        == '\u{85}' || c == '\u{A0}' || c == '\u{1680}' || ('\u{2000}' <= c && c <= '\u{200A}')
        || c == '\u{2028}' || c == '\u{2029}' || c == '\u{202F}' || c == '\u{205F}' || c
        == '\u{3000}'
}

/// The start of `trim_start(cs[start..end])`.
pub(crate) fn trim_start_range(cs: &[char], start: usize, end: usize) -> (a: usize)
    requires
        start <= end <= cs@.len(),
    ensures
        start <= a <= end,
        cs@.subrange(a as int, end as int) == trim_start(cs@.subrange(start as int, end as int)),
{
    let mut a = start;
    while a < end && is_whitespace_char(cs[a])
        invariant
            start <= a <= end <= cs@.len(),
            trim_start(cs@.subrange(a as int, end as int)) == trim_start(
                cs@.subrange(start as int, end as int),
            ),
        decreases end - a,
    {
        assert(cs@.subrange(a as int, end as int).drop_first() =~= cs@.subrange(
            a + 1,
            end as int,
        ));
        a += 1;
    }
    a
}

/// The end of `trim_end(cs[start..end])`.
pub(crate) fn trim_end_range(cs: &[char], start: usize, end: usize) -> (b: usize)
    requires
        start <= end <= cs@.len(),
    ensures
        start <= b <= end,
        cs@.subrange(start as int, b as int) == trim_end(cs@.subrange(start as int, end as int)),
{
    let mut b = end;
    while b > start && is_whitespace_char(cs[b - 1])
        invariant
            start <= b <= end <= cs@.len(),
            trim_end(cs@.subrange(start as int, b as int)) == trim_end(
                cs@.subrange(start as int, end as int),
            ),
        decreases b - start,
    {
        assert(cs@.subrange(start as int, b as int).drop_last() =~= cs@.subrange(
            start as int,
            b - 1,
        ));
        b -= 1;
    }
    b
}

/// The range of `trim(cs[start..end])`.
pub(crate) fn trim_range(cs: &[char], start: usize, end: usize) -> (r: (usize, usize))
    requires
        start <= end <= cs@.len(),
    ensures
        start <= r.0 <= r.1 <= end,
        cs@.subrange(r.0 as int, r.1 as int) == trim(cs@.subrange(start as int, end as int)),
{
    let a = trim_start_range(cs, start, end);
    let b = trim_end_range(cs, a, end);
    (a, b)
}

/// Whether `cs[start..end]` starts with `prefix`.
pub(crate) fn starts_with_range(cs: &[char], start: usize, end: usize, prefix: &[char]) -> (b: bool)
    requires
        start <= end <= cs@.len(),
    ensures
        b == starts_with(cs@.subrange(start as int, end as int), prefix@),
{
    let n = prefix.len();
    if n > end - start {
        return false;
    }
    let mut i: usize = 0;
    while i < n
        invariant
            n == prefix@.len(),
            n <= end - start,
            start <= end <= cs@.len(),
            i <= n,
            forall|j: int| 0 <= j < i ==> cs@[start + j] == prefix@[j],
        decreases n - i,
    {
        if cs[start + i] != prefix[i] {
            assert(cs@.subrange(start as int, end as int).take(n as int)[i as int] != prefix@[i as int]);
            return false;
        }
        i += 1;
    }
    assert(cs@.subrange(start as int, end as int).take(n as int) =~= prefix@);
    true
}

/// The end of the first line of `cs[start..]`, and where the next line
/// begins.
pub(crate) fn next_line(cs: &[char], start: usize) -> (r: (usize, usize))
    requires
        start < cs@.len(),
    ensures
        start <= r.0 < r.1 + 1,
        start < r.1 <= cs@.len(),
        r.0 <= cs@.len(),
        lines(cs@.subrange(start as int, cs@.len() as int)) == seq![
            cs@.subrange(start as int, r.0 as int),
        ] + lines(cs@.subrange(r.1 as int, cs@.len() as int)),
{
    let len = cs.len();
    let ghost s = cs@.subrange(start as int, len as int);
    let mut e = start;
    while e < len && cs[e] != '\n'
        invariant
            start <= e <= len == cs@.len(),
            s == cs@.subrange(start as int, len as int),
            take_until(s, '\n') == cs@.subrange(start as int, e as int) + take_until(
                cs@.subrange(e as int, len as int),
                '\n',
            ),
        decreases len - e,
    {
        assert(cs@.subrange(e as int, len as int).drop_first() =~= cs@.subrange(e + 1, len as int));
        assert(cs@.subrange(start as int, e + 1) =~= cs@.subrange(start as int, e as int) + seq![
            cs@[e as int],
        ]);
        e += 1;
    }
    assert(take_until(cs@.subrange(e as int, len as int), '\n') =~= Seq::<char>::empty());
    let ghost head = take_until(s, '\n');
    assert(head =~= cs@.subrange(start as int, e as int));
    if e == len {
        assert(s.len() > 0);
        assert(cs@.subrange(len as int, len as int) =~= Seq::<char>::empty());
        assert(lines(s) == seq![s]);
        assert(lines(cs@.subrange(len as int, len as int)) =~= Seq::<Seq<char>>::empty());
        assert(lines(s) =~= seq![cs@.subrange(start as int, len as int)] + lines(
            cs@.subrange(len as int, len as int),
        ));
        (len, len)
    } else {
        assert(s.skip(head.len() as int + 1) =~= cs@.subrange(e + 1, len as int));
        let end = if e > start && cs[e - 1] == '\r' {
            e - 1
        } else {
            e
        };
        assert(strip_cr(head) =~= cs@.subrange(start as int, end as int));
        (end, e + 1)
    }
}

/// The end of `take_until(cs[start..end], c)`: the position of the first `c`
/// in the range, or `end`.
pub(crate) fn find_char(cs: &[char], start: usize, end: usize, c: char) -> (p: usize)
    requires
        start <= end <= cs@.len(),
    ensures
        start <= p <= end,
        cs@.subrange(start as int, p as int) == take_until(
            cs@.subrange(start as int, end as int),
            c,
        ),
        p < end ==> cs@[p as int] == c,
{
    let ghost s = cs@.subrange(start as int, end as int);
    let mut p = start;
    while p < end && cs[p] != c
        invariant
            start <= p <= end <= cs@.len(),
            s == cs@.subrange(start as int, end as int),
            take_until(s, c) == cs@.subrange(start as int, p as int) + take_until(
                cs@.subrange(p as int, end as int),
                c,
            ),
        decreases end - p,
    {
        assert(cs@.subrange(p as int, end as int).drop_first() =~= cs@.subrange(p + 1, end as int));
        assert(cs@.subrange(start as int, p + 1) =~= cs@.subrange(start as int, p as int) + seq![
            cs@[p as int],
        ]);
        p += 1;
    }
    assert(take_until(cs@.subrange(p as int, end as int), c) =~= Seq::<char>::empty());
    assert(take_until(s, c) =~= cs@.subrange(start as int, p as int));
    p
}

/// Appends the characters `cs[start..end]` to `out`.
pub(crate) fn append_range(out: &mut String, cs: &[char], start: usize, end: usize)
    requires
        start <= end <= cs@.len(),
    ensures
        final(out)@ == old(out)@ + cs@.subrange(start as int, end as int),
{
    let mut i = start;
    while i < end
        invariant
            start <= i <= end <= cs@.len(),
            out@ == old(out)@ + cs@.subrange(start as int, i as int),
        decreases end - i,
    {
        push_char(out, cs[i]);
        assert(cs@.subrange(start as int, i + 1) =~= cs@.subrange(start as int, i as int).push(
            cs@[i as int],
        ));
        assert(out@ =~= old(out)@ + cs@.subrange(start as int, i + 1));
        i += 1;
    }
}

/// The code point of `char::to_ascii_lowercase(c)`.
pub(crate) fn ascii_lower_code_of(c: char) -> (r: u32)
    ensures
        r == ascii_lower_code(c),
{
    if 'A' <= c && c <= 'Z' {
        (c as u32) + 32
    } else {
        c as u32
    }
}

/// `str::eq_ignore_ascii_case` between `cs[start..end]` and `other`.
pub(crate) fn eq_ignore_ascii_case_range(cs: &[char], start: usize, end: usize, other: &[char]) -> (b:
    bool)
    requires
        start <= end <= cs@.len(),
    ensures
        b == eq_ignore_ascii_case(cs@.subrange(start as int, end as int), other@),
{
    let ghost s = cs@.subrange(start as int, end as int);
    if end - start != other.len() {
        return false;
    }
    let n = other.len();
    let mut i: usize = 0;
    while i < n
        invariant
            n == other@.len() == end - start,
            start <= end <= cs@.len(),
            s == cs@.subrange(start as int, end as int),
            i <= n,
            forall|j: int| 0 <= j < i ==> ascii_lower_code(s[j]) == ascii_lower_code(other@[j]),
        decreases n - i,
    {
        if ascii_lower_code_of(cs[start + i]) != ascii_lower_code_of(other[i]) {
            assert(s[i as int] == cs@[start + i]);
            return false;
        }
        i += 1;
    }
    true
}

/// Whether `a` and `b` hold the same characters.
pub(crate) fn chars_eq(a: &[char], b: &[char]) -> (r: bool)
    ensures
        r == (a@ == b@),
{
    if a.len() != b.len() {
        return false;
    }
    let n = a.len();
    let mut i: usize = 0;
    while i < n
        invariant
            n == a@.len() == b@.len(),
            i <= n,
            forall|j: int| 0 <= j < i ==> a@[j] == b@[j],
        decreases n - i,
    {
        if a[i] != b[i] {
            return false;
        }
        i += 1;
    }
    assert(a@ =~= b@);
    true
}

/// `a == b` on string slices.
pub(crate) fn str_eq(a: &str, b: &str) -> (r: bool)
    ensures
        r == (a@ == b@),
{
    let ca = to_chars(a);
    let cb = to_chars(b);
    chars_eq(&ca, &cb)
}

/// Appends `s` to `out`.
pub(crate) fn append_str(out: &mut String, s: &str)
    ensures
        final(out)@ == old(out)@ + s@,
{
    let cs = to_chars(s);
    append_range(out, &cs, 0, cs.len());
    assert(cs@.subrange(0, cs@.len() as int) =~= s@);
}

/// The decimal digit character for `d < 10`.
pub open spec fn digit_char(d: nat) -> char {
    ('0' as u32 + d) as char
}

/// The decimal digits of `n`, as `u8::to_string` writes them.
pub open spec fn decimal(n: nat) -> Seq<char>
    decreases n,
{
    if n < 10 {
        seq![digit_char(n)]
    } else {
        decimal(n / 10).push(digit_char(n % 10))
    }
}

/// A digit character written for `d < 10` reads back as `d` in base 10.
pub proof fn lemma_digit_char_reads_back(d: nat)
    requires
        d < 10,
    ensures
        '0' <= digit_char(d) <= '9',
        digit_value(digit_char(d), 10) == Some(d),
{
}

/// The decimal digits of `n` read back, in base 10, as `n`; they do not
/// start with a sign, and there is at least one of them.
pub proof fn lemma_decimal_reads_back(n: nat)
    ensures
        decimal(n).len() > 0,
        decimal(n)[0] != '+',
        digits_value(decimal(n), 10) == Some(n),
        forall|i: int| 0 <= i < decimal(n).len() ==> '0' <= #[trigger] decimal(n)[i] <= '9',
    decreases n,
{
    if n < 10 {
        lemma_digit_char_reads_back(n);
        assert(decimal(n).drop_last() =~= Seq::<char>::empty());
        assert(digits_value(decimal(n).drop_last(), 10) == Some(0nat));
        assert(decimal(n).last() == digit_char(n));
        assert(digits_value(decimal(n), 10) == Some(0 * 10 + n));
    } else {
        lemma_decimal_reads_back(n / 10);
        lemma_digit_char_reads_back(n % 10);
        let high = decimal(n / 10);
        assert(decimal(n).drop_last() =~= high);
        assert(decimal(n).last() == digit_char(n % 10));
        assert(decimal(n)[0] == high[0]);
        assert forall|i: int| 0 <= i < decimal(n).len() implies '0' <= #[trigger] decimal(n)[i]
            <= '9' by {
            if i < high.len() {
                assert(decimal(n)[i] == high[i]);
            }
        }
        assert((n / 10) * 10 + n % 10 == n);
        assert(digits_value(decimal(n), 10) == Some((n / 10) * 10 + n % 10));
    }
}

/// The digit character of `d < 10`.
fn digit_to_char(d: u8) -> (c: char)
    requires
        d < 10,
    ensures
        c == digit_char(d as nat),
{
    if d == 0 {
        '0'
    } else if d == 1 {
        '1'
    } else if d == 2 {
        '2'
    } else if d == 3 {
        '3'
    } else if d == 4 {
        '4'
    } else if d == 5 {
        '5'
    } else if d == 6 {
        '6'
    } else if d == 7 {
        '7'
    } else if d == 8 {
        '8'
    } else {
        '9'
    }
}

/// Appends the decimal digits of `n` to `out`.
pub(crate) fn append_decimal(out: &mut String, n: u8)
    ensures
        final(out)@ == old(out)@ + decimal(n as nat),
{
    if n >= 100 {
        push_char(out, digit_to_char(n / 100));
        push_char(out, digit_to_char((n / 10) % 10));
        push_char(out, digit_to_char(n % 10));
        let ghost m = n as nat;
        assert(m / 10 >= 10 && (m / 10) / 10 == m / 100 && (m / 10) % 10 == (n / 10) % 10);
        assert(decimal((m / 10) / 10) =~= seq![digit_char(m / 100)]);
        assert(decimal(m / 10) =~= decimal((m / 10) / 10).push(digit_char((m / 10) % 10)));
        assert(decimal(m / 10) =~= seq![digit_char(m / 100), digit_char((m / 10) % 10)]);
        assert(decimal(n as nat) =~= seq![
            digit_char((n / 100) as nat),
            digit_char(((n / 10) % 10) as nat),
            digit_char((n % 10) as nat),
        ]);
    } else if n >= 10 {
        push_char(out, digit_to_char(n / 10));
        push_char(out, digit_to_char(n % 10));
        assert(decimal(n as nat / 10) =~= seq![digit_char((n / 10) as nat)]);
        assert(decimal(n as nat) =~= seq![digit_char((n / 10) as nat), digit_char((n % 10) as nat)]);
    } else {
        push_char(out, digit_to_char(n));
    }
    assert(final(out)@ =~= old(out)@ + decimal(n as nat));
}

/// `char::to_digit(radix)`.
pub(crate) fn digit_of(c: char, radix: u32) -> (r: Option<u32>)
    requires
        2 <= radix <= 36,
    ensures
        r matches Some(v) ==> digit_value(c, radix as nat) == Some(v as nat) && v < radix,
        r is None ==> digit_value(c, radix as nat) is None,
{
    let v: u32 = if '0' <= c && c <= '9' {
        (c as u32) - ('0' as u32)
    } else if 'a' <= c && c <= 'z' {
        (c as u32) - ('a' as u32) + 10
    } else if 'A' <= c && c <= 'Z' {
        (c as u32) - ('A' as u32) + 10
    } else {
        36
    };
    if v < radix {
        Some(v)
    } else {
        None
    }
}

/// `from_str_radix` on `cs[start..end]`, for an unsigned type whose largest
/// value is `max`.
pub(crate) fn parse_unsigned_range(cs: &[char], start: usize, end: usize, radix: u32, max: u32) -> (r:
    Option<u32>)
    requires
        start <= end <= cs@.len(),
        2 <= radix <= 36,
    ensures
        r matches Some(v) ==> parse_unsigned(
            cs@.subrange(start as int, end as int),
            radix as nat,
            max as nat,
        ) == Some(v as nat),
        r is None ==> parse_unsigned(
            cs@.subrange(start as int, end as int),
            radix as nat,
            max as nat,
        ) is None,
{
    let ghost s = cs@.subrange(start as int, end as int);
    let first = if start < end && cs[start] == '+' {
        start + 1
    } else {
        start
    };
    let ghost ds = cs@.subrange(first as int, end as int);
    assert(ds =~= (if s.len() > 0 && s[0] == '+' {
        s.drop_first()
    } else {
        s
    }));
    if first == end {
        return None;
    }
    let mut acc: u64 = 0;
    let mut i = first;
    assert(ds.take(0) =~= Seq::<char>::empty());
    while i < end
        invariant
            first <= i <= end <= cs@.len(),
            first < end,
            2 <= radix <= 36,
            ds == cs@.subrange(first as int, end as int),
            s == cs@.subrange(start as int, end as int),
            ds == (if s.len() > 0 && s[0] == '+' {
                s.drop_first()
            } else {
                s
            }),
            ds.len() > 0,
            acc <= max,
            digits_value(ds.take(i - first), radix as nat) == Some(acc as nat),
        decreases end - i,
    {
        let d = digit_of(cs[i], radix);
        let ghost pre = ds.take(i - first + 1);
        assert(pre.drop_last() =~= ds.take(i - first));
        assert(pre.last() == cs@[i as int]);
        match d {
            None => {
                assert(digits_value(pre, radix as nat) is None);
                proof {
                    if digits_value(ds, radix as nat) is Some {
                        lemma_digits_prefix_some(ds, radix as nat, i - first + 1);
                    }
                }
                return None;
            },
            Some(dv) => {
                assert(acc * (radix as u64) + (dv as u64) <= 0xffff_ffff * 36 + 36) by (nonlinear_arith)
                    requires
                        acc <= 0xffff_ffff,
                        radix <= 36,
                        dv < 36,
                ;
                let next = acc * (radix as u64) + (dv as u64);
                assert(digits_value(pre, radix as nat) == Some(next as nat));
                if next > max as u64 {
                    proof {
                        if digits_value(ds, radix as nat) is Some {
                            lemma_digits_value_monotone(ds, radix as nat, i - first + 1);
                        }
                    }
                    return None;
                }
                acc = next;
            },
        }
        i += 1;
    }
    assert(ds.take(end - first) =~= ds);
    Some(acc as u32)
}

/// The ranges of the words of `cs[start..end]` (`split_whitespace`).
pub(crate) fn split_whitespace_ranges(cs: &[char], start: usize, end: usize) -> (r: Vec<(usize, usize)>)
    requires
        start <= end <= cs@.len(),
    ensures
        range_texts(cs@, r@) == split_whitespace(cs@.subrange(start as int, end as int)),
        forall|k: int| 0 <= k < r@.len() ==> start <= #[trigger] r@[k].0 <= r@[k].1 <= end,
{
    let mut r: Vec<(usize, usize)> = Vec::new();
    let mut i = start;
    while i < end
        invariant
            start <= i <= end <= cs@.len(),
            split_whitespace(cs@.subrange(start as int, end as int)) == range_texts(cs@, r@)
                + split_whitespace(cs@.subrange(i as int, end as int)),
            forall|k: int| 0 <= k < r@.len() ==> start <= #[trigger] r@[k].0 <= r@[k].1 <= end,
        decreases end - i,
    {
        let ghost rest = cs@.subrange(i as int, end as int);
        if is_whitespace_char(cs[i]) {
            assert(rest.drop_first() =~= cs@.subrange(i + 1, end as int));
            i += 1;
        } else {
            let mut j = i;
            while j < end && !is_whitespace_char(cs[j])
                invariant
                    i <= j <= end <= cs@.len(),
                    rest == cs@.subrange(i as int, end as int),
                    take_word(rest) == cs@.subrange(i as int, j as int) + take_word(
                        cs@.subrange(j as int, end as int),
                    ),
                decreases end - j,
            {
                assert(cs@.subrange(j as int, end as int).drop_first() =~= cs@.subrange(
                    j + 1,
                    end as int,
                ));
                assert(cs@.subrange(i as int, j + 1) =~= cs@.subrange(i as int, j as int) + seq![
                    cs@[j as int],
                ]);
                j += 1;
            }
            assert(take_word(cs@.subrange(j as int, end as int)) =~= Seq::<char>::empty());
            assert(take_word(rest) =~= cs@.subrange(i as int, j as int));
            assert(rest.skip(j - i) =~= cs@.subrange(j as int, end as int));
            let ghost old_r = r@;
            r.push((i, j));
            assert(range_texts(cs@, r@) =~= range_texts(cs@, old_r) + seq![
                cs@.subrange(i as int, j as int),
            ]);
            i = j;
        }
    }
    assert(cs@.subrange(end as int, end as int) =~= Seq::<char>::empty());
    assert(split_whitespace(cs@.subrange(i as int, end as int)) =~= Seq::<Seq<char>>::empty());
    assert(range_texts(cs@, r@) + Seq::<Seq<char>>::empty() =~= range_texts(cs@, r@));
    r
}

} // verus!
