//! Character-level string helpers with their meaning stated over `Seq<char>`.
use vstd::prelude::*;

verus! {

/// The characters of `s`, in order.
pub fn chars_of(s: &str) -> (r: Vec<char>)
    ensures
        r@ == s@,
{
    broadcast use vstd::string::axiom_spec_iter;
    let mut out: Vec<char> = Vec::new();
    for c in it: s.chars()
        invariant
            out@ == it.seq().take(it.index() as int),
    {
        out.push(c);
    }
    out
}


/// Appends one character; `String::push` has no specification in vstd.
#[verifier::external_body]
pub(crate) fn push_char(s: &mut String, c: char)
    ensures
        final(s)@ == old(s)@.push(c),
{
    s.push(c)
}

/// The string made of `chars`.
pub fn string_from_chars(chars: &[char]) -> (r: String)
    ensures
        r@ == chars@,
{
    let mut out = String::new();
    let mut i: usize = 0;
    while i < chars.len()
        invariant
            i <= chars@.len(),
            out@ == chars@.subrange(0, i as int),
        decreases chars@.len() - i,
    {
        push_char(&mut out, chars[i]);
        assert(chars@.subrange(0, i + 1) == chars@.subrange(0, i as int).push(chars@[i as int]));
        i = i + 1;
    }
    assert(chars@.subrange(0, chars@.len() as int) == chars@);
    out
}

/// The string holding `s@.subrange(from, to)`.
pub fn substring(s: &[char], from: usize, to: usize) -> (r: String)
    requires
        from <= to <= s@.len(),
    ensures
        r@ == s@.subrange(from as int, to as int),
{
    let mut out = String::new();
    let mut i = from;
    while i < to
        invariant
            from <= i <= to <= s@.len(),
            out@ == s@.subrange(from as int, i as int),
        decreases to - i,
    {
        push_char(&mut out, s[i]);
        assert(s@.subrange(from as int, i + 1) == s@.subrange(from as int, i as int).push(s@[i as int]));
        i = i + 1;
    }
    out
}

/// Unicode `White_Space`, as `char::is_whitespace` defines it.
pub open spec fn is_white_space(c: char) -> bool {
    ||| ('\u{9}' <= c && c <= '\u{d}')
    ||| c == ' '
    ||| c == '\u{85}'
    ||| c == '\u{a0}'
    ||| c == '\u{1680}'
    ||| ('\u{2000}' <= c && c <= '\u{200a}')
    ||| c == '\u{2028}'
    ||| c == '\u{2029}'
    ||| c == '\u{202f}'
    ||| c == '\u{205f}'
    ||| c == '\u{3000}'
}

pub fn is_whitespace(c: char) -> (r: bool)
    ensures
        r == is_white_space(c),
{
    ('\u{9}' <= c && c <= '\u{d}') || c == ' ' || c == '\u{85}' || c == '\u{a0}' || c == '\u{1680}'
        || ('\u{2000}' <= c && c <= '\u{200a}') || c == '\u{2028}' || c == '\u{2029}' || c
        == '\u{202f}' || c == '\u{205f}' || c == '\u{3000}'
}

/// Index of the first character that is not white space, from `i` on.
pub open spec fn trim_start_index(s: Seq<char>, i: int) -> int
    decreases s.len() - i,
{
    if i >= s.len() || i < 0 {
        i
    } else if is_white_space(s[i]) {
        trim_start_index(s, i + 1)
    } else {
        i
    }
}

/// One past the last character that is not white space, at or below `j`.
pub open spec fn trim_end_index(s: Seq<char>, lo: int, j: int) -> int
    decreases j - lo,
{
    if j <= lo {
        lo
    } else if is_white_space(s[j - 1]) {
        trim_end_index(s, lo, j - 1)
    } else {
        j
    }
}

/// `s` without leading and trailing white space, as `str::trim` gives it.
pub open spec fn trim_spec(s: Seq<char>) -> Seq<char> {
    let lo = trim_start_index(s, 0);
    s.subrange(lo, trim_end_index(s, lo, s.len() as int))
}

proof fn lemma_trim_start_bounds(s: Seq<char>, i: int)
    requires
        0 <= i <= s.len(),
    ensures
        i <= trim_start_index(s, i) <= s.len(),
    decreases s.len() - i,
{
    if i < s.len() && is_white_space(s[i]) {
        lemma_trim_start_bounds(s, i + 1);
    }
}

proof fn lemma_trim_end_bounds(s: Seq<char>, lo: int, j: int)
    requires
        0 <= lo <= j <= s.len(),
    ensures
        lo <= trim_end_index(s, lo, j) <= j,
    decreases j - lo,
{
    if j > lo && is_white_space(s[j - 1]) {
        lemma_trim_end_bounds(s, lo, j - 1);
    }
}

/// The characters of `s` without leading and trailing white space.
pub fn trim_chars(s: &[char]) -> (r: Vec<char>)
    ensures
        r@ == trim_spec(s@),
{
    let mut lo: usize = 0;
    while lo < s.len() && is_whitespace(s[lo])
        invariant
            lo <= s@.len(),
            trim_start_index(s@, 0) == trim_start_index(s@, lo as int),
        decreases s@.len() - lo,
    {
        lo = lo + 1;
    }
    let mut hi: usize = s.len();
    while hi > lo && is_whitespace(s[hi - 1])
        invariant
            lo <= hi <= s@.len(),
            trim_end_index(s@, lo as int, s@.len() as int) == trim_end_index(s@, lo as int, hi as int),
        decreases hi - lo,
    {
        hi = hi - 1;
    }
    let mut out: Vec<char> = Vec::new();
    let mut i = lo;
    while i < hi
        invariant
            lo <= i <= hi <= s@.len(),
            out@ == s@.subrange(lo as int, i as int),
        decreases hi - i,
    {
        out.push(s[i]);
        assert(s@.subrange(lo as int, i + 1) == s@.subrange(lo as int, i as int).push(s@[i as int]));
        i = i + 1;
    }
    out
}

/// `str::trim` on a string, as a new `String`.
pub fn trim(s: &str) -> (r: String)
    ensures
        r@ == trim_spec(s@),
{
    let chars = chars_of(s);
    let t = trim_chars(chars.as_slice());
    string_from_chars(t.as_slice())
}

/// ASCII lower-casing of one character; other characters are unchanged.
pub open spec fn ascii_lower(c: char) -> char {
    if 'A' <= c && c <= 'Z' {
        ((c as u32) + 32) as char
    } else {
        c
    }
}

pub fn to_ascii_lower(c: char) -> (r: char)
    ensures
        r == ascii_lower(c),
{
    if 'A' <= c && c <= 'Z' {
        ((c as u8) + 32) as char
    } else {
        c
    }
}

/// `a.eq_ignore_ascii_case(b)`: equal up to ASCII case.
pub open spec fn eq_ignore_ascii_case_spec(a: Seq<char>, b: Seq<char>) -> bool {
    a.len() == b.len() && forall|i: int| 0 <= i < a.len() ==> ascii_lower(a[i]) == ascii_lower(b[i])
}

pub fn eq_ignore_ascii_case(a: &[char], b: &[char]) -> (r: bool)
    ensures
        r == eq_ignore_ascii_case_spec(a@, b@),
{
    if a.len() != b.len() {
        return false;
    }
    let mut i: usize = 0;
    while i < a.len()
        invariant
            a@.len() == b@.len(),
            i <= a@.len(),
            forall|j: int| 0 <= j < i ==> ascii_lower(a@[j]) == ascii_lower(b@[j]),
        decreases a@.len() - i,
    {
        if to_ascii_lower(a[i]) != to_ascii_lower(b[i]) {
            return false;
        }
        i = i + 1;
    }
    true
}

/// Whether `pattern` occurs in `s` starting at index `i`.
pub open spec fn occurs_at(s: Seq<char>, pattern: Seq<char>, i: int) -> bool {
    0 <= i && i + pattern.len() <= s.len() && s.subrange(i, i + pattern.len()) == pattern
}

/// The first index at or after `from` where `pattern` occurs in `s`.
pub open spec fn find_from(s: Seq<char>, pattern: Seq<char>, from: int) -> Option<int>
    decreases s.len() + 1 - from,
{
    if from < 0 || from + pattern.len() > s.len() {
        None
    } else if occurs_at(s, pattern, from) {
        Some(from)
    } else {
        find_from(s, pattern, from + 1)
    }
}

pub fn occurs_at_exec(s: &[char], pattern: &[char], i: usize) -> (r: bool)
    ensures
        r == occurs_at(s@, pattern@, i as int),
{
    if i > s.len() || s.len() - i < pattern.len() {
        return false;
    }
    let n = s.len();
    let mut k: usize = 0;
    while k < pattern.len()
        invariant
            n == s@.len(),
            i <= s@.len(),
            i + pattern@.len() <= s@.len(),
            k <= pattern@.len(),
            forall|j: int| 0 <= j < k ==> s@[i + j] == pattern@[j],
        decreases pattern@.len() - k,
    {
        assert(i + k < s@.len());
        if s[i + k] != pattern[k] {
            assert(s@.subrange(i as int, i + pattern@.len())[k as int] != pattern@[k as int]);
            return false;
        }
        k = k + 1;
    }
    assert(s@.subrange(i as int, i + pattern@.len()) =~= pattern@);
    true
}

/// The first occurrence of `pattern` in `s` at or after `from`.
pub fn find_chars(s: &[char], pattern: &[char], from: usize) -> (r: Option<usize>)
    ensures
        r is Some <==> find_from(s@, pattern@, from as int) is Some,
        r matches Some(i) ==> find_from(s@, pattern@, from as int) == Some(i as int),
{
    let mut i = from;
    loop
        invariant
            from <= i,
            find_from(s@, pattern@, from as int) == find_from(s@, pattern@, i as int),
        decreases s@.len() + 1 - i,
    {
        if i > s.len() || s.len() - i < pattern.len() {
            return None;
        }
        if occurs_at_exec(s, pattern, i) {
            return Some(i);
        }
        proof {
            if pattern@.len() == 0 {
                assert(s@.subrange(i as int, i as int) =~= pattern@);
            }
        }
        i = i + 1;
    }
}

/// Whether `pattern` occurs anywhere in `s`.
pub open spec fn contains_spec(s: Seq<char>, pattern: Seq<char>) -> bool {
    find_from(s, pattern, 0) is Some
}

/// Whether `c` is one of `set`.
pub open spec fn one_of(c: char, set: Seq<char>) -> bool {
    exists|i: int| 0 <= i < set.len() && set[i] == c
}

pub fn is_one_of(c: char, set: &[char]) -> (r: bool)
    ensures
        r == one_of(c, set@),
{
    let mut i: usize = 0;
    while i < set.len()
        invariant
            i <= set@.len(),
            forall|j: int| 0 <= j < i ==> set@[j] != c,
        decreases set@.len() - i,
    {
        if set[i] == c {
            return true;
        }
        i = i + 1;
    }
    false
}

/// The index of the first character of `s`, from `i` on, that is one of
/// `seps`, or the length of `s`.
pub open spec fn first_sep_from(s: Seq<char>, seps: Seq<char>, i: int) -> int
    decreases s.len() - i,
{
    if i < 0 || i >= s.len() {
        s.len() as int
    } else if one_of(s[i], seps) {
        i
    } else {
        first_sep_from(s, seps, i + 1)
    }
}

/// The first piece of `s.split(seps)`: everything before the first separator.
pub open spec fn first_piece(s: Seq<char>, seps: Seq<char>) -> Seq<char> {
    s.subrange(0, first_sep_from(s, seps, 0))
}

pub proof fn lemma_first_sep_bounds(s: Seq<char>, seps: Seq<char>, i: int)
    requires
        0 <= i <= s.len(),
    ensures
        i <= first_sep_from(s, seps, i) <= s.len(),
    decreases s.len() - i,
{
    if i < s.len() && !one_of(s[i], seps) {
        lemma_first_sep_bounds(s, seps, i + 1);
    }
}

/// Index of the first separator in `s` from `from` on, or `s.len()`.
pub fn first_sep(s: &[char], seps: &[char], from: usize) -> (r: usize)
    requires
        from <= s@.len(),
    ensures
        r == first_sep_from(s@, seps@, from as int),
        from <= r <= s@.len(),
{
    let mut i = from;
    while i < s.len() && !is_one_of(s[i], seps)
        invariant
            from <= i <= s@.len(),
            first_sep_from(s@, seps@, from as int) == first_sep_from(s@, seps@, i as int),
        decreases s@.len() - i,
    {
        i = i + 1;
    }
    i
}

/// The pieces of `s.split(sep)` that start at index `start`.
pub open spec fn split_from(s: Seq<char>, sep: char, start: int) -> Seq<Seq<char>>
    decreases s.len() - start,
{
    if start < 0 || start > s.len() {
        seq![]
    } else {
        let cut = first_sep_from(s, seq![sep], start);
        proof {
            lemma_first_sep_bounds(s, seq![sep], start);
        }
        if cut >= s.len() {
            seq![s.subrange(start, s.len() as int)]
        } else {
            seq![s.subrange(start, cut)] + split_from(s, sep, cut + 1)
        }
    }
}

/// The pieces of `s.split(sep)`, in order; there is always at least one.
pub open spec fn split_spec(s: Seq<char>, sep: char) -> Seq<Seq<char>> {
    split_from(s, sep, 0)
}

/// The views of a vector of character vectors.
pub open spec fn views(v: Seq<Vec<char>>) -> Seq<Seq<char>> {
    v.map_values(|x: Vec<char>| x@)
}

/// The pieces of `s.split(sep)`.
pub fn split_chars(s: &[char], sep: char) -> (r: Vec<Vec<char>>)
    ensures
        views(r@) == split_spec(s@, sep),
{
    let seps: Vec<char> = vec![sep];
    let mut pieces: Vec<Vec<char>> = Vec::new();
    let mut start: usize = 0;
    loop
        invariant
            start <= s@.len(),
            seps@ == seq![sep],
            views(pieces@) + split_from(s@, sep, start as int) == split_spec(s@, sep),
        decreases s@.len() - start,
    {
        let cut = first_sep(s, seps.as_slice(), start);
        let mut piece: Vec<char> = Vec::new();
        let mut k = start;
        while k < cut
            invariant
                start <= k <= cut <= s@.len(),
                piece@ == s@.subrange(start as int, k as int),
            decreases cut - k,
        {
            piece.push(s[k]);
            assert(s@.subrange(start as int, k + 1) == s@.subrange(start as int, k as int).push(s@[k as int]));
            k = k + 1;
        }
        let ghost old_pieces = pieces@;
        pieces.push(piece);
        proof {
            assert(views(pieces@) == views(old_pieces).push(piece@));
        }
        if cut >= s.len() {
            proof {
                assert(views(pieces@) =~= split_spec(s@, sep));
            }
            return pieces;
        }
        proof {
            assert(views(old_pieces) + split_from(s@, sep, start as int) == views(pieces@) + split_from(s@, sep, cut + 1));
        }
        start = cut + 1;
    }
}

/// Separator search in a suffix matches the search in the whole.
proof fn lemma_first_sep_shift(s: Seq<char>, seps: Seq<char>, start: int, i: int)
    requires
        0 <= start <= i <= s.len(),
    ensures
        first_sep_from(s.subrange(start, s.len() as int), seps, i - start) + start == first_sep_from(s, seps, i),
    decreases s.len() - i,
{
    if i < s.len() && !one_of(s[i], seps) {
        lemma_first_sep_shift(s, seps, start, i + 1);
    }
}

pub open spec fn is_digit(c: char) -> bool {
    '0' <= c && c <= '9'
}

/// The text after an optional leading `+`.
pub open spec fn unsigned_digits(s: Seq<char>) -> Seq<char> {
    if s.len() > 0 && s[0] == '+' {
        s.drop_first()
    } else {
        s
    }
}

/// Every character is an ASCII digit.
pub open spec fn all_digits(d: Seq<char>) -> bool {
    forall|i: int| 0 <= i < d.len() ==> is_digit(#[trigger] d[i])
}

/// The decimal value of a string of digits.
pub open spec fn digits_value(s: Seq<char>) -> nat
    decreases s.len(),
{
    if s.len() == 0 {
        0
    } else {
        digits_value(s.drop_last()) * 10 + ((s.last() as u32) - ('0' as u32)) as nat
    }
}

/// `str::parse::<u32>`: an optional `+`, then one or more ASCII digits whose
/// value fits in a `u32`.
pub open spec fn parse_u32_spec(s: Seq<char>) -> Option<u32> {
    let d = unsigned_digits(s);
    if d.len() == 0 || !all_digits(d) || digits_value(d) > u32::MAX {
        None
    } else {
        Some(digits_value(d) as u32)
    }
}

proof fn lemma_digits_value_grows(d: Seq<char>, k: int)
    requires
        0 <= k <= d.len(),
        all_digits(d),
    ensures
        digits_value(d.subrange(0, k)) <= digits_value(d),
    decreases d.len() - k,
{
    if k < d.len() {
        lemma_digits_value_grows(d, k + 1);
        assert(d.subrange(0, k + 1).drop_last() == d.subrange(0, k));
    } else {
        assert(d.subrange(0, k) == d);
    }
}

/// Parses a `u32` the way `str::parse::<u32>` does.
pub fn parse_u32(s: &[char]) -> (r: Option<u32>)
    ensures
        r == parse_u32_spec(s@),
{
    let start: usize = if s.len() > 0 && s[0] == '+' { 1 } else { 0 };
    let ghost d = unsigned_digits(s@);
    assert(d == s@.subrange(start as int, s@.len() as int));
    if start >= s.len() {
        return None;
    }
    let mut value: u64 = 0;
    let mut i = start;
    while i < s.len()
        invariant
            start <= i <= s@.len(),
            d == s@.subrange(start as int, s@.len() as int),
            d == unsigned_digits(s@),
            d.len() > 0,
            forall|j: int| start <= j < i ==> is_digit(#[trigger] s@[j]),
            value == digits_value(s@.subrange(start as int, i as int)),
            value <= u32::MAX,
        decreases s@.len() - i,
    {
        let c = s[i];
        if !('0' <= c && c <= '9') {
            assert(!is_digit(d[i - start]));
            assert(!all_digits(d));
            assert(parse_u32_spec(s@) is None);
            return None;
        }
        let digit = (c as u32 - '0' as u32) as u64;
        proof {
            assert(s@.subrange(start as int, i + 1).drop_last() == s@.subrange(start as int, i as int));
        }
        value = value * 10 + digit;
        if value > 0xffff_ffff {
            let r = parse_u32_overflow(s, start, i + 1, Ghost(d));
            assert(parse_u32_spec(s@) is None);
            return r;
        }
        i = i + 1;
    }
    proof {
        assert(s@.subrange(start as int, s@.len() as int) == d);
    }
    Some(value as u32)
}

/// Finishes a parse whose digits up to `i` already exceed `u32::MAX`: the
/// result is `None` either way.
fn parse_u32_overflow(s: &[char], start: usize, i: usize, d: Ghost<Seq<char>>) -> (r: Option<u32>)
    requires
        start <= i <= s@.len(),
        d@ == s@.subrange(start as int, s@.len() as int),
        forall|j: int| start <= j < i ==> is_digit(#[trigger] s@[j]),
        digits_value(s@.subrange(start as int, i as int)) > u32::MAX,
    ensures
        r is None,
        d@.len() == 0 || !all_digits(d@) || digits_value(d@) > u32::MAX,
{
    proof {
        if all_digits(d@) {
            lemma_digits_value_grows(d@, i - start);
            assert(d@.subrange(0, i - start) == s@.subrange(start as int, i as int));
        }
    }
    None
}

/// `str::parse::<u64>`: an optional `+`, then one or more ASCII digits whose
/// value fits in a `u64`.
pub open spec fn parse_u64_spec(s: Seq<char>) -> Option<u64> {
    let d = unsigned_digits(s);
    if d.len() == 0 || !all_digits(d) || digits_value(d) > u64::MAX {
        None
    } else {
        Some(digits_value(d) as u64)
    }
}

/// Parses a `u64` the way `str::parse::<u64>` does.
pub fn parse_u64(s: &[char]) -> (r: Option<u64>)
    ensures
        r == parse_u64_spec(s@),
{
    let start: usize = if s.len() > 0 && s[0] == '+' { 1 } else { 0 };
    let ghost d = unsigned_digits(s@);
    assert(d == s@.subrange(start as int, s@.len() as int));
    if start >= s.len() {
        return None;
    }
    let mut value: u64 = 0;
    let mut i = start;
    while i < s.len()
        invariant
            start <= i <= s@.len(),
            d == s@.subrange(start as int, s@.len() as int),
            d == unsigned_digits(s@),
            d.len() > 0,
            forall|j: int| start <= j < i ==> is_digit(#[trigger] s@[j]),
            value == digits_value(s@.subrange(start as int, i as int)),
        decreases s@.len() - i,
    {
        let c = s[i];
        if !('0' <= c && c <= '9') {
            assert(!is_digit(d[i - start]));
            return None;
        }
        let digit = (c as u32 - '0' as u32) as u64;
        proof {
            assert(s@.subrange(start as int, i + 1).drop_last() == s@.subrange(start as int, i as int));
        }
        let next = match value.checked_mul(10) {
            Some(m) => m.checked_add(digit),
            None => None,
        };
        match next {
            Some(v) => {
                value = v;
            },
            None => {
                proof {
                    if all_digits(d) {
                        lemma_digits_value_grows(d, i + 1 - start);
                        assert(d.subrange(0, i + 1 - start) == s@.subrange(start as int, i + 1));
                    }
                }
                return None;
            },
        }
        i = i + 1;
    }
    proof {
        assert(s@.subrange(start as int, s@.len() as int) == d);
    }
    Some(value)
}

/// The white-space-separated words of `s[i..]`, where `cur` is the part of a
/// word already read before `i`.
pub open spec fn words_acc(s: Seq<char>, i: int, cur: Seq<char>) -> Seq<Seq<char>>
    decreases s.len() - i,
{
    if i >= s.len() {
        if cur.len() > 0 {
            seq![cur]
        } else {
            Seq::empty()
        }
    } else if is_white_space(s[i]) {
        (if cur.len() > 0 {
            seq![cur]
        } else {
            Seq::empty()
        }) + words_acc(s, i + 1, Seq::empty())
    } else {
        words_acc(s, i + 1, cur.push(s[i]))
    }
}

/// The words that `split_whitespace` yields, in order.
pub open spec fn words(s: Seq<char>) -> Seq<Seq<char>> {
    words_acc(s, 0, Seq::empty())
}

/// Splits `s` at white space, as `split_whitespace` does.
pub fn split_words(s: &[char]) -> (r: Vec<Vec<char>>)
    ensures
        views(r@) == words(s@),
{
    let mut out: Vec<Vec<char>> = Vec::new();
    let mut cur: Vec<char> = Vec::new();
    let mut i: usize = 0;
    while i < s.len()
        invariant
            i <= s@.len(),
            views(out@) + words_acc(s@, i as int, cur@) == words(s@),
        decreases s@.len() - i,
    {
        let ghost before = out@;
        if is_whitespace(s[i]) {
            if cur.len() > 0 {
                let ghost word = cur@;
                out.push(cur);
                cur = Vec::new();
                proof {
                    assert(views(out@) =~= views(before).push(word));
                    assert(views(before) + (seq![word] + words_acc(s@, i + 1, Seq::empty())) =~= views(out@)
                        + words_acc(s@, i + 1, cur@));
                }
            } else {
                proof {
                    assert(cur@ =~= Seq::<char>::empty());
                    assert(Seq::<Seq<char>>::empty() + words_acc(s@, i + 1, Seq::empty()) =~= words_acc(
                        s@,
                        i + 1,
                        cur@,
                    ));
                }
            }
        } else {
            cur.push(s[i]);
        }
        i = i + 1;
    }
    if cur.len() > 0 {
        let ghost before = out@;
        let ghost word = cur@;
        out.push(cur);
        proof {
            assert(views(out@) =~= views(before).push(word));
            assert(views(before) + seq![word] =~= views(out@));
        }
    } else {
        proof {
            assert(views(out@) + Seq::<Seq<char>>::empty() =~= views(out@));
        }
    }
    out
}

/// A lowercase hexadecimal digit.
pub open spec fn hex_digit(n: nat) -> char {
    if n < 10 {
        (('0' as u32) + n) as char
    } else {
        (('a' as u32) + n - 10) as char
    }
}

/// Lowercase hexadecimal text of `bytes`, two digits per byte, as
/// `hex::encode` writes it.
pub open spec fn hex_spec(bytes: Seq<u8>) -> Seq<char>
    decreases bytes.len(),
{
    if bytes.len() == 0 {
        seq![]
    } else {
        hex_spec(bytes.drop_last()) + seq![
            hex_digit(bytes.last() as nat / 16),
            hex_digit(bytes.last() as nat % 16),
        ]
    }
}

/// Hex text has two digits per byte.
pub proof fn lemma_hex_spec_len(bytes: Seq<u8>)
    ensures
        hex_spec(bytes).len() == 2 * bytes.len(),
    decreases bytes.len(),
{
    if bytes.len() > 0 {
        lemma_hex_spec_len(bytes.drop_last());
    }
}

fn hex_char(n: u8) -> (r: char)
    requires
        n < 16,
    ensures
        r == hex_digit(n as nat),
{
    if n < 10 {
        (48u8 + n) as char
    } else {
        (97u8 + n - 10) as char
    }
}

/// Decimal text of `n`, without leading zeros, as `{}` formats an integer.
pub open spec fn decimal_spec(n: nat) -> Seq<char>
    decreases n,
{
    if n < 10 {
        seq![hex_digit(n)]
    } else {
        decimal_spec(n / 10).push(hex_digit(n % 10))
    }
}

/// Decimal text is a non-empty run of digits with the value it spells.
pub proof fn lemma_decimal_digits(n: nat)
    ensures
        decimal_spec(n).len() > 0,
        all_digits(decimal_spec(n)),
        digits_value(decimal_spec(n)) == n,
    decreases n,
{
    let k = n % 10;
    assert(((hex_digit(k) as u32) - ('0' as u32)) as nat == k);
    if n < 10 {
        assert(decimal_spec(n).drop_last() =~= Seq::<char>::empty());
        assert(digits_value(decimal_spec(n)) == digits_value(decimal_spec(n).drop_last()) * 10 + ((decimal_spec(
            n,
        ).last() as u32) - ('0' as u32)) as nat);
    } else {
        lemma_decimal_digits(n / 10);
        let d = decimal_spec(n / 10);
        assert(decimal_spec(n).drop_last() == d);
        assert(decimal_spec(n).last() == hex_digit(k));
        assert(n == (n / 10) * 10 + k);
        assert(digits_value(decimal_spec(n)) == digits_value(d) * 10 + ((decimal_spec(n).last() as u32) - (
        '0' as u32)) as nat);
        assert forall|i: int| 0 <= i < decimal_spec(n).len() implies is_digit(#[trigger] decimal_spec(n)[i]) by {
            if i < d.len() {
                assert(decimal_spec(n)[i] == d[i]);
            }
        }
    }
}

/// Parsing the decimal text of a `u64` gives it back.
pub proof fn lemma_parse_decimal(n: u64)
    ensures
        parse_u64_spec(decimal_spec(n as nat)) == Some(n),
{
    lemma_decimal_digits(n as nat);
    assert(is_digit(decimal_spec(n as nat)[0]));
}

/// Reading `k` characters that are not white space extends the current word.
proof fn lemma_words_acc_word(s: Seq<char>, i: int, cur: Seq<char>, k: int)
    requires
        0 <= i,
        0 <= k,
        i + k <= s.len(),
        forall|j: int| i <= j < i + k ==> !is_white_space(#[trigger] s[j]),
    ensures
        words_acc(s, i, cur) == words_acc(s, i + k, cur + s.subrange(i, i + k)),
    decreases k,
{
    if k > 0 {
        lemma_words_acc_word(s, i + 1, cur.push(s[i]), k - 1);
        assert(cur.push(s[i]) + s.subrange(i + 1, i + k) =~= cur + s.subrange(i, i + k));
    } else {
        assert(cur + s.subrange(i, i) =~= cur);
    }
}

/// Digits are never white space.
proof fn lemma_digits_not_white(d: Seq<char>)
    requires
        all_digits(d),
    ensures
        forall|j: int| 0 <= j < d.len() ==> !is_white_space(#[trigger] d[j]),
{
    assert forall|j: int| 0 <= j < d.len() implies !is_white_space(#[trigger] d[j]) by {
        assert(is_digit(d[j]));
    }
}

/// Three runs of digits, separated by spaces and ended by a newline, are
/// three words.
pub proof fn lemma_words_of_three(a: Seq<char>, b: Seq<char>, c: Seq<char>)
    requires
        a.len() > 0 && b.len() > 0 && c.len() > 0,
        all_digits(a) && all_digits(b) && all_digits(c),
    ensures
        words(a + seq![' '] + b + seq![' '] + c + seq!['\n']) == seq![a, b, c],
{
    let t = a + seq![' '] + b + seq![' '] + c + seq!['\n'];
    let la = a.len() as int;
    let lb = b.len() as int;
    let lc = c.len() as int;
    lemma_digits_not_white(a);
    lemma_digits_not_white(b);
    lemma_digits_not_white(c);
    assert(t.subrange(0, la) =~= a);
    assert(t.subrange(la + 1, la + 1 + lb) =~= b);
    assert(t.subrange(la + lb + 2, la + lb + 2 + lc) =~= c);
    assert forall|j: int| 0 <= j < la implies !is_white_space(#[trigger] t[j]) by {
        assert(t[j] == a[j]);
    }
    assert forall|j: int| la + 1 <= j < la + 1 + lb implies !is_white_space(#[trigger] t[j]) by {
        assert(t[j] == b[j - la - 1]);
    }
    assert forall|j: int| la + lb + 2 <= j < la + lb + 2 + lc implies !is_white_space(#[trigger] t[j]) by {
        assert(t[j] == c[j - la - lb - 2]);
    }
    let e = Seq::<char>::empty();
    lemma_words_acc_word(t, 0, e, la);
    assert(e + a =~= a);
    assert(t[la] == ' ');
    lemma_words_acc_word(t, la + 1, e, lb);
    assert(e + b =~= b);
    assert(t[la + 1 + lb] == ' ');
    lemma_words_acc_word(t, la + lb + 2, e, lc);
    assert(e + c =~= c);
    assert(t[la + lb + 2 + lc] == '\n');
    assert(t.len() == la + lb + lc + 3);
    let none = Seq::<Seq<char>>::empty();
    assert(words_acc(t, la + lb + lc + 3, e) == none);
    assert(seq![a] + (seq![b] + (seq![c] + none)) =~= seq![a, b, c]);
}

fn push_decimal(out: &mut String, n: u64)
    ensures
        final(out)@ == old(out)@ + decimal_spec(n as nat),
    decreases n,
{
    let ghost start = out@;
    if n >= 10 {
        push_decimal(out, n / 10);
    }
    push_char(out, hex_char((n % 10) as u8));
    proof {
        if n < 10 {
            assert(start.push(hex_digit(n as nat)) =~= start + seq![hex_digit(n as nat)]);
        } else {
            let d = decimal_spec((n / 10) as nat);
            assert((start + d).push(hex_digit((n % 10) as nat)) =~= start + d.push(hex_digit((n % 10) as nat)));
        }
    }
}

/// Decimal text of `n`.
pub fn decimal_string(n: u64) -> (r: String)
    ensures
        r@ == decimal_spec(n as nat),
{
    let mut out = String::new();
    push_decimal(&mut out, n);
    assert(Seq::<char>::empty() + decimal_spec(n as nat) =~= decimal_spec(n as nat));
    out
}

/// Lowercase hexadecimal text of `bytes`.
pub fn hex_string(bytes: &[u8]) -> (r: String)
    ensures
        r@ == hex_spec(bytes@),
{
    let mut out = String::new();
    let mut i: usize = 0;
    while i < bytes.len()
        invariant
            i <= bytes@.len(),
            out@ == hex_spec(bytes@.subrange(0, i as int)),
        decreases bytes@.len() - i,
    {
        let byte = bytes[i];
        push_char(&mut out, hex_char(byte / 16));
        push_char(&mut out, hex_char(byte % 16));
        proof {
            let p = bytes@.subrange(0, i + 1);
            assert(p.drop_last() == bytes@.subrange(0, i as int));
            assert(p.last() == byte);
        }
        i = i + 1;
    }
    assert(bytes@.subrange(0, bytes@.len() as int) == bytes@);
    out
}

/// The Unicode lower-case mapping of a string, as `str::to_lowercase`
/// computes it from the Unicode character tables.
pub uninterp spec fn unicode_lowercase(s: Seq<char>) -> Seq<char>;

/// `str::to_lowercase`. The result depends on the text alone (Unicode
/// tables, no locale); its mapping is named, not stated here.
#[verifier::external_body]
pub(crate) fn to_lowercase(s: &str) -> (r: String)
    ensures
        r@ == unicode_lowercase(s@),
{
    s.to_lowercase()
}

/// A copy of `s@.subrange(from, to)`.
pub fn sub_vec(s: &[char], from: usize, to: usize) -> (r: Vec<char>)
    requires
        from <= to <= s@.len(),
    ensures
        r@ == s@.subrange(from as int, to as int),
{
    let mut out: Vec<char> = Vec::new();
    let mut i = from;
    while i < to
        invariant
            from <= i <= to <= s@.len(),
            out@ == s@.subrange(from as int, i as int),
        decreases to - i,
    {
        out.push(s[i]);
        assert(s@.subrange(from as int, i + 1) == s@.subrange(from as int, i as int).push(s@[i as int]));
        i = i + 1;
    }
    out
}

/// `a <= b` in lexicographic order of code points, which is the byte order
/// of their UTF-8 encodings that `String`'s `Ord` uses.
pub open spec fn lex_le(a: Seq<char>, b: Seq<char>) -> bool
    decreases a.len(),
{
    if a.len() == 0 {
        true
    } else if b.len() == 0 {
        false
    } else if a[0] != b[0] {
        (a[0] as int) < (b[0] as int)
    } else {
        lex_le(a.drop_first(), b.drop_first())
    }
}

pub fn lex_le_exec(a: &Vec<char>, b: &Vec<char>) -> (r: bool)
    ensures
        r == lex_le(a@, b@),
{
    let mut i: usize = 0;
    assert(a@.subrange(0, a@.len() as int) =~= a@);
    assert(b@.subrange(0, b@.len() as int) =~= b@);
    while i < a.len() && i < b.len()
        invariant
            i <= a@.len(),
            i <= b@.len(),
            lex_le(a@, b@) == lex_le(a@.subrange(i as int, a@.len() as int), b@.subrange(i as int, b@.len() as int)),
        decreases a@.len() - i,
    {
        let ghost sa = a@.subrange(i as int, a@.len() as int);
        let ghost sb = b@.subrange(i as int, b@.len() as int);
        if a[i] != b[i] {
            return a[i] < b[i];
        }
        assert(sa.drop_first() =~= a@.subrange(i + 1, a@.len() as int));
        assert(sb.drop_first() =~= b@.subrange(i + 1, b@.len() as int));
        i = i + 1;
    }
    i == a.len()
}


pub proof fn lemma_lex_reflexive(a: Seq<char>)
    ensures
        lex_le(a, a),
    decreases a.len(),
{
    if a.len() > 0 {
        lemma_lex_reflexive(a.drop_first());
    }
}

pub proof fn lemma_lex_total(a: Seq<char>, b: Seq<char>)
    ensures
        lex_le(a, b) || lex_le(b, a),
    decreases a.len(),
{
    if a.len() > 0 && b.len() > 0 {
        if a[0] == b[0] {
            lemma_lex_total(a.drop_first(), b.drop_first());
        }
    }
}

pub proof fn lemma_lex_transitive(a: Seq<char>, b: Seq<char>, c: Seq<char>)
    requires
        lex_le(a, b),
        lex_le(b, c),
    ensures
        lex_le(a, c),
    decreases a.len(),
{
    if a.len() > 0 && b.len() > 0 && c.len() > 0 && a[0] == b[0] && b[0] == c[0] {
        lemma_lex_transitive(a.drop_first(), b.drop_first(), c.drop_first());
    }
}



/// Inserts `x` after the last element that is not above it under `le`, as
/// one step of a stable insertion sort.
pub open spec fn insert_by<T>(s: Seq<T>, x: T, le: spec_fn(T, T) -> bool) -> Seq<T>
    decreases s.len(),
{
    if s.len() == 0 {
        seq![x]
    } else if le(s.last(), x) {
        s.push(x)
    } else {
        insert_by(s.drop_last(), x, le).push(s.last())
    }
}

/// `s` in the order of a stable sort under `le`.
pub open spec fn sort_by<T>(s: Seq<T>, le: spec_fn(T, T) -> bool) -> Seq<T>
    decreases s.len(),
{
    if s.len() == 0 {
        s
    } else {
        insert_by(sort_by(s.drop_last(), le), s.last(), le)
    }
}

/// Lexicographic order is antisymmetric.
pub proof fn lemma_lex_antisymmetric(a: Seq<char>, b: Seq<char>)
    requires
        lex_le(a, b),
        lex_le(b, a),
    ensures
        a == b,
    decreases a.len(),
{
    if a.len() > 0 && b.len() > 0 {
        lemma_lex_antisymmetric(a.drop_first(), b.drop_first());
        assert(a =~= seq![a[0]] + a.drop_first());
        assert(b =~= seq![b[0]] + b.drop_first());
    }
}

/// Insertion puts `x` at one position and keeps the rest in order around it.
pub proof fn lemma_insert_by_shape<T>(s: Seq<T>, x: T, le: spec_fn(T, T) -> bool)
    ensures
        exists|k: int|
            0 <= k <= s.len() && insert_by(s, x, le) == s.subrange(0, k).push(x) + s.subrange(k, s.len() as int),
    decreases s.len(),
{
    if s.len() == 0 {
        assert(insert_by(s, x, le) =~= s.subrange(0, 0).push(x) + s.subrange(0, 0));
    } else if le(s.last(), x) {
        let n = s.len() as int;
        assert(insert_by(s, x, le) =~= s.subrange(0, n).push(x) + s.subrange(n, n));
    } else {
        let front = s.drop_last();
        lemma_insert_by_shape(front, x, le);
        let k = choose|k: int|
            0 <= k <= front.len() && insert_by(front, x, le) == front.subrange(0, k).push(x) + front.subrange(
                k,
                front.len() as int,
            );
        assert(insert_by(s, x, le) =~= s.subrange(0, k).push(x) + s.subrange(k, s.len() as int));
    }
}

/// Dropping repeated neighbours keeps every value that occurs.
pub proof fn lemma_dedup_contains<T>(s: Seq<T>, x: T)
    requires
        s.contains(x),
    ensures
        dedup_adjacent(s).contains(x),
    decreases s.len(),
{
    if s.len() == 1 {
        assert(s[0] == x);
        assert(dedup_adjacent(s)[0] == x);
    } else if s.len() > 1 {
        let front = s.drop_last();
        let earlier = dedup_adjacent(front);
        if s.last() == x {
            if s.last() == s[s.len() - 2] {
                assert(front.contains(x)) by {
                    assert(front[s.len() - 2] == x);
                }
                lemma_dedup_contains(front, x);
            } else {
                assert(dedup_adjacent(s) == earlier.push(x));
                assert(dedup_adjacent(s)[earlier.len() as int] == x);
            }
        } else {
            let i = choose|i: int| 0 <= i < s.len() && s[i] == x;
            assert(front[i] == x);
            lemma_dedup_contains(front, x);
            let j = choose|j: int| 0 <= j < earlier.len() && earlier[j] == x;
            if !(s.last() == s[s.len() - 2]) {
                assert(dedup_adjacent(s)[j] == x);
            }
        }
    }
}

/// `s` is in order under `le`.
pub open spec fn sorted_by<T>(s: Seq<T>, le: spec_fn(T, T) -> bool) -> bool {
    forall|i: int, j: int| 0 <= i < j < s.len() ==> le(#[trigger] s[i], #[trigger] s[j])
}

/// `le` compares any two values, and transitively.
pub open spec fn total_preorder<T>(le: spec_fn(T, T) -> bool) -> bool {
    &&& forall|a: T, b: T| #[trigger] le(a, b) || le(b, a)
    &&& forall|a: T, b: T, c: T| #[trigger] le(a, b) && #[trigger] le(b, c) ==> le(a, c)
}

/// Inserting into an ordered sequence keeps it in order, and adds nothing
/// but `x`.
pub proof fn lemma_insert_by_sorted<T>(s: Seq<T>, x: T, le: spec_fn(T, T) -> bool)
    requires
        sorted_by(s, le),
        total_preorder(le),
    ensures
        sorted_by(insert_by(s, x, le), le),
        insert_by(s, x, le).len() == s.len() + 1,
        forall|k: int| 0 <= k < insert_by(s, x, le).len() ==> #[trigger] insert_by(s, x, le)[k] == x || s.contains(
            insert_by(s, x, le)[k],
        ),
    decreases s.len(),
{
    let r = insert_by(s, x, le);
    if s.len() == 0 {
        assert(r =~= seq![x]);
    } else if le(s.last(), x) {
        assert(r =~= s.push(x));
        assert forall|i: int, j: int| 0 <= i < j < r.len() implies le(#[trigger] r[i], #[trigger] r[j]) by {
            if j == s.len() {
                if i < s.len() - 1 {
                    assert(le(s[i], s[s.len() - 1]));
                }
            }
        }
        assert forall|k: int| 0 <= k < r.len() implies #[trigger] r[k] == x || s.contains(r[k]) by {
            if k < s.len() {
                assert(s[k] == r[k]);
            }
        }
    } else {
        let front = s.drop_last();
        assert forall|i: int, j: int| 0 <= i < j < front.len() implies le(#[trigger] front[i], #[trigger] front[j]) by {
            assert(front[i] == s[i] && front[j] == s[j]);
        }
        lemma_insert_by_sorted(front, x, le);
        let inner = insert_by(front, x, le);
        assert(r == inner.push(s.last()));
        assert forall|k: int| 0 <= k < inner.len() implies le(#[trigger] inner[k], s.last()) by {
            if inner[k] == x {
            } else {
                assert(front.contains(inner[k]));
                let m = choose|m: int| 0 <= m < front.len() && front[m] == inner[k];
                assert(front[m] == s[m]);
                assert(le(s[m], s[s.len() - 1]));
            }
        }
        assert forall|i: int, j: int| 0 <= i < j < r.len() implies le(#[trigger] r[i], #[trigger] r[j]) by {
            if j == r.len() - 1 {
                assert(r[i] == inner[i]);
                assert(le(inner[i], s.last()));
            } else {
                assert(r[i] == inner[i] && r[j] == inner[j]);
            }
        }
        assert forall|k: int| 0 <= k < r.len() implies #[trigger] r[k] == x || s.contains(r[k]) by {
            if k == r.len() - 1 {
                assert(s[s.len() - 1] == r[k]);
            } else {
                assert(r[k] == inner[k]);
                if inner[k] != x {
                    let m = choose|m: int| 0 <= m < front.len() && front[m] == inner[k];
                    assert(s[m] == r[k]);
                }
            }
        }
    }
}

/// Sorting under a total preorder puts the sequence in order.
pub proof fn lemma_sort_by_sorted<T>(s: Seq<T>, le: spec_fn(T, T) -> bool)
    requires
        total_preorder(le),
    ensures
        sorted_by(sort_by(s, le), le),
    decreases s.len(),
{
    if s.len() > 0 {
        lemma_sort_by_sorted(s.drop_last(), le);
        lemma_insert_by_sorted(sort_by(s.drop_last(), le), s.last(), le);
    }
}

/// Keeping some elements of an ordered sequence keeps it in order, and keeps
/// nothing else.
pub proof fn lemma_filter_sorted<T>(s: Seq<T>, pred: spec_fn(T) -> bool, le: spec_fn(T, T) -> bool)
    requires
        sorted_by(s, le),
    ensures
        sorted_by(s.filter(pred), le),
        forall|k: int| 0 <= k < s.filter(pred).len() ==> s.contains(#[trigger] s.filter(pred)[k]),
    decreases s.len(),
{
    reveal(Seq::filter);
    if s.len() > 0 {
        let front = s.drop_last();
        assert forall|i: int, j: int| 0 <= i < j < front.len() implies le(#[trigger] front[i], #[trigger] front[j]) by {
            assert(front[i] == s[i] && front[j] == s[j]);
        }
        lemma_filter_sorted(front, pred, le);
        let inner = front.filter(pred);
        let r = s.filter(pred);
        assert forall|k: int| 0 <= k < inner.len() implies s.contains(#[trigger] inner[k]) by {
            let m = choose|m: int| 0 <= m < front.len() && front[m] == inner[k];
            assert(s[m] == inner[k]);
        }
        if pred(s.last()) {
            assert(r == inner.push(s.last()));
            assert forall|i: int, j: int| 0 <= i < j < r.len() implies le(#[trigger] r[i], #[trigger] r[j]) by {
                assert(r[i] == inner[i]);
                if j == r.len() - 1 {
                    let m = choose|m: int| 0 <= m < front.len() && front[m] == inner[i];
                    assert(front[m] == s[m]);
                    assert(le(s[m], s[s.len() - 1]));
                } else {
                    assert(r[j] == inner[j]);
                }
            }
            assert forall|k: int| 0 <= k < r.len() implies s.contains(#[trigger] r[k]) by {
                if k == r.len() - 1 {
                    assert(s[s.len() - 1] == r[k]);
                } else {
                    assert(r[k] == inner[k]);
                }
            }
        } else {
            assert(r == inner);
        }
    }
}

/// Lexicographic order on text.
pub open spec fn text_le() -> spec_fn(Seq<char>, Seq<char>) -> bool {
    |a: Seq<char>, b: Seq<char>| lex_le(a, b)
}

/// `s` without elements equal to the one before them.
pub open spec fn dedup_adjacent<T>(s: Seq<T>) -> Seq<T>
    decreases s.len(),
{
    if s.len() <= 1 {
        s
    } else {
        let earlier = dedup_adjacent(s.drop_last());
        if s.last() == s[s.len() - 2] {
            earlier
        } else {
            earlier.push(s.last())
        }
    }
}

pub open spec fn texts_of(values: Seq<String>) -> Seq<Seq<char>> {
    values.map_values(|s: String| s@)
}

fn insert_text(values: &mut Vec<String>, x: String)
    ensures
        texts_of(final(values)@) == insert_by(texts_of(old(values)@), x@, text_le()),
{
    let ghost old_values = texts_of(values@);
    let ghost xv = x@;
    let key = chars_of(x.as_str());
    let mut j: usize = values.len();
    assert(old_values.subrange(0, old_values.len() as int) =~= old_values);
    assert(insert_by(old_values, xv, text_le()) + old_values.subrange(old_values.len() as int, old_values.len() as int)
        =~= insert_by(old_values, xv, text_le()));
    loop
        invariant
            j <= values@.len(),
            texts_of(values@) == old_values,
            key@ == xv,
            insert_by(old_values, xv, text_le()) == insert_by(old_values.subrange(0, j as int), xv, text_le())
                + old_values.subrange(j as int, old_values.len() as int),
        ensures
            j <= values@.len(),
            texts_of(values@) == old_values,
            insert_by(old_values, xv, text_le()) == insert_by(old_values.subrange(0, j as int), xv, text_le())
                + old_values.subrange(j as int, old_values.len() as int),
            j == 0 || lex_le(old_values[j - 1], xv),
        decreases j,
    {
        if j == 0 {
            break;
        }
        let other = chars_of(values[j - 1].as_str());
        if lex_le_exec(&other, &key) {
            break;
        }
        proof {
            let pre = old_values.subrange(0, j as int);
            assert(pre.last() == old_values[j - 1]);
            assert(pre.drop_last() =~= old_values.subrange(0, j - 1));
            assert(insert_by(pre, xv, text_le()) == insert_by(old_values.subrange(0, j - 1), xv, text_le()).push(
                old_values[j - 1],
            ));
            assert(insert_by(old_values.subrange(0, j - 1), xv, text_le()).push(old_values[j - 1])
                + old_values.subrange(j as int, old_values.len() as int) =~= insert_by(
                old_values.subrange(0, j - 1),
                xv,
                text_le(),
            ) + old_values.subrange(j - 1, old_values.len() as int));
        }
        j = j - 1;
    }
    proof {
        let pre = old_values.subrange(0, j as int);
        if j > 0 {
            assert(pre.last() == old_values[j - 1]);
        }
        assert(insert_by(pre, xv, text_le()) =~= pre.push(xv));
    }
    values.insert(j, x);
    assert(texts_of(values@) =~= old_values.subrange(0, j as int).push(xv) + old_values.subrange(
        j as int,
        old_values.len() as int,
    ));
}

/// The texts in the order of a stable lexicographic sort.
pub fn sort_texts(values: Vec<String>) -> (r: Vec<String>)
    ensures
        texts_of(r@) == sort_by(texts_of(values@), text_le()),
{
    let ghost input = texts_of(values@);
    let mut sorted: Vec<String> = Vec::new();
    let mut rest = values;
    let mut taken: usize = 0;
    let count = rest.len();
    assert(input.len() == count);
    while rest.len() > 0
        invariant
            taken + rest@.len() == input.len(),
            input.len() <= usize::MAX,
            texts_of(rest@) =~= input.subrange(taken as int, input.len() as int),
            texts_of(sorted@) == sort_by(input.subrange(0, taken as int), text_le()),
        decreases rest@.len(),
    {
        let ghost before = rest@;
        let x = rest.remove(0);
        proof {
            assert(texts_of(rest@) =~= texts_of(before).drop_first());
            assert(input.subrange(0, taken + 1).drop_last() =~= input.subrange(0, taken as int));
            assert(input.subrange(0, taken + 1).last() == input[taken as int]);
            assert(texts_of(before)[0] == input[taken as int]);
        }
        insert_text(&mut sorted, x);
        taken = taken + 1;
    }
    assert(input.subrange(0, input.len() as int) =~= input);
    sorted
}

/// The texts sorted lexicographically, keeping one of each run of equal
/// texts: the distinct texts in increasing order.
pub fn sorted_distinct_texts(values: Vec<String>) -> (r: Vec<String>)
    ensures
        texts_of(r@) == dedup_adjacent(sort_by(texts_of(values@), text_le())),
{
    let sorted = sort_texts(values);
    let ghost all = texts_of(sorted@);
    let mut out: Vec<String> = Vec::new();
    let mut i: usize = 0;
    while i < sorted.len()
        invariant
            i <= sorted@.len(),
            all == texts_of(sorted@),
            texts_of(out@) == dedup_adjacent(all.subrange(0, i as int)),
            i > 0 ==> out@.len() > 0 && out@.last()@ == all[i - 1],
        decreases sorted@.len() - i,
    {
        proof {
            let pre = all.subrange(0, i + 1);
            assert(pre.drop_last() =~= all.subrange(0, i as int));
            if i > 0 {
                assert(pre[pre.len() - 2] == all[i - 1]);
                lemma_dedup_keeps_last(all.subrange(0, i as int));
            }
        }
        let take = if i == 0 {
            true
        } else {
            !(sorted[i] == sorted[i - 1])
        };
        if take {
            out.push(sorted[i].clone());
            assert(texts_of(out@) =~= texts_of(out@).drop_last().push(all[i as int]));
        }
        i = i + 1;
    }
    assert(all.subrange(0, all.len() as int) =~= all);
    out
}

proof fn lemma_dedup_keeps_last<T>(s: Seq<T>)
    requires
        s.len() > 0,
    ensures
        dedup_adjacent(s).len() > 0,
        dedup_adjacent(s).last() == s.last(),
    decreases s.len(),
{
    if s.len() > 1 {
        lemma_dedup_keeps_last(s.drop_last());
    }
}


/// One insertion step keeps every element and adds `x`.
pub proof fn lemma_insert_by_multiset<T>(s: Seq<T>, x: T, le: spec_fn(T, T) -> bool)
    ensures
        insert_by(s, x, le).to_multiset() =~= s.to_multiset().insert(x),
    decreases s.len(),
{
    broadcast use vstd::seq_lib::group_to_multiset_ensures;
    if s.len() == 0 {
        assert(seq![x] =~= Seq::<T>::empty().push(x));
    } else {
        assert(s =~= s.drop_last().push(s.last()));
        if !le(s.last(), x) {
            lemma_insert_by_multiset(s.drop_last(), x, le);
        }
    }
}

/// Sorting keeps every element, as often as it occurs.
pub proof fn lemma_sort_by_multiset<T>(s: Seq<T>, le: spec_fn(T, T) -> bool)
    ensures
        sort_by(s, le).to_multiset() =~= s.to_multiset(),
    decreases s.len(),
{
    broadcast use vstd::seq_lib::group_to_multiset_ensures;
    if s.len() > 0 {
        lemma_sort_by_multiset(s.drop_last(), le);
        lemma_insert_by_multiset(sort_by(s.drop_last(), le), s.last(), le);
        assert(s =~= s.drop_last().push(s.last()));
    }
}

}
