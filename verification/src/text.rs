use vstd::prelude::*;

verus! {

broadcast use vstd::string::group_string_axioms;

/// ASCII whitespace as `u8::is_ascii_whitespace` defines it: space, tab,
/// line feed, form feed and carriage return.
pub open spec fn is_ascii_whitespace(c: char) -> bool {
    c == ' ' || c == '\t' || c == '\n' || c == '\x0C' || c == '\r'
}

/// Characters with the Unicode `White_Space` property, as `char::is_whitespace`
/// defines them.
pub open spec fn is_unicode_whitespace(c: char) -> bool {
    let u = c as u32;
    ||| 0x09 <= u <= 0x0D
    ||| u == 0x20
    ||| u == 0x85
    ||| u == 0xA0
    ||| u == 0x1680
    ||| 0x2000 <= u <= 0x200A
    ||| u == 0x2028
    ||| u == 0x2029
    ||| u == 0x202F
    ||| u == 0x205F
    ||| u == 0x3000
}

/// Whether `c` separates words: ASCII whitespace when `ascii`, Unicode
/// whitespace otherwise.
pub open spec fn is_separator(c: char, ascii: bool) -> bool {
    if ascii {
        is_ascii_whitespace(c)
    } else {
        is_unicode_whitespace(c)
    }
}

/// The maximal runs of non-separator characters of `s`, in order: what
/// `split_ascii_whitespace` (when `ascii`) or `split_whitespace` yields.
pub open spec fn words(s: Seq<char>, ascii: bool) -> Seq<Seq<char>>
    decreases s.len(),
{
    if s.len() == 0 {
        seq![]
    } else {
        let before = words(s.drop_last(), ascii);
        let c = s.last();
        if is_separator(c, ascii) {
            before
        } else if s.len() == 1 || is_separator(s[s.len() - 2], ascii) {
            before.push(seq![c])
        } else {
            before.update(before.len() - 1, before.last().push(c))
        }
    }
}

/// The views of a sequence of strings.
pub open spec fn views(v: Seq<String>) -> Seq<Seq<char>> {
    v.map_values(|s: String| s@)
}

/// Appends one character to a string.
#[verifier::external_body]
pub(crate) fn push_char(s: &mut String, c: char)
    ensures
        final(s)@ == old(s)@.push(c),
{
    s.push(c)
}

/// Compares two strings by their characters.
pub(crate) fn str_equal(a: &str, b: &str) -> (equal: bool)
    ensures
        equal == (a@ == b@),
{
    let x = a.to_owned();
    let y = b.to_owned();
    x == y
}

/// Whether `list` holds a string equal to `s`.
pub fn contains_str(list: &Vec<String>, s: &str) -> (found: bool)
    ensures
        found == views(list@).contains(s@),
{
    let mut i: usize = 0;
    while i < list.len()
        invariant
            0 <= i <= list.len(),
            forall|j: int| 0 <= j < i ==> list@[j]@ != s@,
        decreases list.len() - i,
    {
        if str_equal(list[i].as_str(), s) {
            assert(views(list@)[i as int] == s@);
            return true;
        }
        i = i + 1;
    }
    assert forall|j: int| 0 <= j < views(list@).len() implies views(list@)[j] != s@ by {
        assert(views(list@)[j] == list@[j]@);
    }
    false
}

/// Whether `c` separates words (see `is_separator`).
pub fn is_whitespace_char(c: char, ascii: bool) -> (b: bool)
    ensures
        b == is_separator(c, ascii),
{
    let u = c as u32;
    if ascii {
        c == ' ' || c == '\t' || c == '\n' || c == '\x0C' || c == '\r'
    } else {
        (0x09 <= u && u <= 0x0D) || u == 0x20 || u == 0x85 || u == 0xA0 || u == 0x1680 || (0x2000
            <= u && u <= 0x200A) || u == 0x2028 || u == 0x2029 || u == 0x202F || u == 0x205F || u
            == 0x3000
    }
}

/// Splits `s` into its words (see `words`).
pub fn split_words(s: &str, ascii: bool) -> (result: Vec<String>)
    ensures
        views(result@) == words(s@, ascii),
{
    let mut result: Vec<String> = Vec::new();
    let mut current = String::new();
    let mut in_word = false;
    for c in it: s.chars()
        invariant
            it.seq() == s@,
            (if in_word { views(result@).push(current@) } else { views(result@) }) == words(
                s@.take(it.index()),
                ascii,
            ),
            in_word == (it.index() > 0 && !is_separator(s@[it.index() - 1], ascii)),
            !in_word ==> current@ == Seq::<char>::empty(),
    {
        let ghost prefix = s@.take(it.index());
        let ghost next = s@.take(it.index() + 1);
        let ghost before = views(result@);
        let ghost before_current = current@;
        assert(next.drop_last() == prefix);
        assert(next.last() == c);
        if is_whitespace_char(c, ascii) {
            if in_word {
                result.push(current);
                current = String::new();
                in_word = false;
                assert(views(result@) == before.push(before_current));
            }
        } else {
            push_char(&mut current, c);
            if !in_word {
                assert(before_current == Seq::<char>::empty());
            }
            in_word = true;
        }
    }
    if in_word {
        result.push(current);
    }
    assert(s@.take(s@.len() as int) == s@);
    result
}

/// The number that a string of decimal digits denotes.
pub open spec fn digits_value(d: Seq<char>) -> int
    decreases d.len(),
{
    if d.len() == 0 {
        0
    } else {
        digits_value(d.drop_last()) * 10 + (d.last() as int - '0' as int)
    }
}

/// Whether `c` is an ASCII decimal digit.
pub open spec fn is_digit(c: char) -> bool {
    '0' <= c <= '9'
}

/// Whether every character of `d` is an ASCII decimal digit.
pub open spec fn all_digits(d: Seq<char>) -> bool {
    forall|i: int| 0 <= i < d.len() ==> is_digit(#[trigger] d[i])
}

/// What follows an optional leading `+`.
pub open spec fn unsigned_digits(t: Seq<char>) -> Seq<char> {
    if t.len() > 0 && t[0] == '+' {
        t.drop_first()
    } else {
        t
    }
}

/// How `str::parse` reads an unsigned integer no greater than `max`: an
/// optional `+`, then one or more decimal digits whose value fits.
pub open spec fn parse_unsigned(t: Seq<char>, max: int) -> Option<int> {
    let d = unsigned_digits(t);
    if d.len() > 0 && all_digits(d) && digits_value(d) <= max {
        Some(digits_value(d))
    } else {
        None
    }
}

proof fn lemma_digits_value_grows(d: Seq<char>, k: int)
    requires
        all_digits(d),
        0 <= k <= d.len(),
    ensures
        0 <= digits_value(d.take(k)) <= digits_value(d),
    decreases d.len(),
{
    if d.len() > 0 {
        assert(all_digits(d.drop_last()));
        if k < d.len() {
            assert(d.drop_last().take(k) == d.take(k));
            lemma_digits_value_grows(d.drop_last(), k);
        } else {
            assert(d.take(k) == d);
            lemma_digits_value_grows(d.drop_last(), k - 1);
            assert(d.drop_last().take(k - 1) == d.drop_last());
        }
    } else {
        assert(d.take(k) == d);
    }
}

/// Parses an unsigned decimal integer as `str::parse::<u64>` does.
pub fn parse_u64(s: &str) -> (r: Option<u64>)
    ensures
        r matches Some(v) ==> parse_unsigned(s@, u64::MAX as int) == Some(v as int),
        r is None ==> parse_unsigned(s@, u64::MAX as int) is None,
{
    let ghost d = unsigned_digits(s@);
    let ghost skip: int = if s@.len() > 0 && s@[0] == '+' { 1 } else { 0 };
    assert(d == s@.skip(skip));
    let mut value: u64 = 0;
    let ghost mut count: int = 0;
    let mut any_digit = false;
    let mut first = true;
    for c in it: s.chars()
        invariant
            it.seq() == s@,
            d == s@.skip(skip),
            skip == (if s@.len() > 0 && s@[0] == '+' { 1int } else { 0 }),
            it.index() >= skip ==> count == it.index() - skip,
            it.index() < skip ==> count == 0 && it.index() == 0,
            0 <= count <= d.len(),
            any_digit == (count > 0),
            all_digits(d.take(count)),
            value == digits_value(d.take(count)),
            first == (it.index() == 0),
    {
        let leading_plus = first && c == '+';
        first = false;
        if !leading_plus {
            assert(d[count] == c);
            if !('0' <= c && c <= '9') {
                assert(!is_digit(d[count]));
                return None;
            }
            let digit = (c as u32 - '0' as u32) as u64;
            assert(d.take(count + 1).drop_last() == d.take(count));
            assert(d.take(count + 1).last() == c);
            assert(all_digits(d.take(count + 1)));
            assert(digits_value(d.take(count + 1)) == value * 10 + digit);
            match value.checked_mul(10) {
                Some(tens) => match tens.checked_add(digit) {
                    Some(next) => {
                        value = next;
                        any_digit = true;
                        proof {
                            count = count + 1;
                        }
                    },
                    None => {
                        proof {
                            assert(tens + digit > u64::MAX);
                            assert(digits_value(d.take(count + 1)) > u64::MAX);
                            if all_digits(d) {
                                lemma_digits_value_grows(d, count + 1);
                                assert(digits_value(d) > u64::MAX);
                            }
                            assert(unsigned_digits(s@) == d);
                            assert(parse_unsigned(s@, u64::MAX as int) is None);
                        }
                        return None;
                    },
                },
                None => {
                    proof {
                        assert(value * 10 > u64::MAX);
                        assert(digits_value(d.take(count + 1)) > u64::MAX);
                        if all_digits(d) {
                            lemma_digits_value_grows(d, count + 1);
                        }
                        assert(unsigned_digits(s@) == d);
                        assert(parse_unsigned(s@, u64::MAX as int) is None);
                    }
                    return None;
                },
            }
        } else {
            assert(skip == 1);
        }
    }
    assert(d.take(count) == d);
    if any_digit {
        Some(value)
    } else {
        None
    }
}

/// Parses an unsigned decimal integer as `str::parse::<u32>` does.
pub fn parse_u32(s: &str) -> (r: Option<u32>)
    ensures
        r matches Some(v) ==> parse_unsigned(s@, u32::MAX as int) == Some(v as int),
        r is None ==> parse_unsigned(s@, u32::MAX as int) is None,
{
    match parse_u64(s) {
        Some(v) => if v <= u32::MAX as u64 {
            Some(v as u32)
        } else {
            None
        },
        None => None,
    }
}


/// The characters of `s`.
pub fn chars_of(s: &str) -> (v: Vec<char>)
    ensures
        v@ == s@,
{
    let mut v: Vec<char> = Vec::new();
    for c in it: s.chars()
        invariant
            it.seq() == s@,
            v@ == s@.take(it.index()),
    {
        v.push(c);
        assert(v@ == s@.take(it.index() + 1));
    }
    assert(s@.take(s@.len() as int) == s@);
    v
}

/// The string of the characters of `v` from `start` to `end`.
pub fn string_of_range(v: &Vec<char>, start: usize, end: usize) -> (s: String)
    requires
        start <= end <= v@.len(),
    ensures
        s@ == v@.subrange(start as int, end as int),
{
    let mut s = String::new();
    let mut i = start;
    while i < end
        invariant
            start <= i <= end,
            end <= v@.len(),
            s@ == v@.subrange(start as int, i as int),
        decreases end - i,
    {
        push_char(&mut s, v[i]);
        assert(s@ == v@.subrange(start as int, i + 1));
        i = i + 1;
    }
    s
}

/// Whether `p` begins `s`.
pub open spec fn has_prefix(s: Seq<char>, p: Seq<char>) -> bool {
    p.len() <= s.len() && s.take(p.len() as int) == p
}

/// Whether `p` occurs in `s`.
pub open spec fn has_infix(s: Seq<char>, p: Seq<char>) -> bool {
    exists|i: int| 0 <= i && i + p.len() <= s.len() && #[trigger] s.subrange(i, i + p.len()) == p
}

/// Whether `p` occurs in `v` at `at`.
pub fn matches_at(v: &Vec<char>, at: usize, p: &Vec<char>) -> (found: bool)
    requires
        at <= v@.len(),
    ensures
        found == has_prefix(v@.skip(at as int), p@),
{
    let n = v.len();
    if p.len() > n - at {
        return false;
    }
    let mut k: usize = 0;
    while k < p.len()
        invariant
            0 <= k <= p@.len(),
            n == v@.len(),
            at <= n,
            at + p@.len() <= n,
            forall|j: int| 0 <= j < k ==> v@[at + j] == p@[j],
        decreases p@.len() - k,
    {
        if v[at + k] != p[k] {
            assert(v@.skip(at as int).take(p@.len() as int)[k as int] != p@[k as int]);
            return false;
        }
        k = k + 1;
    }
    assert(v@.skip(at as int).take(p@.len() as int) =~= p@);
    true
}

/// Whether `p` occurs in `v`.
pub fn contains_chars(v: &Vec<char>, p: &Vec<char>) -> (found: bool)
    ensures
        found == has_infix(v@, p@),
{
    if p.len() > v.len() {
        return false;
    }
    let last = v.len() - p.len();
    let mut i: usize = 0;
    while i < last
        invariant
            p@.len() <= v@.len(),
            last == v@.len() - p@.len(),
            0 <= i <= last,
            forall|j: int| 0 <= j < i ==> #[trigger] v@.subrange(j, j + p@.len()) != p@,
        decreases last - i,
    {
        let m = matches_at(v, i, p);
        assert(v@.skip(i as int).take(p@.len() as int) == v@.subrange(i as int, i + p@.len()));
        if m {
            return true;
        }
        i = i + 1;
    }
    let m = matches_at(v, last, p);
    assert(v@.skip(last as int).take(p@.len() as int) == v@.subrange(last as int, last + p@.len()));
    if m {
        return true;
    }
    assert forall|j: int| 0 <= j && j + p@.len() <= v@.len() implies #[trigger] v@.subrange(j, j + p@.len()) != p@ by {
        assert(j <= last);
    }
    false
}

/// `s` without its leading whitespace.
pub open spec fn trim_start(s: Seq<char>) -> Seq<char>
    decreases s.len(),
{
    if s.len() > 0 && is_unicode_whitespace(s[0]) {
        trim_start(s.drop_first())
    } else {
        s
    }
}

/// `s` without its trailing whitespace.
pub open spec fn trim_end(s: Seq<char>) -> Seq<char>
    decreases s.len(),
{
    if s.len() > 0 && is_unicode_whitespace(s.last()) {
        trim_end(s.drop_last())
    } else {
        s
    }
}

/// `s` without leading and trailing whitespace, as `str::trim`.
pub open spec fn trim(s: Seq<char>) -> Seq<char> {
    trim_end(trim_start(s))
}

/// The index in `v` where its content up to `end` ends once trailing
/// whitespace is dropped.
pub fn drop_trailing_whitespace(v: &Vec<char>, start: usize, end: usize) -> (last: usize)
    requires
        start <= end <= v@.len(),
    ensures
        start <= last <= end,
        v@.subrange(start as int, last as int) == trim_end(v@.subrange(start as int, end as int)),
{
    let mut j = end;
    while j > start && is_whitespace_char(v[j - 1], false)
        invariant
            start <= j <= end,
            end <= v@.len(),
            trim_end(v@.subrange(start as int, j as int)) == trim_end(v@.subrange(start as int, end as int)),
        decreases j,
    {
        assert(v@.subrange(start as int, j as int).drop_last() == v@.subrange(start as int, j - 1));
        j = j - 1;
    }
    j
}

/// Skips the whitespace that begins the window of `v` from `a` to `b`.
pub fn skip_whitespace_in(v: &Vec<char>, a: usize, b: usize) -> (next: usize)
    requires
        a <= b <= v@.len(),
    ensures
        a <= next <= b,
        v@.subrange(next as int, b as int) == trim_start(v@.subrange(a as int, b as int)),
{
    let mut i = a;
    while i < b && is_whitespace_char(v[i], false)
        invariant
            a <= i <= b <= v@.len(),
            trim_start(v@.subrange(i as int, b as int)) == trim_start(v@.subrange(a as int, b as int)),
        decreases b - i,
    {
        assert(v@.subrange(i as int, b as int).drop_first() == v@.subrange(i + 1, b as int));
        i = i + 1;
    }
    i
}

/// The window of `v` from `a` to `b` with its surrounding whitespace
/// dropped.
pub fn trim_in(v: &Vec<char>, a: usize, b: usize) -> (window: (usize, usize))
    requires
        a <= b <= v@.len(),
    ensures
        a <= window.0 <= window.1 <= b,
        v@.subrange(window.0 as int, window.1 as int) == trim(v@.subrange(a as int, b as int)),
{
    let i = skip_whitespace_in(v, a, b);
    let j = drop_trailing_whitespace(v, i, b);
    (i, j)
}

/// Whether the window of `v` from `a` to `b` holds exactly `p`.
pub fn window_is(v: &Vec<char>, a: usize, b: usize, p: &Vec<char>) -> (equal: bool)
    requires
        a <= b <= v@.len(),
    ensures
        equal == (v@.subrange(a as int, b as int) == p@),
{
    if b - a != p.len() {
        return false;
    }
    let m = matches_at(v, a, p);
    assert(v@.skip(a as int).take(p@.len() as int) == v@.subrange(a as int, b as int));
    m
}

/// The characters of a string literal.
pub fn literal(s: &str) -> (v: Vec<char>)
    ensures
        v@ == s@,
{
    chars_of(s)
}

} // verus!
