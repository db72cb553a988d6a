//! Character-level helpers shared by the scanner, the resolver and the
//! transfer engine.
//!
//! Text is modelled as `Seq<char>`; every executable function states its
//! result over that model.

use vstd::prelude::*;
use vstd::string::*;

verus! {

/// Whether `c` is a white-space character (the Unicode `White_Space` set).
pub open spec fn is_space(c: char) -> bool {
    let n = c as u32;
    ||| 0x09 <= n <= 0x0D
    ||| n == 0x20
    ||| n == 0x85
    ||| n == 0xA0
    ||| n == 0x1680
    ||| 0x2000 <= n <= 0x200A
    ||| n == 0x2028
    ||| n == 0x2029
    ||| n == 0x202F
    ||| n == 0x205F
    ||| n == 0x3000
}

/// Executable form of [`is_space`].
pub fn is_whitespace(c: char) -> (b: bool)
    ensures
        b == is_space(c),
{
    let n: u32 = c as u32;
    (0x09 <= n && n <= 0x0D) || n == 0x20 || n == 0x85 || n == 0xA0 || n == 0x1680 || (0x2000 <= n
        && n <= 0x200A) || n == 0x2028 || n == 0x2029 || n == 0x202F || n == 0x205F || n == 0x3000
}

/// The characters of `s`, in order.
pub fn chars_of(s: &str) -> (v: Vec<char>)
    ensures
        v@ == s@,
{
    let mut v: Vec<char> = Vec::new();
    for c in it: s.chars()
        invariant
            v@ == it.seq().take(it.index()),
            it.seq() == s@,
    {
        v.push(c);
    }
    v
}

/// The least index `i >= from` at which `is_space(s[i]) == space`, or
/// `s.len()` when there is none.
pub open spec fn scan(s: Seq<char>, from: int, space: bool) -> int
    decreases s.len() - from,
{
    if from < 0 || from >= s.len() {
        s.len() as int
    } else if is_space(s[from]) == space {
        from
    } else {
        scan(s, from + 1, space)
    }
}

/// `scan` stops inside the text, at the first character of the wanted kind.
pub proof fn lemma_scan(s: Seq<char>, from: int, space: bool)
    requires
        0 <= from <= s.len(),
    ensures
        from <= scan(s, from, space) <= s.len(),
        scan(s, from, space) < s.len() ==> is_space(s[scan(s, from, space)]) == space,
        forall|i: int| from <= i < scan(s, from, space) ==> is_space(#[trigger] s[i]) != space,
    decreases s.len() - from,
{
    if from < s.len() && is_space(s[from]) != space {
        lemma_scan(s, from + 1, space);
    }
}

/// Executable form of [`scan`].
pub fn scan_from(s: &[char], from: usize, space: bool) -> (at: usize)
    requires
        from <= s.len(),
    ensures
        at == scan(s@, from as int, space),
        from <= at <= s.len(),
{
    let mut i: usize = from;
    while i < s.len() && is_whitespace(s[i]) != space
        invariant
            from <= i <= s.len(),
            scan(s@, from as int, space) == scan(s@, i as int, space),
        decreases s.len() - i,
    {
        i = i + 1;
    }
    proof {
        lemma_scan(s@, i as int, space);
    }
    i
}

/// The first white-space-delimited token of `s`; empty when `s` holds
/// nothing but white space.
pub open spec fn first_token(s: Seq<char>) -> Seq<char> {
    let start = scan(s, 0, false);
    s.subrange(start, scan(s, start, true))
}

/// The index just past the last character of `s` that is not white space,
/// or 0 when there is none.
pub open spec fn trimmed_end(s: Seq<char>) -> int
    decreases s.len(),
{
    if s.len() == 0 {
        0
    } else if !is_space(s.last()) {
        s.len() as int
    } else {
        trimmed_end(s.drop_last())
    }
}

/// `s` without its leading and trailing white space.
pub open spec fn trim(s: Seq<char>) -> Seq<char> {
    let start = scan(s, 0, false);
    let end = trimmed_end(s);
    if start < end {
        s.subrange(start, end)
    } else {
        Seq::empty()
    }
}

/// `trimmed_end` is bounded by the length and marks the last character that
/// is not white space.
pub proof fn lemma_trimmed_end(s: Seq<char>)
    ensures
        0 <= trimmed_end(s) <= s.len(),
        trimmed_end(s) > 0 ==> !is_space(s[trimmed_end(s) - 1]),
        forall|i: int| trimmed_end(s) <= i < s.len() ==> is_space(#[trigger] s[i]),
    decreases s.len(),
{
    if s.len() > 0 && is_space(s.last()) {
        let rest = s.drop_last();
        lemma_trimmed_end(rest);
        assert forall|i: int| trimmed_end(s) <= i < s.len() implies is_space(#[trigger] s[i]) by {
            if i < rest.len() {
                assert(rest[i] == s[i]);
            }
        }
    }
}

/// Executable form of [`trimmed_end`].
pub fn trim_end_index(s: &[char]) -> (end: usize)
    ensures
        end == trimmed_end(s@),
        end <= s.len(),
{
    let mut i: usize = s.len();
    assert(s@.take(i as int) == s@);
    while i > 0 && is_whitespace(s[i - 1])
        invariant
            i <= s.len(),
            trimmed_end(s@) == trimmed_end(s@.take(i as int)),
        decreases i,
    {
        assert(s@.take(i as int).drop_last() == s@.take(i as int - 1));
        i = i - 1;
    }
    proof {
        lemma_trimmed_end(s@.take(i as int));
    }
    i
}

/// Whether `pattern` occurs in `s` starting at index `at`.
pub open spec fn occurs_at(s: Seq<char>, pattern: Seq<char>, at: int) -> bool {
    &&& 0 <= at
    &&& at + pattern.len() <= s.len()
    &&& s.subrange(at, at + pattern.len()) == pattern
}

/// Whether `pattern` occurs somewhere in `s`.
pub open spec fn contains_text(s: Seq<char>, pattern: Seq<char>) -> bool {
    exists|at: int| occurs_at(s, pattern, at)
}

/// Whether `s` begins with `prefix`.
pub open spec fn starts_with(s: Seq<char>, prefix: Seq<char>) -> bool {
    occurs_at(s, prefix, 0)
}

/// Decides [`occurs_at`].
pub fn matches_at(s: &[char], pattern: &[char], at: usize) -> (b: bool)
    ensures
        b == occurs_at(s@, pattern@, at as int),
{
    if pattern.len() > s.len() || at > s.len() - pattern.len() {
        return false;
    }
    let mut k: usize = 0;
    while k < pattern.len()
        invariant
            k <= pattern.len(),
            at + pattern.len() <= s.len(),
            forall|j: int| 0 <= j < k ==> s@[at + j] == pattern@[j],
        decreases pattern.len() - k,
    {
        if s[at + k] != pattern[k] {
            return false;
        }
        k = k + 1;
    }
    assert(s@.subrange(at as int, at + pattern.len()) =~= pattern@);
    true
}

/// Decides [`contains_text`].
pub fn contains(s: &[char], pattern: &[char]) -> (b: bool)
    ensures
        b == contains_text(s@, pattern@),
{
    if pattern.len() > s.len() {
        return false;
    }
    let last: usize = s.len() - pattern.len();
    let mut at: usize = 0;
    loop
        invariant
            last == s.len() - pattern.len(),
            at <= last,
            forall|j: int| 0 <= j < at ==> !occurs_at(s@, pattern@, j),
        decreases last - at,
    {
        if matches_at(s, pattern, at) {
            return true;
        }
        if at == last {
            return false;
        }
        at = at + 1;
    }
}

/// The least index `i >= from` with `s[i] == '\n'`, or `s.len()` when no
/// line feed follows.
pub open spec fn newline_from(s: Seq<char>, from: int) -> int
    decreases s.len() - from,
{
    if from < 0 || from >= s.len() {
        s.len() as int
    } else if s[from] == '\n' {
        from
    } else {
        newline_from(s, from + 1)
    }
}

/// `newline_from` stops at the first line feed at or after `from`.
pub proof fn lemma_newline_from(s: Seq<char>, from: int)
    requires
        0 <= from <= s.len(),
    ensures
        from <= newline_from(s, from) <= s.len(),
        newline_from(s, from) < s.len() ==> s[newline_from(s, from)] == '\n',
        forall|i: int| from <= i < newline_from(s, from) ==> #[trigger] s[i] != '\n',
    decreases s.len() - from,
{
    if from < s.len() && s[from] != '\n' {
        lemma_newline_from(s, from + 1);
    }
}

/// Where the content of a line ends, for a line that starts at `from` and
/// runs up to `stop` (a line feed, or the end of the text): a carriage return
/// just before the line feed belongs to the line ending.
pub open spec fn content_end(s: Seq<char>, from: int, stop: int) -> int {
    if stop < s.len() && from < stop && s[stop - 1] == '\r' {
        stop - 1
    } else {
        stop
    }
}

/// The lines of `s` from index `from` on, each as the half-open span of its
/// content. A line ends at `"\n"` or `"\r\n"`; the last line needs no line
/// ending, and nothing follows a final line ending.
pub open spec fn line_spans(s: Seq<char>, from: int) -> Seq<(int, int)>
    decreases s.len() - from,
{
    if from < 0 || from >= s.len() {
        Seq::empty()
    } else {
        let stop = newline_from(s, from);
        if stop < from {
            Seq::empty()
        } else if stop >= s.len() {
            seq![(from, stop)]
        } else {
            seq![(from, content_end(s, from, stop))] + line_spans(s, stop + 1)
        }
    }
}

/// The lines of `s`, without their line endings.
pub open spec fn lines(s: Seq<char>) -> Seq<Seq<char>> {
    line_spans(s, 0).map_values(|span: (int, int)| s.subrange(span.0, span.1))
}

/// Spans as mathematical pairs.
pub open spec fn spans_view(spans: Seq<(usize, usize)>) -> Seq<(int, int)> {
    spans.map_values(|span: (usize, usize)| (span.0 as int, span.1 as int))
}

/// The spans of the lines of `s`.
pub fn line_spans_of(s: &[char]) -> (spans: Vec<(usize, usize)>)
    ensures
        spans_view(spans@) == line_spans(s@, 0),
        forall|i: int|
            0 <= i < spans.len() ==> (#[trigger] spans[i]).0 <= spans[i].1 <= s.len(),
{
    let mut spans: Vec<(usize, usize)> = Vec::new();
    let mut from: usize = 0;
    while from < s.len()
        invariant
            from <= s.len(),
            line_spans(s@, 0) == spans_view(spans@) + line_spans(s@, from as int),
            forall|i: int|
                0 <= i < spans.len() ==> (#[trigger] spans[i]).0 <= spans[i].1 <= s.len(),
        decreases s.len() - from,
    {
        let mut stop: usize = from;
        while stop < s.len() && s[stop] != '\n'
            invariant
                from <= stop <= s.len(),
                newline_from(s@, from as int) == newline_from(s@, stop as int),
            decreases s.len() - stop,
        {
            stop = stop + 1;
        }
        let end: usize = if stop < s.len() && from < stop && s[stop - 1] == '\r' {
            stop - 1
        } else {
            stop
        };
        proof {
            lemma_newline_from(s@, stop as int);
        }
        spans.push((from, end));
        from = if stop < s.len() {
            stop + 1
        } else {
            stop
        };
    }
    spans
}

/// Where the last `/`-separated segment of `s` starts: just past the last
/// `/`, or at 0 when `s` holds none.
pub open spec fn segment_start(s: Seq<char>) -> int
    decreases s.len(),
{
    if s.len() == 0 {
        0
    } else if s.last() == '/' {
        s.len() as int
    } else {
        segment_start(s.drop_last())
    }
}

/// What follows the last `/` of `s`; the whole of `s` when it holds none.
pub open spec fn final_segment(s: Seq<char>) -> Seq<char> {
    s.skip(segment_start(s))
}

/// `segment_start` is just past the last `/`.
pub proof fn lemma_segment_start(s: Seq<char>)
    ensures
        0 <= segment_start(s) <= s.len(),
        segment_start(s) > 0 ==> s[segment_start(s) - 1] == '/',
        forall|i: int| segment_start(s) <= i < s.len() ==> #[trigger] s[i] != '/',
    decreases s.len(),
{
    if s.len() > 0 && s.last() != '/' {
        let rest = s.drop_last();
        lemma_segment_start(rest);
        assert forall|i: int| segment_start(s) <= i < s.len() implies #[trigger] s[i] != '/' by {
            if i < rest.len() {
                assert(rest[i] == s[i]);
            }
        }
    }
}

/// Whether `s` holds no `/`.
pub open spec fn has_no_slash(s: Seq<char>) -> bool {
    forall|i: int| 0 <= i < s.len() ==> #[trigger] s[i] != '/'
}

/// A last segment holds no `/`.
pub proof fn lemma_final_segment_has_no_slash(s: Seq<char>)
    ensures
        has_no_slash(final_segment(s)),
{
    lemma_segment_start(s);
}

/// Executable form of [`segment_start`].
pub fn segment_start_of(s: &[char]) -> (start: usize)
    ensures
        start == segment_start(s@),
        start <= s.len(),
{
    let mut i: usize = s.len();
    assert(s@.take(i as int) == s@);
    while i > 0 && s[i - 1] != '/'
        invariant
            i <= s.len(),
            segment_start(s@) == segment_start(s@.take(i as int)),
        decreases i,
    {
        assert(s@.take(i as int).drop_last() == s@.take(i as int - 1));
        i = i - 1;
    }
    proof {
        lemma_segment_start(s@.take(i as int));
    }
    i
}

/// The character of the decimal digit `d`.
pub open spec fn digit_char(d: int) -> char {
    (d + 48) as u8 as char
}

/// `n` in decimal, without sign or leading zeros.
pub open spec fn decimal(n: nat) -> Seq<char>
    decreases n,
{
    if n < 10 {
        seq![digit_char(n as int)]
    } else {
        decimal(n / 10).push(digit_char((n % 10) as int))
    }
}

/// The one-character text of the decimal digit `d`.
fn digit_text(d: u64) -> (t: &'static str)
    requires
        d < 10,
    ensures
        t@ == seq![digit_char(d as int)],
{
    proof {
        reveal_strlit("0");
        reveal_strlit("1");
        reveal_strlit("2");
        reveal_strlit("3");
        reveal_strlit("4");
        reveal_strlit("5");
        reveal_strlit("6");
        reveal_strlit("7");
        reveal_strlit("8");
        reveal_strlit("9");
    }
    let t: &'static str = if d == 0 {
        "0"
    } else if d == 1 {
        "1"
    } else if d == 2 {
        "2"
    } else if d == 3 {
        "3"
    } else if d == 4 {
        "4"
    } else if d == 5 {
        "5"
    } else if d == 6 {
        "6"
    } else if d == 7 {
        "7"
    } else if d == 8 {
        "8"
    } else {
        "9"
    };
    t
}

/// Appends `n` in decimal to `out`.
pub fn push_decimal(out: &mut String, n: u64)
    ensures
        final(out)@ == old(out)@ + decimal(n as nat),
    decreases n,
{
    if n >= 10 {
        push_decimal(out, n / 10);
    }
    out.append(digit_text(n % 10));
}

/// The code of `c` with the ASCII capitals folded onto the small letters.
pub open spec fn ascii_fold(c: char) -> u32 {
    let n = c as u32;
    if 0x41 <= n <= 0x5A {
        (n + 0x20) as u32
    } else {
        n
    }
}

/// Whether `a` and `b` are equal when ASCII letters are compared without
/// regard to case.
pub open spec fn eq_ignore_case(a: Seq<char>, b: Seq<char>) -> bool {
    &&& a.len() == b.len()
    &&& forall|i: int| 0 <= i < a.len() ==> ascii_fold(#[trigger] a[i]) == ascii_fold(b[i])
}

/// Executable form of [`ascii_fold`].
pub fn fold_ascii(c: char) -> (n: u32)
    ensures
        n == ascii_fold(c),
{
    let n: u32 = c as u32;
    if 0x41 <= n && n <= 0x5A {
        n + 0x20
    } else {
        n
    }
}

/// Decides [`eq_ignore_case`].
pub fn equal_ignoring_case(a: &[char], b: &[char]) -> (same: bool)
    ensures
        same == eq_ignore_case(a@, b@),
{
    if a.len() != b.len() {
        return false;
    }
    let mut i: usize = 0;
    while i < a.len()
        invariant
            i <= a.len(),
            a.len() == b.len(),
            forall|j: int| 0 <= j < i ==> ascii_fold(#[trigger] a@[j]) == ascii_fold(b@[j]),
        decreases a.len() - i,
    {
        if fold_ascii(a[i]) != fold_ascii(b[i]) {
            return false;
        }
        i = i + 1;
    }
    true
}

/// Whether `c` is a hexadecimal digit, of either case.
pub open spec fn is_hex_digit(c: char) -> bool {
    let n = c as u32;
    ||| 0x30 <= n <= 0x39
    ||| 0x41 <= n <= 0x46
    ||| 0x61 <= n <= 0x66
}

/// Whether `s` is made of hexadecimal digits only.
pub open spec fn all_hex(s: Seq<char>) -> bool {
    forall|i: int| 0 <= i < s.len() ==> is_hex_digit(#[trigger] s[i])
}

/// Decides [`all_hex`] on the span `from..to` of `s`.
pub fn all_hex_in(s: &[char], from: usize, to: usize) -> (b: bool)
    requires
        from <= to <= s.len(),
    ensures
        b == all_hex(s@.subrange(from as int, to as int)),
{
    let mut i: usize = from;
    while i < to
        invariant
            from <= i <= to <= s.len(),
            forall|j: int| from <= j < i ==> is_hex_digit(#[trigger] s@[j]),
        decreases to - i,
    {
        let n: u32 = s[i] as u32;
        let hex = (0x30 <= n && n <= 0x39) || (0x41 <= n && n <= 0x46) || (0x61 <= n && n <= 0x66);
        if !hex {
            assert(s@.subrange(from as int, to as int)[i - from] == s@[i as int]);
            return false;
        }
        i = i + 1;
    }
    assert forall|j: int| 0 <= j < to - from implies is_hex_digit(
        #[trigger] s@.subrange(from as int, to as int)[j],
    ) by {
    }
    true
}

/// `s`, ended by a `/` if it is not already.
pub open spec fn with_trailing_slash(s: Seq<char>) -> Seq<char> {
    if s.len() > 0 && s.last() == '/' {
        s
    } else {
        s.push('/')
    }
}

/// `s`, ended by a `/` if it is not already.
pub fn ensure_trailing_slash(s: &str) -> (slashed: String)
    ensures
        slashed@ == with_trailing_slash(s@),
{
    let chars = chars_of(s);
    let mut slashed = String::from_str(s);
    if chars.len() == 0 || chars[chars.len() - 1] != '/' {
        proof {
            reveal_strlit("/");
        }
        slashed.append("/");
    }
    slashed
}

/// The path of `name` in the directory `directory`; with an empty
/// directory, `name` itself.
pub open spec fn joined(directory: Seq<char>, name: Seq<char>) -> Seq<char> {
    if directory.len() == 0 {
        name
    } else {
        with_trailing_slash(directory) + name
    }
}

/// The path of `name` in the directory `directory`.
pub fn join_path(directory: &str, name: &str) -> (path: String)
    ensures
        path@ == joined(directory@, name@),
{
    if directory.unicode_len() == 0 {
        name.to_owned()
    } else {
        let mut path = ensure_trailing_slash(directory);
        path.append(name);
        path
    }
}

/// How many `/` `s` begins with.
pub open spec fn leading_slashes(s: Seq<char>) -> int
    decreases s.len(),
{
    if s.len() > 0 && s.first() == '/' {
        1 + leading_slashes(s.drop_first())
    } else {
        0
    }
}

/// Executable form of [`leading_slashes`].
pub fn count_leading_slashes(s: &[char]) -> (n: usize)
    ensures
        n == leading_slashes(s@),
        n <= s.len(),
{
    let mut n: usize = 0;
    assert(s@.skip(0) =~= s@);
    while n < s.len() && s[n] == '/'
        invariant
            n <= s.len(),
            leading_slashes(s@) == n + leading_slashes(s@.skip(n as int)),
        decreases s.len() - n,
    {
        assert(s@.skip(n as int).drop_first() =~= s@.skip(n + 1));
        n = n + 1;
    }
    n
}

} // verus!
