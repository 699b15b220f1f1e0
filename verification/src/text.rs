//! Character-level text primitives: trimming, prefix and substring tests,
//! searching, and splitting a text into lines and joining lines back.
//!
//! Everything is specified over `Seq<char>`, the view of `str` and `String`.

use vstd::prelude::*;

verus! {

/// `String::push` of the standard library: the string afterwards is the
/// string before with `c` appended as its last character.
pub assume_specification[ String::push ](s: &mut String, c: char)
    ensures
        final(s)@ == old(s)@.push(c),
;

// ---------------------------------------------------------------------
// Specifications
// ---------------------------------------------------------------------

/// The characters with the Unicode property `White_Space`.
pub open spec fn is_whitespace(c: char) -> bool {
    let u = c as u32;
    ||| 0x09 <= u <= 0x0d
    ||| u == 0x20
    ||| u == 0x85
    ||| u == 0xa0
    ||| u == 0x1680
    ||| 0x2000 <= u <= 0x200a
    ||| u == 0x2028
    ||| u == 0x2029
    ||| u == 0x202f
    ||| u == 0x205f
    ||| u == 0x3000
}

/// `s` without its leading whitespace.
pub open spec fn trimmed_start(s: Seq<char>) -> Seq<char>
    decreases s.len(),
{
    if s.len() > 0 && is_whitespace(s[0]) {
        trimmed_start(s.drop_first())
    } else {
        s
    }
}

/// `s` without its trailing whitespace.
pub open spec fn trimmed_end(s: Seq<char>) -> Seq<char>
    decreases s.len(),
{
    if s.len() > 0 && is_whitespace(s.last()) {
        trimmed_end(s.drop_last())
    } else {
        s
    }
}

/// `s` without leading and trailing whitespace.
pub open spec fn trimmed(s: Seq<char>) -> Seq<char> {
    trimmed_end(trimmed_start(s))
}

/// `s` without the run of `c` it starts with.
pub open spec fn without_leading(s: Seq<char>, c: char) -> Seq<char>
    decreases s.len(),
{
    if s.len() > 0 && s[0] == c {
        without_leading(s.drop_first(), c)
    } else {
        s
    }
}

/// `s` begins with `prefix`.
pub open spec fn has_prefix(s: Seq<char>, prefix: Seq<char>) -> bool {
    prefix.len() <= s.len() && s.subrange(0, prefix.len() as int) == prefix
}

/// `pat` stands in `s` at index `i`.
pub open spec fn occurs_at(s: Seq<char>, pat: Seq<char>, i: int) -> bool {
    0 <= i && i + pat.len() <= s.len() && s.subrange(i, i + pat.len()) == pat
}

/// `pat` stands somewhere in `s`.
pub open spec fn occurs_in(s: Seq<char>, pat: Seq<char>) -> bool {
    exists|i: int| occurs_at(s, pat, i)
}

/// `i` is the leftmost index at which `pat` stands in `s`.
pub open spec fn is_first_match(s: Seq<char>, pat: Seq<char>, i: int) -> bool {
    occurs_at(s, pat, i) && forall|j: int| 0 <= j < i ==> !occurs_at(s, pat, j)
}

/// The leftmost index at which `pat` stands in `s`, if it stands anywhere.
pub open spec fn first_match(s: Seq<char>, pat: Seq<char>) -> Option<int> {
    if occurs_in(s, pat) {
        Some(choose|i: int| is_first_match(s, pat, i))
    } else {
        None
    }
}

/// The number of characters of `s` before its first `c` (all of `s` where
/// it holds none).
pub open spec fn len_before(s: Seq<char>, c: char) -> nat
    decreases s.len(),
{
    if s.len() == 0 || s[0] == c {
        0
    } else {
        1 + len_before(s.drop_first(), c)
    }
}

/// The number of characters before the first line feed of `s`.
pub open spec fn line_len(s: Seq<char>) -> nat {
    len_before(s, '\n')
}

/// `line` without one carriage return at its end.
pub open spec fn without_cr(line: Seq<char>) -> Seq<char> {
    if line.len() > 0 && line.last() == '\r' {
        line.drop_last()
    } else {
        line
    }
}

/// The lines of a text. A line ends at a line feed, or at a carriage
/// return directly followed by one; neither belongs to the line. A last
/// line without line feed is taken as it stands, and the empty text has no
/// lines.
pub open spec fn lines_of(s: Seq<char>) -> Seq<Seq<char>>
    decreases s.len(),
{
    let n = line_len(s) as int;
    if s.len() == 0 {
        Seq::empty()
    } else if n < s.len() {
        seq![without_cr(s.take(n))] + lines_of(s.skip(n + 1))
    } else {
        seq![s]
    }
}

/// The lines with one line feed between each two neighbours.
pub open spec fn joined(lines: Seq<Seq<char>>) -> Seq<char>
    decreases lines.len(),
{
    if lines.len() == 0 {
        Seq::empty()
    } else if lines.len() == 1 {
        lines[0]
    } else {
        joined(lines.drop_last()) + seq!['\n'] + lines.last()
    }
}

/// `s` holds no line feed.
pub open spec fn no_line_feed(s: Seq<char>) -> bool {
    forall|k: int| 0 <= k < s.len() ==> s[k] != '\n'
}

/// None of the lines holds a line feed.
pub open spec fn no_line_feeds(lines: Seq<Seq<char>>) -> bool {
    forall|i: int| 0 <= i < lines.len() ==> no_line_feed(#[trigger] lines[i])
}

/// The lines that are read back from the text in which `lines` stand
/// joined: an empty last line is not read, and a line before the last is
/// read without one carriage return at its end.
pub open spec fn reread(lines: Seq<Seq<char>>) -> Seq<Seq<char>> {
    let count = if lines.len() > 0 && lines.last().len() == 0 {
        lines.len() - 1
    } else {
        lines.len() as int
    };
    Seq::new(
        count as nat,
        |i: int|
            if i + 1 < lines.len() {
                without_cr(lines[i])
            } else {
                lines[i]
            },
    )
}

/// `s` with a line feed at its end, where it is not empty and has none
/// there.
pub open spec fn terminated(s: Seq<char>) -> Seq<char> {
    if s.len() == 0 || s.last() == '\n' {
        s
    } else {
        s.push('\n')
    }
}

/// What a vector of lines holds.
pub open spec fn views(lines: Seq<Vec<char>>) -> Seq<Seq<char>> {
    lines.map_values(|line: Vec<char>| line@)
}

/// What a vector of strings holds.
pub open spec fn string_views(items: Seq<String>) -> Seq<Seq<char>> {
    items.map_values(|item: String| item@)
}

// ---------------------------------------------------------------------
// Conversions
// ---------------------------------------------------------------------

/// The characters of a string slice.
pub fn chars_of(s: &str) -> (v: Vec<char>)
    ensures
        v@ == s@,
{
    let mut v: Vec<char> = Vec::new();
    for c in it: s.chars()
        invariant
            v@ == it.seq().take(it.index()),
            it.seq() == s@,
    {
        v.push(c);
    }
    v
}

/// The string made of the given characters.
pub fn string_of(v: &[char]) -> (s: String)
    ensures
        s@ == v@,
{
    let mut s = String::new();
    let mut i: usize = 0;
    while i < v.len()
        invariant
            i <= v.len(),
            s@ == v@.take(i as int),
        decreases v.len() - i,
    {
        s.push(v[i]);
        i += 1;
    }
    s
}

/// The characters of each string of a list.
pub fn chars_of_each(items: &Vec<String>) -> (lines: Vec<Vec<char>>)
    ensures
        views(lines@) == string_views(items@),
{
    let mut lines: Vec<Vec<char>> = Vec::new();
    let mut i: usize = 0;
    while i < items.len()
        invariant
            i <= items.len(),
            views(lines@) == string_views(items@.take(i as int)),
        decreases items.len() - i,
    {
        let ghost done = lines@;
        let line = chars_of(items[i].as_str());
        lines.push(line);
        i += 1;
        assert(views(lines@) == views(done).push(line@));
    }
    lines
}

/// The string of each line of a list.
pub fn strings_of(lines: &Vec<Vec<char>>) -> (items: Vec<String>)
    ensures
        string_views(items@) == views(lines@),
{
    let mut items: Vec<String> = Vec::new();
    let mut i: usize = 0;
    while i < lines.len()
        invariant
            i <= lines.len(),
            string_views(items@) == views(lines@.take(i as int)),
        decreases lines.len() - i,
    {
        let ghost done = items@;
        let item = string_of(lines[i].as_slice());
        items.push(item);
        i += 1;
        assert(string_views(items@) == string_views(done).push(item@));
    }
    items
}

// ---------------------------------------------------------------------
// Executable primitives
// ---------------------------------------------------------------------

/// Whether `c` is white space.
pub fn is_space(c: char) -> (b: bool)
    ensures
        b == is_whitespace(c),
{
    let u: u32 = c as u32;
    (0x09 <= u && u <= 0x0d) || u == 0x20 || u == 0x85 || u == 0xa0 || u == 0x1680 || (0x2000 <= u
        && u <= 0x200a) || u == 0x2028 || u == 0x2029 || u == 0x202f || u == 0x205f || u == 0x3000
}

/// A copy of `s[from..to]`.
pub fn copy_range(s: &[char], from: usize, to: usize) -> (v: Vec<char>)
    requires
        from <= to <= s.len(),
    ensures
        v@ == s@.subrange(from as int, to as int),
{
    let mut v: Vec<char> = Vec::new();
    let mut i: usize = from;
    while i < to
        invariant
            from <= i <= to <= s.len(),
            v@ == s@.subrange(from as int, i as int),
        decreases to - i,
    {
        v.push(s[i]);
        i += 1;
    }
    v
}

/// Appends the characters of `s` to `v`.
pub fn append(v: &mut Vec<char>, s: &[char])
    ensures
        final(v)@ == old(v)@ + s@,
{
    let mut i: usize = 0;
    while i < s.len()
        invariant
            i <= s.len(),
            v@ == old(v)@ + s@.take(i as int),
        decreases s.len() - i,
    {
        v.push(s[i]);
        i += 1;
    }
}

/// Whether two texts are the same.
pub fn same(a: &[char], b: &[char]) -> (r: bool)
    ensures
        r == (a@ == b@),
{
    if a.len() != b.len() {
        return false;
    }
    let mut i: usize = 0;
    while i < a.len()
        invariant
            i <= a.len(),
            a.len() == b.len(),
            forall|k: int| 0 <= k < i ==> a@[k] == b@[k],
        decreases a.len() - i,
    {
        if a[i] != b[i] {
            return false;
        }
        i += 1;
    }
    assert(a@ =~= b@);
    true
}

/// A copy of `s`.
pub fn copy_of(s: &[char]) -> (v: Vec<char>)
    ensures
        v@ == s@,
{
    let v = copy_range(s, 0, s.len());
    v
}

/// The number of white-space characters that `s` starts with.
pub fn leading_space(s: &[char]) -> (n: usize)
    ensures
        n <= s.len(),
        trimmed_start(s@) == s@.skip(n as int),
{
    let mut n: usize = 0;
    assert(s@.skip(0) == s@);
    while n < s.len() && is_space(s[n])
        invariant
            n <= s.len(),
            trimmed_start(s@) == trimmed_start(s@.skip(n as int)),
        decreases s.len() - n,
    {
        assert(s@.skip(n as int).drop_first() == s@.skip(n + 1));
        n += 1;
    }
    n
}

/// The length of `s` without its trailing white space.
pub fn trimmed_end_len(s: &[char]) -> (n: usize)
    ensures
        n <= s.len(),
        trimmed_end(s@) == s@.take(n as int),
{
    let mut n: usize = s.len();
    assert(s@.take(n as int) == s@);
    while n > 0 && is_space(s[n - 1])
        invariant
            n <= s.len(),
            trimmed_end(s@) == trimmed_end(s@.take(n as int)),
        decreases n,
    {
        assert(s@.take(n as int).drop_last() == s@.take(n - 1));
        n -= 1;
    }
    n
}

/// `s` without its leading white space.
pub fn trim_start(s: &[char]) -> (v: Vec<char>)
    ensures
        v@ == trimmed_start(s@),
{
    let n = leading_space(s);
    copy_range(s, n, s.len())
}

/// `s` without leading and trailing white space.
pub fn trim(s: &[char]) -> (v: Vec<char>)
    ensures
        v@ == trimmed(s@),
{
    let front = trim_start(s);
    let n = trimmed_end_len(front.as_slice());
    copy_range(front.as_slice(), 0, n)
}

/// `s` without the run of `c` it starts with.
pub fn strip_leading(s: &[char], c: char) -> (v: Vec<char>)
    ensures
        v@ == without_leading(s@, c),
{
    let mut n: usize = 0;
    assert(s@.skip(0) == s@);
    while n < s.len() && s[n] == c
        invariant
            n <= s.len(),
            without_leading(s@, c) == without_leading(s@.skip(n as int), c),
        decreases s.len() - n,
    {
        assert(s@.skip(n as int).drop_first() == s@.skip(n + 1));
        n += 1;
    }
    copy_range(s, n, s.len())
}

/// Whether `pat` stands in `s` at index `i`.
pub fn matches_at(s: &[char], pat: &[char], i: usize) -> (b: bool)
    ensures
        b == occurs_at(s@, pat@, i as int),
{
    if i > s.len() || pat.len() > s.len() - i {
        return false;
    }
    let mut k: usize = 0;
    while k < pat.len()
        invariant
            k <= pat.len(),
            i + pat.len() <= s.len(),
            forall|j: int| 0 <= j < k ==> s@[i + j] == pat@[j],
        decreases pat.len() - k,
    {
        if s[i + k] != pat[k] {
            return false;
        }
        k += 1;
    }
    assert(s@.subrange(i as int, i + pat.len()) =~= pat@);
    true
}

/// Whether `s` begins with `prefix`.
pub fn starts_with(s: &[char], prefix: &[char]) -> (b: bool)
    ensures
        b == has_prefix(s@, prefix@),
{
    matches_at(s, prefix, 0)
}

/// The leftmost index at which `pat` stands in `s`.
pub fn find(s: &[char], pat: &[char]) -> (r: Option<usize>)
    ensures
        match r {
            Some(i) => first_match(s@, pat@) == Some(i as int) && is_first_match(
                s@,
                pat@,
                i as int,
            ),
            None => first_match(s@, pat@) is None,
        },
{
    if pat.len() > s.len() {
        return None;
    }
    let last: usize = s.len() - pat.len();
    let mut i: usize = 0;
    loop
        invariant
            i <= last,
            last == s.len() - pat.len(),
            forall|j: int| 0 <= j < i ==> !occurs_at(s@, pat@, j),
        decreases last - i,
    {
        if matches_at(s, pat, i) {
            proof {
                lemma_first_match(s@, pat@, i as int);
            }
            return Some(i);
        }
        if i == last {
            return None;
        }
        i += 1;
    }
}

/// Whether `pat` stands somewhere in `s`.
pub fn contains(s: &[char], pat: &[char]) -> (b: bool)
    ensures
        b == occurs_in(s@, pat@),
{
    find(s, pat).is_some()
}

/// The index of the first `c` at or after `from`, or the length of `s`.
pub fn position_from(s: &[char], from: usize, c: char) -> (i: usize)
    requires
        from <= s.len(),
    ensures
        from <= i <= s.len(),
        forall|k: int| from <= k < i ==> s@[k] != c,
        i < s.len() ==> s@[i as int] == c,
{
    let mut i: usize = from;
    while i < s.len() && s[i] != c
        invariant
            from <= i <= s.len(),
            forall|k: int| from <= k < i ==> s@[k] != c,
        decreases s.len() - i,
    {
        i += 1;
    }
    i
}

/// The lines of a text.
pub fn split_lines(s: &[char]) -> (lines: Vec<Vec<char>>)
    ensures
        views(lines@) == lines_of(s@),
{
    let mut lines: Vec<Vec<char>> = Vec::new();
    let mut pos: usize = 0;
    assert(s@.skip(0) == s@);
    while pos < s.len()
        invariant
            pos <= s.len(),
            views(lines@) + lines_of(s@.skip(pos as int)) == lines_of(s@),
        decreases s.len() - pos,
    {
        let end = position_from(s, pos, '\n');
        let ghost rest = s@.skip(pos as int);
        proof {
            lemma_len_before(rest, '\n', end - pos);
        }
        if end == s.len() {
            let line = copy_range(s, pos, end);
            lines.push(line);
            pos = end;
        } else {
            let stop = if end > pos && s[end - 1] == '\r' {
                end - 1
            } else {
                end
            };
            let line = copy_range(s, pos, stop);
            assert(line@ == without_cr(rest.take(end - pos)));
            lines.push(line);
            pos = end + 1;
            assert(rest.skip(line_len(rest) as int + 1) == s@.skip(pos as int));
        }
    }
    lines
}

/// The lines with one line feed between each two neighbours.
pub fn join_lines(lines: &Vec<Vec<char>>) -> (s: Vec<char>)
    ensures
        s@ == joined(views(lines@)),
{
    let mut s: Vec<char> = Vec::new();
    let mut i: usize = 0;
    while i < lines.len()
        invariant
            i <= lines.len(),
            s@ == joined(views(lines@.take(i as int))),
        decreases lines.len() - i,
    {
        if i > 0 {
            s.push('\n');
        }
        let ghost mid = s@;
        let line = &lines[i];
        let mut k: usize = 0;
        while k < line.len()
            invariant
                k <= line.len(),
                s@ == mid + line@.take(k as int),
            decreases line.len() - k,
        {
            s.push(line[k]);
            k += 1;
        }
        proof {
            lemma_joined_push(views(lines@.take(i as int)), line@);
            assert(views(lines@.take(i + 1)) == views(lines@.take(i as int)).push(line@));
        }
        i += 1;
    }
    assert(lines@.take(lines.len() as int) == lines@);
    s
}

// ---------------------------------------------------------------------
// Lemmas
// ---------------------------------------------------------------------

/// A first match is the only first match.
pub proof fn lemma_first_match(s: Seq<char>, pat: Seq<char>, i: int)
    requires
        is_first_match(s, pat, i),
    ensures
        first_match(s, pat) == Some(i),
{
    let j = choose|j: int| is_first_match(s, pat, j);
    assert(i == j);
}

/// The first `c` of `s` stands at `n` (or `s` has length `n` and holds
/// none): then `n` characters stand before it.
pub proof fn lemma_len_before(s: Seq<char>, c: char, n: int)
    requires
        0 <= n <= s.len(),
        forall|k: int| 0 <= k < n ==> s[k] != c,
        n < s.len() ==> s[n] == c,
    ensures
        len_before(s, c) == n,
    decreases n,
{
    if n > 0 {
        lemma_len_before(s.drop_first(), c, n - 1);
    }
}

/// The characters before the first `c` hold no `c`, and `c` follows them
/// unless `s` ends there.
pub proof fn lemma_len_before_bounds(s: Seq<char>, c: char)
    ensures
        len_before(s, c) <= s.len(),
        forall|k: int| 0 <= k < len_before(s, c) ==> s[k] != c,
        len_before(s, c) < s.len() ==> s[len_before(s, c) as int] == c,
    decreases s.len(),
{
    if s.len() > 0 && s[0] != c {
        let t = s.drop_first();
        lemma_len_before_bounds(t, c);
        assert forall|k: int| 0 <= k < len_before(s, c) implies s[k] != c by {
            if k > 0 {
                assert(s[k] == t[k - 1]);
            }
        }
    }
}

/// Joining one more line adds a line feed and the line, but for the first.
pub proof fn lemma_joined_push(lines: Seq<Seq<char>>, line: Seq<char>)
    ensures
        joined(lines.push(line)) == if lines.len() == 0 {
            line
        } else {
            joined(lines) + seq!['\n'] + line
        },
{
    assert(lines.push(line).drop_last() == lines);
}

/// A text begins with the first character of what it begins with.
pub proof fn lemma_prefix_first(s: Seq<char>, prefix: Seq<char>)
    requires
        has_prefix(s, prefix),
        prefix.len() > 0,
    ensures
        s.len() > 0,
        s[0] == prefix[0],
{
}

/// Joining lines puts the first line, a line feed, and the other lines
/// joined.
pub proof fn lemma_joined_first(lines: Seq<Seq<char>>)
    requires
        lines.len() >= 2,
    ensures
        joined(lines) == lines[0] + seq!['\n'] + joined(lines.drop_first()),
    decreases lines.len(),
{
    if lines.len() == 2 {
        assert(joined(lines.drop_last()) == lines[0]);
    } else {
        lemma_joined_first(lines.drop_last());
        assert(lines.drop_first().drop_last() == lines.drop_last().drop_first());
    }
}

/// Written joined and read again, lines without line feeds come back as
/// `reread` says.
pub proof fn lemma_lines_of_joined(lines: Seq<Seq<char>>)
    requires
        no_line_feeds(lines),
    ensures
        lines_of(joined(lines)) == reread(lines),
    decreases lines.len(),
{
    if lines.len() == 1 {
        if lines[0].len() > 0 {
            lemma_len_before(lines[0], '\n', lines[0].len() as int);
        }
    } else if lines.len() >= 2 {
        let first = lines[0];
        let others = lines.drop_first();
        let text = joined(lines);
        lemma_joined_first(lines);
        lemma_len_before(text, '\n', first.len() as int);
        assert(text.take(first.len() as int) == first);
        assert(text.skip(first.len() as int + 1) == joined(others));
        lemma_lines_of_joined(others);
    }
}

/// The lines of a text hold no line feed.
pub proof fn lemma_lines_hold_no_line_feed(s: Seq<char>)
    ensures
        no_line_feeds(lines_of(s)),
    decreases s.len(),
{
    let n = line_len(s) as int;
    lemma_len_before_bounds(s, '\n');
    if n < s.len() {
        lemma_lines_hold_no_line_feed(s.skip(n + 1));
    }
}

/// After a text that is empty or ends with a line feed, the lines of what
/// follows are read as if it stood alone.
pub proof fn lemma_lines_of_concat(a: Seq<char>, b: Seq<char>)
    requires
        a.len() == 0 || a.last() == '\n',
    ensures
        lines_of(a + b) == lines_of(a) + lines_of(b),
    decreases a.len(),
{
    if a.len() > 0 {
        let n = line_len(a) as int;
        let whole = a + b;
        let tail = a.skip(n + 1);
        lemma_len_before_bounds(a, '\n');
        lemma_len_before(whole, '\n', n);
        assert(whole.take(n) == a.take(n));
        assert(whole.skip(n + 1) == tail + b);
        lemma_lines_of_concat(tail, b);
    }
}

/// A text without line feed, followed by a line feed, is one line.
pub proof fn lemma_lines_of_one_line(line: Seq<char>)
    requires
        no_line_feed(line),
    ensures
        lines_of(line + seq!['\n']) == seq![without_cr(line)],
{
    let text = line + seq!['\n'];
    let n = line.len() as int;
    lemma_len_before(text, '\n', n);
    assert(text.take(n) == line);
    assert(lines_of(text.skip(n + 1)) == Seq::<Seq<char>>::empty());
}

/// What is left of `s` without its leading white space is an end of `s`
/// that does not begin with white space.
pub proof fn lemma_trimmed_start(s: Seq<char>)
    ensures
        trimmed_start(s).len() <= s.len(),
        trimmed_start(s) == s.skip(s.len() - trimmed_start(s).len()),
        trimmed_start(s).len() > 0 ==> !is_whitespace(trimmed_start(s)[0]),
        forall|k: int| 0 <= k < s.len() - trimmed_start(s).len() ==> is_whitespace(s[k]),
    decreases s.len(),
{
    if s.len() > 0 && is_whitespace(s[0]) {
        let t = s.drop_first();
        lemma_trimmed_start(t);
        assert forall|k: int| 0 <= k < s.len() - trimmed_start(s).len() implies is_whitespace(
            s[k],
        ) by {
            if k > 0 {
                assert(s[k] == t[k - 1]);
            }
        }
    }
}

/// What is left of `s` without the run of `c` at its beginning is an end
/// of `s`.
pub proof fn lemma_without_leading(s: Seq<char>, c: char)
    ensures
        without_leading(s, c).len() <= s.len(),
        without_leading(s, c) == s.skip(s.len() - without_leading(s, c).len()),
    decreases s.len(),
{
    if s.len() > 0 && s[0] == c {
        lemma_without_leading(s.drop_first(), c);
    }
}

/// Leading white space is found from the front: a text whose character at
/// `n` is the first that is no white space is trimmed to what begins there.
pub proof fn lemma_trimmed_start_at(s: Seq<char>, n: int)
    requires
        0 <= n <= s.len(),
        forall|k: int| 0 <= k < n ==> is_whitespace(s[k]),
        n < s.len() ==> !is_whitespace(s[n]),
    ensures
        trimmed_start(s) == s.skip(n),
    decreases n,
{
    if n > 0 {
        lemma_trimmed_start_at(s.drop_first(), n - 1);
    }
}

/// A line feed put after a text that does not end with one ends its last
/// line: the lines stay, but for one carriage return at the end of the last.
pub proof fn lemma_lines_of_ended(s: Seq<char>)
    requires
        s.len() > 0,
        s.last() != '\n',
    ensures
        lines_of(s).len() > 0,
        lines_of(s).last().len() > 0,
        lines_of(s).last().last() == s.last(),
        lines_of(s.push('\n')) == lines_of(s).drop_last().push(without_cr(lines_of(s).last())),
    decreases s.len(),
{
    let n = line_len(s) as int;
    let ended = s.push('\n');
    lemma_len_before_bounds(s, '\n');
    if n < s.len() {
        let tail = s.skip(n + 1);
        lemma_lines_of_ended(tail);
        lemma_len_before(ended, '\n', n);
        assert(ended.take(n) == s.take(n));
        assert(ended.skip(n + 1) == tail.push('\n'));
    } else {
        assert(ended == s + seq!['\n']);
        lemma_lines_of_one_line(s);
    }
}

/// The lines of a text that does not end with a carriage return are those
/// of the text with a line feed at its end.
pub proof fn lemma_lines_of_terminated(s: Seq<char>)
    requires
        s.len() == 0 || s.last() != '\r',
    ensures
        lines_of(terminated(s)) == lines_of(s),
{
    if s.len() > 0 && s.last() != '\n' {
        lemma_lines_of_ended(s);
    }
}

/// An end of a text stands in the text.
pub proof fn lemma_end_occurs(s: Seq<char>, n: int)
    requires
        0 <= n <= s.len(),
    ensures
        occurs_in(s, s.skip(n)),
{
    assert(occurs_at(s, s.skip(n), n));
}

/// What stands in a line without the carriage return at its end stands in
/// the line.
pub proof fn lemma_occurs_without_cr(line: Seq<char>, pat: Seq<char>)
    requires
        occurs_in(without_cr(line), pat),
    ensures
        occurs_in(line, pat),
{
    let i = choose|i: int| occurs_at(without_cr(line), pat, i);
    assert(without_cr(line).subrange(i, i + pat.len()) == line.subrange(i, i + pat.len()));
    assert(occurs_at(line, pat, i));
}

/// A line that is not empty is read back at its place, without one
/// carriage return at its end or as it is; as it is, where it does not end
/// with one.
pub proof fn lemma_reread_line(lines: Seq<Seq<char>>, i: int)
    requires
        0 <= i < lines.len(),
        lines[i].len() > 0,
    ensures
        i < reread(lines).len() <= lines.len(),
        reread(lines)[i] == lines[i] || reread(lines)[i] == without_cr(lines[i]),
        lines[i].last() != '\r' ==> reread(lines)[i] == lines[i],
{
}

} // verus!
