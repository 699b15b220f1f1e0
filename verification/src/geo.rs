//! Reading the fields of a geolocation answer and laying them out as a
//! bordered table.
//!
//! A field's value is found by position, not by parsing: after the first
//! occurrence of the key, the first colon is sought; the value begins two
//! bytes after it and ends before the next comma. This suits the flat
//! answers of the lookup service and nothing else: a key that occurs
//! earlier in another word, a comma inside a value or a nested structure
//! gives another text than the field's value, and quotes stay in it.

use crate::text::{
    append, chars_of, chars_of_each, copy_range, find, first_match, len_before, lemma_len_before,
    occurs_in, position_from, string_of, string_views, strings_of, trim, trimmed, views,
};
use vstd::prelude::*;

verus! {

/// The number of bytes that `c` takes in UTF-8.
pub open spec fn utf8_width(c: char) -> nat {
    let u = c as u32;
    if u < 0x80 {
        1
    } else if u < 0x800 {
        2
    } else if u < 0x10000 {
        3
    } else {
        4
    }
}

/// The number of bytes that `s` takes in UTF-8.
pub open spec fn utf8_len(s: Seq<char>) -> nat
    decreases s.len(),
{
    if s.len() == 0 {
        0
    } else {
        utf8_len(s.drop_last()) + utf8_width(s.last())
    }
}

/// The index of the character that begins two bytes after the beginning
/// of the character at `p`, if a character begins there or the text ends
/// there.
pub open spec fn two_bytes_after(s: Seq<char>, p: int) -> Option<int> {
    if 0 <= p < s.len() && utf8_width(s[p]) == 2 {
        Some(p + 1)
    } else if 0 <= p && p + 1 < s.len() && utf8_width(s[p]) == 1 && utf8_width(s[p + 1]) == 1 {
        Some(p + 2)
    } else {
        None
    }
}

/// Where the value of `key` begins: two bytes after the first colon at or
/// after the first occurrence of `key`, or two bytes after the beginning of
/// that occurrence where no colon follows. `None` where `key` does not
/// occur, or where that place is past the end or inside a character.
pub open spec fn value_start(s: Seq<char>, key: Seq<char>) -> Option<int> {
    match first_match(s, key) {
        None => None,
        Some(at) => {
            let colon = at + len_before(s.skip(at), ':');
            two_bytes_after(
                s,
                if colon < s.len() {
                    colon
                } else {
                    at
                },
            )
        },
    }
}

/// The value of `key`: the text from where the value begins to the next
/// comma (or the end), without the white space around it. `N/A` where `key`
/// does not occur or no value begins after it.
pub open spec fn field_value(s: Seq<char>, key: Seq<char>) -> Seq<char> {
    match value_start(s, key) {
        Some(from) => {
            let rest = s.skip(from);
            trimmed(rest.take(len_before(rest, ',') as int))
        },
        None => "N/A"@,
    }
}

/// The five rows of the table, each a label and the value of its field.
pub open spec fn rows_of(s: Seq<char>) -> Seq<Seq<char>> {
    seq![
        "IP: "@ + field_value(s, "ip"@),
        "Country: "@ + field_value(s, "country"@),
        "Region: "@ + field_value(s, "region"@),
        "Location: "@ + field_value(s, "loc"@),
        "ISP Org: "@ + field_value(s, "org"@),
    ]
}

/// The greatest number of bytes that a row takes; 0 for no rows.
pub open spec fn widest(rows: Seq<Seq<char>>) -> nat
    decreases rows.len(),
{
    if rows.len() == 0 {
        0
    } else {
        let rest = widest(rows.drop_last());
        let last = utf8_len(rows.last());
        if last > rest {
            last
        } else {
            rest
        }
    }
}

/// `n` times the character `c`.
pub open spec fn repeated(c: char, n: nat) -> Seq<char> {
    Seq::new(n, |i: int| c)
}

/// The row between its bars, filled with spaces up to `inner` characters.
pub open spec fn framed(row: Seq<char>, inner: nat) -> Seq<char> {
    let fill = if inner > row.len() {
        (inner - row.len()) as nat
    } else {
        0
    };
    "| "@ + row + repeated(' ', fill) + " |"@
}

/// The table: a border of `=`, the framed rows, and the border again. The
/// border is four characters wider than the widest row has bytes; a row is
/// filled by its number of characters.
pub open spec fn table_of(rows: Seq<Seq<char>>) -> Seq<Seq<char>> {
    let inner = widest(rows);
    seq![repeated('=', inner + 4)] + rows.map_values(|row: Seq<char>| framed(row, inner))
        + seq![repeated('=', inner + 4)]
}

/// The address at which the geolocation of `ip` is asked for.
pub open spec fn lookup_address(ip: Seq<char>) -> Seq<char> {
    "https://ipinfo.io/"@ + trimmed(ip)
}

/// The number of bytes that `c` takes in UTF-8.
pub fn width_of(c: char) -> (n: u8)
    ensures
        n == utf8_width(c),
{
    let u: u32 = c as u32;
    if u < 0x80 {
        1
    } else if u < 0x800 {
        2
    } else if u < 0x10000 {
        3
    } else {
        4
    }
}

/// The number of bytes that `s` takes in UTF-8.
pub fn byte_len(s: &[char]) -> (n: u128)
    ensures
        n == utf8_len(s@),
        n <= 4 * s.len(),
{
    let mut n: u128 = 0;
    let mut i: usize = 0;
    while i < s.len()
        invariant
            i <= s.len(),
            n == utf8_len(s@.take(i as int)),
            n <= 4 * i,
        decreases s.len() - i,
    {
        n = n + width_of(s[i]) as u128;
        i += 1;
        assert(s@.take(i as int).drop_last() == s@.take(i - 1));
    }
    assert(s@.take(s.len() as int) == s@);
    n
}

/// Where the value of `key` begins in `s`.
pub fn value_begin(s: &[char], key: &[char]) -> (r: Option<usize>)
    ensures
        match r {
            Some(i) => value_start(s@, key@) == Some(i as int) && i <= s.len(),
            None => value_start(s@, key@) is None,
        },
{
    match find(s, key) {
        None => None,
        Some(at) => {
            let colon = position_from(s, at, ':');
            proof {
                lemma_len_before(s@.skip(at as int), ':', colon - at);
            }
            let p = if colon < s.len() {
                colon
            } else {
                at
            };
            if p < s.len() && width_of(s[p]) == 2 {
                Some(p + 1)
            } else if p < s.len() && s.len() - p > 1 && width_of(s[p]) == 1 && width_of(s[p + 1])
                == 1 {
                Some(p + 2)
            } else {
                None
            }
        },
    }
}

/// The value of `key` in `s`.
pub fn field_of(s: &[char], key: &[char]) -> (v: Vec<char>)
    ensures
        v@ == field_value(s@, key@),
{
    match value_begin(s, key) {
        None => chars_of("N/A"),
        Some(from) => {
            let end = position_from(s, from, ',');
            proof {
                let rest = s@.skip(from as int);
                lemma_len_before(rest, ',', end - from);
                assert(rest.take(end - from) == s@.subrange(from as int, end as int));
            }
            let raw = copy_range(s, from, end);
            trim(raw.as_slice())
        },
    }
}

/// The value of the field `key` in the answer `data`: what stands between
/// the second byte after the colon that follows `key` and the next comma,
/// without the white space around it. `N/A` where `key` does not occur, and
/// where the text ends, or a character of several bytes stands, before the
/// value could begin.
pub fn extract_field(data: &str, key: &str) -> (r: String)
    ensures
        r@ == field_value(data@, key@),
        !occurs_in(data@, key@) ==> r@ == "N/A"@,
{
    let s = chars_of(data);
    let k = chars_of(key);
    string_of(field_of(s.as_slice(), k.as_slice()).as_slice())
}

/// The address at which the geolocation of the address in `ip` is asked for.
pub fn lookup_url(ip: &str) -> (r: String)
    ensures
        r@ == lookup_address(ip@),
{
    let mut v = chars_of("https://ipinfo.io/");
    let s = chars_of(ip);
    append(&mut v, trim(s.as_slice()).as_slice());
    string_of(v.as_slice())
}

/// `n` times the character `c`, appended to `v`.
fn fill(v: &mut Vec<char>, c: char, n: u128)
    ensures
        final(v)@ == old(v)@ + repeated(c, n as nat),
{
    let mut k: u128 = 0;
    while k < n
        invariant
            k <= n,
            v@ == old(v)@ + repeated(c, k as nat),
        decreases n - k,
    {
        v.push(c);
        k += 1;
    }
}

/// The greatest number of bytes that a row takes.
fn widest_of(rows: &Vec<Vec<char>>) -> (w: u128)
    ensures
        w == widest(views(rows@)),
        w <= 4 * usize::MAX,
{
    let mut w: u128 = 0;
    let mut i: usize = 0;
    while i < rows.len()
        invariant
            i <= rows.len(),
            w == widest(views(rows@.take(i as int))),
            w <= 4 * usize::MAX,
        decreases rows.len() - i,
    {
        let n = byte_len(rows[i].as_slice());
        assert(views(rows@.take(i + 1)).drop_last() == views(rows@.take(i as int)));
        if n > w {
            w = n;
        }
        i += 1;
    }
    assert(rows@.take(rows.len() as int) == rows@);
    w
}

/// The table of the given rows.
pub fn render_table(rows: &Vec<String>) -> (lines: Vec<String>)
    ensures
        string_views(lines@) == table_of(string_views(rows@)),
{
    let texts = chars_of_each(rows);
    let inner = widest_of(&texts);
    let mut out: Vec<Vec<char>> = Vec::new();
    let mut border: Vec<char> = Vec::new();
    fill(&mut border, '=', inner + 4);
    out.push(copy_range(border.as_slice(), 0, border.len()));
    assert(border@.subrange(0, border@.len() as int) == border@);
    let mut i: usize = 0;
    let ghost frame = |row: Seq<char>| framed(row, inner as nat);
    while i < texts.len()
        invariant
            i <= texts.len(),
            frame == |row: Seq<char>| framed(row, inner as nat),
            views(out@) == seq![border@] + views(texts@.take(i as int)).map_values(frame),
        decreases texts.len() - i,
    {
        let ghost done = out@;
        let row = &texts[i];
        let mut line = chars_of("| ");
        append(&mut line, row.as_slice());
        let count = row.len() as u128;
        let gap: u128 = if inner > count {
            inner - count
        } else {
            0
        };
        fill(&mut line, ' ', gap);
        append(&mut line, chars_of(" |").as_slice());
        out.push(line);
        i += 1;
        assert(views(out@) == views(done).push(framed(row@, inner as nat)));
    }
    assert(texts@.take(texts.len() as int) == texts@);
    out.push(border);
    strings_of(&out)
}

/// The table of the five fields of a geolocation answer.
pub fn report(response: &str) -> (lines: Vec<String>)
    ensures
        string_views(lines@) == table_of(rows_of(response@)),
{
    let s = chars_of(response);
    let mut rows: Vec<String> = Vec::new();
    rows.push(labelled("IP: ", s.as_slice(), "ip"));
    rows.push(labelled("Country: ", s.as_slice(), "country"));
    rows.push(labelled("Region: ", s.as_slice(), "region"));
    rows.push(labelled("Location: ", s.as_slice(), "loc"));
    rows.push(labelled("ISP Org: ", s.as_slice(), "org"));
    assert(string_views(rows@) == rows_of(response@));
    render_table(&rows)
}

/// One row: the label and the value of the field `key` in `s`.
fn labelled(label: &str, s: &[char], key: &str) -> (row: String)
    ensures
        row@ == label@ + field_value(s@, key@),
{
    let mut v = chars_of(label);
    append(&mut v, field_of(s, chars_of(key).as_slice()).as_slice());
    string_of(v.as_slice())
}

} // verus!
