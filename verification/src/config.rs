//! Rewriting the configuration text line by line: commenting the active
//! proxy directives out, enabling the directives that name a given proxy,
//! and removing the lines of a proxy.

use crate::text::{
    append, chars_of, contains, copy_of, has_prefix, is_whitespace, join_lines, joined,
    lemma_end_occurs, lemma_lines_hold_no_line_feed, lemma_lines_of_joined,
    lemma_occurs_without_cr, lemma_prefix_first, lemma_reread_line, lemma_trimmed_start,
    lemma_trimmed_start_at, lemma_without_leading, lines_of, no_line_feed, no_line_feeds,
    occurs_at, occurs_in, reread, same, split_lines, starts_with, string_of, strip_leading,
    trim_start, trimmed_start, views, without_cr, without_leading,
};
use vstd::prelude::*;

verus! {

/// The line is commented out: its first character after leading white
/// space is `#`.
pub open spec fn is_comment(line: Seq<char>) -> bool {
    has_prefix(trimmed_start(line), seq!['#'])
}

/// The line is an active directive of a supported protocol: after leading
/// white space it begins with `socks5`, `socks4`, `http` or `https`.
pub open spec fn is_directive(line: Seq<char>) -> bool {
    let t = trimmed_start(line);
    ||| has_prefix(t, "socks5"@)
    ||| has_prefix(t, "socks4"@)
    ||| has_prefix(t, "http"@)
    ||| has_prefix(t, "https"@)
}

/// The line without its comment marker and the white space around it.
pub open spec fn uncommented(line: Seq<char>) -> Seq<char> {
    trimmed_start(without_leading(trimmed_start(line), '#'))
}

/// A comment that holds `proxy` loses its marker; any other line stays.
pub open spec fn enabled_line(line: Seq<char>, proxy: Seq<char>) -> Seq<char> {
    if is_comment(line) && occurs_in(line, proxy) {
        uncommented(line)
    } else {
        line
    }
}

/// An active directive is commented out with `# `; any other line stays.
pub open spec fn commented_line(line: Seq<char>) -> Seq<char> {
    if is_directive(line) {
        "# "@ + line
    } else {
        line
    }
}

/// The line is `proxy` itself or `proxy` commented out with `# `.
pub open spec fn is_entry_of(line: Seq<char>, proxy: Seq<char>) -> bool {
    line == proxy || line == "# "@ + proxy
}

/// Each line after enabling `proxy`.
pub open spec fn enabled_lines(lines: Seq<Seq<char>>, proxy: Seq<char>) -> Seq<Seq<char>> {
    lines.map_values(|line: Seq<char>| enabled_line(line, proxy))
}

/// Each line after commenting the active directives out.
pub open spec fn commented_lines(lines: Seq<Seq<char>>) -> Seq<Seq<char>> {
    lines.map_values(|line: Seq<char>| commented_line(line))
}

/// The lines that are no entry of `proxy`, in their order.
pub open spec fn lines_without(lines: Seq<Seq<char>>, proxy: Seq<char>) -> Seq<Seq<char>> {
    lines.filter(|line: Seq<char>| !is_entry_of(line, proxy))
}

/// The configuration after enabling `proxy`.
pub open spec fn enabled(content: Seq<char>, proxy: Seq<char>) -> Seq<char> {
    joined(enabled_lines(lines_of(content), proxy))
}

/// The configuration after commenting all active directives out.
pub open spec fn others_commented(content: Seq<char>) -> Seq<char> {
    joined(commented_lines(lines_of(content)))
}

/// The configuration without the entries of `proxy`.
pub open spec fn proxy_removed(content: Seq<char>, proxy: Seq<char>) -> Seq<char> {
    joined(lines_without(lines_of(content), proxy))
}

/// The configuration after switching to `proxy`: all active directives
/// commented out, then `proxy` enabled.
pub open spec fn switched(content: Seq<char>, proxy: Seq<char>) -> Seq<char> {
    enabled(others_commented(content), proxy)
}

/// The line is a comment that holds `proxy` and that, without its marker,
/// is a directive of a supported protocol.
pub open spec fn names_proxy(line: Seq<char>, proxy: Seq<char>) -> bool {
    is_comment(line) && occurs_in(line, proxy) && is_directive(uncommented(line))
}

/// The line is `old` commented out with `# `, short of at most two
/// carriage returns at its end.
pub open spec fn is_commented_copy(line: Seq<char>, old: Seq<char>) -> bool {
    let marked = "# "@ + old;
    line == marked || line == without_cr(marked) || line == without_cr(without_cr(marked))
}

/// The line is `proxy` after white space, or after white space and comment
/// markers.
pub open spec fn is_line_of(line: Seq<char>, proxy: Seq<char>) -> bool {
    trimmed_start(line) == proxy || (is_comment(line) && uncommented(line) == proxy)
}

/// Whether the line is commented out.
pub fn is_comment_line(line: &[char]) -> (b: bool)
    ensures
        b == is_comment(line@),
{
    let t = trim_start(line);
    proof {
        if t@.len() > 0 {
            assert(t@.subrange(0, 1) == seq![t@[0]]);
            assert(seq![t@[0]][0] == t@[0]);
        }
    }
    t.len() > 0 && t[0] == '#'
}

/// Whether the line is an active directive of a supported protocol.
pub fn is_directive_line(line: &[char]) -> (b: bool)
    ensures
        b == is_directive(line@),
{
    let t = trim_start(line);
    starts_with(t.as_slice(), chars_of("socks5").as_slice()) || starts_with(
        t.as_slice(),
        chars_of("socks4").as_slice(),
    ) || starts_with(t.as_slice(), chars_of("http").as_slice()) || starts_with(
        t.as_slice(),
        chars_of("https").as_slice(),
    )
}

/// The line after enabling `proxy`.
pub fn enable_line(line: &[char], proxy: &[char]) -> (v: Vec<char>)
    ensures
        v@ == enabled_line(line@, proxy@),
{
    if is_comment_line(line) && contains(line, proxy) {
        let t = trim_start(line);
        let bare = strip_leading(t.as_slice(), '#');
        trim_start(bare.as_slice())
    } else {
        copy_of(line)
    }
}

/// The line after commenting it out if it is an active directive.
pub fn comment_line(line: &[char]) -> (v: Vec<char>)
    ensures
        v@ == commented_line(line@),
{
    if is_directive_line(line) {
        let mut v = chars_of("# ");
        append(&mut v, line);
        v
    } else {
        copy_of(line)
    }
}

/// Whether the line is `proxy` or `proxy` commented out with `# `.
pub fn is_entry_line(line: &[char], proxy: &[char]) -> (b: bool)
    ensures
        b == is_entry_of(line@, proxy@),
{
    let mut marked = chars_of("# ");
    append(&mut marked, proxy);
    same(line, proxy) || same(line, marked.as_slice())
}

/// Enables `proxy_line` in the configuration: every commented line that
/// holds it loses its comment marker, every other line stays as it is.
pub fn enable_proxy(content: &str, proxy_line: &str) -> (r: String)
    ensures
        r@ == enabled(content@, proxy_line@),
{
    let text = chars_of(content);
    let proxy = chars_of(proxy_line);
    let lines = split_lines(text.as_slice());
    let mut out: Vec<Vec<char>> = Vec::new();
    let mut i: usize = 0;
    while i < lines.len()
        invariant
            i <= lines.len(),
            views(out@) == enabled_lines(views(lines@.take(i as int)), proxy@),
        decreases lines.len() - i,
    {
        let ghost done = out@;
        let line = enable_line(lines[i].as_slice(), proxy.as_slice());
        out.push(line);
        i += 1;
        assert(views(out@) == views(done).push(line@));
    }
    assert(lines@.take(lines.len() as int) == lines@);
    string_of(join_lines(&out).as_slice())
}

/// Comments every active directive of a supported protocol out.
pub fn comment_out_other_proxies(content: &str) -> (r: String)
    ensures
        r@ == others_commented(content@),
{
    let text = chars_of(content);
    let lines = split_lines(text.as_slice());
    let mut out: Vec<Vec<char>> = Vec::new();
    let mut i: usize = 0;
    while i < lines.len()
        invariant
            i <= lines.len(),
            views(out@) == commented_lines(views(lines@.take(i as int))),
        decreases lines.len() - i,
    {
        let ghost done = out@;
        let line = comment_line(lines[i].as_slice());
        out.push(line);
        i += 1;
        assert(views(out@) == views(done).push(line@));
    }
    assert(lines@.take(lines.len() as int) == lines@);
    string_of(join_lines(&out).as_slice())
}

/// Switches to `proxy`: comments every active directive out, then enables
/// `proxy` in what that gives.
pub fn switch_proxy(content: &str, proxy: &str) -> (r: String)
    ensures
        r@ == switched(content@, proxy@),
{
    let quiet = comment_out_other_proxies(content);
    enable_proxy(quiet.as_str(), proxy)
}

/// Removes every line that is `proxy` or `proxy` commented out with `# `.
pub fn remove_proxy(content: &str, proxy: &str) -> (r: String)
    ensures
        r@ == proxy_removed(content@, proxy@),
{
    let text = chars_of(content);
    let entry = chars_of(proxy);
    let lines = split_lines(text.as_slice());
    let mut out: Vec<Vec<char>> = Vec::new();
    let mut i: usize = 0;
    proof {
        reveal(Seq::filter);
    }
    while i < lines.len()
        invariant
            i <= lines.len(),
            views(out@) == lines_without(views(lines@.take(i as int)), entry@),
        decreases lines.len() - i,
    {
        let ghost seen = views(lines@.take(i as int));
        if !is_entry_line(lines[i].as_slice(), entry.as_slice()) {
            let line = copy_of(lines[i].as_slice());
            out.push(line);
        }
        i += 1;
        proof {
            reveal(Seq::filter);
            assert(views(lines@.take(i as int)).drop_last() == seen);
        }
    }
    assert(lines@.take(lines.len() as int) == lines@);
    string_of(join_lines(&out).as_slice())
}

/// A text without carriage return begins a line, after its leading white
/// space, whether or not one carriage return is taken from the line's end.
pub proof fn lemma_prefix_without_cr(line: Seq<char>, prefix: Seq<char>)
    requires
        prefix.len() > 0,
        forall|k: int| 0 <= k < prefix.len() ==> prefix[k] != '\r',
    ensures
        has_prefix(trimmed_start(without_cr(line)), prefix) == has_prefix(
            trimmed_start(line),
            prefix,
        ),
{
    if line.len() > 0 && line.last() == '\r' {
        let m = line.drop_last();
        lemma_trimmed_start(m);
        let t = trimmed_start(m);
        let n = m.len() - t.len();
        assert forall|k: int| 0 <= k < n implies is_whitespace(line[k]) by {
            assert(line[k] == m[k]);
        }
        if n < m.len() {
            lemma_trimmed_start_at(line, n);
            let u = trimmed_start(line);
            if prefix.len() <= t.len() {
                assert(u.subrange(0, prefix.len() as int) == t.subrange(0, prefix.len() as int));
            } else if prefix.len() == u.len() {
                if has_prefix(u, prefix) {
                    assert(u.subrange(0, prefix.len() as int)[prefix.len() - 1] == '\r');
                }
            }
        } else {
            lemma_trimmed_start_at(line, n + 1);
        }
    }
}

/// Whether a line is an active directive does not depend on one carriage
/// return at its end.
pub proof fn lemma_directive_without_cr(line: Seq<char>)
    ensures
        is_directive(without_cr(line)) == is_directive(line),
{
    reveal_strlit("socks5");
    reveal_strlit("socks4");
    reveal_strlit("http");
    reveal_strlit("https");
    lemma_prefix_without_cr(line, "socks5"@);
    lemma_prefix_without_cr(line, "socks4"@);
    lemma_prefix_without_cr(line, "http"@);
    lemma_prefix_without_cr(line, "https"@);
}

/// A line that was commented out where it was a directive is none.
pub proof fn lemma_commented_is_no_directive(line: Seq<char>)
    ensures
        !is_directive(commented_line(line)),
{
    if is_directive(line) {
        reveal_strlit("# ");
        reveal_strlit("socks5");
        reveal_strlit("socks4");
        reveal_strlit("http");
        reveal_strlit("https");
        let marked = "# "@ + line;
        if has_prefix(marked, "socks5"@) {
            lemma_prefix_first(marked, "socks5"@);
        }
        if has_prefix(marked, "socks4"@) {
            lemma_prefix_first(marked, "socks4"@);
        }
        if has_prefix(marked, "http"@) {
            lemma_prefix_first(marked, "http"@);
        }
        if has_prefix(marked, "https"@) {
            lemma_prefix_first(marked, "https"@);
        }
    }
}

/// Commenting a line out brings no line feed into it.
pub proof fn lemma_commented_holds_no_line_feed(line: Seq<char>)
    requires
        no_line_feed(line),
    ensures
        no_line_feed(commented_line(line)),
{
    reveal_strlit("# ");
}

/// Enabling a proxy in a line brings no line feed into it.
pub proof fn lemma_enabled_holds_no_line_feed(line: Seq<char>, proxy: Seq<char>)
    requires
        no_line_feed(line),
    ensures
        no_line_feed(enabled_line(line, proxy)),
{
    let bare = trimmed_start(line);
    lemma_trimmed_start(line);
    lemma_without_leading(bare, '#');
    lemma_trimmed_start(without_leading(bare, '#'));
}

/// The lines of the configuration after commenting out are its lines,
/// each commented out where it was active, as they are read back.
pub proof fn lemma_commented_read_back(content: Seq<char>)
    ensures
        lines_of(others_commented(content)) == reread(commented_lines(lines_of(content))),
{
    let lines = lines_of(content);
    let written = commented_lines(lines);
    lemma_lines_hold_no_line_feed(content);
    assert forall|i: int| 0 <= i < written.len() implies no_line_feed(#[trigger] written[i]) by {
        lemma_commented_holds_no_line_feed(lines[i]);
    }
    lemma_lines_of_joined(written);
}

/// After all active directives were commented out, the configuration
/// holds no active directive.
pub proof fn lemma_none_active_after_commenting(content: Seq<char>)
    ensures
        forall|i: int|
            0 <= i < lines_of(others_commented(content)).len() ==> !is_directive(
                #[trigger] lines_of(others_commented(content))[i],
            ),
{
    let lines = lines_of(content);
    let written = commented_lines(lines);
    lemma_commented_read_back(content);
    let read = lines_of(others_commented(content));
    assert forall|i: int| 0 <= i < read.len() implies !is_directive(#[trigger] read[i]) by {
        lemma_commented_is_no_directive(lines[i]);
        lemma_directive_without_cr(written[i]);
    }
}

/// Switching to a proxy leaves active exactly the directives that name it.
///
/// Let `before` be the lines of the configuration after all active
/// directives were commented out, and `after` the lines after `proxy` was
/// enabled in that. Then no line of `before` is an active directive;
/// `after` is `before` with `proxy` enabled in each line, as it is read
/// back; and a line of `after` is an active directive if and only if the
/// line of `before` at its place is a comment that holds `proxy` and is a
/// directive under its marker.
pub proof fn lemma_switch(content: Seq<char>, proxy: Seq<char>)
    ensures
        ({
            let before = lines_of(others_commented(content));
            let after = lines_of(switched(content, proxy));
            &&& forall|i: int| 0 <= i < before.len() ==> !is_directive(#[trigger] before[i])
            &&& after == reread(enabled_lines(before, proxy))
            &&& after.len() <= before.len()
            &&& forall|i: int|
                0 <= i < before.len() ==> (names_proxy(#[trigger] before[i], proxy) <==> i
                    < after.len() && is_directive(after[i]))
        }),
{
    let quiet = others_commented(content);
    let before = lines_of(quiet);
    let written = enabled_lines(before, proxy);
    let after = lines_of(switched(content, proxy));
    lemma_none_active_after_commenting(content);
    lemma_lines_hold_no_line_feed(quiet);
    assert forall|i: int| 0 <= i < written.len() implies no_line_feed(#[trigger] written[i]) by {
        lemma_enabled_holds_no_line_feed(before[i], proxy);
    }
    lemma_lines_of_joined(written);
    assert forall|i: int| 0 <= i < before.len() implies (names_proxy(
        #[trigger] before[i],
        proxy,
    ) <==> i < after.len() && is_directive(after[i])) by {
        lemma_directive_without_cr(written[i]);
        if i >= after.len() {
            reveal_strlit("socks5");
            reveal_strlit("socks4");
            reveal_strlit("http");
            reveal_strlit("https");
        }
    }
}

/// Where exactly one commented directive names the proxy, switching to the
/// proxy leaves exactly one active directive, and it is that one.
///
/// `k` is the place, among the lines of the configuration after all active
/// directives were commented out, of the only comment that holds `proxy`
/// and is a directive under its marker. Then the line at `k` is the only
/// active directive after the switch, and it is that comment without its
/// marker, but for one carriage return at its end.
pub proof fn lemma_switch_leaves_one(content: Seq<char>, proxy: Seq<char>, k: int)
    requires
        0 <= k < lines_of(others_commented(content)).len(),
        forall|i: int|
            0 <= i < lines_of(others_commented(content)).len() ==> (names_proxy(
                #[trigger] lines_of(others_commented(content))[i],
                proxy,
            ) <==> i == k),
    ensures
        k < lines_of(switched(content, proxy)).len(),
        forall|i: int|
            0 <= i < lines_of(switched(content, proxy)).len() ==> (is_directive(
                #[trigger] lines_of(switched(content, proxy))[i],
            ) <==> i == k),
        occurs_in(lines_of(others_commented(content))[k], proxy),
        lines_of(switched(content, proxy))[k] == uncommented(
            lines_of(others_commented(content))[k],
        ) || lines_of(switched(content, proxy))[k] == without_cr(
            uncommented(lines_of(others_commented(content))[k]),
        ),
{
    lemma_switch(content, proxy);
}

/// What begins with neither `#` nor a space stands in a line commented
/// out with `# ` if and only if it stands in the line.
pub proof fn lemma_occurs_after_marker(line: Seq<char>, pat: Seq<char>)
    requires
        pat.len() > 0,
        pat[0] != '#',
        pat[0] != ' ',
    ensures
        occurs_in("# "@ + line, pat) == occurs_in(line, pat),
{
    reveal_strlit("# ");
    let marked = "# "@ + line;
    if occurs_in(line, pat) {
        let i = choose|i: int| occurs_at(line, pat, i);
        assert(marked.subrange(i + 2, i + 2 + pat.len()) == line.subrange(i, i + pat.len()));
        assert(occurs_at(marked, pat, i + 2));
    }
    if occurs_in(marked, pat) {
        let j = choose|j: int| occurs_at(marked, pat, j);
        assert(marked.subrange(j, j + pat.len()) == line.subrange(j - 2, j - 2 + pat.len()));
        assert(occurs_at(line, pat, j - 2));
    }
}

/// A line without its marker is an end of the line.
pub proof fn lemma_uncommented_is_end(line: Seq<char>)
    ensures
        uncommented(line).len() <= line.len(),
        uncommented(line) == line.skip(line.len() - uncommented(line).len()),
{
    let bare = trimmed_start(line);
    let open = without_leading(bare, '#');
    lemma_trimmed_start(line);
    lemma_without_leading(bare, '#');
    lemma_trimmed_start(open);
}

/// A line that was commented out with `# ` is, without its marker, the
/// line without its leading white space.
pub proof fn lemma_uncommented_marked(line: Seq<char>)
    ensures
        is_comment("# "@ + line),
        uncommented("# "@ + line) == trimmed_start(line),
{
    reveal_strlit("# ");
    let marked = "# "@ + line;
    let rest = marked.drop_first();
    assert(marked.subrange(0, 1) == seq!['#']);
    assert(without_leading(rest, '#') == rest);
    assert(rest.drop_first() == line);
}

/// A comment is no active directive.
pub proof fn lemma_comment_is_no_directive(line: Seq<char>)
    requires
        is_comment(line),
    ensures
        !is_directive(line),
{
    reveal_strlit("socks5");
    reveal_strlit("socks4");
    reveal_strlit("http");
    reveal_strlit("https");
    let t = trimmed_start(line);
    lemma_prefix_first(t, seq!['#']);
    if has_prefix(t, "socks5"@) {
        lemma_prefix_first(t, "socks5"@);
    }
    if has_prefix(t, "socks4"@) {
        lemma_prefix_first(t, "socks4"@);
    }
    if has_prefix(t, "http"@) {
        lemma_prefix_first(t, "http"@);
    }
    if has_prefix(t, "https"@) {
        lemma_prefix_first(t, "https"@);
    }
}

/// A directive that does not begin with white space begins with `s` or
/// `h`.
pub proof fn lemma_directive_begins(proxy: Seq<char>)
    requires
        is_directive(proxy),
        proxy.len() == 0 || !is_whitespace(proxy[0]),
    ensures
        proxy.len() > 0,
        proxy[0] == 's' || proxy[0] == 'h',
        trimmed_start(proxy) == proxy,
{
    reveal_strlit("socks5");
    reveal_strlit("socks4");
    reveal_strlit("http");
    reveal_strlit("https");
    if has_prefix(proxy, "socks5"@) {
        lemma_prefix_first(proxy, "socks5"@);
    }
    if has_prefix(proxy, "socks4"@) {
        lemma_prefix_first(proxy, "socks4"@);
    }
    if has_prefix(proxy, "http"@) {
        lemma_prefix_first(proxy, "http"@);
    }
    if has_prefix(proxy, "https"@) {
        lemma_prefix_first(proxy, "https"@);
    }
}

/// Where one line of the configuration is the proxy and no other line
/// holds it, switching to the proxy leaves it as the only active
/// directive, at its place, and every other directive that was active is
/// commented out.
///
/// `proxy` is a directive of a supported protocol that does not end with a
/// carriage return. The line at `k` is `proxy`, after white space or after
/// white space and comment markers, and `proxy` stands in no other line.
/// Then, among the lines after the switch, the line at `k` is `proxy`; it
/// is the only active directive; and each other line that was an active
/// directive is commented out with `# `, short of at most two carriage
/// returns at its end.
pub proof fn lemma_switch_to_one_line(content: Seq<char>, proxy: Seq<char>, k: int)
    requires
        0 <= k < lines_of(content).len(),
        is_line_of(lines_of(content)[k], proxy),
        forall|i: int|
            0 <= i < lines_of(content).len() && i != k ==> !occurs_in(
                #[trigger] lines_of(content)[i],
                proxy,
            ),
        is_directive(proxy),
        proxy.len() == 0 || proxy.last() != '\r',
    ensures
        k < lines_of(switched(content, proxy)).len() <= lines_of(content).len(),
        lines_of(switched(content, proxy))[k] == proxy,
        forall|i: int|
            0 <= i < lines_of(switched(content, proxy)).len() ==> (is_directive(
                #[trigger] lines_of(switched(content, proxy))[i],
            ) <==> i == k),
        forall|i: int|
            0 <= i < lines_of(content).len() && i != k && is_directive(
                #[trigger] lines_of(content)[i],
            ) ==> i < lines_of(switched(content, proxy)).len() && is_commented_copy(
                lines_of(switched(content, proxy))[i],
                lines_of(content)[i],
            ),
{
    reveal_strlit("# ");
    let lines = lines_of(content);
    let marked = commented_lines(lines);
    let before = lines_of(others_commented(content));
    let enabled = enabled_lines(before, proxy);
    let after = lines_of(switched(content, proxy));
    lemma_commented_read_back(content);
    lemma_switch(content, proxy);
    let own = lines[k];
    // The proxy begins with a letter and is an end of its line.
    lemma_trimmed_start(own);
    lemma_uncommented_is_end(own);
    lemma_trimmed_start(without_leading(trimmed_start(own), '#'));
    lemma_directive_begins(proxy);
    let cut = own.len() - proxy.len();
    lemma_end_occurs(own, cut);
    // The line of the proxy is a comment that names it, once the active
    // directives are commented out.
    if is_comment(own) {
        lemma_comment_is_no_directive(own);
    } else {
        lemma_uncommented_marked(own);
        lemma_occurs_after_marker(own, proxy);
    }
    lemma_reread_line(marked, k);
    assert(before[k] == marked[k]);
    assert(names_proxy(before[k], proxy));
    lemma_reread_line(enabled, k);
    assert(after[k] == proxy);
    // No other line holds the proxy, before or after commenting out.
    assert forall|i: int| 0 <= i < before.len() && i != k implies !occurs_in(
        #[trigger] before[i],
        proxy,
    ) by {
        lemma_occurs_after_marker(lines[i], proxy);
        if occurs_in(before[i], proxy) {
            if before[i] != marked[i] {
                lemma_occurs_without_cr(marked[i], proxy);
            }
        }
    }
    // Each other line that was active is commented out and read back twice.
    assert forall|i: int|
        0 <= i < lines.len() && i != k && is_directive(#[trigger] lines[i]) implies i
        < after.len() && is_commented_copy(after[i], lines[i]) by {
        lemma_reread_line(marked, i);
        lemma_reread_line(enabled, i);
    }
}

} // verus!
