//! The list of custom proxies: what adding a proxy writes, how the list is
//! shown, and what selecting or deleting an entry by its number does to the
//! list and to the configuration.
//!
//! Entries are numbered from 1 in the order in which they were added.

use crate::config::{
    enabled_lines, is_commented_copy, is_directive, is_entry_of, is_line_of, lemma_switch,
    lemma_switch_to_one_line, lines_without, names_proxy, others_commented, proxy_removed,
    remove_proxy, switch_proxy, switched,
};
use crate::text::{
    append, chars_of, chars_of_each, copy_of, join_lines, joined, lemma_lines_of_concat,
    lemma_lines_of_ended, lemma_lines_of_one_line, lemma_lines_of_terminated, lines_of,
    no_line_feed, occurs_in, reread, same, string_of, string_views, strings_of, terminated,
    views,
};
use vstd::prelude::*;

verus! {

/// What adding a custom proxy appends to the two files.
#[derive(Debug, Clone, PartialEq, Eq)]
pub struct Addition {
    /// Appended to the configuration: a line feed, then the proxy as one line.
    pub config_text: String,
    /// Appended to the list of custom proxies: the proxy as one line, after a
    /// line feed where the list does not end with one.
    pub list_text: String,
}

/// What selecting a custom proxy gives.
#[derive(Debug, Clone, PartialEq, Eq)]
pub struct Selection {
    /// The proxy that was selected.
    pub proxy: String,
    /// The configuration after the switch to the proxy.
    pub config: String,
}

/// What deleting a custom proxy gives.
#[derive(Debug, Clone, PartialEq, Eq)]
pub struct Removal {
    /// The proxy that was deleted.
    pub proxy: String,
    /// The list of custom proxies without it, one entry per line.
    pub list: String,
    /// The configuration without its lines.
    pub config: String,
}

/// The text that adding `proxy` appends to the configuration.
pub open spec fn config_addition(proxy: Seq<char>) -> Seq<char> {
    seq!['\n'] + proxy + seq!['\n']
}

/// The text that adding `proxy` appends to the list `list`: the proxy as
/// one line, after a line feed where the list does not end with one.
pub open spec fn list_addition(list: Seq<char>, proxy: Seq<char>) -> Seq<char> {
    if list.len() == 0 || list.last() == '\n' {
        proxy.push('\n')
    } else {
        seq!['\n'] + proxy.push('\n')
    }
}

/// The proxy can be one entry of the list: it holds no line feed and does
/// not end with a carriage return.
pub open spec fn is_one_entry(proxy: Seq<char>) -> bool {
    no_line_feed(proxy) && (proxy.len() == 0 || proxy.last() != '\r')
}

/// The entry with number `index`, counted from 1.
pub open spec fn entry(proxies: Seq<Seq<char>>, index: int) -> Option<Seq<char>> {
    if 1 <= index <= proxies.len() {
        Some(proxies[index - 1])
    } else {
        None
    }
}

/// The entries that differ from `proxy`, in their order.
pub open spec fn entries_without(proxies: Seq<Seq<char>>, proxy: Seq<char>) -> Seq<Seq<char>> {
    proxies.filter(|p: Seq<char>| p != proxy)
}

/// The character of a decimal digit.
pub open spec fn digit_char(d: nat) -> char {
    if d == 0 {
        '0'
    } else if d == 1 {
        '1'
    } else if d == 2 {
        '2'
    } else if d == 3 {
        '3'
    } else if d == 4 {
        '4'
    } else if d == 5 {
        '5'
    } else if d == 6 {
        '6'
    } else if d == 7 {
        '7'
    } else if d == 8 {
        '8'
    } else {
        '9'
    }
}

/// The decimal digits of `n`, without leading zeros.
pub open spec fn decimal(n: nat) -> Seq<char>
    decreases n,
{
    if n < 10 {
        seq![digit_char(n)]
    } else {
        decimal(n / 10).push(digit_char(n % 10))
    }
}

/// One line of the listing: the number, a colon and a space, the entry.
pub open spec fn numbered(number: nat, proxy: Seq<char>) -> Seq<char> {
    decimal(number) + ": "@ + proxy
}

/// The listing: each entry with its number, counted from 1.
pub open spec fn listing(proxies: Seq<Seq<char>>) -> Seq<Seq<char>> {
    Seq::new(proxies.len(), |i: int| numbered((i + 1) as nat, proxies[i]))
}

/// What adding `custom_proxy` appends to the configuration and to the list
/// of custom proxies, whose text is `list`.
///
/// The proxy becomes an entry of its own, the last of the list, whether or
/// not the list ends with a line feed; the entries before it stay as they
/// are, but that an unended last entry loses a carriage return at its end.
pub fn add_custom_proxy(list: &str, custom_proxy: &str) -> (a: Addition)
    ensures
        a.config_text@ == config_addition(custom_proxy@),
        a.list_text@ == list_addition(list@, custom_proxy@),
        is_one_entry(custom_proxy@) ==> {
            &&& lines_of(list@ + a.list_text@) == lines_of(terminated(list@)).push(custom_proxy@)
            &&& lines_of(list@ + a.list_text@).len() == lines_of(list@).len() + 1
        },
        is_one_entry(custom_proxy@) && (list@.len() == 0 || list@.last() != '\r') ==> lines_of(
            list@ + a.list_text@,
        ) == lines_of(list@).push(custom_proxy@),
{
    let proxy = chars_of(custom_proxy);
    let before = chars_of(list);
    let mut config_text: Vec<char> = Vec::new();
    config_text.push('\n');
    append(&mut config_text, proxy.as_slice());
    config_text.push('\n');
    let mut list_text: Vec<char> = Vec::new();
    if before.len() > 0 && before[before.len() - 1] != '\n' {
        list_text.push('\n');
    }
    append(&mut list_text, proxy.as_slice());
    list_text.push('\n');
    proof {
        if is_one_entry(custom_proxy@) {
            lemma_added_is_last(list@, custom_proxy@);
        }
    }
    Addition {
        config_text: string_of(config_text.as_slice()),
        list_text: string_of(list_text.as_slice()),
    }
}

/// The character of the digit `d`.
fn digit_of(d: usize) -> (c: char)
    requires
        d < 10,
    ensures
        c == digit_char(d as nat),
{
    if d == 0 {
        '0'
    } else if d == 1 {
        '1'
    } else if d == 2 {
        '2'
    } else if d == 3 {
        '3'
    } else if d == 4 {
        '4'
    } else if d == 5 {
        '5'
    } else if d == 6 {
        '6'
    } else if d == 7 {
        '7'
    } else if d == 8 {
        '8'
    } else {
        '9'
    }
}

/// Appends the decimal digits of `n` to `v`.
fn push_decimal(v: &mut Vec<char>, n: usize)
    ensures
        final(v)@ == old(v)@ + decimal(n as nat),
    decreases n,
{
    if n >= 10 {
        push_decimal(v, n / 10);
    }
    v.push(digit_of(n % 10));
}

/// The listing of the custom proxies: one line for each entry, with its
/// number counted from 1.
pub fn list_custom_proxies(proxies: &Vec<String>) -> (lines: Vec<String>)
    ensures
        string_views(lines@) == listing(string_views(proxies@)),
{
    let entries = chars_of_each(proxies);
    let mut out: Vec<Vec<char>> = Vec::new();
    let mut i: usize = 0;
    while i < entries.len()
        invariant
            i <= entries.len(),
            views(out@) == listing(views(entries@.take(i as int))),
        decreases entries.len() - i,
    {
        let ghost done = out@;
        let mut line: Vec<char> = Vec::new();
        push_decimal(&mut line, i + 1);
        append(&mut line, chars_of(": ").as_slice());
        append(&mut line, entries[i].as_slice());
        out.push(line);
        i += 1;
        assert(views(out@) == views(done).push(line@));
    }
    strings_of(&out)
}

/// The entry with number `index`, counted from 1.
pub fn select_proxy(proxies: &Vec<String>, index: usize) -> (r: Option<&String>)
    ensures
        match r {
            Some(proxy) => entry(string_views(proxies@), index as int) == Some(proxy@),
            None => entry(string_views(proxies@), index as int) is None,
        },
{
    if 1 <= index && index <= proxies.len() {
        Some(&proxies[index - 1])
    } else {
        None
    }
}

/// Selects the custom proxy with number `index` and switches to it: every
/// active directive of the configuration is commented out, then the proxy
/// is enabled. `None`, with nothing to write, where the list has no entry of
/// that number.
pub fn use_custom_proxy(config: &str, proxies: &Vec<String>, index: usize) -> (r: Option<
    Selection,
>)
    ensures
        match r {
            Some(selection) => {
                &&& entry(string_views(proxies@), index as int) == Some(selection.proxy@)
                &&& selection.config@ == switched(config@, selection.proxy@)
            },
            None => !(1 <= index <= proxies.len()),
        },
{
    match select_proxy(proxies, index) {
        Some(proxy) => Some(
            Selection { proxy: proxy.clone(), config: switch_proxy(config, proxy.as_str()) },
        ),
        None => None,
    }
}

/// Deletes the custom proxy with number `index`: every entry equal to it
/// leaves the list, and every line that is the proxy, or the proxy
/// commented out with `# `, leaves the configuration. `None`, with nothing
/// to write, where the list has no entry of that number.
pub fn delete_custom_proxy(config: &str, proxies: &Vec<String>, index: usize) -> (r: Option<
    Removal,
>)
    ensures
        match r {
            Some(removal) => {
                &&& entry(string_views(proxies@), index as int) == Some(removal.proxy@)
                &&& removal.list@ == joined(
                    entries_without(string_views(proxies@), removal.proxy@),
                )
                &&& removal.config@ == proxy_removed(config@, removal.proxy@)
            },
            None => !(1 <= index <= proxies.len()),
        },
{
    match select_proxy(proxies, index) {
        Some(proxy) => {
            let entries = chars_of_each(proxies);
            let gone = chars_of(proxy.as_str());
            let mut kept: Vec<Vec<char>> = Vec::new();
            let mut i: usize = 0;
            proof {
                reveal(Seq::filter);
            }
            while i < entries.len()
                invariant
                    i <= entries.len(),
                    views(kept@) == entries_without(views(entries@.take(i as int)), gone@),
                decreases entries.len() - i,
            {
                let ghost seen = views(entries@.take(i as int));
                if !same(entries[i].as_slice(), gone.as_slice()) {
                    let line = copy_of(entries[i].as_slice());
                    kept.push(line);
                }
                i += 1;
                proof {
                    reveal(Seq::filter);
                    assert(views(entries@.take(i as int)).drop_last() == seen);
                }
            }
            assert(entries@.take(entries.len() as int) == entries@);
            Some(
                Removal {
                    proxy: proxy.clone(),
                    list: string_of(join_lines(&kept).as_slice()),
                    config: remove_proxy(config, proxy.as_str()),
                },
            )
        },
        None => None,
    }
}

/// Added to any list, a proxy is read back as the last entry, and is
/// listed last, under the highest number. The entries before it are those
/// of the list, but that an unended last entry that ends with a carriage
/// return is read back without it.
///
/// The proxy holds no line feed and does not end with a carriage return.
pub proof fn lemma_added_is_last(list: Seq<char>, proxy: Seq<char>)
    requires
        is_one_entry(proxy),
    ensures
        lines_of(list + list_addition(list, proxy)) == lines_of(terminated(list)).push(proxy),
        lines_of(terminated(list)).len() == lines_of(list).len(),
        list.len() == 0 || list.last() != '\r' ==> lines_of(list + list_addition(list, proxy))
            == lines_of(list).push(proxy),
        entry(lines_of(list + list_addition(list, proxy)), lines_of(list).len() as int + 1)
            == Some(proxy),
        listing(lines_of(list + list_addition(list, proxy))).last() == numbered(
            lines_of(list).len() + 1,
            proxy,
        ),
{
    let ended = terminated(list);
    assert(list + list_addition(list, proxy) == ended + proxy.push('\n'));
    assert(proxy.push('\n') == proxy + seq!['\n']);
    lemma_lines_of_concat(ended, proxy.push('\n'));
    lemma_lines_of_one_line(proxy);
    if list.len() > 0 && list.last() != '\n' {
        lemma_lines_of_ended(list);
    }
    if list.len() == 0 || list.last() != '\r' {
        lemma_lines_of_terminated(list);
    }
}

/// A list that does not hold `proxy` is kept whole where `proxy` is taken
/// from it.
pub proof fn lemma_absent_is_not_missed(proxies: Seq<Seq<char>>, proxy: Seq<char>)
    requires
        !proxies.contains(proxy),
    ensures
        entries_without(proxies, proxy) == proxies,
    decreases proxies.len(),
{
    reveal(Seq::filter);
    if proxies.len() > 0 {
        let front = proxies.drop_last();
        assert(proxies.last() != proxy);
        assert(!front.contains(proxy));
        lemma_absent_is_not_missed(front, proxy);
    }
}

/// Deleting a proxy that was added to a list that did not hold it gives
/// the entries of the list as they were before.
///
/// The proxy holds no line feed and does not end with a carriage return,
/// and the list does not end with a carriage return.
pub proof fn lemma_added_then_deleted(list: Seq<char>, proxy: Seq<char>)
    requires
        is_one_entry(proxy),
        list.len() == 0 || list.last() != '\r',
        !lines_of(list).contains(proxy),
    ensures
        entries_without(lines_of(list + list_addition(list, proxy)), proxy) == lines_of(list),
{
    let before = lines_of(list);
    lemma_added_is_last(list, proxy);
    lemma_absent_is_not_missed(before, proxy);
    reveal(Seq::filter);
    assert(before.push(proxy).drop_last() == before);
}

/// Added to any configuration, a proxy is read back as its last line.
///
/// The proxy holds no line feed and does not end with a carriage return.
pub proof fn lemma_added_is_last_line(config: Seq<char>, proxy: Seq<char>)
    requires
        is_one_entry(proxy),
    ensures
        lines_of(config + config_addition(proxy)) == lines_of(config + seq!['\n']).push(proxy),
{
    let ended = config + seq!['\n'];
    let line = proxy + seq!['\n'];
    lemma_lines_of_concat(ended, line);
    lemma_lines_of_one_line(proxy);
    assert(config + config_addition(proxy) == ended + line);
}

/// Deleting a proxy leaves none of it: no entry of the list that is kept
/// equals it, no line of the configuration that is kept is the proxy or the
/// proxy commented out, and every other entry and line is kept.
pub proof fn lemma_deleted_is_gone(config: Seq<char>, proxies: Seq<Seq<char>>, proxy: Seq<char>)
    ensures
        !entries_without(proxies, proxy).contains(proxy),
        forall|i: int|
            0 <= i < proxies.len() && proxies[i] != proxy ==> entries_without(
                proxies,
                proxy,
            ).contains(#[trigger] proxies[i]),
        forall|i: int|
            0 <= i < lines_without(lines_of(config), proxy).len() ==> !is_entry_of(
                #[trigger] lines_without(lines_of(config), proxy)[i],
                proxy,
            ),
        forall|i: int|
            0 <= i < lines_of(config).len() && !is_entry_of(lines_of(config)[i], proxy)
                ==> lines_without(lines_of(config), proxy).contains(#[trigger] lines_of(config)[i]),
{
    let differs = |p: Seq<char>| p != proxy;
    let is_other = |line: Seq<char>| !is_entry_of(line, proxy);
    let lines = lines_of(config);
    let kept = entries_without(proxies, proxy);
    let kept_lines = lines_without(lines, proxy);
    if kept.contains(proxy) {
        let i = choose|i: int| 0 <= i < kept.len() && kept[i] == proxy;
        proxies.lemma_filter_pred(differs, i);
    }
    assert forall|i: int| 0 <= i < proxies.len() && proxies[i] != proxy implies kept.contains(
        #[trigger] proxies[i],
    ) by {
        proxies.lemma_filter_contains(differs, i);
    }
    assert forall|i: int| 0 <= i < kept_lines.len() implies !is_entry_of(
        #[trigger] kept_lines[i],
        proxy,
    ) by {
        lines.lemma_filter_pred(is_other, i);
    }
    assert forall|i: int| 0 <= i < lines.len() && !is_entry_of(lines[i], proxy)
        implies kept_lines.contains(#[trigger] lines[i]) by {
        lines.lemma_filter_contains(is_other, i);
    }
}

/// Selecting a custom proxy by its number, after all active directives
/// were commented out, leaves active exactly the directives that name it.
///
/// Let `proxy` be the entry with number `index`, `before` the lines of the
/// configuration after all active directives were commented out, and
/// `after` the lines after `proxy` was enabled in that. Then no line of
/// `before` is an active directive, and a line of `after` is one if and
/// only if the line of `before` at its place is a comment that holds
/// `proxy` and is a directive under its marker.
pub proof fn lemma_selected_is_switched_to(
    config: Seq<char>,
    proxies: Seq<Seq<char>>,
    index: int,
)
    requires
        entry(proxies, index) is Some,
    ensures
        ({
            let proxy = proxies[index - 1];
            let before = lines_of(others_commented(config));
            let after = lines_of(switched(config, proxy));
            &&& forall|i: int| 0 <= i < before.len() ==> !is_directive(#[trigger] before[i])
            &&& after == reread(enabled_lines(before, proxy))
            &&& forall|i: int|
                0 <= i < before.len() ==> (names_proxy(#[trigger] before[i], proxy) <==> i
                    < after.len() && is_directive(after[i]))
        }),
{
    lemma_switch(config, proxies[index - 1]);
}

/// Selecting a custom proxy that is one line of the configuration, and
/// stands in no other, leaves it as the only active directive, at its
/// place, and comments every other active directive out.
///
/// The entry with number `index` is a directive of a supported protocol
/// that does not end with a carriage return. The line at `k` of the
/// configuration is that entry, after white space or after white space and
/// comment markers, and the entry stands in no other line. Then, among the
/// lines of the configuration that selecting gives, the line at `k` is the
/// entry; it is the only active directive; and each other line that was an
/// active directive is commented out with `# `, short of at most two
/// carriage returns at its end.
pub proof fn lemma_selected_is_the_one_active(
    config: Seq<char>,
    proxies: Seq<Seq<char>>,
    index: int,
    k: int,
)
    requires
        entry(proxies, index) is Some,
        is_directive(proxies[index - 1]),
        proxies[index - 1].len() == 0 || proxies[index - 1].last() != '\r',
        0 <= k < lines_of(config).len(),
        is_line_of(lines_of(config)[k], proxies[index - 1]),
        forall|i: int|
            0 <= i < lines_of(config).len() && i != k ==> !occurs_in(
                #[trigger] lines_of(config)[i],
                proxies[index - 1],
            ),
    ensures
        ({
            let proxy = proxies[index - 1];
            let after = lines_of(switched(config, proxy));
            &&& k < after.len() <= lines_of(config).len()
            &&& after[k] == proxy
            &&& forall|i: int| 0 <= i < after.len() ==> (is_directive(#[trigger] after[i]) <==> i == k)
            &&& forall|i: int|
                0 <= i < lines_of(config).len() && i != k && is_directive(
                    #[trigger] lines_of(config)[i],
                ) ==> i < after.len() && is_commented_copy(after[i], lines_of(config)[i])
        }),
{
    lemma_switch_to_one_line(config, proxies[index - 1], k);
}

} // verus!
