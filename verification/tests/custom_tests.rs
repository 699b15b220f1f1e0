use proxychains_changer::config::{comment_out_other_proxies, is_directive_line};
use proxychains_changer::custom::{
    add_custom_proxy, delete_custom_proxy, list_custom_proxies, select_proxy, use_custom_proxy,
};

fn list(items: &[&str]) -> Vec<String> {
    items.iter().map(|s| s.to_string()).collect()
}

fn read(content: &str) -> Vec<String> {
    content.lines().map(|l| l.to_string()).collect()
}

#[test]
fn adding_appends_the_proxy_to_both_files() {
    let a = add_custom_proxy("", "socks5 1.2.3.4 1080");
    assert_eq!(a.config_text, "\nsocks5 1.2.3.4 1080\n");
    assert_eq!(a.list_text, "socks5 1.2.3.4 1080\n");
    let a = add_custom_proxy("http a 1\n", "socks5 1.2.3.4 1080");
    assert_eq!(a.config_text, "\nsocks5 1.2.3.4 1080\n");
    assert_eq!(a.list_text, "socks5 1.2.3.4 1080\n");
    let a = add_custom_proxy("http a 1", "socks5 1.2.3.4 1080");
    assert_eq!(a.config_text, "\nsocks5 1.2.3.4 1080\n");
    assert_eq!(a.list_text, "\nsocks5 1.2.3.4 1080\n");
    let empty = add_custom_proxy("", "");
    assert_eq!(empty.config_text, "\n\n");
    assert_eq!(empty.list_text, "\n");
}

#[test]
fn the_listing_numbers_the_entries_from_one() {
    assert_eq!(list_custom_proxies(&list(&[])), Vec::<String>::new());
    assert_eq!(
        list_custom_proxies(&list(&["socks5 1.2.3.4 1080", "", "http a 1"])),
        vec!["1: socks5 1.2.3.4 1080", "2: ", "3: http a 1"]
    );
    let many: Vec<String> = (0..120).map(|i| format!("p{}", i)).collect();
    let shown = list_custom_proxies(&many);
    assert_eq!(shown.len(), 120);
    for (i, line) in shown.iter().enumerate() {
        assert_eq!(*line, format!("{}: p{}", i + 1, i));
    }
    assert_eq!(shown[9], "10: p9");
    assert_eq!(shown[99], "100: p99");
}

#[test]
fn an_added_proxy_is_listed_last() {
    let before = "socks5 1.2.3.4 1080\nhttp a 1\n";
    let after = format!("{}{}", before, add_custom_proxy(before, "socks4 5.6.7.8 9").list_text);
    let entries = read(&after);
    assert_eq!(entries, vec!["socks5 1.2.3.4 1080", "http a 1", "socks4 5.6.7.8 9"]);
    assert_eq!(list_custom_proxies(&entries).last().unwrap(), "3: socks4 5.6.7.8 9");
    assert_eq!(select_proxy(&entries, 3), Some(&"socks4 5.6.7.8 9".to_string()));
    let first = read(&add_custom_proxy("", "socks4 5.6.7.8 9").list_text);
    assert_eq!(list_custom_proxies(&first), vec!["1: socks4 5.6.7.8 9"]);
}

#[test]
fn an_added_proxy_is_an_entry_of_its_own_whatever_ends_the_list() {
    for (before, old) in [
        ("", vec![]),
        ("socks5 1.1.1.1 1080", vec!["socks5 1.1.1.1 1080"]),
        ("socks5 1.1.1.1 1080\n", vec!["socks5 1.1.1.1 1080"]),
        ("a\nb", vec!["a", "b"]),
        ("a\n\n", vec!["a", ""]),
        ("a\r\nb\r\n", vec!["a", "b"]),
    ] {
        let after = format!("{}{}", before, add_custom_proxy(before, "http 2.2.2.2 80").list_text);
        let mut expected: Vec<String> = old.iter().map(|s| s.to_string()).collect();
        assert_eq!(read(before), expected);
        expected.push("http 2.2.2.2 80".to_string());
        assert_eq!(read(&after), expected, "{:?}", before);
        let shown = list_custom_proxies(&read(&after));
        assert_eq!(*shown.last().unwrap(), format!("{}: http 2.2.2.2 80", old.len() + 1));
    }
}

#[test]
fn an_added_proxy_follows_what_a_deletion_left() {
    let entries = list(&["socks5 1.1.1.1 1080", "socks4 3.3.3.3 9"]);
    let left = delete_custom_proxy("", &entries, 2).unwrap().list;
    assert_eq!(left, "socks5 1.1.1.1 1080");
    let after = format!("{}{}", left, add_custom_proxy(&left, "http 2.2.2.2 80").list_text);
    assert_eq!(after, "socks5 1.1.1.1 1080\nhttp 2.2.2.2 80\n");
    assert_eq!(read(&after), vec!["socks5 1.1.1.1 1080", "http 2.2.2.2 80"]);
    assert_eq!(read(&format!("a{}", add_custom_proxy("a", "b").list_text)), vec!["a", "b"]);
}

#[test]
fn an_unended_last_entry_loses_its_carriage_return_when_a_proxy_is_added() {
    let after = format!("{}{}", "a\r", add_custom_proxy("a\r", "b").list_text);
    assert_eq!(read("a\r"), vec!["a\r"]);
    assert_eq!(read(&after), vec!["a", "b"]);
}

#[test]
fn selection_counts_from_one() {
    let entries = list(&["a", "b", "c"]);
    assert_eq!(select_proxy(&entries, 0), None);
    assert_eq!(select_proxy(&entries, 1), Some(&"a".to_string()));
    assert_eq!(select_proxy(&entries, 3), Some(&"c".to_string()));
    assert_eq!(select_proxy(&entries, 4), None);
    assert_eq!(select_proxy(&entries, usize::MAX), None);
    assert_eq!(select_proxy(&list(&[]), 1), None);
}

#[test]
fn using_a_custom_proxy_switches_to_it() {
    let entries = list(&["socks5 1.2.3.4 1080", "http 10.0.0.1 8080"]);
    let config = "strict_chain\nsocks5 \t127.0.0.1 9050\n\nsocks5 1.2.3.4 1080\n\nhttp 10.0.0.1 8080\n";
    let chosen = use_custom_proxy(config, &entries, 2).unwrap();
    assert_eq!(chosen.proxy, "http 10.0.0.1 8080");
    assert_eq!(
        chosen.config,
        "strict_chain\n# socks5 \t127.0.0.1 9050\n\n# socks5 1.2.3.4 1080\n\nhttp 10.0.0.1 8080"
    );
    let active: Vec<&str> = chosen
        .config
        .lines()
        .filter(|l| is_directive_line(&l.chars().collect::<Vec<char>>()))
        .collect();
    assert_eq!(active, vec!["http 10.0.0.1 8080"]);
}

#[test]
fn using_a_custom_proxy_comments_the_active_one_out() {
    let entries = read("socks5 1.1.1.1 1080\nhttp 2.2.2.2 80\n");
    let config = "socks5 1.1.1.1 1080\n# http 2.2.2.2 80";
    let chosen = use_custom_proxy(config, &entries, 2).unwrap();
    assert_eq!(chosen.proxy, "http 2.2.2.2 80");
    let lines: Vec<&str> = chosen.config.lines().collect();
    assert_eq!(lines, vec!["# socks5 1.1.1.1 1080", "http 2.2.2.2 80"]);
    let back = use_custom_proxy(&chosen.config, &entries, 1).unwrap();
    let lines: Vec<&str> = back.config.lines().collect();
    assert_eq!(lines, vec!["socks5 1.1.1.1 1080", "# http 2.2.2.2 80"]);
}

#[test]
fn using_a_number_out_of_range_selects_nothing() {
    let entries = list(&["socks5 1.2.3.4 1080"]);
    assert!(use_custom_proxy("# socks5 1.2.3.4 1080", &entries, 0).is_none());
    assert!(use_custom_proxy("# socks5 1.2.3.4 1080", &entries, 2).is_none());
    assert!(use_custom_proxy("# socks5 1.2.3.4 1080", &list(&[]), 1).is_none());
}

#[test]
fn deleting_takes_the_proxy_from_list_and_configuration() {
    let entries = list(&["socks5 1.2.3.4 1080", "http 10.0.0.1 8080", "socks5 1.2.3.4 1080"]);
    let config = "strict_chain\n\nsocks5 1.2.3.4 1080\n\n# http 10.0.0.1 8080\n\n# socks5 1.2.3.4 1080\n";
    let gone = delete_custom_proxy(config, &entries, 1).unwrap();
    assert_eq!(gone.proxy, "socks5 1.2.3.4 1080");
    assert_eq!(gone.list, "http 10.0.0.1 8080");
    assert_eq!(gone.config, "strict_chain\n\n\n# http 10.0.0.1 8080\n");
    let gone = delete_custom_proxy(config, &entries, 2).unwrap();
    assert_eq!(gone.proxy, "http 10.0.0.1 8080");
    assert_eq!(gone.list, "socks5 1.2.3.4 1080\nsocks5 1.2.3.4 1080");
    assert_eq!(gone.config, "strict_chain\n\nsocks5 1.2.3.4 1080\n\n\n# socks5 1.2.3.4 1080");
}

#[test]
fn deleting_the_proxy_that_was_added_last_removes_it() {
    let list_before = "http 10.0.0.1 8080\n";
    let config_before = "strict_chain\n# http 10.0.0.1 8080\n";
    let added = add_custom_proxy(list_before, "socks4 5.6.7.8 9");
    let list_after = format!("{}{}", list_before, added.list_text);
    let config_after = format!("{}{}", config_before, added.config_text);
    let entries = read(&list_after);
    let gone = delete_custom_proxy(&config_after, &entries, entries.len()).unwrap();
    assert_eq!(gone.proxy, "socks4 5.6.7.8 9");
    assert_eq!(gone.list, "http 10.0.0.1 8080");
    assert_eq!(gone.config, "strict_chain\n# http 10.0.0.1 8080\n");
    let commented = comment_out_other_proxies(&config_after);
    let gone = delete_custom_proxy(&commented, &entries, entries.len()).unwrap();
    assert_eq!(gone.config, "strict_chain\n# http 10.0.0.1 8080\n");
}

#[test]
fn deleting_a_number_out_of_range_gives_nothing_to_write() {
    let entries = list(&["socks5 1.2.3.4 1080", "http 10.0.0.1 8080"]);
    let config = "socks5 1.2.3.4 1080\n";
    assert!(delete_custom_proxy(config, &entries, 0).is_none());
    assert!(delete_custom_proxy(config, &entries, 3).is_none());
    assert!(delete_custom_proxy(config, &entries, usize::MAX).is_none());
    assert!(delete_custom_proxy(config, &list(&[]), 1).is_none());
}

#[test]
fn an_added_proxy_is_the_last_line_of_the_configuration() {
    let added = add_custom_proxy("", "socks4 5.6.7.8 9");
    for config in ["", "strict_chain", "strict_chain\n", "# http a 1\n\n"] {
        let after = format!("{}{}", config, added.config_text);
        assert_eq!(after.lines().last(), Some("socks4 5.6.7.8 9"));
    }
    let after = format!("{}{}", comment_out_other_proxies("http a 1\nsocks5 b 2\n"), added.config_text);
    assert_eq!(after, "# http a 1\n# socks5 b 2\nsocks4 5.6.7.8 9\n");
}
