use proxychains_changer::geo::{
    byte_len, extract_field, field_of, lookup_url, render_table, report, value_begin, width_of,
};

fn chars(s: &str) -> Vec<char> {
    s.chars().collect()
}

fn by_bytes(data: &str, key: &str) -> String {
    let start = match data.find(key) {
        Some(start) => start,
        None => return "N/A".to_string(),
    };
    let from = data[start..].find(':').unwrap_or(0) + start + 2;
    let rest = match data.get(from..) {
        Some(rest) => rest,
        None => return "N/A".to_string(),
    };
    let to = rest.find(',').unwrap_or(rest.len());
    rest[..to].trim().to_string()
}

const COMPACT: &str = "\"ip\":\"1.2.3.4\",\"country\":\"US\"";

const ANSWER: &str = "{\n  \"ip\": \"8.8.8.8\",\n  \"hostname\": \"dns.google\",\n  \"city\": \"Mountain View\",\n  \"region\": \"California\",\n  \"country\": \"US\",\n  \"loc\": \"37.4056,-122.0775\",\n  \"org\": \"AS15169 Google LLC\",\n  \"postal\": \"94043\",\n  \"timezone\": \"America/Los_Angeles\"\n}";

#[test]
fn fields_of_a_compact_answer() {
    assert_eq!(extract_field(COMPACT, "ip"), "1.2.3.4\"");
    assert_eq!(extract_field(COMPACT, "country"), "US\"");
    assert!(extract_field(COMPACT, "ip").starts_with("1.2.3.4"));
    assert!(extract_field(COMPACT, "country").starts_with("US"));
}

#[test]
fn a_key_that_does_not_occur_gives_no_value() {
    assert_eq!(extract_field(COMPACT, "region"), "N/A");
    assert_eq!(extract_field(COMPACT, "loc"), "N/A");
    assert_eq!(extract_field(COMPACT, "org"), "N/A");
    assert_eq!(extract_field("", "ip"), "N/A");
    assert_eq!(extract_field("IP: 1.2.3.4", "ip"), "N/A");
}

#[test]
fn fields_of_a_spaced_answer() {
    assert_eq!(extract_field(ANSWER, "ip"), "\"8.8.8.8\"");
    assert_eq!(extract_field(ANSWER, "country"), "\"US\"");
    assert_eq!(extract_field(ANSWER, "region"), "\"California\"");
    assert_eq!(extract_field(ANSWER, "loc"), "\"37.4056");
    assert_eq!(extract_field(ANSWER, "org"), "\"AS15169 Google LLC\"");
    assert_eq!(extract_field(ANSWER, "timezone"), "\"America/Los_Angeles\"\n}");
}

#[test]
fn the_value_begins_two_bytes_after_the_colon() {
    assert_eq!(extract_field("ip: 1.2.3.4, x", "ip"), "1.2.3.4");
    assert_eq!(extract_field("ip:1.2.3.4,x", "ip"), ".2.3.4");
    assert_eq!(extract_field("ip:  1.2.3.4  ,x", "ip"), "1.2.3.4");
    assert_eq!(extract_field("ip:ab", "ip"), "b");
    assert_eq!(extract_field("ip:a", "ip"), "");
    assert_eq!(value_begin(&chars("ip:a"), &chars("ip")), Some(4));
    assert_eq!(value_begin(&chars("xip: 1"), &chars("ip")), Some(5));
}

#[test]
fn without_a_colon_the_value_begins_two_bytes_after_the_key_begins() {
    assert_eq!(extract_field("ip 1.2.3.4, x", "ip"), "1.2.3.4");
    assert_eq!(extract_field("a:b ip=1,2", "ip"), "=1");
    assert_eq!(extract_field("ip", "ip"), "");
    assert_eq!(extract_field("ab", ""), "");
    assert_eq!(extract_field("\u{e9}a,b", "\u{e9}"), "a");
}

#[test]
fn no_value_begins_past_the_end_or_inside_a_character() {
    assert_eq!(extract_field("ip:", "ip"), "N/A");
    assert_eq!(extract_field("i", "i"), "N/A");
    assert_eq!(extract_field("", ""), "N/A");
    assert_eq!(extract_field("ip:\u{e9}t\u{e9}", "ip"), "N/A");
    assert_eq!(extract_field("ip:a\u{e9}", "ip"), "\u{e9}");
    assert_eq!(extract_field("\u{20ac}uro", "\u{20ac}"), "N/A");
    assert_eq!(value_begin(&chars("ip:"), &chars("ip")), None);
    assert_eq!(value_begin(&chars("abc"), &chars("x")), None);
}

#[test]
fn values_agree_with_slicing_by_bytes() {
    let samples = [
        COMPACT,
        ANSWER,
        "",
        "ip",
        "ip:",
        "ip: ",
        "ip:ab,cd",
        "x ip y : z , w",
        "\u{e9}ip: \u{e9}\u{e9},",
        "ip:\u{e9}",
        "ip\u{e9}",
        "i\u{e9}",
        "\u{e9}",
        "\u{e9}\u{e9}",
        "\u{20ac}",
        "\u{1f600}x",
        "country: \u{a0}US\u{a0} ,",
        "loc:,",
        "org::,",
        "a,b,c:d,e",
    ];
    let keys = ["ip", "country", "region", "loc", "org", "", "i", "\u{e9}", "\u{20ac}", "\u{1f600}", ":", ",", "a", "x"];
    for data in samples {
        for key in keys {
            assert_eq!(extract_field(data, key), by_bytes(data, key), "{:?} in {:?}", key, data);
            let got: String = field_of(&chars(data), &chars(key)).iter().collect();
            assert_eq!(got, by_bytes(data, key));
        }
    }
}

#[test]
fn bytes_of_characters() {
    assert_eq!(width_of('a'), 1);
    assert_eq!(width_of('\u{7f}'), 1);
    assert_eq!(width_of('\u{80}'), 2);
    assert_eq!(width_of('\u{7ff}'), 2);
    assert_eq!(width_of('\u{800}'), 3);
    assert_eq!(width_of('\u{ffff}'), 3);
    assert_eq!(width_of('\u{10000}'), 4);
    assert_eq!(width_of('\u{10ffff}'), 4);
    let mut code: u32 = 0;
    while code <= 0x10ffff {
        if let Some(c) = char::from_u32(code) {
            assert_eq!(width_of(c) as usize, c.len_utf8());
        }
        code += 257;
    }
    for s in ["", "abc", "h\u{e9}llo", "\u{20ac}\u{1f600}"] {
        assert_eq!(byte_len(&chars(s)), s.len() as u128);
    }
}

#[test]
fn the_lookup_address_holds_the_trimmed_address() {
    assert_eq!(lookup_url("1.2.3.4\n"), "https://ipinfo.io/1.2.3.4");
    assert_eq!(lookup_url("  8.8.8.8 \r\n"), "https://ipinfo.io/8.8.8.8");
    assert_eq!(lookup_url(""), "https://ipinfo.io/");
}

fn formatted(rows: &[String]) -> Vec<String> {
    let width = rows.iter().map(|line| line.len()).max().unwrap_or(0) + 4;
    let mut lines = vec!["=".repeat(width)];
    for row in rows {
        lines.push(format!("| {:width$} |", row, width = width - 4));
    }
    lines.push("=".repeat(width));
    lines
}

#[test]
fn the_table_is_four_wider_than_its_widest_row() {
    let rows = vec!["IP: 1.2.3.4".to_string(), "Country: US".to_string(), "x".to_string()];
    assert_eq!(
        render_table(&rows),
        vec![
            "===============",
            "| IP: 1.2.3.4 |",
            "| Country: US |",
            "| x           |",
            "===============",
        ]
    );
    assert_eq!(render_table(&vec![]), vec!["====", "===="]);
    assert_eq!(render_table(&vec![String::new()]), vec!["====", "|  |", "===="]);
}

#[test]
fn the_table_counts_bytes_for_its_width_and_characters_for_its_filling() {
    let rows = vec!["Region: \u{ce}le".to_string(), "IP: 1.2.3".to_string(), "\u{20ac}\u{20ac}\u{20ac}\u{20ac}".to_string()];
    assert_eq!(
        render_table(&rows),
        vec![
            "================",
            "| Region: \u{ce}le  |",
            "| IP: 1.2.3    |",
            "| \u{20ac}\u{20ac}\u{20ac}\u{20ac}         |",
            "================",
        ]
    );
    assert_eq!(render_table(&rows), formatted(&rows));
}

#[test]
fn the_report_shows_the_five_fields() {
    assert_eq!(
        report(COMPACT),
        vec![
            "=================",
            "| IP: 1.2.3.4\"  |",
            "| Country: US\"  |",
            "| Region: N/A   |",
            "| Location: N/A |",
            "| ISP Org: N/A  |",
            "=================",
        ]
    );
    let rows = vec![
        "IP: \"8.8.8.8\"".to_string(),
        "Country: \"US\"".to_string(),
        "Region: \"California\"".to_string(),
        "Location: \"37.4056".to_string(),
        "ISP Org: \"AS15169 Google LLC\"".to_string(),
    ];
    assert_eq!(report(ANSWER), formatted(&rows));
    assert_eq!(report(ANSWER)[0], "=================================");
    assert_eq!(report("").len(), 7);
}
