use paydept::manifest::construct_support_url;
use paydept::manifest::depth_within_limit;
use paydept::manifest::is_shallow;
use paydept::manifest::measure_depth;
use paydept::manifest::manifest_value;
use paydept::manifest::parse_funding_yaml;
use paydept::manifest::scalar_platform_prefix;
use paydept::manifest::ManifestValue;
use paydept::manifest::NodeEvent;
use paydept::manifest::MAX_DEPTH;
use yaml_rust::Yaml;

fn scalar(text: &str) -> ManifestValue {
    ManifestValue::Scalar(String::from(text))
}

fn list(items: &[&str]) -> ManifestValue {
    ManifestValue::List(items.iter().map(|item| String::from(*item)).collect())
}

fn urls_of(key: ManifestValue, value: ManifestValue) -> Vec<String> {
    let mut urls: Vec<String> = Vec::new();
    construct_support_url(&key, &value, &mut urls);
    urls
}

#[test]
fn patreon_entry_gives_one_url() {
    assert_eq!(
        parse_funding_yaml("patreon: \"foo\""),
        Some(vec![String::from("https://www.patreon.com/foo")])
    );
    assert_eq!(
        parse_funding_yaml("patreon: foo\n"),
        Some(vec![String::from("https://www.patreon.com/foo")])
    );
}

#[test]
fn github_list_gives_sponsor_urls_in_order() {
    assert_eq!(
        parse_funding_yaml("github: [\"a\", \"b\"]"),
        Some(vec![
            String::from("https://github.com/sponsors/a"),
            String::from("https://github.com/sponsors/b"),
        ])
    );
    assert_eq!(
        parse_funding_yaml("github:\n  - a\n  - b\n"),
        Some(vec![
            String::from("https://github.com/sponsors/a"),
            String::from("https://github.com/sponsors/b"),
        ])
    );
}

#[test]
fn malformed_manifest_gives_nothing() {
    assert_eq!(parse_funding_yaml("github: [a, b"), None);
    assert_eq!(parse_funding_yaml("key: \"unclosed"), None);
}

#[test]
fn empty_manifest_gives_no_urls() {
    assert_eq!(parse_funding_yaml(""), Some(Vec::new()));
    assert_eq!(parse_funding_yaml("# only a comment\n"), Some(Vec::new()));
}

#[test]
fn manifest_that_is_no_mapping_gives_no_urls() {
    assert_eq!(parse_funding_yaml("- patreon\n- foo\n"), Some(Vec::new()));
    assert_eq!(parse_funding_yaml("just a string"), Some(Vec::new()));
}

#[test]
fn every_scalar_platform_has_its_url() {
    let text = "patreon: p\nopen_collective: oc\nko_fi: k\ntidelift: npm/t\ncommunity_bridge: cb\nliberapay: l\nissuehunt: i\notechie: o\nlfx_crowdfunding: lfx\n";
    assert_eq!(
        parse_funding_yaml(text),
        Some(vec![
            String::from("https://www.patreon.com/p"),
            String::from("https://opencollective.com/oc"),
            String::from("https://ko-fi.com/k"),
            String::from("https://tidelift.com/funding/github/npm/t"),
            String::from("https://funding.communitybridge.org/projects/cb"),
            String::from("https://liberapay.com/l"),
            String::from("https://issuehunt.io/r/i"),
            String::from("https://otechie.com/o"),
            String::from("https://crowdfunding.lfx.linuxfoundation.org/projects/lfx"),
        ])
    );
}

#[test]
fn custom_list_is_taken_verbatim() {
    assert_eq!(
        parse_funding_yaml("custom: [\"https://example.org/donate\", \"https://paypal.me/x\"]"),
        Some(vec![
            String::from("https://example.org/donate"),
            String::from("https://paypal.me/x"),
        ])
    );
}

#[test]
fn urls_come_in_declaration_order() {
    let text = "ko_fi: bar\ngithub: [a, b]\npatreon: foo\ncustom: [\"https://x.org\"]\n";
    assert_eq!(
        parse_funding_yaml(text),
        Some(vec![
            String::from("https://ko-fi.com/bar"),
            String::from("https://github.com/sponsors/a"),
            String::from("https://github.com/sponsors/b"),
            String::from("https://www.patreon.com/foo"),
            String::from("https://x.org"),
        ])
    );
}

#[test]
fn urls_are_not_deduplicated() {
    assert_eq!(
        parse_funding_yaml("github: [a, a]\n"),
        Some(vec![
            String::from("https://github.com/sponsors/a"),
            String::from("https://github.com/sponsors/a"),
        ])
    );
}

#[test]
fn unknown_platform_is_ignored() {
    assert_eq!(
        parse_funding_yaml("bitcoin: abc\nko_fi: bar\n"),
        Some(vec![String::from("https://ko-fi.com/bar")])
    );
}

#[test]
fn wrong_shape_is_ignored_for_that_key_only() {
    assert_eq!(
        parse_funding_yaml("patreon: [a, b]\ngithub: solo\nko_fi: bar\n"),
        Some(vec![String::from("https://ko-fi.com/bar")])
    );
    assert_eq!(
        parse_funding_yaml("patreon: 12345\nliberapay: me\n"),
        Some(vec![String::from("https://liberapay.com/me")])
    );
    assert_eq!(
        parse_funding_yaml("patreon:\nliberapay: me\n"),
        Some(vec![String::from("https://liberapay.com/me")])
    );
}

#[test]
fn list_with_an_item_that_is_no_string_is_ignored() {
    assert_eq!(
        parse_funding_yaml("github: [a, 1]\nko_fi: bar\n"),
        Some(vec![String::from("https://ko-fi.com/bar")])
    );
}

#[test]
fn key_that_is_no_string_is_ignored() {
    assert_eq!(
        parse_funding_yaml("1: foo\nko_fi: bar\n"),
        Some(vec![String::from("https://ko-fi.com/bar")])
    );
}

#[test]
fn several_documents_are_read_in_order() {
    assert_eq!(
        parse_funding_yaml("ko_fi: a\n---\npatreon: b\n"),
        Some(vec![
            String::from("https://ko-fi.com/a"),
            String::from("https://www.patreon.com/b"),
        ])
    );
}

#[test]
fn construct_appends_behind_what_is_there() {
    let mut urls = vec![String::from("first")];
    construct_support_url(&scalar("otechie"), &scalar("me"), &mut urls);
    assert_eq!(urls, vec![String::from("first"), String::from("https://otechie.com/me")]);
}

#[test]
fn construct_on_plain_values() {
    assert_eq!(
        urls_of(scalar("patreon"), scalar("foo")),
        vec![String::from("https://www.patreon.com/foo")]
    );
    assert_eq!(
        urls_of(scalar("github"), list(&["a", "b"])),
        vec![
            String::from("https://github.com/sponsors/a"),
            String::from("https://github.com/sponsors/b"),
        ]
    );
    assert_eq!(urls_of(scalar("custom"), list(&["u", "v"])), vec![String::from("u"), String::from("v")]);
    assert_eq!(urls_of(scalar("github"), list(&[])), Vec::<String>::new());
    assert_eq!(urls_of(scalar("github"), scalar("a")), Vec::<String>::new());
    assert_eq!(urls_of(scalar("custom"), scalar("u")), Vec::<String>::new());
    assert_eq!(urls_of(scalar("patreon"), list(&["a"])), Vec::<String>::new());
    assert_eq!(urls_of(scalar("patreon"), ManifestValue::Other), Vec::<String>::new());
    assert_eq!(urls_of(scalar("Patreon"), scalar("foo")), Vec::<String>::new());
    assert_eq!(urls_of(ManifestValue::Other, scalar("foo")), Vec::<String>::new());
    assert_eq!(urls_of(list(&["patreon"]), scalar("foo")), Vec::<String>::new());
    assert_eq!(urls_of(scalar("patreon"), scalar("")), vec![String::from("https://www.patreon.com/")]);
}

#[test]
fn scalar_platforms_have_their_prefix() {
    assert_eq!(scalar_platform_prefix("ko_fi"), Some("https://ko-fi.com/"));
    assert_eq!(scalar_platform_prefix("issuehunt"), Some("https://issuehunt.io/r/"));
    assert_eq!(scalar_platform_prefix("github"), None);
    assert_eq!(scalar_platform_prefix("custom"), None);
    assert_eq!(scalar_platform_prefix(""), None);
}

#[test]
fn shape_of_a_node() {
    assert_eq!(manifest_value(&Yaml::String(String::from("x"))), scalar("x"));
    assert_eq!(
        manifest_value(&Yaml::Array(vec![
            Yaml::String(String::from("a")),
            Yaml::String(String::from("b")),
        ])),
        list(&["a", "b"])
    );
    assert_eq!(manifest_value(&Yaml::Array(Vec::new())), list(&[]));
    assert_eq!(
        manifest_value(&Yaml::Array(vec![Yaml::String(String::from("a")), Yaml::Integer(1)])),
        ManifestValue::Other
    );
    assert_eq!(manifest_value(&Yaml::Integer(7)), ManifestValue::Other);
    assert_eq!(manifest_value(&Yaml::Boolean(true)), ManifestValue::Other);
    assert_eq!(manifest_value(&Yaml::Null), ManifestValue::Other);
    assert_eq!(manifest_value(&Yaml::Real(String::from("1.5"))), ManifestValue::Other);
}

fn nested(levels: usize) -> Vec<NodeEvent> {
    let mut events = vec![NodeEvent::Other];
    events.extend(std::iter::repeat(NodeEvent::Open(0)).take(levels));
    events.push(NodeEvent::Scalar(0));
    events.extend(std::iter::repeat(NodeEvent::Close).take(levels));
    events.push(NodeEvent::Other);
    events
}

#[test]
fn depth_is_measured_on_events() {
    assert_eq!(measure_depth(&Vec::new()), 0);
    assert_eq!(measure_depth(&nested(0)), 0);
    assert_eq!(measure_depth(&nested(1)), 1);
    assert_eq!(measure_depth(&nested(7)), 7);
    assert_eq!(measure_depth(&vec![NodeEvent::Open(0), NodeEvent::Close]), 1);
    assert!(is_shallow(&Vec::new()));
    assert!(is_shallow(&nested(MAX_DEPTH)));
    assert!(!is_shallow(&nested(MAX_DEPTH + 1)));
}

#[test]
fn width_does_not_count_as_depth() {
    let mut wide = vec![NodeEvent::Open(0)];
    for _ in 0..10_000 {
        wide.push(NodeEvent::Scalar(0));
        wide.push(NodeEvent::Open(0));
        wide.push(NodeEvent::Scalar(0));
        wide.push(NodeEvent::Close);
    }
    wide.push(NodeEvent::Close);
    assert_eq!(measure_depth(&wide), 2);
}

#[test]
fn collections_left_open_count_as_depth() {
    assert_eq!(measure_depth(&vec![NodeEvent::Open(0), NodeEvent::Open(0), NodeEvent::Open(0)]), 3);
    assert_eq!(
        measure_depth(&vec![NodeEvent::Open(0), NodeEvent::Close, NodeEvent::Open(0), NodeEvent::Open(0)]),
        2
    );
    assert_eq!(
        measure_depth(&vec![NodeEvent::Close, NodeEvent::Close, NodeEvent::Open(0), NodeEvent::Close]),
        1
    );
}

#[test]
fn an_alias_is_as_deep_as_what_it_stands_for() {
    // [ &1 [x], [*1] ]
    let events = vec![
        NodeEvent::Open(0),
        NodeEvent::Open(1),
        NodeEvent::Scalar(0),
        NodeEvent::Close,
        NodeEvent::Open(0),
        NodeEvent::Alias(1),
        NodeEvent::Close,
        NodeEvent::Close,
    ];
    assert_eq!(measure_depth(&events), 3);
    // [ &1 x, *1, *1, .. ]
    let mut flat = vec![NodeEvent::Open(0), NodeEvent::Scalar(1)];
    flat.extend(std::iter::repeat(NodeEvent::Alias(1)).take(1000));
    flat.push(NodeEvent::Close);
    assert_eq!(measure_depth(&flat), 1);
    // &1 [ *1 ]: the node is not complete where the alias stands
    assert_eq!(measure_depth(&vec![NodeEvent::Open(1), NodeEvent::Alias(1), NodeEvent::Close]), 1);
    // an alias without its anchor
    assert_eq!(measure_depth(&vec![NodeEvent::Open(0), NodeEvent::Alias(9), NodeEvent::Close]), 1);
    // &1 [x], &2 [*1], &3 [*2], ..: each one deeper than the one before
    let mut chain = vec![NodeEvent::Open(0), NodeEvent::Open(1), NodeEvent::Scalar(0), NodeEvent::Close];
    for anchor in 2..=50 {
        chain.push(NodeEvent::Open(anchor));
        chain.push(NodeEvent::Alias(anchor - 1));
        chain.push(NodeEvent::Close);
    }
    chain.push(NodeEvent::Close);
    assert_eq!(measure_depth(&chain), 51);
    // the same anchor given again: the later node is found
    let again = vec![
        NodeEvent::Open(0),
        NodeEvent::Open(1),
        NodeEvent::Open(0),
        NodeEvent::Close,
        NodeEvent::Close,
        NodeEvent::Scalar(1),
        NodeEvent::Open(0),
        NodeEvent::Alias(1),
        NodeEvent::Close,
        NodeEvent::Close,
    ];
    assert_eq!(measure_depth(&again), 3);
}

#[test]
fn flat_manifest_of_many_entries_is_read() {
    let mut text = String::new();
    for n in 0..300 {
        text.push_str(&format!("key{}: value\n", n));
    }
    text.push_str("patreon: foo\n");
    assert!(depth_within_limit(&text));
    assert_eq!(parse_funding_yaml(&text), Some(vec![String::from("https://www.patreon.com/foo")]));
}

#[test]
fn long_list_of_addresses_is_read() {
    let addresses: Vec<String> = (0..200).map(|n| format!("https://example.org/donate-{}", n)).collect();
    let quoted: Vec<String> = addresses.iter().map(|a| format!("\"{}\"", a)).collect();
    let flow = format!("custom: [{}]\n", quoted.join(", "));
    assert_eq!(parse_funding_yaml(&flow), Some(addresses.clone()));
    let block = format!("custom:\n{}", addresses.iter().map(|a| format!("  - {}\n", a)).collect::<String>());
    assert_eq!(parse_funding_yaml(&block), Some(addresses));
}

#[test]
fn comments_do_not_count_as_depth() {
    let text = format!("ko_fi: bar\n# {}\n# {}\n", ":".repeat(500), "- ".repeat(500));
    assert_eq!(parse_funding_yaml(&text), Some(vec![String::from("https://ko-fi.com/bar")]));
}

#[test]
fn deeply_nested_text_is_not_read() {
    assert!(!depth_within_limit(&"- ".repeat(100_000)));
    assert_eq!(parse_funding_yaml(&"- ".repeat(100_000)), None);
    assert_eq!(parse_funding_yaml(&"[".repeat(100_000)), None);
    assert_eq!(parse_funding_yaml(&format!("{}x", "? ".repeat(100_000))), None);
}

#[test]
fn text_at_the_depth_limit_is_read() {
    let at_limit = format!("{}x", "- ".repeat(MAX_DEPTH));
    assert!(depth_within_limit(&at_limit));
    assert_eq!(parse_funding_yaml(&at_limit), Some(Vec::new()));
    let beyond = format!("{}x", "- ".repeat(MAX_DEPTH + 1));
    assert!(!depth_within_limit(&beyond));
    assert_eq!(parse_funding_yaml(&beyond), None);
}

#[test]
fn manifest_with_aliases_is_read() {
    let few = "custom: &list [\"https://x.org\"]\nother: *list\nko_fi: bar\n";
    assert!(depth_within_limit(few));
    assert_eq!(
        parse_funding_yaml(few),
        Some(vec![String::from("https://x.org"), String::from("https://ko-fi.com/bar")])
    );
    let mut many = String::from("liberapay: &me someone\n");
    for n in 0..500 {
        many.push_str(&format!("key{}: *me\n", n));
    }
    many.push_str("patreon: *me\n");
    assert!(depth_within_limit(&many));
    assert_eq!(
        parse_funding_yaml(&many),
        Some(vec![
            String::from("https://liberapay.com/someone"),
            String::from("https://www.patreon.com/someone"),
        ])
    );
}

#[test]
fn chain_of_aliases_counts_by_its_depth() {
    let chain = |links: usize| {
        let mut text = String::from("- &a0 [x]\n");
        for n in 1..links {
            text.push_str(&format!("- &a{} [*a{}]\n", n, n - 1));
        }
        text
    };
    assert!(depth_within_limit(&chain(MAX_DEPTH - 1)));
    assert_eq!(parse_funding_yaml(&chain(MAX_DEPTH - 1)), Some(Vec::new()));
    assert!(!depth_within_limit(&chain(MAX_DEPTH)));
    assert_eq!(parse_funding_yaml(&chain(MAX_DEPTH)), None);
    assert_eq!(parse_funding_yaml(&chain(20_000)), None);
}

#[test]
fn rejected_text_has_a_depth_all_the_same() {
    assert!(depth_within_limit("github: [a, b"));
    assert_eq!(parse_funding_yaml("github: [a, b"), None);
    assert!(depth_within_limit(""));
}
