use jaeger_stats::call::{Call, CallDirection};
use jaeger_stats::call_chain::{
    caching_process_label, cchain_filename, endpoint_file_stem, read_cchain_file,
};
use jaeger_stats::chain_key::{call_chain_key, CChainStatsKey, ParseError, LEAF_LABEL};

fn call(process: &str, method: &str, call_direction: CallDirection) -> Call {
    Call { process: process.to_string(), method: method.to_string(), call_direction }
}

fn two_step_key() -> CChainStatsKey {
    CChainStatsKey {
        call_chain: vec![
            call("svcA", "POST", CallDirection::Inbound),
            call("svcB", "GET", CallDirection::Outbound),
        ],
        caching_process: String::new(),
        is_leaf: true,
    }
}

#[test]
fn direction_names() {
    assert_eq!(CallDirection::Inbound.as_str(), "Inbound");
    assert_eq!(CallDirection::Outbound.as_str(), "Outbound");
    assert_eq!(CallDirection::Unknown.as_str(), "Unknown");
    assert_eq!(CallDirection::default(), CallDirection::Unknown);
}

#[test]
fn direction_from_name_downgrades_unknown_names() {
    assert_eq!(CallDirection::from_name("Inbound"), CallDirection::Inbound);
    assert_eq!(CallDirection::from_name("Outbound"), CallDirection::Outbound);
    assert_eq!(CallDirection::from_name("Unknown"), CallDirection::Unknown);
    assert_eq!(CallDirection::from_name("inbound"), CallDirection::Unknown);
    assert_eq!(CallDirection::from_name(""), CallDirection::Unknown);
    assert!(CallDirection::is_name("Unknown"));
    assert!(!CallDirection::is_name("sideways"));
}

#[test]
fn direction_from_span_kind() {
    let server = "server".to_string();
    let client = "client".to_string();
    let producer = "producer".to_string();
    assert_eq!(CallDirection::from_span_kind(Some(&server)), CallDirection::Inbound);
    assert_eq!(CallDirection::from_span_kind(Some(&client)), CallDirection::Outbound);
    assert_eq!(CallDirection::from_span_kind(Some(&producer)), CallDirection::Unknown);
    assert_eq!(CallDirection::from_span_kind(None), CallDirection::Unknown);
    assert!(CallDirection::known_span_kind(Some(&server)));
    assert!(CallDirection::known_span_kind(None));
    assert!(!CallDirection::known_span_kind(Some(&producer)));
}

#[test]
fn call_text_with_and_without_direction() {
    assert_eq!(call("svcA", "POST", CallDirection::Inbound).to_string(), "svcA/POST [Inbound]");
    assert_eq!(call("svcB", "GET", CallDirection::Outbound).to_string(), "svcB/GET [Outbound]");
    assert_eq!(call("svcC", "run", CallDirection::Unknown).to_string(), "svcC/run");
    assert_eq!(call("svcC", "run", CallDirection::Inbound).get_process_method(), "svcC/run");
    assert_eq!(call("svcC", "run", CallDirection::Inbound).get_process(), "svcC");
}

#[test]
fn leaf_label_is_fixed() {
    assert_eq!(LEAF_LABEL, "*LEAF*");
}

#[test]
fn key_of_two_calls_with_leaf() {
    let key = two_step_key();
    assert_eq!(
        call_chain_key(&key.call_chain, "", true),
        "svcA/POST [Inbound] | svcB/GET [Outbound] & & *LEAF*"
    );
    assert_eq!(key.call_chain_key(), "svcA/POST [Inbound] | svcB/GET [Outbound] & & *LEAF*");
}

#[test]
fn key_without_leaf_keeps_both_separators() {
    let key = two_step_key();
    assert_eq!(
        call_chain_key(&key.call_chain, "", false),
        "svcA/POST [Inbound] | svcB/GET [Outbound] & &"
    );
}

#[test]
fn key_with_caching_label() {
    let key = two_step_key();
    assert_eq!(
        call_chain_key(&key.call_chain, " [redis]", true),
        "svcA/POST [Inbound] | svcB/GET [Outbound] & [redis] & *LEAF*"
    );
}

#[test]
fn key_of_single_call() {
    let chain = vec![call("svcC", "run", CallDirection::Unknown)];
    assert_eq!(call_chain_key(&chain, "", false), "svcC/run & &");
}

#[test]
fn parse_reads_back_what_was_written() {
    let key = two_step_key();
    let text = key.call_chain_key();
    assert_eq!(CChainStatsKey::parse(&text), Ok(key));
}

#[test]
fn parse_reads_back_caching_label_and_non_leaf() {
    let key = CChainStatsKey {
        call_chain: vec![
            call("gateway", "POST", CallDirection::Inbound),
            call("orders", "orders/list", CallDirection::Unknown),
            call("redis", "lookup", CallDirection::Outbound),
        ],
        caching_process: "[redis]".to_string(),
        is_leaf: false,
    };
    let text = key.call_chain_key();
    assert_eq!(text, "gateway/POST [Inbound] | orders/orders/list | redis/lookup [Outbound] &[redis] &");
    assert_eq!(CChainStatsKey::parse(&text), Ok(key));
}

#[test]
fn parse_trims_fields_and_calls() {
    let parsed = CChainStatsKey::parse("  a/x  |  b/y [Inbound]   &  [c]  &   *LEAF*  ");
    let expected = CChainStatsKey {
        call_chain: vec![
            call("a", "x", CallDirection::Unknown),
            call("b", "y", CallDirection::Inbound),
        ],
        caching_process: "[c]".to_string(),
        is_leaf: true,
    };
    assert_eq!(parsed, Ok(expected));
}

#[test]
fn parse_without_further_fields() {
    let parsed = CChainStatsKey::parse("a/x");
    let expected = CChainStatsKey {
        call_chain: vec![call("a", "x", CallDirection::Unknown)],
        caching_process: String::new(),
        is_leaf: false,
    };
    assert_eq!(parsed, Ok(expected));
}

#[test]
fn parse_ignores_fields_behind_the_third() {
    let parsed = CChainStatsKey::parse("a/x & & *LEAF* & more");
    assert!(matches!(parsed, Ok(k) if k.is_leaf && k.call_chain.len() == 1));
}

#[test]
fn parse_takes_unknown_direction_names_as_unknown() {
    let parsed = CChainStatsKey::parse("a/x [Sideways] & &");
    let expected = CChainStatsKey {
        call_chain: vec![call("a", "x", CallDirection::Unknown)],
        caching_process: String::new(),
        is_leaf: false,
    };
    assert_eq!(parsed, Ok(expected));
}

#[test]
fn parse_rejects_call_without_slash() {
    assert_eq!(CChainStatsKey::parse("a/x | nothing & &"), Err(ParseError::MissingSlash));
    assert_eq!(CChainStatsKey::parse(""), Err(ParseError::MissingSlash));
}

#[test]
fn parse_rejects_open_direction() {
    assert_eq!(CChainStatsKey::parse("a/x [ & &"), Err(ParseError::EmptyDirection));
}

#[test]
fn parse_rejects_unknown_leaf_label() {
    assert_eq!(CChainStatsKey::parse("a/x & & LEAF"), Err(ParseError::UnknownLeafLabel));
}

#[test]
fn parse_reports_leaf_label_before_calls() {
    assert_eq!(CChainStatsKey::parse("nothing & & LEAF"), Err(ParseError::UnknownLeafLabel));
}

#[test]
fn key_getters() {
    let key = two_step_key();
    assert_eq!(key.get_method(), "GET");
    assert_eq!(key.get_endpoint(), "svcA/POST");
    assert_eq!(key.get_leaf(), "svcB/GET");
    assert_eq!(key.get_leaf_process(), "svcB");
}

#[test]
fn key_clone_is_the_same_key() {
    let key = two_step_key();
    let copy = key.clone();
    assert!(key.same_key(&copy));
    assert_eq!(key, copy);
    let mut other = key.clone();
    other.is_leaf = false;
    assert!(!key.same_key(&other));
    assert_ne!(key, other);
}

#[test]
fn caching_label_lists_cached_processes_in_chain_order() {
    let caches = vec!["redis".to_string(), "memcache".to_string()];
    let chain = vec![
        call("gateway", "POST", CallDirection::Inbound),
        call("memcache", "lookup", CallDirection::Outbound),
        call("orders", "list", CallDirection::Unknown),
        call("redis", "get", CallDirection::Outbound),
    ];
    assert_eq!(caching_process_label(&caches, &chain), " [memcache, redis]");
}

#[test]
fn caching_label_skips_http_verbs() {
    let caches = vec!["redis".to_string()];
    let chain = vec![
        call("redis", "GET", CallDirection::Inbound),
        call("redis", "POST", CallDirection::Inbound),
        call("redis", "HEAD", CallDirection::Inbound),
        call("redis", "QUERY", CallDirection::Inbound),
    ];
    assert_eq!(caching_process_label(&caches, &chain), "");
    let chain = vec![
        call("redis", "GET", CallDirection::Inbound),
        call("redis", "lookup", CallDirection::Outbound),
    ];
    assert_eq!(caching_process_label(&caches, &chain), " [redis]");
}

#[test]
fn caching_label_is_empty_without_caches() {
    let chain = vec![call("redis", "lookup", CallDirection::Outbound)];
    assert_eq!(caching_process_label(&Vec::new(), &chain), "");
    assert_eq!(caching_process_label(&vec!["other".to_string()], &chain), "");
}

#[test]
fn caching_label_keeps_repeated_processes() {
    let caches = vec!["redis".to_string()];
    let chain = vec![
        call("redis", "a", CallDirection::Outbound),
        call("redis", "b", CallDirection::Outbound),
    ];
    assert_eq!(caching_process_label(&caches, &chain), " [redis, redis]");
}

#[test]
fn chain_file_name() {
    assert_eq!(cchain_filename("svcA_POST"), "svcA_POST.cchain");
    assert_eq!(endpoint_file_stem("svcA/POST"), "svcA_POST");
    assert_eq!(endpoint_file_stem("a\\b/c"), "a_b_c");
    assert_eq!(cchain_filename(&endpoint_file_stem("svcB/GET")), "svcB_GET.cchain");
}

#[test]
fn chain_file_skips_comments_and_blank_lines() {
    let content = "# expected chains\n\nsvcA/POST [Inbound] | svcB/GET [Outbound] & & *LEAF*\n   \n  # indented comment\nsvcA/POST [Inbound] & &\r\n";
    let keys = read_cchain_file(content).unwrap();
    assert_eq!(keys.len(), 2);
    assert_eq!(keys[0], two_step_key());
    assert_eq!(keys[1].call_chain.len(), 1);
    assert!(!keys[1].is_leaf);
}

#[test]
fn chain_file_without_chains() {
    assert_eq!(read_cchain_file("").unwrap().len(), 0);
    assert_eq!(read_cchain_file("# only a comment\n").unwrap().len(), 0);
}

#[test]
fn chain_file_fails_on_first_bad_line() {
    assert_eq!(
        read_cchain_file("a/x & &\nno call here & &\nb/y & & LEAF\n"),
        Err(ParseError::MissingSlash)
    );
    assert_eq!(read_cchain_file("a/x & & LEAF\nnothing\n"), Err(ParseError::UnknownLeafLabel));
}
