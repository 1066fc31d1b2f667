use jaeger_stats::call::{Call, CallDirection};
use jaeger_stats::cchain_cache::CChainEndPointCache;
use jaeger_stats::chain_key::CChainStatsKey;
use jaeger_stats::report::{Chapter, Report};

fn key(text: &str) -> CChainStatsKey {
    CChainStatsKey::parse(text).unwrap()
}

fn observed(text: &str) -> CChainStatsKey {
    key(text)
}

#[test]
fn remap_without_match_keeps_chain() {
    let mut k = observed("svcB/GET & & *LEAF*");
    let expected = vec![key("svcA/POST | svcC/GET & & *LEAF*")];
    assert!(!k.remap_callchain(&expected, &mut Report::new()));
    assert_eq!(k, observed("svcB/GET & & *LEAF*"));
    assert_eq!(k.count_tail_matches(&expected), 0);
}

#[test]
fn remap_with_one_match_adopts_chain_and_leaf_flag() {
    let mut k = observed("svcB/GET & [cache] &");
    let expected = vec![key("svcA/POST | svcB/GET & & *LEAF*"), key("svcA/POST | svcC/GET & &")];
    assert!(k.remap_callchain(&expected, &mut Report::new()));
    assert_eq!(k.call_chain, key("svcA/POST | svcB/GET & &").call_chain);
    assert!(k.is_leaf);
    assert_eq!(k.caching_process, "[cache]");
}

#[test]
fn remap_with_two_matches_prefers_same_leaf_flag() {
    let expected = vec![key("svcA/POST | svcB/GET & & *LEAF*"), key("svcX/PUT | svcB/GET & &")];
    let mut leaf = observed("svcB/GET & & *LEAF*");
    assert!(leaf.remap_callchain(&expected, &mut Report::new()));
    assert_eq!(leaf, key("svcA/POST | svcB/GET & & *LEAF*"));
    let mut inner = observed("svcB/GET & &");
    assert!(inner.remap_callchain(&expected, &mut Report::new()));
    assert_eq!(inner, key("svcX/PUT | svcB/GET & &"));
}

#[test]
fn remap_with_two_matches_takes_second_when_first_differs() {
    let expected = vec![key("svcA/POST | svcB/GET & & *LEAF*"), key("svcX/PUT | svcB/GET & & *LEAF*")];
    let mut inner = observed("svcB/GET & &");
    assert!(inner.remap_callchain(&expected, &mut Report::new()));
    assert_eq!(inner, key("svcX/PUT | svcB/GET & & *LEAF*"));
}

#[test]
fn remap_with_three_matches_keeps_chain() {
    let expected = vec![
        key("a/1 | svcB/GET & &"),
        key("b/2 | svcB/GET & &"),
        key("c/3 | svcB/GET & &"),
    ];
    let mut report = Report::new();
    let mut k = observed("svcB/GET & &");
    assert_eq!(k.count_tail_matches(&expected), 3);
    assert!(!k.remap_callchain(&expected, &mut report));
    assert_eq!(k, observed("svcB/GET & &"));
    assert_eq!(
        report.messages(Chapter::Details),
        vec!["NO FIX: 3 matches found for non-rooted 'svcB/GET & &'".to_string()]
    );
    assert_eq!(report.chapters(), 4);
}

#[test]
fn remap_notes_nothing_with_fewer_than_three_matches() {
    let expected = vec![key("a/1 | svcB/GET & &"), key("b/2 | svcB/GET & &"), key("c/3 & &")];
    let mut report = Report::new();
    let mut two = observed("svcB/GET & &");
    assert!(two.remap_callchain(&expected, &mut report));
    let mut one = observed("c/3 & &");
    assert!(one.remap_callchain(&expected, &mut report));
    let mut none = observed("d/4 & &");
    assert!(!none.remap_callchain(&expected, &mut report));
    assert_eq!(report.chapters(), 0);
}

#[test]
fn remap_needs_equal_direction() {
    let expected = vec![key("svcA/POST | svcB/GET [Inbound] & &")];
    let mut k = observed("svcB/GET [Outbound] & &");
    assert!(!k.remap_callchain(&expected, &mut Report::new()));
}

#[test]
fn remap_does_not_match_longer_observed_chain() {
    let expected = vec![key("svcB/GET & &")];
    let mut k = observed("svcA/POST | svcB/GET & &");
    assert!(!k.remap_callchain(&expected, &mut Report::new()));
}

#[test]
fn remap_twice_gives_the_same_chain() {
    let expected = vec![key("svcA/POST | svcB/GET & & *LEAF*"), key("svcA/POST | svcC/GET & &")];
    let mut once = observed("svcB/GET & &");
    once.remap_callchain(&expected, &mut Report::new());
    let mut twice = once.clone();
    twice.remap_callchain(&expected, &mut Report::new());
    assert_eq!(once, twice);
}

#[test]
fn remap_twice_can_move_on_where_a_longer_chain_shadows() {
    let expected = vec![key("x/x | a/a | b/b & & *LEAF*"), key("a/a | b/b & & *LEAF*")];
    let mut once = observed("b/b & &");
    assert!(once.remap_callchain(&expected, &mut Report::new()));
    assert_eq!(once, key("a/a | b/b & & *LEAF*"));
    let mut twice = once.clone();
    assert!(twice.remap_callchain(&expected, &mut Report::new()));
    assert_eq!(twice, key("x/x | a/a | b/b & & *LEAF*"));
}

#[test]
fn cache_serves_what_was_stored() {
    let mut report = Report::new();
    let mut cache = CChainEndPointCache::new("CallChain/".to_string());
    assert_eq!(cache.path(), "CallChain/");
    assert!(!cache.is_loaded("svcB_GET"));
    assert!(cache.get_cchain_key("svcB_GET").is_none());
    assert!(cache.store_loaded(&mut report, "svcB_GET", Some("svcA/POST | svcB/GET & & *LEAF*\n")));
    assert!(cache.is_loaded("svcB_GET"));
    let chains = cache.get_cchain_key("svcB_GET").unwrap();
    assert_eq!(chains.len(), 1);
    assert_eq!(chains[0], key("svcA/POST | svcB/GET & & *LEAF*"));
}

#[test]
fn cache_keeps_first_load() {
    let mut report = Report::new();
    let mut cache = CChainEndPointCache::new(String::new());
    assert!(cache.store_loaded(&mut report, "ep", Some("a/x & &\n")));
    assert!(!cache.store_loaded(&mut report, "ep", Some("b/y & &\nc/z & &\n")));
    assert!(!cache.store_loaded(&mut report, "ep", None));
    assert_eq!(cache.get_cchain_key("ep").unwrap().len(), 1);
    assert_eq!(report.chapters(), 0);
}

#[test]
fn cache_remembers_missing_file() {
    let mut report = Report::new();
    let mut cache = CChainEndPointCache::new(String::new());
    assert!(cache.store_loaded(&mut report, "gone", None));
    assert!(cache.is_loaded("gone"));
    assert!(cache.get_cchain_key("gone").is_none());
    assert!(!cache.store_loaded(&mut report, "gone", Some("a/x & &\n")));
    assert!(cache.get_cchain_key("gone").is_none());
    assert_eq!(
        report.messages(Chapter::Ingest),
        vec!["Could not find 'gone.cchain' so no call-chain available".to_string()]
    );
}

#[test]
fn cache_holds_nothing_for_unreadable_file() {
    let mut report = Report::new();
    let mut cache = CChainEndPointCache::new(String::new());
    assert!(cache.store_loaded(&mut report, "bad", Some("no call here\n")));
    assert!(cache.is_loaded("bad"));
    assert!(cache.get_cchain_key("bad").is_none());
    assert_eq!(report.messages(Chapter::Ingest), vec!["Loading of entry 'bad' failed".to_string()]);
}

#[test]
fn cache_keeps_end_points_apart() {
    let mut report = Report::new();
    let mut cache = CChainEndPointCache::new(String::new());
    cache.store_loaded(&mut report, "one", Some("a/x & &\n"));
    cache.store_loaded(&mut report, "two", Some("b/y & &\nc/z & &\n"));
    assert_eq!(cache.get_cchain_key("one").unwrap().len(), 1);
    assert_eq!(cache.get_cchain_key("two").unwrap().len(), 2);
    assert!(!cache.is_loaded("three"));
}

#[test]
fn call_equality_is_by_fields() {
    let a = Call { process: "p".to_string(), method: "m".to_string(), call_direction: CallDirection::Inbound };
    let b = a.clone();
    let c = Call { process: "p".to_string(), method: "m".to_string(), call_direction: CallDirection::Outbound };
    assert_eq!(a, b);
    assert_ne!(a, c);
}
