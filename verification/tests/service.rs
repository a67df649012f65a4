use fuzzy_suggest::config::{default_to_one, ServerConfig};
use fuzzy_suggest::ecosystem::{
    build_pool_ecosystem, AutocompleteOutcome, BatchOutcome, Ecosystem, ReapOutcome,
};
use fuzzy_suggest::engine::Matcher;
use fuzzy_suggest::fold::fold_to_ascii;
use fuzzy_suggest::handlers::{
    exact_match, fuzzy_autocomplete, fuzzy_match, ExactMatchRequest, FuzzyAutocompleteRequest,
    FuzzyMatchRequest,
};
use fuzzy_suggest::records::{Dataset, EngineInputData};

fn rec(string: &str, data: &str) -> EngineInputData {
    EngineInputData { string: string.to_string(), data: data.to_string() }
}

fn dataset3() -> Dataset {
    Dataset { records: vec![rec("Panthera leo", "1"), rec("Panthera tigris", "2"), rec("Caf\u{e9} noir", "3")] }
}

fn names(v: &[EngineInputData]) -> Vec<String> {
    v.iter().map(|r| r.string.clone()).collect()
}

fn default_eco(dataset: &Dataset) -> Ecosystem {
    let cfg = ServerConfig::default();
    build_pool_ecosystem(
        dataset,
        cfg.autocomplete_pool_max_size,
        cfg.autocomplete_pool_min_size,
        cfg.get_engine_expiry() * 1000,
    )
}

#[test]
fn exact_match_finds_loaded_and_misses_absent() {
    let dataset = dataset3();
    let req = ExactMatchRequest {
        strings: vec!["Panthera leo".to_string(), "missing".to_string()],
    };
    let resp = exact_match(&dataset, &req);
    assert_eq!(resp.matches.len(), 2);
    let first = resp.matches[0].as_ref().expect("loaded record must be found");
    assert_eq!(first.string, "Panthera leo");
    assert_eq!(first.data, "1");
    assert!(resp.matches[1].is_none());
}

#[test]
fn exact_lookup_is_idempotent_on_unique_records() {
    let dataset = dataset3();
    for r in &dataset.records {
        let found = dataset.exact(&r.string).expect("record must be found under its own string");
        assert_eq!(found.string, r.string);
        assert_eq!(found.data, r.data);
    }
}

#[test]
fn exact_lookup_first_occurrence_wins() {
    let dataset = Dataset {
        records: vec![rec("twin", "first"), rec("twin", "second"), rec("other", "x")],
    };
    let found = dataset.exact(&"twin".to_string()).unwrap();
    assert_eq!(found.data, "first");
}

#[test]
fn autocomplete_returns_at_most_ten_records() {
    let mut records = Vec::new();
    for i in 0..15 {
        records.push(rec(&format!("item number {i}"), "0"));
    }
    let dataset = Dataset { records };
    let mut m = Matcher::new(&dataset);
    let result = m.fuzzy_match(&"item".to_string());
    assert_eq!(result.len(), 10);
}

#[test]
fn query_with_diacritics_matches_like_its_fold() {
    let dataset = dataset3();
    let mut with_accent = Matcher::new(&dataset);
    let mut without_accent = Matcher::new(&dataset);
    let a = with_accent.fuzzy_match(&"caf\u{e9}".to_string());
    let b = without_accent.fuzzy_match(&"cafe".to_string());
    assert_eq!(names(&a), names(&b));
    assert!(names(&a).contains(&"Caf\u{e9} noir".to_string()));
}

#[test]
fn fold_to_ascii_strips_diacritics_and_keeps_ascii() {
    assert_eq!(fold_to_ascii(&"Caf\u{e9} noir".to_string()), "Cafe noir");
    assert_eq!(fold_to_ascii(&"Panthera leo".to_string()), "Panthera leo");
    assert_eq!(fold_to_ascii(&"\u{c6}neid".to_string()), "AEneid");
}

#[test]
fn extension_query_keeps_a_shared_record() {
    let dataset = dataset3();
    let mut m = Matcher::new(&dataset);
    let short = m.fuzzy_match(&"Pan".to_string());
    let longer = m.fuzzy_match(&"Pant".to_string());
    assert!(!longer.is_empty());
    let short_names = names(&short);
    assert!(names(&longer).iter().any(|n| short_names.contains(n)));
}

#[test]
fn anchored_query_extension_is_fully_rescored() {
    // "x$" parses as a postfix-anchored atom and matches nothing here;
    // appending 'y' turns it into the plain needle "x$y", which matches.
    // The engine must not treat that as an incremental extension: a full
    // rescore has to bring the record back.
    let dataset = Dataset { records: vec![rec("ax$by", "1")] };
    let mut m = Matcher::new(&dataset);
    let first = m.fuzzy_match(&"x$".to_string());
    assert!(first.is_empty());
    let second = m.fuzzy_match(&"x$y".to_string());
    assert_eq!(names(&second), vec!["ax$by".to_string()]);
}

#[test]
fn session_flow_reuses_the_leased_worker() {
    let dataset = dataset3();
    let mut eco = default_eco(&dataset);
    let req = FuzzyAutocompleteRequest { string: "Pan".to_string() };
    let outcome = fuzzy_autocomplete(&mut eco, None, &req, 0);
    let (matches, engine_id) = match outcome {
        AutocompleteOutcome::Matched { matches, engine_id, fresh_session } => {
            assert!(fresh_session);
            (matches, engine_id)
        },
        _ => panic!("first request must match"),
    };
    let got = names(&matches);
    assert!(got.contains(&"Panthera leo".to_string()));
    assert!(got.contains(&"Panthera tigris".to_string()));
    assert!(got[0].starts_with("Panthera"));
    assert_eq!(eco.pool_status().in_use, 1);

    let req2 = FuzzyAutocompleteRequest { string: "Pant".to_string() };
    let outcome2 = fuzzy_autocomplete(&mut eco, Some(engine_id), &req2, 1000);
    match outcome2 {
        AutocompleteOutcome::Matched { matches, engine_id: id2, fresh_session } => {
            assert!(!fresh_session);
            assert_eq!(id2, engine_id);
            assert!(names(&matches).contains(&"Panthera leo".to_string()));
        },
        _ => panic!("follow-up request must match"),
    }
    // the same matcher served both requests: nothing else was taken out
    assert_eq!(eco.pool_status().in_use, 1);
}

#[test]
fn expired_lease_is_reaped_and_session_restarts() {
    let dataset = dataset3();
    let mut eco = default_eco(&dataset);
    let expiry = eco.engine_expiry_ms;
    let req = FuzzyAutocompleteRequest { string: "Pan".to_string() };
    let engine_id = match fuzzy_autocomplete(&mut eco, None, &req, 0) {
        AutocompleteOutcome::Matched { engine_id, .. } => engine_id,
        _ => panic!("first request must match"),
    };
    assert_eq!(eco.pool_status().in_use, 1);

    // not yet due: nothing is reclaimed
    assert!(matches!(eco.reap_due(expiry - 1), ReapOutcome::Idle));
    assert_eq!(eco.pool_status().in_use, 1);

    // due: the worker goes back to the pool
    match eco.reap_due(expiry) {
        ReapOutcome::Reclaimed { engine_id: reaped } => assert_eq!(reaped, engine_id),
        _ => panic!("due lease must be reclaimed"),
    }
    assert_eq!(eco.pool_status().in_use, 0);
    assert_eq!(eco.active_leases(), 0);

    // a replayed cookie with the stale id is treated as a first request
    let later = expiry + 1000;
    match fuzzy_autocomplete(&mut eco, Some(engine_id), &req, later) {
        AutocompleteOutcome::Matched { fresh_session, .. } => assert!(fresh_session),
        _ => panic!("stale session must be served as new"),
    }
    assert_eq!(eco.pool_status().in_use, 1);
}

#[test]
fn activity_within_ttl_keeps_the_lease() {
    let dataset = dataset3();
    let mut eco = default_eco(&dataset);
    let expiry = eco.engine_expiry_ms;
    let req = FuzzyAutocompleteRequest { string: "Pan".to_string() };
    let engine_id = match fuzzy_autocomplete(&mut eco, None, &req, 0) {
        AutocompleteOutcome::Matched { engine_id, .. } => engine_id,
        _ => panic!("first request must match"),
    };
    // three follow-ups, each well within the lease lifetime
    let mut now = 0;
    for _ in 0..3 {
        now += expiry / 2;
        assert!(matches!(eco.reap_due(now), ReapOutcome::Idle));
        match fuzzy_autocomplete(&mut eco, Some(engine_id), &req, now) {
            AutocompleteOutcome::Matched { fresh_session, engine_id: id2, .. } => {
                assert!(!fresh_session);
                assert_eq!(id2, engine_id);
            },
            _ => panic!("follow-up within the lifetime must match"),
        }
    }
    assert_eq!(eco.active_leases(), 1);
    // one pause past the lifetime, and the worker is back in the pool
    match eco.reap_due(now + expiry) {
        ReapOutcome::Reclaimed { engine_id: reaped } => assert_eq!(reaped, engine_id),
        _ => panic!("expired lease must be reclaimed"),
    }
    assert_eq!(eco.pool_status().in_use, 0);
}

#[test]
fn batch_fuzzy_folds_and_truncates() {
    let dataset = dataset3();
    let mut eco = default_eco(&dataset);
    let req = FuzzyMatchRequest {
        strings: vec!["cafe".to_string(), "Panthera l".to_string()],
        n_first_results: 2,
    };
    let matches = match fuzzy_match(&mut eco, &req) {
        BatchOutcome::Matched { matches } => matches,
        _ => panic!("batch request must match"),
    };
    assert_eq!(matches.len(), 2);
    assert!(matches.iter().all(|m| m.len() <= 2));
    assert!(names(&matches[0]).contains(&"Caf\u{e9} noir".to_string()));
    assert_eq!(matches[1][0].string, "Panthera leo");
    // the worker went back to the pool
    assert_eq!(eco.pool_status().in_use, 0);
}

#[test]
fn batch_fuzzy_truncates_to_one_by_default() {
    let dataset = dataset3();
    let mut eco = default_eco(&dataset);
    let req = FuzzyMatchRequest {
        strings: vec!["Pan".to_string()],
        n_first_results: default_to_one(),
    };
    match fuzzy_match(&mut eco, &req) {
        BatchOutcome::Matched { matches } => {
            assert_eq!(matches.len(), 1);
            assert_eq!(matches[0].len(), 1);
        },
        _ => panic!("batch request must match"),
    }
}

#[test]
fn empty_inputs_are_rejected() {
    let dataset = dataset3();
    let mut eco = default_eco(&dataset);
    let req = FuzzyAutocompleteRequest { string: String::new() };
    assert!(matches!(
        fuzzy_autocomplete(&mut eco, None, &req, 0),
        AutocompleteOutcome::Rejected
    ));
    let no_queries = FuzzyMatchRequest { strings: vec![], n_first_results: 1 };
    assert!(matches!(fuzzy_match(&mut eco, &no_queries), BatchOutcome::Rejected));
    let zero_limit = FuzzyMatchRequest {
        strings: vec!["Pan".to_string()],
        n_first_results: 0,
    };
    assert!(matches!(fuzzy_match(&mut eco, &zero_limit), BatchOutcome::Rejected));
    // an empty query inside a non-empty batch yields an empty result list
    let mixed = FuzzyMatchRequest {
        strings: vec![String::new(), "Pan".to_string()],
        n_first_results: 3,
    };
    match fuzzy_match(&mut eco, &mixed) {
        BatchOutcome::Matched { matches } => {
            assert_eq!(matches.len(), 2);
            assert!(matches[0].is_empty());
            assert!(!matches[1].is_empty());
        },
        _ => panic!("mixed batch must match"),
    }
}

#[test]
fn pool_is_bounded_and_lazily_grown() {
    let dataset = dataset3();
    let mut eco = build_pool_ecosystem(&dataset, 3, 1, 12_000);
    let req = FuzzyAutocompleteRequest { string: "Pan".to_string() };
    let mut ids: Vec<u128> = Vec::new();
    for expected_in_use in 1..=3 {
        match fuzzy_autocomplete(&mut eco, None, &req, 0) {
            AutocompleteOutcome::Matched { engine_id, .. } => ids.push(engine_id),
            _ => panic!("session within the cap must be served"),
        }
        assert_eq!(eco.pool_status().in_use, expected_in_use);
    }
    // every session got a lease of its own
    assert!(ids[0] != ids[1] && ids[0] != ids[2] && ids[1] != ids[2]);
    // the cap is reached: available plus leased never exceeds it
    let status = eco.pool_status();
    assert_eq!(status.capacity, 3);
    assert_eq!(status.available, 0);
    assert_eq!(eco.active_leases(), 3);
    assert!(matches!(
        fuzzy_autocomplete(&mut eco, None, &req, 0),
        AutocompleteOutcome::Busy
    ));
}

#[test]
fn stale_firing_is_discarded() {
    let dataset = dataset3();
    let mut eco = default_eco(&dataset);
    // a pending firing whose lease is gone — as when a request holds the
    // lease at the moment the timer fires
    assert!(eco.timers.insert(42, 5));
    let before = eco.pool_status().available;
    match eco.reap_due(10) {
        ReapOutcome::Stale { engine_id } => assert_eq!(engine_id, 42),
        _ => panic!("a firing with no lease must be discarded"),
    }
    // neither the pool nor any lease was touched
    assert_eq!(eco.pool_status().available, before);
    assert_eq!(eco.pool_status().in_use, 0);
}

#[test]
fn closed_timers_deliver_nothing() {
    let dataset = dataset3();
    let mut eco = default_eco(&dataset);
    let req = FuzzyAutocompleteRequest { string: "Pan".to_string() };
    assert!(matches!(
        fuzzy_autocomplete(&mut eco, None, &req, 0),
        AutocompleteOutcome::Matched { .. }
    ));
    eco.close_timers();
    assert!(eco.timers_closed());
    // the lease's deadline has long elapsed, but the stream has ended
    assert!(matches!(eco.reap_due(u64::MAX / 2), ReapOutcome::Idle));
    assert_eq!(eco.active_leases(), 1);
}

#[test]
fn config_defaults_match_the_documented_values() {
    let cfg = ServerConfig::default();
    assert_eq!(cfg.autocomplete_pool_max_size, 10);
    assert_eq!(cfg.autocomplete_pool_min_size, 2);
    assert_eq!(cfg.session_expiry_delay, 10);
    assert_eq!(cfg.engine_returned_additional_delay, 2);
    assert_eq!(cfg.gp_pool_max_size, 10);
    assert_eq!(cfg.gp_pool_min_size, 2);
    assert_eq!(cfg.get_engine_expiry(), 12);
    assert_eq!(default_to_one(), 1);
}
