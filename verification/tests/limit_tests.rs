use rocket_rate_limit::{KeyedLimiter, RateLimit, RateLimitConfig};

// One unit per 60s window, independently per key.
fn rule(filter_id: usize, priority: u32) -> RateLimitConfig {
    RateLimitConfig::new(KeyedLimiter::per_millis(60_000, 1), filter_id).priority(priority)
}

#[test]
fn unregistered_route_admits_every_request() {
    let rl = RateLimit::new();
    let ev = rl.begin_check(Some("upload"));
    assert!(rl.current_filter(&ev).is_none());
    assert!(rl.check_result(&ev).is_none());
    let ev2 = rl.begin_check(None);
    assert!(rl.current_filter(&ev2).is_none());
    assert!(rl.check_result(&ev2).is_none());
}

#[test]
fn scenario_one_rule_second_request_rejected() {
    let mut rl = RateLimit::new();
    rl.add("upload", vec![rule(0, 0)]);

    // First request: the single unit of quota is consumed; admitted.
    let mut ev = rl.begin_check(Some("upload"));
    assert_eq!(rl.current_filter(&ev), Some(0));
    rl.supply_key(&mut ev, Some("k".to_string()));
    assert!(rl.current_filter(&ev).is_none());
    assert!(rl.check_result(&ev).is_none());

    // Second request within the window: rejected, Retry-After close to the
    // remaining window (at most 60s, in ms), body empty, status 429.
    let mut ev2 = rl.begin_check(Some("upload"));
    rl.supply_key(&mut ev2, Some("k".to_string()));
    let out = rl
        .check_result(&ev2)
        .expect("second request within the window must be rejected");
    assert!(out.retry_after > 0);
    assert!(out.retry_after <= 60_000);
    let d = rocket_rate_limit::respond::apply_rate_limit(&out);
    assert_eq!(d.status, 429);
    assert_eq!(d.header_name, "Retry-After");
    assert_eq!(d.header_value, out.retry_after.to_string());
    assert_eq!(d.body_len, 0);
}

#[test]
fn scenario_first_rejection_wins_and_lower_rule_unconsumed() {
    let mut rl = RateLimit::new();
    rl.add("upload", vec![rule(0, 10), rule(1, 1)]);

    // Exhaust the priority-10 rule's quota (skip the priority-1 rule).
    let mut ev = rl.begin_check(Some("upload"));
    assert_eq!(rl.current_filter(&ev), Some(0));
    rl.supply_key(&mut ev, Some("k".to_string()));
    assert_eq!(rl.current_filter(&ev), Some(1));
    rl.supply_key(&mut ev, None);
    assert!(rl.check_result(&ev).is_none());

    // Rejection comes from the priority-10 rule; the priority-1 rule is
    // never consulted (its filter is never requested).
    let mut ev2 = rl.begin_check(Some("upload"));
    assert_eq!(rl.current_filter(&ev2), Some(0));
    rl.supply_key(&mut ev2, Some("k".to_string()));
    assert!(rl.current_filter(&ev2).is_none());
    let out = rl.check_result(&ev2).expect("priority-10 rule must reject");
    assert!(out.retry_after > 0);

    // The priority-1 rule's quota is still unconsumed: a request that skips
    // the first rule and spends the second one's unit is admitted.
    let mut ev3 = rl.begin_check(Some("upload"));
    rl.supply_key(&mut ev3, None);
    assert_eq!(rl.current_filter(&ev3), Some(1));
    rl.supply_key(&mut ev3, Some("k".to_string()));
    assert!(rl.check_result(&ev3).is_none());
}

#[test]
fn scenario_rule_without_key_is_skipped() {
    let mut rl = RateLimit::new();
    rl.add("upload", vec![rule(0, 10), rule(1, 1)]);

    // The first rule's extractor yields no key: the rule is skipped, no
    // quota unit is consumed, the remaining rule still runs, and the
    // request is admitted when no other rule rejects.
    let mut ev = rl.begin_check(Some("upload"));
    assert_eq!(rl.current_filter(&ev), Some(0));
    rl.supply_key(&mut ev, None);
    assert_eq!(rl.current_filter(&ev), Some(1));
    rl.supply_key(&mut ev, Some("k".to_string()));
    assert!(rl.current_filter(&ev).is_none());
    assert!(rl.check_result(&ev).is_none());

    // The skipped rule consumed nothing: it still has its unit.
    let mut ev2 = rl.begin_check(Some("upload"));
    rl.supply_key(&mut ev2, Some("k".to_string()));
    assert_eq!(rl.current_filter(&ev2), Some(1));
}

#[test]
fn scenario_two_adds_merge_into_one_sorted_rule_set() {
    let mut rl = RateLimit::new();
    rl.add("upload", vec![rule(0, 5)]);
    rl.add("upload", vec![rule(1, 9), rule(2, 1)]);
    assert_eq!(rl.rule_priorities("upload"), Some(vec![9, 5, 1]));
    assert_eq!(rl.rule_priorities("download"), None);
}

#[test]
fn equal_priorities_keep_registration_order() {
    let mut rl = RateLimit::new();
    rl.add("r", vec![rule(0, 3), rule(1, 3)]);
    rl.add("r", vec![rule(2, 3), rule(3, 7)]);
    assert_eq!(rl.rule_priorities("r"), Some(vec![7, 3, 3, 3]));
    // Ties stand in registration order: walk the rules by their filter ids.
    let rl2 = {
        let mut rl2 = RateLimit::new();
        rl2.add("r", vec![rule(7, 3), rule(8, 3)]);
        rl2
    };
    let ev = rl2.begin_check(Some("r"));
    assert_eq!(rl2.current_filter(&ev), Some(7));
}

#[test]
fn empty_rule_set_admits() {
    let mut rl = RateLimit::new();
    rl.add("upload", vec![]);
    assert_eq!(rl.rule_priorities("upload"), Some(vec![]));
    let ev = rl.begin_check(Some("upload"));
    assert!(rl.current_filter(&ev).is_none());
    assert!(rl.check_result(&ev).is_none());
}

#[test]
fn routes_are_independent() {
    let mut rl = RateLimit::new();
    rl.add("a", vec![rule(0, 1)]);
    rl.add("b", vec![rule(1, 2)]);
    assert_eq!(rl.rule_priorities("a"), Some(vec![1]));
    assert_eq!(rl.rule_priorities("b"), Some(vec![2]));
    // Exhausting "a"'s quota does not touch "b"'s.
    let mut ev = rl.begin_check(Some("a"));
    rl.supply_key(&mut ev, Some("k".to_string()));
    assert!(rl.check_result(&ev).is_none());
    let mut ev2 = rl.begin_check(Some("b"));
    rl.supply_key(&mut ev2, Some("k".to_string()));
    assert!(rl.check_result(&ev2).is_none());
}

#[test]
fn distinct_keys_have_independent_quota() {
    let mut rl = RateLimit::new();
    rl.add("upload", vec![rule(0, 0)]);
    let mut ev = rl.begin_check(Some("upload"));
    rl.supply_key(&mut ev, Some("alice".to_string()));
    assert!(rl.check_result(&ev).is_none());
    // A different identity key still has its own unit.
    let mut ev2 = rl.begin_check(Some("upload"));
    rl.supply_key(&mut ev2, Some("bob".to_string()));
    assert!(rl.check_result(&ev2).is_none());
    // But "alice" is exhausted.
    let mut ev3 = rl.begin_check(Some("upload"));
    rl.supply_key(&mut ev3, Some("alice".to_string()));
    assert!(rl.check_result(&ev3).is_some());
}
