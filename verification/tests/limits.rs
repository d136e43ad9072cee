use esclusa_gate::rate_limit::{cache_key, check, expiry, minute_of, MemLimiter, SWEEP_ABOVE};

#[test]
fn thirty_requests_a_minute() {
    let mut l = MemLimiter::new();
    for n in 1..=35 {
        assert_eq!(check(None, &mut l, "1.2.3.4", 7), n <= 30, "{n}");
        // others in between do not count
        assert_eq!(check(None, &mut l, &format!("10.0.0.{n}"), 7), true);
    }
    assert_eq!(l.hits("1.2.3.4", 7), 35);
    // a new minute starts afresh
    assert!(check(None, &mut l, "1.2.3.4", 8));
    assert_eq!(l.hits("1.2.3.4", 8), 1);
    assert_eq!(l.hits("1.2.3.4", 7), 0);
}

#[test]
fn the_shared_count_decides_when_there_is_one() {
    let mut l = MemLimiter::new();
    assert!(check(Some(1), &mut l, "a", 1));
    assert!(check(Some(30), &mut l, "a", 1));
    assert!(!check(Some(31), &mut l, "a", 1));
    assert_eq!(l.hits("a", 1), 0);
}

#[test]
fn sweeping_keeps_the_current_minute() {
    let mut l = MemLimiter::new();
    for n in 0..SWEEP_ABOVE {
        l.count(&format!("old{n}"), 1);
    }
    l.count("current", 2);
    assert_eq!(l.hits("old0", 1), 1);
    // now there is one too many
    l.count("current", 2);
    assert_eq!(l.hits("current", 2), 2);
    assert_eq!(l.hits("old0", 1), 0);
    assert_eq!(l.hits("old4095", 1), 0);
}

#[test]
fn counts_are_keyed_by_client_and_minute() {
    assert_eq!(cache_key("1.2.3.4", 29_769_840), "rl:1.2.3.4:29769840");
    assert_ne!(cache_key("::1", 1), cache_key("::", 11));
    assert_eq!(minute_of(59), 0);
    assert_eq!(minute_of(60), 1);
    assert_eq!(expiry(1), Some(120));
    assert_eq!(expiry(2), None);
    assert_eq!(expiry(0), None);
}
