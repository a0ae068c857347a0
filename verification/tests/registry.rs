use invoke_registry::registry::Registry;

#[test]
fn collect_returns_registrations_in_declaration_order() {
    let mut r: Registry<String> = Registry::new();
    let names = ["one", "two", "three", "four", "five"];
    for n in names {
        r.register("list", n.to_string());
    }
    let collected = r.collect("list");
    assert_eq!(collected.len(), 5);
    for (i, n) in names.iter().enumerate() {
        assert_eq!(collected[i], *n);
    }
}

#[test]
fn scenario_three_payloads_in_source_order() {
    let mut r: Registry<String> = Registry::new();
    r.register("config", "x".to_string());
    r.register("config", "y".to_string());
    r.register("config", "z".to_string());
    let collected = r.collect("config");
    assert_eq!(collected, &vec!["x".to_string(), "y".to_string(), "z".to_string()]);
}

#[test]
fn scenario_unused_id_collects_empty() {
    let mut r: Registry<String> = Registry::new();
    let collected = r.collect("unused");
    assert!(collected.is_empty());
}

#[test]
fn scenario_two_ids_stay_apart() {
    let mut r: Registry<String> = Registry::new();
    r.register("cfg1", "a".to_string());
    r.register("cfg1", "b".to_string());
    r.register("cfg2", "c".to_string());
    assert_eq!(r.collect("cfg1"), &vec!["a".to_string(), "b".to_string()]);
    assert_eq!(r.collect("cfg2"), &vec!["c".to_string()]);
}

#[test]
fn zero_registrations_is_no_error_even_after_other_ids_filled() {
    let mut r: Registry<u64> = Registry::new();
    r.register("used", 7);
    assert_eq!(r.collect("never-touched").len(), 0);
    assert_eq!(r.collect("used"), &vec![7]);
}

#[test]
fn distinct_ids_never_interfere() {
    let mut r: Registry<String> = Registry::new();
    r.register("A", "only-under-a".to_string());
    let b = r.collect("B").clone();
    assert!(b.is_empty());
    let a = r.collect("A").clone();
    assert_eq!(a, vec!["only-under-a".to_string()]);
    assert!(!a.contains(&"only-under-b".to_string()));
}

#[test]
fn interleaved_registrations_keep_per_id_order() {
    let mut r: Registry<u64> = Registry::new();
    r.register("even", 0);
    r.register("odd", 1);
    r.register("even", 2);
    r.register("odd", 3);
    r.register("even", 4);
    assert_eq!(r.collect("even"), &vec![0, 2, 4]);
    assert_eq!(r.collect("odd"), &vec![1, 3]);
}

#[test]
fn thunks_forced_exactly_once() {
    let mut r: Registry<String> = Registry::new();
    r.register("counted", "p".to_string());
    r.register("counted", "q".to_string());
    assert_eq!(r.thunk_calls("counted"), vec![0, 0]);
    r.collect("counted");
    assert_eq!(r.thunk_calls("counted"), vec![1, 1]);
    r.collect("counted");
    r.collect("counted");
    assert_eq!(r.thunk_calls("counted"), vec![1, 1]);
}

#[test]
fn repeated_collect_is_idempotent() {
    let mut r: Registry<String> = Registry::new();
    r.register("idem", "first".to_string());
    r.register("idem", "second".to_string());
    let first = r.collect("idem").clone();
    let second = r.collect("idem").clone();
    assert_eq!(first, second);
    assert_eq!(first, vec!["first".to_string(), "second".to_string()]);
    assert_eq!(r.thunk_calls("idem"), vec![1, 1]);
}

#[test]
fn thunk_calls_of_unknown_id_is_empty() {
    let r: Registry<String> = Registry::new();
    assert_eq!(r.thunk_calls("nobody"), Vec::<u64>::new());
}

#[test]
fn empty_string_is_a_valid_id() {
    let mut r: Registry<u64> = Registry::new();
    r.register("", 11);
    r.register("named", 22);
    assert_eq!(r.collect(""), &vec![11]);
    assert_eq!(r.collect("named"), &vec![22]);
}
