use build_driver::{
    contains_name, decide, find_dynamic_match, fingerprint, is_up_to_date, job_limit_or_default,
    resolve_job_limit, Build, Configuration, Decision, Timestamp,
};
use std::collections::hash_map::DefaultHasher;
use std::hash::Hasher;

fn strings(names: &[&str]) -> Vec<String> {
    names.iter().map(|s| s.to_string()).collect()
}

fn build(id: &str, inputs: &[&str], outputs: &[&str]) -> Build {
    Build {
        id: id.to_string(),
        rule: None,
        inputs: strings(inputs),
        order_only_inputs: vec![],
        outputs: strings(outputs),
        implicit_outputs: vec![],
        dynamic_module: None,
    }
}

#[test]
fn fingerprint_hashes_command_then_timestamps() {
    let mut h = DefaultHasher::new();
    h.write(&[1, b'a', b'b']);
    h.write(&[2, 1, 0, 0, 0, 0, 0, 0, 7, 0, 0, 0]);
    let expected = h.finish();
    let command = "ab".to_string();
    let times = vec![Timestamp { secs: 258, nanos: 7 }];
    assert_eq!(fingerprint(Some(&command), &times), expected);
}

#[test]
fn fingerprint_without_rule_uses_marker() {
    let mut h = DefaultHasher::new();
    h.write(&[0]);
    assert_eq!(fingerprint(None, &vec![]), h.finish());
}

#[test]
fn fingerprint_depends_on_timestamps() {
    let command = "cc".to_string();
    let a = fingerprint(Some(&command), &vec![Timestamp { secs: 1, nanos: 0 }]);
    let b = fingerprint(Some(&command), &vec![Timestamp { secs: 1, nanos: 1 }]);
    assert_ne!(a, b);
    assert_eq!(a, fingerprint(Some(&command), &vec![Timestamp { secs: 1, nanos: 0 }]));
}

#[test]
fn up_to_date_needs_equal_fingerprint_and_outputs() {
    assert!(is_up_to_date(Some(5), 5, &vec![true, true]));
    assert!(is_up_to_date(Some(5), 5, &vec![]));
    assert!(!is_up_to_date(Some(5), 6, &vec![true]));
    assert!(!is_up_to_date(None, 5, &vec![true]));
    assert!(!is_up_to_date(Some(5), 5, &vec![true, false]));
}

#[test]
fn decisions() {
    assert_eq!(decide(true, Some(3), 3, &vec![true]), Decision::Skip);
    assert_eq!(decide(true, Some(3), 4, &vec![true]), Decision::Run);
    assert_eq!(decide(false, Some(3), 4, &vec![true]), Decision::Record);
    assert_eq!(decide(false, Some(3), 3, &vec![false]), Decision::Record);
    assert_eq!(decide(true, None, 3, &vec![]), Decision::Run);
}

#[test]
fn producer_lookup_takes_first() {
    let c = Configuration {
        builds: vec![build("x", &[], &["p", "q"]), build("y", &[], &["q"])],
        default_outputs: vec![],
    };
    assert_eq!(c.producer_of(&"q".to_string()), Some(0));
    assert_eq!(c.producer_of(&"p".to_string()), Some(0));
    assert_eq!(c.producer_of(&"r".to_string()), None);
    assert!(contains_name(&strings(&["a", "b"]), &"b".to_string()));
    assert!(!contains_name(&strings(&[]), &"b".to_string()));
}

#[test]
fn dynamic_match_follows_output_order() {
    let f = Configuration {
        builds: vec![build("m0", &["i"], &["second"]), build("m1", &["j"], &["first"])],
        default_outputs: vec![],
    };
    assert_eq!(find_dynamic_match(&f, &strings(&["first", "second"])), Some(1));
    assert_eq!(find_dynamic_match(&f, &strings(&["none", "second"])), Some(0));
    assert_eq!(find_dynamic_match(&f, &strings(&["none"])), None);
}

#[test]
fn job_limit_defaults_to_cpus() {
    assert_eq!(resolve_job_limit(Some(3), 8), 3);
    assert_eq!(resolve_job_limit(None, 8), 8);
    assert_eq!(job_limit_or_default(Some(5)), 5);
    assert!(job_limit_or_default(None) >= 1);
}
