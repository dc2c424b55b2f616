use goober_bot::analytics::{chart_label, root_command, Analytics};
use goober_bot::time::Timestamp;

const DAY: i64 = 86_400;

fn ts(secs: i64, nanos: u32) -> Timestamp {
    Timestamp { secs, nanos }
}

fn names(list: &[&str]) -> Vec<String> {
    list.iter().map(|s| s.to_string()).collect()
}

fn counts(a: &Analytics) -> Vec<(String, usize)> {
    a.ranking()
}

#[test]
fn set_and_read_invocations() {
    let mut a = Analytics::new();
    assert!(a.invocations_of(&"vote".to_string()).is_none());
    a.set_invocations("vote".to_string(), vec![ts(1, 0), ts(2, 0)]);
    a.set_invocations("vote".to_string(), vec![ts(3, 0)]);
    assert_eq!(a.invocations_of(&"vote".to_string()), Some(&vec![ts(3, 0)]));
    assert_eq!(a.usages().len(), 1);
}

#[test]
fn refresh_keeps_the_last_day_and_current_commands() {
    let now = ts(10 * DAY, 500);
    let mut a = Analytics::new();
    a.set_invocations(
        "strike".to_string(),
        vec![ts(8 * DAY, 0), ts(9 * DAY, 500), ts(9 * DAY, 499), ts(9 * DAY + 5, 0), ts(11 * DAY, 0)],
    );
    a.set_invocations("gone".to_string(), vec![ts(10 * DAY, 0)]);
    let r = a.refresh_at(&names(&["strike", "vote", "strike"]), now);
    assert_eq!(
        r.invocations_of(&"strike".to_string()),
        Some(&vec![ts(9 * DAY, 500), ts(9 * DAY + 5, 0), ts(11 * DAY, 0)])
    );
    assert_eq!(r.invocations_of(&"vote".to_string()), Some(&Vec::new()));
    assert!(r.invocations_of(&"gone".to_string()).is_none());
    assert_eq!(r.usages().len(), 2);
    let again = r.refresh_at(&names(&["strike", "vote", "strike"]), now);
    assert_eq!(counts(&again), counts(&r));
    assert_eq!(again.invocations_of(&"strike".to_string()), r.invocations_of(&"strike".to_string()));
}

#[test]
fn increment_adds_one_invocation() {
    let now = ts(5 * DAY, 0);
    let mut a = Analytics::new();
    a.set_invocations("vote".to_string(), vec![ts(5 * DAY - 10, 0)]);
    let b = a.increment_at(&names(&["vote", "strike"]), "vote".to_string(), now);
    assert_eq!(b.invocations_of(&"vote".to_string()), Some(&vec![ts(5 * DAY - 10, 0), now]));
    assert_eq!(b.invocations_of(&"strike".to_string()), Some(&Vec::new()));
    let c = b.increment_at(&names(&["vote", "strike"]), "strike".to_string(), now);
    assert_eq!(c.invocations_of(&"strike".to_string()), Some(&vec![now]));
    let mut d = Analytics::new();
    d.record_invocation("new".to_string(), now);
    d.record_invocation("new".to_string(), now);
    assert_eq!(d.invocations_of(&"new".to_string()), Some(&vec![now, now]));
}

#[test]
fn increment_and_load_use_the_clock() {
    let mut a = Analytics::new();
    a.set_invocations("vote".to_string(), vec![ts(0, 0)]);
    let b = a.load(&names(&["vote"]));
    assert_eq!(b.invocations_of(&"vote".to_string()), Some(&Vec::new()));
    let c = b.increment(&names(&["vote"]), "vote".to_string());
    assert_eq!(c.invocations_of(&"vote".to_string()).unwrap().len(), 1);
}

#[test]
fn ranking_orders_by_count() {
    let mut a = Analytics::new();
    a.set_invocations("a".to_string(), vec![ts(1, 0)]);
    a.set_invocations("b".to_string(), vec![ts(1, 0), ts(2, 0), ts(3, 0)]);
    a.set_invocations("c".to_string(), vec![]);
    a.set_invocations("d".to_string(), vec![ts(1, 0), ts(2, 0), ts(3, 0)]);
    a.set_invocations("e".to_string(), vec![ts(4, 0)]);
    assert_eq!(
        a.ranking(),
        vec![
            ("b".to_string(), 3),
            ("d".to_string(), 3),
            ("a".to_string(), 1),
            ("e".to_string(), 1),
            ("c".to_string(), 0),
        ]
    );
    assert!(Analytics::new().ranking().is_empty());
}

#[test]
fn root_command_and_label() {
    assert_eq!(root_command(&names(&["strike", "give"]), &"give".to_string()), "strike");
    assert_eq!(root_command(&names(&[]), &"vote".to_string()), "vote");
    assert_eq!(chart_label(&"vote".to_string()), "/vote");
}

#[test]
fn within_a_day_boundary() {
    let now = ts(DAY, 7);
    assert!(ts(0, 7).is_within_a_day_of(&now));
    assert!(!ts(0, 6).is_within_a_day_of(&now));
    assert!(ts(2 * DAY, 0).is_within_a_day_of(&now));
    assert!(ts(0, 0).is_at_or_before(&ts(0, 0)));
    assert!(!ts(1, 0).is_at_or_before(&ts(0, 999_999_999)));
}
