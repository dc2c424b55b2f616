use goober_bot::strikes::{
    check_history_access, check_repealer, expiration_after, expiration_from_outcome, get_strikes_key,
    give, give_at, give_reply, history, history_at, pre_strike_check, repeal, repeal_log, repeal_reply,
    Strike, StrikeError, VIEW_AUDIT_LOG,
};
use goober_bot::time::Timestamp;

fn ts(secs: i64) -> Timestamp {
    Timestamp { secs, nanos: 0 }
}

fn full_strike() -> Strike {
    Strike {
        issuer: 1,
        issued: ts(1700000000),
        rule: Some("3".to_string()),
        comment: Some("spam".to_string()),
        expiration: Some(ts(1710000000)),
        repealer: None,
    }
}

fn plain_strike(issuer: u64, issued: i64) -> Strike {
    Strike::new(issuer, ts(issued), None, None, None)
}

#[test]
fn strike_text_with_everything() {
    let s = full_strike();
    assert_eq!(
        s.to_string(42, true, true),
        "<@1> gave <@42> a strike on <t:1700000000:d> for breaking **rule 3** with comment **\"spam\"** which expires <t:1710000000:R>"
    );
    assert_eq!(
        s.to_string(42, false, false),
        "Gave <@42> a strike for breaking **rule 3** with comment **\"spam\"** which expires <t:1710000000:R>"
    );
}

#[test]
fn strike_text_minimal_and_repealed() {
    let mut s = plain_strike(5, 100);
    assert_eq!(s.to_string(6, false, true), "Gave <@6> a strike on <t:100:d>");
    s.repealer = Some(7);
    assert_eq!(s.to_string(6, true, false), "~~<@5> gave <@6> a strike~~ **repealed** by <@7>");
}

#[test]
fn strike_text_before_the_epoch() {
    let s = plain_strike(5, -3600);
    assert_eq!(s.to_string(6, false, true), "Gave <@6> a strike on <t:-3600:d>");
}

#[test]
fn expiry_is_inclusive() {
    let s = full_strike();
    assert!(!s.is_expired(&Timestamp { secs: 1709999999, nanos: 999_999_999 }));
    assert!(s.is_expired(&ts(1710000000)));
    assert!(s.is_expired(&ts(1710000001)));
    let never = plain_strike(1, 0);
    assert!(!never.is_expired(&ts(i64::MAX)));
}

#[test]
fn strikes_key_format() {
    assert_eq!(get_strikes_key(Some(1250948547403055114), 42).unwrap(), "strikes_1250948547403055114_42");
    assert_eq!(get_strikes_key(None, 42), Err(StrikeError::NotInGuild));
    assert_ne!(get_strikes_key(Some(1), 23).unwrap(), get_strikes_key(Some(12), 3).unwrap());
}

#[test]
fn strikes_must_be_enabled() {
    assert_eq!(pre_strike_check(false, Some(9)), Err(StrikeError::StrikesDisabled));
    assert_eq!(pre_strike_check(true, Some(9)), Ok(Some(9)));
    assert_eq!(pre_strike_check(true, None), Ok(None));
}

#[test]
fn expiration_counts_calendar_months() {
    // 2024-01-31T00:00:00Z plus one month is 2024-02-29T00:00:00Z.
    let issued = Timestamp { secs: 1706659200, nanos: 5 };
    assert_eq!(expiration_after(issued, Some(1)), Ok(Some(Timestamp { secs: 1709164800, nanos: 5 })));
    assert_eq!(expiration_after(issued, None), Ok(None));
    assert_eq!(expiration_after(ts(i64::MAX), Some(1)), Err(StrikeError::ExpirationOutOfRange));
    assert_eq!(expiration_from_outcome(None), Err(StrikeError::ExpirationOutOfRange));
    assert_eq!(expiration_from_outcome(Some(ts(3))), Ok(Some(ts(3))));
}

#[test]
fn giving_appends_a_strike() {
    let mut strikes = vec![plain_strike(1, 10)];
    let given = give_at(&mut strikes, 2, ts(1706659200), Some("4".to_string()), None, Some(1)).unwrap();
    assert_eq!(strikes.len(), 2);
    assert_eq!(given.issuer, 2);
    assert_eq!(given.issued, ts(1706659200));
    assert_eq!(given.rule.as_deref(), Some("4"));
    assert_eq!(given.comment, None);
    assert_eq!(given.expiration, Some(ts(1709164800)));
    assert_eq!(given.repealer, None);
    assert_eq!(strikes[1].to_string(9, true, true), given.to_string(9, true, true));
    assert_eq!(
        give_reply(&given, 9),
        "Gave <@9> a strike for breaking **rule 4** which expires <t:1709164800:R> <:floofSad:1432623930450903150>"
    );
}

#[test]
fn giving_with_unrepresentable_expiration_changes_nothing() {
    let mut strikes = vec![plain_strike(1, 10)];
    let r = give_at(&mut strikes, 2, ts(i64::MAX), None, None, Some(1));
    assert!(matches!(r, Err(StrikeError::ExpirationOutOfRange)));
    assert_eq!(strikes.len(), 1);
}

#[test]
fn giving_now_without_expiration() {
    let mut strikes = Vec::new();
    let given = give(&mut strikes, 3, None, Some("note".to_string()), None).unwrap();
    assert_eq!(strikes.len(), 1);
    assert_eq!(given.expiration, None);
    assert!(given.issued.secs > 1_700_000_000);
    let (description, clean) = history(&strikes, 8, false);
    assert!(!clean);
    assert!(description.starts_with("- #1: <@3> gave <@8> a strike on <t:"));
}

#[test]
fn repeal_defaults_to_the_most_recent() {
    let mut strikes = vec![plain_strike(1, 10), plain_strike(1, 20)];
    assert_eq!(repeal(&mut strikes, 4, None), Ok(2));
    assert_eq!(strikes[1].repealer, Some(4));
    assert_eq!(strikes[0].repealer, None);
    assert_eq!(repeal(&mut strikes, 4, Some(1)), Ok(1));
    assert_eq!(strikes[0].repealer, Some(4));
}

#[test]
fn repeal_refusals() {
    let mut none: Vec<Strike> = Vec::new();
    assert_eq!(repeal(&mut none, 4, None), Err(StrikeError::NoSuchStrike(0)));
    let mut strikes = vec![plain_strike(1, 10)];
    assert_eq!(repeal(&mut strikes, 4, Some(0)), Err(StrikeError::NoSuchStrike(0)));
    assert_eq!(repeal(&mut strikes, 4, Some(2)), Err(StrikeError::NoSuchStrike(2)));
    assert_eq!(repeal(&mut strikes, 4, Some(1)), Ok(1));
    assert_eq!(repeal(&mut strikes, 5, Some(1)), Err(StrikeError::AlreadyRepealed(1)));
    assert_eq!(strikes[0].repealer, Some(4));
    assert_eq!(check_repealer(4, 4), Err(StrikeError::OwnStrike));
    assert_eq!(check_repealer(3, 4), Ok(()));
}

#[test]
fn repeal_messages() {
    assert_eq!(repeal_reply(42, 2), "<@42>'s strike #2 has been repealed <:floofHappy:1432623969550204968>");
    assert_eq!(repeal_log(42, 2, 7), "<@42>'s strike #2 was repealed by <@7>");
}

#[test]
fn clean_history() {
    let strikes: Vec<Strike> = Vec::new();
    assert_eq!(
        history_at(&strikes, 8, ts(0), false),
        ("All clean! <:floofInnocent:1432623963086913607>".to_string(), true)
    );
    assert_eq!(
        history_at(&strikes, 8, ts(0), true),
        ("All clean! <:floofInnocent:1432623963086913607>".to_string(), true)
    );
}

#[test]
fn history_hides_repealed_and_expired_strikes_unless_all() {
    let mut repealed = plain_strike(1, 10);
    repealed.repealer = Some(2);
    let mut expired = plain_strike(1, 20);
    expired.expiration = Some(ts(30));
    let active = plain_strike(1, 40);
    let strikes = vec![repealed, expired, active];
    let now = ts(50);
    assert_eq!(
        history_at(&strikes, 8, now, false),
        ("\n- #3: <@1> gave <@8> a strike on <t:40:d>".to_string(), false)
    );
    assert_eq!(
        history_at(&strikes, 8, now, true),
        (
            "- #1: ~~<@1> gave <@8> a strike on <t:10:d>~~ **repealed** by <@2>\n- #2: <@1> gave <@8> a strike on <t:20:d> which expires <t:30:R>\n- #3: <@1> gave <@8> a strike on <t:40:d>".to_string(),
            false
        )
    );
    let only_hidden = vec![strikes[0].clone()];
    assert_eq!(
        history_at(&only_hidden, 8, now, false),
        ("All clean! <:floofInnocent:1432623963086913607>".to_string(), true)
    );
}

#[test]
fn repealed_strike_leaves_the_history() {
    let mut strikes = vec![plain_strike(1, 10)];
    assert!(!history_at(&strikes, 8, ts(11), false).1);
    repeal(&mut strikes, 4, None).unwrap();
    assert!(history_at(&strikes, 8, ts(11), false).1);
    assert!(!history_at(&strikes, 8, ts(11), true).1);
}

#[test]
fn history_access_rules() {
    assert_eq!(check_history_access(5, 5, None), Ok(()));
    assert_eq!(check_history_access(5, 6, None), Err(StrikeError::MissingMember));
    assert_eq!(check_history_access(5, 6, Some(None)), Err(StrikeError::MissingPermission));
    assert_eq!(check_history_access(5, 6, Some(Some(0x8))), Err(StrikeError::MissingPermission));
    assert_eq!(check_history_access(5, 6, Some(Some(VIEW_AUDIT_LOG | 0x8))), Ok(()));
    assert_eq!(VIEW_AUDIT_LOG, 1 << 7);
}

#[test]
fn error_messages() {
    assert_eq!(StrikeError::NotInGuild.message("x"), "expected context to be in guild");
    assert_eq!(
        StrikeError::StrikesDisabled.message("x"),
        "strikes are not enabled, see \"/config get strikes_enabled\""
    );
    assert_eq!(StrikeError::MissingMember.message("x"), "expected author to be member");
    assert_eq!(
        StrikeError::MissingPermission.message("x"),
        "you must have the View Audit Log permission to see the strike history of other users"
    );
    assert_eq!(StrikeError::OwnStrike.message("x"), "you cannot repeal one of your own strikes");
    assert_eq!(StrikeError::NoSuchStrike(3).message("x"), "user does not have a strike #3");
    assert_eq!(StrikeError::AlreadyRepealed(2).message("val"), "val's strike #2 has already been repealed");
    assert_eq!(StrikeError::ExpirationOutOfRange.message("x"), "failed to create timestamp from months");
    assert!(StrikeError::OwnStrike.is_user_error());
    assert!(StrikeError::NoSuchStrike(1).is_user_error());
    assert!(!StrikeError::NotInGuild.is_user_error());
    assert!(!StrikeError::ExpirationOutOfRange.is_user_error());
}
