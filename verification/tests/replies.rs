use goober_bot::emoji::{FLOOF_HAPPY, FLOOF_HEART, FLOOF_LOAD_ANIMATED, FLOOF_SAD, I_AM_THE_LAW};
use goober_bot::replies::{has_early_access, vote_message};

#[test]
fn vote_reply_after_voting() {
    assert_eq!(
        vote_message(true, 1234),
        "You've already voted today, thank you so much! ily <:floofHeart:1432623965339259000>"
    );
}

#[test]
fn vote_reply_before_voting() {
    assert_eq!(
        vote_message(false, 1234),
        "You're able to vote for <@1234> on Top.gg today still! You can [do so here](https://top.gg/bot/1234/vote). Thank you for your consideration! <:floofHappy:1432623969550204968>"
    );
}

#[test]
fn everyone_has_early_access() {
    assert!(has_early_access());
}

#[test]
fn emoji_syntax() {
    assert_eq!(FLOOF_SAD, "<:floofSad:1432623930450903150>");
    assert_eq!(FLOOF_HAPPY, "<:floofHappy:1432623969550204968>");
    assert_eq!(FLOOF_HEART, "<:floofHeart:1432623965339259000>");
    assert_eq!(FLOOF_LOAD_ANIMATED, "<a:floofLoadAnimated:1432623912293896262>");
    assert_eq!(I_AM_THE_LAW, "<:iAmTheLaw:1432623913942388816>");
}
