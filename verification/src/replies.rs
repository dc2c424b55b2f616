//! Fixed replies of the bot's small commands.

use vstd::prelude::*;
use crate::emoji::{FLOOF_HAPPY, FLOOF_HEART};
use crate::text::{
    appear_in_order, contains_text, decimal, lemma_contains_middle, mention, mention_user, u64_to_decimal,
};

verus! {

/// The answer to `/vote`: thanks when the user has voted today, else an
/// invitation to vote for the bot (`bot_id`) on Top.gg.
pub open spec fn vote_text(has_voted: bool, bot_id: u64) -> Seq<char> {
    if has_voted {
        "You've already voted today, thank you so much! ily "@ + FLOOF_HEART@
    } else {
        "You're able to vote for "@ + mention(bot_id) + " on Top.gg today still! You can [do so here]("@ + "https://top.gg/bot/"@
            + decimal(bot_id as nat) + "/vote"@ + "). Thank you for your consideration! "@ + FLOOF_HAPPY@
    }
}

/// The answer to `/vote`.
pub fn vote_message(has_voted: bool, bot_id: u64) -> (r: String)
    ensures
        r@ == vote_text(has_voted, bot_id),
{
    if has_voted {
        let mut r = String::from_str("You've already voted today, thank you so much! ily ");
        r.append(FLOOF_HEART);
        r
    } else {
        let mut r = String::from_str("You're able to vote for ");
        let bot_mention = mention_user(bot_id);
        r.append(bot_mention.as_str());
        r.append(" on Top.gg today still! You can [do so here](");
        r.append("https://top.gg/bot/");
        let digits = u64_to_decimal(bot_id);
        r.append(digits.as_str());
        r.append("/vote");
        r.append("). Thank you for your consideration! ");
        r.append(FLOOF_HAPPY);
        r
    }
}

/// Whether the author may use an Early Access command: for now everyone
/// may.
pub fn has_early_access() -> (granted: bool)
    ensures
        granted,
{
    true
}

/// The invitation to vote names one bot throughout: it mentions the bot,
/// and further on links to the voting page of the same bot, by its full id.
pub proof fn lemma_vote_link_names_the_bot(bot_id: u64)
    ensures
        appear_in_order(
            vote_text(false, bot_id),
            mention(bot_id),
            "https://top.gg/bot/"@ + decimal(bot_id as nat) + "/vote"@,
        ),
        contains_text(vote_text(false, bot_id), "https://top.gg/bot/"@ + decimal(bot_id as nat) + "/vote"@),
{
    let link = "https://top.gg/bot/"@ + decimal(bot_id as nat) + "/vote"@;
    let before = "You're able to vote for "@;
    let between = " on Top.gg today still! You can [do so here]("@;
    let after = "). Thank you for your consideration! "@ + FLOOF_HAPPY@;
    assert(before + mention(bot_id) + between + link + after =~= vote_text(false, bot_id));
    assert((before + mention(bot_id) + between) + link + after =~= vote_text(false, bot_id));
    lemma_contains_middle(before + mention(bot_id) + between, link, after);
}

/// The thanks for a vote already cast does not depend on the bot.
pub proof fn lemma_vote_thanks_same_for_every_bot(a: u64, b: u64)
    ensures
        vote_text(true, a) == vote_text(true, b),
{
}

} // verus!
