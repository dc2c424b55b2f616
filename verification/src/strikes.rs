//! The strike moderation system: the record of one strike, how it is shown,
//! and the rules of giving, listing and repealing strikes.

use vstd::prelude::*;
use crate::emoji::{FLOOF_HAPPY, FLOOF_INNOCENT, FLOOF_SAD};
use crate::text::{
    decimal, i64_to_decimal, mention, mention_user, signed_decimal, u64_to_decimal,
    usize_to_decimal, lemma_decimal_pair_injective, is_digit, appear_in_order, contains_text,
    lemma_contains_middle, lemma_contains_within,
};
use crate::time::{
    at_or_before, calendar_months_after, checked_add_months, clock_now, lands_months_later,
    lemma_calendar_months_later_is_later, opt_parts, Timestamp,
};

verus! {

/// One strike given to a server member.
///
/// `issuer` and `repealer` are user ids; `rule` is the rule that was broken,
/// `comment` a free remark, `expiration` the instant from which the strike
/// no longer counts, and `repealer` the moderator who repealed it, if any.
#[derive(Debug)]
pub struct Strike {
    pub issuer: u64,
    pub issued: Timestamp,
    pub rule: Option<String>,
    pub comment: Option<String>,
    pub expiration: Option<Timestamp>,
    pub repealer: Option<u64>,
}

fn clone_text(o: &Option<String>) -> (r: Option<String>)
    ensures
        r == *o,
{
    match o {
        Some(s) => Some(s.clone()),
        None => None,
    }
}

impl Clone for Strike {
    fn clone(&self) -> (r: Self)
        ensures
            r == *self,
    {
        Strike {
            issuer: self.issuer,
            issued: self.issued,
            rule: clone_text(&self.rule),
            comment: clone_text(&self.comment),
            expiration: self.expiration,
            repealer: self.repealer,
        }
    }
}

/// Whether strike `s` has expired at `now`: it has an expiration and that
/// instant is `now` or earlier.
pub open spec fn expired(s: Strike, now: Timestamp) -> bool {
    match s.expiration {
        Some(e) => at_or_before(e, now),
        None => false,
    }
}

/// `" on <t:SECS:d>"`, the date the strike was given, when asked for.
pub open spec fn issued_text(s: Strike, with_issued: bool) -> Seq<char> {
    if with_issued {
        " on <t:"@ + signed_decimal(s.issued.secs as int) + ":d>"@
    } else {
        Seq::empty()
    }
}

/// `" for breaking **rule R**"` when the strike names a rule.
pub open spec fn rule_text(s: Strike) -> Seq<char> {
    match s.rule {
        Some(r) => " for breaking **rule "@ + r@ + "**"@,
        None => Seq::empty(),
    }
}

/// ` with comment **"C"**` when the strike has a comment.
pub open spec fn comment_text(s: Strike) -> Seq<char> {
    match s.comment {
        Some(c) => " with comment **\""@ + c@ + "\"**"@,
        None => Seq::empty(),
    }
}

/// `" which expires <t:SECS:R>"` when the strike has an expiration.
pub open spec fn expiration_text(s: Strike) -> Seq<char> {
    match s.expiration {
        Some(e) => " which expires <t:"@ + signed_decimal(e.secs as int) + ":R>"@,
        None => Seq::empty(),
    }
}

/// The part of a strike's sentence after its first letter: to whom, when
/// (when `with_issued`), for which rule, with which comment, until when.
pub open spec fn ave_text(s: Strike, user: u64, with_issued: bool) -> Seq<char> {
    "ave "@ + mention(user) + " a strike"@ + issued_text(s, with_issued) + rule_text(s)
        + comment_text(s) + expiration_text(s)
}

/// The sentence that describes strike `s` given to `user`: who gave it (when
/// `with_issuer`), to whom, when (when `with_issued`), for which rule, with
/// which comment, until when; struck through and followed by the repealer
/// when the strike was repealed.
pub open spec fn strike_text(s: Strike, user: u64, with_issuer: bool, with_issued: bool) -> Seq<char> {
    let ave = ave_text(s, user, with_issued);
    let message = if with_issuer {
        mention(s.issuer) + " g"@ + ave
    } else {
        "G"@ + ave
    };
    match s.repealer {
        Some(r) => "~~"@ + message + "~~ **repealed** by "@ + mention(r),
        None => message,
    }
}

impl Strike {
    /// A strike given by `issuer` at `issued`, not repealed.
    pub fn new(
        issuer: u64,
        issued: Timestamp,
        rule: Option<String>,
        comment: Option<String>,
        expiration: Option<Timestamp>,
    ) -> (s: Strike)
        ensures
            s == (Strike { issuer, issued, rule, comment, expiration, repealer: None }),
    {
        Strike { issuer, issued, rule, comment, expiration, repealer: None }
    }

    /// Whether the strike has expired at `now`.
    pub fn is_expired(&self, now: &Timestamp) -> (r: bool)
        ensures
            r == expired(*self, *now),
    {
        match self.expiration {
            Some(e) => e.is_at_or_before(now),
            None => false,
        }
    }

    /// The sentence that describes this strike, given to `user`.
    pub fn to_string(&self, user: u64, with_issuer: bool, with_issued: bool) -> (r: String)
        ensures
            r@ == strike_text(*self, user, with_issuer, with_issued),
    {
        let mut ave = String::from_str("ave ");
        let user_mention = mention_user(user);
        ave.append(user_mention.as_str());
        ave.append(" a strike");
        self.append_issued(&mut ave, with_issued);
        self.append_rule(&mut ave);
        self.append_comment(&mut ave);
        self.append_expiration(&mut ave);
        let message = if with_issuer {
            let mut m = mention_user(self.issuer);
            m.append(" g");
            m.append(ave.as_str());
            m
        } else {
            let mut m = String::from_str("G");
            m.append(ave.as_str());
            m
        };
        match self.repealer {
            Some(repealer) => {
                let mut r = String::from_str("~~");
                r.append(message.as_str());
                r.append("~~ **repealed** by ");
                let repealer_mention = mention_user(repealer);
                r.append(repealer_mention.as_str());
                r
            },
            None => message,
        }
    }

    fn append_issued(&self, buf: &mut String, with_issued: bool)
        ensures
            final(buf)@ == old(buf)@ + issued_text(*self, with_issued),
    {
        if with_issued {
            buf.append(" on <t:");
            let secs = i64_to_decimal(self.issued.secs);
            buf.append(secs.as_str());
            buf.append(":d>");
        }
    }

    fn append_rule(&self, buf: &mut String)
        ensures
            final(buf)@ == old(buf)@ + rule_text(*self),
    {
        match &self.rule {
            Some(rule) => {
                buf.append(" for breaking **rule ");
                buf.append(rule.as_str());
                buf.append("**");
            },
            None => {},
        }
    }

    fn append_comment(&self, buf: &mut String)
        ensures
            final(buf)@ == old(buf)@ + comment_text(*self),
    {
        match &self.comment {
            Some(comment) => {
                buf.append(" with comment **\"");
                buf.append(comment.as_str());
                buf.append("\"**");
            },
            None => {},
        }
    }

    fn append_expiration(&self, buf: &mut String)
        ensures
            final(buf)@ == old(buf)@ + expiration_text(*self),
    {
        match self.expiration {
            Some(expiration) => {
                buf.append(" which expires <t:");
                let secs = i64_to_decimal(expiration.secs);
                buf.append(secs.as_str());
                buf.append(":R>");
            },
            None => {},
        }
    }
}

/// Why a strike command is refused.
#[derive(Debug, Clone, Copy, PartialEq, Eq, Structural)]
pub enum StrikeError {
    /// The command was not run in a server.
    NotInGuild,
    /// The server has not enabled strikes.
    StrikesDisabled,
    /// The author could not be found as a member of the server.
    MissingMember,
    /// The author may not see the strike history of other users.
    MissingPermission,
    /// The author tried to repeal a strike of their own.
    OwnStrike,
    /// The user has no strike with this number.
    NoSuchStrike(usize),
    /// The strike with this number has already been repealed.
    AlreadyRepealed(usize),
    /// The expiration lies beyond the range of representable dates.
    ExpirationOutOfRange,
}

/// The text with which the bot answers `e`; `user_name` is the name of the
/// user whose strikes the command was about.
pub open spec fn error_text(e: StrikeError, user_name: Seq<char>) -> Seq<char> {
    match e {
        StrikeError::NotInGuild => "expected context to be in guild"@,
        StrikeError::StrikesDisabled => "strikes are not enabled, see \"/config get strikes_enabled\""@,
        StrikeError::MissingMember => "expected author to be member"@,
        StrikeError::MissingPermission =>
            "you must have the View Audit Log permission to see the strike history of other users"@,
        StrikeError::OwnStrike => "you cannot repeal one of your own strikes"@,
        StrikeError::NoSuchStrike(n) => "user does not have a strike #"@ + decimal(n as nat),
        StrikeError::AlreadyRepealed(n) =>
            user_name + "'s strike #"@ + decimal(n as nat) + " has already been repealed"@,
        StrikeError::ExpirationOutOfRange => "failed to create timestamp from months"@,
    }
}

/// Whether `e` is the user's doing (shown to them as such) rather than a
/// fault of the bot or of Discord.
pub open spec fn caused_by_user(e: StrikeError) -> bool {
    match e {
        StrikeError::StrikesDisabled => true,
        StrikeError::MissingPermission => true,
        StrikeError::OwnStrike => true,
        StrikeError::NoSuchStrike(_) => true,
        StrikeError::AlreadyRepealed(_) => true,
        _ => false,
    }
}

impl StrikeError {
    /// The text with which the bot answers this error.
    pub fn message(&self, user_name: &str) -> (r: String)
        ensures
            r@ == error_text(*self, user_name@),
    {
        match self {
            StrikeError::NotInGuild => String::from_str("expected context to be in guild"),
            StrikeError::StrikesDisabled =>
                String::from_str("strikes are not enabled, see \"/config get strikes_enabled\""),
            StrikeError::MissingMember => String::from_str("expected author to be member"),
            StrikeError::MissingPermission => String::from_str(
                "you must have the View Audit Log permission to see the strike history of other users",
            ),
            StrikeError::OwnStrike => String::from_str("you cannot repeal one of your own strikes"),
            StrikeError::NoSuchStrike(n) => {
                let mut r = String::from_str("user does not have a strike #");
                let digits = usize_to_decimal(*n);
                r.append(digits.as_str());
                r
            },
            StrikeError::AlreadyRepealed(n) => {
                let mut r = String::from_str(user_name);
                r.append("'s strike #");
                let digits = usize_to_decimal(*n);
                r.append(digits.as_str());
                r.append(" has already been repealed");
                r
            },
            StrikeError::ExpirationOutOfRange => String::from_str("failed to create timestamp from months"),
        }
    }

    /// Whether the error is the user's doing.
    pub fn is_user_error(&self) -> (r: bool)
        ensures
            r == caused_by_user(*self),
    {
        match self {
            StrikeError::StrikesDisabled => true,
            StrikeError::MissingPermission => true,
            StrikeError::OwnStrike => true,
            StrikeError::NoSuchStrike(_) => true,
            StrikeError::AlreadyRepealed(_) => true,
            _ => false,
        }
    }
}

/// The database key under which the strikes of `user` in server `guild`
/// are kept: `strikes_GUILD_USER`.
pub open spec fn strikes_key(guild: u64, user: u64) -> Seq<char> {
    "strikes_"@ + decimal(guild as nat) + "_"@ + decimal(user as nat)
}

/// The database key of the strikes of `user` in the server the command runs
/// in; `guild` is `None` outside a server.
pub fn get_strikes_key(guild: Option<u64>, user: u64) -> (r: Result<String, StrikeError>)
    ensures
        match guild {
            Some(g) => r matches Ok(key) && key@ == strikes_key(g, user),
            None => r == Err::<String, StrikeError>(StrikeError::NotInGuild),
        },
{
    match guild {
        Some(g) => {
            let mut key = String::from_str("strikes_");
            let guild_digits = u64_to_decimal(g);
            key.append(guild_digits.as_str());
            key.append("_");
            let user_digits = u64_to_decimal(user);
            key.append(user_digits.as_str());
            Ok(key)
        },
        None => Err(StrikeError::NotInGuild),
    }
}

/// Different (server, user) pairs never share a strikes key, so no user's
/// strikes are read or overwritten as another's.
pub proof fn lemma_strikes_key_injective(guild1: u64, user1: u64, guild2: u64, user2: u64)
    requires
        strikes_key(guild1, user1) == strikes_key(guild2, user2),
    ensures
        guild1 == guild2,
        user1 == user2,
{
    reveal_strlit("_");
    let prefix = "strikes_"@;
    let rest1 = decimal(guild1 as nat) + seq!['_'] + decimal(user1 as nat);
    let rest2 = decimal(guild2 as nat) + seq!['_'] + decimal(user2 as nat);
    assert(strikes_key(guild1, user1) =~= prefix + rest1);
    assert(strikes_key(guild2, user2) =~= prefix + rest2);
    assert(rest1 =~= (prefix + rest1).subrange(prefix.len() as int, (prefix + rest1).len() as int));
    assert(rest2 =~= (prefix + rest2).subrange(prefix.len() as int, (prefix + rest2).len() as int));
    assert(!is_digit('_'));
    lemma_decimal_pair_injective(guild1 as nat, user1 as nat, guild2 as nat, user2 as nat, '_');
}

/// The step every strike command takes first: refuse when the server has
/// not enabled strikes, else hand back the server's strike log channel.
pub fn pre_strike_check(strikes_enabled: bool, strikes_log_channel: Option<u64>) -> (r: Result<Option<u64>, StrikeError>)
    ensures
        strikes_enabled ==> r == Ok::<Option<u64>, StrikeError>(strikes_log_channel),
        !strikes_enabled ==> r == Err::<Option<u64>, StrikeError>(StrikeError::StrikesDisabled),
{
    if !strikes_enabled {
        Err(StrikeError::StrikesDisabled)
    } else {
        Ok(strikes_log_channel)
    }
}

/// The expiration of a strike once chrono has answered: `None` means the
/// date could not be represented.
pub fn expiration_from_outcome(outcome: Option<Timestamp>) -> (r: Result<Option<Timestamp>, StrikeError>)
    ensures
        match outcome {
            Some(e) => r == Ok::<Option<Timestamp>, StrikeError>(Some(e)),
            None => r == Err::<Option<Timestamp>, StrikeError>(StrikeError::ExpirationOutOfRange),
        },
{
    match outcome {
        Some(e) => Ok(Some(e)),
        None => Err(StrikeError::ExpirationOutOfRange),
    }
}

/// What `expiration_after` gives: no expiration without a number of months,
/// else the instant that many calendar months after `issued`, or an error
/// when that instant cannot be represented.
pub open spec fn expiration_outcome(issued: Timestamp, months: Option<u32>) -> Result<Option<(i64, u32)>, StrikeError> {
    match months {
        None => Ok(None),
        Some(m) => match calendar_months_after(issued.secs, issued.nanos, m) {
            Some(p) => Ok(Some(p)),
            None => Err(StrikeError::ExpirationOutOfRange),
        },
    }
}

/// The result of `expiration_after`, by seconds and nanoseconds.
pub open spec fn expiration_parts(r: Result<Option<Timestamp>, StrikeError>) -> Result<Option<(i64, u32)>, StrikeError> {
    match r {
        Ok(e) => Ok(opt_parts(e)),
        Err(err) => Err(err),
    }
}

/// When a strike given at `issued` expires, if it is to expire after
/// `months` calendar months.
pub fn expiration_after(issued: Timestamp, months: Option<u32>) -> (r: Result<Option<Timestamp>, StrikeError>)
    ensures
        expiration_parts(r) == expiration_outcome(issued, months),
        r matches Ok(Some(e)) ==> months matches Some(m) && lands_months_later(issued, m, e),
{
    match months {
        None => Ok(None),
        Some(m) => {
            let outcome = checked_add_months(issued, m);
            expiration_from_outcome(outcome)
        },
    }
}

/// Gives a strike at `now`: the new strike, issued by `issuer` for `rule`
/// with `comment` and expiring after `expiration_months` months (never
/// without), is added after the user's other strikes and handed back. When
/// the expiration cannot be represented, nothing changes.
pub fn give_at(
    strikes: &mut Vec<Strike>,
    issuer: u64,
    now: Timestamp,
    rule: Option<String>,
    comment: Option<String>,
    expiration_months: Option<u32>,
) -> (r: Result<Strike, StrikeError>)
    ensures
        match expiration_outcome(now, expiration_months) {
            Ok(expiration) => r matches Ok(s) && opt_parts(s.expiration) == expiration
                && s == (Strike { issuer, issued: now, rule, comment, expiration: s.expiration, repealer: None })
                && final(strikes)@ == old(strikes)@.push(s),
            Err(e) => r == Err::<Strike, StrikeError>(e) && final(strikes)@ == old(strikes)@,
        },
        r matches Ok(s) ==> (expiration_months matches Some(m) ==> s.expiration matches Some(e)
            && lands_months_later(now, m, e)),
{
    let expiration = expiration_after(now, expiration_months);
    match expiration {
        Ok(expiration) => {
            let strike = Strike::new(issuer, now, rule, comment, expiration);
            strikes.push(strike.clone());
            Ok(strike)
        },
        Err(e) => Err(e),
    }
}

/// Gives a strike now (the instant is read from the clock): as `give_at`,
/// at the instant the new strike records as issued.
pub fn give(
    strikes: &mut Vec<Strike>,
    issuer: u64,
    rule: Option<String>,
    comment: Option<String>,
    expiration_months: Option<u32>,
) -> (r: Result<Strike, StrikeError>)
    ensures
        match r {
            Ok(s) => expiration_outcome(s.issued, expiration_months) == Ok::<Option<(i64, u32)>, StrikeError>(opt_parts(s.expiration))
                && s == (Strike { issuer, issued: s.issued, rule, comment, expiration: s.expiration, repealer: None })
                && final(strikes)@ == old(strikes)@.push(s),
            Err(e) => e == StrikeError::ExpirationOutOfRange && expiration_months is Some
                && final(strikes)@ == old(strikes)@,
        },
        r matches Ok(s) ==> (expiration_months matches Some(m) ==> s.expiration matches Some(e)
            && lands_months_later(s.issued, m, e)),
{
    let now = clock_now();
    give_at(strikes, issuer, now, rule, comment, expiration_months)
}

/// The reply to the moderator who gave `strike` to `user`.
pub fn give_reply(strike: &Strike, user: u64) -> (r: String)
    ensures
        r@ == strike_text(*strike, user, false, false) + " "@ + FLOOF_SAD@,
{
    let mut r = strike.to_string(user, false, false);
    r.append(" ");
    r.append(FLOOF_SAD);
    r
}

/// Refuses a moderator's attempt to repeal a strike of their own.
pub fn check_repealer(user: u64, author: u64) -> (r: Result<(), StrikeError>)
    ensures
        user == author ==> r == Err::<(), StrikeError>(StrikeError::OwnStrike),
        user != author ==> r == Ok::<(), StrikeError>(()),
{
    if user == author {
        Err(StrikeError::OwnStrike)
    } else {
        Ok(())
    }
}

/// The number of the strike a repeal is about: the one asked for, else the
/// most recent one (the last, numbered by the count of strikes).
pub open spec fn repeal_number(strikes: Seq<Strike>, strike_number: Option<usize>) -> int {
    match strike_number {
        Some(n) => n as int,
        None => strikes.len() as int,
    }
}

/// What repealing strike `strike_number` (numbered from 1; the most recent
/// when `None`) by `author` does: the strikes afterwards and the number of
/// the repealed strike, or why it is refused.
pub open spec fn repeal_outcome(strikes: Seq<Strike>, author: u64, strike_number: Option<usize>) -> Result<(Seq<Strike>, usize), StrikeError> {
    let n = repeal_number(strikes, strike_number);
    if n < 1 || n > strikes.len() {
        Err(StrikeError::NoSuchStrike(n as usize))
    } else if strikes[n - 1].repealer is Some {
        Err(StrikeError::AlreadyRepealed(n as usize))
    } else {
        Ok((strikes.update(n - 1, Strike { repealer: Some(author), ..strikes[n - 1] }), n as usize))
    }
}

/// Repeals strike `strike_number` (numbered from 1 as the history shows
/// them; the most recent when `None`) on behalf of `author`, and hands back
/// its number.
pub fn repeal(strikes: &mut Vec<Strike>, author: u64, strike_number: Option<usize>) -> (r: Result<usize, StrikeError>)
    ensures
        match repeal_outcome(old(strikes)@, author, strike_number) {
            Ok((after, n)) => r == Ok::<usize, StrikeError>(n) && final(strikes)@ == after,
            Err(e) => r == Err::<usize, StrikeError>(e) && final(strikes)@ == old(strikes)@,
        },
{
    let n: usize = match strike_number {
        Some(n) => n,
        None => strikes.len(),
    };
    if n < 1 || n > strikes.len() {
        return Err(StrikeError::NoSuchStrike(n));
    }
    if strikes[n - 1].repealer.is_some() {
        return Err(StrikeError::AlreadyRepealed(n));
    }
    let mut strike = strikes[n - 1].clone();
    strike.repealer = Some(author);
    strikes.set(n - 1, strike);
    assert(strikes@ =~= repeal_outcome(old(strikes)@, author, strike_number).unwrap().0);
    Ok(n)
}

/// The reply to the moderator who repealed strike `n` of `user`.
pub fn repeal_reply(user: u64, n: usize) -> (r: String)
    ensures
        r@ == mention(user) + "'s strike #"@ + decimal(n as nat) + " has been repealed "@ + FLOOF_HAPPY@,
{
    let mut r = mention_user(user);
    r.append("'s strike #");
    let digits = usize_to_decimal(n);
    r.append(digits.as_str());
    r.append(" has been repealed ");
    r.append(FLOOF_HAPPY);
    r
}

/// The line written to the server's strike log when `author` repealed
/// strike `n` of `user`.
pub fn repeal_log(user: u64, n: usize, author: u64) -> (r: String)
    ensures
        r@ == mention(user) + "'s strike #"@ + decimal(n as nat) + " was repealed by "@ + mention(author),
{
    let mut r = mention_user(user);
    r.append("'s strike #");
    let digits = usize_to_decimal(n);
    r.append(digits.as_str());
    r.append(" was repealed by ");
    let author_mention = mention_user(author);
    r.append(author_mention.as_str());
    r
}

/// The permission bit of Discord's "View Audit Log".
pub const VIEW_AUDIT_LOG: u64 = 128u64;

/// Who may see the strike history of `user`: anyone their own; for another
/// user's, the author must be a member of the server (`author_permissions`
/// is `None` when not) whose permissions (`Some(None)` when unknown) include
/// View Audit Log.
pub fn check_history_access(user: u64, author: u64, author_permissions: Option<Option<u64>>) -> (r: Result<(), StrikeError>)
    ensures
        user == author ==> r == Ok::<(), StrikeError>(()),
        user != author ==> r == match author_permissions {
            None => Err(StrikeError::MissingMember),
            Some(None) => Err(StrikeError::MissingPermission),
            Some(Some(bits)) => if bits & VIEW_AUDIT_LOG != 0 { Ok(()) } else { Err(StrikeError::MissingPermission) },
        },
{
    if user == author {
        return Ok(());
    }
    match author_permissions {
        None => Err(StrikeError::MissingMember),
        Some(None) => Err(StrikeError::MissingPermission),
        Some(Some(bits)) => if bits & VIEW_AUDIT_LOG != 0 { Ok(()) } else { Err(StrikeError::MissingPermission) },
    }
}

/// Whether the history lists strike `s` at `now`: every strike when `all`
/// is asked for, else only those neither expired nor repealed.
pub open spec fn shown(s: Strike, now: Timestamp, all: bool) -> bool {
    all || !(expired(s, now) || s.repealer is Some)
}

/// The entry of strike number `n` (from 1) in the history.
pub open spec fn history_entry(s: Strike, user: u64, n: nat) -> Seq<char> {
    "- #"@ + decimal(n) + ": "@ + strike_text(s, user, true, true)
}

/// The history's lines for the first `count` strikes: each listed strike's
/// entry, after a line break unless it is the very first strike.
pub open spec fn history_lines(strikes: Seq<Strike>, user: u64, now: Timestamp, all: bool, count: nat) -> Seq<char>
    decreases count,
{
    if count == 0 {
        Seq::empty()
    } else {
        let i = count - 1;
        let before = history_lines(strikes, user, now, all, i as nat);
        if shown(strikes[i], now, all) {
            before + (if i != 0 { "\n"@ } else { Seq::empty() }) + history_entry(strikes[i], user, count)
        } else {
            before
        }
    }
}

/// Whether the history lists none of the strikes.
pub open spec fn history_clean(strikes: Seq<Strike>, now: Timestamp, all: bool) -> bool {
    forall|i: int| 0 <= i < strikes.len() ==> !shown(#[trigger] strikes[i], now, all)
}

/// The strike history of `user` at `now`: the listed strikes, else a note
/// that the record is clean.
pub open spec fn history_text(strikes: Seq<Strike>, user: u64, now: Timestamp, all: bool) -> Seq<char> {
    if history_clean(strikes, now, all) {
        "All clean! "@ + FLOOF_INNOCENT@
    } else {
        history_lines(strikes, user, now, all, strikes.len())
    }
}

/// The strike history of `user` at `now` and whether it is clean.
pub fn history_at(strikes: &Vec<Strike>, user: u64, now: Timestamp, all: bool) -> (r: (String, bool))
    ensures
        r.0@ == history_text(strikes@, user, now, all),
        r.1 == history_clean(strikes@, now, all),
{
    let mut description = String::new();
    let mut clean = true;
    let mut i: usize = 0;
    while i < strikes.len()
        invariant
            i <= strikes.len(),
            description@ == history_lines(strikes@, user, now, all, i as nat),
            clean == (forall|j: int| 0 <= j < i ==> !shown(#[trigger] strikes@[j], now, all)),
        decreases strikes.len() - i,
    {
        let strike = &strikes[i];
        let hidden = (strike.is_expired(&now) || strike.repealer.is_some()) && !all;
        if !hidden {
            clean = false;
            if i != 0 {
                description.append("\n");
            }
            description.append("- #");
            let number = usize_to_decimal(i + 1);
            description.append(number.as_str());
            description.append(": ");
            let line = strike.to_string(user, true, true);
            description.append(line.as_str());
        }
        proof {
            assert(strikes@[i as int] == *strike);
        }
        i += 1;
    }
    if clean {
        let mut note = String::from_str("All clean! ");
        note.append(FLOOF_INNOCENT);
        (note, true)
    } else {
        (description, false)
    }
}

/// The strike history of `user` now (the instant is read from the clock).
pub fn history(strikes: &Vec<Strike>, user: u64, all: bool) -> (r: (String, bool))
    ensures
        exists|now: Timestamp| r.0@ == history_text(strikes@, user, now, all)
            && r.1 == history_clean(strikes@, now, all),
{
    let now = clock_now();
    history_at(strikes, user, now, all)
}

/// A strike given without an expiration never expires.
pub proof fn lemma_strike_without_expiration_never_expires(s: Strike, now: Timestamp)
    requires
        s.expiration is None,
    ensures
        !expired(s, now),
{
}

/// Repealing without a number repeals the most recent strike: it does what
/// repealing the strike numbered by the count of strikes does.
pub proof fn lemma_repeal_defaults_to_latest(strikes: Seq<Strike>, author: u64)
    requires
        strikes.len() <= usize::MAX,
    ensures
        repeal_outcome(strikes, author, None) == repeal_outcome(strikes, author, Some(strikes.len() as usize)),
{
}

/// A repeal marks its strike as repealed by the author and leaves every
/// other strike, and the number of strikes, as they were.
pub proof fn lemma_repeal_changes_only_its_strike(strikes: Seq<Strike>, author: u64, strike_number: Option<usize>)
    requires
        strikes.len() <= usize::MAX,
        repeal_outcome(strikes, author, strike_number) is Ok,
    ensures
        ({
            let (after, n) = repeal_outcome(strikes, author, strike_number).unwrap();
            &&& 1 <= n <= strikes.len()
            &&& after.len() == strikes.len()
            &&& strikes[n - 1].repealer is None
            &&& after[n - 1] == (Strike { repealer: Some(author), ..strikes[n - 1] })
            &&& forall|i: int| 0 <= i < strikes.len() && i != n - 1 ==> after[i] == strikes[i]
        }),
{
}

/// A repealed strike cannot be repealed again: asking anew for its number,
/// by anyone, is refused as already repealed.
pub proof fn lemma_repeal_is_final(strikes: Seq<Strike>, author: u64, strike_number: Option<usize>, next_author: u64)
    requires
        strikes.len() <= usize::MAX,
        repeal_outcome(strikes, author, strike_number) is Ok,
    ensures
        ({
            let (after, n) = repeal_outcome(strikes, author, strike_number).unwrap();
            repeal_outcome(after, next_author, Some(n)) == Err::<(Seq<Strike>, usize), StrikeError>(StrikeError::AlreadyRepealed(n))
        }),
{
}

/// A repealed strike leaves the usual history, and the history of all
/// strikes still lists it.
pub proof fn lemma_repealed_strike_leaves_history(strikes: Seq<Strike>, author: u64, strike_number: Option<usize>, now: Timestamp)
    requires
        strikes.len() <= usize::MAX,
        repeal_outcome(strikes, author, strike_number) is Ok,
    ensures
        ({
            let (after, n) = repeal_outcome(strikes, author, strike_number).unwrap();
            !shown(after[n - 1], now, false) && shown(after[n - 1], now, true)
        }),
{
}

/// A strike that was just given and has not expired is listed: the
/// history is no longer clean, with or without the expired and repealed ones.
pub proof fn lemma_given_strike_is_listed(strikes: Seq<Strike>, given: Strike, now: Timestamp, all: bool)
    requires
        given.repealer is None,
        !expired(given, now),
    ensures
        !history_clean(strikes.push(given), now, all),
{
    assert(strikes.push(given)[strikes.len() as int] == given);
}

/// Asked for all strikes, the history is clean only for a user without any.
pub proof fn lemma_full_history_clean_iff_no_strikes(strikes: Seq<Strike>, now: Timestamp)
    ensures
        history_clean(strikes, now, true) <==> strikes.len() == 0,
{
    if strikes.len() > 0 {
        assert(shown(strikes[0], now, true));
    }
}

/// The number a strike carries in the history is the number that repeals
/// it: when strike `n` is listed, the history's lines up to it end with its
/// entry "#n", and repealing number `n` repeals that very strike.
pub proof fn lemma_history_number_is_repeal_number(
    strikes: Seq<Strike>,
    user: u64,
    now: Timestamp,
    all: bool,
    n: usize,
    author: u64,
)
    requires
        1 <= n <= strikes.len(),
        shown(strikes[n - 1], now, all),
        strikes[n - 1].repealer is None,
    ensures
        ({
            let lines = history_lines(strikes, user, now, all, n as nat);
            let entry = history_entry(strikes[n - 1], user, n as nat);
            lines.subrange(lines.len() - entry.len(), lines.len() as int) == entry
        }),
        repeal_outcome(strikes, author, Some(n)) == Ok::<(Seq<Strike>, usize), StrikeError>(
            (strikes.update(n - 1, Strike { repealer: Some(author), ..strikes[n - 1] }), n),
        ),
{
    let lines = history_lines(strikes, user, now, all, n as nat);
    let entry = history_entry(strikes[n - 1], user, n as nat);
    assert(lines.subrange(lines.len() - entry.len(), lines.len() as int) =~= entry);
}

/// A strike has expired at `now` exactly when it has an expiration and that
/// instant is not after `now`: its second is earlier than now's, or it is
/// the same second and its nanoseconds are not more than now's. So an
/// expiration in an earlier second has expired whatever the nanoseconds,
/// and one in a later second has not.
pub proof fn lemma_expired_exactly_when_expiration_passed(s: Strike, now: Timestamp)
    ensures
        expired(s, now) <==> (s.expiration matches Some(e) && (e.secs < now.secs || (e.secs == now.secs
            && e.nanos <= now.nanos))),
        s.expiration matches Some(e) && e.secs < now.secs ==> expired(s, now),
        s.expiration matches Some(e) && e.secs > now.secs ==> !expired(s, now),
{
}

/// Once a strike has expired it stays expired at every later instant.
pub proof fn lemma_expired_stays_expired(s: Strike, now: Timestamp, later: Timestamp)
    requires
        expired(s, now),
        now.secs < later.secs || (now.secs == later.secs && now.nanos <= later.nanos),
    ensures
        expired(s, later),
{
}

/// Measured in nanoseconds since the epoch (for instants whose nanoseconds
/// lie within their second), a strike has expired exactly when its
/// expiration is not later than `now`.
pub proof fn lemma_expired_by_elapsed_time(s: Strike, now: Timestamp)
    requires
        now.nanos < 1_000_000_000,
        s.expiration matches Some(e) && e.nanos < 1_000_000_000,
    ensures
        expired(s, now) <==> ({
            let e = s.expiration.unwrap();
            e.secs * 1_000_000_000 + e.nanos <= now.secs * 1_000_000_000 + now.nanos
        }),
{
    let e = s.expiration.unwrap();
    if e.secs < now.secs {
        assert(e.secs * 1_000_000_000 + 1_000_000_000 <= now.secs * 1_000_000_000) by (nonlinear_arith)
            requires e.secs < now.secs;
    } else if e.secs > now.secs {
        assert(now.secs * 1_000_000_000 + 1_000_000_000 <= e.secs * 1_000_000_000) by (nonlinear_arith)
            requires now.secs < e.secs;
    }
}

/// What occurs in the part of a strike's sentence after its first letter
/// occurs in the whole sentence.
proof fn lemma_ave_within_strike_text(s: Strike, user: u64, with_issuer: bool, with_issued: bool, piece: Seq<char>)
    requires
        contains_text(ave_text(s, user, with_issued), piece),
    ensures
        contains_text(strike_text(s, user, with_issuer, with_issued), piece),
{
    let ave = ave_text(s, user, with_issued);
    let lead = if with_issuer { mention(s.issuer) + " g"@ } else { "G"@ };
    let message = lead + ave;
    let empty = Seq::<char>::empty();
    lemma_contains_within(ave, piece, lead, empty);
    assert(lead + ave + empty =~= message);
    match s.repealer {
        Some(r) => {
            lemma_contains_within(message, piece, "~~"@, "~~ **repealed** by "@ + mention(r));
            assert("~~"@ + message + ("~~ **repealed** by "@ + mention(r)) =~= strike_text(s, user, with_issuer, with_issued));
        },
        None => {
            lemma_contains_within(message, piece, empty, empty);
            assert(empty + message + empty =~= strike_text(s, user, with_issuer, with_issued));
        },
    }
}

/// The sentence about a strike always names the user who got it, with the
/// date it was given when asked for.
pub proof fn lemma_strike_text_names_the_user(s: Strike, user: u64, with_issuer: bool, with_issued: bool)
    ensures
        contains_text(strike_text(s, user, with_issuer, with_issued), mention(user)),
        with_issued ==> contains_text(
            strike_text(s, user, with_issuer, with_issued),
            " on <t:"@ + signed_decimal(s.issued.secs as int) + ":d>"@,
        ),
{
    let issued = issued_text(s, with_issued);
    let tail = rule_text(s) + comment_text(s) + expiration_text(s);
    assert(ave_text(s, user, with_issued) =~= "ave "@ + mention(user) + (" a strike"@ + issued + tail));
    lemma_contains_middle("ave "@, mention(user), " a strike"@ + issued + tail);
    lemma_ave_within_strike_text(s, user, with_issuer, with_issued, mention(user));
    assert(ave_text(s, user, with_issued) =~= ("ave "@ + mention(user) + " a strike"@) + issued + tail);
    lemma_contains_middle("ave "@ + mention(user) + " a strike"@, issued, tail);
    lemma_ave_within_strike_text(s, user, with_issuer, with_issued, issued);
}

/// Each detail a strike carries appears in its sentence in a phrase of its
/// own, whatever else the strike holds: the rule, the comment and the
/// expiration.
pub proof fn lemma_strike_text_names_its_details(s: Strike, user: u64, with_issuer: bool, with_issued: bool)
    ensures
        s.rule matches Some(r) ==> contains_text(
            strike_text(s, user, with_issuer, with_issued),
            " for breaking **rule "@ + r@ + "**"@,
        ),
        s.comment matches Some(c) ==> contains_text(
            strike_text(s, user, with_issuer, with_issued),
            " with comment **\""@ + c@ + "\"**"@,
        ),
        s.expiration matches Some(e) ==> contains_text(
            strike_text(s, user, with_issuer, with_issued),
            " which expires <t:"@ + signed_decimal(e.secs as int) + ":R>"@,
        ),
{
    let head = "ave "@ + mention(user) + " a strike"@ + issued_text(s, with_issued);
    let rule = rule_text(s);
    let comment = comment_text(s);
    let expiration = expiration_text(s);
    let empty = Seq::<char>::empty();
    assert(ave_text(s, user, with_issued) =~= head + rule + (comment + expiration));
    lemma_contains_middle(head, rule, comment + expiration);
    lemma_ave_within_strike_text(s, user, with_issuer, with_issued, rule);
    assert(ave_text(s, user, with_issued) =~= (head + rule) + comment + expiration);
    lemma_contains_middle(head + rule, comment, expiration);
    lemma_ave_within_strike_text(s, user, with_issuer, with_issued, comment);
    assert(ave_text(s, user, with_issued) =~= (head + rule + comment) + expiration + empty);
    lemma_contains_middle(head + rule + comment, expiration, empty);
    lemma_ave_within_strike_text(s, user, with_issuer, with_issued, expiration);
}

/// The sentence names the issuer when asked for, and a repealed strike's
/// sentence names who repealed it.
pub proof fn lemma_strike_text_names_issuer_and_repealer(s: Strike, user: u64, with_issuer: bool, with_issued: bool)
    ensures
        with_issuer ==> contains_text(strike_text(s, user, with_issuer, with_issued), mention(s.issuer)),
        s.repealer matches Some(r) ==> contains_text(strike_text(s, user, with_issuer, with_issued), mention(r)),
{
    let ave = ave_text(s, user, with_issued);
    let empty = Seq::<char>::empty();
    if with_issuer {
        let message = mention(s.issuer) + " g"@ + ave;
        assert(message =~= empty + mention(s.issuer) + (" g"@ + ave));
        lemma_contains_middle(empty, mention(s.issuer), " g"@ + ave);
        match s.repealer {
            Some(r) => {
                lemma_contains_within(message, mention(s.issuer), "~~"@, "~~ **repealed** by "@ + mention(r));
                assert("~~"@ + message + ("~~ **repealed** by "@ + mention(r)) =~= strike_text(s, user, with_issuer, with_issued));
            },
            None => {
                lemma_contains_within(message, mention(s.issuer), empty, empty);
                assert(empty + message + empty =~= strike_text(s, user, with_issuer, with_issued));
            },
        }
    }
    if let Some(r) = s.repealer {
        let message = if with_issuer { mention(s.issuer) + " g"@ + ave } else { "G"@ + ave };
        assert(strike_text(s, user, with_issuer, with_issued) =~= ("~~"@ + message + "~~ **repealed** by "@) + mention(r) + empty);
        lemma_contains_middle("~~"@ + message + "~~ **repealed** by "@, mention(r), empty);
    }
}

/// The history's lines for the first `count` strikes begin with its lines for
/// any fewer of them: later strikes only add to the end.
pub proof fn lemma_history_lines_extend(
    strikes: Seq<Strike>,
    user: u64,
    now: Timestamp,
    all: bool,
    fewer: nat,
    count: nat,
) -> (rest: Seq<char>)
    requires
        fewer <= count <= strikes.len(),
    ensures
        history_lines(strikes, user, now, all, count) == history_lines(strikes, user, now, all, fewer) + rest,
    decreases count,
{
    if count == fewer {
        assert(history_lines(strikes, user, now, all, count) =~= history_lines(strikes, user, now, all, fewer)
            + Seq::<char>::empty());
        Seq::empty()
    } else {
        let i = (count - 1) as nat;
        let rest = lemma_history_lines_extend(strikes, user, now, all, fewer, i);
        let added = if shown(strikes[i as int], now, all) {
            (if i != 0 { "\n"@ } else { Seq::<char>::empty() }) + history_entry(strikes[i as int], user, count)
        } else {
            Seq::<char>::empty()
        };
        assert(history_lines(strikes, user, now, all, count) =~= history_lines(strikes, user, now, all, fewer)
            + (rest + added));
        rest + added
    }
}

/// The history lists every strike it shows, in the order of the strikes:
/// each shown strike's entry occurs in it, and for two shown strikes the
/// earlier one's entry comes first, the later one's on a line of its own.
pub proof fn lemma_history_lists_shown_strikes_in_order(
    strikes: Seq<Strike>,
    user: u64,
    now: Timestamp,
    all: bool,
    i: int,
    j: int,
)
    requires
        0 <= i < j < strikes.len(),
        shown(strikes[i], now, all),
        shown(strikes[j], now, all),
    ensures
        !history_clean(strikes, now, all),
        contains_text(history_text(strikes, user, now, all), history_entry(strikes[i], user, (i + 1) as nat)),
        contains_text(history_text(strikes, user, now, all), history_entry(strikes[j], user, (j + 1) as nat)),
        appear_in_order(
            history_text(strikes, user, now, all),
            history_entry(strikes[i], user, (i + 1) as nat),
            "\n"@ + history_entry(strikes[j], user, (j + 1) as nat),
        ),
{
    let entry_i = history_entry(strikes[i], user, (i + 1) as nat);
    let entry_j = history_entry(strikes[j], user, (j + 1) as nat);
    let lines_i = history_lines(strikes, user, now, all, i as nat);
    let sep_i = if i != 0 { "\n"@ } else { Seq::<char>::empty() };
    assert(history_lines(strikes, user, now, all, (i + 1) as nat) == lines_i + sep_i + entry_i);
    let mid = lemma_history_lines_extend(strikes, user, now, all, (i + 1) as nat, j as nat);
    assert(history_lines(strikes, user, now, all, (j + 1) as nat)
        == history_lines(strikes, user, now, all, j as nat) + "\n"@ + entry_j);
    let tail = lemma_history_lines_extend(strikes, user, now, all, (j + 1) as nat, strikes.len());
    lemma_history_lists_each_shown_strike(strikes, user, now, all, i);
    lemma_history_lists_each_shown_strike(strikes, user, now, all, j);
    let text = history_text(strikes, user, now, all);
    assert(text == history_lines(strikes, user, now, all, strikes.len()));
    let before = lines_i + sep_i;
    let second = "\n"@ + entry_j;
    assert(before + entry_i + mid + second + tail =~= text);
}

/// A strike the history shows has its entry in the history.
pub proof fn lemma_history_lists_each_shown_strike(
    strikes: Seq<Strike>,
    user: u64,
    now: Timestamp,
    all: bool,
    i: int,
)
    requires
        0 <= i < strikes.len(),
        shown(strikes[i], now, all),
    ensures
        !history_clean(strikes, now, all),
        contains_text(history_text(strikes, user, now, all), history_entry(strikes[i], user, (i + 1) as nat)),
{
    let entry_i = history_entry(strikes[i], user, (i + 1) as nat);
    let lines_i = history_lines(strikes, user, now, all, i as nat);
    let sep_i = if i != 0 { "\n"@ } else { Seq::<char>::empty() };
    assert(history_lines(strikes, user, now, all, (i + 1) as nat) == lines_i + sep_i + entry_i);
    let tail = lemma_history_lines_extend(strikes, user, now, all, (i + 1) as nat, strikes.len());
    assert(!history_clean(strikes, now, all));
    let text = history_text(strikes, user, now, all);
    assert((lines_i + sep_i) + entry_i + tail =~= text);
    lemma_contains_middle(lines_i + sep_i, entry_i, tail);
}

/// A strike given to expire after a positive number of months has not
/// expired at the instant it was given: its expiration lies strictly later.
pub proof fn lemma_expiring_strike_not_expired_when_given(s: Strike, months: u32)
    requires
        months > 0,
        s.expiration matches Some(e) && lands_months_later(s.issued, months, e),
    ensures
        !expired(s, s.issued),
        s.expiration.unwrap().secs > s.issued.secs,
{
    lemma_calendar_months_later_is_later(s.issued, months, s.expiration.unwrap());
}

} // verus!
