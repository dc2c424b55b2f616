//! Command-usage analytics: for each command of the bot, the instants at
//! which it was invoked during the last day.

use vstd::prelude::*;
use crate::time::{clock_now, nanos_between, Timestamp, NANOS_PER_DAY};

verus! {

/// The invocations of one command.
pub struct CommandUsage {
    pub command: String,
    pub invocations: Vec<Timestamp>,
}

/// Whether no command occurs twice in `usages`.
pub open spec fn distinct_commands(usages: Seq<CommandUsage>) -> bool {
    forall|i: int, j: int|
        0 <= i < usages.len() && 0 <= j < usages.len() && i != j ==> #[trigger] usages[i].command@
            != #[trigger] usages[j].command@
}

/// Whether `command` occurs in `usages`.
pub open spec fn has_command(usages: Seq<CommandUsage>, command: Seq<char>) -> bool {
    exists|i: int| 0 <= i < usages.len() && #[trigger] usages[i].command@ == command
}

/// The map from each command of `usages` to its invocations.
pub open spec fn usage_map(usages: Seq<CommandUsage>) -> Map<Seq<char>, Seq<Timestamp>> {
    Map::new(
        |command: Seq<char>| has_command(usages, command),
        |command: Seq<char>|
            usages[choose|i: int| 0 <= i < usages.len() && #[trigger] usages[i].command@ == command].invocations@,
    )
}

/// In a list without repeated commands, each entry is what the map holds
/// for its command.
pub proof fn lemma_usage_map_entry(usages: Seq<CommandUsage>, i: int)
    requires
        distinct_commands(usages),
        0 <= i < usages.len(),
    ensures
        usage_map(usages).contains_key(usages[i].command@),
        usage_map(usages)[usages[i].command@] == usages[i].invocations@,
{
    let command = usages[i].command@;
    assert(has_command(usages, command));
    let j = choose|j: int| 0 <= j < usages.len() && #[trigger] usages[j].command@ == command;
    assert(j == i);
}

/// Adding an entry for a new command adds that command to the map.
proof fn lemma_usage_map_push(usages: Seq<CommandUsage>, usage: CommandUsage)
    requires
        distinct_commands(usages),
        !has_command(usages, usage.command@),
    ensures
        distinct_commands(usages.push(usage)),
        usage_map(usages.push(usage)) == usage_map(usages).insert(usage.command@, usage.invocations@),
{
    let after = usages.push(usage);
    assert forall|i: int, j: int|
        0 <= i < after.len() && 0 <= j < after.len() && i != j implies #[trigger] after[i].command@
            != #[trigger] after[j].command@ by {
        if i == usages.len() as int {
            assert(usages[j] == after[j]);
        } else if j == usages.len() as int {
            assert(usages[i] == after[i]);
        } else {
            assert(usages[i] == after[i] && usages[j] == after[j]);
        }
    }
    let expected = usage_map(usages).insert(usage.command@, usage.invocations@);
    assert forall|command: Seq<char>| #[trigger] usage_map(after).contains_key(command)
        <==> expected.contains_key(command) by {
        if has_command(after, command) {
            let i = choose|i: int| 0 <= i < after.len() && #[trigger] after[i].command@ == command;
            if i < usages.len() {
                assert(usages[i] == after[i]);
                assert(has_command(usages, command));
            }
        }
        if has_command(usages, command) {
            let i = choose|i: int| 0 <= i < usages.len() && #[trigger] usages[i].command@ == command;
            assert(after[i] == usages[i]);
            assert(has_command(after, command));
        }
        if command == usage.command@ {
            assert(after[usages.len() as int] == usage);
            assert(has_command(after, command));
        }
    }
    assert forall|command: Seq<char>| #[trigger] usage_map(after).contains_key(command)
        implies usage_map(after)[command] == expected[command] by {
        let i = choose|i: int| 0 <= i < after.len() && #[trigger] after[i].command@ == command;
        lemma_usage_map_entry(after, i);
        if i < usages.len() {
            assert(usages[i] == after[i]);
            lemma_usage_map_entry(usages, i);
        }
    }
    assert(usage_map(after) =~= expected);
}

/// Replacing the entry of a command changes that command's invocations only.
proof fn lemma_usage_map_update(usages: Seq<CommandUsage>, i: int, usage: CommandUsage)
    requires
        distinct_commands(usages),
        0 <= i < usages.len(),
        usages[i].command@ == usage.command@,
    ensures
        distinct_commands(usages.update(i, usage)),
        usage_map(usages.update(i, usage)) == usage_map(usages).insert(usage.command@, usage.invocations@),
{
    let after = usages.update(i, usage);
    assert forall|a: int, b: int|
        0 <= a < after.len() && 0 <= b < after.len() && a != b implies #[trigger] after[a].command@
            != #[trigger] after[b].command@ by {
        assert(after[a].command@ == usages[a].command@);
        assert(after[b].command@ == usages[b].command@);
    }
    let expected = usage_map(usages).insert(usage.command@, usage.invocations@);
    lemma_usage_map_entry(usages, i);
    assert forall|command: Seq<char>| #[trigger] usage_map(after).contains_key(command)
        <==> expected.contains_key(command) by {
        if has_command(after, command) {
            let j = choose|j: int| 0 <= j < after.len() && #[trigger] after[j].command@ == command;
            assert(usages[j].command@ == command);
            assert(has_command(usages, command));
        }
        if has_command(usages, command) {
            let j = choose|j: int| 0 <= j < usages.len() && #[trigger] usages[j].command@ == command;
            assert(after[j].command@ == command);
            assert(has_command(after, command));
        }
    }
    assert forall|command: Seq<char>| #[trigger] usage_map(after).contains_key(command)
        implies usage_map(after)[command] == expected[command] by {
        let j = choose|j: int| 0 <= j < after.len() && #[trigger] after[j].command@ == command;
        lemma_usage_map_entry(after, j);
        if j != i {
            assert(usages[j] == after[j]);
            lemma_usage_map_entry(usages, j);
        }
    }
    assert(usage_map(after) =~= expected);
}

/// The invocations `m` holds for `command`, none when it has no entry.
pub open spec fn invocations_or_none(m: Map<Seq<char>, Seq<Timestamp>>, command: Seq<char>) -> Seq<Timestamp> {
    if m.contains_key(command) {
        m[command]
    } else {
        Seq::empty()
    }
}

/// For each command of the bot, when it was invoked; no command occurs twice.
pub struct Analytics {
    usages: Vec<CommandUsage>,
}

impl View for Analytics {
    type V = Map<Seq<char>, Seq<Timestamp>>;

    closed spec fn view(&self) -> Map<Seq<char>, Seq<Timestamp>> {
        usage_map(self.usages@)
    }
}

impl Analytics {
    #[verifier::type_invariant]
    closed spec fn commands_distinct(&self) -> bool {
        distinct_commands(self.usages@)
    }

    /// No command and no invocation.
    pub fn new() -> (a: Analytics)
        ensures
            a@ == Map::<Seq<char>, Seq<Timestamp>>::empty(),
    {
        let a = Analytics { usages: Vec::new() };
        assert(a@ =~= Map::<Seq<char>, Seq<Timestamp>>::empty());
        a
    }

    /// The list of commands with their invocations, each command once.
    pub fn usages(&self) -> (r: &Vec<CommandUsage>)
        ensures
            distinct_commands(r@),
            usage_map(r@) == self@,
    {
        proof { use_type_invariant(self); }
        &self.usages
    }
}

impl Analytics {
    /// Sets the invocations of `command`, in place of any it had.
    pub fn set_invocations(&mut self, command: String, invocations: Vec<Timestamp>)
        ensures
            final(self)@ == old(self)@.insert(command@, invocations@),
    {
        proof { use_type_invariant(&*self); }
        let mut usages: Vec<CommandUsage> = Vec::new();
        std::mem::swap(&mut usages, &mut self.usages);
        let ghost before = usages@;
        let usage = CommandUsage { command, invocations };
        match find_command(&usages, &usage.command) {
            Some(i) => {
                usages.set(i, usage);
                proof { lemma_usage_map_update(before, i as int, usage); }
            },
            None => {
                usages.push(usage);
                proof { lemma_usage_map_push(before, usage); }
            },
        }
        self.usages = usages;
    }

    /// The invocations of `command`, if it has an entry.
    pub fn invocations_of(&self, command: &String) -> (r: Option<&Vec<Timestamp>>)
        ensures
            match r {
                Some(v) => self@.contains_key(command@) && v@ == self@[command@],
                None => !self@.contains_key(command@),
            },
    {
        proof { use_type_invariant(self); }
        match find_command(&self.usages, command) {
            Some(i) => {
                proof { lemma_usage_map_entry(self.usages@, i as int); }
                Some(&self.usages[i].invocations)
            },
            None => None,
        }
    }

    /// Records that `command` was invoked at `at`: the instant goes after
    /// the command's earlier invocations, and a command without an entry
    /// gets one.
    pub fn record_invocation(&mut self, command: String, at: Timestamp)
        ensures
            final(self)@ == old(self)@.insert(command@, invocations_or_none(old(self)@, command@).push(at)),
    {
        proof { use_type_invariant(&*self); }
        let mut usages: Vec<CommandUsage> = Vec::new();
        std::mem::swap(&mut usages, &mut self.usages);
        let ghost before = usages@;
        match find_command(&usages, &command) {
            Some(i) => {
                let mut usage = usages.remove(i);
                proof { lemma_usage_map_entry(before, i as int); }
                usage.invocations.push(at);
                usages.insert(i, usage);
                proof {
                    assert(usages@ =~= before.update(i as int, usage));
                    lemma_usage_map_update(before, i as int, usage);
                }
            },
            None => {
                let mut invocations: Vec<Timestamp> = Vec::new();
                invocations.push(at);
                let usage = CommandUsage { command, invocations };
                usages.push(usage);
                proof {
                    assert(invocations@ =~= Seq::<Timestamp>::empty().push(at));
                    lemma_usage_map_push(before, usage);
                }
            },
        }
        self.usages = usages;
    }
}

/// The command an invocation is counted under: the root of the chain of
/// parent commands (the first of `parents`), else the command itself.
pub fn root_command(parents: &Vec<String>, command: &String) -> (r: String)
    ensures
        parents.len() > 0 ==> r@ == parents@[0]@,
        parents.len() == 0 ==> r@ == command@,
{
    if parents.len() > 0 {
        parents[0].clone()
    } else {
        command.clone()
    }
}

/// The label of `command` on the usage chart: `/command`.
pub fn chart_label(command: &String) -> (r: String)
    ensures
        r@ == "/"@ + command@,
{
    let mut r = String::from_str("/");
    r.append(command.as_str());
    r
}

/// Whether invocation `t` lies at most one day (24 hours) before `now`, as
/// the analytics count them.
pub open spec fn within_last_day(t: Timestamp, now: Timestamp) -> bool {
    nanos_between(t, now) <= NANOS_PER_DAY
}

/// The invocations of `invocations` from the last day before `now`, in
/// their order.
pub open spec fn recent(invocations: Seq<Timestamp>, now: Timestamp) -> Seq<Timestamp>
    decreases invocations.len(),
{
    if invocations.len() == 0 {
        Seq::empty()
    } else {
        let before = recent(invocations.drop_last(), now);
        if within_last_day(invocations.last(), now) {
            before.push(invocations.last())
        } else {
            before
        }
    }
}

/// The names in `commands`, as a set.
pub open spec fn command_set(commands: Seq<String>) -> Set<Seq<char>> {
    Set::new(|command: Seq<char>| exists|i: int| 0 <= i < commands.len() && #[trigger] commands[i]@ == command)
}

/// Analytics `m` brought up to date at `now` for the bot's `commands`: every
/// command has an entry, commands that no longer exist lose theirs, and only
/// the invocations of the last day remain.
pub open spec fn refreshed(
    m: Map<Seq<char>, Seq<Timestamp>>,
    commands: Set<Seq<char>>,
    now: Timestamp,
) -> Map<Seq<char>, Seq<Timestamp>> {
    Map::new(
        |command: Seq<char>| commands.contains(command),
        |command: Seq<char>| recent(invocations_or_none(m, command), now),
    )
}

/// Analytics `m` after an invocation of `command` at `now`: brought up to
/// date for `commands`, then with `now` added to the command's invocations.
pub open spec fn incremented(
    m: Map<Seq<char>, Seq<Timestamp>>,
    commands: Set<Seq<char>>,
    command: Seq<char>,
    now: Timestamp,
) -> Map<Seq<char>, Seq<Timestamp>> {
    let current = refreshed(m, commands, now);
    current.insert(command, invocations_or_none(current, command).push(now))
}

proof fn lemma_command_set_take(commands: Seq<String>, i: int)
    requires
        0 <= i < commands.len(),
    ensures
        command_set(commands.take(i + 1)) == command_set(commands.take(i)).insert(commands[i]@),
{
    let longer = commands.take(i + 1);
    let shorter = commands.take(i);
    assert forall|command: Seq<char>| #[trigger] command_set(longer).contains(command)
        <==> command_set(shorter).insert(commands[i]@).contains(command) by {
        if command_set(longer).contains(command) {
            let j = choose|j: int| 0 <= j < longer.len() && #[trigger] longer[j]@ == command;
            if j < i {
                assert(shorter[j] == longer[j]);
            }
        }
        if command_set(shorter).contains(command) {
            let j = choose|j: int| 0 <= j < shorter.len() && #[trigger] shorter[j]@ == command;
            assert(longer[j] == shorter[j]);
        }
        if command == commands[i]@ {
            assert(longer[i] == commands[i]);
        }
    }
    assert(command_set(longer) =~= command_set(shorter).insert(commands[i]@));
}

/// The invocations of `invocations` from the last day before `now`.
fn keep_recent(invocations: &Vec<Timestamp>, now: &Timestamp) -> (r: Vec<Timestamp>)
    ensures
        r@ == recent(invocations@, *now),
{
    let mut kept: Vec<Timestamp> = Vec::new();
    let mut i: usize = 0;
    while i < invocations.len()
        invariant
            i <= invocations.len(),
            kept@ == recent(invocations@.take(i as int), *now),
        decreases invocations.len() - i,
    {
        let t = invocations[i];
        proof {
            assert(invocations@.take(i + 1).drop_last() =~= invocations@.take(i as int));
            assert(invocations@.take(i + 1).last() == t);
        }
        if t.is_within_a_day_of(now) {
            kept.push(t);
        }
        i += 1;
    }
    proof {
        assert(invocations@.take(invocations.len() as int) =~= invocations@);
    }
    kept
}

impl Analytics {
    /// These analytics brought up to date at `now` for the bot's current
    /// `commands` (see `refreshed`).
    pub fn refresh_at(&self, commands: &Vec<String>, now: Timestamp) -> (r: Analytics)
        ensures
            r@ == refreshed(self@, command_set(commands@), now),
    {
        proof { use_type_invariant(self); }
        let mut usages: Vec<CommandUsage> = Vec::new();
        let mut i: usize = 0;
        proof {
            assert(usage_map(usages@) =~= refreshed(self@, command_set(commands@.take(0)), now));
        }
        while i < commands.len()
            invariant
                i <= commands.len(),
                distinct_commands(self.usages@),
                distinct_commands(usages@),
                usage_map(usages@) == refreshed(self@, command_set(commands@.take(i as int)), now),
            decreases commands.len() - i,
        {
            let command = &commands[i];
            proof { lemma_command_set_take(commands@, i as int); }
            match find_command(&usages, command) {
                Some(k) => {
                    proof {
                        lemma_usage_map_entry(usages@, k as int);
                        assert(command_set(commands@.take(i + 1)) =~= command_set(commands@.take(i as int)));
                    }
                },
                None => {
                    let kept = match find_command(&self.usages, command) {
                        Some(j) => {
                            proof { lemma_usage_map_entry(self.usages@, j as int); }
                            keep_recent(&self.usages[j].invocations, &now)
                        },
                        None => Vec::new(),
                    };
                    let usage = CommandUsage { command: command.clone(), invocations: kept };
                    let ghost before = usages@;
                    usages.push(usage);
                    proof {
                        if !self@.contains_key(command@) {
                            assert(kept@ =~= recent(Seq::<Timestamp>::empty(), now));
                        }
                        lemma_usage_map_push(before, usage);
                        assert(usage_map(usages@) =~= refreshed(self@, command_set(commands@.take(i + 1)), now));
                    }
                },
            }
            i += 1;
        }
        proof {
            assert(commands@.take(commands.len() as int) =~= commands@);
        }
        Analytics { usages }
    }

    /// These analytics brought up to date now (the instant is read from the
    /// clock) for the bot's current `commands`.
    pub fn load(&self, commands: &Vec<String>) -> (r: Analytics)
        ensures
            exists|now: Timestamp| r@ == #[trigger] refreshed(self@, command_set(commands@), now),
    {
        let now = clock_now();
        self.refresh_at(commands, now)
    }

    /// Counts an invocation of `command` at `now`: the analytics are first
    /// brought up to date for the bot's `commands`, then the invocation is
    /// recorded.
    pub fn increment_at(&self, commands: &Vec<String>, command: String, now: Timestamp) -> (r: Analytics)
        ensures
            r@ == incremented(self@, command_set(commands@), command@, now),
    {
        let mut r = self.refresh_at(commands, now);
        r.record_invocation(command, now);
        r
    }

    /// Counts an invocation of `command` now (the instant is read from the
    /// clock).
    pub fn increment(&self, commands: &Vec<String>, command: String) -> (r: Analytics)
        ensures
            exists|now: Timestamp| r@ == #[trigger] incremented(self@, command_set(commands@), command@, now),
    {
        let now = clock_now();
        self.increment_at(commands, command, now)
    }
}

/// Whether `ranking` lists every command of `m` exactly once, each with its
/// number of invocations, from the most invoked command to the least.
pub open spec fn is_ranking(ranking: Seq<(String, usize)>, m: Map<Seq<char>, Seq<Timestamp>>) -> bool {
    &&& forall|i: int| 0 <= i < ranking.len() ==> m.contains_key(#[trigger] ranking[i].0@)
        && ranking[i].1 == m[ranking[i].0@].len()
    &&& forall|command: Seq<char>| #[trigger] m.contains_key(command) ==> exists|i: int|
        0 <= i < ranking.len() && #[trigger] ranking[i].0@ == command
    &&& forall|i: int, j: int| 0 <= i < j < ranking.len() ==> #[trigger] ranking[i].0@ != #[trigger] ranking[j].0@
    &&& forall|i: int, j: int| 0 <= i < j < ranking.len() ==> #[trigger] ranking[i].1 >= #[trigger] ranking[j].1
}

/// Whether `entry` is the command of `usage` with its number of invocations.
pub open spec fn describes(entry: (String, usize), usage: CommandUsage) -> bool {
    entry.0@ == usage.command@ && entry.1 == usage.invocations@.len()
}

/// Whether `sorted` ranks the first `count` entries of `usages`: each of
/// them appears in it once, with its number of invocations, and nothing else
/// does; the numbers do not increase along `sorted`.
pub open spec fn ranks_prefix(sorted: Seq<(String, usize)>, usages: Seq<CommandUsage>, count: int) -> bool {
    &&& sorted.len() == count
    &&& entries_described(sorted, usages, count)
    &&& entries_covered(sorted, usages, count)
    &&& forall|p: int, q: int| 0 <= p < q < sorted.len() ==> #[trigger] sorted[p].0@ != #[trigger] sorted[q].0@
    &&& forall|p: int, q: int| 0 <= p < q < sorted.len() ==> #[trigger] sorted[p].1 >= #[trigger] sorted[q].1
}

/// Whether `entry` describes one of the first `count` usages.
pub open spec fn described_in(entry: (String, usize), usages: Seq<CommandUsage>, count: int) -> bool {
    exists|k: int| 0 <= k < count && #[trigger] describes(entry, usages[k])
}

/// Whether `usage` is described by some entry of `sorted`.
pub open spec fn covered_in(usage: CommandUsage, sorted: Seq<(String, usize)>) -> bool {
    exists|p: int| 0 <= p < sorted.len() && #[trigger] describes(sorted[p], usage)
}

/// Whether each entry of `sorted` describes one of the first `count` usages.
pub open spec fn entries_described(sorted: Seq<(String, usize)>, usages: Seq<CommandUsage>, count: int) -> bool {
    forall|p: int| 0 <= p < sorted.len() ==> described_in(#[trigger] sorted[p], usages, count)
}

/// Whether each of the first `count` usages is described in `sorted`.
pub open spec fn entries_covered(sorted: Seq<(String, usize)>, usages: Seq<CommandUsage>, count: int) -> bool {
    forall|k: int| 0 <= k < count ==> covered_in(#[trigger] usages[k], sorted)
}

proof fn lemma_rank_insert(
    old_sorted: Seq<(String, usize)>,
    usages: Seq<CommandUsage>,
    i: int,
    pos: int,
    entry: (String, usize),
)
    requires
        0 <= i < usages.len(),
        distinct_commands(usages),
        ranks_prefix(old_sorted, usages, i),
        describes(entry, usages[i]),
        0 <= pos <= old_sorted.len(),
        forall|q: int| 0 <= q < pos ==> #[trigger] old_sorted[q].1 >= entry.1,
        pos < old_sorted.len() ==> old_sorted[pos].1 < entry.1,
    ensures
        ranks_prefix(old_sorted.insert(pos, entry), usages, i + 1),
{
    old_sorted.insert_ensures(pos, entry);
    let sorted = old_sorted.insert(pos, entry);
    lemma_rank_insert_describes(old_sorted, sorted, usages, i, pos, entry);
    lemma_rank_insert_covers(old_sorted, sorted, usages, i, pos, entry);
    lemma_rank_insert_distinct(old_sorted, sorted, usages, i, pos, entry);
    lemma_rank_insert_ordered(old_sorted, sorted, pos, entry);
}

proof fn lemma_rank_insert_describes(
    old_sorted: Seq<(String, usize)>,
    sorted: Seq<(String, usize)>,
    usages: Seq<CommandUsage>,
    i: int,
    pos: int,
    entry: (String, usize),
)
    requires
        0 <= i < usages.len(),
        entries_described(old_sorted, usages, i),
        describes(entry, usages[i]),
        0 <= pos <= old_sorted.len(),
        sorted == old_sorted.insert(pos, entry),
    ensures
        entries_described(sorted, usages, i + 1),
{
    old_sorted.insert_ensures(pos, entry);
    assert forall|p: int| 0 <= p < sorted.len() implies described_in(#[trigger] sorted[p], usages, i + 1) by {
        let k = lemma_rank_insert_describes_one(old_sorted, sorted, usages, i, pos, entry, p);
    }
}

proof fn lemma_rank_insert_describes_one(
    old_sorted: Seq<(String, usize)>,
    sorted: Seq<(String, usize)>,
    usages: Seq<CommandUsage>,
    i: int,
    pos: int,
    entry: (String, usize),
    p: int,
) -> (k: int)
    requires
        0 <= i < usages.len(),
        entries_described(old_sorted, usages, i),
        describes(entry, usages[i]),
        0 <= pos <= old_sorted.len(),
        sorted == old_sorted.insert(pos, entry),
        0 <= p < sorted.len(),
    ensures
        0 <= k < i + 1,
        describes(sorted[p], usages[k]),
{
    old_sorted.insert_ensures(pos, entry);
    if p < pos {
        assert(sorted[p] == old_sorted[p]);
        assert(described_in(old_sorted[p], usages, i));
        let k = choose|k: int| 0 <= k < i && #[trigger] describes(old_sorted[p], usages[k]);
        k
    } else if p == pos {
        i
    } else {
        assert(sorted[p] == old_sorted[p - 1]);
        assert(described_in(old_sorted[p - 1], usages, i));
        let k = choose|k: int| 0 <= k < i && #[trigger] describes(old_sorted[p - 1], usages[k]);
        k
    }
}

proof fn lemma_rank_insert_covers(
    old_sorted: Seq<(String, usize)>,
    sorted: Seq<(String, usize)>,
    usages: Seq<CommandUsage>,
    i: int,
    pos: int,
    entry: (String, usize),
)
    requires
        0 <= i < usages.len(),
        entries_covered(old_sorted, usages, i),
        describes(entry, usages[i]),
        0 <= pos <= old_sorted.len(),
        sorted == old_sorted.insert(pos, entry),
    ensures
        entries_covered(sorted, usages, i + 1),
{
    old_sorted.insert_ensures(pos, entry);
    assert forall|k: int| 0 <= k < i + 1 implies covered_in(#[trigger] usages[k], sorted) by {
        if k == i {
            assert(describes(sorted[pos], usages[k]));
        } else {
            assert(covered_in(usages[k], old_sorted));
            let p = choose|p: int| 0 <= p < old_sorted.len() && #[trigger] describes(old_sorted[p], usages[k]);
            if p < pos {
                assert(sorted[p] == old_sorted[p]);
                assert(describes(sorted[p], usages[k]));
            } else {
                assert(sorted[p + 1] == old_sorted[p]);
                assert(describes(sorted[p + 1], usages[k]));
            }
        }
    }
}

proof fn lemma_rank_insert_distinct(
    old_sorted: Seq<(String, usize)>,
    sorted: Seq<(String, usize)>,
    usages: Seq<CommandUsage>,
    i: int,
    pos: int,
    entry: (String, usize),
)
    requires
        0 <= i < usages.len(),
        distinct_commands(usages),
        entries_described(old_sorted, usages, i),
        forall|p: int, q: int| 0 <= p < q < old_sorted.len() ==> #[trigger] old_sorted[p].0@
            != #[trigger] old_sorted[q].0@,
        describes(entry, usages[i]),
        0 <= pos <= old_sorted.len(),
        sorted == old_sorted.insert(pos, entry),
    ensures
        forall|p: int, q: int| 0 <= p < q < sorted.len() ==> #[trigger] sorted[p].0@ != #[trigger] sorted[q].0@,
{
    old_sorted.insert_ensures(pos, entry);
    assert forall|p: int| 0 <= p < old_sorted.len() implies #[trigger] old_sorted[p].0@ != entry.0@ by {
        assert(described_in(old_sorted[p], usages, i));
        let k = choose|k: int| 0 <= k < i && #[trigger] describes(old_sorted[p], usages[k]);
        assert(usages[k].command@ != usages[i].command@);
    }
    assert forall|p: int, q: int| 0 <= p < q < sorted.len() implies #[trigger] sorted[p].0@
        != #[trigger] sorted[q].0@ by {
        if q < pos {
            assert(sorted[p] == old_sorted[p] && sorted[q] == old_sorted[q]);
        } else if q == pos {
            assert(sorted[p] == old_sorted[p]);
        } else if p < pos {
            assert(sorted[p] == old_sorted[p] && sorted[q] == old_sorted[q - 1]);
        } else if p == pos {
            assert(sorted[q] == old_sorted[q - 1]);
        } else {
            assert(sorted[p] == old_sorted[p - 1] && sorted[q] == old_sorted[q - 1]);
        }
    }
}

proof fn lemma_rank_insert_ordered(
    old_sorted: Seq<(String, usize)>,
    sorted: Seq<(String, usize)>,
    pos: int,
    entry: (String, usize),
)
    requires
        forall|p: int, q: int| 0 <= p < q < old_sorted.len() ==> #[trigger] old_sorted[p].1
            >= #[trigger] old_sorted[q].1,
        0 <= pos <= old_sorted.len(),
        forall|q: int| 0 <= q < pos ==> #[trigger] old_sorted[q].1 >= entry.1,
        pos < old_sorted.len() ==> old_sorted[pos].1 < entry.1,
        sorted == old_sorted.insert(pos, entry),
    ensures
        forall|p: int, q: int| 0 <= p < q < sorted.len() ==> #[trigger] sorted[p].1 >= #[trigger] sorted[q].1,
{
    old_sorted.insert_ensures(pos, entry);
    assert forall|p: int, q: int| 0 <= p < q < sorted.len() implies #[trigger] sorted[p].1
        >= #[trigger] sorted[q].1 by {
        if q < pos {
            assert(sorted[p] == old_sorted[p] && sorted[q] == old_sorted[q]);
        } else if q == pos {
            assert(sorted[p] == old_sorted[p]);
        } else if p < pos {
            assert(sorted[p] == old_sorted[p] && sorted[q] == old_sorted[q - 1]);
        } else if p == pos {
            assert(sorted[q] == old_sorted[q - 1]);
            if q - 1 > pos {
                assert(old_sorted[pos].1 >= old_sorted[q - 1].1);
            }
        } else {
            assert(sorted[p] == old_sorted[p - 1] && sorted[q] == old_sorted[q - 1]);
        }
    }
}

impl Analytics {
    /// The commands with their number of invocations, most invoked first;
    /// commands invoked equally often keep their order.
    pub fn ranking(&self) -> (r: Vec<(String, usize)>)
        ensures
            is_ranking(r@, self@),
    {
        proof { use_type_invariant(self); }
        let usages = &self.usages;
        let mut sorted: Vec<(String, usize)> = Vec::new();
        let mut i: usize = 0;
        while i < usages.len()
            invariant
                i <= usages.len(),
                distinct_commands(usages@),
                ranks_prefix(sorted@, usages@, i as int),
            decreases usages.len() - i,
        {
            let count = usages[i].invocations.len();
            let mut pos: usize = 0;
            while pos < sorted.len() && sorted[pos].1 >= count
                invariant
                    pos <= sorted.len(),
                    forall|q: int| 0 <= q < pos ==> #[trigger] sorted@[q].1 >= count,
                decreases sorted.len() - pos,
            {
                pos += 1;
            }
            let entry = (usages[i].command.clone(), count);
            proof {
                lemma_rank_insert(sorted@, usages@, i as int, pos as int, entry);
            }
            sorted.insert(pos, entry);
            i += 1;
        }
        proof {
            assert forall|p: int| 0 <= p < sorted.len() implies self@.contains_key(#[trigger] sorted@[p].0@)
                && sorted@[p].1 == self@[sorted@[p].0@].len() by {
                assert(described_in(sorted@[p], usages@, usages.len() as int));
                let k = choose|k: int| 0 <= k < usages.len() && #[trigger] describes(sorted@[p], usages@[k]);
                lemma_usage_map_entry(usages@, k);
            }
            assert forall|command: Seq<char>| #[trigger] self@.contains_key(command) implies exists|p: int|
                0 <= p < sorted.len() && #[trigger] sorted@[p].0@ == command by {
                let k = choose|k: int| 0 <= k < usages.len() && #[trigger] usages@[k].command@ == command;
                assert(covered_in(usages@[k], sorted@));
                let p = choose|p: int| 0 <= p < sorted.len() && #[trigger] describes(sorted@[p], usages@[k]);
                assert(sorted@[p].0@ == command);
            }
        }
        sorted
    }
}

/// Where `command` occurs in `usages`, if it does.
fn find_command(usages: &Vec<CommandUsage>, command: &String) -> (r: Option<usize>)
    ensures
        match r {
            Some(i) => i < usages.len() && usages@[i as int].command@ == command@,
            None => !has_command(usages@, command@),
        },
{
    let mut i: usize = 0;
    while i < usages.len()
        invariant
            i <= usages.len(),
            forall|j: int| 0 <= j < i ==> usages@[j].command@ != command@,
        decreases usages.len() - i,
    {
        if usages[i].command == *command {
            return Some(i);
        }
        i += 1;
    }
    None
}

/// An invocation is kept exactly when it was already there and lies within
/// the last day; the kept invocations keep their order.
pub proof fn lemma_recent_contains(invocations: Seq<Timestamp>, now: Timestamp, t: Timestamp)
    ensures
        recent(invocations, now).contains(t) <==> (invocations.contains(t) && within_last_day(t, now)),
    decreases invocations.len(),
{
    if invocations.len() > 0 {
        let rest = invocations.drop_last();
        lemma_recent_contains(rest, now, t);
        assert(invocations =~= rest.push(invocations.last()));
        if rest.contains(t) {
            let i = choose|i: int| 0 <= i < rest.len() && rest[i] == t;
            assert(invocations[i] == t);
        }
        if invocations.contains(t) {
            let i = choose|i: int| 0 <= i < invocations.len() && invocations[i] == t;
            if i < rest.len() {
                assert(rest[i] == t);
            }
        }
        if within_last_day(invocations.last(), now) {
            let kept = recent(rest, now).push(invocations.last());
            assert(kept[kept.len() - 1] == invocations.last());
            if recent(rest, now).contains(t) {
                let i = choose|i: int| 0 <= i < recent(rest, now).len() && recent(rest, now)[i] == t;
                assert(kept[i] == t);
            }
            if kept.contains(t) {
                let i = choose|i: int| 0 <= i < kept.len() && kept[i] == t;
                if i < recent(rest, now).len() {
                    assert(recent(rest, now)[i] == t);
                }
            }
        }
    }
}

/// Keeping the last day's invocations a second time keeps them all.
pub proof fn lemma_recent_idempotent(invocations: Seq<Timestamp>, now: Timestamp)
    ensures
        recent(recent(invocations, now), now) == recent(invocations, now),
    decreases invocations.len(),
{
    if invocations.len() > 0 {
        let rest = invocations.drop_last();
        lemma_recent_idempotent(rest, now);
        if within_last_day(invocations.last(), now) {
            let kept = recent(rest, now).push(invocations.last());
            assert(kept.drop_last() =~= recent(rest, now));
            assert(kept.last() == invocations.last());
        }
    }
}

/// Bringing the analytics up to date leaves an entry for each current
/// command and no other, each with exactly those of its invocations that lie
/// within the last day.
pub proof fn lemma_refreshed_counts_last_day(
    m: Map<Seq<char>, Seq<Timestamp>>,
    commands: Set<Seq<char>>,
    now: Timestamp,
    command: Seq<char>,
    t: Timestamp,
)
    ensures
        refreshed(m, commands, now).contains_key(command) <==> commands.contains(command),
        commands.contains(command) ==> (refreshed(m, commands, now)[command].contains(t) <==> (
            m.contains_key(command) && m[command].contains(t) && within_last_day(t, now))),
{
    lemma_recent_contains(invocations_or_none(m, command), now, t);
}

/// Bringing analytics up to date twice at the same instant changes nothing
/// the second time.
pub proof fn lemma_refresh_idempotent(m: Map<Seq<char>, Seq<Timestamp>>, commands: Set<Seq<char>>, now: Timestamp)
    ensures
        refreshed(refreshed(m, commands, now), commands, now) == refreshed(m, commands, now),
{
    let once = refreshed(m, commands, now);
    assert forall|command: Seq<char>| #[trigger] commands.contains(command) implies
        refreshed(once, commands, now)[command] == once[command] by {
        lemma_recent_idempotent(invocations_or_none(m, command), now);
    }
    assert(refreshed(once, commands, now) =~= once);
}

/// An invocation of a command adds one to that command's count (after the
/// counts were brought up to date) and leaves every other command's count.
pub proof fn lemma_increment_counts_one(
    m: Map<Seq<char>, Seq<Timestamp>>,
    commands: Set<Seq<char>>,
    command: Seq<char>,
    now: Timestamp,
    other: Seq<char>,
)
    ensures
        incremented(m, commands, command, now).contains_key(command),
        incremented(m, commands, command, now)[command].len()
            == invocations_or_none(refreshed(m, commands, now), command).len() + 1,
        incremented(m, commands, command, now)[command].last() == now,
        other != command ==> incremented(m, commands, command, now).contains_key(other)
            == refreshed(m, commands, now).contains_key(other),
        other != command && refreshed(m, commands, now).contains_key(other)
            ==> incremented(m, commands, command, now)[other] == refreshed(m, commands, now)[other],
{
}

} // verus!
