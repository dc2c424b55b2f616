# goober_bot

The logic of a Discord moderation and utility bot, written in Verus and
proved against its contracts.

- `src/strikes.rs`: strike records, their rendering, giving, listing and
  repealing strikes, with the rules that tie these together.
- `src/analytics.rs`: per-command invocation counts over the last day, and
  their ranking for the usage chart.
- `src/text.rs`: decimal rendering of integers and user mentions.
- `src/time.rs`: UTC instants, and the calls into chrono (clock, calendar
  months).
- `src/replies.rs`, `src/emoji.rs`: fixed replies and custom emoji.
- `app/`: the Discord commands (poise/serenity), storage (sled, postcard),
  Top.gg and chart rendering, which call into the library.
