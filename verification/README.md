# Repost Checker

Just your regular annoying bot that will notify when someone reposts a link on
Discord and give credit to the people who did it first!

The rules of the bot are a library, verified with Verus. The program around it
talks to Discord and to the database.

## Layout

- `src/` is the library.
  - `repost_checker.rs` is the store of posts and hosts, and what can be asked of it.
  - `discord_handler.rs` decides about messages, reactions and direct messages.
  - `reports.rs` writes the texts; `posts.rs`, `ranking.rs`, `domains.rs`, `users.rs` and
    `counting.rs` compute what stands in them.
  - `links.rs` finds links, `moment.rs` writes times, `migration.rs` makes rows of a checkpoint.
  - `text.rs`, `order.rs` and `sorted_texts.rs` hold text, sorted lists and sets.
  - `laws.rs` states what holds of the bot as a whole.
- `tests/` runs the library.
- `app/` is the program.

## Database

The bot uses a SQLite database (`reposts.db`) to store the reposted links.

## Running

The token of the bot is read from the environment variable `DISCORD_TOKEN`.

## Migration

Posts that are kept in a `checkpoint.json` file are moved into the database by
running the program with the argument `migration`, or with `migrate_to_sqlite`
if the file holds lists of hosts.
