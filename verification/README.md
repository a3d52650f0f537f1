# mcbbs

A console companion for the MCBBS forum: it watches the question forums for rewarded
questions, follows the newest threads and the reply count of chosen threads, lists the chat
forum, and gathers the voters of a vote.

- `src/` is the library, verified with Verus: reading forum pages (one `String` per line)
  with the regex crate behind a small trusted layer (`pattern.rs`), deciding what is new, and
  keeping the state between fetches (`questions.rs`, `water.rs`, `thread.rs`, `chat.rs`,
  `vote.rs`, `state.rs`), the console's command language (`command.rs`), and the string and
  number handling they rest on (`text.rs`, `numbers.rs`).
- `app/main.rs` is the program: it reads commands, fetches pages with reqwest, runs the
  watchers as tokio tasks, waits, prints with a local time stamp and opens the browser.
- `tests/` runs the library on sample pages.
