# majority_bot

A Discord bot that runs majority judgment polls. The library under `src/`
holds its logic, verified with Verus; `app/` holds the bot itself (the Discord
client, the databases, the configuration file), which calls the library.

- `text`, `decimal`, `split`: characters of strings, decimal numerals, and
  splitting at the last separators.
- `pollopt_to_sql`, `dtos`: the text forms of poll options and votes, as keys
  and as button ids, read back exactly.
- `utils`: the largest remainder method that sizes the segments of a vote bar.
- `poll_display`: vote counts and the text of an option.
- `majority_commands`, `majority_events`: reading the options a reply adds,
  the vote buttons, which messages to edit after a vote, and what to do about
  an interaction.
- `config`: the vote values and their symbols.
