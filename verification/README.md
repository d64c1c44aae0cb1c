# lunabot

A chat bot that keeps the memory gauge of Digimon card game matches. Players
open a game with `!start @player`, spend and gain energy with `-N` and `+N`,
pass the turn, check the status, and customise the gauge picture (`!board`,
`!counter`, `!color`).

## Layout

- `src/` — the verified library.
  - `commands.rs`: reading a message as a command and running it against the
    table of games (`GameTable::command`, `GameTable::try_command`).
  - `game.rs`: the table of games and its operations (`table_id`, `in_game`,
    `make_game`, `change_value`, `add_game`, ...) and the actions they ask for.
  - `invariants.rs`: what every command keeps true of the table.
  - `color.rs`: colour arguments and the bit field in which a colour is stored.
  - `gauge.rs`: what the gauge picture of a game shows; names wrapped into lines.
  - `render.rs`: reply texts filled in with user tags; the presence text.
  - `text.rs`: characters, numerals, parsing and replacement.
  - `responses.rs`: command words and reply texts.
- `app/` — the bot itself: the chat client, user lookups, drawing and sending.
- `tests/` — tests of the library.

The bot reads its token from `LUNABOT_TOKEN` and the gauge, counter and font
images from a `Templates` folder; pictures are written to a `Table` folder.
