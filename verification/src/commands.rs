//! The commands of the bot: a message is read as a command word and its
//! arguments, and the command changes the table of games and says what to send.
use vstd::prelude::*;

use crate::color::{
    bit_field, bit_field_accepts, bit_field_defined, to_bit_field,
};
use crate::game::{
    did, emit, lemma_change_keeps_players, lemma_did_then, actions_view, can_change, game_of,
    lemma_table_index, mention_id, read_game, spec_add_game, spec_change_value, spec_in_game,
    table_index, Action, ActionView, GameTable, Mention, Notice, PairText, Table, Text, TextView,
    Title, OPEN_ENERGY,
};
use crate::responses;
use crate::text::{
    all_numeric, char_is_white_space, char_len_utf8, chars_all_numeric, chars_of, eq_str, has_sign,
    is_white_space, lemma_decimal_value_nonneg, parse_i64, parse_i64_chars, remove_chars,
    remove_chars_exec, string_of, unsigned_part, utf8_len, utf8_len_fits, utf8_len_of,
};

verus! {

/// A message as the bot reads it.
pub struct Incoming {
    /// The text of the message.
    pub content: String,
    /// Whether it was sent in a private chat rather than in a server.
    pub is_private: bool,
    /// The id of its author.
    pub author: i64,
    /// The author's tag (`name#0000`).
    pub author_tag: String,
    /// The user that it mentions first, if any.
    pub mention: Option<Mention>,
}

/// The mathematical view of an [`Incoming`] message.
pub struct Message {
    pub content: Seq<char>,
    pub private: bool,
    pub author: i64,
    pub tag: Seq<char>,
    pub mention: Option<Mention>,
}

impl View for Incoming {
    type V = Message;

    open spec fn view(&self) -> Message {
        Message {
            content: self.content@,
            private: self.is_private,
            author: self.author,
            tag: self.author_tag@,
            mention: self.mention,
        }
    }
}

// ---------------------------------------------------------------------------
// Reading a message
// ---------------------------------------------------------------------------

/// The first index from `i` on that is not white space.
pub open spec fn skip_white(s: Seq<char>, i: int) -> int
    decreases s.len() - i,
{
    if 0 <= i < s.len() && is_white_space(s[i]) {
        skip_white(s, i + 1)
    } else {
        i
    }
}

/// The first index from `i` on that is white space (or the end).
pub open spec fn skip_word(s: Seq<char>, i: int) -> int
    decreases s.len() - i,
{
    if 0 <= i < s.len() && !is_white_space(s[i]) {
        skip_word(s, i + 1)
    } else {
        i
    }
}

/// Whether the message has a word (`split_whitespace` finds one).
pub open spec fn has_word(s: Seq<char>) -> bool {
    skip_white(s, 0) < s.len()
}

/// The first word of the message: its command.
pub open spec fn first_word(s: Seq<char>) -> Seq<char> {
    let a = skip_white(s, 0);
    s.subrange(a, skip_word(s, a))
}

/// The character index at which `k` bytes of UTF-8 end, searching from `j`:
/// `None` when `k` falls inside a character.
pub open spec fn index_at_byte(s: Seq<char>, k: nat, j: int) -> Option<int>
    decreases s.len() - j,
{
    if j < 0 || j > s.len() {
        None
    } else if utf8_len(s.subrange(0, j)) == k {
        Some(j)
    } else if j < s.len() && utf8_len(s.subrange(0, j)) < k {
        index_at_byte(s, k, j + 1)
    } else {
        None
    }
}

/// The index from which the arguments are taken: the message is cut after as
/// many bytes as the command word has.
pub open spec fn arguments_start(s: Seq<char>) -> Option<int> {
    index_at_byte(s, utf8_len(first_word(s)), 0)
}

/// The arguments of the command.
pub open spec fn arguments(s: Seq<char>) -> Seq<char> {
    s.subrange(arguments_start(s).unwrap(), s.len() as int)
}

/// Whether reading the command and its arguments succeeds (the message has a
/// word, and the cut after the word's byte length falls between characters).
pub open spec fn reads_command(s: Seq<char>) -> bool {
    has_word(s) && arguments_start(s) is Some
}

// ---------------------------------------------------------------------------
// Steps used by the commands
// ---------------------------------------------------------------------------

/// The table of the message.
pub open spec fn tid(t: Table, m: Message) -> usize {
    table_index(t.games, m.author, m.mention)
}

/// `change_value` for the message.
pub open spec fn cv(t: Table, m: Message, location: i64, value: i64) -> (Table, Seq<ActionView>) {
    spec_change_value(t, m.author, m.mention, location, value)
}

/// Two `change_value`s in a row.
pub open spec fn cv2(t: Table, m: Message, l1: i64, v1: i64, l2: i64, v2: i64) -> (
    Table,
    Seq<ActionView>,
) {
    let (t1, a1) = cv(t, m, l1, v1);
    let (t2, a2) = cv(t1, m, l2, v2);
    (t2, a1 + a2)
}

/// A fixed reply.
pub open spec fn notice(n: Notice) -> ActionView {
    ActionView::Send(TextView::Notice(n))
}

/// The game of the message's table.
pub open spec fn found(t: Table, m: Message) -> [i64; 9] {
    t.games[tid(t, m) as int]
}

/// The cost of a `+` or `-` message: the message without its signs.
pub open spec fn cost_text(s: Seq<char>) -> Seq<char> {
    remove_chars(s, '+', '-')
}

/// The cost of a `+` or `-` message as a number.
pub open spec fn cost(m: Message) -> int {
    parse_i64(cost_text(m.content)).unwrap() as int
}

// ---------------------------------------------------------------------------
// The commands
// ---------------------------------------------------------------------------

/// `!start`: opens a game with the mentioned user when neither player is in one.
pub open spec fn spec_start(t: Table, m: Message, args: Seq<char>) -> (Table, Seq<ActionView>) {
    if tid(t, m) == usize::MAX {
        let code = spec_in_game(t.games, m.author, m.mention, args.len() == 0);
        if code == 0 {
            (t, seq![notice(Notice::NoPlayer)])
        } else if code == 1 {
            (t, seq![notice(Notice::SelfBattle)])
        } else if code == 2 {
            (t, seq![notice(Notice::BotBattle)])
        } else if code == 3 {
            (t, seq![notice(Notice::OtherGame)])
        } else if code == 4 {
            spec_add_game(
                t,
                m.author,
                m.mention,
                game_of(m.author, mention_id(m.mention), OPEN_ENERGY, 0, 16, 17, 4, 16711680, 255),
            )
        } else {
            (t, seq![notice(Notice::ValidPlayer)])
        }
    } else {
        (t, seq![notice(Notice::AlreadyInGame)])
    }
}

/// `!end`: closes the message's game.
pub open spec fn spec_end(t: Table, m: Message) -> (Table, Seq<ActionView>) {
    let k = tid(t, m);
    if k != usize::MAX {
        let g = t.games[k as int];
        let count = (t.count - 1) as u32;
        (
            Table { games: t.games.remove(k as int), count },
            seq![
                ActionView::Send(TextView::Players(PairText::CloseGame, g[0], g[1])),
                ActionView::SetActivity(count),
            ],
        )
    } else {
        (t, seq![notice(Notice::NotInGame)])
    }
}

/// `!reset`: gives the message's game back its start energy and turn, and
/// shows it, under its table before the reset, naming its players.
pub open spec fn spec_reset(t: Table, m: Message) -> (Table, Seq<ActionView>) {
    let k = tid(t, m);
    if k != usize::MAX {
        let (t1, a1) = cv2(t, m, 2, OPEN_ENERGY, 3, 0);
        let g = found(t1, m);
        (
            t1,
            a1 + seq![
                ActionView::ShowGame {
                    game: g,
                    table: k,
                    description: TextView::Players(PairText::ResetGame, g[0], g[1]),
                    title: Title::GameReset,
                },
            ],
        )
    } else {
        (t, seq![notice(Notice::NotInGame)])
    }
}

/// The part of `!pass` that depends on whose turn it is.
pub open spec fn pass_steps(t: Table, m: Message, g: [i64; 9]) -> (Table, Seq<ActionView>) {
    let p1 = g[0];
    let p2 = g[1];
    let turn = g[3];
    let wait = ActionView::Send(TextView::NotYourTurn(p2));
    if turn == 0 {
        if m.author == p1 {
            cv2(t, m, 2, 3, 3, 2)
        } else if m.author == p2 {
            cv2(t, m, 2, -3i64, 3, 1)
        } else {
            (t, seq![])
        }
    } else if turn == 1 {
        if m.author == p1 {
            cv2(t, m, 2, 3, 3, 2)
        } else if m.author == p2 {
            (t, seq![wait])
        } else {
            (t, seq![])
        }
    } else if turn == 2 {
        if m.author == p1 {
            (t, seq![wait])
        } else if m.author == p2 {
            cv2(t, m, 2, -3i64, 3, 1)
        } else {
            (t, seq![])
        }
    } else {
        (t, seq![])
    }
}

/// `!pass`: the player whose turn it is hands it over with 3 energy for the
/// other; the message's game is shown under its table before the pass.
pub open spec fn spec_pass(t: Table, m: Message) -> (Table, Seq<ActionView>) {
    let k = tid(t, m);
    if k != usize::MAX {
        let (t1, a1) = pass_steps(t, m, t.games[k as int]);
        (
            t1,
            a1 + seq![
                ActionView::ShowGame {
                    game: found(t1, m),
                    table: k,
                    description: TextView::Empty,
                    title: Title::TurnPassed,
                },
            ],
        )
    } else {
        (t, seq![notice(Notice::NotInGame)])
    }
}

/// `!status`: shows the message's game and whose turn it is.
pub open spec fn spec_status(t: Table, m: Message) -> (Table, Seq<ActionView>) {
    let k = tid(t, m);
    if k != usize::MAX {
        let g = t.games[k as int];
        (
            t,
            seq![
                ActionView::ShowGame {
                    game: g,
                    table: k,
                    description: TextView::TurnStatus { turn: g[3], player_one: g[0], player_two: g[1] },
                    title: Title::GameStatus,
                },
            ],
        )
    } else {
        (t, seq![notice(Notice::NotInGame)])
    }
}

/// Whether `tag` is one of the administrators.
pub open spec fn is_admin(tag: Seq<char>) -> bool {
    tag == "0xdema#0000"@ || tag == "duoria#0000"@
}

/// `!statusall`: for an administrator, a list of all games, when there is one.
pub open spec fn spec_status_all(t: Table, m: Message) -> (Table, Seq<ActionView>) {
    if is_admin(m.tag) && t.games.len() > 0 {
        (t, seq![ActionView::Send(TextView::StatusAll(t.games))])
    } else {
        (t, seq![])
    }
}

/// The part of a `-` message that depends on whose turn it is; also gives the
/// new energy.
pub open spec fn minus_steps(t: Table, m: Message, g: [i64; 9], c: int) -> (Table, Seq<ActionView>, int) {
    let p1 = g[0];
    let p2 = g[1];
    let e = g[2] as int;
    let turn = g[3];
    let short = notice(Notice::NotEnoughEnergy);
    let wait = notice(Notice::WaitForTurn);
    if turn == 0 {
        if m.author == p1 {
            if c > 10 {
                (t, seq![short], 0)
            } else {
                let (t1, a1) = cv(t, m, 3, 1);
                if c > 0 {
                    let (t2, a2) = cv(t1, m, 3, 2);
                    (t2, a1 + a2, c)
                } else {
                    (t1, a1, c)
                }
            }
        } else if m.author == p2 {
            if -c < -10 {
                (t, seq![short], 0)
            } else {
                let (t1, a1) = cv(t, m, 3, 2);
                if -c < 0 {
                    let (t2, a2) = cv(t1, m, 3, 1);
                    (t2, a1 + a2, -c)
                } else {
                    (t1, a1, -c)
                }
            }
        } else {
            (t, seq![], 0)
        }
    } else if turn == 1 {
        if m.author == p1 {
            if e + c > 10 {
                (t, seq![short], e)
            } else if e + c > 0 {
                let (t1, a1) = cv(t, m, 3, 2);
                (t1, a1, e + c)
            } else {
                (t, seq![], e + c)
            }
        } else if m.author == p2 {
            (t, seq![wait], e)
        } else {
            (t, seq![], e)
        }
    } else if turn == 2 {
        if m.author == p1 {
            (t, seq![wait], e)
        } else if m.author == p2 {
            if e - c < -10 {
                (t, seq![short], e)
            } else if e - c < 0 {
                let (t1, a1) = cv(t, m, 3, 1);
                (t1, a1, e - c)
            } else {
                (t, seq![], e - c)
            }
        } else {
            (t, seq![], e)
        }
    } else {
        (t, seq![], e)
    }
}

/// The part of a `+` message that depends on whose turn it is; also gives the
/// new energy.
pub open spec fn plus_steps(t: Table, m: Message, g: [i64; 9], c: int) -> (Table, Seq<ActionView>, int) {
    let p1 = g[0];
    let p2 = g[1];
    let e = g[2] as int;
    let turn = g[3];
    let wait = notice(Notice::WaitForTurn);
    if turn == 0 {
        if m.author == p1 {
            if -c < -10 {
                (t, seq![], -10)
            } else {
                let (t1, a1) = cv(t, m, 3, 1);
                (t1, a1, -c)
            }
        } else if m.author == p2 {
            if c > 10 {
                (t, seq![], 10)
            } else {
                let (t1, a1) = cv(t, m, 3, 2);
                (t1, a1, c)
            }
        } else {
            (t, seq![], 0)
        }
    } else if turn == 1 {
        if m.author == p1 {
            if e - c < -10 {
                (t, seq![], -10)
            } else {
                let (t1, a1) = cv(t, m, 3, 1);
                (t1, a1, e - c)
            }
        } else if m.author == p2 {
            (t, seq![wait], e)
        } else {
            (t, seq![], e)
        }
    } else if turn == 2 {
        if m.author == p1 {
            (t, seq![wait], e)
        } else if m.author == p2 {
            if e + c > 10 {
                (t, seq![], 10)
            } else {
                (t, seq![], e + c)
            }
        } else {
            (t, seq![], e)
        }
    } else {
        (t, seq![], e)
    }
}

/// Writing the energy of a `+` or `-` message and showing the game.
pub open spec fn write_energy(t: Table, m: Message, k: usize, e: i64) -> (Table, Seq<ActionView>) {
    let (t2, a2) = cv(t, m, 2, e);
    (
        t2,
        a2 + seq![
            ActionView::ShowGame {
                game: found(t2, m),
                table: k,
                description: TextView::Empty,
                title: Title::Blank,
            },
        ],
    )
}

/// The end of a `+` or `-` message: the energy is written and the game shown.
pub open spec fn energy_finish(t: Table, m: Message, k: usize, steps: (Table, Seq<ActionView>, int)) -> (
    Table,
    Seq<ActionView>,
) {
    let (t1, a1, e) = steps;
    let (t2, a2) = write_energy(t1, m, k, e as i64);
    (t2, a1 + a2)
}

/// A `-N` message: the player on turn spends `N` energy.
pub open spec fn spec_minus(t: Table, m: Message) -> (Table, Seq<ActionView>) {
    let k = tid(t, m);
    if k != usize::MAX {
        energy_finish(t, m, k, minus_steps(t, m, t.games[k as int], cost(m)))
    } else {
        (t, seq![notice(Notice::NotInGame)])
    }
}

/// A `+N` message: energy is added for the player on turn.
pub open spec fn spec_plus(t: Table, m: Message) -> (Table, Seq<ActionView>) {
    let k = tid(t, m);
    if k != usize::MAX {
        energy_finish(t, m, k, plus_steps(t, m, t.games[k as int], cost(m)))
    } else {
        (t, seq![notice(Notice::NotInGame)])
    }
}

/// The argument of a customisation command without its spaces.
pub open spec fn squeezed(args: Seq<char>) -> Seq<char> {
    remove_chars(args, ' ', ' ')
}

/// `!board N`: a player of the message's game picks gauge `N` (1 to 17).
pub open spec fn spec_change_board(t: Table, m: Message, args: Seq<char>) -> (Table, Seq<ActionView>) {
    let k = tid(t, m);
    if k != usize::MAX {
        let a = squeezed(args);
        if a.len() == 0 {
            (t, seq![notice(Notice::SelectOption)])
        } else if all_numeric(a) {
            let n = parse_i64(a).unwrap();
            if !(1 <= n <= 17) {
                (t, seq![notice(Notice::SelectOption)])
            } else {
                let g = t.games[k as int];
                let (t1, a1) = if m.author == g[0] {
                    cv(t, m, 4, n)
                } else if m.author == g[1] {
                    cv(t, m, 5, n)
                } else {
                    (t, seq![])
                };
                (
                    t1,
                    a1 + seq![
                        ActionView::ShowGame {
                            game: found(t1, m),
                            table: k,
                            description: TextView::Empty,
                            title: Title::MemoryGaugeChanged,
                        },
                    ],
                )
            }
        } else {
            (t, seq![notice(Notice::SelectOption)])
        }
    } else {
        (t, seq![notice(Notice::NotInGame)])
    }
}

/// `!color C`: a player of the message's game picks the colour of their name.
pub open spec fn spec_change_color(t: Table, m: Message, args: Seq<char>) -> (Table, Seq<ActionView>) {
    let k = tid(t, m);
    if k != usize::MAX {
        let a = squeezed(args);
        if a.len() == 0 {
            (t, seq![notice(Notice::SelectOption)])
        } else {
            let n = bit_field(a);
            let g = t.games[k as int];
            let (t1, a1) = if m.author == g[0] {
                cv(t, m, 7, n)
            } else if m.author == g[1] {
                cv(t, m, 8, n)
            } else {
                (t, seq![])
            };
            (
                t1,
                a1 + seq![
                    ActionView::ShowGame {
                        game: found(t1, m),
                        table: k,
                        description: TextView::Empty,
                        title: Title::ColorChanged,
                    },
                ],
            )
        }
    } else {
        (t, seq![notice(Notice::NotInGame)])
    }
}

/// `!counter N`: the message's game gets counter image `N` (1 to 5).
pub open spec fn spec_change_counter(t: Table, m: Message, args: Seq<char>) -> (Table, Seq<ActionView>) {
    let k = tid(t, m);
    if k != usize::MAX {
        let a = squeezed(args);
        if a.len() == 0 {
            (t, seq![notice(Notice::CounterSelect)])
        } else if all_numeric(a) {
            let n = parse_i64(a).unwrap();
            if !(1 <= n <= 5) {
                (t, seq![notice(Notice::CounterSelect)])
            } else {
                let (t1, a1) = cv(t, m, 6, n);
                (
                    t1,
                    a1 + seq![
                        ActionView::ShowGame {
                            game: found(t1, m),
                            table: k,
                            description: TextView::Empty,
                            title: Title::CounterChanged,
                        },
                    ],
                )
            }
        } else {
            (t, seq![notice(Notice::CounterSelect)])
        }
    } else {
        (t, seq![notice(Notice::NotInGame)])
    }
}

/// The command named by `word`.
pub open spec fn spec_dispatch(t: Table, m: Message, word: Seq<char>, args: Seq<char>) -> (
    Table,
    Seq<ActionView>,
) {
    if word == responses::HELP_COMMAND@ {
        (t, seq![ActionView::SendHelp])
    } else if word == responses::START_COMMAND@ {
        spec_start(t, m, args)
    } else if word == responses::END_COMMAND@ {
        spec_end(t, m)
    } else if word == responses::RESET_COMMAND@ {
        spec_reset(t, m)
    } else if word == responses::PASS_COMMAND@ {
        spec_pass(t, m)
    } else if word == responses::STATUS_COMMAND@ {
        spec_status(t, m)
    } else if word == responses::STATUS_ALL_COMMAND@ {
        spec_status_all(t, m)
    } else if word == responses::BOARD_COMMAND@ {
        spec_change_board(t, m, args)
    } else if word == responses::COLOR_COMMAND@ {
        spec_change_color(t, m, args)
    } else if word == responses::COUNTER_COMMAND@ {
        spec_change_counter(t, m, args)
    } else if word == responses::QUIT_COMMAND@ {
        (t, seq![ActionView::Quit])
    } else {
        (t, seq![])
    }
}

/// The energy messages handled before the command word.
pub open spec fn spec_energy(t: Table, m: Message) -> (Table, Seq<ActionView>) {
    if m.content[0] == '+' {
        spec_plus(t, m)
    } else if m.content[0] == '-' {
        spec_minus(t, m)
    } else {
        (t, seq![])
    }
}

/// `command`: what a message does. In a private chat the bot only answers with
/// its help text; elsewhere a message starting with `+` or `-` changes the
/// energy, and then the first word is run as a command.
pub open spec fn spec_command(t: Table, m: Message) -> (Table, Seq<ActionView>) {
    if m.private {
        (t, seq![notice(Notice::PrivateHelp)])
    } else {
        let (t1, a1) = spec_energy(t, m);
        let (t2, a2) = spec_dispatch(t1, m, first_word(m.content), arguments(m.content));
        (t2, a1 + a2)
    }
}

// ---------------------------------------------------------------------------
// When a command runs to its end
// ---------------------------------------------------------------------------

/// Whether `v` is an `i64`.
pub open spec fn fits_i64(v: int) -> bool {
    i64::MIN <= v <= i64::MAX
}

/// Whether a `-` message computes its energy without overflow.
pub open spec fn minus_ok(t: Table, m: Message) -> bool {
    let k = tid(t, m);
    k != usize::MAX ==> {
        parse_i64(cost_text(m.content)) is Some && {
            let g = t.games[k as int];
            let c = cost(m);
            &&& (g[3] == 1 && m.author == g[0]) ==> fits_i64(g[2] + c)
            &&& (g[3] == 2 && m.author != g[0] && m.author == g[1]) ==> fits_i64(g[2] - c)
        }
    }
}

/// Whether a `+` message computes its energy without overflow.
pub open spec fn plus_ok(t: Table, m: Message) -> bool {
    let k = tid(t, m);
    k != usize::MAX ==> {
        parse_i64(cost_text(m.content)) is Some && {
            let g = t.games[k as int];
            let c = cost(m);
            &&& (g[3] == 1 && m.author == g[0]) ==> fits_i64(g[2] - c)
            &&& (g[3] == 2 && m.author != g[0] && m.author == g[1]) ==> fits_i64(g[2] + c)
        }
    }
}

/// Whether the energy part of a message runs to its end.
pub open spec fn energy_ok(t: Table, m: Message) -> bool {
    &&& m.content[0] == '+' ==> plus_ok(t, m)
    &&& m.content[0] == '-' ==> minus_ok(t, m)
}

/// Whether the number argument of `!board` or `!counter` is read without panic.
pub open spec fn number_ok(t: Table, m: Message, args: Seq<char>) -> bool {
    (tid(t, m) != usize::MAX && squeezed(args).len() > 0 && all_numeric(squeezed(args))) ==> parse_i64(
        squeezed(args),
    ) is Some
}

/// Whether the command named by `word` runs to its end.
pub open spec fn dispatch_ok(t: Table, m: Message, word: Seq<char>, args: Seq<char>) -> bool {
    &&& word == responses::START_COMMAND@ ==> ((tid(t, m) == usize::MAX && spec_in_game(
        t.games,
        m.author,
        m.mention,
        args.len() == 0,
    ) == 4) ==> t.count < u32::MAX)
    &&& word == responses::END_COMMAND@ ==> (tid(t, m) != usize::MAX ==> t.count > 0)
    &&& word == responses::BOARD_COMMAND@ ==> number_ok(t, m, args)
    &&& word == responses::COUNTER_COMMAND@ ==> number_ok(t, m, args)
    &&& word == responses::COLOR_COMMAND@ ==> ((tid(t, m) != usize::MAX && squeezed(args).len() > 0)
        ==> bit_field_defined(squeezed(args)))
}

/// Whether `command` runs to its end for this message and table. It does not
/// when the message has no word or is cut inside a character, when a `+` or `-`
/// amount is not a number or overflows the energy, when a `!board` or `!counter`
/// number is not read, when a `!color` argument is not a colour, or when the
/// count of games would overflow. The UTF-8 length of the message fits in
/// `usize`, as that of every `String` does.
pub open spec fn command_ok(t: Table, m: Message) -> bool {
    &&& utf8_len(m.content) <= usize::MAX
    &&& t.games.len() <= usize::MAX
    &&& reads_command(m.content)
    &&& !m.private ==> energy_ok(t, m) && dispatch_ok(
        spec_energy(t, m).0,
        m,
        first_word(m.content),
        arguments(m.content),
    )
}

// ---------------------------------------------------------------------------
// Implementation
// ---------------------------------------------------------------------------

pub proof fn lemma_utf8_concat(a: Seq<char>, b: Seq<char>)
    ensures
        utf8_len(a + b) == utf8_len(a) + utf8_len(b),
    decreases b.len(),
{
    if b.len() > 0 {
        assert((a + b).drop_last() =~= a + b.drop_last());
        assert((a + b).last() == b.last());
        lemma_utf8_concat(a, b.drop_last());
    } else {
        assert(a + b =~= a);
    }
}

proof fn lemma_utf8_sub(s: Seq<char>, i: int, j: int)
    requires
        0 <= i <= j <= s.len(),
    ensures
        utf8_len(s.subrange(i, j)) <= utf8_len(s.subrange(0, j)) <= utf8_len(s),
{
    lemma_utf8_concat(s.subrange(0, i), s.subrange(i, j));
    assert(s.subrange(0, i) + s.subrange(i, j) =~= s.subrange(0, j));
    lemma_utf8_concat(s.subrange(0, j), s.subrange(j, s.len() as int));
    assert(s.subrange(0, j) + s.subrange(j, s.len() as int) =~= s);
}

/// Reads the command word and the arguments of a message; `None` when there is
/// no word or the cut after it falls inside a character.
pub fn read_command(s: &Vec<char>) -> (r: Option<(Vec<char>, Vec<char>)>)
    requires
        utf8_len(s@) <= usize::MAX,
    ensures
        r is Some <==> reads_command(s@),
        r matches Some(p) ==> p.0@ == first_word(s@) && p.1@ == arguments(s@),
{
    let n = s.len();
    let mut a: usize = 0;
    while a < n && char_is_white_space(s[a])
        invariant
            a <= n == s@.len(),
            skip_white(s@, a as int) == skip_white(s@, 0),
        decreases n - a,
    {
        a = a + 1;
    }
    if a == n {
        return None;
    }
    let mut b: usize = a;
    while b < n && !char_is_white_space(s[b])
        invariant
            a <= b <= n == s@.len(),
            skip_word(s@, b as int) == skip_word(s@, a as int),
        decreases n - b,
    {
        b = b + 1;
    }
    let mut word: Vec<char> = Vec::new();
    let mut i = a;
    assert(word@ =~= s@.subrange(a as int, i as int));
    while i < b
        invariant
            a <= i <= b <= n == s@.len(),
            word@ == s@.subrange(a as int, i as int),
        decreases b - i,
    {
        word.push(s[i]);
        i = i + 1;
        assert(word@ =~= s@.subrange(a as int, i as int));
    }
    assert(word@ == first_word(s@));
    proof {
        lemma_utf8_sub(s@, a as int, b as int);
    }
    let k = utf8_len_of(&word);
    let mut acc: usize = 0;
    let mut j: usize = 0;
    assert(s@.subrange(0, 0) =~= Seq::<char>::empty());
    loop
        invariant
            j <= n == s@.len(),
            acc == utf8_len(s@.subrange(0, j as int)),
            k == utf8_len(first_word(s@)),
            utf8_len(s@) <= usize::MAX,
            index_at_byte(s@, k as nat, j as int) == index_at_byte(s@, k as nat, 0),
        ensures
            j <= n,
            arguments_start(s@) == Some(j as int),
        decreases n - j,
    {
        if acc == k {
            break ;
        }
        if j == n || acc > k {
            return None;
        }
        proof {
            assert(s@.subrange(0, j + 1).drop_last() =~= s@.subrange(0, j as int));
            lemma_utf8_sub(s@, 0, j + 1);
        }
        acc = acc + char_len_utf8(s[j]);
        j = j + 1;
    }
    let mut args: Vec<char> = Vec::new();
    let mut i = j;
    assert(args@ =~= s@.subrange(j as int, i as int));
    while i < n
        invariant
            j <= i <= n == s@.len(),
            args@ == s@.subrange(j as int, i as int),
        decreases n - i,
    {
        args.push(s[i]);
        i = i + 1;
        assert(args@ =~= s@.subrange(j as int, i as int));
    }
    Some((word, args))
}

pub proof fn lemma_cost_nonneg(s: Seq<char>)
    requires
        parse_i64(cost_text(s)) is Some,
    ensures
        parse_i64(cost_text(s)).unwrap() >= 0,
{
    let c = cost_text(s);
    lemma_no_signs(s);
    if c.len() > 0 {
        assert(c.contains(c[0]));
    }
    assert(!has_sign(c));
    assert(unsigned_part(c) == c);
    lemma_decimal_value_nonneg(c);
}

proof fn lemma_no_signs(s: Seq<char>)
    ensures
        !cost_text(s).contains('+'),
        !cost_text(s).contains('-'),
    decreases s.len(),
{
    if s.len() > 0 {
        lemma_no_signs(s.drop_last());
        let r = cost_text(s.drop_last());
        if !(s.last() == '+' || s.last() == '-') {
            assert forall|i: int| 0 <= i < r.push(s.last()).len() implies r.push(s.last())[i]
                != '+' && r.push(s.last())[i] != '-' by {
                if i < r.len() {
                    assert(r.contains(r[i]));
                }
            }
        }
    }
}

proof fn lemma_skip_word_start(s: Seq<char>)
    requires
        s.len() > 0,
        !is_white_space(s[0]),
    ensures
        skip_white(s, 0) == 0,
        skip_word(s, 0) >= 1,
        first_word(s)[0] == s[0],
{
    lemma_skip_word_bounds(s, 1);
}

proof fn lemma_skip_word_bounds(s: Seq<char>, i: int)
    requires
        0 <= i <= s.len(),
    ensures
        i <= skip_word(s, i) <= s.len(),
    decreases s.len() - i,
{
    if i < s.len() && !is_white_space(s[i]) {
        lemma_skip_word_bounds(s, i + 1);
    }
}

/// A message that starts with `+` or `-` names none of the `!` commands.
proof fn lemma_sign_word(s: Seq<char>)
    requires
        s.len() > 0,
        s[0] == '+' || s[0] == '-',
    ensures
        first_word(s) != responses::START_COMMAND@,
        first_word(s) != responses::END_COMMAND@,
        first_word(s) != responses::BOARD_COMMAND@,
        first_word(s) != responses::COUNTER_COMMAND@,
        first_word(s) != responses::COLOR_COMMAND@,
{
    lemma_skip_word_start(s);
    reveal_strlit("!start");
    reveal_strlit("!end");
    reveal_strlit("!board");
    reveal_strlit("!counter");
    reveal_strlit("!color");
}

impl GameTable {
    /// `change_value` for a field other than the players.
    fn change(&mut self, msg: &Incoming, location: i64, value: i64, out: &mut Vec<Action>)
        requires
            can_change(old(self)@, msg.author, msg.mention),
            2 <= location,
        ensures
            did(old(self)@, final(self)@, old(out)@, final(out)@, cv(old(self)@, msg@, location, value)),
            can_change(final(self)@, msg.author, msg.mention),
            final(self)@.games.len() == old(self)@.games.len(),
            final(self)@.count == old(self)@.count,
    {
        let _n = self.games.len();
        proof {
            lemma_change_keeps_players(self@, msg.author, msg.mention, location, value);
        }
        self.change_value(msg.author, msg.mention, location, value, out);
    }

    /// Two changes in a row.
    fn change2(
        &mut self,
        msg: &Incoming,
        l1: i64,
        v1: i64,
        l2: i64,
        v2: i64,
        out: &mut Vec<Action>,
    )
        requires
            can_change(old(self)@, msg.author, msg.mention),
            2 <= l1,
            2 <= l2,
        ensures
            did(old(self)@, final(self)@, old(out)@, final(out)@, cv2(old(self)@, msg@, l1, v1, l2, v2)),
            can_change(final(self)@, msg.author, msg.mention),
            final(self)@.games.len() == old(self)@.games.len(),
            final(self)@.count == old(self)@.count,
    {
        let ghost t0 = self@;
        let ghost o0 = out@;
        self.change(msg, l1, v1, out);
        let ghost t1 = self@;
        let ghost o1 = out@;
        self.change(msg, l2, v2, out);
        proof {
            lemma_did_then(t0, t1, self@, o0, o1, out@, cv(t0, msg@, l1, v1).1, cv(t1, msg@, l2, v2).1);
        }
    }

    /// The table of the message, with what is known of it.
    fn table_of(&self, msg: &Incoming) -> (k: usize)
        ensures
            k == tid(self@, msg@),
            k != usize::MAX ==> k < self@.games.len() && can_change(self@, msg.author, msg.mention),
            k == usize::MAX ==> !can_change(self@, msg.author, msg.mention),
    {
        let _n = self.games.len();
        proof {
            lemma_table_index(self@.games, msg.author, msg.mention);
        }
        self.table_id(msg.author, msg.mention)
    }

    fn start(&mut self, msg: &Incoming, args: &Vec<char>, out: &mut Vec<Action>)
        requires
            dispatch_ok(old(self)@, msg@, responses::START_COMMAND@, args@),
        ensures
            did(old(self)@, final(self)@, old(out)@, final(out)@, spec_start(old(self)@, msg@, args@)),
    {
        let table = self.table_of(msg);
        if table == usize::MAX {
            let arguments = string_of(args);
            let game_info = self.in_game(msg.author, msg.mention, arguments.as_str());
            if game_info == 0 {
                emit(out, Action::Send(Text::Notice(Notice::NoPlayer)));
            } else if game_info == 1 {
                emit(out, Action::Send(Text::Notice(Notice::SelfBattle)));
            } else if game_info == 2 {
                emit(out, Action::Send(Text::Notice(Notice::BotBattle)));
            } else if game_info == 3 {
                emit(out, Action::Send(Text::Notice(Notice::OtherGame)));
            } else if game_info == 4 {
                self.add_game(msg.author, msg.mention, OPEN_ENERGY, 0, 16, 17, 4, 16711680, 255, out);
            } else if game_info == 5 {
                emit(out, Action::Send(Text::Notice(Notice::ValidPlayer)));
            }
        } else {
            emit(out, Action::Send(Text::Notice(Notice::AlreadyInGame)));
        }
    }

    fn end(&mut self, msg: &Incoming, out: &mut Vec<Action>)
        requires
            dispatch_ok(old(self)@, msg@, responses::END_COMMAND@, seq![]),
        ensures
            did(old(self)@, final(self)@, old(out)@, final(out)@, spec_end(old(self)@, msg@)),
    {
        let table = self.table_of(msg);
        if table != usize::MAX {
            let game = self.games[table];
            let player_one = read_game(game, 0);
            let player_two = read_game(game, 1);
            let ghost o0 = out@;
            emit(out, Action::Send(Text::Players(PairText::CloseGame, player_one, player_two)));
            self.end_game(table);
            self.game_count = self.game_count - 1;
            emit(out, Action::SetActivity(self.game_count));
            assert(actions_view(out@) =~= actions_view(o0) + spec_end(old(self)@, msg@).1);
        } else {
            emit(out, Action::Send(Text::Notice(Notice::NotInGame)));
        }
    }

    fn reset(&mut self, msg: &Incoming, out: &mut Vec<Action>)
        ensures
            did(old(self)@, final(self)@, old(out)@, final(out)@, spec_reset(old(self)@, msg@)),
    {
        let table = self.table_of(msg);
        if table != usize::MAX {
            let ghost o0 = out@;
            self.change2(msg, 2, OPEN_ENERGY, 3, 0, out);
            let game = self.find_game(msg.author, msg.mention);
            let player_one = read_game(game, 0);
            let player_two = read_game(game, 1);
            let ghost o1 = out@;
            emit(
                out,
                Action::ShowGame {
                    game,
                    table,
                    description: Text::Players(PairText::ResetGame, player_one, player_two),
                    title: Title::GameReset,
                },
            );
            assert(actions_view(out@) =~= actions_view(o0) + spec_reset(old(self)@, msg@).1);
        } else {
            emit(out, Action::Send(Text::Notice(Notice::NotInGame)));
        }
    }

    fn pass(&mut self, msg: &Incoming, out: &mut Vec<Action>)
        ensures
            did(old(self)@, final(self)@, old(out)@, final(out)@, spec_pass(old(self)@, msg@)),
    {
        let table = self.table_of(msg);
        if table != usize::MAX {
            let game = self.games[table];
            let author = msg.author;
            let player_one = read_game(game, 0);
            let player_two = read_game(game, 1);
            let turn = read_game(game, 3);
            let ghost t0 = self@;
            let ghost o0 = out@;
            let ghost steps = pass_steps(t0, msg@, game);
            if turn == 0 {
                if author == player_one {
                    self.change2(msg, 2, 3, 3, 2, out);
                } else if author == player_two {
                    self.change2(msg, 2, -3, 3, 1, out);
                }
            } else if turn == 1 {
                if author == player_one {
                    self.change2(msg, 2, 3, 3, 2, out);
                } else if author == player_two {
                    emit(out, Action::Send(Text::NotYourTurn(player_two)));
                }
            } else if turn == 2 {
                if author == player_one {
                    emit(out, Action::Send(Text::NotYourTurn(player_two)));
                } else if author == player_two {
                    self.change2(msg, 2, -3, 3, 1, out);
                }
            }
            assert(self@ == steps.0 && actions_view(out@) =~= actions_view(o0) + steps.1);
            let game = self.find_game(msg.author, msg.mention);
            let ghost o1 = out@;
            emit(
                out,
                Action::ShowGame { game, table, description: Text::Empty, title: Title::TurnPassed },
            );
            assert(actions_view(out@) =~= actions_view(o0) + spec_pass(old(self)@, msg@).1);
        } else {
            emit(out, Action::Send(Text::Notice(Notice::NotInGame)));
        }
    }

    fn status(&mut self, msg: &Incoming, out: &mut Vec<Action>)
        ensures
            did(old(self)@, final(self)@, old(out)@, final(out)@, spec_status(old(self)@, msg@)),
    {
        let table = self.table_of(msg);
        if table != usize::MAX {
            let game = self.games[table];
            let player_one = read_game(game, 0);
            let player_two = read_game(game, 1);
            let turn = read_game(game, 3);
            emit(
                out,
                Action::ShowGame {
                    game,
                    table,
                    description: Text::TurnStatus { turn, player_one, player_two },
                    title: Title::GameStatus,
                },
            );
        } else {
            emit(out, Action::Send(Text::Notice(Notice::NotInGame)));
        }
    }

    /// Writes the energy of a `+` or `-` message and shows the game.
    fn finish_energy(
        &mut self,
        msg: &Incoming,
        table: usize,
        energy: i64,
        out: &mut Vec<Action>,
    )
        requires
            can_change(old(self)@, msg.author, msg.mention),
        ensures
            did(old(self)@, final(self)@, old(out)@, final(out)@, write_energy(old(self)@, msg@, table, energy)),
    {
        let ghost o0 = out@;
        self.change(msg, 2, energy, out);
        let game = self.find_game(msg.author, msg.mention);
        emit(out, Action::ShowGame { game, table, description: Text::Empty, title: Title::Blank });
        assert(actions_view(out@) =~= actions_view(o0) + (cv(old(self)@, msg@, 2, energy).1 + seq![
            ActionView::ShowGame {
                game: found(self@, msg@),
                table,
                description: TextView::Empty,
                title: Title::Blank,
            },
        ]));
    }

    /// A `-N` message: the player on turn spends `N` energy.
    fn minus(&mut self, msg: &Incoming, out: &mut Vec<Action>)
        requires
            minus_ok(old(self)@, msg@),
        ensures
            did(old(self)@, final(self)@, old(out)@, final(out)@, spec_minus(old(self)@, msg@)),
    {
        let content = chars_of(msg.content.as_str());
        let arguments = remove_chars_exec(&content, '+', '-');
        let table = self.table_of(msg);
        if table != usize::MAX {
            let game = self.find_game(msg.author, msg.mention);
            let author = msg.author;
            let player_one = read_game(game, 0);
            let player_two = read_game(game, 1);
            let mut energy = read_game(game, 2);
            let turn = read_game(game, 3);
            let cost = parse_i64_chars(&arguments).unwrap();
            proof {
                lemma_cost_nonneg(msg@.content);
            }
            let ghost t0 = self@;
            let ghost o0 = out@;
            let ghost steps = minus_steps(t0, msg@, game, cost as int);
            if turn == 0 {
                energy = 0;
                if author == player_one {
                    if energy + cost > 10 {
                        emit(out, Action::Send(Text::Notice(Notice::NotEnoughEnergy)));
                    } else {
                        energy = energy + cost;
                        self.change(msg, 3, 1, out);
                        if energy > 0 {
                            let ghost t1 = self@;
                            let ghost o1 = out@;
                            self.change(msg, 3, 2, out);
                            proof {
                                lemma_did_then(t0, t1, self@, o0, o1, out@, cv(t0, msg@, 3, 1).1, cv(t1, msg@, 3, 2).1);
                            }
                        }
                    }
                } else if author == player_two {
                    if energy - cost < -10 {
                        emit(out, Action::Send(Text::Notice(Notice::NotEnoughEnergy)));
                    } else {
                        energy = energy - cost;
                        self.change(msg, 3, 2, out);
                        if energy < 0 {
                            let ghost t1 = self@;
                            let ghost o1 = out@;
                            self.change(msg, 3, 1, out);
                            proof {
                                lemma_did_then(t0, t1, self@, o0, o1, out@, cv(t0, msg@, 3, 2).1, cv(t1, msg@, 3, 1).1);
                            }
                        }
                    }
                } else {
                    assert(actions_view(out@) =~= actions_view(o0) + Seq::<ActionView>::empty());
                }
            } else if turn == 1 {
                if author == player_one {
                    if energy + cost > 10 {
                        emit(out, Action::Send(Text::Notice(Notice::NotEnoughEnergy)));
                    } else {
                        energy = energy + cost;
                        if energy > 0 {
                            self.change(msg, 3, 2, out);
                        } else {
                            assert(actions_view(out@) =~= actions_view(o0) + Seq::<ActionView>::empty());
                        }
                    }
                } else if author == player_two {
                    emit(out, Action::Send(Text::Notice(Notice::WaitForTurn)));
                } else {
                    assert(actions_view(out@) =~= actions_view(o0) + Seq::<ActionView>::empty());
                }
            } else if turn == 2 {
                if author == player_one {
                    emit(out, Action::Send(Text::Notice(Notice::WaitForTurn)));
                } else if author == player_two {
                    if energy - cost < -10 {
                        emit(out, Action::Send(Text::Notice(Notice::NotEnoughEnergy)));
                    } else {
                        energy = energy - cost;
                        if energy < 0 {
                            self.change(msg, 3, 1, out);
                        } else {
                            assert(actions_view(out@) =~= actions_view(o0) + Seq::<ActionView>::empty());
                        }
                    }
                } else {
                    assert(actions_view(out@) =~= actions_view(o0) + Seq::<ActionView>::empty());
                }
            } else {
                assert(actions_view(out@) =~= actions_view(o0) + Seq::<ActionView>::empty());
            }
            assert(self@ == steps.0 && actions_view(out@) == actions_view(o0) + steps.1 && energy
                == steps.2);
            let ghost t1 = self@;
            let ghost o1 = out@;
            self.finish_energy(msg, table, energy, out);
            proof {
                lemma_did_then(t0, t1, self@, o0, o1, out@, steps.1, write_energy(t1, msg@, table, energy).1);
            }
        } else {
            emit(out, Action::Send(Text::Notice(Notice::NotInGame)));
        }
    }

    /// A `+N` message: energy is added for the player on turn.
    fn plus(&mut self, msg: &Incoming, out: &mut Vec<Action>)
        requires
            plus_ok(old(self)@, msg@),
        ensures
            did(old(self)@, final(self)@, old(out)@, final(out)@, spec_plus(old(self)@, msg@)),
    {
        let content = chars_of(msg.content.as_str());
        let arguments = remove_chars_exec(&content, '+', '-');
        let table = self.table_of(msg);
        if table != usize::MAX {
            let game = self.find_game(msg.author, msg.mention);
            let author = msg.author;
            let player_one = read_game(game, 0);
            let player_two = read_game(game, 1);
            let mut energy = read_game(game, 2);
            let turn = read_game(game, 3);
            let cost = parse_i64_chars(&arguments).unwrap();
            proof {
                lemma_cost_nonneg(msg@.content);
            }
            let ghost t0 = self@;
            let ghost o0 = out@;
            let ghost steps = plus_steps(t0, msg@, game, cost as int);
            if turn == 0 {
                energy = 0;
                if author == player_one {
                    if energy - cost < -10 {
                        energy = -10;
                        assert(actions_view(out@) =~= actions_view(o0) + Seq::<ActionView>::empty());
                    } else {
                        energy = energy - cost;
                        self.change(msg, 3, 1, out);
                    }
                } else if author == player_two {
                    if energy + cost > 10 {
                        energy = 10;
                        assert(actions_view(out@) =~= actions_view(o0) + Seq::<ActionView>::empty());
                    } else {
                        energy = energy + cost;
                        self.change(msg, 3, 2, out);
                    }
                } else {
                    assert(actions_view(out@) =~= actions_view(o0) + Seq::<ActionView>::empty());
                }
            } else if turn == 1 {
                if author == player_one {
                    if energy - cost < -10 {
                        energy = -10;
                        assert(actions_view(out@) =~= actions_view(o0) + Seq::<ActionView>::empty());
                    } else {
                        energy = energy - cost;
                        self.change(msg, 3, 1, out);
                    }
                } else if author == player_two {
                    emit(out, Action::Send(Text::Notice(Notice::WaitForTurn)));
                } else {
                    assert(actions_view(out@) =~= actions_view(o0) + Seq::<ActionView>::empty());
                }
            } else if turn == 2 {
                if author == player_one {
                    emit(out, Action::Send(Text::Notice(Notice::WaitForTurn)));
                } else if author == player_two {
                    if energy + cost > 10 {
                        energy = 10;
                    } else {
                        energy = energy + cost;
                    }
                    assert(actions_view(out@) =~= actions_view(o0) + Seq::<ActionView>::empty());
                } else {
                    assert(actions_view(out@) =~= actions_view(o0) + Seq::<ActionView>::empty());
                }
            } else {
                assert(actions_view(out@) =~= actions_view(o0) + Seq::<ActionView>::empty());
            }
            assert(self@ == steps.0 && actions_view(out@) == actions_view(o0) + steps.1 && energy
                == steps.2);
            let ghost t1 = self@;
            let ghost o1 = out@;
            self.finish_energy(msg, table, energy, out);
            proof {
                lemma_did_then(t0, t1, self@, o0, o1, out@, steps.1, write_energy(t1, msg@, table, energy).1);
            }
        } else {
            emit(out, Action::Send(Text::Notice(Notice::NotInGame)));
        }
    }

    /// `!board N`.
    fn change_board(&mut self, msg: &Incoming, args: &Vec<char>, out: &mut Vec<Action>)
        requires
            number_ok(old(self)@, msg@, args@),
        ensures
            did(old(self)@, final(self)@, old(out)@, final(out)@, spec_change_board(old(self)@, msg@, args@)),
    {
        let table = self.table_of(msg);
        if table != usize::MAX {
            let game = self.games[table];
            let player_one = read_game(game, 0);
            let player_two = read_game(game, 1);
            let author = msg.author;
            let arguments = remove_chars_exec(args, ' ', ' ');
            if arguments.len() == 0 {
                emit(out, Action::Send(Text::Notice(Notice::SelectOption)));
            } else if chars_all_numeric(&arguments) {
                let arguments = parse_i64_chars(&arguments).unwrap();
                if !(1 <= arguments && arguments <= 17) {
                    emit(out, Action::Send(Text::Notice(Notice::SelectOption)));
                } else {
                    let ghost o0 = out@;
                    if author == player_one {
                        self.change(msg, 4, arguments, out);
                    } else if author == player_two {
                        self.change(msg, 5, arguments, out);
                    } else {
                        assert(actions_view(out@) =~= actions_view(o0) + Seq::<ActionView>::empty());
                    }
                    let ghost o1 = out@;
                    let game = self.find_game(msg.author, msg.mention);
                    emit(
                        out,
                        Action::ShowGame {
                            game,
                            table,
                            description: Text::Empty,
                            title: Title::MemoryGaugeChanged,
                        },
                    );
                    assert(actions_view(out@) =~= actions_view(o0) + spec_change_board(old(self)@, msg@, args@).1);
                }
            } else {
                emit(out, Action::Send(Text::Notice(Notice::SelectOption)));
            }
        } else {
            emit(out, Action::Send(Text::Notice(Notice::NotInGame)));
        }
    }

    /// `!color C`.
    fn change_color(&mut self, msg: &Incoming, args: &Vec<char>, out: &mut Vec<Action>)
        requires
            (tid(old(self)@, msg@) != usize::MAX && squeezed(args@).len() > 0) ==> bit_field_defined(
                squeezed(args@),
            ),
        ensures
            did(old(self)@, final(self)@, old(out)@, final(out)@, spec_change_color(old(self)@, msg@, args@)),
    {
        let table = self.table_of(msg);
        if table != usize::MAX {
            let game = self.games[table];
            let player_one = read_game(game, 0);
            let player_two = read_game(game, 1);
            let author = msg.author;
            let arguments = remove_chars_exec(args, ' ', ' ');
            if arguments.len() == 0 {
                emit(out, Action::Send(Text::Notice(Notice::SelectOption)));
            } else {
                let arguments = to_bit_field(string_of(&arguments));
                let ghost o0 = out@;
                if author == player_one {
                    self.change(msg, 7, arguments, out);
                } else if author == player_two {
                    self.change(msg, 8, arguments, out);
                } else {
                    assert(actions_view(out@) =~= actions_view(o0) + Seq::<ActionView>::empty());
                }
                let game = self.find_game(msg.author, msg.mention);
                emit(
                    out,
                    Action::ShowGame { game, table, description: Text::Empty, title: Title::ColorChanged },
                );
                assert(actions_view(out@) =~= actions_view(o0) + spec_change_color(old(self)@, msg@, args@).1);
            }
        } else {
            emit(out, Action::Send(Text::Notice(Notice::NotInGame)));
        }
    }

    /// `!counter N`.
    fn change_counter(&mut self, msg: &Incoming, args: &Vec<char>, out: &mut Vec<Action>)
        requires
            number_ok(old(self)@, msg@, args@),
        ensures
            did(old(self)@, final(self)@, old(out)@, final(out)@, spec_change_counter(old(self)@, msg@, args@)),
    {
        let table = self.table_of(msg);
        if table != usize::MAX {
            let arguments = remove_chars_exec(args, ' ', ' ');
            if arguments.len() == 0 {
                emit(out, Action::Send(Text::Notice(Notice::CounterSelect)));
            } else if chars_all_numeric(&arguments) {
                let arguments = parse_i64_chars(&arguments).unwrap();
                if !(1 <= arguments && arguments <= 5) {
                    emit(out, Action::Send(Text::Notice(Notice::CounterSelect)));
                } else {
                    let ghost o0 = out@;
                    self.change(msg, 6, arguments, out);
                    let game = self.find_game(msg.author, msg.mention);
                    emit(
                        out,
                        Action::ShowGame { game, table, description: Text::Empty, title: Title::CounterChanged },
                    );
                    assert(actions_view(out@) =~= actions_view(o0) + spec_change_counter(old(self)@, msg@, args@).1);
                }
            } else {
                emit(out, Action::Send(Text::Notice(Notice::CounterSelect)));
            }
        } else {
            emit(out, Action::Send(Text::Notice(Notice::NotInGame)));
        }
    }

    /// Runs the command named by `word`.
    fn dispatch(&mut self, msg: &Incoming, word: &Vec<char>, args: &Vec<char>, out: &mut Vec<Action>)
        requires
            dispatch_ok(old(self)@, msg@, word@, args@),
        ensures
            did(old(self)@, final(self)@, old(out)@, final(out)@, spec_dispatch(old(self)@, msg@, word@, args@)),
    {
        if eq_str(word, responses::HELP_COMMAND) {
            emit(out, Action::SendHelp);
        } else if eq_str(word, responses::START_COMMAND) {
            self.start(msg, args, out);
        } else if eq_str(word, responses::END_COMMAND) {
            self.end(msg, out);
        } else if eq_str(word, responses::RESET_COMMAND) {
            self.reset(msg, out);
        } else if eq_str(word, responses::PASS_COMMAND) {
            self.pass(msg, out);
        } else if eq_str(word, responses::STATUS_COMMAND) {
            self.status(msg, out);
        } else if eq_str(word, responses::STATUS_ALL_COMMAND) {
            self.status_all(msg, out);
        } else if eq_str(word, responses::BOARD_COMMAND) {
            self.change_board(msg, args, out);
        } else if eq_str(word, responses::COLOR_COMMAND) {
            self.change_color(msg, args, out);
        } else if eq_str(word, responses::COUNTER_COMMAND) {
            self.change_counter(msg, args, out);
        } else if eq_str(word, responses::QUIT_COMMAND) {
            emit(out, Action::Quit);
        } else {
            assert(actions_view(out@) =~= actions_view(out@) + Seq::<ActionView>::empty());
        }
    }

    /// `command`: runs a message (see [`spec_command`]) and returns what the bot
    /// does outside, in order.
    pub fn command(&mut self, msg: &Incoming) -> (actions: Vec<Action>)
        requires
            command_ok(old(self)@, msg@),
        ensures
            final(self)@ == spec_command(old(self)@, msg@).0,
            actions_view(actions@) == spec_command(old(self)@, msg@).1,
    {
        let mut out: Vec<Action> = Vec::new();
        assert(actions_view(out@) =~= Seq::<ActionView>::empty());
        let contents = chars_of(msg.content.as_str());
        let (start_of_command, command_args) = read_command(&contents).unwrap();
        if msg.is_private {
            emit(&mut out, Action::Send(Text::Notice(Notice::PrivateHelp)));
            assert(actions_view(out@) =~= seq![notice(Notice::PrivateHelp)]);
        } else {
            let ghost t0 = self@;
            let ghost o0 = out@;
            if contents[0] == responses::PLUS_COMMAND {
                self.plus(msg, &mut out);
            } else if contents[0] == responses::MINUS_COMMAND {
                self.minus(msg, &mut out);
            }
            let ghost t1 = self@;
            let ghost o1 = out@;
            self.dispatch(msg, &start_of_command, &command_args, &mut out);
            proof {
                lemma_did_then(
                    t0,
                    t1,
                    self@,
                    o0,
                    o1,
                    out@,
                    spec_energy(t0, msg@).1,
                    spec_dispatch(t1, msg@, first_word(msg@.content), arguments(msg@.content)).1,
                );
                assert(actions_view(o0) + spec_command(t0, msg@).1 =~= spec_command(t0, msg@).1);
            }
        }
        out
    }

    /// `command` for every message: `None`, with the table unchanged, where
    /// `command` would not run to its end (see [`command_ok`]).
    pub fn try_command(&mut self, msg: &Incoming) -> (r: Option<Vec<Action>>)
        ensures
            command_ok(old(self)@, msg@) ==> r is Some && final(self)@ == spec_command(old(self)@, msg@).0
                && actions_view(r.unwrap()@) == spec_command(old(self)@, msg@).1,
            !command_ok(old(self)@, msg@) ==> r is None && final(self)@ == old(self)@,
    {
        if self.accepts(msg) {
            Some(self.command(msg))
        } else {
            None
        }
    }

    /// Whether `command` runs to its end for `msg` (see [`command_ok`]).
    pub fn accepts(&self, msg: &Incoming) -> (b: bool)
        ensures
            b == command_ok(self@, msg@),
    {
        let _n = self.games.len();
        let contents = chars_of(msg.content.as_str());
        if !utf8_len_fits(&contents) {
            return false;
        }
        let parsed = read_command(&contents);
        match parsed {
            None => false,
            Some((word, args)) => {
                if msg.is_private {
                    return true;
                }
                if contents[0] == '+' || contents[0] == '-' {
                    proof {
                        lemma_sign_word(msg@.content);
                    }
                    if contents[0] == '+' {
                        self.plus_accepts(msg)
                    } else {
                        self.minus_accepts(msg)
                    }
                } else {
                    self.dispatch_accepts(msg, &word, &args)
                }
            },
        }
    }

    /// Whether the cost of a `+` or `-` message is read, and the energy that
    /// `+` (`plus`) or `-` computes does not overflow.
    fn energy_accepts(&self, msg: &Incoming, plus: bool) -> (b: bool)
        ensures
            plus ==> b == plus_ok(self@, msg@),
            !plus ==> b == minus_ok(self@, msg@),
    {
        let table = self.table_of(msg);
        if table == usize::MAX {
            return true;
        }
        let content = chars_of(msg.content.as_str());
        let arguments = remove_chars_exec(&content, '+', '-');
        let cost = match parse_i64_chars(&arguments) {
            Some(c) => c,
            None => {
                return false;
            },
        };
        let game = self.games[table];
        let e = game[2] as i128;
        let c = cost as i128;
        let lo = i64::MIN as i128;
        let hi = i64::MAX as i128;
        let up = lo <= e + c && e + c <= hi;
        let down = lo <= e - c && e - c <= hi;
        let first = game[3] == 1 && msg.author == game[0];
        let second = game[3] == 2 && msg.author != game[0] && msg.author == game[1];
        if plus {
            (!first || down) && (!second || up)
        } else {
            (!first || up) && (!second || down)
        }
    }

    fn plus_accepts(&self, msg: &Incoming) -> (b: bool)
        ensures
            b == plus_ok(self@, msg@),
    {
        self.energy_accepts(msg, true)
    }

    fn minus_accepts(&self, msg: &Incoming) -> (b: bool)
        ensures
            b == minus_ok(self@, msg@),
    {
        self.energy_accepts(msg, false)
    }

    /// Whether the number argument of `!board` or `!counter` is read.
    fn number_accepts(&self, msg: &Incoming, args: &Vec<char>) -> (b: bool)
        ensures
            b == number_ok(self@, msg@, args@),
    {
        let table = self.table_of(msg);
        let a = remove_chars_exec(args, ' ', ' ');
        if table != usize::MAX && a.len() > 0 && chars_all_numeric(&a) {
            parse_i64_chars(&a).is_some()
        } else {
            true
        }
    }

    /// Whether the command named by `word` runs to its end.
    fn dispatch_accepts(&self, msg: &Incoming, word: &Vec<char>, args: &Vec<char>) -> (b: bool)
        ensures
            b == dispatch_ok(self@, msg@, word@, args@),
    {
        let table = self.table_of(msg);
        let start_ok = if eq_str(word, responses::START_COMMAND) && table == usize::MAX {
            let arguments = string_of(args);
            self.in_game(msg.author, msg.mention, arguments.as_str()) != 4 || self.game_count
                < u32::MAX
        } else {
            true
        };
        let end_ok = !eq_str(word, responses::END_COMMAND) || table == usize::MAX || self.game_count
            > 0;
        let board_ok = !eq_str(word, responses::BOARD_COMMAND) || self.number_accepts(msg, args);
        let counter_ok = !eq_str(word, responses::COUNTER_COMMAND) || self.number_accepts(
            msg,
            args,
        );
        let color_ok = if eq_str(word, responses::COLOR_COMMAND) && table != usize::MAX {
            let a = remove_chars_exec(args, ' ', ' ');
            a.len() == 0 || bit_field_accepts(&string_of(&a))
        } else {
            true
        };
        start_ok && end_ok && board_ok && counter_ok && color_ok
    }

    fn status_all(&mut self, msg: &Incoming, out: &mut Vec<Action>)
        ensures
            did(old(self)@, final(self)@, old(out)@, final(out)@, spec_status_all(old(self)@, msg@)),
    {
        let tag = chars_of(msg.author_tag.as_str());
        if eq_str(&tag, "0xdema#0000") || eq_str(&tag, "duoria#0000") {
            if self.games.len() > 0 {
                let mut games: Vec<[i64; 9]> = Vec::new();
                for i in 0..self.games.len()
                    invariant
                        games@ == self@.games.subrange(0, i as int),
                {
                    games.push(self.games[i]);
                    assert(games@ =~= self@.games.subrange(0, i + 1));
                }
                assert(games@ =~= self@.games);
                emit(out, Action::Send(Text::StatusAll(games)));
            } else {
                assert(actions_view(out@) =~= actions_view(out@) + Seq::<ActionView>::empty());
            }
        } else {
            assert(actions_view(out@) =~= actions_view(out@) + Seq::<ActionView>::empty());
        }
    }
}

} // verus!
