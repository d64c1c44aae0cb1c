use lunabot::commands::Incoming;
use lunabot::game::{Action, GameTable, Mention, Notice, PairText, Text, Title};

const RED: i64 = 16711680;
const BLUE: i64 = 255;

fn msg(author: i64, content: &str, mention: Option<(i64, bool)>) -> Incoming {
    Incoming {
        content: content.to_string(),
        is_private: false,
        author,
        author_tag: format!("user{}#0000", author),
        mention: mention.map(|(id, bot)| Mention { id, bot }),
    }
}

fn run(t: &mut GameTable, m: &Incoming) -> Vec<Action> {
    t.try_command(m).expect("the command runs")
}

fn started() -> GameTable {
    let mut t = GameTable::new();
    run(&mut t, &msg(1, "!start <@2>", Some((2, false))));
    t
}

#[test]
fn start_opens_a_game() {
    let mut t = GameTable::new();
    let a = run(&mut t, &msg(1, "!start <@2>", Some((2, false))));
    let game = [1, 2, i64::MAX, 0, 16, 17, 4, RED, BLUE];
    assert_eq!(
        a,
        vec![
            Action::SetActivity(0),
            Action::ShowGame {
                game,
                table: 0,
                description: Text::Players(PairText::GameStart, 1, 2),
                title: Title::GameStart,
            },
            Action::SetActivity(1),
        ]
    );
    assert_eq!(t.games, vec![game]);
    assert_eq!(t.game_count, 1);
}

#[test]
fn start_refusals() {
    let mut t = GameTable::new();
    assert_eq!(run(&mut t, &msg(1, "!start", None)), vec![Action::Send(Text::Notice(Notice::NoPlayer))]);
    assert_eq!(
        run(&mut t, &msg(1, "!start <@1>", Some((1, false)))),
        vec![Action::Send(Text::Notice(Notice::SelfBattle))]
    );
    assert_eq!(
        run(&mut t, &msg(1, "!start <@9>", Some((9, true)))),
        vec![Action::Send(Text::Notice(Notice::BotBattle))]
    );
    assert_eq!(
        run(&mut t, &msg(1, "!start someone", None)),
        vec![Action::Send(Text::Notice(Notice::ValidPlayer))]
    );
    assert!(t.games.is_empty());
    let mut t = started();
    assert_eq!(
        run(&mut t, &msg(3, "!start <@2>", Some((2, false)))),
        vec![Action::Send(Text::Notice(Notice::AlreadyInGame))]
    );
    assert_eq!(t.games.len(), 1);
}

#[test]
fn in_game_codes() {
    let t = started();
    assert_eq!(t.in_game(5, None, ""), 0);
    assert_eq!(t.in_game(5, Some(Mention { id: 5, bot: false }), "x"), 1);
    assert_eq!(t.in_game(5, Some(Mention { id: 6, bot: true }), "x"), 2);
    assert_eq!(t.in_game(5, Some(Mention { id: 2, bot: false }), "x"), 3);
    assert_eq!(t.in_game(5, Some(Mention { id: 6, bot: false }), "x"), 4);
    assert_eq!(t.in_game(5, None, "x"), 5);
}

#[test]
fn in_game_looks_at_every_game() {
    let mut t = started();
    run(&mut t, &msg(3, "!start <@4>", Some((4, false))));
    assert_eq!(t.in_game(5, Some(Mention { id: 4, bot: false }), "x"), 3);
    assert_eq!(t.in_game(3, Some(Mention { id: 6, bot: false }), "x"), 3);
    assert_eq!(t.in_game(5, Some(Mention { id: 6, bot: false }), "x"), 4);
}

#[test]
fn table_id_finds_the_game() {
    let mut t = started();
    run(&mut t, &msg(3, "!start <@4>", Some((4, false))));
    assert_eq!(t.table_id(1, None), 0);
    assert_eq!(t.table_id(4, None), 1);
    assert_eq!(t.table_id(7, Some(Mention { id: 3, bot: false })), 1);
    assert_eq!(t.table_id(7, None), usize::MAX);
    // Both named players in the first game: that game is found.
    assert_eq!(t.table_id(1, Some(Mention { id: 2, bot: false })), 0);
}

#[test]
fn spending_energy_hands_over_the_turn() {
    let mut t = started();
    let a = run(&mut t, &msg(1, "-3", None));
    let game = [1, 2, 3, 2, 16, 17, 4, RED, BLUE];
    assert_eq!(
        a,
        vec![
            Action::SetActivity(1),
            Action::SetActivity(1),
            Action::SetActivity(1),
            Action::ShowGame { game, table: 0, description: Text::Empty, title: Title::Blank },
        ]
    );
    assert_eq!(t.games, vec![game]);
}

#[test]
fn spending_too_much_energy() {
    let mut t = started();
    let a = run(&mut t, &msg(1, "-11", None));
    assert_eq!(a[0], Action::Send(Text::Notice(Notice::NotEnoughEnergy)));
    assert_eq!(t.games[0][2], 0);
    assert_eq!(t.games[0][3], 0);
}

#[test]
fn waiting_for_the_turn() {
    let mut t = started();
    run(&mut t, &msg(1, "-3", None));
    let a = run(&mut t, &msg(1, "-1", None));
    assert_eq!(a[0], Action::Send(Text::Notice(Notice::WaitForTurn)));
    let a = run(&mut t, &msg(2, "-5", None));
    assert_eq!(t.games[0][2], -2);
    assert_eq!(t.games[0][3], 1);
    assert_eq!(a.len(), 3);
}

#[test]
fn gaining_energy_is_capped() {
    let mut t = started();
    run(&mut t, &msg(2, "+20", None));
    assert_eq!(t.games[0][2], 10);
    assert_eq!(t.games[0][3], 0);
    run(&mut t, &msg(2, "+4", None));
    assert_eq!(t.games[0][2], 4);
    assert_eq!(t.games[0][3], 2);
}

#[test]
fn pass_resets_energy_to_three() {
    let mut t = started();
    let a = run(&mut t, &msg(1, "!pass", None));
    let game = [1, 2, 3, 2, 16, 17, 4, RED, BLUE];
    assert_eq!(a.last(), Some(&Action::ShowGame { game, table: 0, description: Text::Empty, title: Title::TurnPassed }));
    assert_eq!(t.games, vec![game]);
    let a = run(&mut t, &msg(1, "!pass", None));
    assert_eq!(a[0], Action::Send(Text::NotYourTurn(2)));
    run(&mut t, &msg(2, "!pass", None));
    assert_eq!(t.games[0][2], -3);
    assert_eq!(t.games[0][3], 1);
}

#[test]
fn status_shows_the_turn() {
    let mut t = started();
    let a = run(&mut t, &msg(2, "!status", None));
    assert_eq!(
        a,
        vec![Action::ShowGame {
            game: t.games[0],
            table: 0,
            description: Text::TurnStatus { turn: 0, player_one: 1, player_two: 2 },
            title: Title::GameStatus,
        }]
    );
    let mut empty = GameTable::new();
    assert_eq!(run(&mut empty, &msg(2, "!status", None)), vec![Action::Send(Text::Notice(Notice::NotInGame))]);
}

#[test]
fn end_closes_the_game() {
    let mut t = started();
    let a = run(&mut t, &msg(2, "!end", None));
    assert_eq!(
        a,
        vec![Action::Send(Text::Players(PairText::CloseGame, 1, 2)), Action::SetActivity(0)]
    );
    assert!(t.games.is_empty());
    assert_eq!(t.game_count, 0);
    assert_eq!(t.table_id(2, None), usize::MAX);
    assert_eq!(run(&mut t, &msg(2, "!end", None)), vec![Action::Send(Text::Notice(Notice::NotInGame))]);
}

#[test]
fn end_naming_the_opponent_closes_their_game() {
    let mut t = started();
    run(&mut t, &msg(3, "!start <@4>", Some((4, false))));
    run(&mut t, &msg(1, "!board 2", None));
    run(&mut t, &msg(1, "!end <@2>", Some((2, false))));
    assert_eq!(t.games, vec![[3, 4, i64::MAX, 0, 16, 17, 4, RED, BLUE]]);
    assert_eq!(t.game_count, 1);
    assert_eq!(t.table_id(1, Some(Mention { id: 2, bot: false })), usize::MAX);
}

#[test]
fn end_naming_the_opponent_in_the_first_game() {
    let mut t = started();
    run(&mut t, &msg(3, "!start <@4>", Some((4, false))));
    run(&mut t, &msg(3, "!board 2", None));
    assert_eq!(t.table_id(1, Some(Mention { id: 2, bot: false })), 0);
    run(&mut t, &msg(1, "!end <@2>", Some((2, false))));
    assert_eq!(t.games, vec![[3, 4, i64::MAX, 0, 2, 17, 4, RED, BLUE]]);
}

#[test]
fn reset_restarts_the_game() {
    let mut t = started();
    run(&mut t, &msg(1, "-3", None));
    let a = run(&mut t, &msg(1, "!reset", None));
    let game = [1, 2, i64::MAX, 0, 16, 17, 4, RED, BLUE];
    assert_eq!(
        a.last(),
        Some(&Action::ShowGame {
            game,
            table: 0,
            description: Text::Players(PairText::ResetGame, 1, 2),
            title: Title::GameReset,
        })
    );
    assert_eq!(t.games, vec![game]);
}

#[test]
fn reset_at_any_table() {
    let mut t = started();
    run(&mut t, &msg(3, "!start <@4>", Some((4, false))));
    run(&mut t, &msg(4, "+2", None));
    let a = run(&mut t, &msg(3, "!reset", None));
    let game = [3, 4, i64::MAX, 0, 16, 17, 4, RED, BLUE];
    assert_eq!(
        a,
        vec![
            Action::SetActivity(2),
            Action::SetActivity(2),
            Action::ShowGame {
                game,
                table: 1,
                description: Text::Players(PairText::ResetGame, 3, 4),
                title: Title::GameReset,
            },
        ]
    );
    assert_eq!(t.games[1], game);
    assert_eq!(run(&mut t, &msg(9, "!reset", None)), vec![Action::Send(Text::Notice(Notice::NotInGame))]);
}

#[test]
fn customisation_at_any_table() {
    let mut t = started();
    run(&mut t, &msg(3, "!start <@4>", Some((4, false))));
    run(&mut t, &msg(1, "!board 1", None));
    // Player 3's game is now at table 0, player 1's at table 1.
    let a = run(&mut t, &msg(2, "!board 9", None));
    assert_eq!(
        a.last(),
        Some(&Action::ShowGame {
            game: [1, 2, i64::MAX, 0, 1, 9, 4, RED, BLUE],
            table: 1,
            description: Text::Empty,
            title: Title::MemoryGaugeChanged,
        })
    );
    run(&mut t, &msg(4, "!counter 3", None));
    run(&mut t, &msg(4, "!color #00ff00", None));
    assert_eq!(t.games[0], [1, 2, i64::MAX, 0, 1, 9, 4, RED, BLUE]);
    assert_eq!(t.games[1], [3, 4, i64::MAX, 0, 16, 17, 3, RED, 65280]);
}

#[test]
fn pass_shows_the_passers_game() {
    let mut t = started();
    run(&mut t, &msg(3, "!start <@4>", Some((4, false))));
    let a = run(&mut t, &msg(1, "!pass", None));
    assert_eq!(t.games[1], [1, 2, 3, 2, 16, 17, 4, RED, BLUE]);
    assert_eq!(
        a.last(),
        Some(&Action::ShowGame {
            game: [1, 2, 3, 2, 16, 17, 4, RED, BLUE],
            table: 0,
            description: Text::Empty,
            title: Title::TurnPassed,
        })
    );
}

#[test]
fn board_choices() {
    let mut t = started();
    run(&mut t, &msg(1, "!board 5", None));
    assert_eq!(t.games[0][4], 5);
    run(&mut t, &msg(2, "!board 1 2", None));
    assert_eq!(t.games[0][5], 12);
    assert_eq!(run(&mut t, &msg(1, "!board 18", None)), vec![Action::Send(Text::Notice(Notice::SelectOption))]);
    assert_eq!(run(&mut t, &msg(1, "!board x", None)), vec![Action::Send(Text::Notice(Notice::SelectOption))]);
    assert_eq!(run(&mut t, &msg(1, "!board", None)), vec![Action::Send(Text::Notice(Notice::SelectOption))]);
}

#[test]
fn counter_choices() {
    let mut t = started();
    let a = run(&mut t, &msg(2, "!counter 3", None));
    assert_eq!(t.games[0][6], 3);
    assert_eq!(a.last().map(|x| match x {
        Action::ShowGame { title, .. } => *title,
        _ => Title::Blank,
    }), Some(Title::CounterChanged));
    assert_eq!(run(&mut t, &msg(2, "!counter 6", None)), vec![Action::Send(Text::Notice(Notice::CounterSelect))]);
}

#[test]
fn color_choices() {
    let mut t = started();
    run(&mut t, &msg(1, "!color #fff", None));
    assert_eq!(t.games[0][7], 16777215);
    run(&mut t, &msg(2, "!color ( 1, 2, 3 )", None));
    assert_eq!(t.games[0][8], 65536 + 2 * 256 + 3);
    assert_eq!(run(&mut t, &msg(2, "!color", None)), vec![Action::Send(Text::Notice(Notice::SelectOption))]);
}

#[test]
fn private_messages_get_help() {
    let mut t = GameTable::new();
    let mut m = msg(1, "!start <@2>", Some((2, false)));
    m.is_private = true;
    assert_eq!(run(&mut t, &m), vec![Action::Send(Text::Notice(Notice::PrivateHelp))]);
    assert!(t.games.is_empty());
}

#[test]
fn help_quit_and_other_words() {
    let mut t = GameTable::new();
    assert_eq!(run(&mut t, &msg(1, "!help", None)), vec![Action::SendHelp]);
    assert_eq!(run(&mut t, &msg(1, "!quit", None)), vec![Action::Quit]);
    assert_eq!(run(&mut t, &msg(1, "hello there", None)), vec![]);
}

#[test]
fn status_all_for_administrators() {
    let mut t = started();
    let mut m = msg(9, "!statusall", None);
    assert_eq!(run(&mut t, &m), vec![]);
    m.author_tag = "0xdema#0000".to_string();
    assert_eq!(run(&mut t, &m), vec![Action::Send(Text::StatusAll(t.games.clone()))]);
    let mut empty = GameTable::new();
    assert_eq!(run(&mut empty, &m), vec![]);
}

#[test]
fn messages_that_would_panic_are_refused() {
    let mut t = started();
    assert!(t.try_command(&msg(1, "   ", None)).is_none());
    assert!(t.try_command(&msg(1, "", None)).is_none());
    assert!(t.try_command(&msg(1, "+abc", None)).is_none());
    assert!(t.try_command(&msg(1, "- 3", None)).is_none());
    assert!(t.try_command(&msg(1, "!board \u{b2}", None)).is_none());
    assert!(t.try_command(&msg(1, "!color 1,2", None)).is_none());
    assert!(t.try_command(&msg(1, "!board 99999999999999999999", None)).is_none());
    // Outside a game the amount is never read.
    let mut empty = GameTable::new();
    assert_eq!(empty.try_command(&msg(1, "+abc", None)), Some(vec![Action::Send(Text::Notice(Notice::NotInGame))]));
    assert_eq!(t.games.len(), 1);
}

#[test]
fn leading_space_shifts_the_arguments() {
    let mut t = started();
    // " !board 5": the arguments are cut after six bytes of the whole text.
    let a = run(&mut t, &msg(1, " !board 5", None));
    assert_eq!(a, vec![Action::Send(Text::Notice(Notice::SelectOption))]);
}

#[test]
fn the_table_stays_well_formed() {
    let mut t = started();
    run(&mut t, &msg(3, "!start <@4>", Some((4, false))));
    for (author, content) in [(1, "-4"), (2, "+30"), (4, "!pass"), (3, "-10"), (1, "!board 9"), (2, "!reset")] {
        run(&mut t, &msg(author, content, None));
    }
    assert_eq!(t.game_count as usize, t.games.len());
    for g in &t.games {
        assert!(g[0] != g[1]);
        assert!((0..=2).contains(&g[3]));
        assert!((-10..=10).contains(&g[2]) || (g[2] == i64::MAX && g[3] == 0));
        assert!((1..=17).contains(&g[4]) && (1..=17).contains(&g[5]) && (1..=5).contains(&g[6]));
    }
}

fn well_formed(t: &GameTable) -> bool {
    t.game_count as usize == t.games.len()
        && t.games.iter().all(|g| {
            g[0] != g[1]
                && (0..=2).contains(&g[3])
                && ((-10..=10).contains(&g[2]) || (g[2] == i64::MAX && g[3] == 0))
                && (1..=17).contains(&g[4])
                && (1..=17).contains(&g[5])
                && (1..=5).contains(&g[6])
        })
}

#[test]
fn one_change_naming_another_game_keeps_the_table() {
    let mut t = started();
    run(&mut t, &msg(3, "!start <@4>", Some((4, false))));
    // A reply mentions its target without naming it in the text.
    run(&mut t, &msg(1, "!board 5", Some((3, false))));
    run(&mut t, &msg(4, "!counter 2", Some((2, false))));
    assert!(well_formed(&t));
    assert_eq!(t.games[0], [1, 2, i64::MAX, 0, 5, 17, 4, RED, BLUE]);
    assert_eq!(t.games[1], [3, 4, i64::MAX, 0, 16, 17, 2, RED, BLUE]);
}

#[test]
fn reset_naming_another_game_changes_both_games() {
    let mut t = started();
    run(&mut t, &msg(3, "!start <@4>", Some((4, false))));
    run(&mut t, &msg(1, "-4", None));
    run(&mut t, &msg(3, "!board 3", None));
    assert_eq!(t.games[0][..4], [1, 2, 4, 2]);
    // The energy is reset in the author's game, which then moves behind the
    // mentioned user's game; the turn is reset in the game found first.
    run(&mut t, &msg(1, "!reset <@3>", Some((3, false))));
    assert_eq!(
        t.games,
        vec![[1, 2, i64::MAX, 2, 16, 17, 4, RED, BLUE], [3, 4, i64::MAX, 0, 3, 17, 4, RED, BLUE]]
    );
    assert!(!well_formed(&t));
}

#[test]
fn change_value_then_find_game() {
    let mut t = started();
    run(&mut t, &msg(3, "!start <@4>", Some((4, false))));
    let mut out = Vec::new();
    let before = t.find_game(1, None);
    t.change_value(1, None, 6, 2, &mut out);
    let after = t.find_game(1, None);
    let mut expected = before;
    expected[6] = 2;
    assert_eq!(after, expected);
    assert_eq!(t.table_id(1, None), 1);
    assert_eq!(out, vec![Action::SetActivity(2)]);
}

#[test]
fn read_game_fields() {
    let g = [1, 2, 3, 4, 5, 6, 7, 8, 9];
    assert_eq!(lunabot::game::read_game(g, 0), 1);
    assert_eq!(lunabot::game::read_game(g, 8), 9);
}

#[test]
fn reset_keeps_the_customization() {
    let mut t = started();
    run(&mut t, &msg(1, "!board 3", None));
    run(&mut t, &msg(2, "!counter 1", None));
    run(&mut t, &msg(2, "!color white", None));
    run(&mut t, &msg(1, "-2", None));
    run(&mut t, &msg(1, "!reset", None));
    assert_eq!(t.games, vec![[1, 2, i64::MAX, 0, 3, 17, 1, RED, 16777215]]);
}

#[test]
fn reset_with_two_games_shows_the_reset_game() {
    let mut t = started();
    run(&mut t, &msg(3, "!start <@4>", Some((4, false))));
    let a = run(&mut t, &msg(1, "!reset", None));
    // The reset game moved to the end; it is shown under its table before the reset.
    assert_eq!(t.games[1], [1, 2, i64::MAX, 0, 16, 17, 4, RED, BLUE]);
    assert_eq!(
        a.last(),
        Some(&Action::ShowGame {
            game: t.games[1],
            table: 0,
            description: Text::Players(PairText::ResetGame, 1, 2),
            title: Title::GameReset,
        })
    );
}
