use lunabot::game::{Notice, PairText, Text, Title};
use lunabot::render::{activity_text, strip_discriminator, title_text};
use lunabot::responses;

fn tags(v: &[&str]) -> Vec<String> {
    v.iter().map(|s| s.to_string()).collect()
}

#[test]
fn pair_texts() {
    let t = Text::Players(PairText::GameStart, 1, 2);
    assert_eq!(t.user_ids(), vec![1, 2]);
    assert_eq!(t.render(&tags(&["alice", "bob"])), "Started a game between alice and bob.");
    let t = Text::Players(PairText::CloseGame, 1, 2);
    assert_eq!(t.render(&tags(&["alice", "bob"])), "Your game between alice & bob is now closed.");
    let t = Text::Players(PairText::ResetGame, 1, 2);
    assert_eq!(
        t.render(&tags(&["alice", "bob"])),
        "Your game between alice and bob has been reset."
    );
}

#[test]
fn replacement_runs_over_the_filled_text() {
    let t = Text::Players(PairText::GameStart, 1, 2);
    assert_eq!(
        t.render(&tags(&["PLAYER_TWO", "bob"])),
        "Started a game between bob and bob."
    );
}

#[test]
fn not_your_turn_text() {
    let t = Text::NotYourTurn(2);
    assert_eq!(t.user_ids(), vec![2]);
    assert_eq!(t.render(&tags(&["bob"])), "It is bob's turn.");
}

#[test]
fn turn_status_texts() {
    let t = Text::TurnStatus { turn: 0, player_one: 1, player_two: 2 };
    assert_eq!(t.render(&tags(&["a", "b"])), "It is the the starting player's turn (a v b)");
    let t = Text::TurnStatus { turn: 1, player_one: 1, player_two: 2 };
    assert_eq!(t.render(&tags(&["a", "b"])), "It is the a's turn (a v b)");
    let t = Text::TurnStatus { turn: 2, player_one: 1, player_two: 2 };
    assert_eq!(t.render(&tags(&["a", "b"])), "It is the b's turn (a v b)");
}

#[test]
fn status_all_text() {
    let t = Text::StatusAll(vec![
        [1, 2, i64::MAX, 0, 16, 17, 4, 0, 0],
        [3, 4, -2, 2, 16, 17, 4, 0, 0],
    ]);
    assert_eq!(t.user_ids(), vec![1, 2, 3, 4]);
    assert_eq!(
        t.render(&tags(&["a", "b", "c", "d"])),
        "Table: 0 ~ a vs b - Starting player's turn. ~ 0 energy.\r\n\
         Table: 1 ~ c vs d - d's turn. ~ -2 energy.\r\n"
    );
}

#[test]
fn notices() {
    assert_eq!(Text::Notice(Notice::NotInGame).render(&vec![]), responses::NOT_IN_GAME);
    assert_eq!(
        Text::Notice(Notice::PrivateHelp).render(&vec![]),
        responses::HELP_MESSAGE.to_string() + responses::PRIVATE_ERROR_MESSAGE
    );
    assert_eq!(Text::Empty.render(&vec![]), "");
}

#[test]
fn activity_grammar() {
    assert_eq!(activity_text(0), "0 games.");
    assert_eq!(activity_text(1), "1 game.");
    assert_eq!(activity_text(12), "12 games.");
}

#[test]
fn tags_lose_the_zero_discriminator() {
    assert_eq!(strip_discriminator("bob#0000"), "bob");
    assert_eq!(strip_discriminator("bob#1234"), "bob#1234");
}

#[test]
fn titles() {
    assert_eq!(title_text(Title::GameStart), "Game Start");
    assert_eq!(title_text(Title::Blank), "");
    assert_eq!(title_text(Title::MemoryGaugeChanged), "Memory Gauge Changed");
}
