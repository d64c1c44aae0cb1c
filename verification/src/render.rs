//! The texts that the bot sends: replies are filled in with the tags of the
//! users they name, and the bot's presence counts the games.
use vstd::prelude::*;

use crate::game::{Notice, PairText, Text, TextView, Title, OPEN_ENERGY};
use crate::responses;
use crate::text::{chars_of, decimal, push_all, push_decimal_i64, push_str, replace_all, replace_exec, string_of};

verus! {

/// The text of a fixed reply.
pub open spec fn notice_text(n: Notice) -> Seq<char> {
    match n {
        Notice::NoPlayer => responses::NO_PLAYER_ERROR_MESSAGE@,
        Notice::SelfBattle => responses::SELF_ERROR_MESSAGE@,
        Notice::BotBattle => responses::BOT_ERROR_MESSAGE@,
        Notice::OtherGame => responses::OTHER_GAME_ERROR_MESSAGE@,
        Notice::ValidPlayer => responses::VALID_PLAYER_ERROR_MESSAGE@,
        Notice::AlreadyInGame => responses::ALREADY_IN_GAME@,
        Notice::NotInGame => responses::NOT_IN_GAME@,
        Notice::WaitForTurn => responses::WAIT_FOR_TURN@,
        Notice::NotEnoughEnergy => responses::NOT_ENOUGH_ENERGY@,
        Notice::SelectOption => responses::SELECT_OPTION@,
        Notice::CounterSelect => responses::COUNTER_SELECT@,
        Notice::PrivateHelp => responses::HELP_MESSAGE@ + responses::PRIVATE_ERROR_MESSAGE@,
    }
}

/// The template of a reply that names two players.
pub open spec fn pair_template(p: PairText) -> Seq<char> {
    match p {
        PairText::GameStart => responses::GAME_START@,
        PairText::CloseGame => responses::CLOSE_GAME@,
        PairText::ResetGame => responses::RESET_GAME@,
    }
}

/// The users whose tags a text needs, in the order in which they are looked up.
pub open spec fn text_users(t: TextView) -> Seq<i64> {
    match t {
        TextView::Players(_, a, b) => seq![a, b],
        TextView::NotYourTurn(p) => seq![p],
        TextView::TurnStatus { turn, player_one, player_two } => seq![player_one, player_two],
        TextView::StatusAll(games) => status_users(games),
        _ => seq![],
    }
}

/// The players of each game, in order.
pub open spec fn status_users(games: Seq<[i64; 9]>) -> Seq<i64>
    decreases games.len(),
{
    if games.len() == 0 {
        seq![]
    } else {
        status_users(games.drop_last()) + seq![games.last()[0], games.last()[1]]
    }
}

/// Who is on turn in a `!status` reply.
pub open spec fn turn_text(turn: i64, one: Seq<char>, two: Seq<char>) -> Seq<char> {
    let base = responses::TURN_STATUS@;
    if turn == 0 {
        replace_all(base, "TURN_PLAYER"@, "the starting player"@)
    } else if turn == 1 {
        replace_all(base, "TURN_PLAYER"@, one)
    } else if turn == 2 {
        replace_all(base, "TURN_PLAYER"@, two)
    } else {
        base
    }
}

/// The energy shown in the `!statusall` list: 0 before anyone has played.
pub open spec fn energy_text(energy: i64) -> Seq<char> {
    if energy == OPEN_ENERGY {
        decimal(0)
    } else {
        decimal(energy as int)
    }
}

/// One line of the `!statusall` list: the line template is appended to `out`,
/// then the placeholders of the whole text are filled in.
pub open spec fn status_line(out: Seq<char>, i: int, g: [i64; 9], one: Seq<char>, two: Seq<char>) -> Seq<char> {
    let s = out + responses::FULL_TURN_STATUS@;
    let s = replace_all(s, "TABLE_ID"@, decimal(i));
    let s = replace_all(s, "PLAYER_ONE"@, one);
    let s = replace_all(s, "PLAYER_TWO"@, two);
    let s = if g[3] == 0 {
        replace_all(s, "TURN_PLAYER"@, "Starting player"@)
    } else if g[3] == 1 {
        replace_all(s, "TURN_PLAYER"@, one)
    } else if g[3] == 2 {
        replace_all(s, "TURN_PLAYER"@, two)
    } else {
        s
    };
    replace_all(s, "TOTAL_ENERGY"@, energy_text(g[2]))
}

/// The `!statusall` list of the first `n` games.
pub open spec fn status_all_text(games: Seq<[i64; 9]>, tags: Seq<Seq<char>>, n: int) -> Seq<char>
    decreases n,
{
    if n <= 0 {
        seq![]
    } else {
        status_line(
            status_all_text(games, tags, n - 1),
            n - 1,
            games[n - 1],
            tags[2 * (n - 1)],
            tags[2 * (n - 1) + 1],
        )
    }
}

/// The text sent for `t`, with `tags[i]` the tag of user `i` of [`text_users`].
pub open spec fn rendered(t: TextView, tags: Seq<Seq<char>>) -> Seq<char> {
    match t {
        TextView::Empty => seq![],
        TextView::Notice(n) => notice_text(n),
        TextView::Players(p, _, _) => replace_all(
            replace_all(pair_template(p), "PLAYER_ONE"@, tags[0]),
            "PLAYER_TWO"@,
            tags[1],
        ),
        TextView::NotYourTurn(_) => replace_all(responses::NOT_YOUR_TURN@, "PLAYER_TWO"@, tags[0]),
        TextView::TurnStatus { turn, player_one, player_two } => turn_text(turn, tags[0], tags[1])
            + " ("@ + tags[0] + " v "@ + tags[1] + ")"@,
        TextView::StatusAll(games) => status_all_text(games, tags, games.len() as int),
    }
}

/// The views of a list of strings.
pub open spec fn strings_view(v: Seq<String>) -> Seq<Seq<char>> {
    v.map_values(|s: String| s@)
}

fn notice_str(n: Notice) -> (s: &'static str)
    ensures
        n != Notice::PrivateHelp ==> s@ == notice_text(n),
        n == Notice::PrivateHelp ==> s@ == responses::HELP_MESSAGE@,
{
    match n {
        Notice::NoPlayer => responses::NO_PLAYER_ERROR_MESSAGE,
        Notice::SelfBattle => responses::SELF_ERROR_MESSAGE,
        Notice::BotBattle => responses::BOT_ERROR_MESSAGE,
        Notice::OtherGame => responses::OTHER_GAME_ERROR_MESSAGE,
        Notice::ValidPlayer => responses::VALID_PLAYER_ERROR_MESSAGE,
        Notice::AlreadyInGame => responses::ALREADY_IN_GAME,
        Notice::NotInGame => responses::NOT_IN_GAME,
        Notice::WaitForTurn => responses::WAIT_FOR_TURN,
        Notice::NotEnoughEnergy => responses::NOT_ENOUGH_ENERGY,
        Notice::SelectOption => responses::SELECT_OPTION,
        Notice::CounterSelect => responses::COUNTER_SELECT,
        Notice::PrivateHelp => responses::HELP_MESSAGE,
    }
}

/// Replaces `pat` by `rep` in `s`.
fn replace_str(s: &Vec<char>, pat: &str, rep: &Vec<char>) -> (r: Vec<char>)
    ensures
        r@ == replace_all(s@, pat@, rep@),
{
    let p = chars_of(pat);
    replace_exec(s, &p, rep)
}

impl Text {
    /// The users whose tags the text needs, in order.
    pub fn user_ids(&self) -> (ids: Vec<i64>)
        ensures
            ids@ == text_users(self@),
    {
        match self {
            Text::Players(_, a, b) => vec![*a, *b],
            Text::NotYourTurn(p) => vec![*p],
            Text::TurnStatus { turn, player_one, player_two } => vec![*player_one, *player_two],
            Text::StatusAll(games) => {
                let mut ids: Vec<i64> = Vec::new();
                for i in 0..games.len()
                    invariant
                        ids@ == status_users(games@.subrange(0, i as int)),
                {
                    assert(games@.subrange(0, i + 1).drop_last() =~= games@.subrange(0, i as int));
                    ids.push(games[i][0]);
                    ids.push(games[i][1]);
                    assert(ids@ =~= status_users(games@.subrange(0, i + 1)));
                }
                assert(games@.subrange(0, games@.len() as int) =~= games@);
                ids
            },
            _ => {
                let ids: Vec<i64> = Vec::new();
                assert(ids@ =~= text_users(self@));
                ids
            },
        }
    }

    /// The text sent, with `tags[i]` the tag of the `i`-th user of
    /// [`Text::user_ids`].
    pub fn render(&self, tags: &Vec<String>) -> (s: String)
        requires
            tags@.len() == text_users(self@).len(),
        ensures
            s@ == rendered(self@, strings_view(tags@)),
            self@ matches TextView::StatusAll(games) && games.len() > 0 ==> s@.len() > 0,
    {
        proof {
            if let TextView::StatusAll(games) = self@ {
                if games.len() > 0 {
                    lemma_status_all_nonempty(games, strings_view(tags@), games.len() as int);
                }
            }
        }
        let ghost tv = strings_view(tags@);
        let out: Vec<char> = match self {
            Text::Empty => Vec::new(),
            Text::Notice(n) => {
                let mut v = chars_of(notice_str(*n));
                if let Notice::PrivateHelp = n {
                    push_str(&mut v, responses::PRIVATE_ERROR_MESSAGE);
                }
                v
            },
            Text::Players(p, _, _) => {
                let template = match p {
                    PairText::GameStart => responses::GAME_START,
                    PairText::CloseGame => responses::CLOSE_GAME,
                    PairText::ResetGame => responses::RESET_GAME,
                };
                let one = chars_of(tags[0].as_str());
                let two = chars_of(tags[1].as_str());
                let s = replace_str(&chars_of(template), "PLAYER_ONE", &one);
                replace_str(&s, "PLAYER_TWO", &two)
            },
            Text::NotYourTurn(_) => {
                let two = chars_of(tags[0].as_str());
                replace_str(&chars_of(responses::NOT_YOUR_TURN), "PLAYER_TWO", &two)
            },
            Text::TurnStatus { turn, player_one, player_two } => {
                let one = chars_of(tags[0].as_str());
                let two = chars_of(tags[1].as_str());
                let base = chars_of(responses::TURN_STATUS);
                let mut output = if *turn == 0 {
                    replace_str(&base, "TURN_PLAYER", &chars_of("the starting player"))
                } else if *turn == 1 {
                    replace_str(&base, "TURN_PLAYER", &one)
                } else if *turn == 2 {
                    replace_str(&base, "TURN_PLAYER", &two)
                } else {
                    base
                };
                push_str(&mut output, " (");
                push_all(&mut output, &one);
                push_str(&mut output, " v ");
                push_all(&mut output, &two);
                push_str(&mut output, ")");
                output
            },
            Text::StatusAll(games) => {
                let mut output: Vec<char> = Vec::new();
                let nt = tags.len();
                for i in 0..games.len()
                    invariant
                        nt == tags@.len(),
                        tags@.len() == text_users(self@).len(),
                        tv == strings_view(tags@),
                        self@ == TextView::StatusAll(games@),
                        output@ == status_all_text(games@, tv, i as int),
                {
                    proof {
                        lemma_status_users_len(games@);
                    }
                    let one = chars_of(tags[2 * i].as_str());
                    let two = chars_of(tags[2 * i + 1].as_str());
                    let g = games[i];
                    push_str(&mut output, responses::FULL_TURN_STATUS);
                    let mut number: Vec<char> = Vec::new();
                    push_decimal_i64(&mut number, i as i64);
                    output = replace_str(&output, "TABLE_ID", &number);
                    output = replace_str(&output, "PLAYER_ONE", &one);
                    output = replace_str(&output, "PLAYER_TWO", &two);
                    if g[3] == 0 {
                        output = replace_str(&output, "TURN_PLAYER", &chars_of("Starting player"));
                    } else if g[3] == 1 {
                        output = replace_str(&output, "TURN_PLAYER", &one);
                    } else if g[3] == 2 {
                        output = replace_str(&output, "TURN_PLAYER", &two);
                    }
                    let mut energy: Vec<char> = Vec::new();
                    if g[2] == OPEN_ENERGY {
                        push_decimal_i64(&mut energy, 0);
                    } else {
                        push_decimal_i64(&mut energy, g[2]);
                    }
                    output = replace_str(&output, "TOTAL_ENERGY", &energy);
                }
                output
            },
        };
        string_of(&out)
    }
}

proof fn lemma_replace_keeps_last(s: Seq<char>, pat: Seq<char>, rep: Seq<char>)
    requires
        s.len() > 0,
        !pat.contains(s.last()),
    ensures
        replace_all(s, pat, rep).len() > 0,
        replace_all(s, pat, rep).last() == s.last(),
    decreases s.len(),
{
    let r = replace_all(s, pat, rep);
    if pat.len() > 0 && pat.len() <= s.len() && s.subrange(0, pat.len() as int) == pat {
        if pat.len() == s.len() {
            assert(s.subrange(0, pat.len() as int) =~= s);
            assert(pat[pat.len() - 1] == s.last());
            assert(false);
        }
        let rest = s.subrange(pat.len() as int, s.len() as int);
        assert(rest.last() == s.last());
        lemma_replace_keeps_last(rest, pat, rep);
    } else if s.len() == 1 {
        assert(s.drop_first() =~= Seq::<char>::empty());
        assert(replace_all(s.drop_first(), pat, rep) =~= Seq::<char>::empty());
        assert(r =~= seq![s[0]]);
    } else {
        assert(s.drop_first().last() == s.last());
        lemma_replace_keeps_last(s.drop_first(), pat, rep);
    }
}

proof fn lemma_status_line_ends(out: Seq<char>, i: int, g: [i64; 9], one: Seq<char>, two: Seq<char>)
    ensures
        status_line(out, i, g, one, two).len() > 0,
        status_line(out, i, g, one, two).last() == '\n',
{
    reveal_strlit("Table: TABLE_ID ~ PLAYER_ONE vs PLAYER_TWO - TURN_PLAYER's turn. ~ TOTAL_ENERGY energy.\r\n");
    reveal_strlit("TABLE_ID");
    reveal_strlit("PLAYER_ONE");
    reveal_strlit("PLAYER_TWO");
    reveal_strlit("TURN_PLAYER");
    reveal_strlit("TOTAL_ENERGY");
    let s0 = out + responses::FULL_TURN_STATUS@;
    assert(s0.last() == '\n');
    assert(!"TABLE_ID"@.contains('\n'));
    assert(!"PLAYER_ONE"@.contains('\n'));
    assert(!"PLAYER_TWO"@.contains('\n'));
    assert(!"TURN_PLAYER"@.contains('\n'));
    assert(!"TOTAL_ENERGY"@.contains('\n'));
    lemma_replace_keeps_last(s0, "TABLE_ID"@, decimal(i));
    let s1 = replace_all(s0, "TABLE_ID"@, decimal(i));
    lemma_replace_keeps_last(s1, "PLAYER_ONE"@, one);
    let s2 = replace_all(s1, "PLAYER_ONE"@, one);
    lemma_replace_keeps_last(s2, "PLAYER_TWO"@, two);
    let s3 = replace_all(s2, "PLAYER_TWO"@, two);
    lemma_replace_keeps_last(s3, "TURN_PLAYER"@, "Starting player"@);
    lemma_replace_keeps_last(s3, "TURN_PLAYER"@, one);
    lemma_replace_keeps_last(s3, "TURN_PLAYER"@, two);
    let s4 = if g[3] == 0 {
        replace_all(s3, "TURN_PLAYER"@, "Starting player"@)
    } else if g[3] == 1 {
        replace_all(s3, "TURN_PLAYER"@, one)
    } else if g[3] == 2 {
        replace_all(s3, "TURN_PLAYER"@, two)
    } else {
        s3
    };
    lemma_replace_keeps_last(s4, "TOTAL_ENERGY"@, energy_text(g[2]));
}

/// The `!statusall` list of at least one game is not empty, so it is sent.
proof fn lemma_status_all_nonempty(games: Seq<[i64; 9]>, tags: Seq<Seq<char>>, n: int)
    requires
        n > 0,
    ensures
        status_all_text(games, tags, n).len() > 0,
{
    lemma_status_line_ends(
        status_all_text(games, tags, n - 1),
        n - 1,
        games[n - 1],
        tags[2 * (n - 1)],
        tags[2 * (n - 1) + 1],
    );
}

proof fn lemma_status_users_len(games: Seq<[i64; 9]>)
    ensures
        status_users(games).len() == 2 * games.len(),
    decreases games.len(),
{
    if games.len() > 0 {
        lemma_status_users_len(games.drop_last());
    }
}

/// The text of a gauge picture's title.
pub fn title_text(t: Title) -> (s: &'static str)
    ensures
        s@ == match t {
            Title::GameStart => "Game Start"@,
            Title::GameReset => "Game Reset"@,
            Title::TurnPassed => "Turn Passed"@,
            Title::GameStatus => "Game Status"@,
            Title::Blank => ""@,
            Title::MemoryGaugeChanged => "Memory Gauge Changed"@,
            Title::ColorChanged => "Color Changed"@,
            Title::CounterChanged => "Counter Changed"@,
        },
{
    match t {
        Title::GameStart => "Game Start",
        Title::GameReset => "Game Reset",
        Title::TurnPassed => "Turn Passed",
        Title::GameStatus => "Game Status",
        Title::Blank => "",
        Title::MemoryGaugeChanged => "Memory Gauge Changed",
        Title::ColorChanged => "Color Changed",
        Title::CounterChanged => "Counter Changed",
    }
}

/// The presence text of `change_activity`: "N games." (or "1 game.").
pub open spec fn activity(games: u32) -> Seq<char> {
    decimal(games as int) + if games == 1 {
        " game."@
    } else {
        " games."@
    }
}

/// What the bot's presence says it watches, for `games` games.
pub fn activity_text(games: u32) -> (s: String)
    ensures
        s@ == activity(games),
{
    let mut out: Vec<char> = Vec::new();
    push_decimal_i64(&mut out, games as i64);
    if games == 1 {
        push_str(&mut out, " game.");
    } else {
        push_str(&mut out, " games.");
    }
    string_of(&out)
}

/// The tag of a user as the bot shows it: the tag without `#0000`.
pub fn strip_discriminator(tag: &str) -> (s: String)
    ensures
        s@ == replace_all(tag@, "#0000"@, seq![]),
{
    let v = chars_of(tag);
    let empty: Vec<char> = Vec::new();
    string_of(&replace_str(&v, "#0000", &empty))
}

} // verus!
