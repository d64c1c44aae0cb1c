//! The table of running games and the operations on it: finding a player's
//! table, opening, changing and closing games. Each operation also says what the
//! bot does outside (send a reply, show the gauge, update its presence) as a list
//! of [`Action`]s, which the caller carries out.
use vstd::prelude::*;

verus! {

/// The fields of a game, in order: player one, player two, energy, turn player,
/// gauge of player one, gauge of player two, counter image, colour of player
/// one, colour of player two.
pub const PLAYER_ONE: usize = 0;

pub const PLAYER_TWO: usize = 1;

pub const ENERGY: usize = 2;

pub const TURN: usize = 3;

pub const BOARD_ONE: usize = 4;

pub const BOARD_TWO: usize = 5;

pub const COUNTER: usize = 6;

pub const COLOR_ONE: usize = 7;

pub const COLOR_TWO: usize = 8;

/// The energy of a game in which nobody has played yet: either player may start.
pub const OPEN_ENERGY: i64 = i64::MAX;

/// The user that a message mentions first.
#[derive(Clone, Copy, Debug, PartialEq, Eq, Structural)]
pub struct Mention {
    pub id: i64,
    pub bot: bool,
}

/// A fixed reply text.
#[derive(Clone, Copy, Debug, PartialEq, Eq, Structural)]
pub enum Notice {
    NoPlayer,
    SelfBattle,
    BotBattle,
    OtherGame,
    ValidPlayer,
    AlreadyInGame,
    NotInGame,
    WaitForTurn,
    NotEnoughEnergy,
    SelectOption,
    CounterSelect,
    PrivateHelp,
}

/// A reply that names the two players of a game.
#[derive(Clone, Copy, Debug, PartialEq, Eq, Structural)]
pub enum PairText {
    GameStart,
    CloseGame,
    ResetGame,
}

/// The title of a gauge picture.
#[derive(Clone, Copy, Debug, PartialEq, Eq, Structural)]
pub enum Title {
    GameStart,
    GameReset,
    TurnPassed,
    GameStatus,
    Blank,
    MemoryGaugeChanged,
    ColorChanged,
    CounterChanged,
}

/// The text of a reply. Texts that name users hold their ids; the names are
/// looked up when the reply is sent.
#[derive(Debug, PartialEq, Eq)]
pub enum Text {
    Empty,
    Notice(Notice),
    Players(PairText, i64, i64),
    NotYourTurn(i64),
    TurnStatus { turn: i64, player_one: i64, player_two: i64 },
    StatusAll(Vec<[i64; 9]>),
}

/// What the bot does outside after a message.
#[derive(Debug, PartialEq, Eq)]
pub enum Action {
    /// Send a reply.
    Send(Text),
    /// Send the help card.
    SendHelp,
    /// Draw the gauge of `game` (saved under the number `table`) and send it.
    ShowGame { game: [i64; 9], table: usize, description: Text, title: Title },
    /// Show "Watching N games." as the bot's presence.
    SetActivity(u32),
    /// Stop the program.
    Quit,
}

pub enum TextView {
    Empty,
    Notice(Notice),
    Players(PairText, i64, i64),
    NotYourTurn(i64),
    TurnStatus { turn: i64, player_one: i64, player_two: i64 },
    StatusAll(Seq<[i64; 9]>),
}

pub enum ActionView {
    Send(TextView),
    SendHelp,
    ShowGame { game: [i64; 9], table: usize, description: TextView, title: Title },
    SetActivity(u32),
    Quit,
}

impl View for Text {
    type V = TextView;

    open spec fn view(&self) -> TextView {
        match self {
            Text::Empty => TextView::Empty,
            Text::Notice(n) => TextView::Notice(*n),
            Text::Players(p, a, b) => TextView::Players(*p, *a, *b),
            Text::NotYourTurn(a) => TextView::NotYourTurn(*a),
            Text::TurnStatus { turn, player_one, player_two } => TextView::TurnStatus {
                turn: *turn,
                player_one: *player_one,
                player_two: *player_two,
            },
            Text::StatusAll(v) => TextView::StatusAll(v@),
        }
    }
}

impl View for Action {
    type V = ActionView;

    open spec fn view(&self) -> ActionView {
        match self {
            Action::Send(t) => ActionView::Send(t@),
            Action::SendHelp => ActionView::SendHelp,
            Action::ShowGame { game, table, description, title } => ActionView::ShowGame {
                game: *game,
                table: *table,
                description: description@,
                title: *title,
            },
            Action::SetActivity(n) => ActionView::SetActivity(*n),
            Action::Quit => ActionView::Quit,
        }
    }
}

/// The views of a list of actions.
pub open spec fn actions_view(v: Seq<Action>) -> Seq<ActionView> {
    v.map_values(|a: Action| a@)
}

/// The running games, in the order in which they were last written, and the
/// number of games shown in the bot's presence.
pub struct GameTable {
    pub games: Vec<[i64; 9]>,
    pub game_count: u32,
}

/// The mathematical state of a [`GameTable`].
pub struct Table {
    pub games: Seq<[i64; 9]>,
    pub count: u32,
}

impl View for GameTable {
    type V = Table;

    open spec fn view(&self) -> Table {
        Table { games: self.games@, count: self.game_count }
    }
}

/// Whether `id` plays in `g`.
pub open spec fn involves(g: [i64; 9], id: i64) -> bool {
    g[0] == id || g[1] == id
}

/// Whether the mentioned user, if any, plays in `g`.
pub open spec fn mention_involved(g: [i64; 9], mention: Option<Mention>) -> bool {
    match mention {
        Some(m) => involves(g, m.id),
        None => false,
    }
}

/// The table found by scanning from index `i`: the first game in which the
/// author or the mentioned user plays; `usize::MAX` when neither plays anywhere.
pub open spec fn table_scan(games: Seq<[i64; 9]>, author: i64, mention: Option<Mention>, i: int) -> usize
    decreases games.len() - i,
{
    if i < 0 || i >= games.len() {
        usize::MAX
    } else if involves(games[i], author) || mention_involved(games[i], mention) {
        i as usize
    } else {
        table_scan(games, author, mention, i + 1)
    }
}

/// The table of a message (see [`table_scan`]).
pub open spec fn table_index(games: Seq<[i64; 9]>, author: i64, mention: Option<Mention>) -> usize {
    table_scan(games, author, mention, 0)
}

/// Whether the author or the mentioned user plays in some game from index `i` on.
pub open spec fn someone_plays_from(games: Seq<[i64; 9]>, author: i64, mention: Option<Mention>, i: int) -> bool {
    exists|k: int|
        i <= k < games.len() && (involves(#[trigger] games[k], author) || mention_involved(
            games[k],
            mention,
        ))
}

/// Whether the author or the mentioned user plays in some game.
pub open spec fn someone_plays(games: Seq<[i64; 9]>, author: i64, mention: Option<Mention>) -> bool {
    someone_plays_from(games, author, mention, 0)
}

/// Scanning from `i` gives the table when nobody plays before `i`.
pub proof fn lemma_scan_skip(games: Seq<[i64; 9]>, author: i64, mention: Option<Mention>, i: int)
    requires
        0 <= i <= games.len(),
        forall|j: int|
            0 <= j < i ==> !involves(#[trigger] games[j], author) && !mention_involved(games[j], mention),
    ensures
        table_index(games, author, mention) == table_scan(games, author, mention, i),
    decreases i,
{
    if i > 0 {
        lemma_scan_skip(games, author, mention, i - 1);
    }
}

pub proof fn lemma_table_scan(games: Seq<[i64; 9]>, author: i64, mention: Option<Mention>, i: int)
    requires
        0 <= i <= games.len(),
        games.len() <= usize::MAX,
    ensures
        someone_plays_from(games, author, mention, i) <==> table_scan(games, author, mention, i)
            < games.len(),
        !someone_plays_from(games, author, mention, i) ==> table_scan(games, author, mention, i)
            == usize::MAX,
    decreases games.len() - i,
{
    if i < games.len() {
        lemma_table_scan(games, author, mention, i + 1);
        if someone_plays_from(games, author, mention, i + 1) {
            let k = choose|k: int|
                i + 1 <= k < games.len() && (involves(#[trigger] games[k], author)
                    || mention_involved(games[k], mention));
            assert(i <= k < games.len());
        }
        if involves(games[i], author) || mention_involved(games[i], mention) {
            assert(someone_plays_from(games, author, mention, i));
        }
        if someone_plays_from(games, author, mention, i) {
            let k = choose|k: int|
                i <= k < games.len() && (involves(#[trigger] games[k], author) || mention_involved(
                    games[k],
                    mention,
                ));
            if k > i {
                assert(someone_plays_from(games, author, mention, i + 1));
            }
        }
    }
}

/// Whether the table of a message is a valid index: exactly when the author or
/// the mentioned user plays somewhere.
pub proof fn lemma_table_index(games: Seq<[i64; 9]>, author: i64, mention: Option<Mention>)
    requires
        games.len() <= usize::MAX,
    ensures
        someone_plays(games, author, mention) <==> table_index(games, author, mention)
            < games.len(),
        !someone_plays(games, author, mention) ==> table_index(games, author, mention)
            == usize::MAX,
{
    lemma_table_scan(games, author, mention, 0);
}

/// Field `location` of `g` set to `value` (other locations leave `g` as it is).
pub open spec fn set_field(g: [i64; 9], location: i64, value: i64) -> [i64; 9] {
    [
        if location == 0 { value } else { g[0] },
        if location == 1 { value } else { g[1] },
        if location == 2 { value } else { g[2] },
        if location == 3 { value } else { g[3] },
        if location == 4 { value } else { g[4] },
        if location == 5 { value } else { g[5] },
        if location == 6 { value } else { g[6] },
        if location == 7 { value } else { g[7] },
        if location == 8 { value } else { g[8] },
    ]
}

/// A new game with the given fields.
pub open spec fn game_of(
    player_one: i64,
    player_two: i64,
    energy: i64,
    turn: i64,
    board: i64,
    board2: i64,
    counter: i64,
    color: i64,
    color2: i64,
) -> [i64; 9] {
    [player_one, player_two, energy, turn, board, board2, counter, color, color2]
}

/// `make_game`: the game is appended and the presence shows the count.
pub open spec fn spec_make_game(t: Table, g: [i64; 9]) -> (Table, Seq<ActionView>) {
    (Table { games: t.games.push(g), count: t.count }, seq![ActionView::SetActivity(t.count)])
}

/// `change_value`: the message's game, with one field changed, is moved to the end.
pub open spec fn spec_change_value(
    t: Table,
    author: i64,
    mention: Option<Mention>,
    location: i64,
    value: i64,
) -> (Table, Seq<ActionView>) {
    let k = table_index(t.games, author, mention) as int;
    let g = set_field(t.games[k], location, value);
    spec_make_game(Table { games: t.games.remove(k), count: t.count }, g)
}

/// Whether `change_value` has a game to change.
pub open spec fn can_change(t: Table, author: i64, mention: Option<Mention>) -> bool {
    table_index(t.games, author, mention) < t.games.len()
}

/// The id of the mentioned user, 0 when there is none.
pub open spec fn mention_id(mention: Option<Mention>) -> i64 {
    match mention {
        Some(m) => m.id,
        None => 0,
    }
}

/// `in_game`: why a game cannot be started, as a code: 0 nobody named, 1 the
/// author named themselves, 2 a bot was named, 3 the author or the mentioned
/// user already plays in a game, 4 the game can start, 5 no valid user was named.
pub open spec fn spec_in_game(
    games: Seq<[i64; 9]>,
    author: i64,
    mention: Option<Mention>,
    arguments_empty: bool,
) -> i64 {
    let m = mention_id(mention);
    if arguments_empty {
        0
    } else if m == author {
        1
    } else if m != 0 {
        if mention.unwrap().bot {
            2
        } else if someone_plays(games, author, mention) {
            3
        } else {
            4
        }
    } else {
        5
    }
}

/// `add_game`: a game between the author and the mentioned user is opened and
/// shown, and the count of games goes up.
pub open spec fn spec_add_game(t: Table, author: i64, mention: Option<Mention>, g: [i64; 9]) -> (
    Table,
    Seq<ActionView>,
) {
    let (t1, a1) = spec_make_game(t, g);
    let k = table_index(t1.games, author, mention);
    let game = t1.games[k as int];
    let show = ActionView::ShowGame {
        game,
        table: k,
        description: TextView::Players(PairText::GameStart, author, game[1]),
        title: Title::GameStart,
    };
    let t2 = Table { games: t1.games, count: (t1.count + 1) as u32 };
    (t2, a1 + seq![show, ActionView::SetActivity(t2.count)])
}

impl GameTable {
    /// An empty table.
    pub fn new() -> (t: GameTable)
        ensures
            t@.games == Seq::<[i64; 9]>::empty(),
            t@.count == 0,
    {
        GameTable { games: Vec::new(), game_count: 0 }
    }

    /// `table_id`: the table of a message from `author` that first mentions
    /// `mention` (see [`table_scan`]); `usize::MAX` when there is none.
    pub fn table_id(&self, author: i64, mention: Option<Mention>) -> (r: usize)
        ensures
            r == table_index(self.games@, author, mention),
    {
        let n = self.games.len();
        let mut i: usize = 0;
        while i < n
            invariant
                i <= n == self.games@.len(),
                forall|j: int|
                    0 <= j < i ==> !involves(#[trigger] self.games@[j], author) && !mention_involved(
                        self.games@[j],
                        mention,
                    ),
            decreases n - i,
        {
            let g = self.games[i];
            let second = match mention {
                Some(m) => g[0] == m.id || g[1] == m.id,
                None => false,
            };
            proof {
                lemma_scan_skip(self.games@, author, mention, i as int);
            }
            if g[0] == author || g[1] == author || second {
                return i;
            }
            i = i + 1;
        }
        proof {
            lemma_scan_skip(self.games@, author, mention, n as int);
        }
        usize::MAX
    }

    /// `in_game`: the code of [`spec_in_game`] for a `!start` message with the
    /// given arguments.
    pub fn in_game(&self, author: i64, mention: Option<Mention>, arguments: &str) -> (r: i64)
        ensures
            r == spec_in_game(self.games@, author, mention, arguments@.len() == 0),
    {
        let mentioned_id = match mention {
            Some(m) => m.id,
            None => 0,
        };
        if arguments.is_empty() {
            0
        } else if mentioned_id == author {
            1
        } else if mentioned_id != 0 {
            let is_bot = match mention {
                Some(m) => m.bot,
                None => false,
            };
            if is_bot {
                2
            } else {
                let _n = self.games.len();
                proof {
                    lemma_table_index(self@.games, author, mention);
                }
                if self.table_id(author, mention) != usize::MAX {
                    3
                } else {
                    4
                }
            }
        } else {
            5
        }
    }

    /// `make_game`: appends a game with the given fields and shows the count of
    /// games in the presence.
    pub fn make_game(
        &mut self,
        player_one: i64,
        player_two: i64,
        energy: i64,
        turn: i64,
        board: i64,
        board2: i64,
        counter: i64,
        color: i64,
        color2: i64,
        out: &mut Vec<Action>,
    )
        ensures
            ({
                let (t, a) = spec_make_game(
                    old(self)@,
                    game_of(
                        player_one,
                        player_two,
                        energy,
                        turn,
                        board,
                        board2,
                        counter,
                        color,
                        color2,
                    ),
                );
                final(self)@ == t && actions_view(final(out)@) == actions_view(old(out)@) + a
            }),
    {
        self.games.push([player_one, player_two, energy, turn, board, board2, counter, color, color2]);
        out.push(Action::SetActivity(self.game_count));
        proof {
            lemma_actions_push(old(out)@, Action::SetActivity(self.game_count));
        }
    }

    /// `end_game`: removes the game at `table`.
    pub fn end_game(&mut self, table: usize)
        requires
            table < old(self)@.games.len(),
        ensures
            final(self)@ == (Table { games: old(self)@.games.remove(table as int), count: old(self)@.count }),
    {
        self.games.remove(table);
    }

    /// `find_game`: the game of the message's table.
    pub fn find_game(&self, author: i64, mention: Option<Mention>) -> (g: [i64; 9])
        requires
            can_change(self@, author, mention),
        ensures
            g == self@.games[table_index(self@.games, author, mention) as int],
    {
        let table = self.table_id(author, mention);
        self.games[table]
    }

    /// `change_value`: sets field `location` of the message's game to `value`
    /// and moves that game to the end of the table.
    pub fn change_value(
        &mut self,
        author: i64,
        mention: Option<Mention>,
        location: i64,
        value: i64,
        out: &mut Vec<Action>,
    )
        requires
            can_change(old(self)@, author, mention),
        ensures
            ({
                let (t, a) = spec_change_value(old(self)@, author, mention, location, value);
                final(self)@ == t && actions_view(final(out)@) == actions_view(old(out)@) + a
            }),
    {
        let table = self.table_id(author, mention);
        let game = self.find_game(author, mention);
        let mut player_one = read_game(game, 0);
        let mut player_two = read_game(game, 1);
        let mut energy = read_game(game, 2);
        let mut turn = read_game(game, 3);
        let mut board = read_game(game, 4);
        let mut board2 = read_game(game, 5);
        let mut counter = read_game(game, 6);
        let mut color = read_game(game, 7);
        let mut color2 = read_game(game, 8);
        match location {
            0 => player_one = value,
            1 => player_two = value,
            2 => energy = value,
            3 => turn = value,
            4 => board = value,
            5 => board2 = value,
            6 => counter = value,
            7 => color = value,
            8 => color2 = value,
            _ => {},
        }
        self.end_game(table);
        self.make_game(player_one, player_two, energy, turn, board, board2, counter, color, color2, out);
    }

    /// `add_game`: opens a game between the author and the mentioned user (0
    /// when there is none) with the given fields, shows it with the start text,
    /// and counts it.
    pub fn add_game(
        &mut self,
        author: i64,
        mention: Option<Mention>,
        energy: i64,
        turn: i64,
        board: i64,
        board2: i64,
        counter: i64,
        color: i64,
        color2: i64,
        out: &mut Vec<Action>,
    )
        requires
            old(self)@.count < u32::MAX,
        ensures
            ({
                let (t, a) = spec_add_game(
                    old(self)@,
                    author,
                    mention,
                    game_of(
                        author,
                        mention_id(mention),
                        energy,
                        turn,
                        board,
                        board2,
                        counter,
                        color,
                        color2,
                    ),
                );
                final(self)@ == t && actions_view(final(out)@) == actions_view(old(out)@) + a
            }),
    {
        let player_one = author;
        let player_two = match mention {
            Some(m) => m.id,
            None => 0,
        };
        self.make_game(player_one, player_two, energy, turn, board, board2, counter, color, color2, out);
        let len = self.games.len();
        proof {
            let games = self@.games;
            assert(games.len() == len);
            assert(involves(games[games.len() - 1], author));
            lemma_table_index(games, author, mention);
        }
        let table = self.table_id(author, mention);
        let game = self.find_game(author, mention);
        let player_two = read_game(game, 1);
        let ghost before = out@;
        out.push(
            Action::ShowGame {
                game,
                table,
                description: Text::Players(PairText::GameStart, player_one, player_two),
                title: Title::GameStart,
            },
        );
        self.game_count = self.game_count + 1;
        out.push(Action::SetActivity(self.game_count));
        proof {
            lemma_actions_push(before, out@[before.len() as int]);
            lemma_actions_push(before.push(out@[before.len() as int]), Action::SetActivity(self.game_count));
            assert(out@ =~= before.push(out@[before.len() as int]).push(Action::SetActivity(self.game_count)));
        }
    }
}

/// `read_game`: field `num` of `game`.
pub fn read_game(game: [i64; 9], num: usize) -> (r: i64)
    requires
        num < 9,
    ensures
        r == game[num as int],
{
    game[num]
}

/// A step that took the table from one state to `r.0` and sent `r.1`.
pub open spec fn did(
    t0: Table,
    t1: Table,
    out0: Seq<Action>,
    out1: Seq<Action>,
    r: (Table, Seq<ActionView>),
) -> bool {
    t1 == r.0 && actions_view(out1) == actions_view(out0) + r.1
}

/// Two steps in a row.
pub proof fn lemma_did_then(
    t0: Table,
    t1: Table,
    t2: Table,
    out0: Seq<Action>,
    out1: Seq<Action>,
    out2: Seq<Action>,
    a1: Seq<ActionView>,
    a2: Seq<ActionView>,
)
    requires
        did(t0, t1, out0, out1, (t1, a1)),
        did(t1, t2, out1, out2, (t2, a2)),
    ensures
        did(t0, t2, out0, out2, (t2, a1 + a2)),
{
    assert(actions_view(out0) + a1 + a2 =~= actions_view(out0) + (a1 + a2));
}

/// Sends `a` (appends it to the actions).
pub fn emit(out: &mut Vec<Action>, a: Action)
    ensures
        actions_view(final(out)@) == actions_view(old(out)@) + seq![a@],
{
    let ghost before = out@;
    let ghost v = a@;
    out.push(a);
    proof {
        lemma_actions_push(before, out@[before.len() as int]);
        assert(out@ == before.push(out@[before.len() as int]));
    }
}

/// A change of a field other than the players keeps the message's players in
/// some game, and keeps the number of games.
pub proof fn lemma_change_keeps_players(
    t: Table,
    author: i64,
    mention: Option<Mention>,
    location: i64,
    value: i64,
)
    requires
        can_change(t, author, mention),
        2 <= location,
        t.games.len() <= usize::MAX,
    ensures
        can_change(spec_change_value(t, author, mention, location, value).0, author, mention),
        spec_change_value(t, author, mention, location, value).0.games.len() == t.games.len(),
        spec_change_value(t, author, mention, location, value).0.count == t.count,
{
    let games = t.games;
    lemma_table_index(games, author, mention);
    let k = table_index(games, author, mention) as int;
    let f = choose|f: int|
        0 <= f < games.len() && (involves(#[trigger] games[f], author) || mention_involved(
            games[f],
            mention,
        ));
    let g = set_field(games[k], location, value);
    let new_games = games.remove(k).push(g);
    assert(new_games.len() == games.len());
    if f == k {
        assert(g[0] == games[k][0] && g[1] == games[k][1]);
        assert(new_games[new_games.len() - 1] == g);
        assert(someone_plays(new_games, author, mention));
    } else if f < k {
        assert(new_games[f] == games[f]);
        assert(someone_plays(new_games, author, mention));
    } else {
        assert(new_games[f - 1] == games[f]);
        assert(someone_plays(new_games, author, mention));
    }
    lemma_table_index(new_games, author, mention);
}

pub proof fn lemma_actions_push(v: Seq<Action>, a: Action)
    ensures
        actions_view(v.push(a)) == actions_view(v) + seq![a@],
{
    assert(actions_view(v.push(a)) =~= actions_view(v) + seq![a@]);
}

} // verus!
