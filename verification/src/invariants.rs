//! What every command keeps true of the table of games: the count of games is
//! the number of games, nobody plays in two games, and each game's energy, turn,
//! gauges and counter stay within their ranges.
use vstd::prelude::*;

use crate::commands::{
    command_ok, cv, found, minus_steps, pass_steps, plus_steps, spec_change_board,
    spec_change_color, spec_change_counter, spec_command, spec_dispatch, spec_end, spec_energy,
    spec_minus, spec_pass, spec_plus, spec_reset, spec_start, tid, Message, first_word, arguments,
    dispatch_ok, minus_ok, plus_ok, cost, squeezed, energy_finish,
};
use crate::game::{
    can_change, game_of, involves, lemma_scan_skip, lemma_table_index, mention_involved, set_field,
    someone_plays, spec_in_game, spec_make_game, Mention, Table, OPEN_ENERGY, ActionView, TextView,
    Notice, Title,
};
use crate::responses;

verus! {

/// The ranges of a game's fields: two different players, turn 0 (either may
/// start), 1 or 2, energy from -10 to 10 (or the open energy before anyone has
/// played), gauges 1 to 17 and counter 1 to 5.
pub open spec fn game_ok(g: [i64; 9]) -> bool {
    &&& g[0] != g[1]
    &&& 0 <= g[3] <= 2
    &&& (-10 <= g[2] <= 10 || (g[2] == OPEN_ENERGY && g[3] == 0))
    &&& 1 <= g[4] <= 17
    &&& 1 <= g[5] <= 17
    &&& 1 <= g[6] <= 5
}

/// Nobody plays in two games.
pub open spec fn players_apart(games: Seq<[i64; 9]>) -> bool {
    forall|i: int, j: int|
        0 <= i < games.len() && 0 <= j < games.len() && i != j ==> !involves(
            #[trigger] games[j],
            #[trigger] games[i][0],
        ) && !involves(games[j], games[i][1])
}

/// The table is well formed: the count is the number of games, every game is
/// in range and nobody plays in two games.
pub open spec fn table_ok(t: Table) -> bool {
    &&& t.count == t.games.len()
    &&& forall|i: int| 0 <= i < t.games.len() ==> game_ok(#[trigger] t.games[i])
    &&& players_apart(t.games)
}

/// The message names at most one game: the mentioned user, if any, plays only
/// where the author plays.
pub open spec fn names_one_game(t: Table, m: Message) -> bool {
    match m.mention {
        Some(x) => forall|i: int|
            0 <= i < t.games.len() && involves(#[trigger] t.games[i], x.id) ==> involves(
                t.games[i],
                m.author,
            ),
        None => true,
    }
}

/// The table with game `k` replaced by `g`, moved to the end.
pub open spec fn moved(t: Table, k: int, g: [i64; 9]) -> Table {
    Table { games: t.games.remove(k).push(g), count: t.count }
}

/// Whether `g` has the players of `h`.
pub open spec fn same_players(g: [i64; 9], h: [i64; 9]) -> bool {
    g[0] == h[0] && g[1] == h[1]
}

proof fn lemma_moved_index(t: Table, k: int, g: [i64; 9], i: int)
    requires
        0 <= k < t.games.len(),
        0 <= i < t.games.len(),
    ensures
        i < k ==> moved(t, k, g).games[i] == t.games[i],
        k <= i < t.games.len() - 1 ==> moved(t, k, g).games[i] == t.games[i + 1],
        i == t.games.len() - 1 ==> moved(t, k, g).games[i] == g,
        moved(t, k, g).games.len() == t.games.len(),
{
}

/// Where game `i` of the moved table came from.
pub open spec fn origin(len: int, k: int, i: int) -> int {
    if i == len - 1 {
        k
    } else if i < k {
        i
    } else {
        i + 1
    }
}

proof fn lemma_moved_origin(t: Table, k: int, g: [i64; 9], i: int)
    requires
        0 <= k < t.games.len(),
        0 <= i < t.games.len(),
    ensures
        0 <= origin(t.games.len() as int, k, i) < t.games.len(),
        i != t.games.len() - 1 ==> moved(t, k, g).games[i] == t.games[origin(
            t.games.len() as int,
            k,
            i,
        )],
        forall|j: int|
            0 <= j < t.games.len() && j != i ==> origin(t.games.len() as int, k, j) != origin(
                t.games.len() as int,
                k,
                i,
            ),
{
    lemma_moved_index(t, k, g, i);
}

/// Replacing a game by one with the same players keeps the players apart.
proof fn lemma_moved_players_apart(t: Table, k: int, g: [i64; 9])
    requires
        0 <= k < t.games.len(),
        players_apart(t.games),
        same_players(g, t.games[k]),
    ensures
        players_apart(moved(t, k, g).games),
{
    let n = t.games.len() as int;
    let s = moved(t, k, g).games;
    assert forall|i: int, j: int|
        0 <= i < s.len() && 0 <= j < s.len() && i != j implies !involves(
        #[trigger] s[j],
        #[trigger] s[i][0],
    ) && !involves(s[j], s[i][1]) by {
        lemma_moved_origin(t, k, g, i);
        lemma_moved_origin(t, k, g, j);
        let oi = origin(n, k, i);
        let oj = origin(n, k, j);
        assert(same_players(s[i], t.games[oi])) by {
            lemma_moved_index(t, k, g, i);
        }
        assert(same_players(s[j], t.games[oj])) by {
            lemma_moved_index(t, k, g, j);
        }
        assert(!involves(t.games[oj], t.games[oi][0]));
    }
}

/// Replacing a game by one with the same players keeps the players apart and
/// the message naming one game.
proof fn lemma_moved_apart(t: Table, k: int, g: [i64; 9], m: Message)
    requires
        0 <= k < t.games.len(),
        players_apart(t.games),
        names_one_game(t, m),
        same_players(g, t.games[k]),
    ensures
        players_apart(moved(t, k, g).games),
        names_one_game(moved(t, k, g), m),
        someone_plays(t.games, m.author, m.mention) ==> someone_plays(
            moved(t, k, g).games,
            m.author,
            m.mention,
        ),
{
    let n = t.games.len() as int;
    let s = moved(t, k, g).games;
    lemma_moved_players_apart(t, k, g);
    match m.mention {
        Some(x) => {
            assert forall|i: int| 0 <= i < s.len() && involves(#[trigger] s[i], x.id) implies involves(
                s[i],
                m.author,
            ) by {
                lemma_moved_origin(t, k, g, i);
                lemma_moved_index(t, k, g, i);
                let oi = origin(n, k, i);
                assert(involves(t.games[oi], x.id));
            }
        },
        None => {},
    }
    if someone_plays(t.games, m.author, m.mention) {
        let f = choose|f: int|
            0 <= f < t.games.len() && (involves(#[trigger] t.games[f], m.author) || mention_involved(
                t.games[f],
                m.mention,
            ));
        if f == k {
            lemma_moved_index(t, k, g, n - 1);
            assert(involves(s[n - 1], m.author) || mention_involved(s[n - 1], m.mention));
        } else if f < k {
            lemma_moved_index(t, k, g, f);
            assert(involves(s[f], m.author) || mention_involved(s[f], m.mention));
        } else {
            lemma_moved_index(t, k, g, f - 1);
            assert(involves(s[f - 1], m.author) || mention_involved(s[f - 1], m.mention));
        }
    }
}

/// A well-formed table with one game replaced by a game in range with the
/// same players is well formed.
proof fn lemma_moved_ok(t: Table, k: int, g: [i64; 9])
    requires
        table_ok(t),
        0 <= k < t.games.len(),
        same_players(g, t.games[k]),
        game_ok(g),
    ensures
        table_ok(moved(t, k, g)),
{
    lemma_moved_players_apart(t, k, g);
    let s = moved(t, k, g).games;
    assert forall|i: int| 0 <= i < s.len() implies game_ok(#[trigger] s[i]) by {
        lemma_moved_index(t, k, g, i);
    }
}

/// The first game in which the author or the mentioned user plays.
proof fn lemma_first_player(t: Table, m: Message) -> (f: int)
    requires
        someone_plays(t.games, m.author, m.mention),
        t.games.len() <= usize::MAX,
    ensures
        0 <= f < t.games.len(),
        involves(t.games[f], m.author) || mention_involved(t.games[f], m.mention),
        forall|j: int|
            0 <= j < f ==> !involves(#[trigger] t.games[j], m.author) && !mention_involved(
                t.games[j],
                m.mention,
            ),
        tid(t, m) == f,
{
    let games = t.games;
    let f0 = choose|f: int|
        0 <= f < games.len() && (involves(#[trigger] games[f], m.author) || mention_involved(
            games[f],
            m.mention,
        ));
    let f = first_from(games, m.author, m.mention, 0, f0);
    lemma_scan_skip(games, m.author, m.mention, f);
    f
}

proof fn first_from(games: Seq<[i64; 9]>, author: i64, mention: Option<Mention>, i: int, w: int) -> (f: int)
    requires
        0 <= i <= w < games.len(),
        involves(games[w], author) || mention_involved(games[w], mention),
        forall|j: int|
            0 <= j < i ==> !involves(#[trigger] games[j], author) && !mention_involved(
                games[j],
                mention,
            ),
    ensures
        0 <= f <= w,
        involves(games[f], author) || mention_involved(games[f], mention),
        forall|j: int|
            0 <= j < f ==> !involves(#[trigger] games[j], author) && !mention_involved(
                games[j],
                mention,
            ),
    decreases w - i,
{
    if involves(games[i], author) || mention_involved(games[i], mention) {
        i
    } else {
        first_from(games, author, mention, i + 1, w)
    }
}

/// In a table whose players are apart, every game in which the author or the
/// mentioned user plays is the first such game.
proof fn lemma_only_first(t: Table, m: Message, f: int, i: int)
    requires
        players_apart(t.games),
        names_one_game(t, m),
        0 <= f < t.games.len(),
        0 <= i < t.games.len(),
        involves(t.games[f], m.author) || mention_involved(t.games[f], m.mention),
        involves(t.games[i], m.author) || mention_involved(t.games[i], m.mention),
    ensures
        i == f,
{
    if i != f {
        let gi = t.games[i];
        let gf = t.games[f];
        if !involves(gi, m.author) {
            assert(involves(gi, m.mention.unwrap().id));
        }
        if !involves(gf, m.author) {
            assert(involves(gf, m.mention.unwrap().id));
        }
        if gf[0] == m.author {
            assert(!involves(gi, gf[0]));
        } else {
            assert(!involves(gi, gf[1]));
        }
    }
}

/// One change of a field other than the players, under the conditions of the
/// laws: the changed game moves to the end, and from then on the message's
/// table is the last one.
proof fn lemma_cv_moves(t: Table, m: Message, location: i64, value: i64)
    requires
        players_apart(t.games),
        names_one_game(t, m),
        someone_plays(t.games, m.author, m.mention),
        t.games.len() <= usize::MAX,
        2 <= location,
    ensures
        ({
            let k = tid(t, m) as int;
            &&& 0 <= k < t.games.len()
            &&& cv(t, m, location, value).0 == moved(t, k, set_field(t.games[k], location, value))
            &&& tid(cv(t, m, location, value).0, m) == t.games.len() - 1
        }),
{
    lemma_table_index(t.games, m.author, m.mention);
    let k = tid(t, m) as int;
    let g = set_field(t.games[k], location, value);
    lemma_tid_moved(t, m, k, g);
}

/// After the message's game has been replaced and moved to the end, the
/// message's table is the last one.
proof fn lemma_tid_moved(t: Table, m: Message, k: int, g: [i64; 9])
    requires
        players_apart(t.games),
        names_one_game(t, m),
        someone_plays(t.games, m.author, m.mention),
        t.games.len() <= usize::MAX,
        k == tid(t, m),
        same_players(g, t.games[k]),
    ensures
        0 <= k < t.games.len(),
        tid(moved(t, k, g), m) == t.games.len() - 1,
        players_apart(moved(t, k, g).games),
        names_one_game(moved(t, k, g), m),
        someone_plays(moved(t, k, g).games, m.author, m.mention),
{
    lemma_table_index(t.games, m.author, m.mention);
    let n = t.games.len() as int;
    let f = lemma_first_player(t, m);
    lemma_moved_apart(t, k, g, m);
    let s = moved(t, k, g);
    assert(k == f);
    assert forall|j: int| 0 <= j < n - 1 implies !involves(#[trigger] s.games[j], m.author)
        && !mention_involved(s.games[j], m.mention) by {
        lemma_moved_index(t, k, g, j);
        let oj = origin(n, k, j);
        lemma_moved_origin(t, k, g, j);
        if involves(t.games[oj], m.author) || mention_involved(t.games[oj], m.mention) {
            lemma_only_first(t, m, f, oj);
        }
    }
    lemma_moved_index(t, k, g, n - 1);
    lemma_scan_skip(s.games, m.author, m.mention, n - 1);
}

/// A second change under the conditions of the laws hits the same game.
proof fn lemma_cv_again(t: Table, m: Message, k: int, g: [i64; 9], location: i64, value: i64)
    requires
        0 <= k < t.games.len(),
        tid(moved(t, k, g), m) == t.games.len() - 1,
    ensures
        cv(moved(t, k, g), m, location, value).0 == moved(t, k, set_field(g, location, value)),
{
    let s = moved(t, k, g);
    let n = t.games.len() as int;
    lemma_moved_index(t, k, g, n - 1);
    assert(s.games.remove(n - 1) =~= t.games.remove(k));
}

/// The conditions under which the laws hold for a message.
pub open spec fn law_pre(t: Table, m: Message) -> bool {
    &&& table_ok(t)
    &&& names_one_game(t, m)
    &&& t.games.len() <= usize::MAX
}

/// Part of the way through a command: the table is `t` itself with `h` the
/// message's game, or the message's game has been replaced by `h` and moved to
/// the end, where the message's table now is.
pub open spec fn stage(t: Table, m: Message, t1: Table, h: [i64; 9]) -> bool {
    let k = tid(t, m) as int;
    &&& 0 <= k < t.games.len()
    &&& same_players(h, t.games[k])
    &&& ((t1 == t && h == t.games[k]) || (t1 == moved(t, k, h) && tid(t1, m) == t.games.len() - 1))
}

proof fn lemma_stage_start(t: Table, m: Message)
    requires
        law_pre(t, m),
        tid(t, m) != usize::MAX,
    ensures
        stage(t, m, t, t.games[tid(t, m) as int]),
        someone_plays(t.games, m.author, m.mention),
{
    lemma_table_index(t.games, m.author, m.mention);
}

proof fn lemma_stage_cv(t: Table, m: Message, t1: Table, h: [i64; 9], location: i64, value: i64)
    requires
        law_pre(t, m),
        stage(t, m, t1, h),
        2 <= location,
    ensures
        stage(t, m, cv(t1, m, location, value).0, set_field(h, location, value)),
{
    lemma_table_index(t.games, m.author, m.mention);
    let k = tid(t, m) as int;
    let h2 = set_field(h, location, value);
    lemma_tid_moved(t, m, k, h2);
    if t1 == t && h == t.games[k] {
        lemma_cv_moves(t, m, location, value);
    } else {
        lemma_cv_again(t, m, k, h, location, value);
    }
}

/// The end of a command under the conditions of the laws: the table is well
/// formed if the message's game is in range.
proof fn lemma_stage_ok(t: Table, m: Message, t1: Table, h: [i64; 9])
    requires
        law_pre(t, m),
        stage(t, m, t1, h),
        game_ok(h),
    ensures
        table_ok(t1),
        names_one_game(t1, m),
{
    let k = tid(t, m) as int;
    lemma_moved_ok(t, k, h);
    lemma_moved_apart(t, k, h, m);
}

proof fn lemma_pass_ok(t: Table, m: Message)
    requires
        law_pre(t, m),
    ensures
        table_ok(spec_pass(t, m).0),
        names_one_game(spec_pass(t, m).0, m),
{
    let k = tid(t, m);
    if k != usize::MAX {
        lemma_stage_start(t, m);
        let g = t.games[k as int];
        assert(game_ok(g));
        let t1 = pass_steps(t, m, g).0;
        if g[3] == 0 && m.author == g[0] || g[3] == 1 && m.author == g[0] {
            lemma_stage_cv(t, m, t, g, 2, 3);
            lemma_stage_cv(t, m, cv(t, m, 2, 3).0, set_field(g, 2, 3), 3, 2);
            lemma_stage_ok(t, m, t1, set_field(set_field(g, 2, 3), 3, 2));
        } else if g[3] == 0 && m.author == g[1] || g[3] == 2 && m.author != g[0] && m.author
            == g[1] {
            lemma_stage_cv(t, m, t, g, 2, -3i64);
            lemma_stage_cv(t, m, cv(t, m, 2, -3i64).0, set_field(g, 2, -3i64), 3, 1);
            lemma_stage_ok(t, m, t1, set_field(set_field(g, 2, -3i64), 3, 1));
        } else {
            assert(t1 == t);
            lemma_stage_ok(t, m, t1, g);
        }
    }
}

proof fn lemma_reset_ok(t: Table, m: Message)
    requires
        law_pre(t, m),
    ensures
        table_ok(spec_reset(t, m).0),
        names_one_game(spec_reset(t, m).0, m),
{
    if tid(t, m) != usize::MAX {
        lemma_stage_start(t, m);
        let g = t.games[tid(t, m) as int];
        lemma_stage_cv(t, m, t, g, 2, OPEN_ENERGY);
        lemma_stage_cv(t, m, cv(t, m, 2, OPEN_ENERGY).0, set_field(g, 2, OPEN_ENERGY), 3, 0);
        lemma_stage_ok(t, m, spec_reset(t, m).0, set_field(set_field(g, 2, OPEN_ENERGY), 3, 0));
    }
}

proof fn lemma_one_change_ok(t: Table, m: Message, location: i64, value: i64)
    requires
        table_ok(t),
        t.games.len() <= usize::MAX,
        tid(t, m) != usize::MAX,
        2 <= location,
        game_ok(set_field(t.games[tid(t, m) as int], location, value)),
    ensures
        table_ok(cv(t, m, location, value).0),
{
    lemma_table_index(t.games, m.author, m.mention);
    let k = tid(t, m) as int;
    let g = set_field(t.games[k], location, value);
    assert(cv(t, m, location, value).0 == moved(t, k, g));
    lemma_moved_ok(t, k, g);
}

proof fn lemma_board_ok(t: Table, m: Message, args: Seq<char>)
    requires
        table_ok(t),
        t.games.len() <= usize::MAX,
    ensures
        table_ok(spec_change_board(t, m, args).0),
{
    if tid(t, m) != usize::MAX {
        lemma_table_index(t.games, m.author, m.mention);
        let g = t.games[tid(t, m) as int];
        assert(game_ok(g));
        let a = squeezed(args);
        if a.len() > 0 && crate::text::all_numeric(a) {
            let n = crate::text::parse_i64(a).unwrap();
            if 1 <= n <= 17 {
                if m.author == g[0] {
                    lemma_one_change_ok(t, m, 4, n);
                } else if m.author == g[1] {
                    lemma_one_change_ok(t, m, 5, n);
                }
            }
        }
    }
}

proof fn lemma_counter_ok(t: Table, m: Message, args: Seq<char>)
    requires
        table_ok(t),
        t.games.len() <= usize::MAX,
    ensures
        table_ok(spec_change_counter(t, m, args).0),
{
    if tid(t, m) != usize::MAX {
        lemma_table_index(t.games, m.author, m.mention);
        let g = t.games[tid(t, m) as int];
        assert(game_ok(g));
        let a = squeezed(args);
        if a.len() > 0 && crate::text::all_numeric(a) {
            let n = crate::text::parse_i64(a).unwrap();
            if 1 <= n <= 5 {
                lemma_one_change_ok(t, m, 6, n);
            }
        }
    }
}

proof fn lemma_color_ok(t: Table, m: Message, args: Seq<char>)
    requires
        table_ok(t),
        t.games.len() <= usize::MAX,
    ensures
        table_ok(spec_change_color(t, m, args).0),
{
    if tid(t, m) != usize::MAX {
        lemma_table_index(t.games, m.author, m.mention);
        let g = t.games[tid(t, m) as int];
        assert(game_ok(g));
        let a = squeezed(args);
        if a.len() > 0 {
            let n = crate::color::bit_field(a);
            if m.author == g[0] {
                lemma_one_change_ok(t, m, 7, n);
            } else if m.author == g[1] {
                lemma_one_change_ok(t, m, 8, n);
            }
        }
    }
}

/// Where the energy steps of a `+` or `-` message leave the message's game.
proof fn lemma_energy_steps(t: Table, m: Message, minus: bool) -> (h: [i64; 9])
    requires
        law_pre(t, m),
        tid(t, m) != usize::MAX,
        minus ==> minus_ok(t, m),
        !minus ==> plus_ok(t, m),
    ensures
        ({
            let g = t.games[tid(t, m) as int];
            let steps = if minus {
                minus_steps(t, m, g, cost(m))
            } else {
                plus_steps(t, m, g, cost(m))
            };
            &&& stage(t, m, steps.0, h)
            &&& -10 <= steps.2 <= 10 || (steps.2 == OPEN_ENERGY && h[3] == 0)
            &&& game_ok(set_field(h, 2, steps.2 as i64))
        }),
{
    lemma_stage_start(t, m);
    crate::commands::lemma_cost_nonneg(m.content);
    let g = t.games[tid(t, m) as int];
    assert(game_ok(g));
    let c = cost(m);
    let e = g[2] as int;
    if g[3] == 0 {
        if m.author == g[0] {
            if minus {
                if c > 10 {
                    g
                } else {
                    lemma_stage_cv(t, m, t, g, 3, 1);
                    let h1 = set_field(g, 3, 1);
                    if c > 0 {
                        lemma_stage_cv(t, m, cv(t, m, 3, 1).0, h1, 3, 2);
                        set_field(h1, 3, 2)
                    } else {
                        h1
                    }
                }
            } else {
                if -c < -10 {
                    g
                } else {
                    lemma_stage_cv(t, m, t, g, 3, 1);
                    set_field(g, 3, 1)
                }
            }
        } else if m.author == g[1] {
            if minus {
                if -c < -10 {
                    g
                } else {
                    lemma_stage_cv(t, m, t, g, 3, 2);
                    let h1 = set_field(g, 3, 2);
                    if -c < 0 {
                        lemma_stage_cv(t, m, cv(t, m, 3, 2).0, h1, 3, 1);
                        set_field(h1, 3, 1)
                    } else {
                        h1
                    }
                }
            } else {
                if c > 10 {
                    g
                } else {
                    lemma_stage_cv(t, m, t, g, 3, 2);
                    set_field(g, 3, 2)
                }
            }
        } else {
            g
        }
    } else if g[3] == 1 {
        if m.author == g[0] {
            if minus {
                if e + c > 10 {
                    g
                } else if e + c > 0 {
                    lemma_stage_cv(t, m, t, g, 3, 2);
                    set_field(g, 3, 2)
                } else {
                    g
                }
            } else {
                if e - c < -10 {
                    g
                } else {
                    lemma_stage_cv(t, m, t, g, 3, 1);
                    set_field(g, 3, 1)
                }
            }
        } else {
            g
        }
    } else {
        if m.author == g[0] {
            g
        } else if m.author == g[1] {
            if minus {
                if e - c < -10 {
                    g
                } else if e - c < 0 {
                    lemma_stage_cv(t, m, t, g, 3, 1);
                    set_field(g, 3, 1)
                } else {
                    g
                }
            } else {
                g
            }
        } else {
            g
        }
    }
}

proof fn lemma_energy_ok(t: Table, m: Message, minus: bool)
    requires
        law_pre(t, m),
        minus ==> minus_ok(t, m),
        !minus ==> plus_ok(t, m),
    ensures
        minus ==> table_ok(spec_minus(t, m).0) && names_one_game(spec_minus(t, m).0, m),
        !minus ==> table_ok(spec_plus(t, m).0) && names_one_game(spec_plus(t, m).0, m),
{
    let k = tid(t, m);
    if k != usize::MAX {
        let g = t.games[k as int];
        let steps = if minus {
            minus_steps(t, m, g, cost(m))
        } else {
            plus_steps(t, m, g, cost(m))
        };
        let h = lemma_energy_steps(t, m, minus);
        let e = steps.2 as i64;
        lemma_stage_cv(t, m, steps.0, h, 2, e);
        lemma_stage_ok(t, m, cv(steps.0, m, 2, e).0, set_field(h, 2, e));
        assert(energy_finish(t, m, k, steps).0 == cv(steps.0, m, 2, e).0);
    }
}

proof fn lemma_start_ok(t: Table, m: Message, args: Seq<char>)
    requires
        table_ok(t),
        t.games.len() <= usize::MAX,
        dispatch_ok(t, m, responses::START_COMMAND@, args),
    ensures
        table_ok(spec_start(t, m, args).0),
{
    if tid(t, m) == usize::MAX {
        let code = spec_in_game(t.games, m.author, m.mention, args.len() == 0);
        if code == 4 {
            lemma_table_index(t.games, m.author, m.mention);
            let x = m.mention.unwrap();
            let g = game_of(m.author, x.id, OPEN_ENERGY, 0, 16, 17, 4, 16711680, 255);
            let t1 = spec_make_game(t, g).0;
            let games = t1.games;
            assert forall|i: int| 0 <= i < t.games.len() implies !involves(
                #[trigger] t.games[i],
                m.author,
            ) && !involves(t.games[i], x.id) by {
                if involves(t.games[i], m.author) || involves(t.games[i], x.id) {
                    assert(someone_plays(t.games, m.author, m.mention));
                }
            }
            let n = t.games.len() as int;
            assert(games[n] == g);
            assert forall|i: int, j: int|
                0 <= i < games.len() && 0 <= j < games.len() && i != j implies !involves(
                #[trigger] games[j],
                #[trigger] games[i][0],
            ) && !involves(games[j], games[i][1]) by {
                if i < n && j < n {
                    assert(games[i] == t.games[i] && games[j] == t.games[j]);
                } else if i == n {
                    assert(games[j] == t.games[j]);
                } else {
                    assert(games[i] == t.games[i]);
                }
            }
            assert forall|i: int| 0 <= i < games.len() implies game_ok(#[trigger] games[i]) by {
                if i < n {
                    assert(games[i] == t.games[i]);
                }
            }
            assert(spec_start(t, m, args).0.games == games);
        }
    }
}

proof fn lemma_end_ok(t: Table, m: Message)
    requires
        table_ok(t),
        t.games.len() <= usize::MAX,
        dispatch_ok(t, m, responses::END_COMMAND@, seq![]),
    ensures
        table_ok(spec_end(t, m).0),
{
    let k = tid(t, m);
    if k != usize::MAX {
        lemma_table_index(t.games, m.author, m.mention);
        let s = t.games.remove(k as int);
        assert forall|i: int| 0 <= i < s.len() implies #[trigger] s[i] == t.games[if i < k {
            i
        } else {
            i + 1
        }] by {}
        assert forall|i: int, j: int|
            0 <= i < s.len() && 0 <= j < s.len() && i != j implies !involves(
            #[trigger] s[j],
            #[trigger] s[i][0],
        ) && !involves(s[j], s[i][1]) by {
            let oi = if i < k { i } else { i + 1 };
            let oj = if j < k { j } else { j + 1 };
            assert(s[i] == t.games[oi] && s[j] == t.games[oj]);
        }
        assert forall|i: int| 0 <= i < s.len() implies game_ok(#[trigger] s[i]) by {
            assert(s[i] == t.games[if i < k { i } else { i + 1 }]);
        }
    }
}

proof fn lemma_dispatch_ok(t: Table, m: Message, word: Seq<char>, args: Seq<char>)
    requires
        table_ok(t),
        t.games.len() <= usize::MAX,
        dispatch_ok(t, m, word, args),
        word == responses::RESET_COMMAND@ || word == responses::PASS_COMMAND@ ==> names_one_game(
            t,
            m,
        ),
    ensures
        table_ok(spec_dispatch(t, m, word, args).0),
{
    if word == responses::START_COMMAND@ {
        lemma_start_ok(t, m, args);
    } else if word == responses::END_COMMAND@ {
        lemma_end_ok(t, m);
    } else if word == responses::RESET_COMMAND@ {
        lemma_reset_ok(t, m);
    } else if word == responses::PASS_COMMAND@ {
        lemma_pass_ok(t, m);
    } else if word == responses::BOARD_COMMAND@ {
        lemma_board_ok(t, m, args);
    } else if word == responses::COLOR_COMMAND@ {
        lemma_color_ok(t, m, args);
    } else if word == responses::COUNTER_COMMAND@ {
        lemma_counter_ok(t, m, args);
    }
}

/// Whether a message may change the message's game twice: an energy amount
/// (`+` or `-`), `!reset` or `!pass`. Each change moves the game it finds to
/// the end of the table and looks for the message's game anew.
pub open spec fn changes_twice(m: Message) -> bool {
    &&& !m.private
    &&& {
        ||| m.content[0] == '+'
        ||| m.content[0] == '-'
        ||| first_word(m.content) == responses::RESET_COMMAND@
        ||| first_word(m.content) == responses::PASS_COMMAND@
    }
}

/// Law: every message that the bot runs to its end keeps the table well
/// formed: the count of games stays the number of games, nobody plays in two
/// games, and every game's energy, turn, gauges and counter stay in range. For a
/// message that may change its game twice (an energy amount, `!reset`, `!pass`)
/// this holds when the message names at most one game (a mentioned user plays
/// only where the author plays); the table starts empty and well formed.
pub proof fn law_command_keeps_table(t: Table, m: Message)
    requires
        table_ok(t),
        command_ok(t, m),
        changes_twice(m) ==> names_one_game(t, m),
    ensures
        table_ok(spec_command(t, m).0),
{
    if !m.private {
        let t1 = spec_energy(t, m).0;
        if m.content[0] == '+' {
            lemma_energy_ok(t, m, false);
        } else if m.content[0] == '-' {
            lemma_energy_ok(t, m, true);
        }
        assert(table_ok(t1));
        lemma_dispatch_ok(t1, m, first_word(m.content), arguments(m.content));
    }
}

/// Law: the empty table is well formed.
pub proof fn law_empty_table_ok()
    ensures
        table_ok(Table { games: Seq::empty(), count: 0 }),
{
}

/// Law: what `change_value` writes is what `find_game` then reads: the message's
/// game with the one field changed (for fields other than the players, when the
/// players are apart and the message names at most one game).
pub proof fn law_change_then_find(t: Table, m: Message, location: i64, value: i64)
    requires
        players_apart(t.games),
        names_one_game(t, m),
        can_change(t, m.author, m.mention),
        t.games.len() <= usize::MAX,
        2 <= location,
    ensures
        can_change(cv(t, m, location, value).0, m.author, m.mention),
        found(cv(t, m, location, value).0, m) == set_field(found(t, m), location, value),
{
    lemma_table_index(t.games, m.author, m.mention);
    lemma_cv_moves(t, m, location, value);
    let k = tid(t, m) as int;
    let n = t.games.len() as int;
    lemma_moved_index(t, k, set_field(t.games[k], location, value), n - 1);
    crate::game::lemma_change_keeps_players(t, m.author, m.mention, location, value);
}

/// Law: after `!end` by a player, when the message names at most one game (a
/// mentioned user plays only where the author plays), neither the author nor
/// the mentioned user plays in any game any more.
pub proof fn law_end_closes(t: Table, m: Message)
    requires
        table_ok(t),
        names_one_game(t, m),
        t.games.len() <= usize::MAX,
        tid(t, m) != usize::MAX,
    ensures
        !someone_plays(spec_end(t, m).0.games, m.author, m.mention),
        tid(spec_end(t, m).0, m) == usize::MAX,
{
    lemma_table_index(t.games, m.author, m.mention);
    let k = tid(t, m) as int;
    let f = lemma_first_player(t, m);
    assert(involves(t.games[k], m.author));
    let s = spec_end(t, m).0.games;
    assert(s == t.games.remove(k));
    assert forall|i: int| 0 <= i < s.len() implies !involves(#[trigger] s[i], m.author)
        && !mention_involved(s[i], m.mention) by {
        let oi = if i < k { i } else { i + 1 };
        assert(s[i] == t.games[oi]);
        assert(oi != k);
        let g = t.games[k];
        if g[0] == m.author {
            assert(!involves(t.games[oi], g[0]));
        } else {
            assert(!involves(t.games[oi], g[1]));
        }
    }
    lemma_table_index(s, m.author, m.mention);
}

/// Law: `!pass` by the player on turn (or by either player before anyone has
/// played) hands the turn to the other player with 3 energy for them: player
/// one leaves 3 energy and turn 2, player two leaves -3 and turn 1. This holds
/// when the message names at most one game.
pub proof fn law_pass_turns(t: Table, m: Message)
    requires
        law_pre(t, m),
        tid(t, m) != usize::MAX,
    ensures
        ({
            let g = found(t, m);
            let after = found(spec_pass(t, m).0, m);
            &&& ((g[3] == 0 || g[3] == 1) && m.author == g[0]) ==> after == set_field(
                set_field(g, 2, 3),
                3,
                2,
            )
            &&& ((g[3] == 0 || g[3] == 2) && m.author == g[1]) ==> after == set_field(
                set_field(g, 2, -3i64),
                3,
                1,
            )
        }),
{
    lemma_stage_start(t, m);
    let k = tid(t, m) as int;
    let n = t.games.len() as int;
    let g = t.games[k];
    assert(game_ok(g));
    if (g[3] == 0 || g[3] == 1) && m.author == g[0] {
        lemma_stage_cv(t, m, t, g, 2, 3);
        lemma_stage_cv(t, m, cv(t, m, 2, 3).0, set_field(g, 2, 3), 3, 2);
        let h = set_field(set_field(g, 2, 3), 3, 2);
        lemma_moved_index(t, k, h, n - 1);
    } else if (g[3] == 0 || g[3] == 2) && m.author == g[1] {
        lemma_stage_cv(t, m, t, g, 2, -3i64);
        lemma_stage_cv(t, m, cv(t, m, 2, -3i64).0, set_field(g, 2, -3i64), 3, 1);
        let h = set_field(set_field(g, 2, -3i64), 3, 1);
        lemma_moved_index(t, k, h, n - 1);
    }
}

/// Law: `!reset` keeps the customisation of the game: only the energy and the
/// turn go back to their start values.
pub proof fn law_reset_keeps_customization(t: Table, m: Message)
    requires
        law_pre(t, m),
        tid(t, m) != usize::MAX,
    ensures
        found(spec_reset(t, m).0, m) == set_field(set_field(found(t, m), 2, OPEN_ENERGY), 3, 0),
{
    lemma_stage_start(t, m);
    let k = tid(t, m) as int;
    let g = t.games[k];
    let n = t.games.len() as int;
    lemma_stage_cv(t, m, t, g, 2, OPEN_ENERGY);
    lemma_stage_cv(t, m, cv(t, m, 2, OPEN_ENERGY).0, set_field(g, 2, OPEN_ENERGY), 3, 0);
    let h = set_field(set_field(g, 2, OPEN_ENERGY), 3, 0);
    lemma_moved_index(t, k, h, n - 1);
}

/// Law: after `!start` opens a game, the message's table is the new game
/// between the author and the mentioned user, with the open energy, turn 0,
/// gauges 16 and 17, counter 4 and the names in red and blue.
pub proof fn law_start_opens(t: Table, m: Message, args: Seq<char>)
    requires
        table_ok(t),
        t.games.len() < usize::MAX,
        t.count < u32::MAX,
        tid(t, m) == usize::MAX,
        spec_in_game(t.games, m.author, m.mention, args.len() == 0) == 4,
    ensures
        found(spec_start(t, m, args).0, m) == game_of(
            m.author,
            m.mention.unwrap().id,
            OPEN_ENERGY,
            0,
            16,
            17,
            4,
            16711680,
            255,
        ),
        spec_start(t, m, args).0.games.len() == t.games.len() + 1,
{
    lemma_table_index(t.games, m.author, m.mention);
    let x = m.mention.unwrap();
    let g = game_of(m.author, x.id, OPEN_ENERGY, 0, 16, 17, 4, 16711680, 255);
    let games = t.games.push(g);
    let n = t.games.len() as int;
    assert forall|j: int| 0 <= j < n implies !involves(#[trigger] games[j], m.author)
        && !mention_involved(games[j], m.mention) by {
        assert(games[j] == t.games[j]);
        if involves(t.games[j], m.author) || mention_involved(t.games[j], m.mention) {
            assert(someone_plays(t.games, m.author, m.mention));
        }
    }
    lemma_scan_skip(games, m.author, m.mention, n);
    assert(spec_start(t, m, args).0.games == games);
}

// ---------------------------------------------------------------------------
// The count of games, and who plays where, on their own
// ---------------------------------------------------------------------------

/// Nobody plays in two games, and nobody plays against themself.
pub open spec fn nobody_twice(games: Seq<[i64; 9]>) -> bool {
    &&& players_apart(games)
    &&& forall|i: int| 0 <= i < games.len() ==> (#[trigger] games[i])[0] != games[i][1]
}

/// What changing fields other than the players keeps: the number of games, the
/// count, a game for the message, and that nobody plays twice.
pub open spec fn kept(t: Table, t1: Table, m: Message) -> bool {
    &&& t1.games.len() == t.games.len()
    &&& t1.count == t.count
    &&& (can_change(t, m.author, m.mention) ==> can_change(t1, m.author, m.mention))
    &&& (nobody_twice(t.games) ==> nobody_twice(t1.games))
}

proof fn lemma_cv_kept(t: Table, m: Message, location: i64, value: i64)
    requires
        can_change(t, m.author, m.mention),
        2 <= location,
        t.games.len() <= usize::MAX,
    ensures
        kept(t, cv(t, m, location, value).0, m),
{
    crate::game::lemma_change_keeps_players(t, m.author, m.mention, location, value);
    lemma_table_index(t.games, m.author, m.mention);
    let k = tid(t, m) as int;
    let g = set_field(t.games[k], location, value);
    assert(cv(t, m, location, value).0 == moved(t, k, g));
    if nobody_twice(t.games) {
        lemma_moved_players_apart(t, k, g);
        let s = moved(t, k, g).games;
        assert forall|i: int| 0 <= i < s.len() implies (#[trigger] s[i])[0] != s[i][1] by {
            lemma_moved_index(t, k, g, i);
        }
    }
}

/// The energy part of a message keeps the number of games, the count and that
/// nobody plays twice.
proof fn lemma_energy_kept(t: Table, m: Message)
    requires
        t.games.len() <= usize::MAX,
    ensures
        kept(t, spec_energy(t, m).0, m),
{
    let k = tid(t, m);
    if k != usize::MAX && (m.content[0] == '+' || m.content[0] == '-') {
        lemma_table_index(t.games, m.author, m.mention);
        lemma_cv_kept(t, m, 3, 1);
        lemma_cv_kept(t, m, 3, 2);
        lemma_cv_kept(cv(t, m, 3, 1).0, m, 3, 2);
        lemma_cv_kept(cv(t, m, 3, 2).0, m, 3, 1);
        let g = t.games[k as int];
        let steps = if m.content[0] == '+' {
            plus_steps(t, m, g, cost(m))
        } else {
            minus_steps(t, m, g, cost(m))
        };
        assert(kept(t, steps.0, m));
        lemma_cv_kept(steps.0, m, 2, steps.2 as i64);
        assert(energy_finish(t, m, k, steps).0 == cv(steps.0, m, 2, steps.2 as i64).0);
    }
}

/// Law: `!start` keeps that nobody plays in two games or against themself.
pub proof fn law_start_keeps_players_apart(t: Table, m: Message, args: Seq<char>)
    requires
        nobody_twice(t.games),
    ensures
        nobody_twice(spec_start(t, m, args).0.games),
{
    if tid(t, m) == usize::MAX && spec_in_game(t.games, m.author, m.mention, args.len() == 0)
        == 4 {
        let x = m.mention.unwrap();
        let g = game_of(m.author, x.id, OPEN_ENERGY, 0, 16, 17, 4, 16711680, 255);
        let games = t.games.push(g);
        let n = t.games.len() as int;
        assert forall|i: int| 0 <= i < n implies !involves(#[trigger] t.games[i], m.author)
            && !involves(t.games[i], x.id) by {
            if involves(t.games[i], m.author) || involves(t.games[i], x.id) {
                assert(someone_plays(t.games, m.author, m.mention));
            }
        }
        assert(games[n] == g);
        assert forall|i: int, j: int|
            0 <= i < games.len() && 0 <= j < games.len() && i != j implies !involves(
            #[trigger] games[j],
            #[trigger] games[i][0],
        ) && !involves(games[j], games[i][1]) by {
            if i < n && j < n {
                assert(games[i] == t.games[i] && games[j] == t.games[j]);
            } else if i == n {
                assert(games[j] == t.games[j]);
            } else {
                assert(games[i] == t.games[i]);
            }
        }
        assert forall|i: int| 0 <= i < games.len() implies (#[trigger] games[i])[0] != games[i][1] by {
            if i < n {
                assert(games[i] == t.games[i]);
            }
        }
        assert(spec_start(t, m, args).0.games == games);
    }
}

/// The command named by `word` keeps the count equal to the number of games,
/// and that nobody plays twice.
proof fn lemma_dispatch_kept(t: Table, m: Message, word: Seq<char>, args: Seq<char>)
    requires
        t.games.len() <= usize::MAX,
        dispatch_ok(t, m, word, args),
    ensures
        t.count == t.games.len() ==> spec_dispatch(t, m, word, args).0.count == spec_dispatch(
            t,
            m,
            word,
            args,
        ).0.games.len(),
        nobody_twice(t.games) ==> nobody_twice(spec_dispatch(t, m, word, args).0.games),
{
    lemma_table_index(t.games, m.author, m.mention);
    let k = tid(t, m);
    if word == responses::START_COMMAND@ {
        if nobody_twice(t.games) {
            law_start_keeps_players_apart(t, m, args);
        }
    } else if word == responses::END_COMMAND@ {
        if k != usize::MAX && nobody_twice(t.games) {
            let s = t.games.remove(k as int);
            assert forall|i: int| 0 <= i < s.len() implies #[trigger] s[i] == t.games[if i < k {
                i
            } else {
                i + 1
            }] by {}
            assert forall|i: int, j: int|
                0 <= i < s.len() && 0 <= j < s.len() && i != j implies !involves(
                #[trigger] s[j],
                #[trigger] s[i][0],
            ) && !involves(s[j], s[i][1]) by {
                let oi = if i < k { i } else { i + 1 };
                let oj = if j < k { j } else { j + 1 };
                assert(s[i] == t.games[oi] && s[j] == t.games[oj]);
            }
            assert forall|i: int| 0 <= i < s.len() implies (#[trigger] s[i])[0] != s[i][1] by {
                assert(s[i] == t.games[if i < k { i } else { i + 1 }]);
            }
        }
    } else if k != usize::MAX {
        lemma_cv_kept(t, m, 2, OPEN_ENERGY);
        lemma_cv_kept(cv(t, m, 2, OPEN_ENERGY).0, m, 3, 0);
        lemma_cv_kept(t, m, 2, 3);
        lemma_cv_kept(cv(t, m, 2, 3).0, m, 3, 2);
        lemma_cv_kept(t, m, 2, -3i64);
        lemma_cv_kept(cv(t, m, 2, -3i64).0, m, 3, 1);
        let n = crate::text::parse_i64(squeezed(args)).unwrap();
        lemma_cv_kept(t, m, 4, n);
        lemma_cv_kept(t, m, 5, n);
        lemma_cv_kept(t, m, 6, n);
        let c = crate::color::bit_field(squeezed(args));
        lemma_cv_kept(t, m, 7, c);
        lemma_cv_kept(t, m, 8, c);
    }
}

proof fn lemma_command_kept(t: Table, m: Message)
    requires
        command_ok(t, m),
    ensures
        t.count == t.games.len() ==> spec_command(t, m).0.count == spec_command(t, m).0.games.len(),
        nobody_twice(t.games) ==> nobody_twice(spec_command(t, m).0.games),
{
    if !m.private {
        lemma_energy_kept(t, m);
        let t1 = spec_energy(t, m).0;
        lemma_dispatch_kept(t1, m, first_word(m.content), arguments(m.content));
    }
}

/// Law: every message that the bot runs to its end keeps the count of games
/// equal to the number of games.
pub proof fn law_command_keeps_count(t: Table, m: Message)
    requires
        t.count == t.games.len(),
        command_ok(t, m),
    ensures
        spec_command(t, m).0.count == spec_command(t, m).0.games.len(),
{
    lemma_command_kept(t, m);
}

/// Law: every message that the bot runs to its end keeps that nobody plays in
/// two games or against themself.
pub proof fn law_command_keeps_players_apart(t: Table, m: Message)
    requires
        nobody_twice(t.games),
        command_ok(t, m),
    ensures
        nobody_twice(spec_command(t, m).0.games),
{
    lemma_command_kept(t, m);
}

/// Law: ending, with no one mentioned, the game that a player has just started
/// gives back the table as it was before the start.
pub proof fn law_end_undoes_start(t: Table, m1: Message, args: Seq<char>, m2: Message)
    requires
        t.count == t.games.len(),
        t.count < u32::MAX,
        spec_start(t, m1, args).0.games.len() == t.games.len() + 1,
        m2.author == m1.author,
        m2.mention is None,
    ensures
        spec_end(spec_start(t, m1, args).0, m2).0 == t,
{
    let n = t.games.len() as int;
    assert(tid(t, m1) == usize::MAX);
    assert(spec_in_game(t.games, m1.author, m1.mention, args.len() == 0) == 4);
    let x = m1.mention.unwrap();
    let g = game_of(m1.author, x.id, OPEN_ENERGY, 0, 16, 17, 4, 16711680, 255);
    let t1 = spec_start(t, m1, args).0;
    assert(t1.games == t.games.push(g));
    assert(t1.count == t.count + 1);
    assert forall|j: int| 0 <= j < n implies !involves(#[trigger] t1.games[j], m2.author)
        && !mention_involved(t1.games[j], m2.mention) by {
        assert(t1.games[j] == t.games[j]);
        if involves(t.games[j], m1.author) {
            assert(someone_plays(t.games, m1.author, m1.mention));
        }
    }
    lemma_scan_skip(t1.games, m2.author, m2.mention, n);
    assert(t1.games[n] == g);
    assert(tid(t1, m2) == n);
    assert(t1.games.remove(n) =~= t.games);
}

// ---------------------------------------------------------------------------
// What energy and passing do to the message's game
// ---------------------------------------------------------------------------

/// `g` with energy `energy` and turn `turn`, all else kept.
pub open spec fn with_energy_turn(g: [i64; 9], energy: int, turn: int) -> [i64; 9] {
    [g[0], g[1], energy as i64, turn as i64, g[4], g[5], g[6], g[7], g[8]]
}

proof fn lemma_stage_found(t: Table, m: Message, t1: Table, h: [i64; 9])
    requires
        stage(t, m, t1, h),
    ensures
        found(t1, m) == h,
{
    let k = tid(t, m) as int;
    if !(t1 == t && h == t.games[k]) {
        lemma_moved_index(t, k, h, t.games.len() - 1);
    }
}

/// Writing the energy at the end of a `+` or `-` message: the message's game
/// then has that energy.
proof fn lemma_write_energy_found(t: Table, m: Message, t1: Table, h: [i64; 9], e: i64)
    requires
        law_pre(t, m),
        stage(t, m, t1, h),
    ensures
        found(cv(t1, m, 2, e).0, m) == set_field(h, 2, e),
{
    lemma_stage_cv(t, m, t1, h, 2, e);
    lemma_stage_found(t, m, cv(t1, m, 2, e).0, set_field(h, 2, e));
}

/// The tables that the turn changes of a `+` or `-` message can leave, each
/// with the message's game in it, followed by the energy written.
proof fn lemma_energy_found(t: Table, m: Message, t1: Table, e: i64)
    requires
        law_pre(t, m),
        tid(t, m) != usize::MAX,
    ensures
        ({
            let g = found(t, m);
            let t31 = cv(t, m, 3, 1).0;
            let t32 = cv(t, m, 3, 2).0;
            &&& found(cv(t, m, 2, e).0, m) == set_field(g, 2, e)
            &&& found(cv(t31, m, 2, e).0, m) == set_field(set_field(g, 3, 1), 2, e)
            &&& found(cv(t32, m, 2, e).0, m) == set_field(set_field(g, 3, 2), 2, e)
            &&& found(cv(cv(t31, m, 3, 2).0, m, 2, e).0, m) == set_field(
                set_field(set_field(g, 3, 1), 3, 2),
                2,
                e,
            )
            &&& found(cv(cv(t32, m, 3, 1).0, m, 2, e).0, m) == set_field(
                set_field(set_field(g, 3, 2), 3, 1),
                2,
                e,
            )
        }),
{
    lemma_stage_start(t, m);
    let g = found(t, m);
    let t31 = cv(t, m, 3, 1).0;
    let t32 = cv(t, m, 3, 2).0;
    let h31 = set_field(g, 3, 1);
    let h32 = set_field(g, 3, 2);
    lemma_stage_cv(t, m, t, g, 3, 1);
    lemma_stage_cv(t, m, t, g, 3, 2);
    lemma_stage_cv(t, m, t31, h31, 3, 2);
    lemma_stage_cv(t, m, t32, h32, 3, 1);
    lemma_write_energy_found(t, m, t, g, e);
    lemma_write_energy_found(t, m, t31, h31, e);
    lemma_write_energy_found(t, m, t32, h32, e);
    lemma_write_energy_found(t, m, cv(t31, m, 3, 2).0, set_field(h31, 3, 2), e);
    lemma_write_energy_found(t, m, cv(t32, m, 3, 1).0, set_field(h32, 3, 1), e);
}

/// Law: a `-N` message spends `N` energy (memory) for the player on turn, with
/// `g` the message's game, `e` its energy and `N` the message read as a number
/// without its signs. Player one counts energy up, player two down:
/// - on turn 1, player one spending `N` with `e + N <= 10` leaves energy
///   `e + N`, and the turn goes to player two exactly when `e + N > 0`; a spend
///   past 10 is refused and the game stays as it was;
/// - on turn 2, player two spending `N` with `e - N >= -10` leaves energy
///   `e - N`, and the turn goes to player one exactly when `e - N < 0`; a spend
///   past -10 is refused;
/// - before anyone has played (turn 0) the energy starts from 0: player one
///   spending `N <= 10` leaves `N` and hands the turn over when `N > 0`, player
///   two leaves `-N` likewise; a spend past 10 leaves energy 0 and turn 0;
/// - a player who is not on turn changes nothing.
///
/// A refused spend is answered with the not-enough-energy notice, a player of
/// the game who is not on turn with the wait notice, and the message's game is
/// shown at the end under its table.
pub proof fn law_minus(t: Table, m: Message)
    requires
        law_pre(t, m),
        tid(t, m) != usize::MAX,
        minus_ok(t, m),
    ensures
        ({
            let g = found(t, m);
            let e = g[2] as int;
            let n = cost(m);
            let one = m.author == g[0];
            let two = m.author != g[0] && m.author == g[1];
            let after = found(spec_minus(t, m).0, m);
            &&& (g[3] == 1 && one && e + n <= 10) ==> after == with_energy_turn(
                g,
                e + n,
                if e + n > 0 { 2 } else { 1 },
            )
            &&& (g[3] == 1 && one && e + n > 10) ==> after == g
            &&& (g[3] == 1 && !one) ==> after == g
            &&& (g[3] == 2 && two && e - n >= -10) ==> after == with_energy_turn(
                g,
                e - n,
                if e - n < 0 { 1 } else { 2 },
            )
            &&& (g[3] == 2 && two && e - n < -10) ==> after == g
            &&& (g[3] == 2 && !two) ==> after == g
            &&& (g[3] == 0 && one && n <= 10) ==> after == with_energy_turn(
                g,
                n,
                if n > 0 { 2 } else { 1 },
            )
            &&& (g[3] == 0 && two && n <= 10) ==> after == with_energy_turn(
                g,
                -n,
                if n > 0 { 1 } else { 2 },
            )
            &&& (g[3] == 0 && (one || two) && n > 10) ==> after == with_energy_turn(g, 0, 0)
        }),
        ({
            let g = found(t, m);
            let e = g[2] as int;
            let n = cost(m);
            let one = m.author == g[0];
            let two = m.author != g[0] && m.author == g[1];
            let replies = spec_minus(t, m).1;
            &&& replies.last() == ActionView::ShowGame {
                game: found(spec_minus(t, m).0, m),
                table: tid(t, m),
                description: TextView::Empty,
                title: Title::Blank,
            }
            &&& ((g[3] == 1 && one && e + n > 10) || (g[3] == 2 && two && e - n < -10) || (g[3]
                == 0 && (one || two) && n > 10)) ==> replies[0] == ActionView::Send(
                TextView::Notice(Notice::NotEnoughEnergy),
            )
            &&& ((g[3] == 1 && two) || (g[3] == 2 && one)) ==> replies[0] == ActionView::Send(
                TextView::Notice(Notice::WaitForTurn),
            )
        }),
{
    crate::commands::lemma_cost_nonneg(m.content);
    let k = tid(t, m);
    let g = t.games[k as int];
    let steps = minus_steps(t, m, g, cost(m));
    let e = steps.2 as i64;
    lemma_energy_found(t, m, steps.0, e);
    lemma_stage_start(t, m);
    assert(game_ok(g));
    assert(spec_minus(t, m).0 == cv(steps.0, m, 2, e).0);
}

/// Law: a `+N` message gives back `N` energy to the player on turn, capped at
/// 10 (at -10 for player one, who counts up), with `g` the message's game, `e`
/// its energy and `N` the message read as a number without its signs:
/// - on turn 1, player one gets energy `max(e - N, -10)` and keeps the turn;
/// - on turn 2, player two gets energy `min(e + N, 10)` and keeps the turn;
/// - before anyone has played (turn 0) the energy starts from 0: player one gets
///   `-N` and the turn when `N <= 10`, else energy -10 and turn 0; player two
///   gets `N` and the turn when `N <= 10`, else energy 10 and turn 0;
/// - a player who is not on turn changes nothing.
///
/// A player of the game who is not on turn is answered with the wait notice,
/// and the message's game is shown at the end under its table.
pub proof fn law_plus(t: Table, m: Message)
    requires
        law_pre(t, m),
        tid(t, m) != usize::MAX,
        plus_ok(t, m),
    ensures
        ({
            let g = found(t, m);
            let e = g[2] as int;
            let n = cost(m);
            let one = m.author == g[0];
            let two = m.author != g[0] && m.author == g[1];
            let after = found(spec_plus(t, m).0, m);
            &&& (g[3] == 1 && one) ==> after == with_energy_turn(
                g,
                if e - n < -10 { -10 } else { e - n },
                1,
            )
            &&& (g[3] == 1 && !one) ==> after == g
            &&& (g[3] == 2 && two) ==> after == with_energy_turn(
                g,
                if e + n > 10 { 10 } else { e + n },
                2,
            )
            &&& (g[3] == 2 && !two) ==> after == g
            &&& (g[3] == 0 && one) ==> after == (if n > 10 {
                with_energy_turn(g, -10, 0)
            } else {
                with_energy_turn(g, -n, 1)
            })
            &&& (g[3] == 0 && two) ==> after == (if n > 10 {
                with_energy_turn(g, 10, 0)
            } else {
                with_energy_turn(g, n, 2)
            })
        }),
        ({
            let g = found(t, m);
            let one = m.author == g[0];
            let two = m.author != g[0] && m.author == g[1];
            let replies = spec_plus(t, m).1;
            &&& replies.last() == ActionView::ShowGame {
                game: found(spec_plus(t, m).0, m),
                table: tid(t, m),
                description: TextView::Empty,
                title: Title::Blank,
            }
            &&& ((g[3] == 1 && two) || (g[3] == 2 && one)) ==> replies[0] == ActionView::Send(
                TextView::Notice(Notice::WaitForTurn),
            )
        }),
{
    crate::commands::lemma_cost_nonneg(m.content);
    let k = tid(t, m);
    let g = t.games[k as int];
    let steps = plus_steps(t, m, g, cost(m));
    let e = steps.2 as i64;
    lemma_energy_found(t, m, steps.0, e);
    lemma_stage_start(t, m);
    assert(game_ok(g));
    assert(spec_plus(t, m).0 == cv(steps.0, m, 2, e).0);
}

/// Law: `!pass` from a player who is not on turn (turn 1 and player two, or
/// turn 2 and player one) changes no game; the bot answers whose turn it is.
pub proof fn law_pass_refused(t: Table, m: Message)
    requires
        tid(t, m) != usize::MAX,
        ({
            let g = found(t, m);
            (g[3] == 1 && m.author != g[0] && m.author == g[1]) || (g[3] == 2 && m.author == g[0])
        }),
    ensures
        spec_pass(t, m).0 == t,
        spec_pass(t, m).1[0] == ActionView::Send(TextView::NotYourTurn(found(t, m)[1])),
{
}

} // verus!
