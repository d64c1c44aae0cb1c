//! What the gauge picture of a game shows: which gauge and counter images,
//! where the energy counter stands, the colours of the names, and how a name
//! is broken into lines.
use vstd::prelude::*;

use crate::color::{color_of_bit_field, from_bit_field, Rgba};
use crate::game::OPEN_ENERGY;
use crate::render::strings_view;
use crate::text::utf8_len;

verus! {

/// The width, in columns, at which a name is broken into lines.
pub const NAME_WIDTH: usize = 30;

/// `energy_position`: where the counter stands on the picture for an energy
/// from -10 to 10 (the middle for any other energy).
pub open spec fn counter_spot(energy: i64) -> (i64, i64) {
    if energy == -10 {
        (376, 224)
    } else if energy == -9 {
        (290, 224)
    } else if energy == -8 {
        (203, 224)
    } else if energy == -7 {
        (117, 224)
    } else if energy == -6 {
        (31, 224)
    } else if energy == -5 {
        (31, 134)
    } else if energy == -4 {
        (117, 134)
    } else if energy == -3 {
        (204, 134)
    } else if energy == -2 {
        (290, 134)
    } else if energy == -1 {
        (376, 134)
    } else if energy == 0 {
        (459, 134)
    } else if energy == 1 {
        (547, 134)
    } else if energy == 2 {
        (633, 134)
    } else if energy == 3 {
        (716, 134)
    } else if energy == 4 {
        (802, 134)
    } else if energy == 5 {
        (887, 134)
    } else if energy == 6 {
        (887, 44)
    } else if energy == 7 {
        (802, 44)
    } else if energy == 8 {
        (716, 44)
    } else if energy == 9 {
        (633, 44)
    } else if energy == 10 {
        (547, 134)
    } else {
        (463, 134)
    }
}

/// Law: the counter stands on the side of the gauge that the sign of the
/// energy gives: right of the middle spot (x = 459) for an energy from 1 to 10,
/// left of it for an energy from -10 to -1, on the middle spot for 0; an
/// energy outside -10 to 10 puts it just right of the middle (x = 463) on the
/// middle row.
pub proof fn law_counter_side(e: i64)
    ensures
        1 <= e <= 10 ==> counter_spot(e).0 > 459,
        -10 <= e <= -1 ==> counter_spot(e).0 < 459,
        counter_spot(0) == (459i64, 134i64),
        (e < -10 || e > 10) ==> counter_spot(e) == (463i64, 134i64),
{
}

/// Law: the counter moves along the gauge in order. From -5 to 5 it walks
/// right along the middle row; from 6 to 9 it walks back left along the top
/// row; from -10 to -6 it walks left along the bottom row.
pub proof fn law_counter_order(a: i64, b: i64)
    requires
        a < b,
    ensures
        -5 <= a && b <= 5 ==> counter_spot(a).0 < counter_spot(b).0 && counter_spot(a).1 == 134
            && counter_spot(b).1 == 134,
        6 <= a && b <= 9 ==> counter_spot(a).0 > counter_spot(b).0 && counter_spot(a).1 == 44
            && counter_spot(b).1 == 44,
        -10 <= a && b <= -6 ==> counter_spot(a).0 > counter_spot(b).0 && counter_spot(a).1 == 224
            && counter_spot(b).1 == 224,
{
}

/// Law: energies from -9 to 9 put the counter on different spots.
pub proof fn law_counter_spots_distinct(a: i64, b: i64)
    requires
        -9 <= a <= 9,
        -9 <= b <= 9,
        a != b,
    ensures
        counter_spot(a) != counter_spot(b),
{
    if a < b {
        law_counter_order(a, b);
    } else {
        law_counter_order(b, a);
    }
}

/// `energy_position`: the top-left corner of the counter on the picture.
pub fn energy_position(energy: i64) -> (r: (i64, i64))
    ensures
        r == counter_spot(energy),
{
    match energy {
        -10 => (376, 224),
        -9 => (290, 224),
        -8 => (203, 224),
        -7 => (117, 224),
        -6 => (31, 224),
        -5 => (31, 134),
        -4 => (117, 134),
        -3 => (204, 134),
        -2 => (290, 134),
        -1 => (376, 134),
        0 => (459, 134),
        1 => (547, 134),
        2 => (633, 134),
        3 => (716, 134),
        4 => (802, 134),
        5 => (887, 134),
        6 => (887, 44),
        7 => (802, 44),
        8 => (716, 44),
        9 => (633, 44),
        10 => (547, 134),
        _ => (463, 134),
    }
}

/// The counter image chosen by `option` (images 1 to 5); `None` for others.
pub fn counter_template(option: i64) -> (r: Option<i64>)
    ensures
        r == if 1 <= option <= 5 {
            Some(option)
        } else {
            None::<i64>
        },
{
    if 1 <= option && option <= 5 {
        Some(option)
    } else {
        None
    }
}

/// The gauge image chosen by `option` (images 1 to 17); image 1 for others.
pub fn gauge_template(option: i64) -> (r: i64)
    ensures
        r == if 1 <= option <= 17 {
            option
        } else {
            1
        },
{
    if 1 <= option && option <= 17 {
        option
    } else {
        1
    }
}

/// What `create_gauge` draws for a game.
#[derive(Clone, Copy, Debug, PartialEq, Eq)]
pub struct GaugePlan {
    /// The user whose name is written on the left gauge.
    pub player_one: i64,
    /// The user whose name is written on the right gauge (turned upside down).
    pub player_two: i64,
    /// The gauge image of player one.
    pub gauge_one: i64,
    /// The gauge image of player two.
    pub gauge_two: i64,
    /// The counter image.
    pub counter: i64,
    /// The colour of player one's name.
    pub color_one: Rgba<u8>,
    /// The colour of player two's name.
    pub color_two: Rgba<u8>,
    /// Where the counter is placed.
    pub counter_x: i64,
    pub counter_y: i64,
}

/// The energy drawn: the open energy is drawn as 0.
pub open spec fn drawn_energy(energy: i64) -> i64 {
    if energy == OPEN_ENERGY {
        0
    } else {
        energy
    }
}

/// What `create_gauge` draws for `game`.
pub open spec fn plan_of(game: [i64; 9]) -> GaugePlan {
    let spot = counter_spot(drawn_energy(game[2]));
    GaugePlan {
        player_one: game[0],
        player_two: game[1],
        gauge_one: if 1 <= game[4] <= 17 { game[4] } else { 1 },
        gauge_two: if 1 <= game[5] <= 17 { game[5] } else { 1 },
        counter: game[6],
        color_one: color_of_bit_field(game[7]),
        color_two: color_of_bit_field(game[8]),
        counter_x: spot.0,
        counter_y: spot.1,
    }
}

/// The drawing plan of `create_gauge` for `game`, whose counter image must
/// exist.
pub fn gauge_plan(game: [i64; 9]) -> (p: GaugePlan)
    requires
        1 <= game[6] <= 5,
    ensures
        p == plan_of(game),
{
    let energy = game[2];
    let energy = if energy == OPEN_ENERGY {
        0
    } else {
        energy
    };
    let (x, y) = energy_position(energy);
    let counter = counter_template(game[6]).unwrap();
    GaugePlan {
        player_one: game[0],
        player_two: game[1],
        gauge_one: gauge_template(game[4]),
        gauge_two: gauge_template(game[5]),
        counter,
        color_one: from_bit_field(game[7]),
        color_two: from_bit_field(game[8]),
        counter_x: x,
        counter_y: y,
    }
}

/// The lines into which `textwrap::wrap` breaks `text` at `width` columns.
pub uninterp spec fn wrapped(text: Seq<char>, width: usize) -> Seq<Seq<char>>;

/// `s` without its trailing spaces.
pub open spec fn trim_end_spaces(s: Seq<char>) -> Seq<char>
    decreases s.len(),
{
    if s.len() > 0 && s.last() == ' ' {
        trim_end_spaces(s.drop_last())
    } else {
        s
    }
}

/// `textwrap::wrap(text, width)`, each line as a `String`. Its contract names
/// the lines, and states what the crate's source does for a text without line
/// breaks that is shorter (in bytes) than the width: one line, the text without
/// its trailing spaces. How longer texts are broken is left to the name.
#[verifier::external_body]
fn wrap_text(text: &str, width: usize) -> (lines: Vec<String>)
    requires
        width > 0,
    ensures
        strings_view(lines@) == wrapped(text@, width),
        (!text@.contains('\n') && utf8_len(text@) < width) ==> strings_view(lines@) == seq![
            trim_end_spaces(text@),
        ],
{
    textwrap::wrap(text, width).into_iter().map(|line| line.into_owned()).collect()
}

/// The lines in which `draw_text` writes a name on the gauge: the name wrapped
/// at [`NAME_WIDTH`] columns.
pub fn name_lines(name: &str) -> (lines: Vec<String>)
    ensures
        strings_view(lines@) == wrapped(name@, NAME_WIDTH),
        (!name@.contains('\n') && utf8_len(name@) < NAME_WIDTH) ==> strings_view(lines@) == seq![
            trim_end_spaces(name@),
        ],
{
    wrap_text(name, NAME_WIDTH)
}

} // verus!
