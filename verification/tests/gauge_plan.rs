use lunabot::gauge::{counter_template, energy_position, gauge_plan, gauge_template, name_lines};

#[test]
fn energy_position_table() {
    assert_eq!(energy_position(-10), (376, 224));
    assert_eq!(energy_position(-6), (31, 224));
    assert_eq!(energy_position(-5), (31, 134));
    assert_eq!(energy_position(0), (459, 134));
    assert_eq!(energy_position(3), (716, 134));
    assert_eq!(energy_position(6), (887, 44));
    assert_eq!(energy_position(9), (633, 44));
    assert_eq!(energy_position(10), (547, 134));
    assert_eq!(energy_position(11), (463, 134));
    assert_eq!(energy_position(i64::MAX), (463, 134));
}

#[test]
fn templates() {
    assert_eq!(counter_template(1), Some(1));
    assert_eq!(counter_template(5), Some(5));
    assert_eq!(counter_template(6), None);
    assert_eq!(counter_template(0), None);
    assert_eq!(gauge_template(17), 17);
    assert_eq!(gauge_template(18), 1);
    assert_eq!(gauge_template(-3), 1);
}

#[test]
fn plan_of_a_new_game() {
    let game = [11, 22, i64::MAX, 0, 16, 17, 4, 16711680, 255];
    let p = gauge_plan(game);
    assert_eq!(p.player_one, 11);
    assert_eq!(p.player_two, 22);
    assert_eq!(p.gauge_one, 16);
    assert_eq!(p.gauge_two, 17);
    assert_eq!(p.counter, 4);
    assert_eq!(p.color_one.0, [255, 0, 0, 100]);
    assert_eq!(p.color_two.0, [0, 0, 255, 100]);
    assert_eq!((p.counter_x, p.counter_y), (459, 134));
}

#[test]
fn plan_places_counter_by_energy() {
    let game = [11, 22, -7, 1, 0, 40, 2, 0, 0];
    let p = gauge_plan(game);
    assert_eq!((p.counter_x, p.counter_y), (117, 224));
    assert_eq!(p.gauge_one, 1);
    assert_eq!(p.gauge_two, 1);
}

#[test]
fn short_names_stay_on_one_line() {
    assert_eq!(name_lines("Alice"), vec!["Alice".to_string()]);
    assert_eq!(name_lines("bob   "), vec!["bob".to_string()]);
}

#[test]
fn long_names_are_wrapped() {
    let lines = name_lines("a very long display name that surely needs wrapping");
    assert!(lines.len() >= 2);
    for line in &lines {
        assert!(line.len() <= 30);
    }
}
