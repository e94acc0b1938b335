use wander::sim::{
    lcg_next, pick_weather, Diff, Round, K_A, K_D, K_S, K_W,
};
use wander::ui::{
    key_motion, roll_weather, theme_name, weather_label, Key, Menu, MenuAction, Mode, Motion,
    Screen, MAX_LEVEL, MIN_LEVEL, START_LEVEL,
};
use wander::world::{Theme, Weather, WORLD_COUNT};

#[test]
fn difficulty_is_clamped_to_one_through_ten() {
    assert_eq!(Diff::new(0).level, 1);
    assert_eq!(Diff::new(-7).level, 1);
    assert_eq!(Diff::new(1).level, 1);
    assert_eq!(Diff::new(5).level, 5);
    assert_eq!(Diff::new(10).level, 10);
    assert_eq!(Diff::new(11).level, 10);
    assert_eq!(Diff::new(i32::MAX).level, 10);
    assert_eq!(Diff::new(i32::MIN).level, 1);
}

#[test]
fn difficulty_table_matches_the_readme() {
    let names = ["Casual", "Casual", "Easy", "Easy", "Normal", "Normal", "Hard", "Hard", "Nightmare", "Nightmare"];
    for level in 1..=10 {
        let d = Diff::new(level);
        assert_eq!(d.name(), names[(level - 1) as usize]);
        assert_eq!(d.enemy_count(), (4 + level) as usize);
        assert_eq!(d.enemy_hp(), 60 + 14 * level as i64);
    }
    assert_eq!(Diff::new(1).enemy_count(), 5);
    assert_eq!(Diff::new(10).enemy_count(), 14);
    assert_eq!(Diff::new(1).enemy_hp(), 74);
    assert_eq!(Diff::new(2).enemy_hp(), 88);
    assert_eq!(Diff::new(10).enemy_hp(), 200);
    assert_eq!(Diff { level: 0 }.name(), "Nightmare");
}

#[test]
fn generator_step_is_the_64_bit_lcg() {
    assert_eq!(lcg_next(0), 1442695040888963407);
    assert_eq!(lcg_next(0x9E3779B97F4A7C15), 3236661110929538048);
}

#[test]
fn weather_roll_thresholds_and_themes() {
    assert!(pick_weather(0, Theme::Valley) == Weather::Clear);
    assert!(pick_weather(44, Theme::Valley) == Weather::Clear);
    assert!(pick_weather(45, Theme::Valley) == Weather::Rain);
    assert!(pick_weather(71, Theme::Valley) == Weather::Rain);
    assert!(pick_weather(72, Theme::Valley) == Weather::Snow);
    assert!(pick_weather(79, Theme::Frozen) == Weather::Snow);
    assert!(pick_weather(80, Theme::Frozen) == Weather::Fog);
    assert!(pick_weather(99, Theme::Valley) == Weather::Fog);
    assert!(pick_weather(75, Theme::Desert) == Weather::Fog);
    assert!(pick_weather(75, Theme::Tropical) == Weather::Fog);
    assert!(pick_weather(75, Theme::Forest) == Weather::Fog);
    assert!(pick_weather(50, Theme::Desert) == Weather::Rain);
}

#[test]
fn no_snow_outside_cold_worlds() {
    for n in 0..100u64 {
        for t in [Theme::Desert, Theme::Tropical, Theme::Forest] {
            assert!(pick_weather(n, t) != Weather::Snow);
        }
    }
}

#[test]
fn roll_weather_steps_generator_and_holds() {
    let r = roll_weather(0x9E3779B97F4A7C15, Theme::Valley);
    assert_eq!(r.state, 3236661110929538048);
    assert!(r.weather == Weather::Clear);
    assert_eq!(r.hold_centis, 848);
    let mut s = 1u64;
    for _ in 0..1000 {
        let r = roll_weather(s, Theme::Desert);
        assert!(r.hold_centis < 1200);
        assert!(r.weather != Weather::Snow);
        s = r.state;
    }
}

#[test]
fn kills_score_and_complete_the_round() {
    let mut r = Round::new(2);
    assert_eq!(r.add_enemy(), 0);
    assert_eq!(r.add_enemy(), 1);
    assert_eq!(r.add_player(), 0);
    assert_eq!(r.add_player(), 1);
    assert_eq!((r.remaining(), r.complete()), (2, false));
    r.record_kill(1, 0);
    assert!(!r.alive(0) && r.alive(1));
    assert_eq!((r.score(1), r.kills(1), r.score(0), r.kills(0)), (100, 1, 0, 0));
    assert_eq!((r.remaining(), r.complete()), (1, false));
    r.record_kill(1, 1);
    assert_eq!((r.score(1), r.kills(1)), (200, 2));
    assert_eq!((r.remaining(), r.complete()), (0, true));
    assert_eq!((r.players(), r.enemies(), r.total()), (2, 2, 2));
}

#[test]
fn round_of_n_enemies_completes_after_n_kills() {
    for n in 1..15u32 {
        let mut r = Round::new(n);
        for _ in 0..n {
            r.add_enemy();
        }
        for _ in 0..3 {
            r.add_player();
        }
        for k in 1..=n {
            r.record_kill((k % 3) as usize, (k - 1) as usize);
            assert_eq!(r.complete(), k == n);
            assert_eq!(r.remaining(), n - k);
            let kills: u32 = (0..3).map(|i| r.kills(i)).sum();
            let scores: u32 = (0..3).map(|i| r.score(i)).sum();
            assert_eq!(kills, k);
            assert_eq!(scores, 100 * k);
        }
    }
}

#[test]
fn round_with_enemies_not_placed_stays_open() {
    let mut r = Round::new(5);
    for _ in 0..3 {
        r.add_enemy();
    }
    r.add_player();
    for e in 0..3 {
        r.record_kill(0, e);
    }
    assert_eq!((r.remaining(), r.complete(), r.kills(0), r.score(0)), (2, false, 3, 300));
}

#[test]
fn key_mask_bits() {
    assert_eq!((K_W, K_A, K_S, K_D), (1, 2, 4, 8));
}

#[test]
fn menu_flow_single_player_and_back() {
    let mut m = Menu::new();
    assert!(m.screen() == Screen::Title);
    assert!(m.mode() == Mode::Single);
    assert_eq!(m.level(), START_LEVEL);
    assert!(m.handle_key(Key::Down) == MenuAction::Nothing);
    assert!(m.screen() == Screen::Title);
    assert!(m.handle_key(Key::Enter) == MenuAction::Nothing);
    assert!(m.screen() == Screen::Mode);
    assert!(m.handle_key(Key::Enter) == MenuAction::Nothing);
    assert!(m.screen() == Screen::Select);
    assert!(m.handle_key(Key::Down) == MenuAction::Nothing);
    assert!(m.handle_key(Key::Down) == MenuAction::Nothing);
    assert_eq!(m.sel(), 2);
    assert!(m.handle_key(Key::Enter) == MenuAction::Nothing);
    assert!(m.screen() == Screen::Difficulty);
    assert!(m.handle_key(Key::Right) == MenuAction::Nothing);
    assert!(m.handle_key(Key::Up) == MenuAction::Nothing);
    assert!(m.handle_key(Key::Left) == MenuAction::Nothing);
    assert_eq!(m.level(), START_LEVEL + 1);
    assert!(m.handle_key(Key::Enter) == MenuAction::StartWorld(2, START_LEVEL + 1));
    assert!(m.screen() == Screen::Play);
    assert!(m.handle_key(Key::Char('w')) == MenuAction::Nothing);
    assert!(m.screen() == Screen::Play);
    assert!(m.handle_key(Key::Esc) == MenuAction::LeaveWorld);
    assert!(m.screen() == Screen::Select);
    assert!(m.handle_key(Key::Enter) == MenuAction::Nothing);
    assert!(m.screen() == Screen::Difficulty);
    assert!(m.handle_key(Key::Char('q')) == MenuAction::Nothing);
    assert!(m.screen() == Screen::Select);
    assert!(m.handle_key(Key::Char('q')) == MenuAction::Nothing);
    assert!(m.screen() == Screen::Mode);
    assert!(m.handle_key(Key::Esc) == MenuAction::Nothing);
    assert!(m.screen() == Screen::Title);
    assert!(m.handle_key(Key::Char(' ')) == MenuAction::Nothing);
    assert!(m.screen() == Screen::Mode);
    assert!(m.handle_key(Key::Esc) == MenuAction::Nothing);
    assert!(m.screen() == Screen::Title);
    assert!(m.handle_key(Key::Char('q')) == MenuAction::Quit);
    assert!(m.handle_key(Key::Esc) == MenuAction::Quit);
    assert!(m.screen() == Screen::Title);
}

#[test]
fn menu_flow_host_game() {
    let mut m = Menu::new();
    m.handle_key(Key::Enter);
    assert!(m.handle_key(Key::Down) == MenuAction::Nothing);
    assert!(m.mode() == Mode::Host);
    m.handle_key(Key::Enter);
    assert!(m.screen() == Screen::Select);
    for _ in 1..WORLD_COUNT {
        m.handle_key(Key::Down);
    }
    assert_eq!(m.sel(), WORLD_COUNT - 1);
    m.handle_key(Key::Enter);
    for _ in 0..20 {
        m.handle_key(Key::Up);
    }
    assert_eq!(m.level(), MAX_LEVEL);
    assert!(m.handle_key(Key::Enter) == MenuAction::HostWorld(WORLD_COUNT - 1, MAX_LEVEL));
    assert!(m.screen() == Screen::Play);
    assert!(m.handle_key(Key::Char('q')) == MenuAction::LeaveWorld);
    assert!(m.screen() == Screen::Select);
}

#[test]
fn difficulty_stays_within_bounds() {
    let mut m = Menu::new();
    m.handle_key(Key::Enter);
    m.handle_key(Key::Enter);
    m.handle_key(Key::Enter);
    assert!(m.screen() == Screen::Difficulty);
    for _ in 0..20 {
        m.handle_key(Key::Down);
    }
    assert_eq!(m.level(), MIN_LEVEL);
    assert!(m.handle_key(Key::Enter) == MenuAction::StartWorld(0, MIN_LEVEL));
}

#[test]
fn menu_flow_join_game_through_the_address() {
    let mut m = Menu::new();
    m.handle_key(Key::Enter);
    m.handle_key(Key::Up);
    assert!(m.mode() == Mode::Join);
    m.handle_key(Key::Enter);
    assert!(m.screen() == Screen::Address);
    assert!(m.address().is_empty());
    assert!(m.handle_key(Key::Enter) == MenuAction::Nothing);
    assert!(m.screen() == Screen::Address);
    for c in "192.168.1.20:4242".chars() {
        assert!(m.handle_key(Key::Char(c)) == MenuAction::Nothing);
    }
    assert!(m.handle_key(Key::Char(' ')) == MenuAction::Nothing);
    assert!(m.handle_key(Key::Char('é')) == MenuAction::Nothing);
    assert!(m.handle_key(Key::Char('q')) == MenuAction::Nothing);
    assert_eq!(m.address(), b"192.168.1.20:4242q");
    assert!(m.handle_key(Key::Backspace) == MenuAction::Nothing);
    assert_eq!(m.address(), b"192.168.1.20:4242");
    assert!(m.screen() == Screen::Address);
    assert!(m.handle_key(Key::Enter) == MenuAction::Join);
    assert!(m.screen() == Screen::Play);
    assert!(m.handle_key(Key::Esc) == MenuAction::LeaveWorld);
    assert!(m.screen() == Screen::Mode);
    m.handle_key(Key::Enter);
    assert!(m.screen() == Screen::Address);
    for _ in 0..30 {
        m.handle_key(Key::Backspace);
    }
    assert!(m.address().is_empty());
    assert!(m.handle_key(Key::Esc) == MenuAction::Nothing);
    assert!(m.screen() == Screen::Mode);
}

#[test]
fn selection_wraps_down_and_stops_at_top() {
    let mut m = Menu::new();
    m.handle_key(Key::Enter);
    m.handle_key(Key::Enter);
    m.handle_key(Key::Up);
    assert_eq!(m.sel(), 0);
    for i in 1..=WORLD_COUNT {
        m.handle_key(Key::Down);
        assert_eq!(m.sel(), i % WORLD_COUNT);
    }
    m.handle_key(Key::Down);
    m.handle_key(Key::Down);
    m.handle_key(Key::Up);
    assert_eq!(m.sel(), 1);
    m.handle_key(Key::Char('Q'));
    assert!(m.screen() == Screen::Select);
}

#[test]
fn held_keys_map_to_motions() {
    assert!(key_motion(Key::Left) == Motion::TurnLeft);
    assert!(key_motion(Key::Right) == Motion::TurnRight);
    assert!(key_motion(Key::Up) == Motion::Forward);
    assert!(key_motion(Key::Char('w')) == Motion::Forward);
    assert!(key_motion(Key::Char('W')) == Motion::Forward);
    assert!(key_motion(Key::Down) == Motion::Back);
    assert!(key_motion(Key::Char('s')) == Motion::Back);
    assert!(key_motion(Key::Char('S')) == Motion::Back);
    assert!(key_motion(Key::Char('a')) == Motion::StrafeLeft);
    assert!(key_motion(Key::Char('A')) == Motion::StrafeLeft);
    assert!(key_motion(Key::Char('d')) == Motion::StrafeRight);
    assert!(key_motion(Key::Char('D')) == Motion::StrafeRight);
    assert!(key_motion(Key::Enter) == Motion::Stay);
    assert!(key_motion(Key::Char('x')) == Motion::Stay);
}

#[test]
fn labels_of_weather_and_theme() {
    assert_eq!(weather_label(Weather::Clear), "SUNNY");
    assert_eq!(weather_label(Weather::Rain), "RAIN");
    assert_eq!(weather_label(Weather::Snow), "SNOW");
    assert_eq!(weather_label(Weather::Fog), "FOG ");
    assert_eq!(theme_name(Theme::Valley), "Valley");
    assert_eq!(theme_name(Theme::Desert), "Desert");
    assert_eq!(theme_name(Theme::Frozen), "Frozen");
    assert_eq!(theme_name(Theme::Tropical), "Tropical");
    assert_eq!(theme_name(Theme::Forest), "Forest");
}
