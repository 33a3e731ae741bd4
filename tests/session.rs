use conways::session::{command_of, Action, Command, Event, Key, Mode, Session, Viewport};

fn viewport(width: u16, height: u16) -> Viewport {
    Viewport { top: 0, left: 0, width, height }
}

fn sorted(s: &Session) -> Vec<(u16, u16)> {
    let mut v = s.world.alive.clone();
    v.sort();
    v
}

#[test]
fn keys_map_to_commands() {
    assert_eq!(command_of(Key::Char(' ')), Command::TogglePlay);
    assert_eq!(command_of(Key::Char('i')), Command::SwitchToInsert);
    assert_eq!(command_of(Key::Enter), Command::SwitchToPlay);
    assert_eq!(command_of(Key::Delete), Command::Clear);
    assert_eq!(command_of(Key::Char('1')), Command::LoadPreset);
    assert_eq!(command_of(Key::Char('s')), Command::Save);
    assert_eq!(command_of(Key::Char('q')), Command::Quit);
    assert_eq!(command_of(Key::Char('x')), Command::Ignore);
    assert_eq!(command_of(Key::Other), Command::Ignore);
}

#[test]
fn click_translates_through_border() {
    let vp = Viewport { top: 2, left: 3, width: 10, height: 6 };
    assert_eq!(vp.cell_at(3, 4), Some((0, 0)));
    assert_eq!(vp.cell_at(6, 11), Some((3, 7)));
    assert_eq!(vp.cell_at(2, 4), None);
    assert_eq!(vp.cell_at(3, 3), None);
    assert_eq!(vp.cell_at(7, 4), None);
    assert_eq!(vp.cell_at(3, 12), None);
}

#[test]
fn toggle_play_from_insert_starts_running() {
    let mut s = Session::new(10, 10, viewport(12, 12));
    assert_eq!(s.mode, Mode::Insert);
    assert!(!s.running);
    s.handle_event(Event::LeftClick(3, 3));
    s.handle_event(Event::LeftClick(3, 4));
    s.handle_event(Event::LeftClick(4, 3));
    s.handle_event(Event::LeftClick(4, 4));
    assert_eq!(s.handle_event(Event::KeyInput(Key::Char(' '))), Action::Continue);
    assert_eq!(s.mode, Mode::Play);
    assert!(s.running);
    s.handle_event(Event::KeyInput(Key::Char(' ')));
    assert_eq!(s.mode, Mode::Play);
    assert!(!s.running);
}

#[test]
fn paused_play_does_not_advance() {
    let mut s = Session::new(10, 10, viewport(12, 12));
    s.handle_event(Event::LeftClick(5, 5));
    s.handle_event(Event::KeyInput(Key::Char(' ')));
    s.handle_event(Event::KeyInput(Key::Char(' ')));
    s.handle_event(Event::Tick);
    assert_eq!(sorted(&s), vec![(4, 4)]);
    assert_eq!(s.mode, Mode::Play);
}

#[test]
fn emptied_grid_returns_to_insert() {
    let mut s = Session::new(10, 10, viewport(12, 12));
    s.handle_event(Event::LeftClick(5, 5));
    s.handle_event(Event::KeyInput(Key::Enter));
    assert_eq!(s.mode, Mode::Play);
    assert!(s.running);
    s.handle_event(Event::Tick);
    assert!(s.world.alive.is_empty());
    assert_eq!(s.mode, Mode::Insert);
    assert!(!s.running);
}

#[test]
fn blinker_end_to_end() {
    let mut s = Session::new(20, 20, viewport(22, 22));
    s.handle_event(Event::LeftClick(6, 6));
    s.handle_event(Event::LeftClick(6, 7));
    s.handle_event(Event::LeftClick(6, 8));
    assert_eq!(sorted(&s), vec![(5, 5), (5, 6), (5, 7)]);
    s.handle_event(Event::KeyInput(Key::Enter));
    s.handle_event(Event::Tick);
    assert_eq!(sorted(&s), vec![(4, 6), (5, 6), (6, 6)]);
    assert_eq!(s.mode, Mode::Play);
    assert!(s.running);
}

#[test]
fn clicks_and_clear_are_ignored_while_playing() {
    let mut s = Session::new(10, 10, viewport(12, 12));
    s.handle_event(Event::LeftClick(2, 2));
    s.handle_event(Event::KeyInput(Key::Char(' ')));
    s.handle_event(Event::KeyInput(Key::Char(' ')));
    s.handle_event(Event::LeftClick(3, 3));
    s.handle_event(Event::KeyInput(Key::Delete));
    assert_eq!(sorted(&s), vec![(1, 1)]);
    s.handle_event(Event::KeyInput(Key::Char('i')));
    assert_eq!(s.mode, Mode::Insert);
    assert!(!s.running);
    s.handle_event(Event::KeyInput(Key::Delete));
    assert!(s.world.alive.is_empty());
}

#[test]
fn click_outside_viewport_is_ignored() {
    let mut s = Session::new(10, 10, viewport(12, 12));
    s.handle_event(Event::LeftClick(0, 5));
    s.handle_event(Event::LeftClick(5, 11));
    assert!(s.world.alive.is_empty());
}

#[test]
fn save_only_while_editing() {
    let mut s = Session::new(10, 10, viewport(12, 12));
    assert_eq!(s.handle_event(Event::KeyInput(Key::Char('s'))), Action::Save);
    s.handle_event(Event::KeyInput(Key::Enter));
    assert_eq!(s.handle_event(Event::KeyInput(Key::Char('s'))), Action::Continue);
}

#[test]
fn quit_in_either_mode() {
    let mut s = Session::new(10, 10, viewport(12, 12));
    assert_eq!(s.handle_event(Event::KeyInput(Key::Char('q'))), Action::Quit);
    s.handle_event(Event::KeyInput(Key::Enter));
    assert_eq!(s.handle_event(Event::KeyInput(Key::Char('q'))), Action::Quit);
}

#[test]
fn load_preset_starts_playing_the_pulsar() {
    let mut s = Session::new(20, 20, viewport(22, 22));
    s.handle_event(Event::LeftClick(1, 1));
    s.handle_event(Event::KeyInput(Key::Char('1')));
    assert_eq!(s.mode, Mode::Play);
    assert!(s.running);
    assert_eq!(s.world.alive.len(), 48);
    assert!(!s.world.is_alive(0, 0));
}

#[test]
fn enter_while_playing_keeps_pause() {
    let mut s = Session::new(10, 10, viewport(12, 12));
    s.handle_event(Event::KeyInput(Key::Enter));
    s.handle_event(Event::KeyInput(Key::Char(' ')));
    s.handle_event(Event::KeyInput(Key::Enter));
    assert_eq!(s.mode, Mode::Play);
    assert!(!s.running);
}

#[test]
fn set_viewport_moves_click_translation() {
    let mut s = Session::new(10, 10, viewport(12, 12));
    s.set_viewport(Viewport { top: 5, left: 5, width: 12, height: 12 });
    s.handle_event(Event::LeftClick(6, 6));
    assert_eq!(sorted(&s), vec![(0, 0)]);
}
