use rusty_funge::debug::{FungeDebug, Key, Pressed};
use rusty_funge::engine::{Funge, Width};
use rusty_funge::geometry::Rect;
use rusty_funge::history::{FungeDelta, FungeHist};
use rusty_funge::host::Moment;

fn picture(funge: &Funge) -> (Vec<String>, Vec<Vec<isize>>, String, usize, usize, isize) {
    (
        funge.world.code.get_string(Rect::new(-2, 12, -2, 6)),
        funge.ips_pos(),
        funge.get_stack_string(),
        funge.world.output.len(),
        funge.world.input.len(),
        funge.steps,
    )
}

fn state(debug: &FungeDebug) -> &Funge {
    match &debug.funge {
        Some(Ok(funge)) => funge,
        _ => panic!("the engine does not run"),
    }
}

#[test]
fn steps_taken_back_lead_to_the_start() {
    let funge = Funge::new("1&.v\n@,~p<9t\n  >1^", Width::Native, "funge")
        .expect("the program loads")
        .with_arguments(vec![String::from("12"), String::from("x")]);
    let mut debug = FungeDebug::new(funge);
    let mut pictures = vec![picture(state(&debug))];
    for _ in 0..12 {
        debug.step();
        pictures.push(picture(state(&debug)));
    }
    assert_eq!(debug.history.len(), 12);
    assert_ne!(pictures[12], pictures[0]);
    for k in (0..12).rev() {
        debug.step_back();
        assert_eq!(picture(state(&debug)), pictures[k]);
    }
    assert_eq!(debug.history.len(), 0);
    debug.step_back();
    assert_eq!(picture(state(&debug)), pictures[0]);
}

#[test]
fn step_back_from_the_end_leads_to_the_state_before_it() {
    let funge = Funge::new("1.@", Width::Native, "funge").expect("the program loads");
    let mut debug = FungeDebug::new(funge);
    debug.step();
    debug.step();
    let before = picture(state(&debug));
    debug.step();
    assert!(matches!(debug.funge, Some(Err(_))));
    debug.step();
    assert!(matches!(debug.funge, Some(Err(_))));
    debug.step_back();
    assert_eq!(picture(state(&debug)), before);
}

#[test]
fn history_lets_the_oldest_step_go() {
    let mut hist = FungeHist::new();
    assert_eq!(hist.maxlen, 16384);
    hist.maxlen = 3;
    let mut funge = Funge::new("1>2v\n ^3<", Width::Native, "funge").expect("the program loads");
    for _ in 0..5 {
        let prior = funge.duplicate();
        let next = funge.step();
        hist.push(&prior, &next);
        funge = next.expect("the tick runs");
    }
    assert_eq!(hist.len(), 3);
    let funge = hist.pop(Ok(funge));
    assert_eq!(funge.steps, 4);
    let funge = hist.pop(Ok(funge));
    let funge = hist.pop(Ok(funge));
    assert_eq!(funge.steps, 2);
    let funge = hist.pop(Ok(funge));
    assert_eq!(funge.steps, 2);
}

#[test]
fn delta_holds_the_cells_that_changed() {
    let funge = Funge::new("5ff+0p@", Width::Native, "funge").expect("the program loads");
    let mut funge = funge;
    for _ in 0..5 {
        funge = funge.step().expect("the tick runs");
    }
    let prior = funge.duplicate();
    let next = funge.step().expect("the tick runs");
    let delta = FungeDelta::between(&prior, &next);
    assert_eq!(delta.code.len(), 1);
    assert_eq!((delta.code[0].at.x, delta.code[0].at.y, delta.code[0].was), (30, 0, 32));
    assert_eq!(delta.extent.right, 7);
    assert_eq!(next.world.extent.right, 31);
    let back = delta.undo(next);
    assert_eq!(picture(&back), picture(&prior));
    assert_eq!(back.world.extent, prior.world.extent);
}

#[test]
fn run_stops_at_the_breakpoint() {
    let funge = Funge::new("12345@", Width::Native, "funge").expect("the program loads");
    let mut debug = FungeDebug::new(funge);
    assert!(!debug.is_running());
    debug.running = true;
    debug.stop_op = Some(52);
    let mut ticks = 0;
    while debug.is_running() {
        debug.step();
        ticks += 1;
    }
    assert_eq!(ticks, 3);
    assert_eq!(debug.stop_op, None);
    assert!(!debug.running);
    debug.running = true;
    while debug.is_running() {
        debug.step();
    }
    assert!(matches!(debug.funge, Some(Err(_))));
}

#[test]
fn keys_step_and_pace_the_run() {
    let funge = Funge::new("123@", Width::Native, "funge").expect("the program loads");
    let mut debug = FungeDebug::new(funge);
    assert_eq!(debug.interval, 50_000);
    assert_eq!(debug.press(Key::Enter), Pressed::Done);
    assert_eq!(state(&debug).steps, 1);
    assert_eq!(debug.press(Key::Enter), Pressed::Done);
    assert_eq!(debug.press(Key::Backspace), Pressed::Done);
    assert_eq!(state(&debug).steps, 1);
    assert_eq!(debug.press(Key::Space), Pressed::Run);
    assert!(debug.running);
    assert_eq!(debug.press(Key::Space), Pressed::Done);
    assert!(!debug.running);
    assert_eq!(debug.press(Key::Up), Pressed::Done);
    assert_eq!(debug.interval, 25_000);
    for _ in 0..10 {
        debug.press(Key::Up);
    }
    assert_eq!(debug.interval, 1000);
    assert_eq!(debug.press(Key::Down), Pressed::Done);
    assert_eq!(debug.interval, 2000);
    debug.interval = u64::MAX / 2 + 1;
    debug.press(Key::Down);
    assert_eq!(debug.interval, u64::MAX);
    assert_eq!(debug.press(Key::Char('@')), Pressed::Run);
    assert_eq!(debug.stop_op, Some(64));
    assert!(debug.running);
    assert_eq!(debug.press(Key::Esc), Pressed::Ignored);
    assert_eq!(debug.press(Key::Other), Pressed::Ignored);
}

#[test]
fn harness_ticks_with_the_time_and_the_turns_given() {
    let noon = Moment { year: 2024, month: 2, day: 29, hour: 12, minute: 0, second: 0 };
    let funge = Funge::new("?1\n2\n@", Width::Native, "funge").expect("the program loads");
    let mut debug = FungeDebug::new(funge);
    debug.tick(noon, &vec![3]);
    assert_eq!(state(&debug).steps, 1);
    assert_eq!(state(&debug).ips_pos(), vec![vec![0, 1]]);
    assert_eq!(debug.history.len(), 1);
    debug.tick(noon, &vec![0]);
    assert_eq!(state(&debug).ips[0].stack.top.cells, vec![2]);
    debug.tick(noon, &vec![0]);
    assert!(matches!(debug.funge, Some(Err(_))));
    assert_eq!(debug.history.len(), 2);
    debug.step_back();
    assert_eq!(state(&debug).steps, 2);
    debug.step_back();
    debug.step_back();
    assert_eq!(state(&debug).steps, 0);
    assert_eq!(state(&debug).ips_pos(), vec![vec![0, 0]]);
}
