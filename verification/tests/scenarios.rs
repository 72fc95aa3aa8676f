use rusty_funge::engine::{Funge, Halt, Run, Width};
use rusty_funge::error::FungeError;
use rusty_funge::host::{Moment, Reply, Request};

fn text(output: &Vec<Vec<char>>) -> String {
    output.iter().map(|part| part.iter().collect::<String>()).collect()
}

fn load(code: &str, width: Width) -> Funge {
    Funge::new(code, width, "funge").expect("the program loads")
}

fn finish(funge: Funge) -> Halt {
    match funge.run(1_000_000) {
        Run::Ended(halt) => halt,
        Run::Waiting(_) => panic!("the run waits for the host"),
        Run::Paused(_) => panic!("the run did not end"),
    }
}

fn noon() -> Moment {
    Moment { year: 2024, month: 2, day: 29, hour: 12, minute: 34, second: 56 }
}

#[test]
fn hello_world_is_printed_and_the_run_ends_with_zero() {
    let halt = finish(load("64+\"!dlroW ,olleH\">:#,_@", Width::Native));
    assert_eq!(halt.error, FungeError::Quit(0));
    assert_eq!(text(&halt.output), "Hello, World!\n");
}

#[test]
fn number_read_from_the_arguments_is_printed_as_a_character() {
    let funge = load("&,@", Width::Native).with_arguments(vec![String::from("65")]);
    let halt = finish(funge);
    assert_eq!(halt.error, FungeError::Quit(0));
    assert_eq!(text(&halt.output), "A");
}

#[test]
fn block_takes_the_top_cells_to_a_new_stack() {
    let mut funge = load("1234563{......@", Width::Native);
    for _ in 0..8 {
        funge = funge.tick(noon(), &vec![0]).expect("the tick runs");
    }
    assert_eq!(funge.ips.len(), 1);
    assert_eq!(funge.ips[0].stack.top.cells, vec![4, 5, 6]);
    assert_eq!(funge.ips[0].stack.lower.len(), 1);
    assert_eq!(funge.ips[0].stack.lower[0].cells, vec![1, 2, 3, 0, 0]);
    assert_eq!(funge.ips[0].offset.x, 8);
    assert_eq!(funge.ips[0].offset.y, 0);
    let halt = finish(funge);
    assert_eq!(text(&halt.output), "6 5 4 0 0 0 ");
}

#[test]
fn block_with_the_count_two_takes_two_cells() {
    let mut funge = load("1 2 3 3 4 5 6 2{ . . . . . . @", Width::Native);
    for _ in 0..9 {
        funge = funge.tick(noon(), &vec![0]).expect("the tick runs");
    }
    assert_eq!(funge.ips[0].stack.top.cells, vec![5, 6]);
    assert_eq!(funge.ips[0].stack.lower[0].cells, vec![1, 2, 3, 3, 4, 0, 0]);
    let halt = finish(funge);
    assert_eq!(text(&halt.output), "6 5 0 0 0 0 ");
}

#[test]
fn value_put_into_space_is_got_back() {
    let halt = finish(load("999p99g.@", Width::Native));
    assert_eq!(halt.error, FungeError::Quit(0));
    assert_eq!(text(&halt.output), "9 ");
}

#[test]
fn put_with_one_value_short_writes_zero() {
    let halt = finish(load("99 p 1 1 g .@", Width::Native));
    assert_eq!(text(&halt.output), "32 ");
}

#[test]
fn quit_gives_minus_one_in_every_width() {
    for width in [Width::W8, Width::W16, Width::W32, Width::W64, Width::W128, Width::Native] {
        let halt = finish(load("01-q", width));
        assert_eq!(halt.error, FungeError::Quit(-1));
    }
    assert_eq!((-1i32) as u8, 255);
}

#[test]
fn fork_leaves_one_pointer_that_wraps_to_the_end() {
    let funge = load("1t@", Width::Native);
    let funge = funge.tick(noon(), &vec![0]).expect("1 is pushed");
    assert_eq!(funge.ips.len(), 1);
    let funge = funge.tick(noon(), &vec![0]).expect("the pointer forks");
    assert_eq!(funge.ips.len(), 2);
    assert_eq!(funge.ips[0].id, 0);
    assert_eq!(funge.ips[1].id, 1);
    assert_eq!((funge.ips[1].delta.x, funge.ips[1].delta.y), (-1, 0));
    let funge = funge.tick(noon(), &vec![0, 0]).expect("the first pointer ends");
    assert_eq!(funge.ips.len(), 1);
    assert_eq!(funge.ips[0].id, 1);
    assert_eq!((funge.ips[0].delta.x, funge.ips[0].delta.y), (-1, 0));
    assert_eq!(funge.ips_pos(), vec![vec![2, 0]]);
    let halt = funge.tick(noon(), &vec![0]).expect_err("the last pointer ends");
    assert_eq!(halt.error, FungeError::Quit(0));
}

#[test]
fn steps_go_up_by_one_with_each_tick() {
    let mut funge = load("1234@", Width::Native);
    for n in 0..4 {
        assert_eq!(funge.steps, n);
        funge = funge.step().expect("the tick runs");
    }
    assert_eq!(funge.steps, 4);
}

#[test]
fn cells_outside_the_extent_read_as_spaces() {
    let funge = load("12\n34", Width::Native);
    let far = rusty_funge::geometry::Pos { x: 1000, y: -1000 };
    assert_eq!(funge.world.read(far), 32);
    assert_eq!(funge.world.read(rusty_funge::geometry::Pos { x: 1, y: 1 }), 52);
    assert_eq!(funge.world.read(rusty_funge::geometry::Pos { x: 2, y: 0 }), 32);
}

#[test]
fn pointers_rest_inside_the_extent() {
    let mut funge = load("v  \n>  1 v\n   @ <", Width::Native);
    for _ in 0..5 {
        funge = funge.step().expect("the tick runs");
        for pos in funge.ips_pos() {
            assert!(funge.world.extent.contains(&pos));
        }
    }
}

#[test]
fn string_mode_counts_a_run_of_spaces_once() {
    let mut funge = load("\"a   b\"@", Width::Native);
    for _ in 0..5 {
        funge = funge.step().expect("the tick runs");
    }
    assert_eq!(funge.ips[0].stack.top.cells, vec![97, 32, 98]);
}

#[test]
fn iterate_with_zero_passes_the_instruction() {
    let halt = finish(load("0k1.@", Width::Native));
    assert_eq!(text(&halt.output), "0 ");
    let halt = finish(load("0k  1.@", Width::Native));
    assert_eq!(text(&halt.output), "0 ");
}

#[test]
fn iterate_runs_the_instruction_that_many_times_and_once_more() {
    let halt = finish(load("3k1....@", Width::Native));
    assert_eq!(text(&halt.output), "1 1 1 1 ");
}

#[test]
fn iterate_with_a_negative_count_runs_nothing_itself() {
    let halt = finish(load("01-k1..@", Width::Native));
    assert_eq!(text(&halt.output), "1 0 ");
}

#[test]
fn pointer_wraps_to_the_far_side() {
    let mut funge = load("<  @", Width::Native);
    funge = funge.step().expect("the pointer turns left");
    assert_eq!(funge.ips_pos(), vec![vec![3, 0]]);
}

#[test]
fn comments_are_passed_over() {
    let halt = finish(load("1;23;.@", Width::Native));
    assert_eq!(text(&halt.output), "1 ");
}

#[test]
fn arithmetic_wraps_at_the_width() {
    let halt = finish(load("88*2*1-1+.@", Width::W8));
    assert_eq!(text(&halt.output), "-128 ");
    let halt = finish(load("88*2*1-1+.@", Width::W16));
    assert_eq!(text(&halt.output), "128 ");
}

#[test]
fn division_and_remainder_by_zero_give_zero() {
    let halt = finish(load("70/.70%.@", Width::Native));
    assert_eq!(text(&halt.output), "0 0 ");
}

#[test]
fn division_rounds_toward_zero() {
    let halt = finish(load("07-2/.07-2%.72/.@", Width::Native));
    assert_eq!(text(&halt.output), "-3 -1 3 ");
}

#[test]
fn not_and_greater_push_zero_or_one() {
    let halt = finish(load("0!.5!.32`.23`.@", Width::Native));
    assert_eq!(text(&halt.output), "1 0 1 0 ");
}

#[test]
fn duplicate_swap_and_discard() {
    let halt = finish(load("1:..12\\..12$.@", Width::Native));
    assert_eq!(text(&halt.output), "1 1 1 2 1 ");
}

#[test]
fn character_that_is_no_code_point_ends_the_run() {
    let halt = finish(load("01-,@", Width::Native));
    assert_eq!(halt.error, FungeError::Casting);
}

#[test]
fn empty_input_token_ends_the_run() {
    let funge = load("~@", Width::Native).with_arguments(vec![String::new()]);
    let halt = finish(funge);
    assert_eq!(halt.error, FungeError::Input);
}

#[test]
fn unknown_version_is_refused_by_name() {
    let r = load("@", Width::Native).with_version("B99");
    match r {
        Err(FungeError::Version(name)) => assert_eq!(name, "B99"),
        _ => panic!("the version is not refused"),
    }
}

#[test]
fn program_without_an_instruction_is_stuck() {
    match Funge::new("   \n  ", Width::Native, "funge") {
        Err(e) => assert_eq!(e, FungeError::Stuck),
        Ok(_) => panic!("the program starts"),
    }
    match Funge::new("", Width::Native, "funge") {
        Err(e) => assert_eq!(e, FungeError::Stuck),
        Ok(_) => panic!("the program starts"),
    }
}

#[test]
fn character_too_large_for_the_cell_is_refused() {
    match Funge::new("\u{e9}@", Width::W8, "funge") {
        Err(e) => assert_eq!(e, FungeError::Casting),
        Ok(_) => panic!("the program loads"),
    }
    assert!(Funge::new("\u{e9}@", Width::W16, "funge").is_ok());
}

#[test]
fn iteration_within_iteration_goes_as_deep_as_the_stack_is_high() {
    let mut code = String::from("\"");
    for _ in 0..70 {
        code.push('b');
    }
    code.push_str("\"kk@");
    let mut funge = load(&code, Width::Native);
    for _ in 0..72 {
        funge = funge.step().expect("the tick runs");
    }
    assert_eq!(funge.ips[0].stack.top.len(), 70);
    let funge = funge.step().expect("the iterations run");
    assert_eq!(funge.steps, 73);
    assert_eq!(funge.ips.len(), 1);
    assert!(funge.ips[0].stack.top.len() < 70);
}

#[test]
fn iteration_on_a_stack_that_is_no_lower_ends_the_run_when_none_is_left() {
    let mut funge = load("1kk@", Width::Native);
    funge = funge.step().expect("1 is pushed");
    let ip = funge.ips.pop().expect("there is a pointer");
    let r = ip.exe(&mut funge.world, 107, noon(), 0, 0, 0);
    assert!(matches!(r, rusty_funge::ops::Exec::Failed(FungeError::Nesting)));
    let mut funge = load("1kk@", Width::Native);
    funge = funge.step().expect("1 is pushed");
    let ip = funge.ips.pop().expect("there is a pointer");
    let r = ip.exe(&mut funge.world, 107, noon(), 0, 0, 2);
    assert!(matches!(r, rusty_funge::ops::Exec::Done(_, true)));
}

#[test]
fn messages_name_the_error() {
    assert_eq!(FungeError::Casting.message(), "Could not convert from primitive.");
    assert_eq!(FungeError::Input.message(), "Invalid input.");
    assert_eq!(FungeError::Version(String::from("B99")).message(), "Unrecognized version: B99");
    assert_eq!(FungeError::Quit(-3).message(), "Funge exited with return code -3.");
}

#[test]
fn befunge_93_ignores_what_it_does_not_know() {
    let funge = load("a1.@", Width::Native).with_version("b93").expect("the version is known");
    let halt = finish(funge);
    assert_eq!(text(&halt.output), "1 ");
}

#[test]
fn befunge_98_reflects_on_what_it_does_not_know() {
    let mut funge = load("1A", Width::Native);
    funge = funge.step().expect("1 is pushed");
    funge = funge.step().expect("the pointer reflects");
    assert_eq!((funge.ips[0].delta.x, funge.ips[0].delta.y), (-1, 0));
}

#[test]
fn shebang_line_is_no_part_of_the_program() {
    let halt = finish(load("#!/usr/bin/env funge\n5.@", Width::Native));
    assert_eq!(text(&halt.output), "5 ");
    let halt = finish(load("#!/usr/bin/env -S funge -b 8\n6.@", Width::Native));
    assert_eq!(text(&halt.output), "6 ");
}

#[test]
fn input_is_asked_of_the_host_when_no_token_is_left() {
    let funge = load("&.@", Width::Native);
    let funge = match funge.run(10) {
        Run::Waiting(f) => f,
        _ => panic!("the run does not wait"),
    };
    assert!(matches!(funge.pending, Some(Request::Line)));
    assert_eq!(funge.steps, 0);
    let funge = funge.answer(Reply::Line(Some("abc 42 7".chars().collect())));
    let halt = finish(funge);
    assert_eq!(text(&halt.output), "42 ");
}

#[test]
fn pointer_reflects_at_the_end_of_input() {
    let funge = load("&1.@", Width::Native);
    let funge = match funge.run(10) {
        Run::Waiting(f) => f,
        _ => panic!("the run does not wait"),
    };
    let funge = funge.answer(Reply::Line(None)).step().expect("the tick runs");
    assert_eq!((funge.ips[0].delta.x, funge.ips[0].delta.y), (-1, 0));
    assert_eq!(funge.steps, 1);
    assert_eq!(funge.ips_pos(), vec![vec![3, 0]]);
}

#[test]
fn number_too_large_for_the_cell_makes_the_pointer_reflect() {
    let funge = load("&@", Width::W8).with_arguments(vec![String::from("128")]);
    let funge = funge.step().expect("the tick runs");
    assert_eq!((funge.ips[0].delta.x, funge.ips[0].delta.y), (-1, 0));
    let funge = load("&.@", Width::W8).with_arguments(vec![String::from("127")]);
    assert_eq!(text(&finish(funge).output), "127 ");
}

#[test]
fn file_is_loaded_at_the_position_given() {
    let funge = load("5200\"txt.a\"i....@", Width::Native);
    let funge = match funge.run(100) {
        Run::Waiting(f) => f,
        _ => panic!("the run does not wait"),
    };
    match &funge.pending {
        Some(Request::Read(name)) => assert_eq!(name.iter().collect::<String>(), "a.txt"),
        _ => panic!("no file is asked for"),
    }
    let funge = funge.answer(Reply::File(Some(b"ab c\r\nd".to_vec())));
    let funge = funge.step().expect("the file is loaded");
    assert_eq!(funge.world.code.get_string(rusty_funge::geometry::Rect::new(0, 9, 0, 4))[2], "     ab c");
    assert_eq!(funge.world.code.get_string(rusty_funge::geometry::Rect::new(0, 9, 0, 4))[3], "     d   ");
    assert_eq!(funge.world.extent.bottom, 4);
    let halt = finish(funge);
    assert_eq!(text(&halt.output), "2 5 2 4 ");
}

#[test]
fn file_that_cannot_be_read_makes_the_pointer_reflect() {
    let funge = load("0\"a\"00i@", Width::Native);
    let funge = match funge.run(100) {
        Run::Waiting(f) => f,
        _ => panic!("the run does not wait"),
    };
    let funge = funge.answer(Reply::File(None)).step().expect("the tick runs");
    assert_eq!((funge.ips[0].delta.x, funge.ips[0].delta.y), (-1, 0));
}

#[test]
fn rectangle_is_written_as_lines() {
    let funge = load("0\"a\"10032o@\nxy z", Width::Native);
    let funge = match funge.run(100) {
        Run::Waiting(f) => f,
        _ => panic!("the run does not wait"),
    };
    match &funge.pending {
        Some(Request::Write(name, content)) => {
            assert_eq!(name.iter().collect::<String>(), "a");
            assert_eq!(content.iter().collect::<String>(), "0\"\nxy\n\n");
        },
        _ => panic!("no file is to be written"),
    }
    let halt = finish(funge.answer(Reply::Written(true)));
    assert_eq!(halt.error, FungeError::Quit(0));
}

#[test]
fn command_is_split_into_words_and_its_output_is_taken() {
    let funge = load("0\"b \\a ohce\"=.@", Width::W8);
    let funge = match funge.run(100) {
        Run::Waiting(f) => f,
        _ => panic!("the run does not wait"),
    };
    match &funge.pending {
        Some(Request::Run(words)) => {
            let words: Vec<String> = words.iter().map(|w| w.iter().collect()).collect();
            assert_eq!(words, vec!["echo", "a b"]);
        },
        _ => panic!("no command is to be run"),
    }
    let halt = finish(funge.answer(Reply::Ran(Some((Some(3), b"a b\n".to_vec())))));
    assert_eq!(text(&halt.output), "a b\n3 ");
}

#[test]
fn command_that_cannot_be_started_pushes_one() {
    let funge = load("0\"x\"=.@", Width::Native);
    let funge = match funge.run(100) {
        Run::Waiting(f) => f,
        _ => panic!("the run does not wait"),
    };
    let halt = finish(funge.answer(Reply::Ran(None)));
    assert_eq!(text(&halt.output), "1 ");
}

#[test]
fn random_turn_takes_the_direction_drawn() {
    for (dir, delta) in [(0u8, (-1, 0)), (1, (1, 0)), (2, (0, -1)), (3, (0, 1))] {
        let funge = load("?1\n1 ", Width::Native);
        let funge = funge.tick(noon(), &vec![dir]).expect("the tick runs");
        assert_eq!((funge.ips[0].delta.x, funge.ips[0].delta.y), delta);
    }
    let funge = load("?1\n1 ", Width::Native).step().expect("the tick runs");
    let d = (funge.ips[0].delta.x, funge.ips[0].delta.y);
    assert!(d == (-1, 0) || d == (1, 0) || d == (0, -1) || d == (0, 1));
}

#[test]
fn system_information_gives_the_date_and_the_time() {
    let funge = load("fy.@", Width::Native);
    let mut funge = funge.tick(noon(), &vec![0]).expect("the tick runs");
    funge = funge.tick(noon(), &vec![0]).expect("the tick runs");
    assert_eq!(funge.ips[0].stack.top.cells, vec![(2024 - 1900) * 65536 + 2 * 256 + 29]);
    let funge = load("88+y.@", Width::Native);
    let mut funge = funge.tick(noon(), &vec![0]).expect("the tick runs");
    funge = funge.tick(noon(), &vec![0]).expect("the tick runs");
    funge = funge.tick(noon(), &vec![0]).expect("the tick runs");
    funge = funge.tick(noon(), &vec![0]).expect("the tick runs");
    assert_eq!(funge.ips[0].stack.top.cells, vec![12 * 65536 + 34 * 256 + 56]);
}

#[test]
fn system_information_of_the_clock_is_a_date() {
    let mut funge = load("fy@", Width::Native);
    funge = funge.step().expect("the tick runs");
    funge = funge.step().expect("the tick runs");
    let date = funge.ips[0].stack.top.cells[0];
    let month = (date / 256) % 256;
    let day = date % 256;
    assert!((1..=12).contains(&month));
    assert!((1..=31).contains(&day));
    assert!(date / 65536 >= 124);
}

#[test]
fn system_information_tells_the_fields_one_by_one() {
    let picks = [
        ("1y", vec![31]),
        ("2y", vec![8]),
        ("3y", vec![0x79747375727077]),
        ("5y", vec![1]),
        ("6y", vec![47]),
        ("7y", vec![2]),
        ("8y", vec![0]),
        ("9y", vec![0]),
        ("ay", vec![1, 0]),
        ("by", vec![1, 0]),
        ("cy", vec![0, 0]),
        ("dy", vec![0, 0]),
        ("ey", vec![1, 0]),
    ];
    for (code, expected) in picks {
        let funge = load(code, Width::W64);
        let funge = funge.tick(noon(), &vec![0]).expect("the tick runs");
        let funge = funge.tick(noon(), &vec![0]).expect("the tick runs");
        assert_eq!(funge.ips[0].stack.top.cells, expected, "{}", code);
    }
}

#[test]
fn system_information_lists_arguments_and_environment() {
    let funge = load("1y", Width::W64);
    assert_eq!(funge.ips.len(), 1);
    let funge = load("72*5+y", Width::W64).with_environment(
        vec!["ab".chars().collect()],
        vec![],
        '/',
    );
    let mut funge = funge;
    for _ in 0..6 {
        funge = funge.tick(noon(), &vec![0]).expect("the tick runs");
    }
    let cells: Vec<i128> = funge.ips[0].stack.top.cells.iter().rev().cloned().collect();
    assert_eq!(cells, vec![97, 98, 0, 102, 117, 110, 103, 101, 0, 0, 0]);
}

#[test]
fn system_information_picks_a_cell_of_the_stack() {
    let halt = finish(load("789 a2*3+y.@", Width::Native));
    assert_eq!(text(&halt.output), "7 ");
    let halt = finish(load("789 a2*9+y.@", Width::Native));
    assert_eq!(text(&halt.output), "0 ");
}

#[test]
fn system_information_does_not_fit_a_narrow_cell() {
    let halt = finish(load("1y@", Width::W8));
    assert_eq!(halt.error, FungeError::Casting);
}

#[test]
fn output_of_the_tick_that_ends_the_run_is_kept() {
    let mut funge = load("1t5.@\n  q", Width::Native);
    funge = funge.step().expect("the tick runs");
    funge = funge.step().expect("the pointer forks");
    assert_eq!(funge.ips.len(), 2);
    let halt = finish(load("v  \n>1.@", Width::Native));
    assert_eq!(text(&halt.output), "1 ");
}

#[test]
fn jump_moves_the_pointer_over_cells() {
    let halt = finish(load("2j12.3.@", Width::Native));
    assert_eq!(text(&halt.output), "0 3 ");
    let mut funge = load("03-j@", Width::Native);
    for _ in 0..4 {
        funge = funge.step().expect("the tick runs");
    }
    assert_eq!(funge.ips_pos(), vec![vec![1, 0]]);
    assert_eq!((funge.ips[0].delta.x, funge.ips[0].delta.y), (1, 0));
}

#[test]
fn trampoline_and_fetch_and_store() {
    let halt = finish(load("#1'a.@", Width::Native));
    assert_eq!(text(&halt.output), "97 ");
    let mut funge = load("'1s .@", Width::Native);
    funge = funge.step().expect("the tick runs");
    funge = funge.step().expect("the tick runs");
    assert_eq!(funge.world.read(rusty_funge::geometry::Pos { x: 3, y: 0 }), 49);
    assert_eq!(funge.ips_pos(), vec![vec![4, 0]]);
    let halt = finish(funge);
    assert_eq!(text(&halt.output), "0 ");
}

#[test]
fn block_is_closed_with_its_cells_and_its_offset() {
    let mut funge = load("123 2{ 45 2} @", Width::Native);
    for _ in 0..9 {
        funge = funge.tick(noon(), &vec![0]).expect("the tick runs");
    }
    assert_eq!(funge.ips[0].stack.top.cells, vec![1, 4, 5]);
    assert_eq!(funge.ips[0].stack.lower.len(), 0);
    assert_eq!((funge.ips[0].offset.x, funge.ips[0].offset.y), (0, 0));
}

#[test]
fn block_round_trip_leaves_the_stacks_and_the_offset() {
    let mut funge = load("123 2{ 2} @", Width::Native);
    for _ in 0..4 {
        funge = funge.tick(noon(), &vec![0]).expect("the tick runs");
    }
    let before = funge.ips[0].stack.top.cells.clone();
    assert_eq!(before, vec![1, 2, 3, 2]);
    for _ in 0..3 {
        funge = funge.tick(noon(), &vec![0]).expect("the tick runs");
    }
    assert_eq!(funge.ips[0].stack.top.cells, vec![1, 2, 3]);
    assert_eq!(funge.ips[0].stack.lower.len(), 0);
    assert_eq!((funge.ips[0].offset.x, funge.ips[0].offset.y), (0, 0));
}

#[test]
fn closing_the_only_stack_makes_the_pointer_reflect() {
    let funge = load("}@", Width::Native).step().expect("the tick runs");
    assert_eq!((funge.ips[0].delta.x, funge.ips[0].delta.y), (-1, 0));
    let funge = load("u@", Width::Native).step().expect("the tick runs");
    assert_eq!((funge.ips[0].delta.x, funge.ips[0].delta.y), (-1, 0));
}

#[test]
fn cells_move_between_the_two_top_stacks() {
    let mut funge = load("123 0{ 2u @", Width::Native);
    for _ in 0..7 {
        funge = funge.tick(noon(), &vec![0]).expect("the tick runs");
    }
    assert_eq!(funge.ips[0].stack.top.cells, vec![0, 0]);
    assert_eq!(funge.ips[0].stack.lower[0].cells, vec![1, 2, 3]);
    let mut funge = load("0{ 12 02-u @", Width::Native);
    for _ in 0..8 {
        funge = funge.tick(noon(), &vec![0]).expect("the tick runs");
    }
    assert_eq!(funge.ips[0].stack.top.cells, Vec::<i128>::new());
    assert_eq!(funge.ips[0].stack.lower[0].cells, vec![0, 0, 2, 1]);
}

#[test]
fn writing_a_space_draws_the_extent_in() {
    let mut funge = load("52*0 p@\n\n         x", Width::Native);
    assert_eq!(funge.world.extent.bottom, 3);
    for _ in 0..4 {
        funge = funge.step().expect("the tick runs");
    }
    assert_eq!(funge.ips[0].stack.top.cells, vec![10, 0]);
    let mut funge = load("\" \"92p@\n\n         x", Width::Native);
    for _ in 0..6 {
        funge = funge.step().expect("the tick runs");
    }
    assert_eq!(funge.world.extent.bottom, 1);
    assert_eq!(funge.world.extent.right, 7);
}

#[test]
fn writing_outside_widens_the_extent() {
    let mut funge = load("5f01-p@", Width::Native);
    for _ in 0..6 {
        funge = funge.step().expect("the tick runs");
    }
    assert_eq!(funge.world.extent.top, -1);
    assert_eq!(funge.world.extent.right, 16);
    assert_eq!(funge.world.read(rusty_funge::geometry::Pos { x: 15, y: -1 }), 5);
}

#[test]
fn stacks_are_shown_from_the_bottom_stack_up() {
    let mut funge = load("12 1{ 3@", Width::Native);
    for _ in 0..5 {
        funge = funge.step().expect("the tick runs");
    }
    assert_eq!(funge.get_stack_string(), "[1, 0, 0]\n[2, 3]");
}

#[test]
fn output_can_be_taken_while_the_run_goes_on() {
    let mut funge = load("1.2.@", Width::Native);
    funge = funge.step().expect("the tick runs");
    funge = funge.step().expect("the tick runs");
    assert_eq!(funge.take_output(), "1 ");
    funge = funge.step().expect("the tick runs");
    funge = funge.step().expect("the tick runs");
    assert_eq!(funge.take_output(), "2 ");
    assert_eq!(funge.take_output(), "");
}

#[test]
fn factorial_of_the_number_read() {
    let code = "&>:1-:v v *_$.@\n ^    _$>\\:^";
    let funge = load(code, Width::Native).with_arguments(vec![String::from("5")]);
    let halt = finish(funge);
    assert_eq!(halt.error, FungeError::Quit(0));
    assert_eq!(text(&halt.output), "120 ");
    let funge = load(code, Width::W8).with_arguments(vec![String::from("6")]);
    assert_eq!(text(&finish(funge).output), "-48 ");
}

#[test]
fn turns_and_the_comparing_turn() {
    let funge = load("[", Width::Native).step().expect("the tick runs");
    assert_eq!((funge.ips[0].delta.x, funge.ips[0].delta.y), (0, -1));
    let funge = load("]", Width::Native).step().expect("the tick runs");
    assert_eq!((funge.ips[0].delta.x, funge.ips[0].delta.y), (0, 1));
    let funge = load("r1", Width::Native).step().expect("the tick runs");
    assert_eq!((funge.ips[0].delta.x, funge.ips[0].delta.y), (-1, 0));
    let halt = finish(load("12w3.@\n  4\n  .\n  @", Width::Native));
    assert_eq!(text(&halt.output), "");
    let halt = finish(load("21w3.@\n  4\n  .\n  @", Width::Native));
    assert_eq!(text(&halt.output), "4 ");
    let halt = finish(load("11w3.@", Width::Native));
    assert_eq!(text(&halt.output), "3 ");
}

#[test]
fn delta_is_set_from_the_stack() {
    let mut funge = load("20x 1 2 3", Width::Native);
    for _ in 0..3 {
        funge = funge.step().expect("the tick runs");
    }
    assert_eq!((funge.ips[0].delta.x, funge.ips[0].delta.y), (2, 0));
    assert_eq!(funge.ips_pos(), vec![vec![4, 0]]);
    funge = funge.step().expect("the tick runs");
    assert_eq!(funge.ips_pos(), vec![vec![6, 0]]);
    funge = funge.step().expect("the tick runs");
    assert_eq!(funge.ips_pos(), vec![vec![8, 0]]);
    funge = funge.step().expect("the tick runs");
    assert_eq!(funge.ips_pos(), vec![vec![0, 0]]);
    assert_eq!(funge.ips[0].stack.top.cells, vec![1, 2, 3]);
}

#[test]
fn conditionals_take_the_direction_by_the_top_cell() {
    let halt = finish(load("0_1.@", Width::Native));
    assert_eq!(text(&halt.output), "1 ");
    let mut funge = load("1_", Width::Native);
    funge = funge.step().expect("the tick runs");
    funge = funge.step().expect("the tick runs");
    assert_eq!((funge.ips[0].delta.x, funge.ips[0].delta.y), (-1, 0));
    let halt = finish(load("0|\n 3\n .\n @", Width::Native));
    assert_eq!(text(&halt.output), "3 ");
}

#[test]
fn stack_is_cleared() {
    let halt = finish(load("123n.@", Width::Native));
    assert_eq!(text(&halt.output), "0 ");
}

#[test]
fn digits_above_nine_are_pushed_by_letters() {
    let halt = finish(load("a.b.c.d.e.f.@", Width::Native));
    assert_eq!(text(&halt.output), "10 11 12 13 14 15 ");
}

#[test]
fn two_pointers_take_turns() {
    let halt = finish(load("t1.@\n2\n.\n@", Width::Native).with_version("B98").expect("known"));
    assert_eq!(halt.error, FungeError::Quit(0));
    let mut funge = load(">t1.@", Width::Native);
    funge = funge.step().expect("the tick runs");
    funge = funge.step().expect("the pointer forks");
    assert_eq!(funge.ips_pos(), vec![vec![2, 0], vec![0, 0]]);
    funge = funge.step().expect("the tick runs");
    assert_eq!(funge.ips_pos(), vec![vec![3, 0], vec![1, 0]]);
    assert_eq!(funge.world.next_id, 2);
}

#[test]
fn fetch_of_a_cell_written_before() {
    let halt = finish(load("\"A\"51p51g,@", Width::Native));
    assert_eq!(text(&halt.output), "A");
}

#[test]
fn fingerprints_are_refused() {
    let mut funge = load("\"ABCD\"4(@", Width::Native);
    for _ in 0..8 {
        funge = funge.step().expect("the tick runs");
    }
    assert_eq!(funge.ips[0].stack.top.cells, Vec::<i128>::new());
    assert_eq!((funge.ips[0].delta.x, funge.ips[0].delta.y), (-1, 0));
}

#[test]
fn iterated_input_asks_the_host_line_by_line() {
    let mut funge = load("2k&...@", Width::Native);
    let mut asked = 0;
    let halt = loop {
        match funge.run(100) {
            Run::Waiting(f) => {
                assert!(matches!(f.pending, Some(Request::Line)));
                asked += 1;
                funge = f.answer(Reply::Line(Some(format!("{}\n", asked * 10).chars().collect())));
            },
            Run::Ended(halt) => break halt,
            Run::Paused(_) => panic!("the run did not end"),
        }
    };
    assert_eq!(asked, 3);
    assert_eq!(text(&halt.output), "30 20 10 ");
}

#[test]
fn waiting_tick_leaves_the_engine_as_it_was() {
    let funge = load("1t&.@\n  &.@", Width::Native);
    let funge = funge.step().expect("the tick runs");
    let funge = funge.step().expect("the pointer forks");
    let funge = funge.step().expect("the tick waits");
    assert!(funge.pending.is_some());
    assert_eq!(funge.steps, 2);
    assert_eq!(funge.ips.len(), 0);
    assert_eq!(funge.todo.len(), 2);
    assert_eq!(funge.ips_pos(), vec![vec![2, 0], vec![0, 0]]);
    let funge = funge.step().expect("the tick waits on");
    assert!(funge.pending.is_some());
    assert_eq!(funge.steps, 2);
    let funge = funge.answer(Reply::Line(Some("7".chars().collect())));
    let funge = funge.step().expect("the first pointer reads");
    assert_eq!(funge.steps, 3);
    assert!(funge.pending.is_none());
    assert_eq!(funge.ips.len(), 2);
    assert_eq!(funge.ips[0].stack.top.cells, vec![1, 7]);
}

#[test]
fn answer_of_the_wrong_kind_counts_as_a_failure() {
    let funge = load("&1.@", Width::Native);
    let funge = match funge.run(10) {
        Run::Waiting(f) => f,
        _ => panic!("the run does not wait"),
    };
    let funge = funge.answer(Reply::Written(true)).step().expect("the tick runs");
    assert_eq!((funge.ips[0].delta.x, funge.ips[0].delta.y), (-1, 0));
}

#[test]
fn iterated_fork_doubles_the_pointers_each_round() {
    let mut funge = load("2kt@", Width::Native);
    funge = funge.step().expect("the tick runs");
    funge = funge.step().expect("the pointers fork");
    assert_eq!(funge.ips.len(), 4);
    let mut ids: Vec<usize> = funge.ips.iter().map(|ip| ip.id).collect();
    assert_eq!(ids, vec![0, 2, 1, 3]);
    ids.sort();
    ids.dedup();
    assert_eq!(ids.len(), 4);
    assert_eq!(funge.world.next_id, 4);
}

#[test]
fn pointer_in_string_mode_may_rest_outside_the_extent() {
    let mut funge = load("\"ab", Width::Native);
    for _ in 0..3 {
        funge = funge.step().expect("the tick runs");
    }
    assert_eq!(funge.ips_pos(), vec![vec![3, 0]]);
    assert!(!funge.world.extent.contains(&vec![3, 0]));
    assert!(funge.ips[0].string);
    funge = funge.step().expect("the tick runs");
    assert_eq!(funge.ips_pos(), vec![vec![0, 0]]);
    assert_eq!(funge.ips[0].stack.top.cells, vec![97, 98, 32]);
}

#[test]
fn pointers_keep_ids_of_their_own() {
    let mut funge = load("3kt>t<", Width::Native);
    for _ in 0..6 {
        funge = funge.step().expect("the tick runs");
        let mut ids: Vec<usize> = funge.ips.iter().map(|ip| ip.id).collect();
        let count = ids.len();
        ids.sort();
        ids.dedup();
        assert_eq!(ids.len(), count);
        assert!(ids.iter().all(|&id| id < funge.world.next_id));
    }
    assert!(funge.ips.len() > 8);
}

#[test]
fn fork_ends_the_run_when_the_ids_are_used_up() {
    let mut funge = load("t@", Width::Native);
    funge.world.next_id = usize::MAX;
    let halt = funge.step().expect_err("no id is left");
    assert_eq!(halt.error, FungeError::Casting);
}
