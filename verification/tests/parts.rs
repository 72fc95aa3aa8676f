use rusty_funge::cell::{add_cells, div_cells, mul_cells, rem_cells, sub_cells, wrap_to};
use rusty_funge::command::{split_string, word};
use rusty_funge::geometry::{Pos, Rect};
use rusty_funge::io::IO;
use rusty_funge::rules::{OnError, Rules, Version};
use rusty_funge::space::FungeSpace;
use rusty_funge::stack::{Stack, StackStack};
use rusty_funge::text::{decimal_of, join, parse_number, split_lines, string_of};

fn chars(s: &str) -> Vec<char> {
    s.chars().collect()
}

#[test]
fn popping_an_empty_stack_gives_zero() {
    let mut stack = Stack::new();
    assert_eq!(stack.pop(), 0);
    assert_eq!(stack.len(), 0);
    stack.push(7);
    assert_eq!(stack.pop(), 7);
    assert_eq!(stack.pop(), 0);
    let mut stacks = StackStack::new();
    assert_eq!(stacks.pop(), 0);
    assert_eq!(stacks.len_stack(), 1);
    assert!(!stacks.is_empty());
}

#[test]
fn stack_of_stacks_keeps_a_top_stack() {
    let mut stacks = StackStack::new();
    stacks.push(1);
    stacks.push_stack(Stack::new());
    stacks.push(2);
    assert_eq!(stacks.len_stack(), 2);
    assert_eq!(stacks.len(), 1);
    let top = stacks.pop_stack();
    assert_eq!(top.cells, vec![2]);
    assert_eq!(stacks.pop(), 1);
    let gone = stacks.pop_stack();
    assert_eq!(gone.cells, Vec::<i128>::new());
    assert_eq!(stacks.len_stack(), 1);
    stacks.extend(&vec![4, 5]);
    stacks.clear();
    assert_eq!(stacks.len(), 0);
}

#[test]
fn cells_wrap_at_each_width() {
    assert_eq!(add_cells(127, 1, 8), -128);
    assert_eq!(sub_cells(-128, 1, 8), 127);
    assert_eq!(mul_cells(16, 16, 8), 0);
    assert_eq!(add_cells(32767, 1, 16), -32768);
    assert_eq!(add_cells(i128::MAX, 1, 128), i128::MIN);
    assert_eq!(mul_cells(i128::MAX, 2, 128), -2);
    assert_eq!(mul_cells(1 << 63, 2, 64), 0);
    assert_eq!(wrap_to(255, 8), -1);
    assert_eq!(wrap_to(-129, 8), 127);
    assert_eq!(wrap_to(1 << 32, 32), 0);
}

#[test]
fn least_cell_divided_by_minus_one_wraps() {
    assert_eq!(div_cells(-128, -1, 8), -128);
    assert_eq!(rem_cells(-128, -1, 8), 0);
    assert_eq!(div_cells(i128::MIN, -1, 128), i128::MIN);
    assert_eq!(rem_cells(i128::MIN, -1, 128), 0);
    assert_eq!(div_cells(-7, 2, 16), -3);
    assert_eq!(rem_cells(-7, 2, 16), -1);
    assert_eq!(rem_cells(7, -2, 16), 1);
    assert_eq!(div_cells(7, -2, 16), -3);
}

#[test]
fn join_puts_the_separator_between_the_items() {
    let items = vec![String::from("a"), String::from("bc"), String::from("")];
    assert_eq!(join(&items, ", "), "a, bc, ");
    assert_eq!(join(&Vec::new(), ", "), "");
    assert_eq!(join(&vec![String::from("x")], ", "), "x");
}

#[test]
fn numbers_are_written_in_decimal() {
    assert_eq!(string_of(&decimal_of(0)), "0");
    assert_eq!(string_of(&decimal_of(-1)), "-1");
    assert_eq!(string_of(&decimal_of(1234567890)), "1234567890");
    assert_eq!(string_of(&decimal_of(i128::MIN)), i128::MIN.to_string());
    assert_eq!(string_of(&decimal_of(i128::MAX)), i128::MAX.to_string());
}

#[test]
fn first_run_of_digits_is_read() {
    assert_eq!(parse_number(&chars("ab12cd34"), 1000), Some(12));
    assert_eq!(parse_number(&chars("-5"), 1000), Some(5));
    assert_eq!(parse_number(&chars("abc"), 1000), None);
    assert_eq!(parse_number(&chars(""), 1000), None);
    assert_eq!(parse_number(&chars("128"), 128), None);
    assert_eq!(parse_number(&chars("127"), 128), Some(127));
    assert_eq!(parse_number(&chars("007"), 128), Some(7));
    assert_eq!(parse_number(&chars("999999999999999999999999999999999999999999"), u128::MAX), None);
}

#[test]
fn lines_end_at_line_feeds() {
    let lines: Vec<String> = split_lines(&chars("a\r\nb\n\nc")).iter().map(|l| l.iter().collect()).collect();
    assert_eq!(lines, vec!["a", "b", "", "c"]);
    let lines: Vec<String> = split_lines(&chars("a\n")).iter().map(|l| l.iter().collect()).collect();
    assert_eq!(lines, vec!["a"]);
    assert_eq!(split_lines(&chars("")).len(), 0);
    let lines: Vec<String> = split_lines(&chars("a\rb")).iter().map(|l| l.iter().collect()).collect();
    assert_eq!(lines, vec!["a\rb"]);
}

#[test]
fn command_lines_are_split_at_white_space() {
    let words: Vec<String> = split_string(&chars("ls  -l\tdir")).iter().map(|w| w.iter().collect()).collect();
    assert_eq!(words, vec!["ls", "-l", "dir"]);
    let words: Vec<String> = split_string(&chars("a   b")).iter().map(|w| w.iter().collect()).collect();
    assert_eq!(words, vec!["a", "", "b"]);
    let words: Vec<String> = split_string(&chars("cat my\\ file")).iter().map(|w| w.iter().collect()).collect();
    assert_eq!(words, vec!["cat", "my file"]);
    let words: Vec<String> = split_string(&chars("")).iter().map(|w| w.iter().collect()).collect();
    assert_eq!(words, vec![""]);
    assert_eq!(word(&chars("  a\\ b \u{a0}")).iter().collect::<String>(), "a b");
}

#[test]
fn rectangle_is_half_open() {
    let r = Rect::new(1, 4, -2, 2);
    assert_eq!(r.width(), 3);
    assert_eq!(r.height(), 4);
    assert!(r.contains(&vec![1, -2]));
    assert!(r.contains(&vec![3, 1]));
    assert!(!r.contains(&vec![4, 1]));
    assert!(!r.contains(&vec![3, 2]));
    assert!(!r.contains(&vec![0, 0]));
    assert!(r.contains_pos(Pos { x: 2, y: 0 }));
}

#[test]
fn space_is_loaded_without_form_feeds_and_filled_with_spaces() {
    let code = vec![chars("ab\u{c}c"), chars("d")];
    let space = FungeSpace::new(&code, 8).expect("the program loads");
    assert_eq!(space.orig_rect, Rect::new(0, 3, 0, 2));
    assert_eq!(space.read(Pos { x: 2, y: 0 }), 99);
    assert_eq!(space.read(Pos { x: 1, y: 1 }), 32);
    assert_eq!(space.read(Pos { x: 5, y: 5 }), 32);
    assert_eq!(space.get_string(Rect::new(-1, 4, 0, 2)), vec![" abc ", " d   "]);
}

#[test]
fn space_keeps_what_is_written_outside_the_rows() {
    let code = vec![chars("ab")];
    let mut space = FungeSpace::new(&code, 32).expect("the program loads");
    space.insert(vec![-3, 7], 200);
    space.insert(vec![1, 0], 1);
    assert_eq!(space.read(Pos { x: -3, y: 7 }), 200);
    assert_eq!(space.read(Pos { x: 1, y: 0 }), 1);
    assert_eq!(space.new_code.len(), 1);
    space.insert(vec![-3, 7], 32);
    assert_eq!(space.read(Pos { x: -3, y: 7 }), 32);
    assert_eq!(space.new_code.len(), 0);
    assert_eq!(space.get_string(Rect::new(0, 2, 0, 1)), vec!["a\u{a4}"]);
    let copy = space.duplicate();
    assert_eq!(copy.read(Pos { x: 1, y: 0 }), 1);
}

#[test]
fn channel_hands_out_its_tokens_in_order() {
    let mut io = IO::new().with_store(vec![String::from("a"), String::from("b")]);
    assert_eq!(io.len(), 2);
    assert_eq!(io.get(), "ba");
    assert_eq!(io.pop(), Some(chars("a")));
    assert_eq!(io.pop(), Some(chars("b")));
    assert_eq!(io.pop(), None);
    io.push(chars("x"));
    io.push(chars("yz"));
    assert_eq!(io.get(), "xyz");
}

#[test]
fn versions_have_their_instruction_sets() {
    let b93 = Rules::get_instruction_set("B93").expect("the version is known");
    let set: String = b93.iter().map(|&b| b as char).collect();
    assert_eq!(set, "!\"#$%&*+,-./0123456789:<>?@\\^_`gpv|~");
    let b97 = Rules::get_instruction_set("b97").expect("the version is known");
    let set: String = b97.iter().map(|&b| b as char).collect();
    assert_eq!(set, "!\"#$%&'*+,-./0123456789:<>?@\\^_`abcdefgpv|~");
    let b98 = Rules::get_instruction_set("B98").expect("the version is known");
    let set: String = b98.iter().map(|&b| b as char).collect();
    assert_eq!(
        set,
        "!\"#$%&'()*+,-./0123456789:;<=>?@[\\]^_`abcdefghijklmnopqrstuvwxyz{|}~"
    );
    assert!(Rules::get_instruction_set("B99").is_err());
    assert!(Rules::new().allows(b't'));
    assert!(!Rules::with_rules("B93").expect("the version is known").allows(b't'));
}

#[test]
fn versions_have_their_error_policies() {
    assert_eq!(Rules::get_on_error("B93").ok(), Some(OnError::Ignore));
    assert_eq!(Rules::get_on_error("b97").ok(), Some(OnError::Ignore));
    assert_eq!(Rules::get_on_error("B98").ok(), Some(OnError::Reflect));
    assert_eq!(Rules::get_on_error("Quit").ok(), Some(OnError::Quit));
    assert_eq!(Rules::get_on_error("Ignore").ok(), Some(OnError::Ignore));
    assert_eq!(Rules::get_on_error("Reflect").ok(), Some(OnError::Reflect));
    assert!(Rules::get_on_error("quit").is_err());
    assert_eq!(Rules::new().version, Version::B98);
}

#[test]
fn loaded_space_has_an_empty_overlay() {
    let code = vec![chars("ab\u{c}"), chars("c")];
    let space = FungeSpace::new(&code, 64).expect("the program loads");
    assert_eq!(space.orig_rect, Rect::new(0, 2, 0, 2));
    assert_eq!(space.orig_code, vec![vec![97, 98], vec![99, 32]]);
    assert!(space.new_code.is_empty());
}

#[test]
fn overlay_holds_no_space_and_nothing_of_the_rows() {
    let code = vec![chars("ab")];
    let mut space = FungeSpace::new(&code, 64).expect("the program loads");
    space.insert(vec![0, 0], 32);
    space.insert(vec![1, 0], 7);
    assert!(space.new_code.is_empty());
    assert_eq!(space.orig_code, vec![vec![32, 7]]);
    space.insert(vec![5, 5], 32);
    assert!(space.new_code.is_empty());
    space.insert(vec![5, 5], 1);
    space.insert(vec![-1, 0], 2);
    assert_eq!(space.new_code.len(), 2);
    space.insert(vec![5, 5], 32);
    assert_eq!(space.new_code.len(), 1);
    assert_eq!(space.read(Pos { x: -1, y: 0 }), 2);
    assert_eq!(space.orig_code, vec![vec![32, 7]]);
}
