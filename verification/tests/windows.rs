use rusty_funge::convert::{cast_int, chr, ord, Int};
use rusty_funge::engine::Width;
use rusty_funge::error::FungeError;
use rusty_funge::geometry::{Pos, Rect};
use rusty_funge::view::{window, wrap};

#[test]
fn text_is_cut_to_the_width() {
    assert_eq!(wrap("abcdefg\n\nhi", 3), vec!["abc", "def", "g", "hi"]);
    assert_eq!(wrap("abc", 3), vec!["abc"]);
    assert_eq!(wrap("", 3), Vec::<String>::new());
    assert_eq!(wrap("a\r\nbcd", 1), vec!["a", "b", "c", "d"]);
}

#[test]
fn window_shows_all_of_a_small_extent() {
    let extent = Rect::new(-2, 5, 0, 3);
    let r = window(extent, &vec![Pos { x: 0, y: 0 }], 80, 12);
    assert_eq!(r, extent);
}

#[test]
fn window_follows_the_pointers_in_a_large_extent() {
    let extent = Rect::new(0, 100, 0, 50);
    let r = window(extent, &vec![Pos { x: 60, y: 40 }, Pos { x: 40, y: 21 }], 20, 10);
    assert_eq!(r, Rect::new(40, 60, 25, 35));
    let r = window(extent, &vec![Pos { x: 3, y: 1 }], 20, 10);
    assert_eq!(r, Rect::new(0, 20, 0, 10));
    let r = window(extent, &vec![], 20, 10);
    assert_eq!(r, extent);
}

#[test]
fn integer_types_name_their_widths() {
    assert_eq!(<i8 as Int>::width(), Width::W8);
    assert_eq!(<i16 as Int>::width(), Width::W16);
    assert_eq!(<i32 as Int>::width(), Width::W32);
    assert_eq!(<i64 as Int>::width(), Width::W64);
    assert_eq!(<i128 as Int>::width(), Width::W128);
    assert_eq!(<isize as Int>::width(), Width::Native);
    assert_eq!(Width::W8.bits(), 8);
    assert_eq!(Width::Native.bits(), usize::BITS);
}

#[test]
fn numbers_and_characters_are_converted_where_they_fit() {
    assert_eq!(cast_int(127, 8), Ok(127));
    assert_eq!(cast_int(128, 8), Err(FungeError::Casting));
    assert_eq!(cast_int(-129, 8), Err(FungeError::Casting));
    assert_eq!(cast_int(i128::MIN, 128), Ok(i128::MIN));
    assert_eq!(ord('A', 8), Ok(65));
    assert_eq!(ord('\u{e9}', 8), Err(FungeError::Casting));
    assert_eq!(ord('\u{10ffff}', 32), Ok(0x10ffff));
    assert_eq!(chr(65), Ok('A'));
    assert_eq!(chr(0xd800), Err(FungeError::Casting));
    assert_eq!(chr(-1), Err(FungeError::Casting));
    assert_eq!(chr(0x110000), Err(FungeError::Casting));
    assert_eq!(chr(0xe000), Ok('\u{e000}'));
}
