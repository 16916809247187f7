use giga::buffer::Buffer;
use giga::view::View;

fn from(s: &str) -> View {
    View::new(Buffer::from_text(s, None), 0, 0)
}

#[test]
fn mod_view_to_string() {
    let mut view = from("Hello, World !\n");
    view.height = 1;
    view.width = 10;
    assert_eq!(view.to_string(), "Hello, Wor");
}

#[test]
fn mod_view_navigate() {
    let mut view = from("Hello, World !\nWelcome to the moon!");
    view.height = 2;
    view.width = 10;

    view.navigate(1, 1);
    assert_eq!(view.cursor, (1, 1));
    view.navigate(-1, -1);
    assert_eq!(view.cursor, (0, 0));
}

#[test]
fn mod_view_navigate_go_to_eol() {
    let mut view = from("Hello, World !\nWelcome to the moon!");
    view.height = 2;
    view.width = 100;

    view.navigate(30, 0);
    assert_eq!(view.cursor, (14, 0));
}

#[test]
fn mod_view_navigate_go_to_eof() {
    let mut view = from("Hello, World !\nWelcome to the moon!");
    view.height = 3;
    view.width = 100;

    view.navigate(0, 30);
    assert_eq!(view.cursor, (0, 1));
}

#[test]
fn mod_view_navigate_scroll_y() {
    let mut view = from("Hello, World !\nWelcome to the moon!");
    view.height = 1;
    view.width = 100;

    view.navigate(0, 1);
    assert_eq!(view.cursor, (0, 0));
    assert_eq!(view.start_line, 1);
    view.navigate(0, 1);
    assert_eq!(view.cursor, (0, 0));
    assert_eq!(view.start_line, 1);
    view.navigate(0, -1);
    assert_eq!(view.cursor, (0, 0));
    assert_eq!(view.start_line, 0);
    view.navigate(0, -1);
    assert_eq!(view.cursor, (0, 0));
    assert_eq!(view.start_line, 0);
}

#[test]
fn mod_view_navigate_scroll_x() {
    let mut view = from("Hello, World !\nWelcome to the moon!");
    view.height = 1;
    view.width = 10;

    view.navigate(9, 0);
    assert_eq!(view.cursor, (9, 0));
    assert_eq!(view.start_col, 0);
    view.navigate(1, 0);
    assert_eq!(view.cursor, (9, 0));
    assert_eq!(view.start_col, 1);
    view.navigate(20, 0);
    assert_eq!(view.get_line(0), ", World !");
    assert_eq!(view.cursor, (9, 0));
    assert_eq!(view.start_col, 5);
    view.navigate(-20, 0);
    assert_eq!(view.cursor, (0, 0));
    assert_eq!(view.start_col, 0);
}

#[test]
fn mod_view_insert() {
    let mut view = from("Hello, World !\n");
    view.height = 1;
    view.width = 10;
    view.insert('a');
    assert_eq!(view.to_string(), "aHello, Wo");
    assert_eq!(view.cursor, (1, 0));
}

#[test]
fn mod_view_insert_non_ascii() {
    let mut view = from("Hello, World !\n");
    view.height = 1;
    view.width = 10;
    view.insert('é');
    assert_eq!(view.to_string(), "éHello, Wo");
    assert_eq!(view.cursor, (1, 0));
}

#[test]
fn mod_view_insert_new_line() {
    let mut view = from("Hello, World !\n");
    view.height = 10;
    view.width = 10;
    view.navigate(7, 0);
    view.insert_new_line();
    assert_eq!(view.dump_file(), "Hello, \nWorld !\n");
    assert_eq!(view.cursor, (0, 1));
}

#[test]
fn mod_view_delete() {
    let mut view = from("Hello, World !\n");
    view.height = 1;
    view.width = 10;

    view.navigate(1, 0);
    view.delete();
    assert_eq!(view.to_string(), "ello, Worl");
    assert_eq!(view.cursor, (0, 0));
    // delete beginning of line
    view.navigate(0, 1);
    view.delete();
    assert_eq!(view.cursor, (9, 0));
    assert_eq!(view.to_string(), ", World !");
}

#[test]
fn view_new() {
    let view = View::new(Buffer::new(), 10, 10);
    assert_eq!(view.start_line, 0);
    assert_eq!(view.start_col, 0);
    assert_eq!(view.height, 10);
    assert_eq!(view.width, 10);
}

#[test]
fn view_view_to_string() {
    let view = View::new(Buffer::from_text("Hello, World !\n", None), 1, 10);
    assert_eq!(view.to_string(), "Hello, Wor");
}

#[test]
fn view_resize() {
    let mut view = View::new(Buffer::new(), 10, 10);
    view.resize(20, 20);
    assert_eq!(view.height, 20);
    assert_eq!(view.width, 20);
}

#[test]
fn view_get_line() {
    let view = View::new(Buffer::from_text("Hello, World !\n", None), 1, 10);
    assert_eq!(view.get_line(0), "Hello, Wor");
}

#[test]
fn view_view_navigate() {
    let mut view = View::new(Buffer::from_text("Hello, World !\nWelcome to the moon!", None), 2, 10);
    view.navigate(1, 1);
    assert_eq!(view.cursor, (1, 1));
    view.navigate(-1, -1);
    assert_eq!(view.cursor, (0, 0));
}

#[test]
fn view_view_navigate_go_to_eol() {
    let mut view = View::new(Buffer::from_text("Hello, World !\nWelcome to the moon!", None), 2, 100);
    view.navigate(30, 0);
    assert_eq!(view.cursor, (14, 0));
}

#[test]
fn view_view_navigate_go_to_eof() {
    let mut view = View::new(Buffer::from_text("Hello, World !\nWelcome to the moon!", None), 3, 100);
    view.navigate(0, 30);
    assert_eq!(view.cursor, (0, 1));
}

#[test]
fn view_view_navigate_scroll_y() {
    let mut view = View::new(Buffer::from_text("Hello, World !\nWelcome to the moon!", None), 1, 100);
    view.navigate(0, 1);
    assert_eq!(view.cursor, (0, 0));
    assert_eq!(view.start_line, 1);
    view.navigate(0, 1);
    assert_eq!(view.cursor, (0, 0));
    assert_eq!(view.start_line, 1);
    view.navigate(0, -1);
    assert_eq!(view.cursor, (0, 0));
    assert_eq!(view.start_line, 0);
    view.navigate(0, -1);
    assert_eq!(view.cursor, (0, 0));
    assert_eq!(view.start_line, 0);
}

#[test]
fn view_view_navigate_scroll_x() {
    let mut view = View::new(Buffer::from_text("Hello, World !\nWelcome to the moon!", None), 1, 10);
    view.navigate(9, 0);
    assert_eq!(view.cursor, (9, 0));
    assert_eq!(view.start_col, 0);
    view.navigate(1, 0);
    assert_eq!(view.cursor, (9, 0));
    assert_eq!(view.start_col, 1);
    view.navigate(20, 0);
    assert_eq!(view.get_line(0), ", World !");
    assert_eq!(view.cursor, (9, 0));
    assert_eq!(view.start_col, 5);
    view.navigate(-20, 0);
    assert_eq!(view.cursor, (0, 0));
    assert_eq!(view.start_col, 0);
}

#[test]
fn view_view_insert() {
    let mut view = View::new(Buffer::from_text("Hello, World !\n", None), 1, 10);
    view.insert('a');
    assert_eq!(view.to_string(), "aHello, Wo");
    assert_eq!(view.cursor, (1, 0));
}

#[test]
fn view_view_insert_non_ascii() {
    let mut view = View::new(Buffer::from_text("Hello, World !\n", None), 1, 10);
    view.insert('é');
    assert_eq!(view.to_string(), "éHello, Wo");
    assert_eq!(view.cursor, (1, 0));
}

#[test]
fn view_view_insert_new_line() {
    let mut view = View::new(Buffer::from_text("Hello, World !\n", None), 10, 10);
    view.navigate(7, 0);
    view.insert_new_line();
    assert_eq!(view.dump_file(), "Hello, \nWorld !\n");
    assert_eq!(view.cursor, (0, 1));
}

#[test]
fn view_view_delete() {
    let mut view = View::new(Buffer::from_text("Hello, World !\n", None), 1, 10);
    view.navigate(1, 0);
    view.delete();
    assert_eq!(view.to_string(), "ello, Worl");
    assert_eq!(view.cursor, (0, 0));
    view.navigate(0, 1);
    view.delete();
    assert_eq!(view.cursor, (9, 0));
    assert_eq!(view.to_string(), ", World !");
}

#[test]
fn scenario_scroll_right_by_one() {
    let mut view = View::new(Buffer::from_text("Hello, World !\n", None), 1, 10);
    assert_eq!(view.to_string(), "Hello, Wor");
    view.navigate(9, 0);
    assert_eq!((view.start_col, view.cursor), (0, (9, 0)));
    let scrolled = view.navigate(1, 0);
    assert!(scrolled);
    assert_eq!((view.start_col, view.cursor), (1, (9, 0)));
    assert_eq!(view.get_line(0), "ello, Worl");
}

#[test]
fn move_max_reaches_line_ends() {
    let mut view = View::new(Buffer::from_text("Hello, World !\nWelcome to the moon!", None), 5, 100);
    view.navigate(3, 1);
    view.navigate(isize::MAX, 0);
    assert_eq!(view.cursor, (20, 1));
    view.navigate(-isize::MAX, 0);
    assert_eq!(view.cursor, (0, 1));
}

#[test]
fn move_down_max_reaches_last_line() {
    let mut view = View::new(Buffer::from_text("Hello, World !\nab\ncd\nWelcome", None), 2, 100);
    view.navigate(10, 0);
    view.navigate(0, isize::MAX);
    assert_eq!(view.start_line + view.cursor.1, 3);
    assert_eq!(view.start_col + view.cursor.0, 7);
    assert!(view.start_line <= 4 - 2);
}

#[test]
fn delete_at_origin_keeps_view() {
    let mut view = View::new(Buffer::from_text("ab\ncd", None), 2, 10);
    let scrolled = view.delete();
    assert!(!scrolled);
    assert_eq!(view.dump_file(), "ab\ncd");
    assert_eq!(view.cursor, (0, 0));
}

#[test]
fn newline_at_end_of_file() {
    let mut view = View::new(Buffer::from_text("ab\ncd", None), 5, 10);
    view.navigate(isize::MAX, isize::MAX);
    view.insert_new_line();
    assert_eq!(view.dump_file(), "ab\ncd\n");
    assert_eq!(view.len(), 3);
    assert_eq!(view.cursor, (0, 2));
}

#[test]
fn zero_size_pins_cursor() {
    let mut view = View::new(Buffer::from_text("ab\ncd", None), 0, 0);
    assert!(!view.navigate(1, 1));
    assert_eq!(view.cursor, (0, 0));
    view.resize(1, 1);
    view.navigate(1, 1);
    assert_eq!(view.cursor, (0, 0));
    assert_eq!((view.start_col, view.start_line), (1, 1));
}

#[test]
fn resize_keeps_cursor_inside() {
    let mut view = View::new(Buffer::from_text("a\nb\nc\nd\ne", None), 5, 10);
    view.navigate(0, 4);
    assert_eq!(view.cursor, (0, 4));
    view.resize(2, 10);
    assert_eq!(view.cursor, (0, 1));
    assert_eq!(view.start_line, 3);
}

#[test]
fn delete_line_moves_to_line_start() {
    let mut view = View::new(Buffer::from_text("abc\ndef\nghi", None), 3, 10);
    view.navigate(2, 2);
    assert!(!view.delete_line());
    assert_eq!(view.dump_file(), "abc\ndef");
    assert_eq!(view.cursor, (0, 1));
}
