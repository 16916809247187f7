use giga::buffer::Buffer;

fn text(s: &str) -> Buffer {
    Buffer::from_text(s, None)
}

fn line_of(b: &Buffer, i: usize) -> Option<String> {
    b.line(i).map(|l| l.iter().map(|c| c.ch).collect())
}

#[test]
fn buffer_new_empty() {
    let buffer = Buffer::new();
    assert_eq!(buffer.len(), 1);
    assert_eq!(line_of(&buffer, 0), Some(String::new()));
}

#[test]
fn buffer_from_bytes() {
    let buffer = Buffer::from_bytes(b"Hello, World !");
    assert_eq!(buffer.len(), 1);
    assert_eq!(line_of(&buffer, 0).unwrap(), "Hello, World !");
}

#[test]
fn buffer_to_string() {
    let buffer = Buffer::from_bytes(b"Hello, World !");
    assert_eq!(buffer.to_string(), "Hello, World !");
}

#[test]
fn mod_file_new_empty() {
    let file = Buffer::new();
    assert_eq!(file.len(), 1);
}

#[test]
fn file_from_string() {
    let file = text("Hello, World !");
    assert_eq!(file.len(), 1);
    assert_eq!(line_of(&file, 0).unwrap(), "Hello, World !");
}

#[test]
fn mod_file_to_string() {
    let file = text("Hello, World !");
    assert_eq!(file.to_string(), "Hello, World !");
}

#[test]
fn mod_file_get_line() {
    let file = text("Hello, World !\n");
    assert_eq!(line_of(&file, 0).unwrap(), "Hello, World !");
    assert_eq!(line_of(&file, 1).unwrap(), "");
    assert!(matches!(file.line(2), None))
}

#[test]
fn mod_file_get_len() {
    let file = text("Hello, World !\n");
    assert_eq!(file.len(), 2);
}

#[test]
fn mod_file_insert() {
    let mut file = text("Hello, World !\n");
    file.insert(0, 0, '!');
    assert_eq!(file.to_string(), "!Hello, World !\n");
    file.insert(1, 0, '!');
    assert_eq!(file.to_string(), "!Hello, World !\n!");
    file.insert(1, 1, '!');
    assert_eq!(file.to_string(), "!Hello, World !\n!!");

    // Out of bounds line
    file.insert(2, 0, '!');
    assert_eq!(file.to_string(), "!Hello, World !\n!!");

    // Out of bounds col
    file.insert(1, 3, '!');
    assert_eq!(file.to_string(), "!Hello, World !\n!!");
}

#[test]
fn mod_file_delete() {
    let mut file = text("HW\n");
    file.delete(0, 1);
    assert_eq!(file.to_string(), "W\n");
    file.delete(0, 1);
    assert_eq!(file.to_string(), "\n");
}

#[test]
fn mod_file_delete_out_of_bounds() {
    let mut file = text("HW\n");
    file.delete(1, 1);
    assert_eq!(file.to_string(), "HW\n");
}

#[test]
fn mod_file_delete_beginning_of_line() {
    let mut file = text("HW\nGuys !");
    file.delete(1, 0);
    assert_eq!(file.to_string(), "HWGuys !");
}

#[test]
fn mod_file_split_line() {
    let mut file = text("Hello, World !");
    file.split_line(0, 5);
    assert_eq!(file.to_string(), "Hello\n, World !");
}

#[test]
fn mod_file_split_line_out_of_bounds_line() {
    let mut file = text("Hello, World !");
    file.split_line(1, 5);
    assert_eq!(file.to_string(), "Hello, World !");
}

#[test]
fn mod_file_split_line_out_of_bounds_lcol() {
    let mut file = text("Hello, World !");
    file.split_line(0, 20);
    assert_eq!(file.to_string(), "Hello, World !");
}

#[test]
fn mod_file_from_sting_with_tabs() {
    let file = text("Hello,\tWorld !");
    assert_eq!(file.to_string(), "Hello,    World !");
}

#[test]
fn file_file_new_empty() {
    let file = Buffer::new();
    assert_eq!(file.len(), 1);
}

#[test]
fn file_from_bytes() {
    let file = text("Hello, World !");
    assert_eq!(file.len(), 1);
    assert_eq!(line_of(&file, 0).unwrap(), "Hello, World !");
}

#[test]
fn file_file_to_string() {
    let file = text("Hello, World !");
    assert_eq!(file.to_string(), "Hello, World !");
}

#[test]
fn file_file_get_line() {
    let file = text("Hello, World !\n");
    assert_eq!(line_of(&file, 0).unwrap(), "Hello, World !");
    assert_eq!(line_of(&file, 1).unwrap(), "");
    assert!(matches!(file.line(2), None))
}

#[test]
fn file_file_get_len() {
    let file = text("Hello, World !\n");
    assert_eq!(file.len(), 2);
}

#[test]
fn file_file_insert() {
    let mut file = text("Hello, World !\n");
    file.insert(0, 0, '!');
    assert_eq!(file.to_string(), "!Hello, World !\n");
    file.insert(1, 0, '!');
    assert_eq!(file.to_string(), "!Hello, World !\n!");
    file.insert(1, 1, '!');
    assert_eq!(file.to_string(), "!Hello, World !\n!!");
    file.insert(2, 0, '!');
    assert_eq!(file.to_string(), "!Hello, World !\n!!");
    file.insert(1, 3, '!');
    assert_eq!(file.to_string(), "!Hello, World !\n!!");
}

#[test]
fn file_file_delete() {
    let mut file = text("HW\n");
    file.delete(0, 1);
    assert_eq!(file.to_string(), "W\n");
    file.delete(0, 1);
    assert_eq!(file.to_string(), "\n");
}

#[test]
fn file_file_delete_out_of_bounds() {
    let mut file = text("HW\n");
    file.delete(1, 1);
    assert_eq!(file.to_string(), "HW\n");
}

#[test]
fn file_file_delete_beginning_of_line() {
    let mut file = text("HW\nGuys !");
    file.delete(1, 0);
    assert_eq!(file.to_string(), "HWGuys !");
}

#[test]
fn file_file_split_line() {
    let mut file = text("Hello, World !");
    file.split_line(0, 5);
    assert_eq!(file.to_string(), "Hello\n, World !");
}

#[test]
fn file_file_split_line_out_of_bounds_line() {
    let mut file = text("Hello, World !");
    file.split_line(1, 5);
    assert_eq!(file.to_string(), "Hello, World !");
}

#[test]
fn file_file_split_line_out_of_bounds_lcol() {
    let mut file = text("Hello, World !");
    file.split_line(0, 20);
    assert_eq!(file.to_string(), "Hello, World !");
}

#[test]
fn file_file_from_sting_with_tabs() {
    let file = text("Hello,\tWorld !");
    assert_eq!(file.to_string(), "Hello,    World !");
}

#[test]
fn delete_buffer_joins_lines() {
    let mut file = text("HW\nGuys !");
    file.delete(1, 0);
    assert_eq!(file.len(), 1);
    assert_eq!(file.to_string(), "HWGuys !");
}

#[test]
fn delete_at_origin_changes_nothing() {
    let mut file = text("HW\nGuys !");
    file.delete(0, 0);
    assert_eq!(file.to_string(), "HW\nGuys !");
    file.delete(0, 5);
    assert_eq!(file.to_string(), "HW\nGuys !");
}

#[test]
fn delete_line_removes_or_empties() {
    let mut file = text("a\nb\nc");
    file.delete_line(1);
    assert_eq!(file.to_string(), "a\nc");
    file.delete_line(7);
    assert_eq!(file.to_string(), "a\nc");
    file.delete_line(1);
    file.delete_line(0);
    assert_eq!(file.len(), 1);
    assert_eq!(file.to_string(), "");
}

#[test]
fn insert_line_feed_splits() {
    let mut file = text("abcd");
    file.insert(0, 2, '\n');
    assert_eq!(file.len(), 2);
    assert_eq!(file.to_string(), "ab\ncd");
}

#[test]
fn tabs_load_as_spaces() {
    let a = text("a\tb");
    let b = text("a    b");
    assert_eq!(a.to_string(), b.to_string());
    assert_eq!(a.len(), b.len());
    assert_eq!(line_of(&a, 0), line_of(&b, 0));
}

#[test]
fn save_then_load_is_identical() {
    let mut file = text("one\ntwo\n\nthree\n");
    file.insert(1, 3, '!');
    let saved = file.to_string();
    let again = text(&saved);
    assert_eq!(again.to_string(), saved);
    assert_eq!(again.len(), file.len());
}

#[test]
fn non_ascii_bytes_decode() {
    let buffer = Buffer::from_bytes("é\nà".as_bytes());
    assert_eq!(buffer.len(), 2);
    assert_eq!(line_of(&buffer, 0).unwrap(), "é");
}

#[test]
fn plain_colors_without_highlighter() {
    let buffer = text("ab");
    let l = buffer.line(0).unwrap();
    assert_eq!(l.len(), 2);
    assert_eq!(l[0].color, giga::highlight::Rgb { r: 255, g: 255, b: 255 });
}

#[test]
fn highlighter_colors_each_character() {
    let buffer = Buffer::from_text("fn main() {}\n", Some("rs".to_string()));
    let l = buffer.line(0).unwrap();
    assert_eq!(l.len(), 12);
    assert_eq!(l.iter().map(|c| c.ch).collect::<String>(), "fn main() {}");
    let plain = giga::highlight::Rgb { r: 255, g: 255, b: 255 };
    assert!(l.iter().any(|c| c.color != plain));
}

#[test]
fn invalid_utf8_is_replaced() {
    let buffer = Buffer::from_bytes(&[0x61, 0xff, 0x0a, 0x62]);
    assert_eq!(buffer.len(), 2);
    assert_eq!(line_of(&buffer, 0).unwrap(), "a\u{FFFD}");
    assert_eq!(line_of(&buffer, 1).unwrap(), "b");
}
