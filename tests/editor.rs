use giga::command::{Command, Key, Mode};
use giga::editor::{merge, split_path_name, Editor, RefreshOrder};
use giga::layout::{line_number_label, marks_for_rows, status_bar_text, view_size};
use giga::diff::PatchType;

fn editor(text: &str, height: usize, width: usize) -> Editor {
    let mut e = Editor::new("dir/notes", text, None);
    e.view.resize(height, width);
    e
}

fn rows(o: &RefreshOrder) -> Vec<usize> {
    match o {
        RefreshOrder::Lines(v) => {
            let mut v = v.clone();
            v.sort();
            v.dedup();
            v
        }
        _ => panic!("not a set of rows: {:?}", o),
    }
}

#[test]
fn execute_quit_and_status_commands() {
    let mut e = editor("abc", 1, 10);
    assert!(matches!(e.execute(&Command::Quit), RefreshOrder::Terminate));
    assert!(matches!(e.execute(&Command::ToggleMode), RefreshOrder::StatusBar));
    assert_eq!(e.mode, Mode::Insert);
    assert!(matches!(e.execute(&Command::ToggleMode), RefreshOrder::StatusBar));
    assert_eq!(e.mode, Mode::Normal);
    e.execute(&Command::ToggleRename);
    assert_eq!(e.mode, Mode::Rename);
    e.execute(&Command::ToggleMode);
    assert_eq!(e.mode, Mode::Normal);
    assert!(matches!(e.execute(&Command::Save), RefreshOrder::StatusBar));
    assert!(e.save_requested);
}

#[test]
fn execute_rename() {
    let mut e = editor("abc", 1, 10);
    assert_eq!(e.file_dir, "dir/");
    assert_eq!(e.file_name, "notes");
    e.execute(&Command::Rename(None));
    assert_eq!(e.file_name, "note");
    e.execute(&Command::Rename(Some(' ')));
    e.execute(&Command::Rename(Some('\'')));
    e.execute(&Command::Rename(Some('x')));
    assert_eq!(e.file_name, "note__x");
    assert_eq!(e.save_path(), Some("dir/note__x".to_string()));
    for _ in 0..10 {
        e.execute(&Command::Rename(None));
    }
    assert_eq!(e.file_name, "");
    assert_eq!(e.save_path(), None);
}

#[test]
fn execute_move_and_edits() {
    let mut e = editor("Hello, World !\n", 1, 10);
    assert!(matches!(e.execute(&Command::Move(9, 0)), RefreshOrder::CursorPos));
    assert!(matches!(e.execute(&Command::Move(1, 0)), RefreshOrder::AllLines));
    assert_eq!(e.view.get_line(0), "ello, Worl");

    let mut e = editor("Hello, World !\n", 3, 20);
    let o = e.execute(&Command::Insert('a'));
    assert_eq!(rows(&o), vec![0]);
    let o = e.execute(&Command::InsertNewLine);
    assert_eq!(rows(&o), vec![0, 1, 2]);
    assert_eq!(e.view.dump_file(), "a\nHello, World !\n");
    let o = e.execute(&Command::Delete);
    assert_eq!(rows(&o), vec![0, 1, 2]);
    assert_eq!(e.view.dump_file(), "aHello, World !\n");
    assert_eq!(e.view.cursor, (1, 0));
    assert!(matches!(e.execute(&Command::DeleteLine), RefreshOrder::AllLines));
    assert_eq!(e.view.dump_file(), "");
    assert_eq!(e.view.cursor, (0, 0));
}

#[test]
fn block_is_fold_of_its_commands() {
    let mut a = editor("abc\ndef", 2, 10);
    let mut b = editor("abc\ndef", 2, 10);
    let cmds = vec![Command::Move(isize::MAX, 0), Command::InsertNewLine, Command::Insert('x'), Command::ToggleMode];
    let block = a.execute(&Command::CommandBlock(cmds));
    let mut acc = RefreshOrder::Nothing;
    for c in [Command::Move(isize::MAX, 0), Command::InsertNewLine, Command::Insert('x'), Command::ToggleMode] {
        let o = b.execute(&c);
        acc = merge(acc, o);
    }
    assert_eq!(a.view.dump_file(), b.view.dump_file());
    assert_eq!(a.view.cursor, b.view.cursor);
    assert_eq!(a.mode, b.mode);
    assert!(matches!(block, RefreshOrder::AllLines));
    assert!(matches!(acc, RefreshOrder::AllLines));
}

#[test]
fn decoded_o_opens_a_line_below() {
    let mut e = editor("abc\ndef", 5, 10);
    let cmd = Command::parse(Key::Char('o'), &e.mode).unwrap();
    e.execute(&cmd);
    assert_eq!(e.view.dump_file(), "abc\n\ndef");
    assert_eq!(e.view.cursor, (0, 1));
    assert_eq!(e.mode, Mode::Insert);
    let cmd = Command::parse(Key::Char('\t'), &e.mode).unwrap();
    e.execute(&cmd);
    assert_eq!(e.view.dump_file(), "abc\n    \ndef");
}

#[test]
fn merge_rules() {
    assert!(matches!(merge(RefreshOrder::Nothing, RefreshOrder::CursorPos), RefreshOrder::CursorPos));
    assert!(matches!(merge(RefreshOrder::StatusBar, RefreshOrder::Nothing), RefreshOrder::StatusBar));
    let m = merge(RefreshOrder::Lines(vec![1, 2]), RefreshOrder::Lines(vec![2, 5]));
    assert_eq!(rows(&m), vec![1, 2, 5]);
    assert!(matches!(merge(RefreshOrder::Lines(vec![1]), RefreshOrder::CursorPos), RefreshOrder::AllLines));
    assert!(matches!(merge(RefreshOrder::Terminate, RefreshOrder::StatusBar), RefreshOrder::AllLines));
}

#[test]
fn path_splitting() {
    let (d, n, x) = split_path_name("src/lib.rs");
    assert_eq!((d.as_str(), n.as_str(), x.as_str()), ("src/", "lib.rs", "rs"));
    let (d, n, x) = split_path_name("Newfile");
    assert_eq!((d.as_str(), n.as_str(), x.as_str()), ("./", "Newfile", ""));
    let (d, n, x) = split_path_name("./a/.bashrc");
    assert_eq!((d.as_str(), n.as_str(), x.as_str()), ("./a/", ".bashrc", ""));
}

#[test]
fn layout_values() {
    assert_eq!(view_size(80, 24), (75, 23));
    assert_eq!(view_size(3, 0), (0, 0));
    assert_eq!(line_number_label(7), "  7 ");
    assert_eq!(line_number_label(42), " 42 ");
    assert_eq!(line_number_label(1234), "1234 ");
    assert_eq!(status_bar_text("NORMAL", "ab", "main", 20), " NORMAL  ab    main ");
    assert_eq!(status_bar_text("NORMAL", "ab", "main", 20).chars().count(), 20);
    assert_eq!(status_bar_text("NORMAL", "ab", "", 4), " NORMALab ");
}

#[test]
fn gutter_marks_per_row() {
    let mut m = std::collections::HashMap::new();
    m.insert(3usize, PatchType::Added);
    m.insert(5usize, PatchType::Deleted);
    let r = marks_for_rows(&m, 2, 4);
    assert_eq!(r, vec![None, Some(PatchType::Added), None, Some(PatchType::Deleted)]);
}
