use twostack::display::{
    entry_window, layout_output, printable, represent_value, stack_window, tape_window,
};

fn lines(text: &str) -> Vec<String> {
    let chars: Vec<char> = text.chars().collect();
    let cells = layout_output(&chars);
    assert_eq!(cells.len(), 495);
    cells.chunks(99).map(|row| row.iter().collect::<String>().trim_end().to_string()).collect()
}

#[test]
fn printable_characters() {
    assert_eq!(printable(b'A'), 'A');
    assert_eq!(printable(b' '), ' ');
    assert_eq!(printable(b'~'), '~');
    assert_eq!(printable(0x1f), '.');
    assert_eq!(printable(0x7f), '.');
    assert_eq!(printable(0), '.');
    assert_eq!(printable(255), '.');
}

#[test]
fn bytes_are_shown_with_their_number() {
    assert_eq!(represent_value(65u8), "A 65");
    assert_eq!(represent_value(0u8), ".  0");
    assert_eq!(represent_value(7u8), ".  7");
    assert_eq!(represent_value(255u8), ".255");
    assert_eq!(represent_value(100u8), "d100");
}

#[test]
fn words_are_shown_as_four_characters() {
    assert_eq!(represent_value(0x41424344u32), "ABCD");
    assert_eq!(represent_value(0x41u32), "...A");
    assert_eq!(represent_value(0xff7e2000u32), ".~ .");
}

#[test]
fn short_tape_is_shown_whole() {
    assert_eq!(tape_window(0, 0), (0, 0));
    assert_eq!(tape_window(75, 74), (0, 75));
    assert_eq!(tape_window(10, 500), (0, 10));
}

#[test]
fn long_tape_window_follows_position() {
    assert_eq!(tape_window(200, 0), (0, 75));
    assert_eq!(tape_window(200, 38), (0, 75));
    assert_eq!(tape_window(200, 39), (1, 76));
    assert_eq!(tape_window(200, 100), (62, 137));
    assert_eq!(tape_window(200, 199), (125, 200));
    assert_eq!(tape_window(200, 1000), (125, 200));
    assert_eq!(tape_window(76, usize::MAX), (1, 76));
}

#[test]
fn stack_window_keeps_the_top() {
    assert_eq!(stack_window(0), (0, false));
    assert_eq!(stack_window(13), (0, false));
    assert_eq!(stack_window(14), (1, true));
    assert_eq!(stack_window(100), (87, true));
}

#[test]
fn entry_window_keeps_the_end() {
    let short = entry_window(10);
    assert_eq!((short.start, short.padding, short.arrow), (0, 88, false));
    let full = entry_window(98);
    assert_eq!((full.start, full.padding, full.arrow), (0, 0, false));
    let long = entry_window(99);
    assert_eq!((long.start, long.padding, long.arrow), (3, 0, true));
}

#[test]
fn output_is_laid_out_in_lines() {
    assert_eq!(lines(""), vec!["", "", "", "", ""]);
    assert_eq!(lines("ab\ncd"), vec!["ab", "cd", "", "", ""]);
    assert_eq!(lines("abc\rx"), vec!["xbc", "", "", "", ""]);
}

#[test]
fn output_scrolls_and_wraps() {
    assert_eq!(lines("1\n2\n3\n4\n5\n6"), vec!["2", "3", "4", "5", "6"]);
    assert_eq!(lines("1\n2\n3\n4\n5\n"), vec!["2", "3", "4", "5", ""]);
    let long = "x".repeat(100);
    assert_eq!(lines(&long), vec!["x".repeat(99), "x".to_string(), String::new(), String::new(), String::new()]);
    let page = "y".repeat(495);
    let shown = lines(&page);
    assert_eq!(shown[3], "y".repeat(99));
    assert_eq!(shown[4], "");
}
