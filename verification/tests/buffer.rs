use std::sync::mpsc;

use r2rcon::codec::MAX_CONTENT_SIZE;
use r2rcon::console::ConsoleAccess;

fn fresh_console() -> ConsoleAccess {
    let (_tx, rx) = mpsc::channel::<String>();
    ConsoleAccess::new(rx)
}

#[test]
fn push_retains_everything_under_budget() {
    let mut console = fresh_console();
    console.push_line(String::from("one"));
    console.push_line(String::from("two"));
    console.push_line(String::from("three"));
    let lines = console.get_last_console_output();
    assert_eq!(lines, ["one", "two", "three"]);
}

#[test]
fn push_evicts_oldest_when_over_budget() {
    let mut console = fresh_console();
    console.push_line("a".repeat(4000));
    console.push_line("b".repeat(2000));
    let lines = console.get_last_console_output();
    assert_eq!(lines.len(), 1);
    assert_eq!(lines[0], "b".repeat(2000));
}

#[test]
fn push_budget_holds_after_every_push() {
    let mut console = fresh_console();
    let sizes = [100usize, 3000, 1500, 4086, 1, 2, 4000, 90];
    for (i, len) in sizes.iter().enumerate() {
        let fill = char::from_digit((i % 10) as u32, 10).unwrap();
        console.push_line(fill.to_string().repeat(*len));
        let total: usize = console.get_last_console_output().iter().map(|l| l.len()).sum();
        assert!(total <= MAX_CONTENT_SIZE, "over budget after push {i}: {total}");
        assert_eq!(
            console.get_last_console_output().last().unwrap().len(),
            *len,
            "newest line must always be retained"
        );
    }
}

#[test]
fn push_oversized_line_is_kept_alone() {
    let mut console = fresh_console();
    console.push_line(String::from("small"));
    console.push_line("x".repeat(MAX_CONTENT_SIZE + 1));
    let lines = console.get_last_console_output();
    assert_eq!(lines.len(), 1);
    assert_eq!(lines[0].len(), MAX_CONTENT_SIZE + 1);
}

#[test]
fn retained_lines_are_a_suffix_of_push_order() {
    let mut console = fresh_console();
    let mut history: Vec<String> = Vec::new();
    let sizes = [1000usize, 1000, 1000, 1000, 2000, 500];
    for (i, len) in sizes.iter().enumerate() {
        let fill = char::from_digit(i as u32, 10).unwrap();
        let line = fill.to_string().repeat(*len);
        history.push(line.clone());
        console.push_line(line);
        let lines = console.get_last_console_output();
        assert_eq!(lines, &history[history.len() - lines.len()..]);
    }
}

#[test]
fn drain_all_returns_lines_and_empties_buffer() {
    let mut console = fresh_console();
    console.push_line(String::from("first"));
    console.push_line(String::from("second"));
    let drained = console.drain_all();
    assert_eq!(drained, ["first", "second"]);
    assert!(console.get_last_console_output().is_empty());
}

#[test]
fn next_line_reads_the_channel() {
    let (tx, rx) = mpsc::channel::<String>();
    let console = ConsoleAccess::new(rx);
    assert_eq!(console.next_line(), None);
    tx.send(String::from("queued")).unwrap();
    assert_eq!(console.next_line(), Some(String::from("queued")));
    assert_eq!(console.next_line(), None);
}

#[test]
fn next_line_catpure_stores_and_returns_the_line() {
    let (tx, rx) = mpsc::channel::<String>();
    let mut console = ConsoleAccess::new(rx);
    tx.send(String::from("hello")).unwrap();
    assert_eq!(console.next_line_catpure(), Some(String::from("hello")));
    assert_eq!(console.next_line_catpure(), None);
    assert_eq!(console.get_last_console_output(), ["hello"]);
}

#[test]
fn capture_all_drains_the_channel_in_order() {
    let (tx, rx) = mpsc::channel::<String>();
    let mut console = ConsoleAccess::new(rx);
    tx.send(String::from("a")).unwrap();
    tx.send(String::from("b")).unwrap();
    tx.send(String::from("c")).unwrap();
    console.capture_all();
    assert_eq!(console.get_last_console_output(), ["a", "b", "c"]);
}
