use serial_visualizer::console::ConsoleLog;
use serial_visualizer::console::CONSOLE_CAPACITY;

fn lines_of(log: &ConsoleLog) -> Vec<String> {
    let mut lines = Vec::new();
    for index in 0..log.len() {
        lines.push(log.line(index).unwrap().clone());
    }
    lines
}

#[test]
fn new_log_is_empty() {
    let log = ConsoleLog::new();
    assert_eq!(log.len(), 0);
    assert_eq!(log.capacity(), CONSOLE_CAPACITY);
    assert_eq!(CONSOLE_CAPACITY, 30);
    assert_eq!(log.line(0), None);
}

#[test]
fn lines_stay_in_order() {
    let mut log = ConsoleLog::with_capacity(3);
    log.push("one".to_string());
    log.push("two".to_string());
    assert_eq!(lines_of(&log), vec!["one".to_string(), "two".to_string()]);
    assert_eq!(log.line(1), Some(&"two".to_string()));
    assert_eq!(log.line(2), None);
}

#[test]
fn full_log_drops_the_oldest() {
    let mut log = ConsoleLog::with_capacity(3);
    for text in ["a", "b", "c", "d", "e"] {
        log.push(text.to_string());
    }
    assert_eq!(log.len(), 3);
    assert_eq!(lines_of(&log), vec!["c".to_string(), "d".to_string(), "e".to_string()]);
}

#[test]
fn default_capacity_keeps_thirty_lines() {
    let mut log = ConsoleLog::new();
    for number in 0..31 {
        log.push(format!("line {}", number));
    }
    assert_eq!(log.len(), 30);
    assert_eq!(log.line(0), Some(&"line 1".to_string()));
    assert_eq!(log.line(29), Some(&"line 30".to_string()));
}

#[test]
fn log_of_capacity_one_keeps_the_last_line() {
    let mut log = ConsoleLog::with_capacity(1);
    log.push("first".to_string());
    log.push("second".to_string());
    assert_eq!(lines_of(&log), vec!["second".to_string()]);
}

#[test]
fn log_without_capacity_keeps_nothing() {
    let mut log = ConsoleLog::with_capacity(0);
    log.push("lost".to_string());
    assert_eq!(log.len(), 0);
    assert_eq!(log.capacity(), 0);
}
