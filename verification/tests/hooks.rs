use r2rcon::config::parse_rcon_args;
use r2rcon::console_hook::{extract_command_output, should_forward_line};

fn args(list: &[&str]) -> Vec<String> {
    list.iter().map(|s| s.to_string()).collect()
}

#[test]
fn extract_without_marker_keeps_everything() {
    let buf = b"plain console output";
    assert_eq!(extract_command_output(buf), buf.to_vec());
}

#[test]
fn extract_takes_what_follows_the_marker() {
    let mut buf = Vec::new();
    buf.extend_from_slice(b"echo hi");
    buf.extend_from_slice(b"]\x1b[39;49m ");
    buf.extend_from_slice(b"hi\n");
    assert_eq!(extract_command_output(&buf), b"hi\n".to_vec());
}

#[test]
fn extract_takes_what_follows_the_last_marker() {
    let mut buf = Vec::new();
    buf.extend_from_slice(b"]\x1b[39;49m first");
    buf.extend_from_slice(b"]\x1b[39;49m second");
    assert_eq!(extract_command_output(&buf), b"second".to_vec());
}

#[test]
fn extract_with_trailing_marker_is_empty() {
    let mut buf = Vec::new();
    buf.extend_from_slice(b"prompt");
    buf.extend_from_slice(b"]\x1b[39;49m ");
    assert_eq!(extract_command_output(&buf), Vec::<u8>::new());
}

#[test]
fn prompt_noise_lines_are_not_forwarded() {
    assert!(!should_forward_line(" "));
    assert!(!should_forward_line("] "));
    assert!(!should_forward_line("\n"));
    assert!(should_forward_line("real output"));
    assert!(should_forward_line("  "));
    assert!(should_forward_line("]"));
}

#[test]
fn rcon_args_need_both_settings() {
    let a = args(&["game.exe", "-rcon_ip_port", "127.0.0.1:37015", "-rcon_password", "secret"]);
    assert_eq!(
        parse_rcon_args(&a),
        Some((String::from("127.0.0.1:37015"), String::from("secret")))
    );
    let missing = args(&["game.exe", "-rcon_ip_port", "127.0.0.1:37015"]);
    assert_eq!(parse_rcon_args(&missing), None);
    assert_eq!(parse_rcon_args(&args(&[])), None);
}

#[test]
fn rcon_args_last_pair_wins() {
    let a = args(&[
        "game.exe",
        "-rcon_password",
        "old",
        "-rcon_password",
        "new",
        "-rcon_ip_port",
        "127.0.0.1:37015",
    ]);
    assert_eq!(
        parse_rcon_args(&a),
        Some((String::from("127.0.0.1:37015"), String::from("new")))
    );
}

#[test]
fn rcon_args_plain_name_beats_dashed() {
    let a = args(&[
        "game.exe",
        "-rcon_ip_port",
        "1.2.3.4:1",
        "rcon_ip_port",
        "5.6.7.8:2",
        "rcon_password",
        "pw",
    ]);
    assert_eq!(parse_rcon_args(&a), Some((String::from("5.6.7.8:2"), String::from("pw"))));
}
