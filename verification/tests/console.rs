use cardamon::console::{collecting_line, command_line, done_mark, listening_line, starting_line};
use cardamon::execution_modes::daemon::bind_address;
use cardamon::text::{append_decimal, append_signed};

#[test]
fn lines_with_and_without_colours() {
    colored::control::set_override(true);
    assert_eq!(starting_line("api"), "> starting process \u{1b}[32mapi\u{1b}[0m");
    assert_eq!(done_mark(), "\u{1b}[32m\t\u{2713}\u{1b}[0m");
    assert_eq!(command_line("./api"), "\t\u{1b}[90m- ./api\u{1b}[0m");
    assert_eq!(
        listening_line(),
        "> waiting for start/stop signals on \u{1b}[32mhttp://localhost:3030\u{1b}[0m"
    );

    assert_eq!(
        starting_line("a\u{1b}[0mb\u{1b}[0m\u{e9}\u{1b}[31m"),
        "> starting process \u{1b}[32ma\u{1b}[0m\u{1b}[32mb\u{1b}[0m\u{1b}[32m\u{e9}\u{1b}[31m\u{1b}[0m"
    );
    assert_eq!(
        command_line("\u{1b}[0m\u{1b}[0"),
        "\t\u{1b}[90m- \u{1b}[0m\u{1b}[90m\u{1b}[0\u{1b}[0m"
    );

    colored::control::set_override(false);
    assert_eq!(starting_line("a\u{1b}[0mb"), "> starting process a\u{1b}[0mb");
    assert_eq!(starting_line("api"), "> starting process api");
    assert_eq!(done_mark(), "\t\u{2713}");
    assert_eq!(command_line("./api"), "\t- ./api");
    assert_eq!(
        listening_line(),
        "> waiting for start/stop signals on http://localhost:3030"
    );
}

#[test]
fn collecting_line_names_the_run() {
    assert_eq!(collecting_line(42), "> collecting data for run 42");
    assert_eq!(collecting_line(-7), "> collecting data for run -7");
}

#[test]
fn daemon_binds_its_port() {
    assert_eq!(bind_address(), "0.0.0.0:3030");
}

#[test]
fn numbers_are_written_as_rust_writes_them() {
    for n in [0u32, 1, 9, 10, 99, 100, 1234567890, u32::MAX] {
        let mut text = "n=".to_string();
        append_decimal(&mut text, n);
        assert_eq!(text, format!("n={}", n));
    }
    for n in [0i32, 5, -5, 10, -10, i32::MAX, i32::MIN] {
        let mut text = String::new();
        append_signed(&mut text, n);
        assert_eq!(text, n.to_string());
    }
}
