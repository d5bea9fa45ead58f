use rusty_ircd::client_io::{Command, IO};

#[test]
fn new_io_has_no_line() {
    let mut io = IO::new();
    assert_eq!(io.end_of_line().as_deref(), Some(""));
}

#[test]
fn client_command_carries_arguments() {
    let c = Command::Part("#chan".to_string(), Some("bye".to_string()));
    match c {
        Command::Part(chan, msg) => {
            assert_eq!(chan, "#chan");
            assert_eq!(msg.as_deref(), Some("bye"));
        }
        _ => panic!("wrong variant"),
    }
}
