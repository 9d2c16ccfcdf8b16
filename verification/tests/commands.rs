use testbench::echo::greet;
use testbench::echo::ping;
use testbench::messages::list_dir_entry_failure;
use testbench::messages::list_dir_read_failure;
use testbench::messages::read_failure;
use testbench::messages::write_failure;

#[test]
fn greet_world() {
    assert_eq!(greet("World"), "Hello, World! You've been greeted from Rust!");
}

#[test]
fn greet_empty_name() {
    assert_eq!(greet(""), "Hello, ! You've been greeted from Rust!");
}

#[test]
fn ping_x() {
    assert_eq!(ping("x"), "pong: x");
}

#[test]
fn ping_empty_message() {
    assert_eq!(ping(""), "pong: ");
}

#[test]
fn read_failure_names_the_command() {
    assert_eq!(
        read_failure("No such file or directory (os error 2)"),
        "read_text_file failed: No such file or directory (os error 2)"
    );
}

#[test]
fn write_failure_names_the_command() {
    assert_eq!(
        write_failure("Permission denied (os error 13)"),
        "write_text_file failed: Permission denied (os error 13)"
    );
}

#[test]
fn list_dir_failures_name_the_step() {
    assert_eq!(
        list_dir_read_failure("Not a directory (os error 20)"),
        "list_dir read_dir failed: Not a directory (os error 20)"
    );
    assert_eq!(list_dir_entry_failure("interrupted"), "list_dir entry failed: interrupted");
}

#[test]
fn failure_message_keeps_empty_detail() {
    assert_eq!(read_failure(""), "read_text_file failed: ");
}
