use detox_mac::sys::cmd::{checked, is_root, Output};

#[test]
fn outputs_are_read_trimmed() {
    let o = Output::captured(0, "  0\n", "\n");
    assert_eq!(o.stdout, "0");
    assert_eq!(o.stderr, "");
    assert!(is_root(&checked("id", o)));
}

#[test]
fn an_error_output_of_white_space_gives_the_exit_code() {
    let failed = checked("brew", Output::captured(2, "", "\n"));
    assert_eq!(failed.unwrap_err(), "brew a échoué (code 2)");
    let said = checked("brew", Output::captured(1, "", " no cache \n"));
    assert_eq!(said.unwrap_err(), "no cache");
}
