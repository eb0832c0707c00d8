//! Tests of the terminal's display-buffer logic.

use xila_fs::terminal::Terminal_type;

fn Bytes(Text: &str) -> Vec<u8> {
    Text.as_bytes().to_vec()
}

#[test]
fn printing_appends_and_terminates() {
    let mut Terminal = Terminal_type::New();
    Terminal.Print(&Bytes("hello"));
    assert_eq!(Terminal.Get_display().as_slice(), b"hello\0");
    Terminal.Print(&Bytes(" world"));
    assert_eq!(Terminal.Get_display().as_slice(), b"hello world\0");
}

#[test]
fn the_clear_sequence_discards_the_buffer() {
    let mut Terminal = Terminal_type::New();
    Terminal.Print(&Bytes("old text"));
    Terminal.Print(&Bytes("before\x1B[2Jafter"));
    assert_eq!(Terminal.Get_display().as_slice(), b"after\0");
}

#[test]
fn the_last_clear_governs() {
    let mut Terminal = Terminal_type::New();
    Terminal.Print(&Bytes("a\x1B[2Jb\x1B[2Jc"));
    assert_eq!(Terminal.Get_display().as_slice(), b"c\0");
}

#[test]
fn the_home_sequence_discards_the_buffer() {
    let mut Terminal = Terminal_type::New();
    Terminal.Print(&Bytes("old"));
    Terminal.Print(&Bytes("x\x1B[Hfresh"));
    assert_eq!(Terminal.Get_display().as_slice(), b"fresh\0");
}

#[test]
fn print_line_trims_and_adds_a_newline() {
    let mut Terminal = Terminal_type::New();
    Terminal.Print_line(&Bytes("  spaced out  "));
    assert_eq!(Terminal.Get_display().as_slice(), b"spaced out\n\0");
    Terminal.Print_line(&Bytes("next"));
    assert_eq!(Terminal.Get_display().as_slice(), b"spaced out\nnext\n\0");
}

#[test]
fn a_return_key_validates_the_input_line() {
    let mut Terminal = Terminal_type::New();
    let Validated = Terminal.Handle_key(b'\n', &Bytes("ls /"));
    assert!(Validated);
    assert_eq!(Terminal.Get_display().as_slice(), b"ls /\n\0");
    // a second return while one line waits changes nothing
    let Validated = Terminal.Handle_key(b'\r', &Bytes("ignored"));
    assert!(!Validated);
    let mut Output = Vec::new();
    let Count = Terminal.Read_input(&mut Output);
    assert_eq!(Count, 4);
    assert_eq!(Output, Bytes("ls /"));
    // consumed: nothing more to read
    let mut Output = Vec::new();
    assert_eq!(Terminal.Read_input(&mut Output), 0);
    assert!(Output.is_empty());
}

#[test]
fn ordinary_keys_do_not_validate() {
    let mut Terminal = Terminal_type::New();
    let Validated = Terminal.Handle_key(b'a', &Bytes("line"));
    assert!(!Validated);
    assert_eq!(Terminal.Get_display().as_slice(), b"");
    let mut Output = Vec::new();
    assert_eq!(Terminal.Read_input(&mut Output), 0);
}
