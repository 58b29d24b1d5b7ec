use vf2_boot::console::Console;
use vf2_boot::serial::MemTransport;

#[test]
fn simple_line() {
    let mut console = Console::new();
    let mut t = MemTransport::new(b"ab\n".to_vec());
    let line = console.wait_for_input(&mut t).expect("line entered");
    assert_eq!(line.as_slice(), b"ab");
}

#[test]
fn left_arrow_inserts_before_last() {
    // a, b, cursor-left, c, LF: the c lands between a and b.
    let mut console = Console::new();
    let mut t = MemTransport::new(vec![b'a', b'b', 0x1b, 0x5b, 0x44, b'c', 0x0a]);
    let line = console.wait_for_input(&mut t).expect("line entered");
    assert_eq!(line.as_slice(), b"acb");
}

#[test]
fn echo_stream_for_edit() {
    let mut console = Console::new();
    let mut t = MemTransport::new(vec![b'a', b'b', 0x1b, 0x5b, 0x44, b'c', 0x0a]);
    console.wait_for_input(&mut t).expect("line entered");
    // Prompt ">> ", echo of a and b, one backspace for the arrow, then
    // the re-echoed tail "cb" with one backspace, then the final LF.
    assert_eq!(
        t.sent().as_slice(),
        &[62, 62, 32, b'a', b'b', 8, b'c', b'b', 8, 10]
    );
}

#[test]
fn empty_line_returns_none() {
    let mut console = Console::new();
    let mut t = MemTransport::new(vec![0x0d]);
    assert!(console.wait_for_input(&mut t).is_none());
}

#[test]
fn backspace_at_start_ignored() {
    let mut console = Console::new();
    let mut t = MemTransport::new(vec![0x08, b'x', 0x0a]);
    let line = console.wait_for_input(&mut t).expect("line entered");
    assert_eq!(line.as_slice(), b"x");
}

#[test]
fn backspace_removes_previous() {
    let mut console = Console::new();
    let mut t = MemTransport::new(vec![b'x', b'y', 0x08, b'z', 0x0a]);
    let line = console.wait_for_input(&mut t).expect("line entered");
    assert_eq!(line.as_slice(), b"xz");
}

#[test]
fn right_arrow_at_end_ignored() {
    let mut console = Console::new();
    let mut t = MemTransport::new(vec![b'a', 0x1b, 0x5b, 0x43, b'b', 0x0a]);
    let line = console.wait_for_input(&mut t).expect("line entered");
    assert_eq!(line.as_slice(), b"ab");
}

#[test]
fn arrows_move_both_ways() {
    // a, b, left, left, right, c: cursor ends between a and b after two
    // lefts and one right... a c b? cursor: after lefts at 0, right at 1,
    // insert c at 1.
    let mut console = Console::new();
    let mut t = MemTransport::new(vec![
        b'a', b'b', 0x1b, 0x5b, 0x44, 0x1b, 0x5b, 0x44, 0x1b, 0x5b, 0x43, b'c', 0x0a,
    ]);
    let line = console.wait_for_input(&mut t).expect("line entered");
    assert_eq!(line.as_slice(), b"acb");
}

#[test]
fn overflow_returns_none() {
    // Sixteen characters fill the buffer; the seventeenth overflows.
    let mut input: Vec<u8> = Vec::new();
    for _ in 0..17 {
        input.push(b'a');
    }
    input.push(0x0a);
    let mut console = Console::new();
    let mut t = MemTransport::new(input);
    assert!(console.wait_for_input(&mut t).is_none());
}

#[test]
fn sixteen_characters_fit() {
    let mut input: Vec<u8> = Vec::new();
    for _ in 0..16 {
        input.push(b'a');
    }
    input.push(0x0a);
    let mut console = Console::new();
    let mut t = MemTransport::new(input);
    let line = console.wait_for_input(&mut t).expect("line entered");
    assert_eq!(line.len(), 16);
}

#[test]
fn unknown_bytes_ignored() {
    // 0x3a (':') sits in the gap the accepted ranges leave out.
    let mut console = Console::new();
    let mut t = MemTransport::new(vec![0x3a, b'o', b'k', 0x0a]);
    let line = console.wait_for_input(&mut t).expect("line entered");
    assert_eq!(line.as_slice(), b"ok");
}

#[test]
fn nul_terminates() {
    let mut console = Console::new();
    let mut t = MemTransport::new(vec![b'z', 0x00]);
    let line = console.wait_for_input(&mut t).expect("line entered");
    assert_eq!(line.as_slice(), b"z");
}

#[test]
fn exhausted_stream_returns_none() {
    let mut console = Console::new();
    let mut t = MemTransport::new(vec![b'a']);
    assert!(console.wait_for_input(&mut t).is_none());
}
