use potty::osc133::{Scanner, CAP};

#[test]
fn reports_exit_code_after_exec() {
    let mut s = Scanner::default();
    assert_eq!(
        s.scan(b"\x1b]133;C\x07make: error\r\n\x1b]133;D;2\x07"),
        [2]
    );
}

#[test]
fn st_terminator_works() {
    let mut s = Scanner::default();
    assert_eq!(s.scan(b"\x1b]133;C\x1b\\\x1b]133;D;1\x1b\\"), [1]);
}

#[test]
fn d_without_preceding_c_is_ignored() {
    // Shell startup: the first precmd fires D before any command ran.
    let mut s = Scanner::default();
    assert!(s.scan(b"\x1b]133;D;0\x07\x1b]133;A\x07").is_empty());
}

#[test]
fn kitty_style_marks_with_extra_params() {
    // kitty's integration decorates its marks (`A;cl=m;aid=…`, `C;`, `D;1;aid=…`) —
    // the code is the first field, the rest must be ignored.
    let mut s = Scanner::default();
    assert_eq!(
        s.scan(b"\x1b]133;A;cl=m;aid=42\x07\x1b]133;C;\x07\x1b]133;D;1;aid=42\x07"),
        [1]
    );
}

#[test]
fn d_without_code_reads_as_zero() {
    let mut s = Scanner::default();
    assert_eq!(s.scan(b"\x1b]133;C\x07\x1b]133;D\x07"), [0]);
}

#[test]
fn sequences_split_across_chunks() {
    let mut s = Scanner::default();
    let stream = b"\x1b]133;C\x07out\x1b]133;D;130\x07";
    let mut got = Vec::new();
    for chunk in stream.chunks(3) {
        got.extend(s.scan(chunk));
    }
    assert_eq!(got, [130]);
}

#[test]
fn multiple_commands_in_one_chunk() {
    let mut s = Scanner::default();
    assert_eq!(
        s.scan(b"\x1b]133;C\x07\x1b]133;D;1\x07\x1b]133;C\x07\x1b]133;D;0\x07"),
        [1, 0]
    );
}

#[test]
fn other_oscs_are_ignored() {
    let mut s = Scanner::default();
    assert_eq!(
        s.scan(b"\x1b]2;title\x07\x1b]133;C\x07\x1b]133;D;7\x07"),
        [7]
    );
}

#[test]
fn oversized_osc_is_skipped_without_confusion() {
    let mut s = Scanner::default();
    let mut stream = b"\x1b]52;c;".to_vec();
    stream.extend(std::iter::repeat_n(b'Q', 4096));
    stream.extend(b"\x07\x1b]133;C\x07\x1b]133;D;3\x07");
    assert_eq!(s.scan(&stream), [3]);
}

#[test]
fn prompt_mark_resets_a_lost_command() {
    // C … (D lost) … A, then a D from the next precmd must not fire.
    let mut s = Scanner::default();
    assert!(
        s.scan(b"\x1b]133;C\x07\x1b]133;A\x07\x1b]133;D;0\x07")
            .is_empty()
    );
}

#[test]
fn aborted_osc_does_not_eat_following_sequences() {
    // ESC inside the OSC followed by something that isn't ST aborts it; the next
    // sequence must still parse.
    let mut s = Scanner::default();
    assert_eq!(s.scan(b"\x1b]0;tit\x1b]133;C\x07\x1b]133;D;9\x07"), [9]);
}

#[test]
fn a_code_that_is_no_number_reads_as_zero() {
    let mut s = Scanner::default();
    assert_eq!(s.scan(b"\x1b]133;C\x07\x1b]133;D;oops\x07"), [0]);
    assert_eq!(s.scan(b"\x1b]133;C\x07\x1b]133;D; -1 \x07"), [-1]);
    assert_eq!(s.scan(b"\x1b]133;C\x07\x1b]133;D;4294967296\x07"), [0]);
    assert_eq!(s.scan(b"\x1b]133;C\x07\x1b]133;D;\xff\x07"), [0]);
}

#[test]
fn every_cut_of_a_stream_reports_the_same() {
    let stream = b"x\x1b]133;C\x1b\\\x1b]0;t\x07\x1b]133;D;12\x1b\\\x1b]133;C\x07\x1b]133;D\x07";
    let mut whole = Scanner::default();
    let all = whole.scan(stream);
    assert_eq!(all, [12, 0]);
    for cut in 0..stream.len() {
        let mut s = Scanner::default();
        let mut got = s.scan(&stream[..cut]);
        got.extend(s.scan(&stream[cut..]));
        assert_eq!(got, all);
        assert_eq!(s, whole);
    }
}

#[test]
fn a_payload_of_the_whole_buffer_still_fits() {
    let mut s = Scanner::default();
    let mut fits = b"\x1b]133;C;".to_vec();
    fits.extend(vec![b'x'; CAP - 6]);
    fits.extend(b"\x07\x1b]133;D;5\x07");
    assert_eq!(s.scan(&fits), [5]);
    let mut long = b"\x1b]133;C;".to_vec();
    long.extend(vec![b'x'; CAP - 5]);
    long.extend(b"\x07\x1b]133;D;5\x07");
    assert!(s.scan(&long).is_empty());
}

#[test]
fn plain_output_reports_nothing() {
    let mut s = Scanner::default();
    assert!(s.scan(b"hello 133;C ]133;D;1\x07").is_empty());
    assert_eq!(s, Scanner::default());
}

#[test]
fn only_marks_of_the_stream_count() {
    let mut s = Scanner::default();
    let long = vec![b'x'; CAP + 1];
    let mut stream = b"\x1b]133;D;9\x07plain\x1b]133;C\x1b\\".to_vec();
    stream.extend(b"\x1b]133;D;8\x1b]133;C\x07\x1b]133;D;7");
    stream.extend(long);
    stream.extend(b"\x07\x1b]0;title\x07\x1b]133;D;3\x07\x1b]133;D;4\x07\x1b]133;C\x07");
    stream.extend(b"\x1b]133;A\x07\x1b]133;D;5\x07\x1b]133;C\x07\x1b]133;D\x1b\\");
    assert_eq!(s.scan(&stream), [3, 0]);
}
