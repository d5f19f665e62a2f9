use oxide::{extract_all, Cursor, Machine, MachineState, Span, StringMachine};

fn extract_strings(input: &str) -> Vec<&str> {
    let mut machine = StringMachine::default();
    let bytes = input.as_bytes();
    extract_all(&mut machine, bytes)
        .iter()
        .map(|span| std::str::from_utf8(span.slice(bytes).unwrap()).unwrap())
        .collect()
}

fn next_at(input: &[u8], pos: usize) -> (MachineState, usize) {
    let mut machine = StringMachine::default();
    let mut cursor = Cursor::new(input);
    cursor.move_to(pos);
    let state = machine.next(&mut cursor);
    (state, cursor.pos())
}

#[test]
fn test_string_machine_extraction() {
    for (input, expected) in [
        // Simple string
        ("'foo'", vec!["'foo'"]),
        // String as part of a candidate
        ("content-['hello_world']", vec!["'hello_world'"]),
        // With nested quotes
        (r#"'"`hello`"'"#, vec![r#"'"`hello`"'"#]),
        // With escaped opening quote
        (r#"'Tailwind\'s_parser'"#, vec![r#"'Tailwind\'s_parser'"#]),
        (
            r#"'Tailwind\'\'s_parser'"#,
            vec![r#"'Tailwind\'\'s_parser'"#],
        ),
        (
            r#"'Tailwind\'\'\'s_parser'"#,
            vec![r#"'Tailwind\'\'\'s_parser'"#],
        ),
        (
            r#"'Tailwind\'\'\'\'s_parser'"#,
            vec![r#"'Tailwind\'\'\'\'s_parser'"#],
        ),
        // Spaces are not allowed
        ("' hello world '", vec![]),
        // With unfinished quote
        ("'unfinished_quote", vec![]),
        // An escape at the end will never be valid, because it _must_ be followed by the
        // ending quote.
        (r#"'escaped_ending_quote\'"#, vec![]),
        (r#"'escaped_end\"#, vec![]),
    ] {
        assert_eq!(extract_strings(input), expected);
    }
}

#[test]
fn simple_string_is_one_match() {
    assert_eq!(extract_strings("'foo'"), vec!["'foo'"]);
    assert_eq!(
        next_at(b"'foo'", 0),
        (MachineState::Done(Span { start: 0, end: 4 }), 4)
    );
}

#[test]
fn string_inside_a_candidate() {
    assert_eq!(extract_strings("content-['hello_world']"), vec!["'hello_world'"]);
    assert_eq!(
        next_at(b"content-['hello_world']", 9),
        (MachineState::Done(Span { start: 9, end: 21 }), 21)
    );
}

#[test]
fn nested_quotes_are_one_match() {
    assert_eq!(extract_strings("'\"`hello`\"'"), vec!["'\"`hello`\"'"]);
}

#[test]
fn escaped_quotes_do_not_close() {
    assert_eq!(extract_strings("'Tailwind\\'s_parser'"), vec!["'Tailwind\\'s_parser'"]);
    assert_eq!(extract_strings("'Tailwind\\'\\'s_parser'"), vec!["'Tailwind\\'\\'s_parser'"]);
    assert_eq!(
        next_at(b"'a\\'b'", 0),
        (MachineState::Done(Span { start: 0, end: 5 }), 5)
    );
}

#[test]
fn raw_whitespace_invalidates() {
    assert_eq!(extract_strings("' hello world '"), Vec::<&str>::new());
    for ws in [b' ', b'\t', b'\n', b'\r', 0x0c] {
        let input = [b'"', b'a', ws, b'b', b'"'];
        assert_eq!(next_at(&input, 0), (MachineState::Idle, 2));
    }
}

#[test]
fn unfinished_quote_is_no_match() {
    assert_eq!(extract_strings("'unfinished_quote"), Vec::<&str>::new());
    assert_eq!(next_at(b"'unfinished_quote", 0), (MachineState::Idle, 17));
}

#[test]
fn escaped_ending_quote_is_no_match() {
    assert_eq!(extract_strings("'escaped_ending_quote\\'"), Vec::<&str>::new());
    assert_eq!(next_at(b"'abc\\'", 0), (MachineState::Idle, 6));
}

#[test]
fn dangling_escape_stays_inside_the_buffer() {
    assert_eq!(extract_strings("'escaped_end\\"), Vec::<&str>::new());
    assert_eq!(next_at(b"'escaped_end\\", 0), (MachineState::Idle, 13));
    assert_eq!(next_at(b"'\\", 0), (MachineState::Idle, 2));
}

#[test]
fn escaped_whitespace_invalidates() {
    assert_eq!(extract_strings("'a\\ b'"), Vec::<&str>::new());
    assert_eq!(next_at(b"'a\\ b'", 0), (MachineState::Idle, 2));
    assert_eq!(next_at(b"'a\\\nb'", 0), (MachineState::Idle, 2));
}

#[test]
fn escaped_escape_lets_the_quote_close() {
    assert_eq!(
        next_at(b"'a\\\\'b'", 0),
        (MachineState::Done(Span { start: 0, end: 4 }), 4)
    );
    assert_eq!(extract_strings("'a\\\\'b'"), vec!["'a\\\\'"]);
}

#[test]
fn no_quote_under_the_cursor_leaves_it_alone() {
    assert_eq!(next_at(b"abc'd'", 0), (MachineState::Idle, 0));
    assert_eq!(next_at(b"abc'd'", 1), (MachineState::Idle, 1));
    assert_eq!(next_at(b"\\'d'", 0), (MachineState::Idle, 0));
    assert_eq!(next_at(b" 'd'", 0), (MachineState::Idle, 0));
}

#[test]
fn empty_and_single_byte_inputs() {
    assert_eq!(next_at(b"", 0), (MachineState::Idle, 0));
    assert_eq!(next_at(b"'", 0), (MachineState::Idle, 1));
    assert_eq!(next_at(b"'", 1), (MachineState::Idle, 1));
    assert_eq!(next_at(b"\\", 0), (MachineState::Idle, 0));
    assert_eq!(extract_strings(""), Vec::<&str>::new());
    assert_eq!(extract_strings("'"), Vec::<&str>::new());
    assert_eq!(extract_strings("\\"), Vec::<&str>::new());
}

#[test]
fn empty_literal_matches() {
    assert_eq!(
        next_at(b"''", 0),
        (MachineState::Done(Span { start: 0, end: 1 }), 1)
    );
    assert_eq!(extract_strings("\"\""), vec!["\"\""]);
}

#[test]
fn each_quote_kind_opens_and_closes() {
    assert_eq!(extract_strings("\"double\""), vec!["\"double\""]);
    assert_eq!(extract_strings("`tick`"), vec!["`tick`"]);
    assert_eq!(extract_strings("'single'"), vec!["'single'"]);
}

#[test]
fn only_the_opening_quote_closes() {
    assert_eq!(extract_strings("'a\"b'"), vec!["'a\"b'"]);
    assert_eq!(extract_strings("'a\"b\"c'"), vec!["'a\"b\"c'"]);
    assert_eq!(
        next_at(b"\"a'b\"", 0),
        (MachineState::Done(Span { start: 0, end: 4 }), 4)
    );
    assert_eq!(next_at(b"'a\"b", 0), (MachineState::Idle, 4));
}

#[test]
fn walk_goes_on_behind_a_failed_attempt() {
    // The attempt at the first quote gives up on the space; the walk takes
    // up again behind it and finds the literal that the third quote opens.
    assert_eq!(extract_strings("'a b'c'"), vec!["'c'"]);
    assert_eq!(extract_strings("'a'b'c'"), vec!["'a'", "'c'"]);
    assert_eq!(extract_strings("x'a' 'b'y"), vec!["'a'", "'b'"]);
}

#[test]
fn walk_reports_spans_in_order() {
    let mut machine = StringMachine::default();
    let spans = extract_all(&mut machine, b"a 'b' \"c d\" `e`");
    assert_eq!(
        spans,
        vec![Span { start: 2, end: 4 }, Span { start: 12, end: 14 }]
    );
}

#[test]
fn every_offset_of_every_sample_is_handled() {
    let samples: [&[u8]; 10] = [
        b"",
        b"'",
        b"\\",
        b"''",
        b"'\\",
        b"'\\'",
        b"'a\\'b' \"c\"",
        b"content-['hello_world']",
        b"'\t'",
        b"`a`b`c`\\",
    ];
    for input in samples {
        for pos in 0..=input.len() {
            let (state, rest) = next_at(input, pos);
            assert!(pos <= rest && rest <= input.len());
            match state {
                MachineState::Idle => {}
                MachineState::Done(span) => {
                    assert_eq!(span.start, pos);
                    assert_eq!(span.end, rest);
                    assert!(span.start < span.end && span.end < input.len());
                }
            }
        }
    }
}

#[test]
fn matches_are_delimited_by_one_quote() {
    let input = b"'a' \"b\" `c` 'd\\'e' \"f'g\"";
    let mut machine = StringMachine::default();
    let spans = extract_all(&mut machine, input);
    assert_eq!(spans.len(), 5);
    for span in spans {
        let first = input[span.start];
        let last = input[span.end];
        assert_eq!(first, last);
        assert!(first == b'\'' || first == b'"' || first == b'`');
    }
}

#[test]
fn matches_hold_no_whitespace() {
    let input = b"'a' 'b c' \"d\te\" `f` 'g\\ h' 'i\\nj'";
    let mut machine = StringMachine::default();
    let spans = extract_all(&mut machine, input);
    assert!(!spans.is_empty());
    for span in spans {
        for byte in &input[span.start + 1..span.end] {
            assert!(!matches!(*byte, b' ' | b'\t' | b'\n' | b'\r' | 0x0c));
        }
    }
}

#[test]
fn match_ends_on_first_unescaped_quote() {
    let input = b"'a\\'b'c'";
    assert_eq!(
        next_at(input, 0),
        (MachineState::Done(Span { start: 0, end: 5 }), 5)
    );
    assert_eq!(input[3], b'\'');
    assert_eq!(input[2], b'\\');
}

#[test]
fn rescan_gives_the_same_result() {
    let input = b"x'a\\'b' 'c d' \"e\"";
    let mut machine = StringMachine::default();
    for pos in 0..=input.len() {
        machine.reset();
        let mut first_cursor = Cursor::new(input);
        first_cursor.move_to(pos);
        let first = machine.next(&mut first_cursor);
        machine.reset();
        let mut second_cursor = Cursor::new(input);
        second_cursor.move_to(pos);
        let second = machine.next(&mut second_cursor);
        assert_eq!(first, second);
        assert_eq!(first_cursor.pos(), second_cursor.pos());
    }
    let mut other = StringMachine::default();
    assert_eq!(extract_all(&mut machine, input), extract_all(&mut other, input));
}

#[test]
fn done_reports_start_and_cursor() {
    let machine = StringMachine::default();
    let mut cursor = Cursor::new(b"abcdef");
    cursor.move_to(4);
    assert_eq!(
        machine.done(1, &cursor),
        MachineState::Done(Span { start: 1, end: 4 })
    );
}

fn is_whitespace(byte: u8) -> bool {
    matches!(byte, b' ' | b'\t' | b'\n' | b'\r' | 0x0c)
}

fn is_escaped(input: &[u8], start: usize, i: usize) -> bool {
    start + 1 < i && i <= input.len() && input[i - 1] == b'\\' && !is_escaped(input, start, i - 1)
}

fn is_literal(input: &[u8], start: usize, end: usize) -> bool {
    start < end
        && end < input.len()
        && matches!(input[start], b'\'' | b'"' | b'`')
        && input[end] == input[start]
        && !is_escaped(input, start, end)
        && (start + 1..end).all(|i| !is_whitespace(input[i]))
        && (start + 1..end).all(|i| input[i] != input[start] || is_escaped(input, start, i))
}

#[test]
fn machine_reports_exactly_the_literals() {
    let alphabet = [b'\'', b'"', b'\\', b' ', b'a'];
    for len in 0..=6usize {
        let mut digits = vec![0usize; len];
        loop {
            let input: Vec<u8> = digits.iter().map(|d| alphabet[*d]).collect();
            for pos in 0..=len {
                let ends: Vec<usize> = (0..len).filter(|end| is_literal(&input, pos, *end)).collect();
                let (state, _) = next_at(&input, pos);
                match state {
                    MachineState::Done(span) => assert_eq!(ends, vec![span.end]),
                    MachineState::Idle => assert_eq!(ends, Vec::<usize>::new()),
                }
            }
            let mut i = 0;
            while i < len && digits[i] + 1 == alphabet.len() {
                digits[i] = 0;
                i += 1;
            }
            if i == len {
                break;
            }
            digits[i] += 1;
        }
    }
}
