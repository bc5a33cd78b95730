use moostar::{fetch_identifier, MooError, MooErrorKind, MooInst, Runner};

fn instructions(source: &str) -> Vec<(MooInst, (usize, usize))> {
    match Runner::process(source) {
        Ok((program, _)) => program,
        Err(e) => panic!("{} is rejected: {}", source, e.message()),
    }
}

fn rejection(source: &str) -> MooErrorKind {
    match Runner::process(source) {
        Ok(_) => panic!("{} is accepted", source),
        Err(e) => e.kind(),
    }
}

#[test]
fn plus_compiles_to_increment_and_halt() {
    let (program, index) = Runner::process("+").unwrap();
    assert_eq!(program, vec![(MooInst::Plus, (0, 1)), (MooInst::Halt, (1, 1))]);
    assert!(index.is_empty());
}

#[test]
fn empty_source_compiles_to_halt_alone() {
    assert_eq!(instructions(""), vec![(MooInst::Halt, (0, 1))]);
}

#[test]
fn every_plain_instruction_has_its_character() {
    assert_eq!(
        instructions("+-><.,[]^"),
        vec![
            (MooInst::Plus, (0, 1)),
            (MooInst::Minus, (1, 1)),
            (MooInst::Right, (2, 1)),
            (MooInst::Left, (3, 1)),
            (MooInst::Out, (4, 1)),
            (MooInst::In, (5, 1)),
            (MooInst::OpenLoop, (6, 1)),
            (MooInst::CloseLoop, (7, 1)),
            (MooInst::MetaJump, (8, 1)),
            (MooInst::Halt, (9, 1)),
        ]
    );
}

#[test]
fn definition_and_calls_share_one_id() {
    let (program, index) = Runner::process("(double):{++}~double;~double;").unwrap();
    assert_eq!(
        program,
        vec![
            (MooInst::FuncStart(0), (0, 10)),
            (MooInst::Plus, (10, 1)),
            (MooInst::Plus, (11, 1)),
            (MooInst::FuncEnd(0), (12, 1)),
            (MooInst::Call(0), (13, 8)),
            (MooInst::Call(0), (21, 8)),
            (MooInst::Halt, (29, 1)),
        ]
    );
    assert_eq!(index.len(), 1);
    assert_eq!(index.get(&0), Some(&0));
}

#[test]
fn ids_follow_the_order_of_first_mention() {
    let (program, index) = Runner::process("~b;(a):{}(b):{}~a;").unwrap();
    let kinds: Vec<MooInst> = program.iter().map(|entry| entry.0).collect();
    assert_eq!(
        kinds,
        vec![
            MooInst::Call(0),
            MooInst::FuncStart(1),
            MooInst::FuncEnd(1),
            MooInst::FuncStart(0),
            MooInst::FuncEnd(0),
            MooInst::Call(1),
            MooInst::Halt,
        ]
    );
    assert_eq!(index.len(), 2);
    assert_eq!(index.get(&0), Some(&3));
    assert_eq!(index.get(&1), Some(&1));
}

#[test]
fn a_call_may_name_what_is_never_defined() {
    let (program, index) = Runner::process("~ghost;").unwrap();
    assert_eq!(program, vec![(MooInst::Call(0), (0, 7)), (MooInst::Halt, (7, 1))]);
    assert!(index.is_empty());
}

#[test]
fn a_later_definition_of_a_name_replaces_the_earlier() {
    let (_, index) = Runner::process("(f):{+}(f):{-}").unwrap();
    assert_eq!(index.len(), 1);
    assert_eq!(index.get(&0), Some(&3));
}

#[test]
fn white_space_around_a_name_belongs_to_the_span_not_to_the_name() {
    let (program, index) = Runner::process("( f ):{}~\tf\n;").unwrap();
    assert_eq!(
        program,
        vec![
            (MooInst::FuncStart(0), (0, 7)),
            (MooInst::FuncEnd(0), (7, 1)),
            (MooInst::Call(0), (8, 5)),
            (MooInst::Halt, (13, 1)),
        ]
    );
    assert_eq!(index.len(), 1);
}

#[test]
fn white_space_beyond_ascii_is_passed_over() {
    // U+2003 EM SPACE takes three bytes, U+00A0 NO-BREAK SPACE two.
    let source = "(\u{2003}f\u{a0}):{}";
    let program = instructions(source);
    assert_eq!(
        program,
        vec![
            (MooInst::FuncStart(0), (0, 10)),
            (MooInst::FuncEnd(0), (10, 1)),
            (MooInst::Halt, (11, 1)),
        ]
    );
    assert_eq!(source.len(), 11);
}

#[test]
fn a_letter_beyond_ascii_is_no_white_space() {
    assert_eq!(rejection("(\u{e9}f):{}"), MooErrorKind::IdentifierNotLowercase);
    assert_eq!(rejection("~f\u{e9};"), MooErrorKind::ExpectedSemicolon);
}

#[test]
fn other_characters_are_literals() {
    assert_eq!(
        instructions("a) :{;"),
        vec![
            (MooInst::Nop('a'), (0, 1)),
            (MooInst::Nop(')'), (1, 1)),
            (MooInst::Nop(' '), (2, 1)),
            (MooInst::Nop(':'), (3, 1)),
            (MooInst::Nop('{'), (4, 1)),
            (MooInst::Nop(';'), (5, 1)),
            (MooInst::Halt, (6, 1)),
        ]
    );
}

#[test]
fn the_span_of_a_literal_cuts_it_out_of_the_source() {
    let source = "a+\u{e9}-\u{20ac}\u{1f404}!";
    let program = instructions(source);
    let mut literals = 0;
    for (inst, (offset, length)) in program {
        if let MooInst::Nop(c) = inst {
            assert_eq!(&source[offset..offset + length], c.to_string());
            literals += 1;
        }
    }
    assert_eq!(literals, 5);
}

#[test]
fn spans_count_bytes() {
    assert_eq!(
        instructions("\u{e9}+\u{20ac}\u{1f404}-"),
        vec![
            (MooInst::Nop('\u{e9}'), (0, 2)),
            (MooInst::Plus, (2, 1)),
            (MooInst::Nop('\u{20ac}'), (3, 3)),
            (MooInst::Nop('\u{1f404}'), (6, 4)),
            (MooInst::Minus, (10, 1)),
            (MooInst::Halt, (11, 1)),
        ]
    );
}

#[test]
fn identifier_must_start_lowercase() {
    assert_eq!(rejection("(Double):{}"), MooErrorKind::IdentifierNotLowercase);
    assert_eq!(rejection("~9;"), MooErrorKind::IdentifierNotLowercase);
    assert_eq!(rejection("(_a):{}"), MooErrorKind::IdentifierNotLowercase);
    assert_eq!(rejection("~;"), MooErrorKind::IdentifierNotLowercase);
}

#[test]
fn identifier_must_not_be_cut_off_by_the_end() {
    assert_eq!(rejection("("), MooErrorKind::EmptyIdentifier);
    assert_eq!(rejection("~  \n"), MooErrorKind::EmptyIdentifier);
}

#[test]
fn definitions_do_not_nest() {
    assert_eq!(rejection("(a):{(b):{}}"), MooErrorKind::NestedDefinition);
    // The check for nesting comes before the header is read.
    assert_eq!(rejection("(a):{(B"), MooErrorKind::NestedDefinition);
}

#[test]
fn header_needs_its_three_marks() {
    assert_eq!(rejection("(a:{}"), MooErrorKind::ExpectedCloseParen);
    assert_eq!(rejection("(a"), MooErrorKind::ExpectedCloseParen);
    assert_eq!(rejection("(a){}"), MooErrorKind::ExpectedColon);
    assert_eq!(rejection("(a)"), MooErrorKind::ExpectedColon);
    assert_eq!(rejection("(a):+"), MooErrorKind::ExpectedOpenBrace);
    assert_eq!(rejection("(a):"), MooErrorKind::ExpectedOpenBrace);
    assert_eq!(rejection("(a) :{}"), MooErrorKind::ExpectedColon);
}

#[test]
fn stray_closing_brace_is_rejected() {
    assert_eq!(rejection("}"), MooErrorKind::UnknownDefinitionEnd);
    assert_eq!(rejection("(a):{}}"), MooErrorKind::UnknownDefinitionEnd);
}

#[test]
fn call_needs_its_semicolon() {
    assert_eq!(rejection("~a"), MooErrorKind::ExpectedSemicolon);
    assert_eq!(rejection("~a b;"), MooErrorKind::ExpectedSemicolon);
}

#[test]
fn definition_must_be_closed() {
    assert_eq!(rejection("(a):{+"), MooErrorKind::UnclosedDefinition);
}

#[test]
fn a_rejected_source_gives_no_runner() {
    assert!(Runner::new("+}").is_err());
    assert_eq!(Runner::new("+}").err().map(|e| e.kind()), Some(MooErrorKind::UnknownDefinitionEnd));
}

#[test]
fn fetch_identifier_reads_name_and_counts_what_it_read() {
    let chars: Vec<char> = "( foo_1 ):{".chars().collect();
    let (name, eaten) = fetch_identifier(&chars, 1).ok().unwrap();
    assert_eq!(name, "foo_1");
    assert_eq!(eaten, 7);
    let (name, eaten) = fetch_identifier(&chars, 2).ok().unwrap();
    assert_eq!(name, "foo_1");
    assert_eq!(eaten, 6);
}

#[test]
fn fetch_identifier_stops_at_what_a_name_cannot_hold() {
    let chars: Vec<char> = "ab-c".chars().collect();
    let (name, eaten) = fetch_identifier(&chars, 0).ok().unwrap();
    assert_eq!(name, "ab");
    assert_eq!(eaten, 2);
}

#[test]
fn fetch_identifier_reports_what_is_wrong() {
    let chars: Vec<char> = " X ".chars().collect();
    assert_eq!(
        fetch_identifier(&chars, 0).err().map(|e| e.kind()),
        Some(MooErrorKind::IdentifierNotLowercase)
    );
    assert_eq!(
        fetch_identifier(&chars, 2).err().map(|e| e.kind()),
        Some(MooErrorKind::EmptyIdentifier)
    );
    assert_eq!(
        fetch_identifier(&chars, 3).err().map(|e| e.kind()),
        Some(MooErrorKind::EmptyIdentifier)
    );
}

#[test]
fn every_error_has_its_message() {
    let expected = [
        (MooErrorKind::IdentifierNotLowercase, "First character in identifier is not lowercase"),
        (MooErrorKind::EmptyIdentifier, "Empty identifier"),
        (MooErrorKind::NestedDefinition, "Re-opening definition in one another"),
        (MooErrorKind::ExpectedCloseParen, "Expected ')' after function declaration header"),
        (MooErrorKind::ExpectedColon, "Expected ':' after function declaration header"),
        (MooErrorKind::ExpectedOpenBrace, "Expected '{' after function declaration header"),
        (MooErrorKind::UnknownDefinitionEnd, "Ended an unknown function definition"),
        (MooErrorKind::ExpectedSemicolon, "Expected ';' after function call identifier"),
        (MooErrorKind::UnclosedDefinition, "Function definition is never closed"),
    ];
    for (kind, text) in expected {
        let error = MooError::new(kind);
        assert_eq!(error.kind(), kind);
        assert_eq!(error.message(), text);
    }
}
