use proposal_bot::command::{recognize, Command, CommandKind, ParseError};

#[test]
fn submit_takes_the_rest_of_the_line() {
    assert_eq!(
        Command::parse_line("submit Build a park"),
        Ok(Command::Submit("Build a park".to_string()))
    );
}

#[test]
fn submit_keeps_blanks_in_the_text() {
    assert_eq!(
        Command::parse_line("submit   two  spaces "),
        Ok(Command::Submit("  two  spaces ".to_string()))
    );
}

#[test]
fn submit_without_text_is_an_empty_proposal() {
    assert_eq!(Command::parse_line("submit"), Ok(Command::Submit(String::new())));
    assert_eq!(Command::parse_line("submit "), Ok(Command::Submit(String::new())));
}

#[test]
fn submit_keeps_text_beyond_ascii() {
    assert_eq!(
        Command::parse_line("submit Caf\u{e9} \u{2014} \u{1f333}"),
        Ok(Command::Submit("Caf\u{e9} \u{2014} \u{1f333}".to_string()))
    );
}

#[test]
fn tokens_match_without_regard_to_case() {
    assert_eq!(Command::parse_line("VIEW"), Ok(Command::View));
    assert_eq!(Command::parse_line("Help"), Ok(Command::Help));
    assert_eq!(Command::parse_line("VoTe 12"), Ok(Command::Vote { id: 12 }));
    assert_eq!(Command::parse_line("SUBMIT Keep Case"), Ok(Command::Submit("Keep Case".to_string())));
}

#[test]
fn view_and_help_pass_over_an_argument() {
    assert_eq!(Command::parse_line("view all of them"), Ok(Command::View));
    assert_eq!(Command::parse_line("help me"), Ok(Command::Help));
}

#[test]
fn vote_reads_signed_integers() {
    assert_eq!(Command::parse_line("vote 7"), Ok(Command::Vote { id: 7 }));
    assert_eq!(Command::parse_line("vote +7"), Ok(Command::Vote { id: 7 }));
    assert_eq!(Command::parse_line("vote -7"), Ok(Command::Vote { id: -7 }));
    assert_eq!(Command::parse_line("vote 007"), Ok(Command::Vote { id: 7 }));
    assert_eq!(Command::parse_line("vote 0"), Ok(Command::Vote { id: 0 }));
    assert_eq!(Command::parse_line("vote -0"), Ok(Command::Vote { id: 0 }));
}

#[test]
fn vote_reads_the_ends_of_the_range() {
    assert_eq!(Command::parse_line("vote 2147483647"), Ok(Command::Vote { id: i32::MAX }));
    assert_eq!(Command::parse_line("vote -2147483648"), Ok(Command::Vote { id: i32::MIN }));
    assert_eq!(
        Command::parse_line("vote 00000000000000000000002147483647"),
        Ok(Command::Vote { id: i32::MAX })
    );
}

#[test]
fn vote_rejects_what_does_not_fit() {
    assert_eq!(
        Command::parse_line("vote 2147483648"),
        Err(ParseError::InvalidId("2147483648".to_string()))
    );
    assert_eq!(
        Command::parse_line("vote -2147483649"),
        Err(ParseError::InvalidId("-2147483649".to_string()))
    );
    assert_eq!(
        Command::parse_line("vote 99999999999999999999999999"),
        Err(ParseError::InvalidId("99999999999999999999999999".to_string()))
    );
}

#[test]
fn vote_rejects_what_is_no_integer() {
    assert_eq!(Command::parse_line("vote abc"), Err(ParseError::InvalidId("abc".to_string())));
    assert_eq!(Command::parse_line("vote"), Err(ParseError::InvalidId(String::new())));
    assert_eq!(Command::parse_line("vote "), Err(ParseError::InvalidId(String::new())));
    assert_eq!(Command::parse_line("vote  5"), Err(ParseError::InvalidId(" 5".to_string())));
    assert_eq!(Command::parse_line("vote 5 "), Err(ParseError::InvalidId("5 ".to_string())));
    assert_eq!(Command::parse_line("vote 1 2"), Err(ParseError::InvalidId("1 2".to_string())));
    assert_eq!(Command::parse_line("vote +"), Err(ParseError::InvalidId("+".to_string())));
    assert_eq!(Command::parse_line("vote -"), Err(ParseError::InvalidId("-".to_string())));
    assert_eq!(Command::parse_line("vote --1"), Err(ParseError::InvalidId("--1".to_string())));
    assert_eq!(Command::parse_line("vote 1.5"), Err(ParseError::InvalidId("1.5".to_string())));
    assert_eq!(
        Command::parse_line("vote \u{664}\u{662}"),
        Err(ParseError::InvalidId("\u{664}\u{662}".to_string()))
    );
}

#[test]
fn unknown_tokens_are_kept_as_typed() {
    assert_eq!(
        Command::parse_line("Delete 3"),
        Err(ParseError::UnknownCommand("Delete".to_string()))
    );
    assert_eq!(Command::parse_line(""), Err(ParseError::UnknownCommand(String::new())));
    assert_eq!(Command::parse_line(" view"), Err(ParseError::UnknownCommand(String::new())));
    assert_eq!(
        Command::parse_line("submit\ttext"),
        Err(ParseError::UnknownCommand("submit\ttext".to_string()))
    );
    assert_eq!(
        Command::parse_line("/submit text"),
        Err(ParseError::UnknownCommand("/submit".to_string()))
    );
    assert_eq!(Command::parse_line("votes 1"), Err(ParseError::UnknownCommand("votes".to_string())));
}

#[test]
fn only_ascii_letters_are_folded() {
    // U+212A, the Kelvin sign, is not the letter K.
    assert_eq!(recognize("\u{212a}"), None);
    assert_eq!(
        Command::parse_line("\u{17f}ubmit x"),
        Err(ParseError::UnknownCommand("\u{17f}ubmit".to_string()))
    );
}

#[test]
fn parse_takes_token_and_argument_apart() {
    assert_eq!(Command::parse("submit", "a b"), Ok(Command::Submit("a b".to_string())));
    assert_eq!(Command::parse("vote", "41"), Ok(Command::Vote { id: 41 }));
    assert_eq!(Command::parse("vote", "x"), Err(ParseError::InvalidId("x".to_string())));
    assert_eq!(Command::parse("view", ""), Ok(Command::View));
    assert_eq!(Command::parse("help", ""), Ok(Command::Help));
    assert_eq!(Command::parse("nope", "1"), Err(ParseError::UnknownCommand("nope".to_string())));
}

#[test]
fn the_table_lists_four_commands() {
    assert_eq!(
        CommandKind::all(),
        vec![CommandKind::Submit, CommandKind::View, CommandKind::Vote, CommandKind::Help]
    );
    let mut names = Vec::new();
    for kind in CommandKind::all() {
        assert!(!kind.description().is_empty());
        assert_eq!(recognize(kind.name()), Some(kind));
        assert_eq!(recognize(&kind.name().to_uppercase()), Some(kind));
        names.push(kind.name());
    }
    assert_eq!(names, vec!["submit", "view", "vote", "help"]);
}
