//! The command language: the table of commands, the parser and the help text.

use crate::text::{
    chars_of, decimal, eq_ignore_case, lemma_parse_decimal, lower, parse_i32, parse_int,
};
use teloxide::utils::command::{CommandDescription, CommandDescriptions};
use vstd::prelude::*;

verus! {

/// One entry of the command table.
#[derive(Clone, Copy, PartialEq, Eq, Structural, Debug)]
pub enum CommandKind {
    Submit,
    View,
    Vote,
    Help,
}

impl CommandKind {
    /// The word that selects this command, in lower case.
    pub open spec fn spec_name(self) -> Seq<char> {
        match self {
            CommandKind::Submit => "submit"@,
            CommandKind::View => "view"@,
            CommandKind::Vote => "vote"@,
            CommandKind::Help => "help"@,
        }
    }

    /// The one-line description shown in the help text.
    pub open spec fn spec_description(self) -> Seq<char> {
        match self {
            CommandKind::Submit => "Submit a new proposal"@,
            CommandKind::View => "View all proposals"@,
            CommandKind::Vote => "Vote for a proposal"@,
            CommandKind::Help => "Show help"@,
        }
    }

    /// The command table, in the order in which the help text lists it.
    pub open spec fn table() -> Seq<CommandKind> {
        seq![CommandKind::Submit, CommandKind::View, CommandKind::Vote, CommandKind::Help]
    }

    /// The word that selects this command.
    pub fn name(self) -> (r: &'static str)
        ensures
            r@ == self.spec_name(),
    {
        match self {
            CommandKind::Submit => "submit",
            CommandKind::View => "view",
            CommandKind::Vote => "vote",
            CommandKind::Help => "help",
        }
    }

    /// The one-line description of this command.
    pub fn description(self) -> (r: &'static str)
        ensures
            r@ == self.spec_description(),
    {
        match self {
            CommandKind::Submit => "Submit a new proposal",
            CommandKind::View => "View all proposals",
            CommandKind::Vote => "Vote for a proposal",
            CommandKind::Help => "Show help",
        }
    }

    /// The command table.
    pub fn all() -> (r: Vec<CommandKind>)
        ensures
            r@ == Self::table(),
    {
        let mut r: Vec<CommandKind> = Vec::new();
        r.push(CommandKind::Submit);
        r.push(CommandKind::View);
        r.push(CommandKind::Vote);
        r.push(CommandKind::Help);
        assert(r@ =~= Self::table());
        r
    }
}

/// The first entry of `kinds` whose name is `name`, if there is one.
pub open spec fn first_named(kinds: Seq<CommandKind>, name: Seq<char>) -> Option<CommandKind>
    decreases kinds.len(),
{
    if kinds.len() == 0 {
        None
    } else if kinds[0].spec_name() == name {
        Some(kinds[0])
    } else {
        first_named(kinds.skip(1), name)
    }
}

/// The command that a token selects: the table entry whose name is the token
/// folded to lower case.
pub open spec fn kind_of(token: Seq<char>) -> Option<CommandKind> {
    first_named(CommandKind::table(), lower(token))
}

/// Every command name is already in lower case, is not empty, has no blank in
/// it, and its description is not empty.
pub proof fn lemma_names_plain(kind: CommandKind)
    ensures
        lower(kind.spec_name()) == kind.spec_name(),
        kind.spec_name().len() > 0,
        !kind.spec_name().contains(' '),
        kind.spec_description().len() > 0,
{
    reveal_strlit("submit");
    reveal_strlit("view");
    reveal_strlit("vote");
    reveal_strlit("help");
    reveal_strlit("Submit a new proposal");
    reveal_strlit("View all proposals");
    reveal_strlit("Vote for a proposal");
    reveal_strlit("Show help");
    assert(lower(kind.spec_name()) =~= kind.spec_name());
}

/// The table holds every command once, and no two commands share a name.
pub proof fn lemma_table_complete()
    ensures
        forall|kind: CommandKind| CommandKind::table().contains(kind),
        CommandKind::table().no_duplicates(),
        forall|a: CommandKind, b: CommandKind| a.spec_name() == b.spec_name() ==> a == b,
{
    let table = CommandKind::table();
    assert(table[0] == CommandKind::Submit);
    assert(table[1] == CommandKind::View);
    assert(table[2] == CommandKind::Vote);
    assert(table[3] == CommandKind::Help);
    reveal_strlit("submit");
    reveal_strlit("view");
    reveal_strlit("vote");
    reveal_strlit("help");
    assert forall|a: CommandKind, b: CommandKind| a.spec_name() == b.spec_name() implies a
        == b by {
        if a != b {
            assert(a.spec_name()[0] != b.spec_name()[0] || a.spec_name()[1] != b.spec_name()[1]);
        }
    }
}

/// A token selects a command exactly when, folded to lower case, it is that
/// command's name: the parser accepts what the table lists, and nothing else.
pub proof fn lemma_kind_of(token: Seq<char>, kind: CommandKind)
    ensures
        kind_of(token) == Some(kind) <==> lower(token) == kind.spec_name(),
{
    lemma_table_complete();
    let table = CommandKind::table();
    let name = lower(token);
    assert(table.skip(1).skip(1) =~= table.skip(2));
    assert(table.skip(2).skip(1) =~= table.skip(3));
    assert(table.skip(3).skip(1) =~= table.skip(4));
    assert(first_named(table.skip(4), name) is None);
    assert(table.skip(3)[0] == CommandKind::Help);
    assert(table.skip(2)[0] == CommandKind::Vote);
    assert(table.skip(1)[0] == CommandKind::View);
    assert(table[0] == CommandKind::Submit);
    reveal_with_fuel(first_named, 5);
}

/// Finds the command that a token selects, without regard to letter case.
pub fn recognize(token: &str) -> (r: Option<CommandKind>)
    ensures
        r == kind_of(token@),
{
    let typed = chars_of(token);
    let kinds = CommandKind::all();
    let mut i: usize = 0;
    assert(CommandKind::table().skip(0) =~= CommandKind::table());
    while i < kinds.len()
        invariant
            i <= kinds.len(),
            kinds@ == CommandKind::table(),
            typed@ == token@,
            kind_of(token@) == first_named(CommandKind::table().skip(i as int), lower(token@)),
        decreases kinds.len() - i,
    {
        let kind = kinds[i];
        let name = chars_of(kind.name());
        proof {
            lemma_names_plain(kind);
            assert(CommandKind::table().skip(i as int)[0] == kind);
            assert(CommandKind::table().skip(i as int).skip(1) =~= CommandKind::table().skip(
                i + 1,
            ));
        }
        if eq_ignore_case(&typed, &name) {
            return Some(kind);
        }
        i += 1;
    }
    None
}

/// A parsed command.
#[derive(PartialEq, Eq, Debug)]
pub enum Command {
    /// Create a proposal with this text.
    Submit(String),
    /// List the proposals.
    View,
    /// Vote for the proposal with this id.
    Vote { id: i32 },
    /// List the commands.
    Help,
}

/// What a [`Command`] stands for in contracts.
pub enum CommandView {
    Submit(Seq<char>),
    View,
    Vote { id: i32 },
    Help,
}

impl View for Command {
    type V = CommandView;

    open spec fn view(&self) -> CommandView {
        match self {
            Command::Submit(text) => CommandView::Submit(text@),
            Command::View => CommandView::View,
            Command::Vote { id } => CommandView::Vote { id: *id },
            Command::Help => CommandView::Help,
        }
    }
}

/// Why a line is not a command.
#[derive(PartialEq, Eq, Debug)]
pub enum ParseError {
    /// The token selects no command; it is kept as it was typed.
    UnknownCommand(String),
    /// `vote` was given something that is not a 32-bit integer; the
    /// argument is kept as it was typed.
    InvalidId(String),
}

/// What a [`ParseError`] stands for in contracts.
pub enum ParseErrorView {
    UnknownCommand(Seq<char>),
    InvalidId(Seq<char>),
}

impl View for ParseError {
    type V = ParseErrorView;

    open spec fn view(&self) -> ParseErrorView {
        match self {
            ParseError::UnknownCommand(token) => ParseErrorView::UnknownCommand(token@),
            ParseError::InvalidId(argument) => ParseErrorView::InvalidId(argument@),
        }
    }
}

/// What a token and its argument parse to.
///
/// `submit` takes the argument whole, blanks included, and may be empty.
/// `vote` takes an integer and nothing else. `view` and `help` take no
/// argument and pass over one that is given.
pub open spec fn parsed(token: Seq<char>, argument: Seq<char>) -> Result<
    CommandView,
    ParseErrorView,
> {
    match kind_of(token) {
        None => Err(ParseErrorView::UnknownCommand(token)),
        Some(CommandKind::Submit) => Ok(CommandView::Submit(argument)),
        Some(CommandKind::View) => Ok(CommandView::View),
        Some(CommandKind::Help) => Ok(CommandView::Help),
        Some(CommandKind::Vote) => match parse_int(argument) {
            Some(id) => Ok(CommandView::Vote { id }),
            None => Err(ParseErrorView::InvalidId(argument)),
        },
    }
}

/// The length of a line's token: the number of characters before its first
/// space, or the whole length where it has no space.
pub open spec fn token_len(line: Seq<char>) -> nat
    decreases line.len(),
{
    if line.len() == 0 || line[0] == ' ' {
        0
    } else {
        1 + token_len(line.skip(1))
    }
}

/// The token of a line: what stands before its first space.
pub open spec fn token_of(line: Seq<char>) -> Seq<char> {
    line.take(token_len(line) as int)
}

/// The argument of a line: everything after its first space, untouched; empty
/// where the line has no space.
pub open spec fn argument_of(line: Seq<char>) -> Seq<char> {
    if token_len(line) < line.len() {
        line.skip(token_len(line) as int + 1)
    } else {
        Seq::empty()
    }
}

/// What a whole line parses to.
pub open spec fn parsed_line(line: Seq<char>) -> Result<CommandView, ParseErrorView> {
    parsed(token_of(line), argument_of(line))
}

/// The token ends at the first space: a position with no space before it,
/// which is the end of the line or holds a space, is the token's length.
pub proof fn lemma_token_len(line: Seq<char>, i: int)
    requires
        0 <= i <= line.len(),
        forall|j: int| 0 <= j < i ==> line[j] != ' ',
        i == line.len() || line[i] == ' ',
    ensures
        token_len(line) == i,
    decreases i,
{
    if i > 0 {
        let rest = line.skip(1);
        assert forall|j: int| 0 <= j < i - 1 implies rest[j] != ' ' by {
            assert(rest[j] == line[j + 1]);
        }
        lemma_token_len(rest, i - 1);
    }
}

/// A parse result as contracts speak of it.
pub open spec fn parse_view(r: Result<Command, ParseError>) -> Result<CommandView, ParseErrorView> {
    match r {
        Ok(command) => Ok(command@),
        Err(error) => Err(error@),
    }
}

impl Command {
    /// Parses a token and its argument.
    pub fn parse(token: &str, argument: &str) -> (r: Result<Command, ParseError>)
        ensures
            parse_view(r) == parsed(token@, argument@),
    {
        match recognize(token) {
            None => Err(ParseError::UnknownCommand(token.to_owned())),
            Some(CommandKind::Submit) => Ok(Command::Submit(argument.to_owned())),
            Some(CommandKind::View) => Ok(Command::View),
            Some(CommandKind::Help) => Ok(Command::Help),
            Some(CommandKind::Vote) => match parse_i32(argument) {
                Some(id) => Ok(Command::Vote { id }),
                None => Err(ParseError::InvalidId(argument.to_owned())),
            },
        }
    }

    /// Parses a line: the token up to the first space, then the argument.
    pub fn parse_line(line: &str) -> (r: Result<Command, ParseError>)
        ensures
            parse_view(r) == parsed_line(line@),
    {
        let chars = chars_of(line);
        let n = chars.len();
        let mut i: usize = 0;
        while i < n && chars[i] != ' '
            invariant
                i <= n,
                n == chars.len(),
                forall|j: int| 0 <= j < i ==> chars@[j] != ' ',
            decreases n - i,
        {
            i += 1;
        }
        proof {
            lemma_token_len(line@, i as int);
        }
        let token = line.substring_char(0, i);
        assert(token@ =~= token_of(line@));
        if i < n {
            let argument = line.substring_char(i + 1, n);
            assert(argument@ =~= argument_of(line@));
            Command::parse(token, argument)
        } else {
            proof {
                reveal_strlit("");
            }
            assert(""@ =~= argument_of(line@));
            Command::parse(token, "")
        }
    }
}

/// One line of a command list: the prefix and the name, and after a dash
/// the description where there is one.
pub open spec fn entry(prefix: Seq<char>, name: Seq<char>, description: Seq<char>) -> Seq<char> {
    if description.len() == 0 {
        prefix + name
    } else {
        prefix + name + " \u{2014} "@ + description
    }
}

/// The lines of a command list, one entry each, with a line feed between two
/// entries and none at the end.
pub open spec fn entries(
    prefix: Seq<char>,
    names: Seq<Seq<char>>,
    descriptions: Seq<Seq<char>>,
) -> Seq<char>
    recommends
        names.len() == descriptions.len(),
    decreases names.len(),
{
    if names.len() == 0 {
        Seq::empty()
    } else if names.len() == 1 {
        entry(prefix, names[0], descriptions[0])
    } else {
        entries(prefix, names.drop_last(), descriptions.drop_last()) + "\n"@ + entry(
            prefix,
            names.last(),
            descriptions.last(),
        )
    }
}

/// A command list under a heading: the heading, an empty line, the entries.
pub open spec fn described(
    heading: Seq<char>,
    prefix: Seq<char>,
    names: Seq<Seq<char>>,
    descriptions: Seq<Seq<char>>,
) -> Seq<char> {
    heading + "\n\n"@ + entries(prefix, names, descriptions)
}

/// The views of a sequence of texts.
pub open spec fn texts(items: Seq<&'static str>) -> Seq<Seq<char>> {
    Seq::new(items.len(), |i: int| items[i]@)
}

/// Renders a command list through teloxide's `CommandDescriptions`: the list
/// is built by `CommandDescriptions::new` from one `CommandDescription` for
/// each name, without aliases, is given its heading by `global_description`,
/// and is turned into text by its `Display` impl.
///
/// Trusted: that `Display` impl writes the heading and an empty line, then one
/// line per entry in the given order, each made of the prefix, the name and,
/// where the description is not empty, the separator `" \u{2014} "` and the
/// description, with a line feed between two entries and none after the last.
#[verifier::external_body]
fn render_descriptions(
    heading: &str,
    prefix: &'static str,
    names: &Vec<&'static str>,
    descriptions: &Vec<&'static str>,
) -> (out: String)
    requires
        names.len() == descriptions.len(),
    ensures
        out@ == described(heading@, prefix@, texts(names@), texts(descriptions@)),
{
    let rows: Vec<CommandDescription<'static>> = names
        .iter()
        .zip(descriptions.iter())
        .map(|(name, description)| CommandDescription {
            prefix,
            command: name,
            aliases: &[],
            description,
        })
        .collect();
    CommandDescriptions::new(&rows).global_description(heading).to_string()
}

/// The names of the commands of `kinds`, in order.
pub open spec fn names_of(kinds: Seq<CommandKind>) -> Seq<Seq<char>> {
    Seq::new(kinds.len(), |i: int| kinds[i].spec_name())
}

/// The descriptions of the commands of `kinds`, in order.
pub open spec fn descriptions_of(kinds: Seq<CommandKind>) -> Seq<Seq<char>> {
    Seq::new(kinds.len(), |i: int| kinds[i].spec_description())
}

/// The help text: a heading, then every command of the table with its
/// description. Commands are written as they are typed, without a prefix.
pub open spec fn help_spec() -> Seq<char> {
    described(
        "These are the available commands:"@,
        ""@,
        names_of(CommandKind::table()),
        descriptions_of(CommandKind::table()),
    )
}

/// The help text, made from the command table.
pub fn help_text() -> (r: String)
    ensures
        r@ == help_spec(),
{
    let kinds = CommandKind::all();
    let mut names: Vec<&'static str> = Vec::new();
    let mut descriptions: Vec<&'static str> = Vec::new();
    let mut i: usize = 0;
    while i < kinds.len()
        invariant
            i <= kinds.len(),
            names.len() == i,
            descriptions.len() == i,
            texts(names@) == names_of(kinds@.take(i as int)),
            texts(descriptions@) == descriptions_of(kinds@.take(i as int)),
        decreases kinds.len() - i,
    {
        let ghost names_before = names@;
        let ghost descriptions_before = descriptions@;
        names.push(kinds[i].name());
        descriptions.push(kinds[i].description());
        i += 1;
        assert forall|j: int| 0 <= j < i implies texts(names@)[j] == names_of(
            kinds@.take(i as int),
        )[j] && texts(descriptions@)[j] == descriptions_of(kinds@.take(i as int))[j] by {
            if j < i - 1 {
                assert(texts(names_before)[j] == names_of(kinds@.take(i - 1))[j]);
                assert(texts(descriptions_before)[j] == descriptions_of(kinds@.take(i - 1))[j]);
            }
        }
        assert(texts(names@) =~= names_of(kinds@.take(i as int)));
        assert(texts(descriptions@) =~= descriptions_of(kinds@.take(i as int)));
    }
    assert(kinds@.take(i as int) =~= kinds@);
    render_descriptions("These are the available commands:", "", &names, &descriptions)
}

impl ParseErrorView {
    /// The reply to a line that is not a command: what was wrong with it,
    /// an empty line, and the help text.
    pub open spec fn reply(self) -> Seq<char> {
        match self {
            ParseErrorView::UnknownCommand(token) => "Unknown command: "@ + token + "\n\n"@
                + help_spec(),
            ParseErrorView::InvalidId(argument) => "Invalid proposal id: "@ + argument
                + "\n\n"@ + help_spec(),
        }
    }
}

impl ParseError {
    /// The reply to a line that is not a command.
    pub fn reply(&self) -> (r: String)
        ensures
            r@ == self@.reply(),
    {
        let mut r = match self {
            ParseError::UnknownCommand(token) => {
                let mut r = String::from_str("Unknown command: ");
                r.append(token.as_str());
                r
            },
            ParseError::InvalidId(argument) => {
                let mut r = String::from_str("Invalid proposal id: ");
                r.append(argument.as_str());
                r
            },
        };
        r.append("\n\n");
        let help = help_text();
        r.append(help.as_str());
        r
    }
}

/// The help text names exactly the four commands, each once and with its
/// description, in the order of the table.
pub proof fn lemma_help_lists_table()
    ensures
        help_spec() == "These are the available commands:"@ + "\n\n"@ + "submit"@ + " \u{2014} "@
            + "Submit a new proposal"@ + "\n"@ + "view"@ + " \u{2014} "@ + "View all proposals"@
            + "\n"@ + "vote"@ + " \u{2014} "@ + "Vote for a proposal"@ + "\n"@ + "help"@
            + " \u{2014} "@ + "Show help"@,
{
    let table = CommandKind::table();
    let none = ""@;
    let names = names_of(table);
    let descriptions = descriptions_of(table);
    let names3 = names.drop_last();
    let descriptions3 = descriptions.drop_last();
    let names2 = names3.drop_last();
    let descriptions2 = descriptions3.drop_last();
    let names1 = names2.drop_last();
    let descriptions1 = descriptions2.drop_last();
    reveal_strlit("");
    lemma_names_plain(CommandKind::Submit);
    lemma_names_plain(CommandKind::View);
    lemma_names_plain(CommandKind::Vote);
    lemma_names_plain(CommandKind::Help);
    assert forall|k: int| 0 <= k < 4 implies #[trigger] entry(none, names[k], descriptions[k])
        == names[k] + " \u{2014} "@ + descriptions[k] by {
        assert(none + names[k] =~= names[k]);
    }
    assert(entries(none, names1, descriptions1) == entry(none, names[0], descriptions[0]));
    assert(entries(none, names2, descriptions2) == entries(none, names1, descriptions1) + "\n"@
        + entry(none, names[1], descriptions[1]));
    assert(entries(none, names3, descriptions3) == entries(none, names2, descriptions2) + "\n"@
        + entry(none, names[2], descriptions[2]));
    assert(entries(none, names, descriptions) == entries(none, names3, descriptions3) + "\n"@
        + entry(none, names[3], descriptions[3]));
    assert(help_spec() =~= "These are the available commands:"@ + "\n\n"@ + "submit"@
        + " \u{2014} "@ + "Submit a new proposal"@ + "\n"@ + "view"@ + " \u{2014} "@
        + "View all proposals"@ + "\n"@ + "vote"@ + " \u{2014} "@ + "Vote for a proposal"@
        + "\n"@ + "help"@ + " \u{2014} "@ + "Show help"@);
}

/// `vote` takes an integer and nothing else: with any other argument the
/// line is no command, and the error keeps the argument.
pub proof fn lemma_vote_needs_integer(token: Seq<char>, argument: Seq<char>)
    requires
        lower(token) == "vote"@,
    ensures
        parse_int(argument) is Some ==> parsed(token, argument) == Ok::<CommandView, ParseErrorView>(
            (CommandView::Vote { id: parse_int(argument)->Some_0 }),
        ),
        parse_int(argument) is None ==> parsed(token, argument) == Err::<
            CommandView,
            ParseErrorView,
        >(ParseErrorView::InvalidId(argument)),
{
    lemma_kind_of(token, CommandKind::Vote);
}

/// A line is split at its first space: a token without a space, a space and
/// an argument parse as that token with that argument, and a token alone
/// parses as that token with the empty argument.
pub proof fn lemma_line_splits(token: Seq<char>, argument: Seq<char>)
    requires
        !token.contains(' '),
    ensures
        parsed_line(token + seq![' '] + argument) == parsed(token, argument),
        parsed_line(token) == parsed(token, Seq::empty()),
{
    let line = token + seq![' '] + argument;
    let n = token.len() as int;
    assert forall|j: int| 0 <= j < n implies line[j] != ' ' && token[j] != ' ' by {
        assert(token.contains(token[j]));
        assert(line[j] == token[j]);
    }
    assert(line[n] == ' ');
    lemma_token_len(line, n);
    lemma_token_len(token, n);
    assert(token_of(line) =~= token);
    assert(argument_of(line) =~= argument);
    assert(token_of(token) =~= token);
}

/// The lines that the help text suggests parse as the commands they name:
/// `submit` with any text, also none; `view`; `vote` with the decimal numeral
/// of any id; `help`.
pub proof fn lemma_command_lines(text: Seq<char>, id: i32)
    ensures
        parsed_line("submit "@ + text) == Ok::<CommandView, ParseErrorView>(
            CommandView::Submit(text),
        ),
        parsed_line("submit"@) == Ok::<CommandView, ParseErrorView>(
            CommandView::Submit(Seq::empty()),
        ),
        parsed_line("view"@) == Ok::<CommandView, ParseErrorView>(CommandView::View),
        parsed_line("vote "@ + decimal(id as int)) == Ok::<CommandView, ParseErrorView>(
            (CommandView::Vote { id }),
        ),
        parsed_line("help"@) == Ok::<CommandView, ParseErrorView>(CommandView::Help),
{
    lemma_names_plain(CommandKind::Submit);
    lemma_names_plain(CommandKind::View);
    lemma_names_plain(CommandKind::Vote);
    lemma_names_plain(CommandKind::Help);
    lemma_kind_of("submit"@, CommandKind::Submit);
    lemma_kind_of("view"@, CommandKind::View);
    lemma_kind_of("vote"@, CommandKind::Vote);
    lemma_kind_of("help"@, CommandKind::Help);
    lemma_line_splits("submit"@, text);
    lemma_line_splits("view"@, text);
    lemma_line_splits("vote"@, decimal(id as int));
    lemma_line_splits("help"@, text);
    lemma_parse_decimal(id);
    reveal_strlit("submit");
    reveal_strlit("submit ");
    reveal_strlit("vote");
    reveal_strlit("vote ");
    assert("submit "@ =~= "submit"@ + seq![' ']);
    assert("vote "@ =~= "vote"@ + seq![' ']);
}

} // verus!
