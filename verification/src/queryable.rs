//! The candidates that a query resolves to.

use crate::application::{Application, ApplicationView};
use crate::config::{
    search_address, Config, CustomCommand, CustomCommandView, SearchUrl, SearchUrlView,
};
use vstd::prelude::*;
use vstd::string::*;

verus! {

/// One typed, actionable result of resolving a query.
#[derive(Debug, PartialEq, Eq)]
pub enum Queryable {
    /// An installed application.
    Application(Application),
    /// A custom command, with what was typed behind its name.
    CustomCommand { command: CustomCommand, arguments: Option<String> },
    /// An arithmetic expression and its value.
    Calculator { expression: String, result: String },
    /// A web search for the query on one search engine.
    SearchFallback { search_url: SearchUrl, query: String },
}

/// What a `Queryable` holds, as mathematical values.
pub enum QueryableView {
    Application(ApplicationView),
    CustomCommand { command: CustomCommandView, arguments: Option<Seq<char>> },
    Calculator { expression: Seq<char>, result: Seq<char> },
    SearchFallback { search_url: SearchUrlView, query: Seq<char> },
}

impl View for Queryable {
    type V = QueryableView;

    open spec fn view(&self) -> QueryableView {
        match self {
            Queryable::Application(application) => QueryableView::Application(application@),
            Queryable::CustomCommand { command, arguments } => QueryableView::CustomCommand {
                command: command@,
                arguments: arguments.deep_view(),
            },
            Queryable::Calculator { expression, result } => QueryableView::Calculator {
                expression: expression@,
                result: result@,
            },
            Queryable::SearchFallback { search_url, query } => QueryableView::SearchFallback {
                search_url: search_url@,
                query: query@,
            },
        }
    }
}

impl DeepView for Queryable {
    type V = QueryableView;

    open spec fn deep_view(&self) -> QueryableView {
        self@
    }
}

/// A process to spawn: a program and its arguments. Its input and outputs
/// are not connected to the launcher's.
#[derive(Debug, PartialEq, Eq)]
pub struct Invocation {
    pub program: String,
    pub arguments: Vec<String>,
}

/// What an `Invocation` holds, as mathematical values.
pub struct InvocationView {
    pub program: Seq<char>,
    pub arguments: Seq<Seq<char>>,
}

impl View for Invocation {
    type V = InvocationView;

    open spec fn view(&self) -> InvocationView {
        InvocationView { program: self.program@, arguments: self.arguments.deep_view() }
    }
}

/// The invocation that hands `command` to the shell, with further arguments.
pub open spec fn shell(command: Seq<char>, arguments: Seq<Seq<char>>) -> InvocationView {
    InvocationView { program: "sh"@, arguments: seq!["-c"@, command] + arguments }
}

/// The command line of an application: its own, behind the terminal's where
/// it runs in one.
pub open spec fn application_line(application: ApplicationView, terminal: Seq<char>) -> Seq<char> {
    if application.terminal {
        terminal + " "@ + application.command
    } else {
        application.command
    }
}

/// The command line of a custom command: its own, then the arguments if
/// there are any, all behind the terminal's where it runs in one.
pub open spec fn command_line(
    command: CustomCommandView,
    arguments: Option<Seq<char>>,
    terminal: Seq<char>,
) -> Seq<char> {
    let line = match arguments {
        Some(text) => command.command + " "@ + text,
        None => command.command,
    };
    if command.tty {
        terminal + " "@ + line
    } else {
        line
    }
}

/// The command line that puts its first argument on the clipboard, as it
/// is.
pub open spec fn clipboard_line() -> Seq<char> {
    "printf %s \"$1\" | xclip -selection clipboard"@
}

/// The invocation that puts `text` on the clipboard. The text is handed to
/// the shell as an argument of its own, behind the name that the shell goes
/// by, so nothing in it is read as a command.
pub open spec fn clipboard(text: Seq<char>) -> InvocationView {
    shell(clipboard_line(), seq!["sh"@, text])
}

impl QueryableView {
    /// The name under which a result is shown.
    pub open spec fn display_name(self) -> Seq<char> {
        match self {
            QueryableView::Application(application) => application.name,
            QueryableView::CustomCommand { command, arguments } => match arguments {
                Some(text) => command.name + " "@ + text,
                None => command.name,
            },
            QueryableView::Calculator { expression, result } => expression + " = "@ + result,
            QueryableView::SearchFallback { search_url, query } => "Search "@ + search_url.name,
        }
    }

    /// The line shown below the name, if there is one.
    pub open spec fn description(self) -> Option<Seq<char>> {
        match self {
            QueryableView::Application(application) => application.description,
            QueryableView::CustomCommand { command, arguments } => if arguments is Some {
                Some(
                    match command.description {
                        Some(text) => text,
                        None => "Custom command"@,
                    } + " (with arguments)"@,
                )
            } else {
                command.description
            },
            QueryableView::Calculator { expression, result } => Some(
                "Copy result to clipboard"@,
            ),
            QueryableView::SearchFallback { search_url, query } => Some(
                "Search '"@ + query + "' on "@ + search_url.name,
            ),
        }
    }

    /// The style classes of the name and of the description.
    pub open spec fn classes(self) -> (Seq<char>, Seq<char>) {
        match self {
            QueryableView::Application(_) => ("app-name"@, "description"@),
            QueryableView::CustomCommand { .. } => ("custom-command"@, "description"@),
            QueryableView::Calculator { .. } => ("calculator-result"@, "description"@),
            QueryableView::SearchFallback { .. } => ("search-item"@, "description"@),
        }
    }

    /// What choosing a result runs: an application or a command through the
    /// shell, a calculation's value onto the clipboard, a search in the
    /// desktop's browser.
    pub open spec fn action(self, terminal: Seq<char>) -> InvocationView {
        match self {
            QueryableView::Application(application) => shell(
                application_line(application, terminal),
                Seq::empty(),
            ),
            QueryableView::CustomCommand { command, arguments } => shell(
                command_line(command, arguments, terminal),
                Seq::empty(),
            ),
            QueryableView::Calculator { expression, result } => clipboard(result),
            QueryableView::SearchFallback { search_url, query } => InvocationView {
                program: "xdg-open"@,
                arguments: seq![search_address(search_url.url, query)],
            },
        }
    }
}

/// The invocation that hands `command` to the shell, with further arguments.
pub fn spawn_shell(command: &str, arguments: Vec<String>) -> (invocation: Invocation)
    ensures
        invocation@ == shell(command@, arguments.deep_view()),
{
    let mut all: Vec<String> = Vec::new();
    all.push(String::from_str("-c"));
    all.push(String::from_str(command));
    let ghost head = all.deep_view();
    assert(head =~= seq!["-c"@, command@]);
    let mut rest = arguments;
    let ghost tail = rest.deep_view();
    all.append(&mut rest);
    assert(all.deep_view() =~= head + tail);
    Invocation { program: String::from_str("sh"), arguments: all }
}

/// The invocation that launches an application.
pub fn launch_application(application: &Application, terminal: &str) -> (invocation: Invocation)
    ensures
        invocation@ == shell(application_line(application@, terminal@), Seq::empty()),
{
    let arguments: Vec<String> = Vec::new();
    assert(arguments.deep_view() =~= Seq::empty());
    if application.terminal {
        let line = String::from_str(terminal).concat(" ").concat(application.command.as_str());
        spawn_shell(line.as_str(), arguments)
    } else {
        spawn_shell(application.command.as_str(), arguments)
    }
}

/// The invocation that opens a web search in the desktop's browser.
pub fn perform_web_search(query: &str, search_url: &SearchUrl) -> (invocation: Invocation)
    ensures
        invocation@ == (InvocationView {
            program: "xdg-open"@,
            arguments: seq![search_address(search_url@.url, query@)],
        }),
{
    let mut arguments: Vec<String> = Vec::new();
    arguments.push(search_url.build(query));
    assert(arguments.deep_view() =~= seq![search_address(search_url@.url, query@)]);
    Invocation { program: String::from_str("xdg-open"), arguments }
}

/// The invocation that puts `text` on the clipboard.
pub fn copy_to_clipboard(text: &str) -> (invocation: Invocation)
    ensures
        invocation@ == clipboard(text@),
{
    let mut arguments: Vec<String> = Vec::new();
    arguments.push(String::from_str("sh"));
    arguments.push(String::from_str(text));
    assert(arguments.deep_view() =~= seq!["sh"@, text@]);
    spawn_shell("printf %s \"$1\" | xclip -selection clipboard", arguments)
}

/// The invocation that runs a custom command.
pub fn execute_custom_command(
    command: &CustomCommand,
    arguments: Option<&str>,
    terminal: &str,
) -> (invocation: Invocation)
    ensures
        invocation@ == shell(
            command_line(
                command@,
                match arguments {
                    Some(text) => Some(text@),
                    None => None,
                },
                terminal@,
            ),
            Seq::empty(),
        ),
{
    let line = match arguments {
        Some(text) => command.command.clone().concat(" ").concat(text),
        None => command.command.clone(),
    };
    let line = if command.tty {
        String::from_str(terminal).concat(" ").concat(line.as_str())
    } else {
        line
    };
    let none: Vec<String> = Vec::new();
    assert(none.deep_view() =~= Seq::empty());
    spawn_shell(line.as_str(), none)
}

impl Queryable {
    /// The name under which the result is shown.
    pub fn display_name(&self) -> (name: String)
        ensures
            name@ == self@.display_name(),
    {
        match self {
            Queryable::Application(application) => application.name.clone(),
            Queryable::CustomCommand { command, arguments } => match arguments {
                Some(text) => command.name.clone().concat(" ").concat(text.as_str()),
                None => command.name.clone(),
            },
            Queryable::Calculator { expression, result } => expression.clone().concat(
                " = ",
            ).concat(result.as_str()),
            Queryable::SearchFallback { search_url, query } => String::from_str(
                "Search ",
            ).concat(search_url.name.as_str()),
        }
    }

    /// The line shown below the name, if there is one.
    pub fn description(&self) -> (line: Option<String>)
        ensures
            line.deep_view() == self@.description(),
    {
        match self {
            Queryable::Application(application) => application.description.clone(),
            Queryable::CustomCommand { command, arguments } => {
                if arguments.is_some() {
                    let base = match &command.description {
                        Some(text) => text.clone(),
                        None => String::from_str("Custom command"),
                    };
                    Some(base.concat(" (with arguments)"))
                } else {
                    command.description.clone()
                }
            },
            Queryable::Calculator { expression, result } => Some(
                String::from_str("Copy result to clipboard"),
            ),
            Queryable::SearchFallback { search_url, query } => Some(
                String::from_str("Search '").concat(query.as_str()).concat("' on ").concat(
                    search_url.name.as_str(),
                ),
            ),
        }
    }

    /// What choosing the result runs.
    pub fn action(&self, config: &Config) -> (invocation: Invocation)
        ensures
            invocation@ == self@.action(config@.terminal),
    {
        match self {
            Queryable::Application(application) => launch_application(
                application,
                config.terminal.as_str(),
            ),
            Queryable::CustomCommand { command, arguments } => {
                let text = match arguments {
                    Some(text) => Some(text.as_str()),
                    None => None,
                };
                execute_custom_command(command, text, config.terminal.as_str())
            },
            Queryable::Calculator { expression, result } => copy_to_clipboard(result.as_str()),
            Queryable::SearchFallback { search_url, query } => perform_web_search(
                query.as_str(),
                search_url,
            ),
        }
    }

    /// The style classes of the name and of the description.
    pub fn classes(&self) -> (classes: (&'static str, &'static str))
        ensures
            (classes.0@, classes.1@) == self@.classes(),
    {
        match self {
            Queryable::Application(_) => ("app-name", "description"),
            Queryable::CustomCommand { .. } => ("custom-command", "description"),
            Queryable::Calculator { .. } => ("calculator-result", "description"),
            Queryable::SearchFallback { .. } => ("search-item", "description"),
        }
    }
}

/// The place of the result to run among `count` results: the selected one
/// where the selection points at a result, else the first one, if there is
/// any.
pub open spec fn chosen(count: nat, selected: Option<usize>) -> Option<usize> {
    let place = match selected {
        Some(place) => place,
        None => 0,
    };
    if place < count {
        Some(place)
    } else if count > 0 {
        Some(0usize)
    } else {
        None
    }
}

/// The place of the result to run when the query is confirmed.
pub fn choose_result(results: &Vec<Queryable>, selected: Option<usize>) -> (place: Option<usize>)
    ensures
        place == chosen(results@.len(), selected),
        place matches Some(index) ==> index < results@.len(),
{
    let place: usize = match selected {
        Some(place) => place,
        None => 0,
    };
    if place < results.len() {
        Some(place)
    } else if results.len() > 0 {
        Some(0)
    } else {
        None
    }
}

/// Whatever the text holds, the shell is given the same command line, and
/// the text follows it as the last argument, unchanged.
pub proof fn lemma_clipboard_text_is_an_argument(text: Seq<char>)
    ensures
        clipboard(text).program == "sh"@,
        clipboard(text).arguments == seq!["-c"@, clipboard_line(), "sh"@, text],
{
    assert(seq!["-c"@, clipboard_line()] + seq!["sh"@, text] =~= seq![
        "-c"@,
        clipboard_line(),
        "sh"@,
        text,
    ]);
}

} // verus!
