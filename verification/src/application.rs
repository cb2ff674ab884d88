//! Installed applications, and the pipeline that resolves a query against
//! the catalog, the custom commands and the search engines.

use crate::calculator::{calculation, try_evaluate_expression};
use crate::config::{Config, CustomCommand, CustomCommandView, SearchUrl, SearchUrlView};
use crate::queryable::{Queryable, QueryableView};
use crate::text::{
    blank, chars_of, contains, is_blank, lowercase, lowercase_chars, occurs_in, starts_with,
    string_from, words,
};
use vstd::prelude::*;
use vstd::string::*;

verus! {

/// A launchable application, as its descriptor names it.
#[derive(Debug, PartialEq, Eq)]
pub struct Application {
    pub name: String,
    /// The command line to spawn, free of field codes.
    pub command: String,
    pub description: Option<String>,
    /// Whether the command runs inside a terminal.
    pub terminal: bool,
}

/// What an `Application` holds, as mathematical values.
pub struct ApplicationView {
    pub name: Seq<char>,
    pub command: Seq<char>,
    pub description: Option<Seq<char>>,
    pub terminal: bool,
}

/// Whether a token of a command line is a field code, a placeholder such as
/// `%f` or `%U`.
pub open spec fn is_field_code(token: Seq<char>) -> bool {
    token.len() > 0 && token[0] == '%'
}

impl ApplicationView {
    /// Whether the command line can be spawned as it is: it is not empty and
    /// none of its tokens is a field code.
    pub open spec fn is_launchable(self) -> bool {
        &&& self.command.len() > 0
        &&& forall|i: int|
            0 <= i < words(self.command).len() ==> !is_field_code(
                #[trigger] words(self.command)[i],
            )
    }
}

impl View for Application {
    type V = ApplicationView;

    open spec fn view(&self) -> ApplicationView {
        ApplicationView {
            name: self.name@,
            command: self.command@,
            description: self.description.deep_view(),
            terminal: self.terminal,
        }
    }
}

impl DeepView for Application {
    type V = ApplicationView;

    open spec fn deep_view(&self) -> ApplicationView {
        self@
    }
}

impl Clone for Application {
    fn clone(&self) -> (copy: Self)
        ensures
            copy == *self,
    {
        Application {
            name: self.name.clone(),
            command: self.command.clone(),
            description: self.description.clone(),
            terminal: self.terminal,
        }
    }
}

/// The arguments typed behind a command's name: what follows the space that
/// stands right behind the name, unless that is blank.
pub open spec fn arguments_of(name: Seq<char>, query: Seq<char>) -> Option<Seq<char>> {
    let start = name.len() as int + 1;
    if query.len() > name.len() && query[name.len() as int] == ' ' && !is_blank(
        query.skip(start),
    ) {
        Some(query.skip(start))
    } else {
        None
    }
}

/// Whether a query, in lowercase, is part of a text's lowercase form.
pub open spec fn is_mentioned(lowered_query: Seq<char>, text: Seq<char>) -> bool {
    occurs_in(lowered_query, lowercase(text))
}

/// Whether a query, in lowercase, is part of a name or of a description.
pub open spec fn is_found(
    lowered_query: Seq<char>,
    name: Seq<char>,
    description: Option<Seq<char>>,
) -> bool {
    is_mentioned(lowered_query, name) || (description matches Some(text) && is_mentioned(
        lowered_query,
        text,
    ))
}

/// The result that one custom command gives for a query, if any. A command
/// that accepts arguments matches only as a prefix with arguments behind it;
/// any other command matches where the query is part of its name or of its
/// description.
pub open spec fn command_match(command: CustomCommandView, query: Seq<char>) -> Option<
    QueryableView,
> {
    if command.accepts_arguments {
        if lowercase(command.name).is_prefix_of(lowercase(query)) && arguments_of(
            command.name,
            query,
        ) is Some {
            Some(
                QueryableView::CustomCommand {
                    command,
                    arguments: arguments_of(command.name, query),
                },
            )
        } else {
            None
        }
    } else if is_found(lowercase(query), command.name, command.description) {
        Some(QueryableView::CustomCommand { command, arguments: None })
    } else {
        None
    }
}

/// The results that the registered commands give, in registry order.
pub open spec fn matching_commands(
    commands: Seq<(Seq<char>, CustomCommandView)>,
    query: Seq<char>,
) -> Seq<QueryableView>
    decreases commands.len(),
{
    if commands.len() == 0 {
        Seq::empty()
    } else {
        let earlier = matching_commands(commands.drop_last(), query);
        match command_match(commands.last().1, query) {
            Some(result) => earlier.push(result),
            None => earlier,
        }
    }
}

/// The catalog entries that a query finds, in catalog order.
pub open spec fn matching_applications(
    catalog: Seq<ApplicationView>,
    query: Seq<char>,
) -> Seq<QueryableView>
    decreases catalog.len(),
{
    if catalog.len() == 0 {
        Seq::empty()
    } else {
        let earlier = matching_applications(catalog.drop_last(), query);
        if is_found(lowercase(query), catalog.last().name, catalog.last().description) {
            earlier.push(QueryableView::Application(catalog.last()))
        } else {
            earlier
        }
    }
}

/// One web search for the query on each search engine, in registry order.
pub open spec fn fallbacks(
    engines: Seq<(Seq<char>, SearchUrlView)>,
    query: Seq<char>,
) -> Seq<QueryableView> {
    Seq::new(
        engines.len(),
        |i: int| QueryableView::SearchFallback { search_url: engines[i].1, query },
    )
}

/// What a query resolves to, given the calculator's answer to it.
pub open spec fn resolved(
    query: Seq<char>,
    catalog: Seq<ApplicationView>,
    commands: Seq<(Seq<char>, CustomCommandView)>,
    engines: Seq<(Seq<char>, SearchUrlView)>,
    calculation: Option<Seq<char>>,
) -> Seq<QueryableView> {
    if is_blank(query) {
        Seq::empty()
    } else {
        match calculation {
            Some(result) => seq![QueryableView::Calculator { expression: query, result }],
            None => {
                let found = matching_commands(commands, query) + matching_applications(
                    catalog,
                    query,
                );
                if found.len() == 0 {
                    fallbacks(engines, query)
                } else {
                    found
                }
            },
        }
    }
}

/// The arguments that `query` holds behind `command_name`, if any.
pub fn extract_command_arguments(command_name: &str, query: &str) -> (arguments: Option<String>)
    ensures
        arguments.deep_view() == arguments_of(command_name@, query@),
{
    let name_length: usize = command_name.unicode_len();
    let chars = chars_of(query);
    if chars.len() > name_length && chars[name_length] == ' ' {
        let mut rest: Vec<char> = Vec::new();
        let mut i: usize = name_length + 1;
        assert(query@.skip(name_length + 1).take(0) =~= Seq::<char>::empty());
        while i < chars.len()
            invariant
                name_length + 1 <= i <= chars.len(),
                chars@ == query@,
                rest@ == query@.skip(name_length + 1).take(i - name_length - 1),
            decreases chars.len() - i,
        {
            rest.push(chars[i]);
            assert(rest@ =~= query@.skip(name_length + 1).take(i + 1 - name_length - 1));
            i += 1;
        }
        assert(rest@ =~= query@.skip(name_length + 1));
        if !blank(&rest) {
            return Some(string_from(&rest));
        }
    }
    None
}

fn mentions(lowered_query: &Vec<char>, text: &str) -> (r: bool)
    ensures
        r == is_mentioned(lowered_query@, text@),
{
    contains(&lowercase_chars(text), lowered_query)
}

fn finds(lowered_query: &Vec<char>, name: &str, description: &Option<String>) -> (r: bool)
    ensures
        r == is_found(lowered_query@, name@, description.deep_view()),
{
    if mentions(lowered_query, name) {
        return true;
    }
    match description {
        Some(text) => mentions(lowered_query, text.as_str()),
        None => false,
    }
}

/// The results that the registered commands give for `query`, in registry
/// order.
pub fn build_custom_commands(
    query: &str,
    custom_commands: &Vec<(String, CustomCommand)>,
) -> (results: Vec<Queryable>)
    ensures
        results.deep_view() == matching_commands(custom_commands.deep_view(), query@),
{
    let lowered_query = lowercase_chars(query);
    let mut results: Vec<Queryable> = Vec::new();
    let mut i: usize = 0;
    proof {
        assert(custom_commands.deep_view().take(0) =~= Seq::empty());
        assert(results.deep_view() =~= Seq::empty());
    }
    while i < custom_commands.len()
        invariant
            i <= custom_commands.len(),
            lowered_query@ == lowercase(query@),
            results.deep_view() == matching_commands(
                custom_commands.deep_view().take(i as int),
                query@,
            ),
        decreases custom_commands.len() - i,
    {
        let command = &custom_commands[i].1;
        let ghost before = results.deep_view();
        proof {
            let upto = custom_commands.deep_view().take(i + 1);
            assert(upto.drop_last() =~= custom_commands.deep_view().take(i as int));
            assert(upto.last().1 == command@);
        }
        if command.accepts_arguments {
            if starts_with(&lowered_query, &lowercase_chars(command.name.as_str())) {
                let arguments = extract_command_arguments(command.name.as_str(), query);
                if arguments.is_some() {
                    let found = Queryable::CustomCommand { command: command.clone(), arguments };
                    results.push(found);
                    assert(results.deep_view() =~= before.push(found@));
                }
            }
        } else if finds(&lowered_query, command.name.as_str(), &command.description) {
            let found = Queryable::CustomCommand { command: command.clone(), arguments: None };
            results.push(found);
            assert(results.deep_view() =~= before.push(found@));
        }
        i += 1;
    }
    assert(custom_commands.deep_view().take(custom_commands.len() as int)
        =~= custom_commands.deep_view());
    results
}

fn find_applications(query: &str, catalog: &Vec<Application>) -> (results: Vec<Queryable>)
    ensures
        results.deep_view() == matching_applications(catalog.deep_view(), query@),
{
    let lowered_query = lowercase_chars(query);
    let mut results: Vec<Queryable> = Vec::new();
    let mut i: usize = 0;
    proof {
        assert(catalog.deep_view().take(0) =~= Seq::empty());
        assert(results.deep_view() =~= Seq::empty());
    }
    while i < catalog.len()
        invariant
            i <= catalog.len(),
            lowered_query@ == lowercase(query@),
            results.deep_view() == matching_applications(
                catalog.deep_view().take(i as int),
                query@,
            ),
        decreases catalog.len() - i,
    {
        let application = &catalog[i];
        let ghost before = results.deep_view();
        proof {
            let upto = catalog.deep_view().take(i + 1);
            assert(upto.drop_last() =~= catalog.deep_view().take(i as int));
            assert(upto.last() == application@);
        }
        if finds(&lowered_query, application.name.as_str(), &application.description) {
            let found = Queryable::Application(application.clone());
            results.push(found);
            assert(results.deep_view() =~= before.push(found@));
        }
        i += 1;
    }
    assert(catalog.deep_view().take(catalog.len() as int) =~= catalog.deep_view());
    results
}

fn search_fallbacks(query: &str, engines: &Vec<(String, SearchUrl)>) -> (results: Vec<Queryable>)
    ensures
        results.deep_view() == fallbacks(engines.deep_view(), query@),
{
    let mut results: Vec<Queryable> = Vec::new();
    let mut i: usize = 0;
    while i < engines.len()
        invariant
            i <= engines.len(),
            results.deep_view() == fallbacks(engines.deep_view(), query@).take(i as int),
        decreases engines.len() - i,
    {
        let ghost before = results.deep_view();
        let found = Queryable::SearchFallback {
            search_url: engines[i].1.clone(),
            query: query.to_owned(),
        };
        results.push(found);
        assert(results.deep_view() =~= before.push(found@));
        assert(results.deep_view() =~= fallbacks(engines.deep_view(), query@).take(i + 1));
        i += 1;
    }
    assert(fallbacks(engines.deep_view(), query@).take(engines.len() as int) =~= fallbacks(
        engines.deep_view(),
        query@,
    ));
    results
}

/// Resolves a query against the catalog and the registries, given the
/// calculator's answer to it. A blank query resolves to nothing; an answer
/// stands alone; otherwise the matching commands come first, then the
/// matching applications, and where neither matches, one web search for
/// each search engine.
pub fn resolve(
    apps: &Vec<Application>,
    config: &Config,
    query: &str,
    calculation: Option<String>,
) -> (results: Vec<Queryable>)
    ensures
        results.deep_view() == resolved(
            query@,
            apps.deep_view(),
            config@.custom_commands,
            config@.search_urls,
            calculation.deep_view(),
        ),
{
    let mut results: Vec<Queryable> = Vec::new();
    if blank(&chars_of(query)) {
        assert(results.deep_view() =~= Seq::empty());
        return results;
    }
    if let Some(result) = calculation {
        let found = Queryable::Calculator { expression: query.to_owned(), result };
        results.push(found);
        assert(results.deep_view() =~= seq![found@]);
        return results;
    }
    let mut results = build_custom_commands(query, &config.custom_commands);
    let mut found = find_applications(query, &apps);
    let ghost first = results.deep_view();
    let ghost second = found.deep_view();
    results.append(&mut found);
    assert(results.deep_view() =~= first + second);
    if results.len() == 0 {
        return search_fallbacks(query, &config.search_urls);
    }
    results
}

/// Resolves a query: as `resolve` does, with the calculator's answer
/// computed from the query.
pub fn filter_applications(apps: &Vec<Application>, config: &Config, query: &str) -> (results: Vec<
    Queryable,
>)
    ensures
        results.deep_view() == resolved(
            query@,
            apps.deep_view(),
            config@.custom_commands,
            config@.search_urls,
            calculation(query@),
        ),
{
    let calculation = if blank(&chars_of(query)) {
        None
    } else {
        try_evaluate_expression(query)
    };
    resolve(apps, config, query, calculation)
}

/// Commands of which none matches give no result.
pub proof fn lemma_no_command_matches(
    commands: Seq<(Seq<char>, CustomCommandView)>,
    query: Seq<char>,
)
    requires
        forall|i: int|
            0 <= i < commands.len() ==> command_match(#[trigger] commands[i].1, query) is None,
    ensures
        matching_commands(commands, query) == Seq::<QueryableView>::empty(),
    decreases commands.len(),
{
    if commands.len() > 0 {
        let earlier = commands.drop_last();
        assert forall|i: int| 0 <= i < earlier.len() implies command_match(
            #[trigger] earlier[i].1,
            query,
        ) is None by {
            assert(earlier[i] == commands[i]);
        }
        lemma_no_command_matches(earlier, query);
        assert(command_match(commands[commands.len() - 1].1, query) is None);
    }
}

/// A catalog in which the query finds nothing gives no result.
pub proof fn lemma_no_application_matches(catalog: Seq<ApplicationView>, query: Seq<char>)
    requires
        forall|i: int|
            0 <= i < catalog.len() ==> !is_found(
                lowercase(query),
                (#[trigger] catalog[i]).name,
                catalog[i].description,
            ),
    ensures
        matching_applications(catalog, query) == Seq::<QueryableView>::empty(),
    decreases catalog.len(),
{
    if catalog.len() > 0 {
        let earlier = catalog.drop_last();
        assert forall|i: int| 0 <= i < earlier.len() implies !is_found(
            lowercase(query),
            (#[trigger] earlier[i]).name,
            earlier[i].description,
        ) by {
            assert(earlier[i] == catalog[i]);
        }
        lemma_no_application_matches(earlier, query);
        assert(!is_found(
            lowercase(query),
            catalog[catalog.len() - 1].name,
            catalog[catalog.len() - 1].description,
        ));
    }
}

/// A blank query resolves to nothing, whatever the catalog, the registries
/// and the calculator hold.
pub proof fn lemma_blank_query_resolves_to_nothing(
    query: Seq<char>,
    catalog: Seq<ApplicationView>,
    commands: Seq<(Seq<char>, CustomCommandView)>,
    engines: Seq<(Seq<char>, SearchUrlView)>,
    calculation: Option<Seq<char>>,
)
    requires
        is_blank(query),
    ensures
        resolved(query, catalog, commands, engines, calculation).len() == 0,
{
}

/// A query that is an expression resolves to its value alone.
pub proof fn lemma_expression_resolves_to_its_value(
    query: Seq<char>,
    catalog: Seq<ApplicationView>,
    commands: Seq<(Seq<char>, CustomCommandView)>,
    engines: Seq<(Seq<char>, SearchUrlView)>,
    result: Seq<char>,
)
    requires
        !is_blank(query),
    ensures
        resolved(query, catalog, commands, engines, Some(result)) == seq![
            QueryableView::Calculator { expression: query, result },
        ],
{
}

/// A query that is not blank, is no expression, and matches no command and
/// no application, resolves to one web search for each search engine, in
/// registry order, each with the query as it was typed.
pub proof fn lemma_unmatched_query_falls_back(
    query: Seq<char>,
    catalog: Seq<ApplicationView>,
    commands: Seq<(Seq<char>, CustomCommandView)>,
    engines: Seq<(Seq<char>, SearchUrlView)>,
)
    requires
        !is_blank(query),
        forall|i: int|
            0 <= i < commands.len() ==> command_match(#[trigger] commands[i].1, query) is None,
        forall|i: int|
            0 <= i < catalog.len() ==> !is_found(
                lowercase(query),
                (#[trigger] catalog[i]).name,
                catalog[i].description,
            ),
    ensures
        resolved(query, catalog, commands, engines, None).len() == engines.len(),
        forall|i: int|
            0 <= i < engines.len() ==> #[trigger] resolved(
                query,
                catalog,
                commands,
                engines,
                None,
            )[i] == (QueryableView::SearchFallback { search_url: engines[i].1, query }),
{
    lemma_no_command_matches(commands, query);
    lemma_no_application_matches(catalog, query);
}

} // verus!
