use palet::application::{
    build_custom_commands, extract_command_arguments, filter_applications, resolve, Application,
};
use palet::calculator::{
    calculate, format_expression_result, promote, try_evaluate_expression, Evaluated, MAX_TOKENS,
};
use palet::config::{Config, CustomCommand, SearchUrl};
use palet::queryable::Queryable;

fn application(name: &str, description: Option<&str>) -> Application {
    Application {
        name: name.to_string(),
        command: name.to_lowercase(),
        description: description.map(|d| d.to_string()),
        terminal: false,
    }
}

fn command(name: &str, accepts_arguments: bool) -> CustomCommand {
    CustomCommand {
        name: name.to_string(),
        command: format!("run-{}", name),
        description: None,
        accepts_arguments,
        tty: false,
    }
}

fn engine(name: &str) -> SearchUrl {
    SearchUrl { name: name.to_string(), url: format!("https://{}.example/?q={{q}}", name) }
}

fn config(commands: Vec<CustomCommand>, engines: Vec<SearchUrl>) -> Config {
    let mut config = Config::new("/tmp/index.db".to_string());
    config.custom_commands = commands.into_iter().map(|c| (c.name.clone(), c)).collect();
    config.search_urls = engines.into_iter().map(|e| (e.name.clone(), e)).collect();
    config
}

fn catalog() -> Vec<Application> {
    vec![
        application("Files", Some("Browse the file system")),
        application("Firefox", Some("Web Browser")),
        application("Terminal", None),
    ]
}

fn calculator(expression: &str, result: &str) -> Vec<Queryable> {
    vec![Queryable::Calculator { expression: expression.to_string(), result: result.to_string() }]
}

#[test]
fn three_plus_four_is_seven() {
    let settings = config(vec![command("echo", true)], vec![engine("Google")]);
    assert_eq!(filter_applications(&catalog(), &settings, "3 + 4"), calculator("3 + 4", "7"));
}

#[test]
fn a_quotient_with_a_fraction() {
    let settings = config(Vec::new(), vec![engine("Google")]);
    assert_eq!(filter_applications(&catalog(), &settings, "10.0 / 4"), calculator("10.0 / 4", "2.5"));
    assert_eq!(filter_applications(&catalog(), &settings, "10 / 4.0"), calculator("10 / 4.0", "2.5"));
}

#[test]
fn a_quotient_of_whole_numbers_keeps_its_fraction() {
    let settings = config(Vec::new(), vec![engine("Google")]);
    assert_eq!(filter_applications(&catalog(), &settings, "10 / 4"), calculator("10 / 4", "2.5"));
    assert_eq!(try_evaluate_expression("7 / 2"), Some("3.5".to_string()));
    assert_eq!(try_evaluate_expression("8 / 2"), Some("4".to_string()));
    assert_eq!(try_evaluate_expression("10 / 4 * 2"), Some("5".to_string()));
    assert_eq!(try_evaluate_expression("(0 - 7) / 2"), Some("-3.5".to_string()));
    assert_eq!(try_evaluate_expression("1 / 3"), Some("0.3333333333".to_string()));
    assert_eq!(try_evaluate_expression("len(\"a/b\") + 1"), Some("4".to_string()));
    assert_eq!(try_evaluate_expression("bitand(6, 3) / 1"), Some("2".to_string()));
    assert_eq!(try_evaluate_expression("7 % 4"), Some("3".to_string()));
    assert_eq!(try_evaluate_expression("1 / 0"), None);
}

fn chars(text: &str) -> Vec<char> {
    text.chars().collect()
}

#[test]
fn whole_numbers_are_read_as_floating_point_numbers() {
    assert_eq!(promote(&chars("10 / 4")), chars("10.0 / 4.0"));
    assert_eq!(promote(&chars("7")), chars("7.0"));
    assert_eq!(promote(&chars("(1+2)*3")), chars("(1.0+2.0)*3.0"));
    assert_eq!(promote(&chars("1.5 + 2")), chars("1.5 + 2.0"));
    assert_eq!(promote(&chars("0x10 / 3")), chars("0x10 / 3.0"));
    assert_eq!(promote(&chars("f1 + 2e3 + 4 ")), chars("f1 + 2e3 + 4.0 "));
    assert_eq!(promote(&chars("len(\"a/1 2\") / 2")), chars("len(\"a/1 2\") / 2.0"));
    assert_eq!(promote(&chars("\"a\\\"1 \" + 1")), chars("\"a\\\"1 \" + 1.0"));
    assert_eq!(promote(&chars("\"\\\\\" + 12")), chars("\"\\\\\" + 12.0"));
    assert_eq!(promote(&chars("\"open 1")), chars("\"open 1"));
    assert_eq!(promote(&chars("")), chars(""));
    assert_eq!(promote(&chars("١٢ / 2")), chars("١٢ / 2.0"));
}

#[test]
fn the_exact_value_is_shown_for_quotients_only() {
    let exact = |shortest: &str, fixed: &str, truncated: i64| {
        Some(Evaluated::Float { shortest: shortest.to_string(), fixed: fixed.to_string(), truncated })
    };
    let two = || Some(Evaluated::Integer(2));
    assert_eq!(calculate("10 / 4", two(), exact("2.5", "2.5000000000", 2)), Some("2.5".to_string()));
    assert_eq!(calculate("10 / 4", two(), None), Some("2".to_string()));
    assert_eq!(calculate("10 / 4", two(), Some(Evaluated::Integer(9))), Some("2".to_string()));
    assert_eq!(calculate("10 / 4", two(), Some(Evaluated::Other("x".to_string()))), Some("2".to_string()));
    assert_eq!(calculate("10 - 8", two(), exact("2.5", "2.5000000000", 2)), Some("2".to_string()));
    assert_eq!(calculate("10 / 4", None, exact("2.5", "2.5000000000", 2)), None);
    assert_eq!(calculate("104", two(), exact("2.5", "2.5000000000", 2)), None);
    assert_eq!(
        calculate("1 / 2.0", exact("0.5", "0.5000000000", 0), exact("9", "9.0000000000", 9)),
        Some("0.5".to_string())
    );
    assert_eq!(
        calculate("1 / 2", Some(Evaluated::Other("x".to_string())), exact("9", "9.0000000000", 9)),
        Some("x".to_string())
    );
}

#[test]
fn values_are_formatted() {
    assert_eq!(try_evaluate_expression("2.0 * 3"), Some("6".to_string()));
    assert_eq!(try_evaluate_expression("1 / 3.0"), Some("0.3333333333".to_string()));
    assert_eq!(try_evaluate_expression("0.1 + 0.2"), Some("0.3".to_string()));
    assert_eq!(try_evaluate_expression("2 ^ 0.5"), Some("1.4142135624".to_string()));
    assert_eq!(try_evaluate_expression("-(21 * 2)"), Some("-42".to_string()));
    assert_eq!(try_evaluate_expression("7 % 4"), Some("3".to_string()));
    assert_eq!(try_evaluate_expression("(1.5 + 2.5) * 100"), Some("400".to_string()));
    assert_eq!(try_evaluate_expression("0 - 2.50"), Some("-2.5".to_string()));
    assert_eq!(try_evaluate_expression("2 ^ 70"), Some("9223372036854775807".to_string()));
    assert_eq!(try_evaluate_expression("0.0 * (0 - 1)"), Some("0".to_string()));
    assert_eq!(try_evaluate_expression("1.0 / 0"), Some("inf".to_string()));
    assert_eq!(try_evaluate_expression("(1, 2)"), Some("(1, 2)".to_string()));
    assert_eq!(try_evaluate_expression("(1 < 2)"), Some("true".to_string()));
    assert_eq!(try_evaluate_expression("floor(2.7) + 1"), Some("3".to_string()));
}

#[test]
fn what_does_not_evaluate_is_no_expression() {
    assert_eq!(try_evaluate_expression("firefox"), None);
    assert_eq!(try_evaluate_expression("12"), None);
    assert_eq!(try_evaluate_expression("1 < 2"), None);
    assert_eq!(try_evaluate_expression("firefox-esr"), None);
    assert_eq!(try_evaluate_expression("3 +"), None);
    assert_eq!(try_evaluate_expression("(3"), None);
    assert_eq!(try_evaluate_expression("1 / 0"), None);
    assert_eq!(try_evaluate_expression("9223372036854775807 + 1"), None);
    assert_eq!(try_evaluate_expression(""), None);
}

#[test]
fn functions_that_can_abort_are_not_evaluated() {
    assert_eq!(try_evaluate_expression("math::abs(0 - 1)"), None);
    assert_eq!(try_evaluate_expression("shl(1, 2)"), None);
    assert_eq!(try_evaluate_expression("shr(4, 1)"), None);
    assert_eq!(try_evaluate_expression("1+shl(1, 2)"), None);
    assert_eq!(try_evaluate_expression("str::substring(\"abc\", 1)"), None);
}

#[test]
fn other_names_and_texts_are_evaluated() {
    assert_eq!(try_evaluate_expression("\"abs\" + \"x\""), Some("\"absx\"".to_string()));
    assert_eq!(try_evaluate_expression("len(\"substring\") + 1"), Some("10".to_string()));
    assert_eq!(try_evaluate_expression("math::sqrt(16)"), Some("4".to_string()));
    assert_eq!(try_evaluate_expression("max(3, 8)"), Some("8".to_string()));
}

#[test]
fn comments_are_left_out() {
    assert_eq!(try_evaluate_expression("8 // 2"), Some("8".to_string()));
    assert_eq!(try_evaluate_expression("1 /* one */ + 1"), Some("2".to_string()));
    assert_eq!(try_evaluate_expression("2 /* half */ * 3.5"), Some("7".to_string()));
    assert_eq!(try_evaluate_expression("8 / 2"), Some("4".to_string()));
    assert_eq!(try_evaluate_expression("8 * /2"), None);
    assert_eq!(try_evaluate_expression("1 /* open"), None);
}

#[test]
fn a_comment_cannot_join_the_name_of_a_function_that_can_abort() {
    assert_eq!(try_evaluate_expression("sh/**/l(1, 2)"), None);
    assert_eq!(try_evaluate_expression("s/*x*/hr(4, 1)"), None);
    assert_eq!(try_evaluate_expression("math::a/* */bs(0 - 1)"), None);
    assert_eq!(try_evaluate_expression("str::sub/**/string(\"abc\", 1)"), None);
    assert_eq!(try_evaluate_expression("1 + 1 // as the shell does"), None);
}

fn sum_of_ones(count: usize) -> String {
    let mut expression = String::from("1");
    let mut i = 1;
    while i < count {
        expression.push_str("+1");
        i += 1;
    }
    expression
}

#[test]
fn expressions_of_many_tokens_are_not_evaluated() {
    let ones = (MAX_TOKENS + 1) / 2;
    assert_eq!(try_evaluate_expression(&sum_of_ones(ones)), Some(format!("{}", ones)));
    assert_eq!(try_evaluate_expression(&sum_of_ones(ones + 1)), None);
}

#[test]
fn long_expressions_of_few_tokens_are_evaluated() {
    let mut expression = String::from("\"");
    let mut i = 0;
    while i < 5000 {
        expression.push('a');
        i += 1;
    }
    expression.push_str("\" == \"b\"");
    assert_eq!(try_evaluate_expression(&format!("({})", expression)), Some("false".to_string()));
    let spaces: String = std::iter::repeat(' ').take(5000).collect();
    assert_eq!(try_evaluate_expression(&format!("1{}+ 1", spaces)), Some("2".to_string()));
}

#[test]
fn deep_expressions_are_evaluated() {
    let depth = (MAX_TOKENS - 1) / 2;
    let mut expression = String::new();
    let mut i = 0;
    while i < depth {
        expression.push('(');
        i += 1;
    }
    expression.push('5');
    let mut i = 0;
    while i < depth {
        expression.push(')');
        i += 1;
    }
    assert_eq!(try_evaluate_expression(&expression), Some("5".to_string()));
    let mut expression = String::new();
    let mut i = 0;
    while i + 1 < MAX_TOKENS {
        expression.push('-');
        i += 1;
    }
    expression.push('1');
    assert_eq!(try_evaluate_expression(&expression), Some("-1".to_string()));
    expression.insert(0, '-');
    assert_eq!(try_evaluate_expression(&expression), None);
    let mut expression = String::from("2");
    let mut i = 0;
    while 2 * i + 3 <= MAX_TOKENS {
        expression.push_str("^1");
        i += 1;
    }
    assert_eq!(try_evaluate_expression(&expression), Some("2".to_string()));
}

#[test]
fn formatting_of_each_kind_of_value() {
    assert_eq!(format_expression_result(&Evaluated::Integer(7)), "7");
    assert_eq!(format_expression_result(&Evaluated::Integer(-12)), "-12");
    assert_eq!(format_expression_result(&Evaluated::Integer(i64::MIN)), "-9223372036854775808");
    let float = |shortest: &str, fixed: &str, truncated: i64| Evaluated::Float {
        shortest: shortest.to_string(),
        fixed: fixed.to_string(),
        truncated,
    };
    assert_eq!(format_expression_result(&float("2.5", "2.5000000000", 2)), "2.5");
    assert_eq!(format_expression_result(&float("7", "7.0000000000", 7)), "7");
    assert_eq!(format_expression_result(&float("-0", "-0.0000000000", 0)), "0");
    assert_eq!(format_expression_result(&float("100", "100.0000000000", 100)), "100");
    assert_eq!(format_expression_result(&float("0.00000000001", "0.0000000000", 0)), "0");
    assert_eq!(format_expression_result(&float("0.99999999999", "1.0000000000", 0)), "1");
    assert_eq!(format_expression_result(&float("10.25", "10.2500000000", 10)), "10.25");
    assert_eq!(format_expression_result(&float("inf", "inf", i64::MAX)), "inf");
    assert_eq!(format_expression_result(&float("NaN", "NaN", 0)), "NaN");
    assert_eq!(
        format_expression_result(&float("1000000000000000000000", "1000000000000000000000.0000000000", i64::MAX)),
        "9223372036854775807"
    );
    assert_eq!(format_expression_result(&Evaluated::Other("\"text\"".to_string())), "\"text\"");
}

#[test]
fn an_answer_needs_an_operator() {
    assert_eq!(calculate("3 + 4", Some(Evaluated::Integer(7)), None), Some("7".to_string()));
    assert_eq!(calculate("7", Some(Evaluated::Integer(7)), None), None);
    assert_eq!(calculate("3 + 4", None, None), None);
    assert_eq!(calculate("shl(1)", Some(Evaluated::Integer(7)), None), None);
    for operator in ["+", "-", "*", "/", "(", ")", "^", "%"].iter() {
        assert_eq!(calculate(operator, Some(Evaluated::Integer(1)), None), Some("1".to_string()));
    }
    for other in ["=", "<", "!", "&", ",", "."].iter() {
        assert_eq!(calculate(other, Some(Evaluated::Integer(1)), None), None);
    }
}

#[test]
fn arguments_behind_a_command() {
    assert_eq!(extract_command_arguments("echo", "echo hello"), Some("hello".to_string()));
    assert_eq!(extract_command_arguments("echo", "echo hello  world "), Some("hello  world ".to_string()));
    assert_eq!(extract_command_arguments("echo", "ECHO Hello"), Some("Hello".to_string()));
    assert_eq!(extract_command_arguments("echo", "echo"), None);
    assert_eq!(extract_command_arguments("echo", "echo "), None);
    assert_eq!(extract_command_arguments("echo", "echo    "), None);
    assert_eq!(extract_command_arguments("echo", "echoes x"), None);
    assert_eq!(extract_command_arguments("echo", "ec"), None);
    assert_eq!(extract_command_arguments("écho", "écho ça"), Some("ça".to_string()));
    assert_eq!(extract_command_arguments("", " x"), Some("x".to_string()));
}

#[test]
fn a_command_with_arguments_matches_as_a_prefix() {
    let settings = config(vec![command("echo", true)], vec![engine("Google")]);
    assert_eq!(
        filter_applications(&Vec::new(), &settings, "echo hello"),
        vec![Queryable::CustomCommand {
            command: command("echo", true),
            arguments: Some("hello".to_string()),
        }]
    );
    assert_eq!(
        filter_applications(&Vec::new(), &settings, "Echo Hello"),
        vec![Queryable::CustomCommand {
            command: command("echo", true),
            arguments: Some("Hello".to_string()),
        }]
    );
}

#[test]
fn a_command_with_arguments_does_not_match_without_them() {
    let settings = config(vec![command("echo", true)], Vec::new());
    assert_eq!(filter_applications(&Vec::new(), &settings, "echo"), Vec::new());
    assert_eq!(filter_applications(&Vec::new(), &settings, "echo "), Vec::new());
    assert_eq!(filter_applications(&Vec::new(), &settings, "ech"), Vec::new());
    assert_eq!(filter_applications(&Vec::new(), &settings, "echoes x"), Vec::new());
    assert_eq!(build_custom_commands("echo", &settings.custom_commands), Vec::new());
}

#[test]
fn a_command_without_arguments_matches_by_name_or_description() {
    let mut lock = command("Lock", false);
    lock.description = Some("Lock the SCREEN".to_string());
    let settings = config(vec![lock, command("Logout", false)], vec![engine("Google")]);
    let found = |query: &str| -> Vec<String> {
        filter_applications(&Vec::new(), &settings, query)
            .into_iter()
            .map(|q| match q {
                Queryable::CustomCommand { command, arguments: None } => command.name,
                other => panic!("{:?}", other),
            })
            .collect()
    };
    assert_eq!(found("lo"), vec!["Lock".to_string(), "Logout".to_string()]);
    assert_eq!(found("LOCK"), vec!["Lock".to_string()]);
    assert_eq!(found("screen"), vec!["Lock".to_string()]);
    assert_eq!(found("gout"), vec!["Logout".to_string()]);
}

#[test]
fn commands_come_before_applications() {
    let settings = config(vec![command("fire", false), command("files", false)], vec![engine("Google")]);
    assert_eq!(
        filter_applications(&catalog(), &settings, "fi"),
        vec![
            Queryable::CustomCommand { command: command("fire", false), arguments: None },
            Queryable::CustomCommand { command: command("files", false), arguments: None },
            Queryable::Application(application("Files", Some("Browse the file system"))),
            Queryable::Application(application("Firefox", Some("Web Browser"))),
        ]
    );
}

#[test]
fn applications_match_by_name_or_description_in_catalog_order() {
    let settings = config(Vec::new(), vec![engine("Google")]);
    assert_eq!(
        filter_applications(&catalog(), &settings, "BROWSE"),
        vec![
            Queryable::Application(application("Files", Some("Browse the file system"))),
            Queryable::Application(application("Firefox", Some("Web Browser"))),
        ]
    );
    assert_eq!(
        filter_applications(&catalog(), &settings, "termi"),
        vec![Queryable::Application(application("Terminal", None))]
    );
}

#[test]
fn blank_queries_resolve_to_nothing() {
    let settings = config(vec![command("echo", false)], vec![engine("Google")]);
    assert_eq!(filter_applications(&catalog(), &settings, ""), Vec::new());
    assert_eq!(filter_applications(&catalog(), &settings, "   "), Vec::new());
    assert_eq!(filter_applications(&catalog(), &settings, "\t\n"), Vec::new());
    assert_eq!(resolve(&catalog(), &settings, " ", Some("7".to_string())), Vec::new());
    assert_eq!(filter_applications(&Vec::new(), &config(Vec::new(), vec![engine("Google")]), ""), Vec::new());
}

#[test]
fn unmatched_queries_fall_back_to_every_search_engine() {
    let settings = config(vec![command("echo", true)], vec![engine("Google"), engine("Duck")]);
    assert_eq!(
        filter_applications(&catalog(), &settings, "Rust Verification"),
        vec![
            Queryable::SearchFallback { search_url: engine("Google"), query: "Rust Verification".to_string() },
            Queryable::SearchFallback { search_url: engine("Duck"), query: "Rust Verification".to_string() },
        ]
    );
    assert_eq!(
        filter_applications(&catalog(), &settings, "no-match"),
        vec![
            Queryable::SearchFallback { search_url: engine("Google"), query: "no-match".to_string() },
            Queryable::SearchFallback { search_url: engine("Duck"), query: "no-match".to_string() },
        ]
    );
    assert_eq!(filter_applications(&catalog(), &config(Vec::new(), Vec::new()), "nothing"), Vec::new());
}

#[test]
fn an_answer_stands_alone() {
    let settings = config(vec![command("1", false)], vec![engine("Google")]);
    let catalog = vec![application("1 + 1", None)];
    assert_eq!(filter_applications(&catalog, &settings, "1 + 1"), calculator("1 + 1", "2"));
    assert_eq!(resolve(&catalog, &settings, "Files", Some("x".to_string())), calculator("Files", "x"));
    assert_eq!(
        resolve(&catalog, &settings, "1 +", None),
        vec![Queryable::Application(application("1 + 1", None))]
    );
}

#[test]
fn the_expression_is_kept_as_typed() {
    let settings = config(Vec::new(), Vec::new());
    assert_eq!(filter_applications(&Vec::new(), &settings, " 2 *  3 "), calculator(" 2 *  3 ", "6"));
}
