//! What the user configures: custom commands, search engines and the
//! launcher's settings.

use crate::text::{
    chars_of, lemma_replaced_once, occurs_at, occurs_in, replace, replaced, string_from,
};
use vstd::prelude::*;
use vstd::string::*;
use vstd::utf8::encode_utf8;

verus! {

/// A command that the user defined. Its registry key is kept beside it, not
/// in it; `name` is what is shown and matched.
#[derive(Debug, PartialEq, Eq)]
pub struct CustomCommand {
    pub name: String,
    pub command: String,
    pub description: Option<String>,
    /// Whether text typed behind the name is handed to the command.
    pub accepts_arguments: bool,
    /// Whether the command runs inside a terminal.
    pub tty: bool,
}

/// What a `CustomCommand` holds, as mathematical values.
pub struct CustomCommandView {
    pub name: Seq<char>,
    pub command: Seq<char>,
    pub description: Option<Seq<char>>,
    pub accepts_arguments: bool,
    pub tty: bool,
}

impl View for CustomCommand {
    type V = CustomCommandView;

    open spec fn view(&self) -> CustomCommandView {
        CustomCommandView {
            name: self.name@,
            command: self.command@,
            description: self.description.deep_view(),
            accepts_arguments: self.accepts_arguments,
            tty: self.tty,
        }
    }
}

impl DeepView for CustomCommand {
    type V = CustomCommandView;

    open spec fn deep_view(&self) -> CustomCommandView {
        self@
    }
}

impl Clone for CustomCommand {
    fn clone(&self) -> (copy: Self)
        ensures
            copy == *self,
    {
        CustomCommand {
            name: self.name.clone(),
            command: self.command.clone(),
            description: self.description.clone(),
            accepts_arguments: self.accepts_arguments,
            tty: self.tty,
        }
    }
}

/// A search engine: `url` is a template in which `{q}` stands for the query.
#[derive(Debug, PartialEq, Eq)]
pub struct SearchUrl {
    pub name: String,
    pub url: String,
}

/// What a `SearchUrl` holds, as mathematical values.
pub struct SearchUrlView {
    pub name: Seq<char>,
    pub url: Seq<char>,
}

impl View for SearchUrl {
    type V = SearchUrlView;

    open spec fn view(&self) -> SearchUrlView {
        SearchUrlView { name: self.name@, url: self.url@ }
    }
}

impl DeepView for SearchUrl {
    type V = SearchUrlView;

    open spec fn deep_view(&self) -> SearchUrlView {
        self@
    }
}

impl Clone for SearchUrl {
    fn clone(&self) -> (copy: Self)
        ensures
            copy == *self,
    {
        SearchUrl { name: self.name.clone(), url: self.url.clone() }
    }
}

/// The launcher's settings. The two registries list their entries, each
/// under its key, in the order in which they are walked.
#[derive(Debug, PartialEq, Eq)]
pub struct Config {
    pub width: i32,
    pub height: i32,
    pub placeholder: String,
    pub search_urls: Vec<(String, SearchUrl)>,
    /// The command that opens a terminal and runs what follows it.
    pub terminal: String,
    pub custom_commands: Vec<(String, CustomCommand)>,
    /// Directories to scan besides the default ones.
    pub extra_paths: Vec<String>,
    pub db_path: String,
}

/// What a `Config` holds, as mathematical values.
pub struct ConfigView {
    pub width: i32,
    pub height: i32,
    pub placeholder: Seq<char>,
    pub search_urls: Seq<(Seq<char>, SearchUrlView)>,
    pub terminal: Seq<char>,
    pub custom_commands: Seq<(Seq<char>, CustomCommandView)>,
    pub extra_paths: Seq<Seq<char>>,
    pub db_path: Seq<char>,
}

impl View for Config {
    type V = ConfigView;

    open spec fn view(&self) -> ConfigView {
        ConfigView {
            width: self.width,
            height: self.height,
            placeholder: self.placeholder@,
            search_urls: self.search_urls.deep_view(),
            terminal: self.terminal@,
            custom_commands: self.custom_commands.deep_view(),
            extra_paths: self.extra_paths.deep_view(),
            db_path: self.db_path@,
        }
    }
}

/// Whether a byte stands for itself in a percent-encoded text: the ASCII
/// letters and digits, and `-`, `.`, `_`, `~`.
pub open spec fn is_unreserved(byte: u8) -> bool {
    ||| 48 <= byte <= 57
    ||| 65 <= byte <= 90
    ||| 97 <= byte <= 122
    ||| byte == 45
    ||| byte == 46
    ||| byte == 95
    ||| byte == 126
}

/// The hexadecimal digit for `d`, where `d < 16`, in capitals.
pub open spec fn hex_digit(d: u8) -> char {
    if d < 10 {
        ((48 + d) as u8) as char
    } else {
        ((55 + d) as u8) as char
    }
}

/// One byte, percent-encoded.
pub open spec fn encoded_byte(byte: u8) -> Seq<char> {
    if is_unreserved(byte) {
        seq![byte as char]
    } else {
        seq!['%', hex_digit(byte / 16), hex_digit(byte % 16)]
    }
}

/// Bytes, percent-encoded one by one.
pub open spec fn percent_encoded(bytes: Seq<u8>) -> Seq<char>
    decreases bytes.len(),
{
    if bytes.len() == 0 {
        Seq::empty()
    } else {
        percent_encoded(bytes.drop_last()) + encoded_byte(bytes.last())
    }
}

/// The address that searches for `query`: the template with each `{q}`
/// replaced by the query's UTF-8 bytes, percent-encoded.
pub open spec fn search_address(template: Seq<char>, query: Seq<char>) -> Seq<char> {
    replaced(template, "{q}"@, percent_encoded(encode_utf8(query)))
}

/// Calls `urlencoding::encode`, which percent-encodes every byte of the
/// text's UTF-8 form except ASCII letters and digits and `-`, `_`, `.`, `~`,
/// with hexadecimal digits in capitals.
#[verifier::external_body]
fn encode(text: &str) -> (encoded: String)
    ensures
        encoded@ == percent_encoded(encode_utf8(text@)),
{
    urlencoding::encode(text).into_owned()
}

impl SearchUrl {
    /// The address that searches for `query` on this engine.
    pub fn build(&self, query: &str) -> (address: String)
        ensures
            address@ == search_address(self@.url, query@),
    {
        let encoded = encode(query);
        let address = replace(
            &chars_of(self.url.as_str()),
            &chars_of("{q}"),
            &chars_of(encoded.as_str()),
        );
        string_from(&address)
    }
}

/// The height of the window where none is configured.
pub fn default_height() -> (height: i32)
    ensures
        height == 700,
{
    700
}

/// The width of the window where none is configured.
pub fn default_width() -> (width: i32)
    ensures
        width == 700,
{
    700
}

/// What the empty query line shows where nothing is configured.
pub fn default_placeholder() -> (placeholder: String)
    ensures
        placeholder@ == "Search..."@,
{
    String::from_str("Search...")
}

/// The search engines of a launcher that configures none: Google, under the
/// key `google`.
pub fn default_search_urls() -> (engines: Vec<(String, SearchUrl)>)
    ensures
        engines.deep_view() == seq![
            (
                "google"@,
                SearchUrlView { name: "Google"@, url: "https://www.google.com/search?q={q}"@ },
            ),
        ],
{
    let mut engines: Vec<(String, SearchUrl)> = Vec::new();
    engines.push(
        (
            String::from_str("google"),
            SearchUrl {
                name: String::from_str("Google"),
                url: String::from_str("https://www.google.com/search?q={q}"),
            },
        ),
    );
    assert(engines.deep_view() =~= seq![
        (
            "google"@,
            SearchUrlView { name: "Google"@, url: "https://www.google.com/search?q={q}"@ },
        ),
    ]);
    engines
}

/// The terminal command where none is configured.
pub fn default_terminal() -> (terminal: String)
    ensures
        terminal@ == "alacritty -e"@,
{
    String::from_str("alacritty -e")
}

/// Where the store lies by default, below the user's configuration
/// directory.
pub fn default_db_path(config_dir: &str) -> (path: String)
    ensures
        path@ == config_dir@ + "/palet/index.db"@,
{
    String::from_str(config_dir).concat("/palet/index.db")
}

/// The height left for the list of results in a window of height `height`:
/// what remains below the query line, and 100 at least.
pub open spec fn list_height_of(height: i32) -> int {
    let below = if height - 60 < i32::MIN {
        i32::MIN as int
    } else {
        height - 60
    };
    if below < 100 {
        100
    } else {
        below
    }
}

impl Config {
    /// The largest height of the list of results.
    pub fn list_height(&self) -> (height: i32)
        ensures
            height == list_height_of(self.height),
    {
        let below: i32 = if self.height < i32::MIN + 60 {
            i32::MIN
        } else {
            self.height - 60
        };
        if below < 100 {
            100
        } else {
            below
        }
    }

    /// The settings of a launcher that configures nothing, with the store at
    /// `db_path`.
    pub fn new(db_path: String) -> (config: Config)
        ensures
            config@ == (ConfigView {
                width: 700,
                height: 700,
                placeholder: "Search..."@,
                search_urls: seq![
                    (
                        "google"@,
                        SearchUrlView {
                            name: "Google"@,
                            url: "https://www.google.com/search?q={q}"@,
                        },
                    ),
                ],
                terminal: "alacritty -e"@,
                custom_commands: Seq::empty(),
                extra_paths: Seq::empty(),
                db_path: db_path@,
            }),
    {
        let config = Config {
            width: default_width(),
            height: default_height(),
            placeholder: default_placeholder(),
            search_urls: default_search_urls(),
            terminal: default_terminal(),
            custom_commands: Vec::new(),
            extra_paths: Vec::new(),
            db_path,
        };
        assert(config@.custom_commands =~= Seq::empty());
        assert(config@.extra_paths =~= Seq::empty());
        config
    }
}

/// A template that holds the marker `{q}` once gives the address in which
/// the encoded query stands in the marker's place.
pub proof fn lemma_single_marker(before: Seq<char>, after: Seq<char>, query: Seq<char>)
    requires
        forall|at: int|
            0 <= at < before.len() ==> !occurs_at("{q}"@, before + "{q}"@ + after, at),
        !occurs_in("{q}"@, after),
    ensures
        search_address(before + "{q}"@ + after, query) == before + percent_encoded(
            encode_utf8(query),
        ) + after,
{
    reveal_strlit("{q}");
    lemma_replaced_once(before, after, "{q}"@, percent_encoded(encode_utf8(query)));
}

} // verus!
