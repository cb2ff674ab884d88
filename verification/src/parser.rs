//! The descriptor parser: from one application descriptor to a catalog
//! record, or to the reason why the descriptor yields none.

use crate::application::{is_field_code, Application, ApplicationView};
use crate::text::{
    ascii_lowered, chars_of, is_word, join_words, joined, lemma_words_are_words,
    lemma_words_of_joined, lower_ascii, same_text, split_words, string_from, words,
};
use freedesktop_entry_parser::Entry as DesktopFile;
use vstd::prelude::*;
use vstd::string::*;

verus! {

/// The most comment lines that may follow one another in a descriptor that
/// is parsed: the outside parser recurses once for each comment line in a
/// row.
pub const MAX_COMMENT_RUN: usize = 4096;

/// Why a descriptor yields no catalog record.
#[derive(Debug, Clone, Copy, PartialEq, Eq, Structural)]
pub enum Rejected {
    /// The file name does not carry the descriptor extension.
    NotDescriptor,
    /// The content cannot be read as a descriptor.
    Unreadable,
    /// More comment lines follow one another than are parsed.
    TooManyComments,
    /// `Type` is absent or is not `Application`.
    NotApplication,
    /// `Hidden` or `NoDisplay` is true.
    Hidden,
    /// `Name` is absent.
    NoName,
    /// `Exec` is absent.
    NoExec,
    /// `Exec` holds no token before its first field code.
    EmptyExec,
}

impl Rejected {
    /// The reason in words, for a diagnostic.
    pub fn reason(&self) -> (words: String)
        ensures
            words@ == match *self {
                Rejected::NotDescriptor => "invalid .desktop"@,
                Rejected::Unreadable => "Cannot be read as a descriptor"@,
                Rejected::TooManyComments => "Too many comment lines in a row"@,
                Rejected::NotApplication => "Not an Application type"@,
                Rejected::Hidden => "Hidden or NoDisplay"@,
                Rejected::NoName => "No Name field found"@,
                Rejected::NoExec => "No Exec field found"@,
                Rejected::EmptyExec => "Invalid exec"@,
            },
    {
        match self {
            Rejected::NotDescriptor => String::from_str("invalid .desktop"),
            Rejected::Unreadable => String::from_str("Cannot be read as a descriptor"),
            Rejected::TooManyComments => String::from_str("Too many comment lines in a row"),
            Rejected::NotApplication => String::from_str("Not an Application type"),
            Rejected::Hidden => String::from_str("Hidden or NoDisplay"),
            Rejected::NoName => String::from_str("No Name field found"),
            Rejected::NoExec => String::from_str("No Exec field found"),
            Rejected::EmptyExec => String::from_str("Invalid exec"),
        }
    }
}

/// The values of the keys that the parser honours, as they stand in the
/// primary section of a descriptor. A key that the section lacks is `None`.
#[derive(Debug, PartialEq, Eq)]
pub struct Descriptor {
    /// `Type`
    pub kind: Option<String>,
    /// `Name`, without a locale
    pub name: Option<String>,
    /// `Exec`
    pub command: Option<String>,
    /// `Comment`, without a locale
    pub comment: Option<String>,
    /// `Hidden`
    pub hidden: Option<String>,
    /// `NoDisplay`
    pub no_display: Option<String>,
    /// `Terminal`
    pub terminal: Option<String>,
}

/// What a `Descriptor` holds, as mathematical values.
pub struct DescriptorView {
    pub kind: Option<Seq<char>>,
    pub name: Option<Seq<char>>,
    pub command: Option<Seq<char>>,
    pub comment: Option<Seq<char>>,
    pub hidden: Option<Seq<char>>,
    pub no_display: Option<Seq<char>>,
    pub terminal: Option<Seq<char>>,
}

impl View for Descriptor {
    type V = DescriptorView;

    open spec fn view(&self) -> DescriptorView {
        DescriptorView {
            kind: self.kind.deep_view(),
            name: self.name.deep_view(),
            command: self.command.deep_view(),
            comment: self.comment.deep_view(),
            hidden: self.hidden.deep_view(),
            no_display: self.no_display.deep_view(),
            terminal: self.terminal.deep_view(),
        }
    }
}

/// The name of the primary section.
pub open spec fn primary_section() -> Seq<char> {
    "Desktop Entry"@
}

/// Whether a boolean key's value is `true`, whatever the case of its letters.
pub open spec fn is_true_text(value: Seq<char>) -> bool {
    &&& value.len() == 4
    &&& ascii_lowered(value[0]) == 't'
    &&& ascii_lowered(value[1]) == 'r'
    &&& ascii_lowered(value[2]) == 'u'
    &&& ascii_lowered(value[3]) == 'e'
}

/// Whether a boolean key is set: an absent key is false.
pub open spec fn is_set(value: Option<Seq<char>>) -> bool {
    value matches Some(text) && is_true_text(text)
}

/// The number of leading tokens that stand before the first field code.
pub open spec fn kept_count(tokens: Seq<Seq<char>>) -> nat
    decreases tokens.len(),
{
    if tokens.len() == 0 || is_field_code(tokens[0]) {
        0
    } else {
        1 + kept_count(tokens.drop_first())
    }
}

/// The tokens of a command line that stand before its first field code.
pub open spec fn kept_tokens(command: Seq<char>) -> Seq<Seq<char>> {
    words(command).take(kept_count(words(command)) as int)
}

/// A command line without its field codes: the tokens before the first field
/// code, joined by single spaces.
pub open spec fn cleaned(command: Seq<char>) -> Seq<char> {
    joined(kept_tokens(command))
}

/// Whether a path names a descriptor: its last component ends in `.desktop`
/// and has at least one character before that.
pub open spec fn has_descriptor_extension(path: Seq<char>) -> bool {
    &&& path.len() > 8
    &&& path.skip(path.len() - 8) == seq!['.', 'd', 'e', 's', 'k', 't', 'o', 'p']
    &&& path[path.len() - 9] != '/'
}

/// The record that a descriptor yields, or the reason why it yields none.
/// The checks stand in the order in which they are made.
pub open spec fn accepted(descriptor: DescriptorView) -> Result<ApplicationView, Rejected> {
    if descriptor.kind != Some("Application"@) {
        Err(Rejected::NotApplication)
    } else if is_set(descriptor.hidden) || is_set(descriptor.no_display) {
        Err(Rejected::Hidden)
    } else if descriptor.name is None {
        Err(Rejected::NoName)
    } else if descriptor.command is None {
        Err(Rejected::NoExec)
    } else if kept_tokens(descriptor.command->0).len() == 0 {
        Err(Rejected::EmptyExec)
    } else {
        Ok(
            ApplicationView {
                name: descriptor.name->0,
                command: cleaned(descriptor.command->0),
                description: descriptor.comment,
                terminal: is_set(descriptor.terminal),
            },
        )
    }
}

/// A parse result with its record taken by its view.
pub open spec fn outcome(result: Result<Application, Rejected>) -> Result<
    ApplicationView,
    Rejected,
> {
    match result {
        Ok(application) => Ok(application@),
        Err(reason) => Err(reason),
    }
}

/// Whether the path names a descriptor.
pub fn is_desktop_entry(path: &str) -> (r: bool)
    ensures
        r == has_descriptor_extension(path@),
{
    let chars = chars_of(path);
    let n: usize = chars.len();
    if n <= 8 {
        return false;
    }
    let matches = chars[n - 8] == '.' && chars[n - 7] == 'd' && chars[n - 6] == 'e' && chars[n
        - 5] == 's' && chars[n - 4] == 'k' && chars[n - 3] == 't' && chars[n - 2] == 'o'
        && chars[n - 1] == 'p';
    proof {
        let tail = path@.skip(path@.len() - 8);
        let suffix = seq!['.', 'd', 'e', 's', 'k', 't', 'o', 'p'];
        if matches {
            assert(tail =~= suffix);
        } else {
            assert(tail[0] == chars@[n - 8] && tail[1] == chars@[n - 7] && tail[2] == chars@[n
                - 6] && tail[3] == chars@[n - 5] && tail[4] == chars@[n - 4] && tail[5]
                == chars@[n - 3] && tail[6] == chars@[n - 2] && tail[7] == chars@[n - 1]);
            assert(suffix[0] == '.' && suffix[1] == 'd' && suffix[2] == 'e' && suffix[3] == 's'
                && suffix[4] == 'k' && suffix[5] == 't' && suffix[6] == 'o' && suffix[7]
                == 'p');
        }
    }
    matches && chars[n - 9] != '/'
}

/// Whether a boolean key is set.
pub fn flag(value: &Option<String>) -> (r: bool)
    ensures
        r == is_set(value.deep_view()),
{
    match value {
        None => false,
        Some(text) => {
            let chars = chars_of(text.as_str());
            chars.len() == 4 && lower_ascii(chars[0]) == 't' && lower_ascii(chars[1]) == 'r'
                && lower_ascii(chars[2]) == 'u' && lower_ascii(chars[3]) == 'e'
        },
    }
}

/// The command line without its field codes, or `None` where the key is
/// absent or no token stands before the first field code.
pub fn clean_exec(command: Option<&str>) -> (result: Option<String>)
    ensures
        result.deep_view() == match command {
            None => None::<Seq<char>>,
            Some(line) => if kept_tokens(line@).len() == 0 {
                None
            } else {
                Some(cleaned(line@))
            },
        },
{
    let line = match command {
        None => {
            return None;
        },
        Some(line) => line,
    };
    let chars = chars_of(line);
    let tokens = split_words(&chars);
    let mut kept: Vec<Vec<char>> = Vec::new();
    let mut i: usize = 0;
    proof {
        assert(tokens.deep_view().skip(0) =~= tokens.deep_view());
        assert(kept.deep_view() =~= tokens.deep_view().take(0));
    }
    while i < tokens.len() && !(tokens[i].len() > 0 && tokens[i][0] == '%')
        invariant
            i <= tokens.len(),
            kept.deep_view() == tokens.deep_view().take(i as int),
            kept_count(tokens.deep_view()) == i + kept_count(tokens.deep_view().skip(i as int)),
        decreases tokens.len() - i,
    {
        proof {
            let rest = tokens.deep_view().skip(i as int);
            crate::text::lemma_chars_deep_view(tokens@[i as int]);
            assert(rest[0] == tokens@[i as int]@);
            assert(rest.drop_first() =~= tokens.deep_view().skip(i + 1));
            assert(tokens.deep_view().take(i + 1) =~= tokens.deep_view().take(i as int).push(
                tokens@[i as int]@,
            ));
        }
        let ghost before = kept.deep_view();
        let token = tokens[i].clone();
        assert(token@ == tokens@[i as int]@);
        proof {
            crate::text::lemma_chars_deep_view(token);
        }
        kept.push(token);
        assert(kept.deep_view() =~= before.push(tokens@[i as int]@));
        i += 1;
    }
    proof {
        let rest = tokens.deep_view().skip(i as int);
        if i < tokens.len() {
            crate::text::lemma_chars_deep_view(tokens@[i as int]);
            assert(rest[0] == tokens@[i as int]@);
        }
        assert(kept_count(rest) == 0);
        assert(kept.deep_view() == kept_tokens(line@));
        assert(kept.deep_view().len() == kept@.len());
    }
    if kept.len() == 0 {
        return None;
    }
    let joined_chars = join_words(&kept);
    Some(string_from(&joined_chars))
}

/// The outside parser's descriptor. What it holds is known through
/// `entry_attributes` alone.
#[verifier::external_type_specification]
#[verifier::external_body]
pub struct ExDesktopFile(DesktopFile);

/// The values that a parsed descriptor holds, by section name and key. A key
/// that stands only with a locale in brackets has no value here.
pub uninterp spec fn entry_attributes(entry: DesktopFile) -> Map<(Seq<char>, Seq<char>), Seq<char>>;

/// What the outside parser makes of a descriptor's bytes: its values by
/// section name and key, or `None` where it refuses the bytes.
pub uninterp spec fn parsed_attributes(content: Seq<u8>) -> Option<
    Map<(Seq<char>, Seq<char>), Seq<char>>,
>;

/// The value under a section and key, if there is one.
pub open spec fn lookup(
    attributes: Map<(Seq<char>, Seq<char>), Seq<char>>,
    section: Seq<char>,
    key: Seq<char>,
) -> Option<Seq<char>> {
    if attributes.contains_key((section, key)) {
        Some(attributes[(section, key)])
    } else {
        None
    }
}

/// Whether the outside parser skips a byte between lines: a line feed, a
/// tab, a carriage return or a space.
pub open spec fn is_line_space(byte: u8) -> bool {
    byte == 10 || byte == 9 || byte == 13 || byte == 32
}

/// What a scan for comment lines knows at some place of a descriptor.
pub struct CommentScan {
    /// Whether the place lies behind a `#` on the same line.
    pub in_comment: bool,
    /// The number of `#` so far that nothing but the rest of their lines and
    /// line space parts from one another and from the place.
    pub run: nat,
    /// The largest value that `run` has had.
    pub longest: nat,
}

/// The scan at the end of `bytes`. A `#` outside a comment begins a comment
/// and lengthens the run; the comment ends with its line; any other byte
/// outside a comment, unless it is line space, ends the run.
pub open spec fn comment_scan(bytes: Seq<u8>) -> CommentScan
    decreases bytes.len(),
{
    if bytes.len() == 0 {
        CommentScan { in_comment: false, run: 0, longest: 0 }
    } else {
        let before = comment_scan(bytes.drop_last());
        let byte = bytes.last();
        if before.in_comment {
            CommentScan { in_comment: byte != 10, run: before.run, longest: before.longest }
        } else if is_line_space(byte) {
            before
        } else if byte == 35 {
            CommentScan {
                in_comment: true,
                run: before.run + 1,
                longest: if before.longest < before.run + 1 {
                    before.run + 1
                } else {
                    before.longest
                },
            }
        } else {
            CommentScan { in_comment: false, run: 0, longest: before.longest }
        }
    }
}

/// The largest number of comment lines that follow one another with nothing
/// but line space between them. A `#` that stands behind other text on its
/// line is counted as a comment too, so the number is never too small.
pub open spec fn longest_comment_run(content: Seq<u8>) -> nat {
    comment_scan(content).longest
}

/// Whether no more comment lines follow one another than are parsed.
pub open spec fn has_short_comment_runs(content: Seq<u8>) -> bool {
    longest_comment_run(content) <= MAX_COMMENT_RUN
}

/// The honoured keys of the primary section, out of all parsed values.
pub open spec fn descriptor_of(
    attributes: Map<(Seq<char>, Seq<char>), Seq<char>>,
) -> DescriptorView {
    DescriptorView {
        kind: lookup(attributes, primary_section(), "Type"@),
        name: lookup(attributes, primary_section(), "Name"@),
        command: lookup(attributes, primary_section(), "Exec"@),
        comment: lookup(attributes, primary_section(), "Comment"@),
        hidden: lookup(attributes, primary_section(), "Hidden"@),
        no_display: lookup(attributes, primary_section(), "NoDisplay"@),
        terminal: lookup(attributes, primary_section(), "Terminal"@),
    }
}

/// What parsing makes of a file: of its path and of its bytes, which are
/// `None` where the file could not be read.
pub open spec fn parsed_file(path: Seq<char>, content: Option<Seq<u8>>) -> Result<
    ApplicationView,
    Rejected,
> {
    if !has_descriptor_extension(path) {
        Err(Rejected::NotDescriptor)
    } else if content is None {
        Err(Rejected::Unreadable)
    } else if !has_short_comment_runs(content->0) {
        Err(Rejected::TooManyComments)
    } else {
        match parsed_attributes(content->0) {
            None => Err(Rejected::Unreadable),
            Some(attributes) => accepted(descriptor_of(attributes)),
        }
    }
}

/// Calls `freedesktop_entry_parser::Entry::parse`, which reads the bytes of
/// one descriptor and performs no I/O. The result depends on the bytes alone:
/// the contract names it `parsed_attributes`, and says that a descriptor that
/// comes back holds exactly those values. The outside parser recurses once
/// for each comment line in a row, hence the bound on such runs.
#[verifier::external_body]
fn parse_entry(content: &Vec<u8>) -> (entry: Option<DesktopFile>)
    requires
        has_short_comment_runs(content@),
    ensures
        match entry {
            Some(parsed) => parsed_attributes(content@) == Some(entry_attributes(parsed)),
            None => parsed_attributes(content@) is None,
        },
{
    DesktopFile::parse(content.as_slice()).ok()
}

/// Calls `Entry::section` and `AttrSelector::attr`: the value that stands
/// under `key`, without a locale, in the section named `section`, or `None`
/// where the descriptor has no such section or key.
#[verifier::external_body]
fn attribute(entry: &DesktopFile, section: &str, key: &str) -> (value: Option<String>)
    ensures
        value.deep_view() == lookup(entry_attributes(*entry), section@, key@),
{
    entry.section(section).attr(key).map(str::to_owned)
}

/// Whether no more comment lines follow one another than are parsed.
pub fn short_comment_runs(content: &Vec<u8>) -> (r: bool)
    ensures
        r == has_short_comment_runs(content@),
{
    let mut in_comment = false;
    let mut run: usize = 0;
    let mut longest: usize = 0;
    let mut i: usize = 0;
    assert(content@.take(0) =~= Seq::<u8>::empty());
    while i < content.len()
        invariant
            i <= content.len(),
            comment_scan(content@.take(i as int)) == (CommentScan {
                in_comment,
                run: run as nat,
                longest: longest as nat,
            }),
            run <= i,
            longest <= i,
        decreases content.len() - i,
    {
        assert(content@.take(i + 1).drop_last() =~= content@.take(i as int));
        let byte = content[i];
        if in_comment {
            in_comment = byte != 10u8;
        } else if byte == 10u8 || byte == 9u8 || byte == 13u8 || byte == 32u8 {
        } else if byte == 35u8 {
            in_comment = true;
            run += 1;
            if longest < run {
                longest = run;
            }
        } else {
            run = 0;
        }
        i += 1;
    }
    assert(content@.take(content.len() as int) =~= content@);
    longest <= MAX_COMMENT_RUN
}

/// Reads the honoured keys out of a parsed descriptor.
fn read_descriptor(entry: &DesktopFile) -> (descriptor: Descriptor)
    ensures
        descriptor@ == descriptor_of(entry_attributes(*entry)),
{
    Descriptor {
        kind: attribute(entry, "Desktop Entry", "Type"),
        name: attribute(entry, "Desktop Entry", "Name"),
        command: attribute(entry, "Desktop Entry", "Exec"),
        comment: attribute(entry, "Desktop Entry", "Comment"),
        hidden: attribute(entry, "Desktop Entry", "Hidden"),
        no_display: attribute(entry, "Desktop Entry", "NoDisplay"),
        terminal: attribute(entry, "Desktop Entry", "Terminal"),
    }
}

/// Whether the descriptor declares an application.
pub fn ensure_application(descriptor: &Descriptor) -> (r: bool)
    ensures
        r == (descriptor@.kind == Some("Application"@)),
{
    match &descriptor.kind {
        None => false,
        Some(kind) => same_text(kind.as_str(), "Application"),
    }
}

/// Whether the descriptor is meant to be shown: neither `Hidden` nor
/// `NoDisplay` is set.
pub fn ensure_visible(descriptor: &Descriptor) -> (r: bool)
    ensures
        r == !(is_set(descriptor@.hidden) || is_set(descriptor@.no_display)),
{
    !(flag(&descriptor.hidden) || flag(&descriptor.no_display))
}

/// The display name, where the descriptor has one.
pub fn extract_name(descriptor: &Descriptor) -> (name: Option<String>)
    ensures
        name.deep_view() == descriptor@.name,
{
    descriptor.name.clone()
}

/// The command line to spawn, or the reason why there is none.
pub fn extract_exec(descriptor: &Descriptor) -> (command: Result<String, Rejected>)
    ensures
        match command {
            Ok(line) => descriptor@.command is Some && kept_tokens(descriptor@.command->0).len()
                > 0 && line@ == cleaned(descriptor@.command->0),
            Err(reason) => if descriptor@.command is None {
                reason == Rejected::NoExec
            } else {
                kept_tokens(descriptor@.command->0).len() == 0 && reason == Rejected::EmptyExec
            },
        },
{
    match &descriptor.command {
        None => Err(Rejected::NoExec),
        Some(line) => match clean_exec(Some(line.as_str())) {
            None => Err(Rejected::EmptyExec),
            Some(command) => Ok(command),
        },
    }
}

/// Whether the application runs inside a terminal.
pub fn extract_terminal(descriptor: &Descriptor) -> (r: bool)
    ensures
        r == is_set(descriptor@.terminal),
{
    flag(&descriptor.terminal)
}

/// The catalog record for a descriptor's values, or the reason why they
/// yield none.
pub fn accept(descriptor: &Descriptor) -> (result: Result<Application, Rejected>)
    ensures
        outcome(result) == accepted(descriptor@),
        result matches Ok(application) ==> application@.is_launchable(),
{
    proof {
        lemma_accepted_is_launchable(descriptor@);
    }
    if !ensure_application(descriptor) {
        return Err(Rejected::NotApplication);
    }
    if !ensure_visible(descriptor) {
        return Err(Rejected::Hidden);
    }
    let name = match extract_name(descriptor) {
        None => {
            return Err(Rejected::NoName);
        },
        Some(name) => name,
    };
    let command = match extract_exec(descriptor) {
        Err(reason) => {
            return Err(reason);
        },
        Ok(command) => command,
    };
    let terminal = extract_terminal(descriptor);
    let description = descriptor.comment.clone();
    Ok(Application { name, command, description, terminal })
}

/// Parses one descriptor file, given its path and its bytes; the bytes are
/// `None` where the file could not be read.
pub fn parse_desktop_file(path: &str, content: &Option<Vec<u8>>) -> (result: Result<
    Application,
    Rejected,
>)
    ensures
        outcome(result) == parsed_file(path@, content.deep_view()),
        result matches Ok(application) ==> application@.is_launchable(),
{
    if !is_desktop_entry(path) {
        return Err(Rejected::NotDescriptor);
    }
    let bytes = match content {
        None => {
            return Err(Rejected::Unreadable);
        },
        Some(bytes) => bytes,
    };
    proof {
        lemma_bytes_deep_view(*bytes);
    }
    if !short_comment_runs(bytes) {
        return Err(Rejected::TooManyComments);
    }
    match parse_entry(bytes) {
        None => Err(Rejected::Unreadable),
        Some(entry) => {
            let descriptor = read_descriptor(&entry);
            accept(&descriptor)
        },
    }
}

/// On a vector of bytes the deep view is the view.
pub proof fn lemma_bytes_deep_view(bytes: Vec<u8>)
    ensures
        bytes.deep_view() == bytes@,
{
    assert(bytes.deep_view() =~= bytes@);
}

/// The count of kept tokens marks the first field code: no token before it
/// is a field code, and the token at it, if there is one, is.
pub proof fn lemma_kept_count(tokens: Seq<Seq<char>>)
    ensures
        kept_count(tokens) <= tokens.len(),
        forall|i: int| 0 <= i < kept_count(tokens) ==> !is_field_code(#[trigger] tokens[i]),
        kept_count(tokens) < tokens.len() ==> is_field_code(tokens[kept_count(tokens) as int]),
    decreases tokens.len(),
{
    if tokens.len() > 0 && !is_field_code(tokens[0]) {
        let rest = tokens.drop_first();
        lemma_kept_count(rest);
        assert forall|i: int| 0 <= i < kept_count(tokens) implies !is_field_code(
            #[trigger] tokens[i],
        ) by {
            if i > 0 {
                assert(tokens[i] == rest[i - 1]);
            }
        }
        if kept_count(tokens) < tokens.len() {
            assert(tokens[kept_count(tokens) as int] == rest[kept_count(rest) as int]);
        }
    }
}

/// The command line of every accepted record can be spawned as it is.
pub proof fn lemma_accepted_is_launchable(descriptor: DescriptorView)
    ensures
        accepted(descriptor) matches Ok(application) ==> application.is_launchable(),
{
    if accepted(descriptor) is Ok {
        let tokens = words(descriptor.command->0);
        let kept = kept_tokens(descriptor.command->0);
        lemma_kept_count(tokens);
        lemma_words_are_words(descriptor.command->0);
        assert forall|i: int| 0 <= i < kept.len() implies is_word(#[trigger] kept[i]) by {
            assert(kept[i] == tokens[i]);
        }
        lemma_words_of_joined(kept);
        assert forall|i: int| 0 <= i < kept.len() implies !is_field_code(#[trigger] kept[i]) by {
            assert(kept[i] == tokens[i]);
        }
    }
}

/// A descriptor of type `Application` that is neither hidden nor kept from
/// display, has a name, and has a command line whose first token is no field
/// code, is accepted. The record's command line is made of the tokens before
/// the first field code, joined by single spaces; its other fields are the
/// descriptor's.
pub proof fn lemma_valid_descriptor_is_accepted(descriptor: DescriptorView)
    requires
        descriptor.kind == Some("Application"@),
        !is_set(descriptor.hidden),
        !is_set(descriptor.no_display),
        descriptor.name is Some,
        descriptor.command is Some,
        words(descriptor.command->0).len() > 0,
        !is_field_code(words(descriptor.command->0)[0]),
    ensures
        accepted(descriptor) matches Ok(application) && ({
            let tokens = words(descriptor.command->0);
            let count = kept_count(tokens) as int;
            &&& 0 < count <= tokens.len()
            &&& forall|i: int| 0 <= i < count ==> !is_field_code(#[trigger] tokens[i])
            &&& count < tokens.len() ==> is_field_code(tokens[count])
            &&& application.command == joined(tokens.take(count))
            &&& application.name == descriptor.name->0
            &&& application.description == descriptor.comment
            &&& application.terminal == is_set(descriptor.terminal)
        }),
{
    lemma_kept_count(words(descriptor.command->0));
}

/// A descriptor is rejected whenever its type is not `Application`, it is
/// hidden or kept from display, it lacks a name or a command line, or its
/// command line begins with a field code. A rejection carries no record.
pub proof fn lemma_invalid_descriptor_is_rejected(descriptor: DescriptorView)
    requires
        ({
            ||| descriptor.kind != Some("Application"@)
            ||| is_set(descriptor.hidden)
            ||| is_set(descriptor.no_display)
            ||| descriptor.name is None
            ||| descriptor.command is None
            ||| (words(descriptor.command->0).len() > 0 && is_field_code(
                words(descriptor.command->0)[0],
            ))
        }),
    ensures
        accepted(descriptor) is Err,
{
}

} // verus!
