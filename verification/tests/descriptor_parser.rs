use palet::application::Application;
use palet::parser::{
    accept, clean_exec, ensure_application, ensure_visible, extract_exec, extract_name,
    extract_terminal, flag, is_desktop_entry, parse_desktop_file, short_comment_runs, Descriptor,
    Rejected, MAX_COMMENT_RUN,
};

fn text(value: &str) -> Option<String> {
    Some(value.to_string())
}

fn descriptor() -> Descriptor {
    Descriptor {
        kind: text("Application"),
        name: text("Firefox"),
        command: text("/usr/lib/firefox/firefox %u"),
        comment: text("Browse the web"),
        hidden: None,
        no_display: None,
        terminal: None,
    }
}

fn bytes(content: &str) -> Option<Vec<u8>> {
    Some(content.as_bytes().to_vec())
}

#[test]
fn descriptor_extension() {
    assert!(is_desktop_entry("/usr/share/applications/firefox.desktop"));
    assert!(is_desktop_entry("a.desktop"));
    assert!(is_desktop_entry("org.gnome.Maps.desktop"));
    assert!(is_desktop_entry("dir/..desktop"));
    assert!(!is_desktop_entry(".desktop"));
    assert!(!is_desktop_entry("/usr/share/applications/.desktop"));
    assert!(!is_desktop_entry("firefox.desktop.bak"));
    assert!(!is_desktop_entry("firefox.Desktop"));
    assert!(!is_desktop_entry("firefoxdesktop"));
    assert!(!is_desktop_entry("desktop"));
    assert!(!is_desktop_entry(""));
    assert!(!is_desktop_entry("mimeinfo.cache"));
}

#[test]
fn extension_agrees_with_paths() {
    let samples = [
        "a.desktop", ".desktop", "x/.desktop", "x/y.desktop", "y.desktop.in", "..desktop",
        "x.y.desktop", "desktop", "/a/b/c.desktop", "c.DESKTOP", "a.b/c",
    ];
    for sample in samples.iter() {
        let expected = std::path::Path::new(sample).extension().map_or(false, |e| e == "desktop");
        assert_eq!(is_desktop_entry(sample), expected, "{}", sample);
    }
}

#[test]
fn boolean_keys_ignore_case() {
    assert!(flag(&text("true")));
    assert!(flag(&text("True")));
    assert!(flag(&text("TRUE")));
    assert!(flag(&text("tRuE")));
    assert!(!flag(&text("false")));
    assert!(!flag(&text("yes")));
    assert!(!flag(&text("1")));
    assert!(!flag(&text("")));
    assert!(!flag(&text("true ")));
    assert!(!flag(&text("truer")));
    assert!(!flag(&None));
}

#[test]
fn exec_is_cut_at_the_first_field_code() {
    assert_eq!(clean_exec(Some("firefox %u")), text("firefox"));
    assert_eq!(clean_exec(Some("/usr/bin/code --new-window %F --wait")), text("/usr/bin/code --new-window"));
    assert_eq!(clean_exec(Some("  env   A=1\tprogram  ")), text("env A=1 program"));
    assert_eq!(clean_exec(Some("gimp")), text("gimp"));
    assert_eq!(clean_exec(Some("run 100% %f")), text("run 100%"));
}

#[test]
fn exec_without_a_leading_token_is_refused() {
    assert_eq!(clean_exec(Some("%u firefox")), None);
    assert_eq!(clean_exec(Some("  %f")), None);
    assert_eq!(clean_exec(Some("")), None);
    assert_eq!(clean_exec(Some("   ")), None);
    assert_eq!(clean_exec(None), None);
}

#[test]
fn a_valid_descriptor_is_accepted() {
    assert_eq!(
        accept(&descriptor()),
        Ok(Application {
            name: "Firefox".to_string(),
            command: "/usr/lib/firefox/firefox".to_string(),
            description: text("Browse the web"),
            terminal: false,
        })
    );
}

#[test]
fn absent_comment_and_set_terminal() {
    let mut given = descriptor();
    given.comment = None;
    given.terminal = text("True");
    given.hidden = text("false");
    given.no_display = text("no");
    assert_eq!(
        accept(&given),
        Ok(Application {
            name: "Firefox".to_string(),
            command: "/usr/lib/firefox/firefox".to_string(),
            description: None,
            terminal: true,
        })
    );
}

#[test]
fn other_types_are_rejected() {
    let mut given = descriptor();
    given.kind = text("Link");
    assert_eq!(accept(&given), Err(Rejected::NotApplication));
    given.kind = text("application");
    assert_eq!(accept(&given), Err(Rejected::NotApplication));
    given.kind = None;
    assert_eq!(accept(&given), Err(Rejected::NotApplication));
}

#[test]
fn hidden_descriptors_are_rejected() {
    let mut given = descriptor();
    given.hidden = text("true");
    assert_eq!(accept(&given), Err(Rejected::Hidden));
    let mut given = descriptor();
    given.no_display = text("TRUE");
    assert_eq!(accept(&given), Err(Rejected::Hidden));
}

#[test]
fn missing_name_is_rejected() {
    let mut given = descriptor();
    given.name = None;
    assert_eq!(accept(&given), Err(Rejected::NoName));
}

#[test]
fn missing_exec_is_rejected() {
    let mut given = descriptor();
    given.command = None;
    assert_eq!(accept(&given), Err(Rejected::NoExec));
}

#[test]
fn exec_that_begins_with_a_field_code_is_rejected() {
    let mut given = descriptor();
    given.command = text("%U");
    assert_eq!(accept(&given), Err(Rejected::EmptyExec));
    given.command = text("");
    assert_eq!(accept(&given), Err(Rejected::EmptyExec));
}

#[test]
fn checks_are_made_in_order() {
    let given = Descriptor {
        kind: text("Link"),
        name: None,
        command: None,
        comment: None,
        hidden: text("true"),
        no_display: None,
        terminal: None,
    };
    assert_eq!(accept(&given), Err(Rejected::NotApplication));
    let given = Descriptor { kind: text("Application"), ..given };
    assert_eq!(accept(&given), Err(Rejected::Hidden));
    let given = Descriptor { hidden: None, ..given };
    assert_eq!(accept(&given), Err(Rejected::NoName));
    let given = Descriptor { name: text("N"), ..given };
    assert_eq!(accept(&given), Err(Rejected::NoExec));
}

#[test]
fn the_single_checks() {
    let given = descriptor();
    assert!(ensure_application(&given));
    assert!(ensure_visible(&given));
    assert_eq!(extract_name(&given), text("Firefox"));
    assert_eq!(extract_exec(&given), Ok("/usr/lib/firefox/firefox".to_string()));
    assert!(!extract_terminal(&given));
    let given = Descriptor {
        kind: text("Directory"),
        name: None,
        command: text("%f"),
        comment: None,
        hidden: None,
        no_display: text("true"),
        terminal: text("true"),
    };
    assert!(!ensure_application(&given));
    assert!(!ensure_visible(&given));
    assert_eq!(extract_name(&given), None);
    assert_eq!(extract_exec(&given), Err(Rejected::EmptyExec));
    assert!(extract_terminal(&given));
    let given = Descriptor { command: None, ..given };
    assert_eq!(extract_exec(&given), Err(Rejected::NoExec));
}

#[test]
fn a_descriptor_file_is_parsed() {
    let content = "# A browser\n[Desktop Entry]\nVersion=1.0\nType=Application\nName=Firefox\nName[de]=Feuerfuchs\nComment=Browse the web\nComment[de]=Im Netz surfen\nExec=/usr/lib/firefox/firefox %u\nTerminal=false\nIcon=firefox\n\n[Desktop Action new-window]\nName=New Window\nExec=/usr/lib/firefox/firefox --new-window %u\n";
    assert_eq!(
        parse_desktop_file("/usr/share/applications/firefox.desktop", &bytes(content)),
        Ok(Application {
            name: "Firefox".to_string(),
            command: "/usr/lib/firefox/firefox".to_string(),
            description: text("Browse the web"),
            terminal: false,
        })
    );
}

#[test]
fn only_the_primary_section_counts() {
    let content = "[Other]\nType=Application\nName=Other\nExec=other\n";
    assert_eq!(parse_desktop_file("other.desktop", &bytes(content)), Err(Rejected::NotApplication));
    let content = "[Desktop Entry]\nType=Application\nExec=vim %F\nTerminal=true\nName=Vim\n[Extra]\nName=Ignored\nHidden=true\n";
    assert_eq!(
        parse_desktop_file("vim.desktop", &bytes(content)),
        Ok(Application {
            name: "Vim".to_string(),
            command: "vim".to_string(),
            description: None,
            terminal: true,
        })
    );
}

#[test]
fn a_name_with_a_locale_only_is_no_name() {
    let content = "[Desktop Entry]\nType=Application\nName[fr]=Éditeur\nExec=edit\n";
    assert_eq!(parse_desktop_file("edit.desktop", &bytes(content)), Err(Rejected::NoName));
}

#[test]
fn rejections_of_files() {
    let valid = "[Desktop Entry]\nType=Application\nName=A\nExec=a\n";
    assert_eq!(parse_desktop_file("a.txt", &bytes(valid)), Err(Rejected::NotDescriptor));
    assert_eq!(parse_desktop_file("a.txt", &None), Err(Rejected::NotDescriptor));
    assert_eq!(parse_desktop_file("a.desktop", &None), Err(Rejected::Unreadable));
    assert_eq!(parse_desktop_file("a.desktop", &bytes("[Desktop Entry")), Err(Rejected::Unreadable));
    assert_eq!(
        parse_desktop_file("a.desktop", &bytes("[Desktop Entry]\nType=Link\nName=A\nExec=a\n")),
        Err(Rejected::NotApplication)
    );
    assert_eq!(
        parse_desktop_file("a.desktop", &bytes("[Desktop Entry]\nType=Application\nName=A\nExec=a\nHidden=true\n")),
        Err(Rejected::Hidden)
    );
    assert_eq!(
        parse_desktop_file("a.desktop", &bytes("[Desktop Entry]\nType=Application\nName=A\nExec=a\nNoDisplay=True\n")),
        Err(Rejected::Hidden)
    );
    assert_eq!(
        parse_desktop_file("a.desktop", &bytes("[Desktop Entry]\nType=Application\nExec=a\n")),
        Err(Rejected::NoName)
    );
    assert_eq!(
        parse_desktop_file("a.desktop", &bytes("[Desktop Entry]\nType=Application\nName=A\n")),
        Err(Rejected::NoExec)
    );
    assert_eq!(
        parse_desktop_file("a.desktop", &bytes("[Desktop Entry]\nType=Application\nName=A\nExec=%f\n")),
        Err(Rejected::EmptyExec)
    );
    assert_eq!(parse_desktop_file("a.desktop", &bytes(valid)).map(|a| a.name), Ok("A".to_string()));
}

#[test]
fn content_that_is_not_utf8_is_unreadable() {
    let content: Vec<u8> = vec![b'[', b'D', b']', b'\n', b'N', b'=', 0xFF, 0xFE, b'\n'];
    assert_eq!(parse_desktop_file("a.desktop", &Some(content)), Err(Rejected::Unreadable));
}

fn comment_lines(count: usize, between: &str) -> String {
    let mut content = String::new();
    let mut i = 0;
    while i < count {
        content.push_str("# a comment\n");
        content.push_str(between);
        i += 1;
    }
    content
}

const VALID: &str = "[Desktop Entry]\nType=Application\nName=A\nExec=a\n";

#[test]
fn a_long_run_of_comment_lines_is_parsed() {
    let content = format!("{}{}", comment_lines(MAX_COMMENT_RUN, ""), VALID);
    assert!(short_comment_runs(&content.as_bytes().to_vec()));
    assert_eq!(parse_desktop_file("a.desktop", &bytes(&content)).map(|a| a.name), Ok("A".to_string()));
    let content = format!(
        "[Desktop Entry]\nType=Application\n{}Name=A\nExec=a\n",
        comment_lines(MAX_COMMENT_RUN, " \n\t\r\n")
    );
    assert!(short_comment_runs(&content.as_bytes().to_vec()));
    assert_eq!(parse_desktop_file("a.desktop", &bytes(&content)).map(|a| a.name), Ok("A".to_string()));
}

#[test]
fn a_longer_run_of_comment_lines_is_refused() {
    let content = format!("{}{}", comment_lines(MAX_COMMENT_RUN + 1, ""), VALID);
    assert!(!short_comment_runs(&content.as_bytes().to_vec()));
    assert_eq!(parse_desktop_file("a.desktop", &bytes(&content)), Err(Rejected::TooManyComments));
    let content = format!("{}{}", comment_lines(MAX_COMMENT_RUN + 1, "\n  \n"), VALID);
    assert!(!short_comment_runs(&content.as_bytes().to_vec()));
    assert_eq!(parse_desktop_file("a.desktop", &bytes(&content)), Err(Rejected::TooManyComments));
    assert_eq!(parse_desktop_file("a.txt", &bytes(&content)), Err(Rejected::NotDescriptor));
}

#[test]
fn comments_that_stand_apart_are_not_counted_together() {
    let mut content = String::from("[Desktop Entry]\nType=Application\nName=A\nExec=a\n");
    let mut i = 0;
    while i < 3 * MAX_COMMENT_RUN {
        content.push_str(&format!("# comment {}\n# and one more\nX-Key{}=value # {} ## ###\n", i, i, i));
        i += 1;
    }
    assert!(short_comment_runs(&content.as_bytes().to_vec()));
    assert_eq!(
        parse_desktop_file("a.desktop", &bytes(&content)),
        Ok(Application {
            name: "A".to_string(),
            command: "a".to_string(),
            description: None,
            terminal: false,
        })
    );
}

#[test]
fn marks_in_values_are_kept() {
    let mut marks = String::new();
    let mut i = 0;
    while i < 2 * MAX_COMMENT_RUN {
        marks.push('#');
        i += 1;
    }
    let content = format!("[Desktop Entry]\nType=Application\nName={}\nExec=a #{}\n", marks, marks);
    assert_eq!(
        parse_desktop_file("a.desktop", &bytes(&content)),
        Ok(Application {
            name: marks.clone(),
            command: format!("a #{}", marks),
            description: None,
            terminal: false,
        })
    );
    assert!(short_comment_runs(&Vec::new()));
    assert!(short_comment_runs(&b"#\n#\n#".to_vec()));
}

#[test]
fn reasons_in_words() {
    assert_eq!(Rejected::NotDescriptor.reason(), "invalid .desktop");
    assert_eq!(Rejected::Unreadable.reason(), "Cannot be read as a descriptor");
    assert_eq!(Rejected::TooManyComments.reason(), "Too many comment lines in a row");
    assert_eq!(Rejected::NotApplication.reason(), "Not an Application type");
    assert_eq!(Rejected::Hidden.reason(), "Hidden or NoDisplay");
    assert_eq!(Rejected::NoName.reason(), "No Name field found");
    assert_eq!(Rejected::NoExec.reason(), "No Exec field found");
    assert_eq!(Rejected::EmptyExec.reason(), "Invalid exec");
}
