use asfa::cli::{separator, ColoredTextReplacer};
use asfa::cmd::push::transform_filename;
use asfa::cmd::rename::{IndexOrFile, Rename};
use asfa::errors::StoreError;
use asfa::openssh::OpenSshConfig;
use asfa::strutil::{fmt_i64, fmt_u64, parse_i64, parse_u64};

#[test]
fn separator_is_the_frame_bar() {
    assert_eq!(separator(), "│");
}

#[test]
fn replacer_addresses_colorless_positions() {
    let colored = "\u{1b}[31ma─b\u{1b}[0m".to_string();
    let mut replacer = ColoredTextReplacer::new(colored);
    replacer.replace(1, '┬');
    assert_eq!(replacer.get(), "\u{1b}[31ma┬b\u{1b}[0m");
}

#[test]
fn replacer_latest_replacement_wins() {
    let mut replacer = ColoredTextReplacer::new("abc".to_string());
    replacer.replace(0, 'x');
    replacer.replace(0, 'y');
    assert_eq!(replacer.get(), "ybc");
}

#[test]
fn decimal_formatting_matches_expectations() {
    assert_eq!(fmt_u64(0), "0");
    assert_eq!(fmt_u64(907), "907");
    assert_eq!(fmt_u64(u64::MAX), "18446744073709551615");
    assert_eq!(fmt_i64(-42), "-42");
    assert_eq!(fmt_i64(i64::MIN), "-9223372036854775808");
}

#[test]
fn decimal_parsing_accepts_exactly_numbers() {
    let chars = |s: &str| s.chars().collect::<Vec<char>>();
    assert_eq!(parse_u64(&chars("907")), Some(907));
    assert_eq!(parse_u64(&chars("")), None);
    assert_eq!(parse_u64(&chars("12x")), None);
    assert_eq!(parse_u64(&chars("18446744073709551615")), Some(u64::MAX));
    assert_eq!(parse_u64(&chars("18446744073709551616")), None);
    assert_eq!(parse_i64(&chars("-12")), Some(-12));
    assert_eq!(parse_i64(&chars("+12")), Some(12));
    assert_eq!(parse_i64(&chars("-9223372036854775808")), Some(i64::MIN));
    assert_eq!(parse_i64(&chars("-9223372036854775809")), None);
    assert_eq!(parse_i64(&chars("9223372036854775808")), None);
    assert_eq!(parse_i64(&chars("file.txt")), None);
}

#[test]
fn rename_input_is_an_index_or_a_filename() {
    let rename = Rename {
        details: false,
        input: "-2".to_string(),
        filename: "new.txt".to_string(),
        no_details: false,
    };
    assert!(matches!(rename.parse_input(), IndexOrFile::Index(-2)));
    let rename = Rename {
        details: false,
        input: "report.pdf".to_string(),
        filename: "new.txt".to_string(),
        no_details: false,
    };
    match rename.parse_input() {
        IndexOrFile::Filename(name) => assert_eq!(name, "report.pdf"),
        IndexOrFile::Index(_) => panic!("a file name is not an index"),
    }
}

#[test]
fn upload_names_keep_the_extension() {
    assert_eq!(
        transform_filename(Some("foo_"), None, "bar.png").unwrap(),
        "foo_bar.png"
    );
    assert_eq!(
        transform_filename(None, Some("_bar"), "plots/foo.png").unwrap(),
        "foo_bar.png"
    );
    assert_eq!(
        transform_filename(None, Some("_x"), ".bashrc").unwrap(),
        ".bashrc_x"
    );
    assert_eq!(transform_filename(None, None, "no_ext").unwrap(), "no_ext");
    assert!(matches!(
        transform_filename(None, None, "dir/"),
        Err(StoreError::InvalidFilename { .. })
    ));
}

#[test]
fn openssh_output_becomes_a_keyed_table() {
    let output = "hostname example.org\n\
                  port 2222\n\
                  user deploy\n\
                  identityfile /home/u/.ssh/one\n\
                  identityfile /home/u/.ssh/two\n";
    let cfg = OpenSshConfig::from_output(output);
    assert_eq!(cfg.hostname(), Some("example.org:2222".to_string()));
    assert_eq!(cfg.port(), Some("2222".to_string()));
    assert_eq!(cfg.user(), Some("deploy".to_string()));
    assert_eq!(
        cfg.private_key_files(),
        vec!["/home/u/.ssh/one".to_string(), "/home/u/.ssh/two".to_string()]
    );
}

#[test]
fn openssh_repeated_keys_are_no_single_value() {
    let output = "hostname one\nhostname two\n";
    let cfg = OpenSshConfig::from_output(output);
    assert_eq!(cfg.hostname(), None);
    let output = "hostname only\n";
    let cfg = OpenSshConfig::from_output(output);
    assert_eq!(cfg.hostname(), Some("only".to_string()));
}

#[test]
fn openssh_values_join_their_parts() {
    // the parts after the key are joined back to back
    let output = "proxycommand ssh -W %h:%p jump\n";
    let cfg = OpenSshConfig::from_output(output);
    let mut found = None;
    for (key, _) in cfg.entries.iter() {
        if key == "proxycommand" {
            found = Some(());
        }
    }
    assert!(found.is_some());
}
