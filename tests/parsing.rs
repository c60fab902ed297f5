use configuration::config::Config;
use configuration::grammar::{
    exclude_line, include_line, parse_config_line, path_list, ConfigLine, ParseError,
};
use configuration::text::{chars_of, string_of, trim_range, white_space};

fn strings(v: &[&str]) -> Vec<String> {
    v.iter().map(|s| s.to_string()).collect()
}

#[test]
fn parses_config_lines() {
    let test_cases = vec![
        (
            "include /etc/path",
            ConfigLine::Include(strings(&["/etc/path"])),
        ),
        (
            "include\t/etc/a,/etc/b",
            ConfigLine::Include(strings(&["/etc/a", "/etc/b"])),
        ),
        ("exclude /etc/a", ConfigLine::Exclude(strings(&["/etc/a"]))),
    ];

    for test_case in test_cases {
        let (_, actual) = parse_config_line(test_case.0).unwrap();
        assert_eq!(test_case.1, actual);
    }
}

#[test]
fn parses_file_lists() {
    let test_cases = vec![
        ("/etc/file", vec!["/etc/file"]),
        ("/etc/a,/etc/b,/etc/c", vec!["/etc/a", "/etc/b", "/etc/c"]),
        (
            " /etc/a  , /etc/b   ,  /etc/c ",
            vec!["/etc/a", "/etc/b", "/etc/c"],
        ),
        (
            "\t/etc/a\t,/etc/b,/etc/c",
            vec!["/etc/a", "/etc/b", "/etc/c"],
        ),
    ];

    for test_case in test_cases {
        let (_, actual) = path_list(test_case.0).unwrap();
        assert_eq!(strings(&test_case.1), actual);
    }
}

#[test]
fn empty_list_is_rejected() {
    assert_eq!(path_list(""), Err(ParseError::EmptyPathList));
    assert_eq!(path_list("   "), Err(ParseError::EmptyPathList));
    assert_eq!(path_list(",/a"), Err(ParseError::EmptyPathList));
    assert_eq!(path_list("\n/a"), Err(ParseError::EmptyPathList));
}

#[test]
fn trailing_comma_is_rejected() {
    assert_eq!(path_list("/a,"), Err(ParseError::TrailingDelimiter));
    assert_eq!(path_list("/a,  "), Err(ParseError::TrailingDelimiter));
    assert_eq!(path_list("/a,\n/b"), Err(ParseError::TrailingDelimiter));
    assert_eq!(path_list("/a,,/b"), Err(ParseError::TrailingDelimiter));
    assert_eq!(path_list("/a, ,/b"), Err(ParseError::TrailingDelimiter));
}

#[test]
fn path_list_stops_at_line_feed() {
    let (rest, paths) = path_list("/a, /b\n/c").unwrap();
    assert_eq!(rest, "\n/c");
    assert_eq!(paths, strings(&["/a", "/b"]));
}

#[test]
fn inner_spaces_are_kept() {
    let (rest, paths) = path_list("  /my docs/a b ,/c").unwrap();
    assert_eq!(rest, "");
    assert_eq!(paths, strings(&["/my docs/a b", "/c"]));
}

#[test]
fn unicode_whitespace_is_trimmed() {
    let (_, paths) = path_list("\u{a0}/a\u{3000},\u{2003}/b\r").unwrap();
    assert_eq!(paths, strings(&["/a", "/b"]));
}

#[test]
fn joined_paths_come_back_trimmed() {
    let (rest, paths) = path_list(" p1 ,\tp2\t,p 3  ,  q").unwrap();
    assert_eq!(rest, "");
    assert_eq!(paths, strings(&["p1", "p2", "p 3", "q"]));
}

#[test]
fn include_with_one_path() {
    assert_eq!(
        parse_config_line("include /etc/path"),
        Ok((String::new(), ConfigLine::Include(strings(&["/etc/path"]))))
    );
}

#[test]
fn include_with_tab_and_two_paths() {
    assert_eq!(
        parse_config_line("include\t/etc/a,/etc/b"),
        Ok((String::new(), ConfigLine::Include(strings(&["/etc/a", "/etc/b"]))))
    );
}

#[test]
fn exclude_with_one_path() {
    assert_eq!(
        parse_config_line("exclude /etc/a"),
        Ok((String::new(), ConfigLine::Exclude(strings(&["/etc/a"]))))
    );
}

#[test]
fn keyword_needs_whitespace_after_it() {
    assert_eq!(
        parse_config_line("includeXYZ /etc/a"),
        Err(ParseError::MissingSeparatorWhitespace)
    );
    assert_eq!(
        parse_config_line("includefoo /a"),
        Err(ParseError::MissingSeparatorWhitespace)
    );
    assert_eq!(
        parse_config_line("exclude,/a"),
        Err(ParseError::MissingSeparatorWhitespace)
    );
    assert_eq!(parse_config_line("include"), Err(ParseError::MissingSeparatorWhitespace));
}

#[test]
fn unknown_keyword_is_rejected() {
    assert_eq!(parse_config_line("Include /a"), Err(ParseError::UnrecognizedKeyword));
    assert_eq!(parse_config_line(" include /a"), Err(ParseError::UnrecognizedKeyword));
    assert_eq!(parse_config_line(""), Err(ParseError::UnrecognizedKeyword));
    assert_eq!(parse_config_line("incl"), Err(ParseError::UnrecognizedKeyword));
}

#[test]
fn keyword_without_paths_is_rejected() {
    assert_eq!(parse_config_line("include   "), Err(ParseError::EmptyPathList));
    assert_eq!(parse_config_line("exclude /a,"), Err(ParseError::TrailingDelimiter));
}

#[test]
fn keyword_gap_may_span_lines() {
    assert_eq!(
        parse_config_line("include\n /a"),
        Ok((String::new(), ConfigLine::Include(strings(&["/a"]))))
    );
}

#[test]
fn remainder_holds_only_later_lines() {
    let (rest, line) = parse_config_line("include /a, /b\nexclude /c").unwrap();
    assert_eq!(rest, "\nexclude /c");
    assert_eq!(line, ConfigLine::Include(strings(&["/a", "/b"])));
    let (_, next) = parse_config_line(&rest[1..]).unwrap();
    assert_eq!(next, ConfigLine::Exclude(strings(&["/c"])));
}

#[test]
fn single_keyword_parsers() {
    assert_eq!(
        include_line("include /x"),
        Ok((String::new(), ConfigLine::Include(strings(&["/x"]))))
    );
    assert_eq!(include_line("exclude /x"), Err(ParseError::UnrecognizedKeyword));
    assert_eq!(
        exclude_line("exclude /x\n"),
        Ok(("\n".to_string(), ConfigLine::Exclude(strings(&["/x"]))))
    );
    assert_eq!(exclude_line("include /x"), Err(ParseError::UnrecognizedKeyword));
}

#[test]
fn config_collects_directives_in_order() {
    let mut config = Config::default();
    assert!(config.includes.is_empty() && config.excludes.is_empty());
    for line in ["include /a,/b", "exclude /c", "include /d"] {
        let (_, d) = parse_config_line(line).unwrap();
        config.add(d);
    }
    assert_eq!(config.includes, strings(&["/a", "/b", "/d"]));
    assert_eq!(config.excludes, strings(&["/c"]));
}

#[test]
fn text_helpers() {
    let cs = chars_of("  ab c\t");
    assert_eq!(cs, vec![' ', ' ', 'a', 'b', ' ', 'c', '\t']);
    assert_eq!(trim_range(&cs, 0, cs.len()), (2, 6));
    assert_eq!(string_of(&cs, 2, 6), "ab c");
    assert_eq!(trim_range(&cs, 0, 2), (2, 2));
    assert!(white_space('\u{85}'));
    assert!(white_space('\u{2028}'));
    assert!(!white_space('x'));
    assert!(!white_space('\u{200b}'));
}
