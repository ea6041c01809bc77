use gtmov::filename::FilenamePattern;

fn parse(name: &str) -> Option<(String, i64)> {
    FilenamePattern::new().unwrap().parse_file_name(name)
}

#[test]
fn parses_title_and_year() {
    assert_eq!(parse("Movie Title (2024).mp4"), Some(("Movie Title".to_string(), 2024)));
}

#[test]
fn underscores_read_as_spaces() {
    assert_eq!(parse("Another_Movie_(2020).mp4"), Some(("Another Movie".to_string(), 2020)));
}

#[test]
fn surrounding_white_space_is_dropped() {
    assert_eq!(parse("  Spaced Out \t(2001).mkv"), Some(("Spaced Out".to_string(), 2001)));
}

#[test]
fn last_parenthesized_year_counts() {
    assert_eq!(parse("Alien (1979) (2003).avi"), Some(("Alien (1979)".to_string(), 2003)));
}

#[test]
fn unicode_titles_and_extensions() {
    assert_eq!(parse("Ångström (2010).mkv"), Some(("Ångström".to_string(), 2010)));
    assert_eq!(parse("Film (2010).mkä"), Some(("Film".to_string(), 2010)));
}

#[test]
fn non_ascii_digits_match_with_year_zero() {
    // Arabic-Indic digits are decimal digits to the pattern but not to the number parser.
    assert_eq!(parse("Title (\u{662}\u{660}\u{662}\u{660}).mkv"), Some(("Title".to_string(), 0)));
}

#[test]
fn names_off_the_convention_are_refused() {
    assert_eq!(parse("NoYear.mp4"), None);
    assert_eq!(parse("Film (20x4).mkv"), None);
    assert_eq!(parse("Film (202).mkv"), None);
    assert_eq!(parse("Film (20245).mkv"), None);
    assert_eq!(parse("Film (2020)."), None);
    assert_eq!(parse("Film (2020)"), None);
    assert_eq!(parse("(2020).mp4"), None);
    assert_eq!(parse("Film (2020).tar.gz"), None);
    assert_eq!(parse("Film (2020) .mp4"), None);
    assert_eq!(parse("Line\nBreak (2020).mp4"), None);
    assert_eq!(parse(""), None);
}

#[test]
fn title_of_only_spaces_is_empty() {
    assert_eq!(parse("_ (1999).mp4"), Some((String::new(), 1999)));
}

#[test]
fn round_trip_of_a_named_file() {
    let name = format!("{} ({}).{}", "The Third Man", 1949, "mkv");
    assert_eq!(parse(&name), Some(("The Third Man".to_string(), 1949)));
}
