use bangumi::title::{parse, ParsingError};

#[test]
fn test_parse_se_token() {
    let info = parse("Sousou no Frieren S01E12").unwrap();
    assert_eq!(info.show_name, "Sousou no Frieren");
    assert_eq!(info.season, 1);
    assert_eq!(info.episode, 12);
    assert_eq!(info.episode_name, None);
}

#[test]
fn test_parse_zero_padding_insensitive() {
    let padded = parse("Show S01E12").unwrap();
    let plain = parse("Show S1E12").unwrap();
    assert_eq!(padded.season, 1);
    assert_eq!(padded.episode, 12);
    assert_eq!(plain.season, 1);
    assert_eq!(plain.episode, 12);
    assert_eq!(padded.show_name, plain.show_name);
    let long = parse("Show S001E012").unwrap();
    assert_eq!(long.season, 1);
    assert_eq!(long.episode, 12);
}

#[test]
fn test_parse_episode_title() {
    let info = parse("Sousou no Frieren S01E01 - 冒险的终点").unwrap();
    assert_eq!(info.show_name, "Sousou no Frieren");
    assert_eq!(info.season, 1);
    assert_eq!(info.episode, 1);
    assert_eq!(info.episode_name, Some(String::from("冒险的终点")));
}

#[test]
fn test_parse_plain_number() {
    let info = parse("Show - 12").unwrap();
    assert_eq!(info.show_name, "Show");
    assert_eq!(info.season, 1);
    assert_eq!(info.episode, 12);
}

#[test]
fn test_parse_plain_number_skips_qualifier() {
    // "1080p" is glued to a letter, so it does not count as an episode
    // number; the delimited "07" does.
    let info = parse("Show - 07 1080p").unwrap();
    assert_eq!(info.episode, 7);
    assert_eq!(info.season, 1);
    assert_eq!(info.show_name, "Show");
}

#[test]
fn test_parse_unrecognized() {
    match parse("Hello World") {
        Err(ParsingError::UnrecognizedEpisode(t)) => assert_eq!(t, "Hello World"),
        other => panic!("expected UnrecognizedEpisode, got {:?}", other),
    }
}

#[test]
fn test_parse_empty_show_rejected() {
    assert!(parse("S01E02").is_err());
    assert!(parse(" - S01E02").is_err());
}
