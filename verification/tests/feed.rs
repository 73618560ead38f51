use bangumi::feed::parse_feed;
use bangumi::title::ParsingError;

#[test]
fn test_parse_feed_items() {
    let doc = "<rss><channel>\
        <item><title>Show S01E02</title><enclosure url=\"http://t/1\"/></item>\
        <item><title>Show S01E03</title><enclosure url=\"http://t/2\"/></item>\
        </channel></rss>";
    let items = parse_feed(doc).unwrap();
    assert_eq!(items.len(), 2);
    assert_eq!(items[0].title, "Show S01E02");
    assert_eq!(items[0].torrent_url, "http://t/1");
    let info = items[0].info.as_ref().unwrap();
    assert_eq!(info.show_name, "Show");
    assert_eq!(info.season, 1);
    assert_eq!(info.episode, 2);
    assert_eq!(items[1].torrent_url, "http://t/2");
    assert_eq!(items[1].info.as_ref().unwrap().episode, 3);
}

#[test]
fn test_parse_feed_unreadable_title_kept_without_info() {
    let doc = "<rss><item><title>???</title><enclosure url=\"u\"/></item></rss>";
    let items = parse_feed(doc).unwrap();
    assert_eq!(items.len(), 1);
    assert!(items[0].info.is_none());
}

#[test]
fn test_parse_feed_incomplete_item_dropped() {
    let doc = "<rss><item><title>Show S01E02</title></item>\
        <item><title>Show S01E04</title><enclosure url=\"u4\"/></item></rss>";
    let items = parse_feed(doc).unwrap();
    assert_eq!(items.len(), 1);
    assert_eq!(items[0].torrent_url, "u4");
}

#[test]
fn test_parse_feed_invalid_document() {
    match parse_feed("<html>not a feed</html>") {
        Err(ParsingError::InvalidRss(_)) => {},
        other => panic!("expected InvalidRss, got {:?}", other),
    }
}

#[test]
fn test_parse_feed_no_items() {
    let items = parse_feed("<rss><channel></channel></rss>").unwrap();
    assert_eq!(items.len(), 0);
}
