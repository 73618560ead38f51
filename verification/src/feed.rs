//! The feed parser: turns one fetched feed document (the provider's
//! RSS-style markup dialect) into a uniform list of announcements, each
//! enriched with the metadata read from its title.  Fetching the document
//! happens outside the crate; a malformed document is a distinct,
//! recoverable failure that yields zero items for the cycle.

use vstd::prelude::*;
use vstd::string::*;
use crate::pipeline::{Announcement, AnnouncementView};
use crate::title::{parse, parse_spec, ParsingError};

verus! {

/// Whether the pattern `p` stands in `s` at position `i`.
pub open spec fn match_at(s: Seq<char>, p: Seq<char>, i: int) -> bool {
    0 <= i && i + p.len() <= s.len() && s.subrange(i, i + p.len()) == p
}

/// The least position at or after `i` where `p` stands in `s`, or `-1`.
pub open spec fn first_match_from(s: Seq<char>, p: Seq<char>, i: int) -> int
    decreases s.len() - i,
{
    if 0 <= i && i + p.len() <= s.len() && p.len() >= 1 {
        if match_at(s, p, i) {
            i
        } else {
            first_match_from(s, p, i + 1)
        }
    } else {
        -1
    }
}

fn match_check(s: &str, len: usize, p: &str, plen: usize, i: usize) -> (r: bool)
    requires
        len == s@.len(),
        plen == p@.len(),
        i + plen <= len,
    ensures
        r == match_at(s@, p@, i as int),
{
    let mut k: usize = 0;
    while k < plen
        invariant
            k <= plen,
            i + plen <= len,
            len == s@.len(),
            plen == p@.len(),
            forall|j: int| 0 <= j < k ==> s@[i + j] == p@[j],
        decreases plen - k,
    {
        if s.get_char(i + k) != p.get_char(k) {
            proof {
                assert(s@.subrange(i as int, (i + plen) as int)[k as int] == s@[i + k]);
            }
            return false;
        }
        k = k + 1;
    }
    proof {
        assert(s@.subrange(i as int, (i + plen) as int) =~= p@);
    }
    true
}

fn find_from(s: &str, len: usize, p: &str, from: usize) -> (r: Option<usize>)
    requires
        len == s@.len(),
        p@.len() >= 1,
        from <= len,
    ensures
        match r {
            Some(i) => from <= i && i + p@.len() <= len && first_match_from(
                s@,
                p@,
                from as int,
            ) == i as int && match_at(s@, p@, i as int),
            None => first_match_from(s@, p@, from as int) == -1,
        },
{
    let plen = p.unicode_len();
    if plen > len {
        return None;
    }
    let mut i = from;
    while i <= len - plen
        invariant
            from <= i <= len,
            plen <= len,
            len == s@.len(),
            plen == p@.len(),
            plen >= 1,
            first_match_from(s@, p@, from as int) == first_match_from(s@, p@, i as int),
        decreases len - i,
    {
        if match_check(s, len, p, plen, i) {
            return Some(i);
        }
        i = i + 1;
    }
    None
}

/// The title and enclosure URL of one item body, when both are present.
pub open spec fn item_fields(body: Seq<char>) -> Option<(Seq<char>, Seq<char>)> {
    let to = first_match_from(body, "<title>"@, 0);
    let tc = if to >= 0 {
        first_match_from(body, "</title>"@, to + "<title>"@.len())
    } else {
        -1
    };
    let uo = first_match_from(body, "url=\""@, 0);
    let uc = if uo >= 0 {
        first_match_from(body, "\""@, uo + "url=\""@.len())
    } else {
        -1
    };
    if to >= 0 && tc >= 0 && uo >= 0 && uc >= 0 {
        Some(
            (
                body.subrange(to + "<title>"@.len(), tc),
                body.subrange(uo + "url=\""@.len(), uc),
            ),
        )
    } else {
        None
    }
}

/// The (title, URL) pairs of the item elements of the document, in
/// order, starting the scan at `from`; items missing a title or an
/// enclosure URL are dropped.
pub open spec fn feed_items_spec(s: Seq<char>, from: int) -> Seq<(Seq<char>, Seq<char>)>
    decreases s.len() - from,
{
    if !(0 <= from < s.len()) {
        Seq::<(Seq<char>, Seq<char>)>::empty()
    } else {
        let io = first_match_from(s, "<item>"@, from);
        if io >= 0 {
            let bstart = io + "<item>"@.len();
            let ic = first_match_from(s, "</item>"@, bstart);
            if ic >= 0 {
                let next0 = ic + "</item>"@.len();
                let next = if from < next0 <= s.len() {
                    next0
                } else {
                    from + 1
                };
                let rest = feed_items_spec(s, next);
                match item_fields(s.subrange(bstart, ic)) {
                    Some(pair) => seq![pair] + rest,
                    None => rest,
                }
            } else {
                Seq::<(Seq<char>, Seq<char>)>::empty()
            }
        } else {
            Seq::<(Seq<char>, Seq<char>)>::empty()
        }
    }
}

/// The announcements of a pair list: each title carries the metadata its
/// parse yields, when it yields any.
pub open spec fn anns_of(pairs: Seq<(Seq<char>, Seq<char>)>) -> Seq<AnnouncementView> {
    pairs.map_values(
        |p: (Seq<char>, Seq<char>)|
            AnnouncementView { title: p.0, torrent_url: p.1, info: parse_spec(p.0) },
    )
}

fn item_announcement(body: &str) -> (r: Option<Announcement>)
    ensures
        match r {
            Some(a) => item_fields(body@) matches Some(pair) && a@.title == pair.0
                && a@.torrent_url == pair.1 && a@.info == parse_spec(pair.0),
            None => item_fields(body@) is None,
        },
{
    proof {
        reveal_strlit("<title>");
        reveal_strlit("</title>");
        reveal_strlit("url=\"");
        reveal_strlit("\"");
    }
    let blen = body.unicode_len();
    let to = match find_from(body, blen, "<title>", 0) {
        Some(i) => i,
        None => {
            return None;
        },
    };
    let tc = match find_from(body, blen, "</title>", to + 7) {
        Some(i) => i,
        None => {
            return None;
        },
    };
    let uo = match find_from(body, blen, "url=\"", 0) {
        Some(i) => i,
        None => {
            return None;
        },
    };
    let uc = match find_from(body, blen, "\"", uo + 5) {
        Some(i) => i,
        None => {
            return None;
        },
    };
    let title = body.substring_char(to + 7, tc).to_owned();
    let url = body.substring_char(uo + 5, uc).to_owned();
    let info = match parse(title.as_str()) {
        Ok(i) => Some(i),
        Err(_) => None,
    };
    Some(Announcement { title, torrent_url: url, info })
}

/// Parses one fetched feed document into announcements.  Fails exactly
/// when the document holds no `<rss` element; otherwise every well-formed
/// item element contributes one announcement, in document order.
pub fn parse_feed(content: &str) -> (r: Result<Vec<Announcement>, ParsingError>)
    ensures
        match r {
            Ok(v) => first_match_from(content@, "<rss"@, 0) >= 0 && v@.map_values(
                |a: Announcement| a@,
            ) == anns_of(feed_items_spec(content@, 0)),
            Err(e) => first_match_from(content@, "<rss"@, 0) == -1 && (e
                matches ParsingError::InvalidRss(m) && m@ == "missing rss element"@),
        },
{
    proof {
        reveal_strlit("<rss");
        reveal_strlit("<item>");
        reveal_strlit("</item>");
    }
    let len = content.unicode_len();
    match find_from(content, len, "<rss", 0) {
        None => {
            return Err(ParsingError::InvalidRss(String::from_str("missing rss element")));
        },
        Some(_) => {},
    }
    let mut items: Vec<Announcement> = Vec::new();
    let mut pos: usize = 0;
    proof {
        assert(items@.map_values(|a: Announcement| a@) =~= Seq::<AnnouncementView>::empty());
        assert(Seq::<AnnouncementView>::empty() + anns_of(feed_items_spec(content@, 0)) =~= anns_of(
            feed_items_spec(content@, 0),
        ));
    }
    loop
        invariant
            pos <= len,
            len == content@.len(),
            anns_of(feed_items_spec(content@, 0)) == items@.map_values(|a: Announcement| a@)
                + anns_of(feed_items_spec(content@, pos as int)),
        ensures
            anns_of(feed_items_spec(content@, 0)) == items@.map_values(|a: Announcement| a@),
        decreases len - pos,
    {
        proof {
            reveal_strlit("<item>");
            reveal_strlit("</item>");
        }
        let io = match find_from(content, len, "<item>", pos) {
            Some(i) => i,
            None => {
                proof {
                    assert(anns_of(feed_items_spec(content@, pos as int))
                        =~= Seq::<AnnouncementView>::empty());
                    assert(items@.map_values(|a: Announcement| a@) + Seq::<
                        AnnouncementView,
                    >::empty() =~= items@.map_values(|a: Announcement| a@));
                }
                break;
            },
        };
        let ic = match find_from(content, len, "</item>", io + 6) {
            Some(i) => i,
            None => {
                proof {
                    assert(anns_of(feed_items_spec(content@, pos as int))
                        =~= Seq::<AnnouncementView>::empty());
                    assert(items@.map_values(|a: Announcement| a@) + Seq::<
                        AnnouncementView,
                    >::empty() =~= items@.map_values(|a: Announcement| a@));
                }
                break;
            },
        };
        let body = content.substring_char(io + 6, ic);
        let ghost pairs_here = feed_items_spec(content@, pos as int);
        let ghost pairs_next = feed_items_spec(content@, ic + 7);
        proof {
            assert(body@ == content@.subrange(io + 6, ic as int));
        }
        let ghost items0 = items@.map_values(|a: Announcement| a@);
        match item_announcement(body) {
            Some(a) => {
                let ghost av = a@;
                items.push(a);
                proof {
                    let pair = (av.title, av.torrent_url);
                    assert(item_fields(body@) == Some(pair));
                    assert(pairs_here == seq![pair] + pairs_next);
                    assert(anns_of(pairs_here) =~= seq![av] + anns_of(pairs_next));
                    assert(items@.map_values(|a: Announcement| a@) =~= items0.push(av));
                    assert(items0.push(av) + anns_of(pairs_next) =~= items0 + anns_of(pairs_here));
                }
            },
            None => {
                proof {
                    assert(pairs_here == pairs_next);
                }
            },
        }
        pos = ic + 7;
    }
    Ok(items)
}

} // verus!
