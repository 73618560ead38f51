//! The persistent record of "torrent URL already submitted" and "task hash
//! already renamed", modeled as two sets of keys.  The store adapter that
//! persists these markers lives outside the crate; every decision the
//! pipeline takes about them is made here.

use vstd::prelude::*;
use crate::strutil::{seq_set, seq_contains_str};

verus! {

/// Dedup markers: which torrent URLs were already submitted to the download
/// agent, and which task hashes were already renamed.
pub struct DedupTracker {
    submitted: Vec<String>,
    renamed: Vec<String>,
}

impl DedupTracker {
    /// The set of torrent URLs marked submitted.
    pub closed spec fn submitted_set(&self) -> Set<Seq<char>> {
        seq_set(self.submitted@)
    }

    /// The set of task hashes marked renamed.
    pub closed spec fn renamed_set(&self) -> Set<Seq<char>> {
        seq_set(self.renamed@)
    }

    /// A tracker with no marker at all.
    pub fn new() -> (r: DedupTracker)
        ensures
            r.submitted_set() == Set::<Seq<char>>::empty(),
            r.renamed_set() == Set::<Seq<char>>::empty(),
    {
        DedupTracker { submitted: Vec::new(), renamed: Vec::new() }
    }

    /// Whether `torrent_url` was already submitted; checked before every
    /// submission.
    pub fn is_submitted(&self, torrent_url: &str) -> (r: bool)
        ensures
            r == self.submitted_set().contains(torrent_url@),
    {
        seq_contains_str(&self.submitted, torrent_url)
    }

    /// Records that `torrent_url` was submitted.  Idempotent: marking a URL
    /// twice leaves the same set as marking it once.
    pub fn mark_submitted(&mut self, torrent_url: &str)
        ensures
            final(self).submitted_set() == old(self).submitted_set().insert(torrent_url@),
            final(self).renamed_set() == old(self).renamed_set(),
    {
        self.submitted.push(torrent_url.to_owned());
        proof {
            assert(self.submitted@.drop_last() =~= old(self).submitted@);
        }
    }

    /// Whether the task with `hash` was already renamed.
    pub fn is_renamed(&self, hash: &str) -> (r: bool)
        ensures
            r == self.renamed_set().contains(hash@),
    {
        seq_contains_str(&self.renamed, hash)
    }

    /// Records that the task with `hash` was renamed.  Idempotent: writing
    /// the marker twice is not an error and changes nothing further.
    pub fn mark_renamed(&mut self, hash: &str)
        ensures
            final(self).renamed_set() == old(self).renamed_set().insert(hash@),
            final(self).submitted_set() == old(self).submitted_set(),
    {
        self.renamed.push(hash.to_owned());
        proof {
            assert(self.renamed@.drop_last() =~= old(self).renamed@);
        }
    }
}

/// Law: a key is a member of the marker set immediately after it is marked,
/// so an already-seen torrent URL is never submitted again in a later poll
/// cycle.
pub proof fn lemma_marked_then_contained(s: Set<Seq<char>>, key: Seq<char>)
    ensures
        s.insert(key).contains(key),
{
}

/// Law: marking a key twice leaves exactly the set that marking it once
/// leaves — re-writing a marker after a crash or retry is harmless.
pub proof fn lemma_mark_idempotent(s: Set<Seq<char>>, key: Seq<char>)
    ensures
        s.insert(key).insert(key) == s.insert(key),
{
    assert(s.insert(key).insert(key) =~= s.insert(key));
}

} // verus!
