//! The orchestrator's decision core.  One poll cycle turns subscriptions
//! and their fetch outcomes into an ordered list of submissions; one
//! reconciliation step decides per task whether to skip, retry later or
//! rename.  The surrounding I/O — fetching feeds, calling the download
//! agent, sleeping between submissions, sending notifications — happens
//! outside; these functions are pure in the sense of their contracts.

use vstd::prelude::*;
use vstd::string::*;
use crate::renamer::{BangumiInfo, EpisodeMeta, episode_tag_spec, replace_path_spec, replace_path};
use crate::filter::{FilterSet, FilterSetView, set_matches};
use crate::dedup::DedupTracker;
use crate::strutil::{seq_set, seq_contains_str, push_dec2};
use crate::title::ParsingError;

verus! {

/// One entry of a polled feed: the announcement title, the torrent URL,
/// and the episode metadata read from the title (absent when the title was
/// unrecognizable).
#[derive(Debug)]
pub struct Announcement {
    pub title: String,
    pub torrent_url: String,
    pub info: Option<BangumiInfo>,
}

/// Mathematical view of [`Announcement`].
pub ghost struct AnnouncementView {
    pub title: Seq<char>,
    pub torrent_url: Seq<char>,
    pub info: Option<EpisodeMeta>,
}

impl View for Announcement {
    type V = AnnouncementView;

    open spec fn view(&self) -> AnnouncementView {
        AnnouncementView {
            title: self.title@,
            torrent_url: self.torrent_url@,
            info: match self.info {
                Some(i) => Some(i@),
                None => None,
            },
        }
    }
}

pub open spec fn filters_view(f: Option<FilterSet>) -> Option<FilterSetView> {
    match f {
        Some(x) => Some(x@),
        None => None,
    }
}

/// One configured feed subscription; a disabled subscription is never
/// polled.
#[derive(Debug)]
pub struct Subscription {
    pub url: String,
    pub enabled: Option<bool>,
    pub filters: Option<FilterSet>,
}

/// Mathematical view of [`Subscription`].
pub ghost struct SubscriptionView {
    pub url: Seq<char>,
    pub enabled: Option<bool>,
    pub filters: Option<FilterSetView>,
}

impl View for Subscription {
    type V = SubscriptionView;

    open spec fn view(&self) -> SubscriptionView {
        SubscriptionView {
            url: self.url@,
            enabled: self.enabled,
            filters: filters_view(self.filters),
        }
    }
}

/// What fetching and parsing one feed produced.
#[derive(Debug)]
pub enum FetchOutcome {
    /// The feed was fetched and parsed into announcements.
    Fetched(Vec<Announcement>),
    /// The fetch or the parse failed; the subscription is skipped this
    /// cycle.
    Failed(ParsingError),
}

/// Mathematical view of [`FetchOutcome`].
pub ghost enum FetchOutcomeView {
    Fetched(Seq<AnnouncementView>),
    Failed,
}

impl View for FetchOutcome {
    type V = FetchOutcomeView;

    open spec fn view(&self) -> FetchOutcomeView {
        match self {
            FetchOutcome::Fetched(v) => FetchOutcomeView::Fetched(
                v@.map_values(|a: Announcement| a@),
            ),
            FetchOutcome::Failed(_) => FetchOutcomeView::Failed,
        }
    }
}

/// One item the cycle decided to hand to the download agent.
#[derive(Debug)]
pub struct Submission {
    pub torrent_url: String,
    pub info: BangumiInfo,
}

/// Mathematical view of [`Submission`].
pub ghost struct SubmissionView {
    pub torrent_url: Seq<char>,
    pub info: EpisodeMeta,
}

impl View for Submission {
    type V = SubmissionView;

    open spec fn view(&self) -> SubmissionView {
        SubmissionView { torrent_url: self.torrent_url@, info: self.info@ }
    }
}

pub open spec fn sub_enabled(sub: SubscriptionView) -> bool {
    sub.enabled == Some(true)
}

/// Whether one announcement is wanted: not yet submitted, with readable
/// metadata, and accepted by the rule set when one is configured.
pub open spec fn accepts(
    filters: Option<FilterSetView>,
    a: AnnouncementView,
    submitted: Set<Seq<char>>,
) -> bool {
    &&& !submitted.contains(a.torrent_url)
    &&& match a.info {
        Some(m) => match filters {
            Some(f) => set_matches(f, m),
            None => true,
        },
        None => false,
    }
}

pub open spec fn submission_of(a: AnnouncementView) -> SubmissionView {
    SubmissionView {
        torrent_url: a.torrent_url,
        info: match a.info {
            Some(m) => m,
            None => arbitrary(),
        },
    }
}

/// The submissions of one subscription's items, in feed order, threading
/// the set of already-submitted URLs so that a URL is submitted at most
/// once per cycle.
pub open spec fn plan_items(
    filters: Option<FilterSetView>,
    items: Seq<AnnouncementView>,
    submitted: Set<Seq<char>>,
) -> (Seq<SubmissionView>, Set<Seq<char>>)
    decreases items.len(),
{
    if items.len() == 0 {
        (Seq::<SubmissionView>::empty(), submitted)
    } else {
        let a = items.first();
        if accepts(filters, a, submitted) {
            let rest = plan_items(filters, items.drop_first(), submitted.insert(a.torrent_url));
            (seq![submission_of(a)] + rest.0, rest.1)
        } else {
            plan_items(filters, items.drop_first(), submitted)
        }
    }
}

/// What one subscription contributes to the cycle: nothing when disabled
/// or when its fetch failed, its planned items otherwise.
pub open spec fn sub_plan(
    sub: SubscriptionView,
    outcome: FetchOutcomeView,
    submitted: Set<Seq<char>>,
) -> (Seq<SubmissionView>, Set<Seq<char>>) {
    if !sub_enabled(sub) {
        (Seq::<SubmissionView>::empty(), submitted)
    } else {
        match outcome {
            FetchOutcomeView::Fetched(items) => plan_items(sub.filters, items, submitted),
            FetchOutcomeView::Failed => (Seq::<SubmissionView>::empty(), submitted),
        }
    }
}

/// The whole poll cycle: subscriptions in order, each contributing its
/// plan, the submitted-URL set threaded through.
pub open spec fn plan_cycle_spec(
    subs: Seq<SubscriptionView>,
    outcomes: Seq<FetchOutcomeView>,
    submitted: Set<Seq<char>>,
) -> (Seq<SubmissionView>, Set<Seq<char>>)
    decreases subs.len(),
{
    if subs.len() == 0 || outcomes.len() == 0 {
        (Seq::<SubmissionView>::empty(), submitted)
    } else {
        let h = sub_plan(subs.first(), outcomes.first(), submitted);
        let t = plan_cycle_spec(subs.drop_first(), outcomes.drop_first(), h.1);
        (h.0 + t.0, t.1)
    }
}

fn plan_items_exec(
    filters: &Option<FilterSet>,
    items: &Vec<Announcement>,
    tracker: &DedupTracker,
    pending: &mut Vec<String>,
    out: &mut Vec<Submission>,
)
    ensures
        ({
            let cur0 = tracker.submitted_set().union(seq_set(old(pending)@));
            let plan = plan_items(
                filters_view(*filters),
                items@.map_values(|a: Announcement| a@),
                cur0,
            );
            &&& final(out)@.map_values(|x: Submission| x@) == old(out)@.map_values(
                |x: Submission| x@,
            ) + plan.0
            &&& tracker.submitted_set().union(seq_set(final(pending)@)) == plan.1
        }),
{
    let ghost fv = filters_view(*filters);
    let ghost vitems = items@.map_values(|a: Announcement| a@);
    let ghost cur0 = tracker.submitted_set().union(seq_set(pending@));
    let ghost out0 = out@.map_values(|x: Submission| x@);
    let ghost mut cur = cur0;
    let ghost mut emitted = Seq::<SubmissionView>::empty();
    let mut j: usize = 0;
    proof {
        assert(vitems.skip(0) =~= vitems);
        assert(out0 + emitted =~= out0);
    }
    while j < items.len()
        invariant
            j <= items@.len(),
            fv == filters_view(*filters),
            vitems == items@.map_values(|a: Announcement| a@),
            cur == tracker.submitted_set().union(seq_set(pending@)),
            out@.map_values(|x: Submission| x@) == out0 + emitted,
            plan_items(fv, vitems, cur0).0 == emitted + plan_items(fv, vitems.skip(j as int), cur).0,
            plan_items(fv, vitems, cur0).1 == plan_items(fv, vitems.skip(j as int), cur).1,
        decreases items@.len() - j,
    {
        let a = &items[j];
        proof {
            assert(vitems[j as int] == a@);
            assert(vitems.skip(j as int).first() == vitems[j as int]);
            assert(vitems.skip(j as int).drop_first() =~= vitems.skip(j as int + 1));
        }
        let url_seen = tracker.is_submitted(a.torrent_url.as_str()) || seq_contains_str(
            pending,
            a.torrent_url.as_str(),
        );
        proof {
            assert(url_seen == cur.contains(a@.torrent_url));
        }
        if !url_seen {
            match &a.info {
                Some(info) => {
                    let ok = match filters {
                        Some(f) => f.is_match(info),
                        None => true,
                    };
                    if ok {
                        proof {
                            assert(accepts(fv, vitems[j as int], cur));
                        }
                        let s = Submission {
                            torrent_url: a.torrent_url.clone(),
                            info: info.duplicate(),
                        };
                        proof {
                            assert(s@ == submission_of(vitems[j as int]));
                        }
                        let ghost pend0 = pending@;
                        let ghost emitted0 = emitted;
                        let ghost outv0 = out@;
                        out.push(s);
                        pending.push(a.torrent_url.clone());
                        proof {
                            cur = cur.insert(vitems[j as int].torrent_url);
                            emitted = emitted.push(submission_of(vitems[j as int]));
                            assert(out@ =~= outv0.push(s));
                            assert(out@.map_values(|x: Submission| x@) =~= outv0.map_values(
                                |x: Submission| x@,
                            ).push(s@));
                            assert((out0 + emitted0).push(s@) =~= out0 + emitted0.push(s@));
                            assert(out@.map_values(|x: Submission| x@) =~= out0 + emitted);
                            assert(pending@.drop_last() =~= pend0);
                            assert(seq_set(pending@) == seq_set(pend0).insert(pending@.last()@));
                            assert(pending@.last()@ == vitems[j as int].torrent_url);
                            assert(cur =~= tracker.submitted_set().union(seq_set(pending@)));
                            assert(plan_items(fv, vitems, cur0).0 == emitted + plan_items(
                                fv,
                                vitems.skip(j as int + 1),
                                cur,
                            ).0) by {
                                assert(emitted0 + (seq![submission_of(vitems[j as int])]
                                    + plan_items(fv, vitems.skip(j as int + 1), cur).0) =~= emitted
                                    + plan_items(fv, vitems.skip(j as int + 1), cur).0);
                            }
                        }
                    } else {
                        proof {
                            assert(!accepts(fv, vitems[j as int], cur));
                        }
                    }
                },
                None => {
                    proof {
                        assert(!accepts(fv, vitems[j as int], cur));
                    }
                },
            }
        } else {
            proof {
                assert(!accepts(fv, vitems[j as int], cur));
            }
        }
        j = j + 1;
    }
    proof {
        assert(vitems.skip(vitems.len() as int).len() == 0);
    }
}

/// Plans one whole poll cycle: for each enabled subscription whose fetch
/// succeeded, the items that are new (not yet submitted, here or earlier
/// in this same cycle), recognizable, and accepted by the subscription's
/// rule set, in feed order.  One failed fetch or rejecting rule set never
/// affects the other subscriptions.
pub fn plan_cycle(
    subs: &Vec<Subscription>,
    outcomes: &Vec<FetchOutcome>,
    tracker: &DedupTracker,
) -> (r: Vec<Submission>)
    requires
        subs@.len() == outcomes@.len(),
    ensures
        r@.map_values(|x: Submission| x@) == plan_cycle_spec(
            subs@.map_values(|x: Subscription| x@),
            outcomes@.map_values(|x: FetchOutcome| x@),
            tracker.submitted_set(),
        ).0,
{
    let ghost vsubs = subs@.map_values(|x: Subscription| x@);
    let ghost vouts = outcomes@.map_values(|x: FetchOutcome| x@);
    let ghost s0 = tracker.submitted_set();
    let mut out: Vec<Submission> = Vec::new();
    let mut pending: Vec<String> = Vec::new();
    let ghost mut cur = s0;
    let mut k: usize = 0;
    proof {
        assert(vsubs.skip(0) =~= vsubs);
        assert(vouts.skip(0) =~= vouts);
        assert(out@.map_values(|x: Submission| x@) =~= Seq::<SubmissionView>::empty());
        assert(Seq::<SubmissionView>::empty() + plan_cycle_spec(vsubs, vouts, s0).0
            =~= plan_cycle_spec(vsubs, vouts, s0).0);
        assert(cur =~= tracker.submitted_set().union(seq_set(pending@)));
    }
    while k < subs.len()
        invariant
            k <= subs@.len(),
            subs@.len() == outcomes@.len(),
            vsubs == subs@.map_values(|x: Subscription| x@),
            vouts == outcomes@.map_values(|x: FetchOutcome| x@),
            s0 == tracker.submitted_set(),
            cur == tracker.submitted_set().union(seq_set(pending@)),
            plan_cycle_spec(vsubs, vouts, s0).0 == out@.map_values(|x: Submission| x@)
                + plan_cycle_spec(vsubs.skip(k as int), vouts.skip(k as int), cur).0,
        decreases subs@.len() - k,
    {
        proof {
            assert(vsubs.skip(k as int).first() == vsubs[k as int]);
            assert(vouts.skip(k as int).first() == vouts[k as int]);
            assert(vsubs[k as int] == subs@[k as int]@);
            assert(vouts[k as int] == outcomes@[k as int]@);
            assert(vsubs.skip(k as int).drop_first() =~= vsubs.skip(k as int + 1));
            assert(vouts.skip(k as int).drop_first() =~= vouts.skip(k as int + 1));
        }
        let sub = &subs[k];
        let enabled = match sub.enabled {
            Some(b) => b,
            None => false,
        };
        if enabled {
            match &outcomes[k] {
                FetchOutcome::Fetched(items) => {
                    let ghost out_before = out@.map_values(|x: Submission| x@);
                    let ghost cur_before = cur;
                    plan_items_exec(&sub.filters, items, tracker, &mut pending, &mut out);
                    proof {
                        let plan = plan_items(
                            filters_view(sub.filters),
                            items@.map_values(|a: Announcement| a@),
                            cur_before,
                        );
                        cur = plan.1;
                        assert(sub_plan(vsubs[k as int], vouts[k as int], cur_before) == plan);
                        assert(out_before + (plan.0 + plan_cycle_spec(
                            vsubs.skip(k as int + 1),
                            vouts.skip(k as int + 1),
                            plan.1,
                        ).0) =~= out@.map_values(|x: Submission| x@) + plan_cycle_spec(
                            vsubs.skip(k as int + 1),
                            vouts.skip(k as int + 1),
                            plan.1,
                        ).0);
                    }
                },
                FetchOutcome::Failed(_) => {
                    proof {
                        assert(Seq::<SubmissionView>::empty() + plan_cycle_spec(
                            vsubs.skip(k as int + 1),
                            vouts.skip(k as int + 1),
                            cur,
                        ).0 =~= plan_cycle_spec(
                            vsubs.skip(k as int + 1),
                            vouts.skip(k as int + 1),
                            cur,
                        ).0);
                    }
                },
            }
        } else {
            proof {
                assert(!sub_enabled(vsubs[k as int]));
                assert(Seq::<SubmissionView>::empty() + plan_cycle_spec(
                    vsubs.skip(k as int + 1),
                    vouts.skip(k as int + 1),
                    cur,
                ).0 =~= plan_cycle_spec(vsubs.skip(k as int + 1), vouts.skip(k as int + 1), cur).0);
            }
        }
        k = k + 1;
    }
    proof {
        assert(vsubs.skip(vsubs.len() as int).len() == 0);
    }
    out
}

/// Status of one task owned by the download agent.
#[derive(Clone, Copy, Debug, PartialEq, Eq, Structural)]
pub enum TaskStatus {
    Queued,
    Downloading,
    Completed,
    Error,
}

/// One task as reported by the download agent; the pipeline only observes
/// it.
#[derive(Debug)]
pub struct DownloadTask {
    pub hash: String,
    pub name: String,
    pub save_path: String,
    pub status: TaskStatus,
}

/// What the reconciliation cycle does with one task.
#[derive(Clone, Copy, Debug, PartialEq, Eq, Structural)]
pub enum TaskAction {
    /// The task is not completed yet: nothing to do.
    NotCompleted,
    /// The task already counts as renamed (or its marker could not be
    /// read): skip it.
    SkipRenamed,
    /// No episode metadata is associated with the task: leave the marker
    /// unset so the task is retried on the next cycle.
    RetryLater,
    /// Rename: link the file into the library, mark the task renamed, and
    /// notify.
    DoRename,
}

/// The per-task reconciliation decision.  `renamed` is the answer of the
/// marker store, `None` when it could not be read: that ambiguous case is
/// treated as already renamed (fail closed — the system prefers not
/// re-renaming over double-linking).  A missing metadata lookup, by
/// contrast, deliberately leaves the marker unset and retries next cycle.
pub open spec fn plan_task_spec(
    status: TaskStatus,
    renamed: Option<bool>,
    has_info: bool,
) -> TaskAction {
    if status != TaskStatus::Completed {
        TaskAction::NotCompleted
    } else if renamed != Some(false) {
        TaskAction::SkipRenamed
    } else if !has_info {
        TaskAction::RetryLater
    } else {
        TaskAction::DoRename
    }
}

/// Decides what to do with one agent task during reconciliation.
pub fn plan_task(task: &DownloadTask, renamed: Option<bool>, has_info: bool) -> (r: TaskAction)
    ensures
        r == plan_task_spec(task.status, renamed, has_info),
{
    if !(task.status == TaskStatus::Completed) {
        TaskAction::NotCompleted
    } else {
        let fresh = match renamed {
            Some(b) => !b,
            None => false,
        };
        if !fresh {
            TaskAction::SkipRenamed
        } else if !has_info {
            TaskAction::RetryLater
        } else {
            TaskAction::DoRename
        }
    }
}

/// The on-disk path of a finished task: the agent's save path joined with
/// the file name, remapped by the configured prefix substitution when one
/// is set.
pub open spec fn task_src_path_spec(
    save_path: Seq<char>,
    name: Seq<char>,
    mapping: Option<(Seq<char>, Seq<char>)>,
) -> Seq<char> {
    let joined = save_path + "/"@ + name;
    match mapping {
        Some(m) => replace_path_spec(joined, m.0, m.1),
        None => joined,
    }
}

/// Resolves the local path of a finished task's file.
pub fn task_src_path(task: &DownloadTask, mapping: &Option<(String, String)>) -> (r: String)
    ensures
        r@ == task_src_path_spec(
            task.save_path@,
            task.name@,
            match mapping {
                Some(m) => Some((m.0@, m.1@)),
                None => None,
            },
        ),
{
    let mut joined = task.save_path.clone();
    joined.append("/");
    joined.append(task.name.as_str());
    match mapping {
        Some(m) => replace_path(joined.as_str(), m.0.as_str(), m.1.as_str()),
        None => joined,
    }
}

/// `Download finished: {show} S{season:02}E{episode:02}`
pub open spec fn notification_spec(m: EpisodeMeta) -> Seq<char> {
    "Download finished: "@ + m.show_name + episode_tag_spec(m.season, m.episode)
}

/// The text sent to the notifier after a completed rename.
pub fn download_finished_message(info: &BangumiInfo) -> (r: String)
    ensures
        r@ == notification_spec(info@),
{
    let mut s = String::from_str("Download finished: ");
    s.append(info.show_name.as_str());
    s.append(" S");
    push_dec2(&mut s, info.season);
    s.append("E");
    push_dec2(&mut s, info.episode);
    proof {
        assert(s@ =~= notification_spec(info@));
    }
    s
}

proof fn lemma_plan_items_all_rejected(
    f: FilterSetView,
    items: Seq<AnnouncementView>,
    submitted: Set<Seq<char>>,
)
    requires
        forall|j: int|
            0 <= j < items.len() ==> ((#[trigger] items[j]).info matches Some(m) ==> !set_matches(
                f,
                m,
            )),
    ensures
        plan_items(Some(f), items, submitted) == (Seq::<SubmissionView>::empty(), submitted),
    decreases items.len(),
{
    if items.len() > 0 {
        assert(items[0] == items.first());
        assert(!accepts(Some(f), items.first(), submitted));
        assert forall|j: int|
            0 <= j < items.drop_first().len() implies ((#[trigger] items.drop_first()[j]).info
            matches Some(m) ==> !set_matches(f, m)) by {
            assert(items.drop_first()[j] == items[j + 1]);
        }
        lemma_plan_items_all_rejected(f, items.drop_first(), submitted);
    }
}

proof fn lemma_cycle_head_noop_update(
    subs: Seq<SubscriptionView>,
    outcomes: Seq<FetchOutcomeView>,
    i: int,
    submitted: Set<Seq<char>>,
)
    requires
        subs.len() == outcomes.len(),
        0 <= i < outcomes.len(),
        forall|s: Set<Seq<char>>|
            #[trigger] sub_plan(subs[i], outcomes[i], s) == (Seq::<SubmissionView>::empty(), s),
    ensures
        plan_cycle_spec(subs, outcomes, submitted) == plan_cycle_spec(
            subs,
            outcomes.update(i, FetchOutcomeView::Fetched(Seq::<AnnouncementView>::empty())),
            submitted,
        ),
    decreases subs.len(),
{
    let empty_feed = FetchOutcomeView::Fetched(Seq::<AnnouncementView>::empty());
    let outcomes2 = outcomes.update(i, empty_feed);
    if i == 0 {
        assert(sub_plan(subs[0], outcomes[0], submitted) == (
            Seq::<SubmissionView>::empty(),
            submitted,
        ));
        assert(sub_plan(subs.first(), outcomes2.first(), submitted) == (
            Seq::<SubmissionView>::empty(),
            submitted,
        ));
        assert(outcomes2.drop_first() =~= outcomes.drop_first());
    } else {
        assert(outcomes2.first() == outcomes.first());
        let h = sub_plan(subs.first(), outcomes.first(), submitted);
        assert forall|s: Set<Seq<char>>|
            #[trigger] sub_plan(subs.drop_first()[i - 1], outcomes.drop_first()[i - 1], s) == (
            Seq::<SubmissionView>::empty(),
            s,
        ) by {
            assert(subs.drop_first()[i - 1] == subs[i]);
            assert(outcomes.drop_first()[i - 1] == outcomes[i]);
        }
        lemma_cycle_head_noop_update(subs.drop_first(), outcomes.drop_first(), i - 1, h.1);
        assert(outcomes.drop_first().update(i - 1, empty_feed) =~= outcomes2.drop_first());
    }
}

/// Law: one subscription's fetch failure never affects the rest of the
/// poll cycle — the cycle plans exactly as if that subscription had
/// fetched an empty feed, so every other subscription's submissions are
/// unchanged.
pub proof fn lemma_fetch_failure_isolated(
    subs: Seq<SubscriptionView>,
    outcomes: Seq<FetchOutcomeView>,
    i: int,
    submitted: Set<Seq<char>>,
)
    requires
        subs.len() == outcomes.len(),
        0 <= i < outcomes.len(),
        outcomes[i] is Failed,
    ensures
        plan_cycle_spec(subs, outcomes, submitted) == plan_cycle_spec(
            subs,
            outcomes.update(i, FetchOutcomeView::Fetched(Seq::<AnnouncementView>::empty())),
            submitted,
        ),
{
    assert forall|s: Set<Seq<char>>|
        #[trigger] sub_plan(subs[i], outcomes[i], s) == (Seq::<SubmissionView>::empty(), s) by {}
    lemma_cycle_head_noop_update(subs, outcomes, i, submitted);
}

/// Law: a rule set that rejects every announcement of its subscription
/// yields zero submissions for that subscription and leaves the rest of
/// the poll cycle unchanged — the cycle plans exactly as if the feed had
/// been empty.
pub proof fn lemma_rejecting_filter_isolated(
    subs: Seq<SubscriptionView>,
    outcomes: Seq<FetchOutcomeView>,
    i: int,
    submitted: Set<Seq<char>>,
)
    requires
        subs.len() == outcomes.len(),
        0 <= i < outcomes.len(),
        subs[i].filters is Some,
        outcomes[i] is Fetched,
        ({
            &&& subs[i].filters matches Some(f)
            &&& outcomes[i] matches FetchOutcomeView::Fetched(items)
            &&& forall|j: int|
                0 <= j < items.len() ==> ((#[trigger] items[j]).info matches Some(m)
                    ==> !set_matches(f, m))
        }),
    ensures
        plan_cycle_spec(subs, outcomes, submitted) == plan_cycle_spec(
            subs,
            outcomes.update(i, FetchOutcomeView::Fetched(Seq::<AnnouncementView>::empty())),
            submitted,
        ),
{
    assert forall|s: Set<Seq<char>>|
        #[trigger] sub_plan(subs[i], outcomes[i], s) == (Seq::<SubmissionView>::empty(), s) by {
        if sub_enabled(subs[i]) {
            let f = subs[i].filters->Some_0;
            let items = outcomes[i]->Fetched_0;
            lemma_plan_items_all_rejected(f, items, s);
        }
    }
    lemma_cycle_head_noop_update(subs, outcomes, i, submitted);
}

} // verus!
