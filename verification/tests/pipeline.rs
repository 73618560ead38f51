use bangumi::dedup::DedupTracker;
use bangumi::filter::{CombineMode, FilterRule, FilterSet};
use bangumi::pipeline::{
    plan_cycle, plan_task, task_src_path, download_finished_message, Announcement, DownloadTask,
    FetchOutcome, Subscription, TaskAction, TaskStatus,
};
use bangumi::renamer::BangumiInfo;
use bangumi::title::ParsingError;

fn ann(title: &str, url: &str, episode: u64) -> Announcement {
    Announcement {
        title: String::from(title),
        torrent_url: String::from(url),
        info: Some(BangumiInfo {
            show_name: String::from(title),
            episode_name: None,
            display_name: None,
            season: 1,
            episode,
            category: None,
        }),
    }
}

fn sub(url: &str, enabled: Option<bool>, filters: Option<FilterSet>) -> Subscription {
    Subscription { url: String::from(url), enabled, filters }
}

fn reject_all() -> FilterSet {
    FilterSet { mode: CombineMode::All, rules: vec![FilterRule::MinEpisode(9999)] }
}

#[test]
fn test_submitted_after_mark() {
    let mut tracker = DedupTracker::new();
    assert!(!tracker.is_submitted("http://t/1"));
    tracker.mark_submitted("http://t/1");
    assert!(tracker.is_submitted("http://t/1"));
    // a later poll cycle still sees the marker
    assert!(tracker.is_submitted("http://t/1"));
    assert!(!tracker.is_submitted("http://t/2"));
}

#[test]
fn test_mark_renamed_idempotent() {
    let mut tracker = DedupTracker::new();
    assert!(!tracker.is_renamed("hash1"));
    tracker.mark_renamed("hash1");
    tracker.mark_renamed("hash1");
    assert!(tracker.is_renamed("hash1"));
    assert!(!tracker.is_submitted("hash1"));
}

#[test]
fn test_cycle_skips_submitted_urls() {
    let mut tracker = DedupTracker::new();
    tracker.mark_submitted("u1");
    let subs = vec![sub("f1", Some(true), None)];
    let outs = vec![FetchOutcome::Fetched(vec![ann("A", "u1", 1), ann("B", "u2", 2)])];
    let plan = plan_cycle(&subs, &outs, &tracker);
    assert_eq!(plan.len(), 1);
    assert_eq!(plan[0].torrent_url, "u2");
}

#[test]
fn test_cycle_deduplicates_within_cycle() {
    let tracker = DedupTracker::new();
    let subs = vec![sub("f1", Some(true), None)];
    let outs = vec![FetchOutcome::Fetched(vec![ann("A", "u1", 1), ann("A again", "u1", 1)])];
    let plan = plan_cycle(&subs, &outs, &tracker);
    assert_eq!(plan.len(), 1);
}

#[test]
fn test_rejecting_filter_zero_submissions_others_unaffected() {
    let tracker = DedupTracker::new();
    let subs = vec![
        sub("f1", Some(true), Some(reject_all())),
        sub("f2", Some(true), None),
    ];
    let outs = vec![
        FetchOutcome::Fetched(vec![ann("A", "u1", 1), ann("B", "u2", 2)]),
        FetchOutcome::Fetched(vec![ann("C", "u3", 3)]),
    ];
    let plan = plan_cycle(&subs, &outs, &tracker);
    assert_eq!(plan.len(), 1);
    assert_eq!(plan[0].torrent_url, "u3");
}

#[test]
fn test_fetch_failure_does_not_block_others() {
    let tracker = DedupTracker::new();
    let subs = vec![sub("f1", Some(true), None), sub("f2", Some(true), None)];
    let outs = vec![
        FetchOutcome::Failed(ParsingError::DownloadFailed(
            String::from("f1"),
            String::from("timeout"),
        )),
        FetchOutcome::Fetched(vec![ann("C", "u3", 3)]),
    ];
    let plan = plan_cycle(&subs, &outs, &tracker);
    assert_eq!(plan.len(), 1);
    assert_eq!(plan[0].torrent_url, "u3");
}

#[test]
fn test_disabled_subscription_not_polled() {
    let tracker = DedupTracker::new();
    let subs = vec![
        sub("f1", Some(false), None),
        sub("f2", None, None),
        sub("f3", Some(true), None),
    ];
    let outs = vec![
        FetchOutcome::Fetched(vec![ann("A", "u1", 1)]),
        FetchOutcome::Fetched(vec![ann("B", "u2", 2)]),
        FetchOutcome::Fetched(vec![ann("C", "u3", 3)]),
    ];
    let plan = plan_cycle(&subs, &outs, &tracker);
    assert_eq!(plan.len(), 1);
    assert_eq!(plan[0].torrent_url, "u3");
}

#[test]
fn test_unrecognized_items_skipped() {
    let tracker = DedupTracker::new();
    let subs = vec![sub("f1", Some(true), None)];
    let outs = vec![FetchOutcome::Fetched(vec![Announcement {
        title: String::from("garbled"),
        torrent_url: String::from("u1"),
        info: None,
    }])];
    let plan = plan_cycle(&subs, &outs, &tracker);
    assert_eq!(plan.len(), 0);
}

fn task(status: TaskStatus) -> DownloadTask {
    DownloadTask {
        hash: String::from("h1"),
        name: String::from("Show S01E02.mkv"),
        save_path: String::from("/downloads"),
        status,
    }
}

#[test]
fn test_plan_task_decisions() {
    assert_eq!(plan_task(&task(TaskStatus::Downloading), Some(false), true), TaskAction::NotCompleted);
    assert_eq!(plan_task(&task(TaskStatus::Queued), Some(false), true), TaskAction::NotCompleted);
    assert_eq!(plan_task(&task(TaskStatus::Error), Some(false), true), TaskAction::NotCompleted);
    // fail-closed: an unreadable marker counts as already renamed
    assert_eq!(plan_task(&task(TaskStatus::Completed), None, true), TaskAction::SkipRenamed);
    assert_eq!(plan_task(&task(TaskStatus::Completed), Some(true), true), TaskAction::SkipRenamed);
    // missing metadata leaves the marker unset and retries next cycle
    assert_eq!(plan_task(&task(TaskStatus::Completed), Some(false), false), TaskAction::RetryLater);
    assert_eq!(plan_task(&task(TaskStatus::Completed), Some(false), true), TaskAction::DoRename);
}

#[test]
fn test_task_src_path_mapping() {
    let t = task(TaskStatus::Completed);
    assert_eq!(task_src_path(&t, &None), "/downloads/Show S01E02.mkv");
    let mapping = Some((String::from("/downloads"), String::from("/mnt/media")));
    assert_eq!(task_src_path(&t, &mapping), "/mnt/media/Show S01E02.mkv");
}

#[test]
fn test_cycle_preserves_feed_order() {
    let tracker = DedupTracker::new();
    let subs = vec![sub("f1", Some(true), None), sub("f2", Some(true), None)];
    let outs = vec![
        FetchOutcome::Fetched(vec![ann("A", "u1", 1), ann("B", "u2", 2)]),
        FetchOutcome::Fetched(vec![ann("C", "u3", 3)]),
    ];
    let plan = plan_cycle(&subs, &outs, &tracker);
    let urls: Vec<&str> = plan.iter().map(|s| s.torrent_url.as_str()).collect();
    assert_eq!(urls, vec!["u1", "u2", "u3"]);
}

#[test]
fn test_download_finished_message() {
    let info = BangumiInfo {
        show_name: String::from("Show"),
        episode_name: None,
        display_name: None,
        season: 1,
        episode: 2,
        category: None,
    };
    assert_eq!(download_finished_message(&info), "Download finished: Show S01E02");
}
