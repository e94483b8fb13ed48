use gelbooru_dl::post::GelbooruPost;
use gelbooru_dl::scheduler::{Job, Scheduler, Status, MAX_IN_FLIGHT};

fn post(md5: &str, file_url: &str, image: &str) -> GelbooruPost {
    GelbooruPost {
        id: 1,
        created_at: "Sat Jan 01 00:00:00 -0600 2022".to_string(),
        score: 3,
        width: 640,
        height: 480,
        md5: md5.to_string(),
        directory: "ab/cd".to_string(),
        image: image.to_string(),
        rating: "general".to_string(),
        source: "".to_string(),
        change: 1640995200,
        owner: "someone".to_string(),
        creator_id: 7,
        parent_id: 0,
        sample: 0,
        preview_height: 120,
        preview_width: 160,
        tags: "cat sitting".to_string(),
        title: "".to_string(),
        has_notes: "false".to_string(),
        has_comments: "false".to_string(),
        file_url: file_url.to_string(),
        preview_url: "https://img.example/thumbnails/ab/cd/thumbnail.jpg".to_string(),
        sample_url: "".to_string(),
        sample_height: 0,
        sample_width: 0,
        status: "active".to_string(),
        post_locked: 0,
        has_children: "false".to_string(),
    }
}

fn numbered(n: usize) -> GelbooruPost {
    post(&format!("hash{n}"), &format!("https://img.example/images/{n}.png"), &format!("{n}.png"))
}

#[test]
fn capacity_is_twenty_four() {
    assert_eq!(MAX_IN_FLIGHT, 24);
}

#[test]
fn job_for_post_takes_url_name_and_kind() {
    let job = Job::for_post(5, &post("h", "https://img.example/v/clip.webm", "clip.webm"));
    assert_eq!(
        job,
        Job {
            id: 5,
            url: "https://img.example/v/clip.webm".to_string(),
            file_name: "clip.webm".to_string(),
            video: true,
        }
    );
    let still = Job::for_post(0, &post("h", "https://img.example/i/pic.png", "pic.png"));
    assert!(!still.video);
    assert_eq!(still.file_name, "pic.png");
}

#[test]
fn new_scheduler_is_idle_and_empty() {
    let mut s = Scheduler::new();
    assert_eq!(s.discovered(), 0);
    assert_eq!(s.in_flight(), 0);
    assert_eq!(s.processed(), 0);
    assert_eq!(s.succeeded(), 0);
    assert!(s.is_idle());
    assert_eq!(s.start_next(), None);
    assert_eq!(s.status_of(0), None);
    assert!(s.job(0).is_none());
}

#[test]
fn present_file_is_skipped_at_once() {
    let mut s = Scheduler::new();
    let id = s.offer(&numbered(0), true);
    assert_eq!(id, 0);
    assert_eq!(s.status_of(0), Some(Status::Skipped));
    assert_eq!(s.processed(), 1);
    assert_eq!(s.succeeded(), 0);
    assert_eq!(s.in_flight(), 0);
    assert!(s.is_idle());
    assert_eq!(s.start_next(), None);
}

#[test]
fn missing_file_is_queued_then_started_then_done() {
    let mut s = Scheduler::new();
    let id = s.offer(&numbered(0), false);
    assert_eq!(id, 0);
    assert_eq!(s.status_of(0), Some(Status::Queued));
    assert!(!s.is_idle());
    let job = s.start_next().unwrap();
    assert_eq!(job.id, 0);
    assert_eq!(job.file_name, "0.png");
    assert_eq!(s.status_of(0), Some(Status::InFlight));
    assert_eq!(s.in_flight(), 1);
    assert_eq!(s.processed(), 0);
    assert!(s.complete(0, true));
    assert_eq!(s.status_of(0), Some(Status::Succeeded));
    assert_eq!(s.in_flight(), 0);
    assert_eq!(s.processed(), 1);
    assert_eq!(s.succeeded(), 1);
    assert!(s.is_idle());
}

#[test]
fn failed_download_counts_as_processed_only() {
    let mut s = Scheduler::new();
    s.offer(&numbered(0), false);
    s.start_next().unwrap();
    assert!(s.complete(0, false));
    assert_eq!(s.status_of(0), Some(Status::Failed));
    assert_eq!(s.processed(), 1);
    assert_eq!(s.succeeded(), 0);
    assert_eq!(s.in_flight(), 0);
}

#[test]
fn complete_of_unknown_or_idle_item_changes_nothing() {
    let mut s = Scheduler::new();
    s.offer(&numbered(0), false);
    s.offer(&numbered(1), true);
    assert!(!s.complete(0, true));
    assert!(!s.complete(1, true));
    assert!(!s.complete(2, true));
    assert!(!s.complete(usize::MAX, false));
    assert_eq!(s.status_of(0), Some(Status::Queued));
    assert_eq!(s.status_of(1), Some(Status::Skipped));
    assert_eq!(s.processed(), 1);
    assert_eq!(s.in_flight(), 0);
}

#[test]
fn complete_twice_counts_once() {
    let mut s = Scheduler::new();
    s.offer(&numbered(0), false);
    s.start_next().unwrap();
    assert!(s.complete(0, true));
    assert!(!s.complete(0, false));
    assert_eq!(s.status_of(0), Some(Status::Succeeded));
    assert_eq!(s.processed(), 1);
    assert_eq!(s.succeeded(), 1);
}

#[test]
fn starts_follow_the_order_of_discovery_and_pass_over_skipped_items() {
    let mut s = Scheduler::new();
    s.offer(&numbered(0), true);
    s.offer(&numbered(1), false);
    s.offer(&numbered(2), true);
    s.offer(&numbered(3), false);
    s.offer(&numbered(4), false);
    let ids: Vec<usize> = s.start_all().into_iter().map(|j| j.id).collect();
    assert_eq!(ids, vec![1, 3, 4]);
    assert_eq!(s.in_flight(), 3);
    assert_eq!(s.processed(), 2);
}

#[test]
fn never_more_than_capacity_in_flight() {
    let mut s = Scheduler::new();
    for n in 0..60 {
        s.offer(&numbered(n), false);
    }
    let first = s.start_all();
    assert_eq!(first.len(), 24);
    assert_eq!(s.in_flight(), 24);
    assert_eq!(s.start_next(), None);
    assert!(s.start_all().is_empty());
    let mut next_expected = 24;
    let mut finished = 0;
    for id in 0..60 {
        assert!(s.complete(id, id % 5 != 0));
        finished += 1;
        assert!(s.in_flight() <= MAX_IN_FLIGHT);
        match s.start_next() {
            Some(job) => {
                assert_eq!(job.id, next_expected);
                next_expected += 1;
                assert_eq!(s.in_flight(), 24);
            }
            None => assert_eq!(next_expected, 60),
        }
        assert_eq!(s.start_next(), None);
        assert_eq!(s.processed(), finished);
    }
    assert!(s.is_idle());
    assert_eq!(s.processed(), 60);
    assert_eq!(s.discovered(), 60);
    assert_eq!(s.succeeded(), 48);
}

#[test]
fn free_place_is_taken_by_a_later_offer() {
    let mut s = Scheduler::new();
    for n in 0..24 {
        s.offer(&numbered(n), false);
    }
    assert_eq!(s.start_all().len(), 24);
    s.offer(&numbered(24), false);
    assert_eq!(s.start_next(), None);
    assert!(s.complete(7, true));
    assert_eq!(s.start_next().map(|j| j.id), Some(24));
}

#[test]
fn job_lookup_by_number() {
    let mut s = Scheduler::new();
    s.offer(&numbered(0), true);
    s.offer(&post("h", "https://img.example/v/clip.mp4", "clip.mp4"), false);
    assert_eq!(s.job(0).map(|j| j.file_name.clone()), Some("0.png".to_string()));
    assert_eq!(s.job(1).map(|j| (j.id, j.video)), Some((1, true)));
    assert!(s.job(2).is_none());
}
