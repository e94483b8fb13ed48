use gelbooru_dl::post::GelbooruPost;
use gelbooru_dl::printer::{Emission, EmissionMode, JsonPrinter, Sink};

fn post(md5: &str, file_url: &str, image: &str) -> GelbooruPost {
    GelbooruPost {
        id: 1,
        created_at: "Sat Jan 01 00:00:00 -0600 2022".to_string(),
        score: 3,
        width: 640,
        height: 480,
        md5: md5.to_string(),
        directory: "ab/cd".to_string(),
        image: image.to_string(),
        rating: "general".to_string(),
        source: "".to_string(),
        change: 1640995200,
        owner: "someone".to_string(),
        creator_id: 7,
        parent_id: 0,
        sample: 0,
        preview_height: 120,
        preview_width: 160,
        tags: "cat sitting".to_string(),
        title: "".to_string(),
        has_notes: "false".to_string(),
        has_comments: "false".to_string(),
        file_url: file_url.to_string(),
        preview_url: "https://img.example/thumbnails/ab/cd/thumbnail.jpg".to_string(),
        sample_url: "".to_string(),
        sample_height: 0,
        sample_width: 0,
        status: "active".to_string(),
        post_locked: 0,
        has_children: "false".to_string(),
    }
}

#[test]
fn noop_printer_keeps_and_writes_nothing() {
    let mut printer = JsonPrinter::noop();
    printer.insert_posts(&[post("abc123", "u/abc123.png", "abc123.png")]);
    assert_eq!(printer.finish(), None);
}

#[test]
fn compact_printer_hands_over_its_posts() {
    let mut printer = JsonPrinter::compact(Sink::File("posts.json".to_string()));
    let p = post("abc123", "u/abc123.png", "abc123.png");
    printer.insert_posts(&[p.clone()]);
    assert_eq!(
        printer.finish(),
        Some(Emission { sink: Sink::File("posts.json".to_string()), pretty: false, posts: vec![p] })
    );
}

#[test]
fn pretty_printer_hands_over_its_posts() {
    let mut printer = JsonPrinter::pretty(Sink::Stderr);
    let p = post("abc123", "u/abc123.png", "abc123.png");
    printer.insert_post(&p);
    assert_eq!(printer.finish(), Some(Emission { sink: Sink::Stderr, pretty: true, posts: vec![p] }));
}

#[test]
fn printer_without_posts_still_writes_an_empty_object() {
    let printer = JsonPrinter::compact(Sink::Stderr);
    assert_eq!(printer.finish(), Some(Emission { sink: Sink::Stderr, pretty: false, posts: vec![] }));
}

#[test]
fn printer_for_mode_follows_the_mode() {
    assert_eq!(JsonPrinter::for_mode(EmissionMode::Off).finish(), None);
    let compact = JsonPrinter::for_mode(EmissionMode::Compact(Sink::Stderr)).finish();
    assert_eq!(compact.map(|e| e.pretty), Some(false));
    let pretty = JsonPrinter::for_mode(EmissionMode::Pretty(Sink::File("x.json".to_string()))).finish();
    assert_eq!(pretty.map(|e| (e.pretty, e.sink)), Some((true, Sink::File("x.json".to_string()))));
}

#[test]
fn two_pages_with_one_hash_leave_one_record_of_the_later_page() {
    let mut printer = JsonPrinter::compact(Sink::Stderr);
    let mut early = post("abc123", "u/abc123.png", "abc123.png");
    early.rating = "general".to_string();
    early.width = 100;
    let mut late = post("abc123", "u/abc123.png", "abc123.png");
    late.rating = "sensitive".to_string();
    late.width = 200;
    printer.insert_posts(&[post("p1", "u/p1.png", "p1.png"), early]);
    printer.insert_posts(&[late.clone(), post("p2", "u/p2.png", "p2.png")]);
    let emission = printer.finish().unwrap();
    assert_eq!(emission.posts.len(), 3);
    let same: Vec<&GelbooruPost> = emission.posts.iter().filter(|p| p.md5 == "abc123").collect();
    assert_eq!(same, vec![&late]);
    assert_eq!(same[0].rating, "sensitive");
    assert_eq!(same[0].width, 200);
}

#[test]
fn emission_mode_names_its_sink() {
    assert_eq!(EmissionMode::Off.sink(), None);
    assert_eq!(EmissionMode::Compact(Sink::Stderr).sink(), Some(&Sink::Stderr));
    assert_eq!(
        EmissionMode::Pretty(Sink::File("p.json".to_string())).sink().cloned(),
        Some(Sink::File("p.json".to_string()))
    );
}
