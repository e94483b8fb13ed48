use gelbooru_dl::post::GelbooruPost;

fn post(md5: &str, file_url: &str, image: &str) -> GelbooruPost {
    GelbooruPost {
        id: 1,
        created_at: "Sat Jan 01 00:00:00 -0600 2022".to_string(),
        score: 3,
        width: 640,
        height: 480,
        md5: md5.to_string(),
        directory: "ab/cd".to_string(),
        image: image.to_string(),
        rating: "general".to_string(),
        source: "".to_string(),
        change: 1640995200,
        owner: "someone".to_string(),
        creator_id: 7,
        parent_id: 0,
        sample: 0,
        preview_height: 120,
        preview_width: 160,
        tags: "cat sitting".to_string(),
        title: "".to_string(),
        has_notes: "false".to_string(),
        has_comments: "false".to_string(),
        file_url: file_url.to_string(),
        preview_url: "https://img.example/thumbnails/ab/cd/thumbnail.jpg".to_string(),
        sample_url: "".to_string(),
        sample_height: 0,
        sample_width: 0,
        status: "active".to_string(),
        post_locked: 0,
        has_children: "false".to_string(),
    }
}

#[test]
fn file_name_is_last_segment_of_file_url() {
    let p = post("abc123", "https://img.example/images/ab/cd/abc123.png", "abc123.png");
    assert_eq!(p.file_name(), "abc123.png");
}

#[test]
fn file_name_goes_by_the_url_not_the_image_field() {
    let p = post("abc123", "https://img.example/images/ab/cd/from_url.png", "from_image.png");
    assert_eq!(p.file_name(), "from_url.png");
}

#[test]
fn file_name_of_url_without_slash_is_the_url() {
    let p = post("abc123", "plain.png", "plain.png");
    assert_eq!(p.file_name(), "plain.png");
}

#[test]
fn file_name_of_url_ending_in_slash_is_empty() {
    let p = post("abc123", "https://img.example/images/", "x.png");
    assert_eq!(p.file_name(), "");
}

#[test]
fn video_goes_by_the_image_extension() {
    assert!(post("a", "u/a.webm", "a.webm").is_video());
    assert!(post("a", "u/a.mp4", "a.mp4").is_video());
    assert!(!post("a", "u/a.png", "a.png").is_video());
    assert!(!post("a", "u/a.webm", "a.gif").is_video());
    assert!(post("a", "u/a.gif", "a.webm").is_video());
    assert!(!post("a", "u/a", "webm").is_video());
    assert!(!post("a", "u/a", "a.mp4.txt").is_video());
}

#[test]
fn clone_keeps_every_field() {
    let mut p = post("abc123", "https://img.example/images/ab/cd/abc123.png", "abc123.png");
    p.id = 42;
    p.score = -5;
    p.source = "https://elsewhere.example/art".to_string();
    p.owner = "uploader".to_string();
    p.post_locked = 1;
    let q = p.clone();
    assert_eq!(p, q);
    assert_eq!(q.id, 42);
    assert_eq!(q.score, -5);
    assert_eq!(q.source, "https://elsewhere.example/art");
    assert_eq!(q.owner, "uploader");
    assert_eq!(q.post_locked, 1);
    assert_eq!(q.md5, "abc123");
}
