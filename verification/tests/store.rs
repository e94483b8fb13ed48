use gelbooru_dl::post::GelbooruPost;
use gelbooru_dl::store::AggregateStore;

fn post(md5: &str, file_url: &str, image: &str) -> GelbooruPost {
    GelbooruPost {
        id: 1,
        created_at: "Sat Jan 01 00:00:00 -0600 2022".to_string(),
        score: 3,
        width: 640,
        height: 480,
        md5: md5.to_string(),
        directory: "ab/cd".to_string(),
        image: image.to_string(),
        rating: "general".to_string(),
        source: "".to_string(),
        change: 1640995200,
        owner: "someone".to_string(),
        creator_id: 7,
        parent_id: 0,
        sample: 0,
        preview_height: 120,
        preview_width: 160,
        tags: "cat sitting".to_string(),
        title: "".to_string(),
        has_notes: "false".to_string(),
        has_comments: "false".to_string(),
        file_url: file_url.to_string(),
        preview_url: "https://img.example/thumbnails/ab/cd/thumbnail.jpg".to_string(),
        sample_url: "".to_string(),
        sample_height: 0,
        sample_width: 0,
        status: "active".to_string(),
        post_locked: 0,
        has_children: "false".to_string(),
    }
}

#[test]
fn new_store_is_empty() {
    let store = AggregateStore::new();
    assert_eq!(store.len(), 0);
    assert!(store.entries().is_empty());
    assert!(store.get(&"abc123".to_string()).is_none());
}

#[test]
fn insert_then_get_finds_the_post() {
    let mut store = AggregateStore::new();
    let p = post("abc123", "u/abc123.png", "abc123.png");
    store.insert(&p);
    assert_eq!(store.len(), 1);
    assert_eq!(store.get(&"abc123".to_string()), Some(&p));
    assert!(store.get(&"other".to_string()).is_none());
}

#[test]
fn same_hash_keeps_one_entry_with_later_values() {
    let mut store = AggregateStore::new();
    let mut early = post("abc123", "u/abc123.png", "abc123.png");
    early.score = 1;
    early.tags = "old".to_string();
    let mut late = post("abc123", "u/abc123.png", "abc123.png");
    late.score = 99;
    late.tags = "new".to_string();
    let other = post("ffff", "u/ffff.png", "ffff.png");
    store.insert_all(&[early, other.clone()]);
    store.insert_all(&[late.clone()]);
    assert_eq!(store.len(), 2);
    assert_eq!(store.get(&"abc123".to_string()), Some(&late));
    assert_eq!(store.get(&"ffff".to_string()), Some(&other));
    let hits = store.entries().iter().filter(|p| p.md5 == "abc123").count();
    assert_eq!(hits, 1);
}

#[test]
fn same_hash_twice_in_one_page_keeps_the_last() {
    let mut store = AggregateStore::new();
    let mut first = post("abc123", "u/abc123.png", "abc123.png");
    first.title = "first".to_string();
    let mut second = post("abc123", "u/abc123.png", "abc123.png");
    second.title = "second".to_string();
    store.insert_all(&[first, second.clone()]);
    assert_eq!(store.len(), 1);
    assert_eq!(store.get(&"abc123".to_string()), Some(&second));
}

#[test]
fn recording_the_same_post_twice_changes_nothing() {
    let mut once = AggregateStore::new();
    let mut twice = AggregateStore::new();
    let p = post("abc123", "u/abc123.png", "abc123.png");
    once.insert(&p);
    twice.insert(&p);
    twice.insert(&p);
    assert_eq!(once.len(), twice.len());
    assert_eq!(once.entries(), twice.entries());
}

#[test]
fn into_entries_gives_each_hash_once() {
    let mut store = AggregateStore::new();
    store.insert_all(&[
        post("a", "u/a.png", "a.png"),
        post("b", "u/b.png", "b.png"),
        post("a", "u/a2.png", "a2.png"),
        post("c", "u/c.png", "c.png"),
    ]);
    let mut hashes: Vec<String> = store.into_entries().into_iter().map(|p| p.md5).collect();
    hashes.sort();
    assert_eq!(hashes, vec!["a".to_string(), "b".to_string(), "c".to_string()]);
}

#[test]
fn insert_all_of_nothing_changes_nothing() {
    let mut store = AggregateStore::new();
    store.insert(&post("a", "u/a.png", "a.png"));
    store.insert_all(&[]);
    assert_eq!(store.len(), 1);
}

#[test]
fn entries_stand_in_the_order_of_their_hashes() {
    let mut store = AggregateStore::new();
    for hash in ["b", "", "ab", "a", "c0", "B", "aa", "\u{e9}", "z", "a\u{0}"] {
        store.insert(&post(hash, "u/x.png", "x.png"));
    }
    let hashes: Vec<&str> = store.entries().iter().map(|p| p.md5.as_str()).collect();
    let mut expected = hashes.clone();
    expected.sort();
    assert_eq!(hashes, expected);
    assert_eq!(hashes, vec!["", "B", "a", "a\u{0}", "aa", "ab", "b", "c0", "z", "\u{e9}"]);
    assert_eq!(store.len(), 10);
}

#[test]
fn order_of_entries_does_not_depend_on_the_order_of_arrival() {
    let names = ["d41d8", "0cc17", "900150", "f96b6", "c3fcd", "d1749", "57edf", "0cc18"];
    let mut forward = AggregateStore::new();
    for name in names {
        forward.insert(&post(name, "u/x.png", "x.png"));
    }
    let mut backward = AggregateStore::new();
    for name in names.iter().rev() {
        backward.insert(&post(name, "u/x.png", "x.png"));
    }
    assert_eq!(forward.entries(), backward.entries());
    for name in names {
        assert_eq!(forward.get(&name.to_string()).map(|p| p.md5.as_str()), Some(name));
    }
    assert!(forward.get(&"0cc1".to_string()).is_none());
    assert!(forward.get(&"0cc170".to_string()).is_none());
    assert!(forward.get(&"zzzz".to_string()).is_none());
    assert!(forward.get(&"".to_string()).is_none());
}

#[test]
fn many_posts_are_all_found_again() {
    let mut store = AggregateStore::new();
    for n in 0..500usize {
        let hash = format!("{:08x}", n.wrapping_mul(2654435761) % 0xffff_ffff);
        store.insert(&post(&hash, &format!("u/{n}.png"), "x.png"));
    }
    assert_eq!(store.len(), 500);
    for n in 0..500usize {
        let hash = format!("{:08x}", n.wrapping_mul(2654435761) % 0xffff_ffff);
        assert_eq!(store.get(&hash).map(|p| p.file_url.clone()), Some(format!("u/{n}.png")));
    }
    let hashes: Vec<String> = store.entries().iter().map(|p| p.md5.clone()).collect();
    let mut sorted = hashes.clone();
    sorted.sort();
    sorted.dedup();
    assert_eq!(hashes, sorted);
}
