use gelbooru_dl::text::{
    chars_of, compare, decimal_string, ends_with, final_segment, join_spaced, push_decimal, Side,
};

#[test]
fn decimal_of_zero() {
    assert_eq!(decimal_string(0), "0");
}

#[test]
fn decimal_of_several_digits() {
    assert_eq!(decimal_string(7), "7");
    assert_eq!(decimal_string(10), "10");
    assert_eq!(decimal_string(1234567890), "1234567890");
    assert_eq!(decimal_string(usize::MAX), format!("{}", usize::MAX));
}

#[test]
fn final_segment_follows_last_slash() {
    assert_eq!(final_segment("https://img.example/images/ab/cd/abc123.png"), "abc123.png");
    assert_eq!(final_segment("abc123.png"), "abc123.png");
    assert_eq!(final_segment("a/b/"), "");
    assert_eq!(final_segment(""), "");
    assert_eq!(final_segment("/"), "");
    assert_eq!(final_segment("dir/sn\u{e9}/\u{fc}ber.png"), "\u{fc}ber.png");
}

#[test]
fn ends_with_compares_the_tail() {
    assert!(ends_with("clip.webm", ".webm"));
    assert!(ends_with("clip.mp4", ".mp4"));
    assert!(!ends_with("clip.png", ".mp4"));
    assert!(!ends_with("mp4", ".mp4"));
    assert!(ends_with("anything", ""));
    assert!(ends_with("", ""));
    assert!(!ends_with("", "x"));
}

#[test]
fn join_spaced_puts_one_space_between() {
    assert_eq!(join_spaced(&vec![]), "");
    assert_eq!(join_spaced(&vec!["solo".to_string()]), "solo");
    assert_eq!(
        join_spaced(&vec!["cat".to_string(), "-dog".to_string(), "rating:safe".to_string()]),
        "cat -dog rating:safe"
    );
}

#[test]
fn push_decimal_appends() {
    let mut out = String::from("n=");
    push_decimal(&mut out, 905);
    assert_eq!(out, "n=905");
    push_decimal(&mut out, 0);
    assert_eq!(out, "n=9050");
}

#[test]
fn chars_of_gives_every_character() {
    assert_eq!(chars_of(""), Vec::<char>::new());
    assert_eq!(chars_of("a/\u{e9}\u{1f600}"), vec!['a', '/', '\u{e9}', '\u{1f600}']);
}

#[test]
fn compare_orders_by_bytes() {
    assert_eq!(compare("", ""), Side::Same);
    assert_eq!(compare("abc", "abc"), Side::Same);
    assert_eq!(compare("", "a"), Side::Before);
    assert_eq!(compare("a", ""), Side::After);
    assert_eq!(compare("ab", "abc"), Side::Before);
    assert_eq!(compare("abd", "abc"), Side::After);
    assert_eq!(compare("B", "a"), Side::Before);
    assert_eq!(compare("z", "\u{e9}"), Side::Before);
    assert_eq!(compare("\u{ffff}", "\u{10000}"), Side::Before);
    assert_eq!(compare("0cc17", "0cc18"), Side::Before);
}

#[test]
fn compare_agrees_with_the_order_of_strings() {
    let samples = ["", "a", "A", "ab", "b", "\u{e9}", "\u{1f600}", "a\u{0}", "900150", "d41d8"];
    for a in samples {
        for b in samples {
            let expected = match a.cmp(b) {
                std::cmp::Ordering::Less => Side::Before,
                std::cmp::Ordering::Equal => Side::Same,
                std::cmp::Ordering::Greater => Side::After,
            };
            assert_eq!(compare(a, b), expected);
        }
    }
}
