use gelbooru_dl::config::Credentials;
use gelbooru_dl::post::GelbooruPost;
use gelbooru_dl::search::{query_params, SearchPage, SearchRequest, PAGE_SIZE};

fn post(md5: &str, file_url: &str, image: &str) -> GelbooruPost {
    GelbooruPost {
        id: 1,
        created_at: "Sat Jan 01 00:00:00 -0600 2022".to_string(),
        score: 3,
        width: 640,
        height: 480,
        md5: md5.to_string(),
        directory: "ab/cd".to_string(),
        image: image.to_string(),
        rating: "general".to_string(),
        source: "".to_string(),
        change: 1640995200,
        owner: "someone".to_string(),
        creator_id: 7,
        parent_id: 0,
        sample: 0,
        preview_height: 120,
        preview_width: 160,
        tags: "cat sitting".to_string(),
        title: "".to_string(),
        has_notes: "false".to_string(),
        has_comments: "false".to_string(),
        file_url: file_url.to_string(),
        preview_url: "https://img.example/thumbnails/ab/cd/thumbnail.jpg".to_string(),
        sample_url: "".to_string(),
        sample_height: 0,
        sample_width: 0,
        status: "active".to_string(),
        post_locked: 0,
        has_children: "false".to_string(),
    }
}

fn pair(name: &str, value: &str) -> (String, String) {
    (name.to_string(), value.to_string())
}

#[test]
fn page_size_is_one_hundred() {
    assert_eq!(PAGE_SIZE, 100);
}

#[test]
fn query_params_without_credentials() {
    let params = query_params(
        SearchRequest { limit: 100, page: 3 },
        &vec!["cat".to_string(), "-dog".to_string()],
        &None,
    );
    assert_eq!(
        params,
        vec![
            pair("limit", "100"),
            pair("pid", "3"),
            pair("tags", "cat -dog"),
        ]
    );
}

#[test]
fn query_params_with_credentials() {
    let params = query_params(
        SearchRequest { limit: 1, page: 0 },
        &vec!["solo".to_string()],
        &Some(Credentials { api_key: "k3y".to_string(), user_id: "1007".to_string() }),
    );
    assert_eq!(
        params,
        vec![
            pair("limit", "1"),
            pair("pid", "0"),
            pair("tags", "solo"),
            pair("api_key", "k3y"),
            pair("user_id", "1007"),
        ]
    );
}

#[test]
fn query_params_without_tags() {
    let params = query_params(SearchRequest { limit: 100, page: 12 }, &vec![], &None);
    assert_eq!(params.len(), 3);
    assert_eq!(params[2], pair("tags", ""));
    assert_eq!(params[1], pair("pid", "12"));
}

#[test]
fn search_page_without_posts_is_last() {
    let page = SearchPage { count: 5, posts: None };
    assert!(page.is_last());
    assert!(page.into_posts().is_empty());
}

#[test]
fn search_page_with_no_posts_is_last() {
    let page = SearchPage { count: 5, posts: Some(vec![]) };
    assert!(page.is_last());
    assert!(page.into_posts().is_empty());
}

#[test]
fn search_page_with_posts_is_not_last() {
    let p = post("abc123", "u/abc123.png", "abc123.png");
    let page = SearchPage { count: 5, posts: Some(vec![p.clone()]) };
    assert!(!page.is_last());
    assert_eq!(page.into_posts(), vec![p]);
}

#[test]
fn query_params_name_no_credential_where_none_is_given() {
    let params = query_params(SearchRequest { limit: 1, page: 0 }, &vec!["solo".to_string()], &None);
    assert!(params.iter().all(|(name, _)| name != "api_key" && name != "user_id"));
    let names: Vec<&str> = params.iter().map(|(name, _)| name.as_str()).collect();
    assert_eq!(names, vec!["limit", "pid", "tags"]);
}

#[test]
fn query_params_with_empty_credentials_still_name_them() {
    let params = query_params(
        SearchRequest { limit: 100, page: 2 },
        &vec![],
        &Some(Credentials { api_key: String::new(), user_id: String::new() }),
    );
    assert_eq!(
        params,
        vec![
            pair("limit", "100"),
            pair("pid", "2"),
            pair("tags", ""),
            pair("api_key", ""),
            pair("user_id", ""),
        ]
    );
}
