use gtmov::reply::{
    content_type, fetch_reply, file_to_open, image_reply, index_page_name, index_reply, open_reply,
    requested_file, static_page, PageReply, Reply,
};

#[test]
fn listing_replies() {
    assert!(matches!(fetch_reply("genres", Ok(vec![1, 2])), Reply::Done(v) if v == vec![1, 2]));
    match fetch_reply::<Vec<u8>>("movies", Err("disk I/O error".to_string())) {
        Reply::ServerError(m) => assert_eq!(m, "Failed to fetch movies: disk I/O error"),
        _ => panic!("expected a server error"),
    }
}

#[test]
fn image_replies() {
    assert!(matches!(image_reply(Ok(Some(vec![1, 2, 3]))), Reply::Done(v) if v == vec![1, 2, 3]));
    for fetched in [Ok(Some(Vec::new())), Ok(None)] {
        match image_reply(fetched) {
            Reply::NotFound(m) => assert_eq!(m, "No image found for this movie"),
            _ => panic!("expected not found"),
        }
    }
    match image_reply(Err("gone".to_string())) {
        Reply::ServerError(m) => assert_eq!(m, "Failed to fetch image: gone"),
        _ => panic!("expected a server error"),
    }
}

#[test]
fn play_replies() {
    assert_eq!(file_to_open(Ok(Some("/m/a.mkv".to_string()))).ok(), Some("/m/a.mkv".to_string()));
    match file_to_open(Ok(None)) {
        Err(Reply::NotFound(m)) => assert_eq!(m, "Movie not found or has no file path"),
        _ => panic!("expected not found"),
    }
    match file_to_open(Err("locked".to_string())) {
        Err(Reply::ServerError(m)) => assert_eq!(m, "Failed to open file: locked"),
        _ => panic!("expected a server error"),
    }
    assert!(matches!(open_reply("/m/a.mkv", Ok(())), Reply::Accepted));
    match open_reply("/m/a.mkv", Err("no player".to_string())) {
        Reply::ServerError(m) => assert_eq!(m, "Failed to open file '/m/a.mkv': no player"),
        _ => panic!("expected a server error"),
    }
}

#[test]
fn static_files() {
    assert_eq!(requested_file(""), "index.html");
    assert_eq!(requested_file("app.js"), "app.js");
    assert_eq!(index_page_name(), "index.html");
    assert_eq!(content_type("style.css"), "text/css");
    assert_eq!(content_type("noext"), "application/octet-stream");
    let p = static_page("logo.png", Some(vec![9])).unwrap();
    assert_eq!(p.content_type, "image/png");
    assert_eq!(p.body, vec![9]);
    assert!(static_page("missing.js", None).is_none());
    match index_reply(Some(vec![1])) {
        PageReply::Found(p) => assert_eq!(p.content_type, "text/html"),
        PageReply::NotFound => panic!("expected the start page"),
    }
    assert!(matches!(index_reply(None), PageReply::NotFound));
}

#[test]
fn media_types_are_parsed_lower_case() {
    assert_eq!(content_type("report.docm"), "application/vnd.ms-word.document.macroenabled.12");
    assert_eq!(
        content_type("report.docm"),
        mime_guess::from_path("report.docm").first_or_octet_stream().as_ref()
    );
    assert_eq!(content_type("script.psc1"), "application/powershell");
}

#[test]
fn start_page_served_alike() {
    let name = requested_file("");
    let via_path = match static_page(&name, Some(vec![7, 8])) {
        Some(p) => PageReply::Found(p),
        None => index_reply(Some(vec![7, 8])),
    };
    match (via_path, index_reply(Some(vec![7, 8]))) {
        (PageReply::Found(a), PageReply::Found(b)) => {
            assert_eq!(a.content_type, b.content_type);
            assert_eq!(a.body, b.body);
        }
        _ => panic!("expected the start page twice"),
    }
}
