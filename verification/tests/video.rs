use ytx::errors::CliError;
use ytx::video::{is_video_id, parse_video_id, video_id_from_url_parts, UrlParts};

#[test]
fn parse_video_id_accepts_plain_id() {
    assert_eq!(parse_video_id("dQw4w9WgXcQ").unwrap(), "dQw4w9WgXcQ");
}

#[test]
fn parse_video_id_accepts_watch_url() {
    assert_eq!(
        parse_video_id("https://www.youtube.com/watch?v=dQw4w9WgXcQ&list=abc").unwrap(),
        "dQw4w9WgXcQ"
    );
}

#[test]
fn parse_video_id_accepts_short_url() {
    assert_eq!(
        parse_video_id("https://youtu.be/dQw4w9WgXcQ?si=abc").unwrap(),
        "dQw4w9WgXcQ"
    );
}

#[test]
fn parse_video_id_accepts_shorts_url() {
    assert_eq!(
        parse_video_id("https://youtube.com/shorts/dQw4w9WgXcQ").unwrap(),
        "dQw4w9WgXcQ"
    );
}

#[test]
fn parse_video_id_rejects_non_youtube_url() {
    assert!(matches!(
        parse_video_id("https://example.com/nope"),
        Err(CliError::Usage(_))
    ));
}

#[test]
fn parse_video_id_trims_plain_id() {
    assert_eq!(parse_video_id("  dQw4w9WgXcQ\n").unwrap(), "dQw4w9WgXcQ");
}

#[test]
fn parse_video_id_other_url_shapes() {
    assert_eq!(parse_video_id("https://m.youtube.com/embed/abcdefghijk").unwrap(), "abcdefghijk");
    assert_eq!(parse_video_id("https://music.youtube.com/live/abcdefghij_").unwrap(), "abcdefghij_");
    assert_eq!(parse_video_id("https://www.youtube.com/v/abc-efghijk").unwrap(), "abc-efghijk");
    assert_eq!(
        parse_video_id("https://www.youtube-nocookie.com/embed/abcdefghijk?x=1").unwrap(),
        "abcdefghijk"
    );
    assert_eq!(parse_video_id("https://YouTu.be//abcdefghijk/").unwrap(), "abcdefghijk");
    assert_eq!(
        parse_video_id("https://www.www.youtube.com/watch?x=1&v=abcdefghijk&v=zzzzzzzzzzz").unwrap(),
        "abcdefghijk"
    );
}

#[test]
fn parse_video_id_error_message_keeps_input() {
    match parse_video_id(" not a url ") {
        Err(CliError::Usage(m)) => assert_eq!(m, "Could not find a YouTube video ID in:  not a url "),
        other => panic!("unexpected {other:?}"),
    }
    assert!(parse_video_id("https://youtu.be/short").is_err());
    assert!(parse_video_id("https://www.youtube.com/watch?list=abc").is_err());
    assert!(parse_video_id("https://youtube-nocookie.com/watch?v=abcdefghijk").is_err());
}

#[test]
fn is_video_id_shape() {
    assert!(is_video_id("dQw4w9WgXcQ"));
    assert!(is_video_id("a_b-c_d-e_f"));
    assert!(!is_video_id("dQw4w9WgXc"));
    assert!(!is_video_id("dQw4w9WgXcQQ"));
    assert!(!is_video_id("dQw4w9WgXc!"));
    assert!(!is_video_id("dQw4w9WgXcé"));
}

#[test]
fn video_id_from_parts_reads_query() {
    let parts = UrlParts {
        host: Some("WWW.YouTube.com".to_string()),
        path: "/watch".to_string(),
        segments: Some(vec!["watch".to_string()]),
        query: vec![("v".to_string(), "abcdefghijk".to_string())],
    };
    // Only leading lower-case "www." labels are dropped before lower-casing.
    assert_eq!(video_id_from_url_parts(&parts), None);
    let parts = UrlParts { host: Some("www.YouTube.com".to_string()), ..parts };
    assert_eq!(video_id_from_url_parts(&parts), Some("abcdefghijk".to_string()));
    let parts = UrlParts { host: None, ..parts };
    assert_eq!(video_id_from_url_parts(&parts), None);
}
