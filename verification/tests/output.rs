use ytx::errors::CliError;
use ytx::output::{format_timestamp, format_transcript, transcript_output, Snippet};

fn snippet(text: &str, start: f64) -> Snippet {
    Snippet { text: text.to_string(), start_seconds: start as u64 }
}

#[test]
fn format_timestamp_matches_python_version() {
    assert_eq!(format_timestamp(65.9_f64 as u64), "1:05");
    assert_eq!(format_timestamp(3661.0_f64 as u64), "1:01:01");
}

#[test]
fn format_timestamp_edges() {
    assert_eq!(format_timestamp(0), "0:00");
    assert_eq!(format_timestamp(59), "0:59");
    assert_eq!(format_timestamp(600), "10:00");
    assert_eq!(format_timestamp(3599), "59:59");
    assert_eq!(format_timestamp(3600), "1:00:00");
    assert_eq!(format_timestamp(36000 + 59 * 60 + 9), "10:59:09");
    assert_eq!(format_timestamp(u64::MAX), "5124095576030431:00:15");
}

#[test]
fn format_transcript_plain_text() {
    let snippets = vec![snippet(" hello ", 0.0), snippet("", 1.0), snippet("world", 2.0)];
    assert_eq!(format_transcript(&snippets, false), "hello\nworld");
}

#[test]
fn format_transcript_with_timestamps() {
    let snippets = vec![snippet("hello", 65.0)];
    assert_eq!(format_transcript(&snippets, true), "[1:05] hello");
}

#[test]
fn format_transcript_skips_blank_lines_with_timestamps() {
    let snippets = vec![snippet("  ", 1.0), snippet("a", 3600.0), snippet("\t", 5.0), snippet(" b", 7.5)];
    assert_eq!(format_transcript(&snippets, true), "[1:00:00] a\n[0:07] b");
}

#[test]
fn transcript_output_rejects_blank_transcript() {
    let snippets = vec![snippet("  ", 1.0), snippet("", 2.0)];
    match transcript_output(&snippets, true) {
        Err(CliError::Usage(m)) => {
            assert_eq!(m, "Transcript was found, but it did not contain printable text.")
        }
        other => panic!("unexpected {other:?}"),
    }
    assert!(transcript_output(&[], false).is_err());
    assert_eq!(transcript_output(&[snippet(" x ", 0.0)], false).unwrap(), "x");
}
