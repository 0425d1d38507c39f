use nexo_poller_gmail::errors::PollerError;
use nexo_poller_gmail::seen::{known_from, known_ids, SeenSet, SEEN_DROP, SEEN_LIMIT};

fn ids(cursor: &Option<Vec<u8>>) -> Vec<String> {
    serde_json::from_slice(cursor.as_ref().unwrap()).unwrap()
}

fn numbered(n: usize) -> Vec<String> {
    (0..n).map(|i| format!("{i:06}")).collect()
}

#[test]
fn ids_are_kept_once() {
    let mut seen = SeenSet::new();
    assert_eq!(seen.len(), 0);
    assert!(!seen.contains("b"));
    for id in ["b", "a", "b", "é", ""] {
        seen.insert(id.to_string());
    }
    assert_eq!(seen.len(), 4);
    assert!(seen.contains("a") && seen.contains("b") && seen.contains("é") && seen.contains(""));
    assert!(!seen.contains("c"));
}

#[test]
fn a_cursor_lists_the_ids_in_order() {
    let mut seen = SeenSet::new();
    for id in ["b", "a\"", "é"] {
        seen.insert(id.to_string());
    }
    let cursor = seen.to_cursor();
    assert_eq!(cursor.as_deref(), Some("[\"a\\\"\",\"b\",\"é\"]".as_bytes()));
    let again = SeenSet::from_cursor(&cursor);
    assert_eq!(again.len(), 3);
    assert!(again.contains("a\"") && again.contains("b") && again.contains("é"));
}

#[test]
fn a_cursor_that_cannot_be_read_remembers_nothing() {
    assert_eq!(SeenSet::from_cursor(&None).len(), 0);
    for bytes in ["", "x", "{}", "[1]", "[\"a\"", "null"] {
        assert_eq!(SeenSet::from_cursor(&Some(bytes.as_bytes().to_vec())).len(), 0, "{bytes}");
    }
    let seen = SeenSet::from_cursor(&Some(b" [\"a\", \"a\", \"b\"] ".to_vec()));
    assert_eq!(seen.len(), 2);
}

#[test]
fn a_list_that_was_read_is_taken_over() {
    assert_eq!(SeenSet::from_ids(None).len(), 0);
    let seen = SeenSet::from_ids(Some(vec!["x".to_string(), "x".to_string()]));
    assert_eq!(seen.len(), 1);
    assert!(seen.contains("x"));
}

#[test]
fn within_the_limit_all_ids_are_kept() {
    let mut seen = SeenSet::from_ids(Some(numbered(SEEN_LIMIT)));
    seen.cap();
    assert_eq!(seen.len(), 5000);
}

#[test]
fn over_the_limit_the_oldest_are_dropped() {
    let mut seen = SeenSet::from_ids(Some(numbered(SEEN_LIMIT + 1)));
    seen.cap();
    assert_eq!(seen.len(), SEEN_LIMIT + 1 - SEEN_DROP);
    assert_eq!(seen.len(), 4001);
    assert!(!seen.contains("000999"));
    assert!(seen.contains("001000"));
    assert_eq!(ids(&seen.to_cursor()), numbered(SEEN_LIMIT + 1)[1000..].to_vec());
}

#[test]
fn no_more_than_the_limit_are_kept_however_many_there_were() {
    let mut seen = SeenSet::from_ids(Some(numbered(7000)));
    seen.cap();
    assert_eq!(seen.len(), 5000);
    assert_eq!(ids(&seen.to_cursor()), numbered(7000)[2000..].to_vec());
    let mut seen = SeenSet::from_ids(Some(numbered(6000)));
    seen.cap();
    assert_eq!(seen.len(), 5000);
    let mut seen = SeenSet::from_ids(Some(numbered(5999)));
    seen.cap();
    assert_eq!(seen.len(), 4999);
}

#[test]
fn the_cursor_of_a_request_is_decoded() {
    assert_eq!(known_ids("j", &None).unwrap().len(), 0);
    for cursor in ["WyJhIiwiYiJd", "WyJhIiwiYiJd=="] {
        let seen = known_ids("j", &Some(cursor.to_string())).unwrap();
        assert_eq!(seen.len(), 2);
        assert!(seen.contains("a") && seen.contains("b"));
    }
    assert_eq!(known_ids("j", &Some("e30".to_string())).unwrap().len(), 0);
    match known_ids("j", &Some("*".to_string())) {
        Err(PollerError::Config { job, reason }) => {
            assert_eq!(job, "j");
            assert!(reason.starts_with("cursor base64 decode: "));
        }
        _ => panic!("decoded"),
    }
}

#[test]
fn what_was_read_of_a_cursor_is_taken_over() {
    assert_eq!(known_from(Ok(None)).unwrap().len(), 0);
    assert!(known_from(Ok(Some(b"[\"x\"]".to_vec()))).unwrap().contains("x"));
    match known_from(Err(("j".to_string(), "why".to_string()))) {
        Err(PollerError::Config { job, reason }) => {
            assert_eq!((job.as_str(), reason.as_str()), ("j", "why"));
        }
        _ => panic!("no error"),
    }
}
