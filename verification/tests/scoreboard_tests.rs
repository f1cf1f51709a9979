use scoreboard::entry::{PersistenceError, ScoreEntry, ScorePostPayload, ServiceError, ValidationError};
use scoreboard::rank::sort_entries_desc;
use scoreboard::service::{list_outcome, list_scores, submit_outcome, submit_score};
use scoreboard::store::ScoreStore;
use scoreboard::validate::parse_scoreboard_id;

fn payload(scoreboard_id: u32, signature_name: &str, points: u32) -> ScorePostPayload {
    ScorePostPayload {
        scoreboard_id,
        signature_name: signature_name.to_string(),
        points,
    }
}

fn ts() -> String {
    "2024-05-01 12:00:00".to_string()
}

#[test]
fn round_trip_submit_then_list() {
    let mut store = ScoreStore::new();
    let p = payload(1, "ann", 42);
    let resp = submit_score(&mut store, &p, ts());
    assert_eq!(resp.status, 201);
    assert_eq!(resp.payload, p);

    let listing = list_scores(&store, 1);
    assert_eq!(listing.len(), 1);
    assert_eq!(listing[0].scoreboard_id, 1);
    assert_eq!(listing[0].signature_name, "ann");
    assert_eq!(listing[0].points, 42);
    assert!(!listing[0].timestamp.is_empty());
}

#[test]
fn listing_sorted_by_points_descending() {
    let mut store = ScoreStore::new();
    submit_score(&mut store, &payload(2, "a", 10), ts());
    submit_score(&mut store, &payload(2, "b", 50), ts());
    submit_score(&mut store, &payload(2, "c", 30), ts());
    submit_score(&mut store, &payload(2, "d", 50), ts());

    let listing = list_scores(&store, 2);
    let points: Vec<u32> = listing.iter().map(|e| e.points).collect();
    assert_eq!(points, vec![50, 50, 30, 10]);
    for pair in listing.windows(2) {
        assert!(pair[0].points >= pair[1].points);
    }
    // Ties keep storage (submission) order.
    assert_eq!(listing[0].signature_name, "b");
    assert_eq!(listing[1].signature_name, "d");
}

#[test]
fn empty_scoreboard_lists_empty() {
    let store = ScoreStore::new();
    let listing = list_scores(&store, 7);
    assert!(listing.is_empty());
}

#[test]
fn unknown_scoreboard_lists_empty_after_other_submissions() {
    let mut store = ScoreStore::new();
    submit_score(&mut store, &payload(5, "eve", 9), ts());
    let listing = list_scores(&store, 7);
    assert!(listing.is_empty());
}

#[test]
fn no_cross_contamination_between_scoreboards() {
    let mut store = ScoreStore::new();
    submit_score(&mut store, &payload(5, "eve", 9), ts());
    assert!(list_scores(&store, 6).is_empty());
    assert_eq!(list_scores(&store, 5).len(), 1);
    submit_score(&mut store, &payload(6, "mal", 11), ts());
    let five = list_scores(&store, 5);
    let six = list_scores(&store, 6);
    assert_eq!(five.len(), 1);
    assert_eq!(six.len(), 1);
    assert_eq!(five[0].signature_name, "eve");
    assert_eq!(six[0].signature_name, "mal");
}

#[test]
fn duplicate_submission_yields_two_rows() {
    let mut store = ScoreStore::new();
    let p = payload(3, "bob", 7);
    submit_score(&mut store, &p, ts());
    submit_score(&mut store, &p, ts());
    let listing = list_scores(&store, 3);
    assert_eq!(listing.len(), 2);
    assert_eq!(listing[0], listing[1]);
}

#[test]
fn entry_count_counts_all_scoreboards() {
    let mut store = ScoreStore::new();
    assert_eq!(store.entry_count(), 0);
    submit_score(&mut store, &payload(1, "a", 1), ts());
    submit_score(&mut store, &payload(2, "b", 2), ts());
    assert_eq!(store.entry_count(), 2);
}

#[test]
fn sort_entries_desc_exact_order() {
    let entries = vec![
        ScoreEntry {
            scoreboard_id: 1,
            signature_name: "low".to_string(),
            points: 3,
            timestamp: ts(),
        },
        ScoreEntry {
            scoreboard_id: 1,
            signature_name: "first_tie".to_string(),
            points: 8,
            timestamp: ts(),
        },
        ScoreEntry {
            scoreboard_id: 1,
            signature_name: "second_tie".to_string(),
            points: 8,
            timestamp: ts(),
        },
        ScoreEntry {
            scoreboard_id: 1,
            signature_name: "high".to_string(),
            points: 20,
            timestamp: ts(),
        },
    ];
    let sorted = sort_entries_desc(&entries);
    let names: Vec<&str> = sorted.iter().map(|e| e.signature_name.as_str()).collect();
    assert_eq!(names, vec!["high", "first_tie", "second_tie", "low"]);
}

#[test]
fn parse_accepts_plain_decimal() {
    assert_eq!(parse_scoreboard_id("123"), Ok(123));
}

#[test]
fn parse_accepts_zero() {
    assert_eq!(parse_scoreboard_id("0"), Ok(0));
}

#[test]
fn parse_accepts_largest_id() {
    assert_eq!(parse_scoreboard_id("4294967295"), Ok(u32::MAX));
}

#[test]
fn parse_rejects_one_past_largest() {
    assert_eq!(
        parse_scoreboard_id("4294967296"),
        Err(ValidationError::OutOfRange)
    );
}

#[test]
fn parse_rejects_huge_number() {
    assert_eq!(
        parse_scoreboard_id("99999999999999999999"),
        Err(ValidationError::OutOfRange)
    );
}

#[test]
fn parse_rejects_empty() {
    assert_eq!(parse_scoreboard_id(""), Err(ValidationError::NotANumber));
}

#[test]
fn parse_rejects_trailing_garbage() {
    assert_eq!(parse_scoreboard_id("12a"), Err(ValidationError::NotANumber));
}

#[test]
fn parse_rejects_sign_and_spaces() {
    assert_eq!(parse_scoreboard_id("-1"), Err(ValidationError::NotANumber));
    assert_eq!(parse_scoreboard_id(" 1"), Err(ValidationError::NotANumber));
    assert_eq!(parse_scoreboard_id("+1"), Err(ValidationError::NotANumber));
}

#[test]
fn submit_outcome_echoes_on_success() {
    let p = payload(1, "ann", 42);
    let r = submit_outcome(p.clone(), Ok(()));
    let resp = r.expect("success maps to a response");
    assert_eq!(resp.status, 201);
    assert_eq!(resp.payload, p);
}

#[test]
fn submit_outcome_reports_persistence_failure() {
    let p = payload(1, "ann", 42);
    let r = submit_outcome(
        p,
        Err(PersistenceError {
            message: "store unreachable".to_string(),
        }),
    );
    let err = r.expect_err("failure maps to an error");
    assert_eq!(err.status_code(), 500);
    assert_eq!(err.message(), "store unreachable");
}

#[test]
fn list_failure_is_not_an_empty_listing() {
    let failed: Result<Vec<ScoreEntry>, PersistenceError> = Err(PersistenceError {
        message: "store unreachable".to_string(),
    });
    let r = list_outcome(failed);
    assert!(r.is_err());

    let empty: Result<Vec<ScoreEntry>, PersistenceError> = Ok(vec![]);
    let ok = list_outcome(empty).expect("zero rows is a valid outcome");
    assert!(ok.is_empty());
}

#[test]
fn list_outcome_passes_rows_through() {
    let rows = vec![ScoreEntry {
        scoreboard_id: 4,
        signature_name: "ann".to_string(),
        points: 1,
        timestamp: ts(),
    }];
    let r = list_outcome(Ok(rows.clone())).expect("rows pass through");
    assert_eq!(r, rows);
}

#[test]
fn validation_error_maps_to_client_error_status() {
    let err = ServiceError::Validation(ValidationError::NotANumber);
    assert_eq!(err.status_code(), 400);
    assert_eq!(err.message(), "scoreboard id must be a decimal number");
    let err = ServiceError::Validation(ValidationError::OutOfRange);
    assert_eq!(err.status_code(), 400);
    assert_eq!(err.message(), "scoreboard id is out of range");
}
