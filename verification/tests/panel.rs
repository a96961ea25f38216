use score_panel::errors::DecodeError;
use score_panel::panel::{
    classify, parse_score, ContentBlock, EmbedField, InteractionPayload, ReportScoreAction,
    ReportScorePanel, ScoreMode,
};

fn field(name: &str, value: &str, inline: bool) -> EmbedField {
    EmbedField { name: name.to_string(), value: value.to_string(), inline }
}

fn payload(fields: Vec<EmbedField>, component_id: &str) -> InteractionPayload {
    InteractionPayload {
        blocks: vec![ContentBlock { fields }],
        component_id: component_id.to_string(),
    }
}

#[test]
fn mode_label_round_trip() {
    for mode in [ScoreMode::AddPoints, ScoreMode::RemovePoints] {
        assert_eq!(ScoreMode::from_label(mode.to_label()), Ok(mode));
    }
}

#[test]
fn mode_labels_are_canonical() {
    assert_eq!(ScoreMode::AddPoints.to_label(), "Add points");
    assert_eq!(ScoreMode::RemovePoints.to_label(), "Remove points");
}

#[test]
fn unrecognized_mode_label_fails() {
    assert_eq!(
        ScoreMode::from_label("Multiply"),
        Err(DecodeError::UnrecognizedMode("Multiply".to_string()))
    );
}

#[test]
fn score_parses_digit_prefix() {
    assert_eq!(parse_score("42 pts", "Alice"), Ok(42));
}

#[test]
fn score_parses_zero() {
    assert_eq!(parse_score("0", "Alice"), Ok(0));
}

#[test]
fn score_without_digits_is_missing() {
    assert_eq!(
        parse_score("pts only", "Alice"),
        Err(DecodeError::MissingScore("Alice".to_string()))
    );
}

#[test]
fn empty_score_field_is_missing() {
    assert_eq!(parse_score("", "Bob"), Err(DecodeError::MissingScore("Bob".to_string())));
}

#[test]
fn score_at_limit_parses() {
    assert_eq!(parse_score("4294967295 pts", "Alice"), Ok(u32::MAX));
}

#[test]
fn score_over_limit_is_out_of_range() {
    assert_eq!(
        parse_score("4294967296 pts", "Alice"),
        Err(DecodeError::ScoreOutOfRange("Alice".to_string()))
    );
}

#[test]
fn classify_reserved_identifiers() {
    assert_eq!(classify("switch_mode"), Ok(ReportScoreAction::SwitchMode));
    assert_eq!(classify("confirm_results"), Ok(ReportScoreAction::ConfirmResults));
    assert_eq!(classify("report_abuse"), Ok(ReportScoreAction::ReportAbuse));
}

#[test]
fn classify_numeric_user_identity() {
    assert_eq!(classify("123456789"), Ok(ReportScoreAction::ReportScore(123456789)));
}

#[test]
fn classify_rejects_non_identity() {
    assert_eq!(
        classify("not_an_id"),
        Err(DecodeError::UnknownAction("not_an_id".to_string()))
    );
}

#[test]
fn classify_rejects_zero_identity() {
    assert_eq!(classify("0"), Err(DecodeError::UnknownAction("0".to_string())));
}

#[test]
fn classify_accepts_plus_signed_identity() {
    assert_eq!(classify("+42"), Ok(ReportScoreAction::ReportScore(42)));
}

#[test]
fn decode_end_to_end() {
    let p = payload(
        vec![
            field("Alice", "10 pts", true),
            field("Bob", "7 pts", true),
            field("_", "info", false),
            field("Mode", "Add points", false),
        ],
        "confirm_results",
    );
    let panel = ReportScorePanel::decode(&p).unwrap();
    assert_eq!(panel.user_scores.len(), 2);
    assert_eq!(panel.user_scores[0].user, "Alice");
    assert_eq!(panel.user_scores[0].score, 10);
    assert_eq!(panel.user_scores[1].user, "Bob");
    assert_eq!(panel.user_scores[1].score, 7);
    assert_eq!(panel.mode, ScoreMode::AddPoints);
    assert_eq!(panel.action, ReportScoreAction::ConfirmResults);
}

#[test]
fn decode_without_blocks_is_missing_content() {
    let p = InteractionPayload { blocks: vec![], component_id: "confirm_results".to_string() };
    assert!(matches!(ReportScorePanel::decode(&p), Err(DecodeError::MissingContent)));
}

#[test]
fn decode_unrecognized_mode_fails() {
    let p = payload(
        vec![
            field("Alice", "10 pts", true),
            field("_", "info", false),
            field("Mode", "Multiply", false),
        ],
        "confirm_results",
    );
    assert_eq!(
        ReportScorePanel::decode(&p),
        Err(DecodeError::UnrecognizedMode("Multiply".to_string()))
    );
}

#[test]
fn decode_reports_first_unparsable_participant() {
    let p = payload(
        vec![
            field("Alice", "10 pts", true),
            field("Bob", "no score", true),
            field("Carol", "also none", true),
            field("_", "info", false),
            field("Mode", "Add points", false),
        ],
        "confirm_results",
    );
    assert_eq!(
        ReportScorePanel::decode(&p),
        Err(DecodeError::MissingScore("Bob".to_string()))
    );
}

#[test]
fn decode_with_one_row_is_missing_mode_field() {
    let p = payload(
        vec![field("Alice", "10 pts", true), field("_", "info", false)],
        "confirm_results",
    );
    assert_eq!(ReportScorePanel::decode(&p), Err(DecodeError::MissingModeField));
}

#[test]
fn decode_unknown_action_fails_last() {
    let p = payload(
        vec![
            field("Alice", "10 pts", true),
            field("_", "info", false),
            field("Mode", "Remove points", false),
        ],
        "tilted",
    );
    assert_eq!(
        ReportScorePanel::decode(&p),
        Err(DecodeError::UnknownAction("tilted".to_string()))
    );
}

#[test]
fn decode_user_identity_action() {
    let p = payload(
        vec![
            field("Alice", "10 pts", true),
            field("_", "info", false),
            field("Mode", "Remove points", false),
        ],
        "987654321",
    );
    let panel = ReportScorePanel::decode(&p).unwrap();
    assert_eq!(panel.mode, ScoreMode::RemovePoints);
    assert_eq!(panel.action, ReportScoreAction::ReportScore(987654321));
}

#[test]
fn add_user_appends_entry() {
    let p = payload(
        vec![field("_", "info", false), field("Mode", "Add points", false)],
        "confirm_results",
    );
    let mut panel = ReportScorePanel::decode(&p).unwrap();
    assert_eq!(panel.user_scores.len(), 0);
    panel.add_user("Dave".to_string(), 3);
    assert_eq!(panel.user_scores.len(), 1);
    assert_eq!(panel.user_scores[0].user, "Dave");
    assert_eq!(panel.user_scores[0].score, 3);
}
