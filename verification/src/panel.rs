//! The panel state codec.
//!
//! An interactive chat-platform panel has no durable state of its own: the
//! text rendered inside it is the only record of in-progress scoring between
//! interactions. This module reconstructs typed panel state — participant
//! scores, the scoring mode, and the action the user just took — purely from
//! the rendered payload of one interaction event.

use vstd::prelude::*;

use crate::errors::DecodeError;
use crate::text::{
    all_dec_digits, dec_prefix_value, dec_value, digit_prefix, digit_run_len, is_dec_digit,
    scan_digit_run, str_eq_chars,
};

verus! {

/// One participant's rendered score line: a display name and the score
/// recovered from it.
#[derive(Debug, Clone, PartialEq, Eq)]
pub struct ScoreData {
    /// The name of the user.
    pub user: String,
    pub score: u32,
}

/// How a reported score is applied. The label mapping in
/// [`mode_label`] and [`mode_of_label`] is bijective: an unrecognized label
/// is a decode failure, never a silent default.
#[derive(Debug, Clone, Copy, PartialEq, Eq, Structural)]
#[non_exhaustive]
pub enum ScoreMode {
    AddPoints,
    RemovePoints,
}

/// The action derived from the identifier of the UI element the user
/// activated. Exactly one action is derived per interaction event.
#[derive(Debug, Clone, Copy, PartialEq, Eq, Structural)]
#[non_exhaustive]
pub enum ReportScoreAction {
    /// Confirm the results; commit once both parties have verified them.
    ConfirmResults,
    /// Show the user a form for explaining the abuse.
    ReportAbuse,
    /// Toggle the [`ScoreMode`] of the panel.
    SwitchMode,
    /// Raise or lower the given user's score, depending on the [`ScoreMode`].
    ReportScore(u64),
}

/// One rendered field of a content block: a name, a value, and whether the
/// field renders inline (inline fields are participant score fields;
/// full-width fields carry panel-level rows such as the mode).
#[derive(Debug, Clone, PartialEq, Eq)]
pub struct EmbedField {
    pub name: String,
    pub value: String,
    pub inline: bool,
}

/// One content block of the interaction's source message.
#[derive(Debug, Clone, PartialEq, Eq)]
pub struct ContentBlock {
    pub fields: Vec<EmbedField>,
}

/// The rendered payload of one interaction event: the source message's
/// content blocks, and the platform-assigned identifier of the UI element
/// that triggered the event.
#[derive(Debug, Clone, PartialEq, Eq)]
pub struct InteractionPayload {
    pub blocks: Vec<ContentBlock>,
    pub component_id: String,
}

/// The typed state of a score panel, reconstructed from one interaction.
#[derive(Debug, PartialEq, Eq)]
pub struct ReportScorePanel {
    pub user_scores: Vec<ScoreData>,
    pub mode: ScoreMode,
    pub action: ReportScoreAction,
}

// ---------------------------------------------------------------------------
// Mode codec
// ---------------------------------------------------------------------------

/// The canonical textual label of a scoring mode.
pub open spec fn mode_label(m: ScoreMode) -> Seq<char> {
    match m {
        ScoreMode::AddPoints => "Add points"@,
        ScoreMode::RemovePoints => "Remove points"@,
    }
}

/// The scoring mode named by a label, if any.
pub open spec fn mode_of_label(s: Seq<char>) -> Option<ScoreMode> {
    if s == "Add points"@ {
        Some(ScoreMode::AddPoints)
    } else if s == "Remove points"@ {
        Some(ScoreMode::RemovePoints)
    } else {
        None
    }
}

impl ScoreMode {
    /// Renders the mode as its canonical label.
    pub fn to_label(&self) -> (r: &'static str)
        ensures
            r@ == mode_label(*self),
    {
        match self {
            ScoreMode::AddPoints => "Add points",
            ScoreMode::RemovePoints => "Remove points",
        }
    }

    /// Decodes a label back into the mode it names.
    pub fn from_label(s: &str) -> (r: Result<ScoreMode, DecodeError>)
        ensures
            match mode_of_label(s@) {
                Some(m) => r == Ok::<ScoreMode, DecodeError>(m),
                None => (r matches Err(DecodeError::UnrecognizedMode(t)) && t@ == s@),
            },
    {
        if str_eq_chars(s, "Add points") {
            Ok(ScoreMode::AddPoints)
        } else if str_eq_chars(s, "Remove points") {
            Ok(ScoreMode::RemovePoints)
        } else {
            Err(DecodeError::UnrecognizedMode(s.to_owned()))
        }
    }
}

/// Round trip: every mode's canonical label decodes back to the mode
/// itself, so rendering and re-parsing a panel never changes its mode.
pub proof fn lemma_mode_label_round_trip(m: ScoreMode)
    ensures
        mode_of_label(mode_label(m)) == Some(m),
{
    reveal_strlit("Add points");
    reveal_strlit("Remove points");
    assert("Add points"@.len() == 10);
    assert("Remove points"@.len() == 13);
}

/// The other direction of the round trip: a label that names a mode at all
/// is that mode's canonical label. With [`lemma_mode_label_round_trip`],
/// the label–mode mapping is bijective.
pub proof fn lemma_label_mode_round_trip(s: Seq<char>)
    ensures
        mode_of_label(s) matches Some(m) ==> mode_label(m) == s,
{
}

// ---------------------------------------------------------------------------
// Score field parser
// ---------------------------------------------------------------------------

/// A rendered field value carries a score: it begins with at least one
/// decimal digit, and the digit run's value fits the score type.
pub open spec fn field_score_ok(value: Seq<char>) -> bool {
    digit_run_len(value) > 0 && dec_value(digit_prefix(value)) <= u32::MAX
}

/// The score a rendered field value carries.
pub open spec fn field_score(value: Seq<char>) -> u32 {
    dec_value(digit_prefix(value)) as u32
}

/// Extracts the score from a rendered field value: the maximal leading run
/// of decimal digits, read as a number; whatever follows the run is
/// descriptive text and is ignored. `name` is the participant label that a
/// failure reports.
pub fn parse_score(value: &str, name: &str) -> (r: Result<u32, DecodeError>)
    ensures
        match r {
            Ok(v) => field_score_ok(value@) && v == field_score(value@),
            Err(e) => match e {
                DecodeError::MissingScore(f) => digit_run_len(value@) == 0 && f@ == name@,
                DecodeError::ScoreOutOfRange(f) => digit_run_len(value@) > 0 && dec_value(
                    digit_prefix(value@),
                ) > u32::MAX && f@ == name@,
                _ => false,
            },
        },
{
    let k = scan_digit_run(value);
    if k == 0 {
        return Err(DecodeError::MissingScore(name.to_owned()));
    }
    match dec_prefix_value(value, k, 0xffff_ffff) {
        Some(v) => Ok(v as u32),
        None => Err(DecodeError::ScoreOutOfRange(name.to_owned())),
    }
}

// ---------------------------------------------------------------------------
// Action classifier
// ---------------------------------------------------------------------------

/// The digit part of a textual user identity: a leading `+` sign, if one is
/// there, does not take part in the value.
pub open spec fn user_id_numeral(s: Seq<char>) -> Seq<char> {
    if s.len() > 0 && s[0] == '+' {
        s.drop_first()
    } else {
        s
    }
}

/// The user identity a text names: the platform's numeric identity format,
/// a nonzero decimal `u64` with an optional leading `+`.
pub open spec fn user_id_of_text(s: Seq<char>) -> Option<u64> {
    let d = user_id_numeral(s);
    if d.len() > 0 && all_dec_digits(d) && 0 < dec_value(d) <= u64::MAX {
        Some(dec_value(d) as u64)
    } else {
        None
    }
}

/// Relies on `twilight_model::id::Id::<UserMarker>` and its `FromStr` impl,
/// which is `NonZero::<u64>::from_str`: the text parses exactly when it is
/// an optional leading `+` followed by at least one ASCII decimal digit,
/// with a value that fits `u64` and is not zero; `Id::get` hands that value
/// back unchanged.
#[verifier::external_body]
fn parse_user_id(s: &str) -> (r: Option<u64>)
    ensures
        r == user_id_of_text(s@),
{
    s.parse::<twilight_model::id::Id<twilight_model::id::marker::UserMarker>>()
        .ok()
        .map(|id| id.get())
}

/// The action a component identifier names, if any: reserved control
/// identifiers first, then the user-identity fallback.
pub open spec fn action_of_id(s: Seq<char>) -> Option<ReportScoreAction> {
    if s == "switch_mode"@ {
        Some(ReportScoreAction::SwitchMode)
    } else if s == "confirm_results"@ {
        Some(ReportScoreAction::ConfirmResults)
    } else if s == "report_abuse"@ {
        Some(ReportScoreAction::ReportAbuse)
    } else {
        match user_id_of_text(s) {
            Some(n) => Some(ReportScoreAction::ReportScore(n)),
            None => None,
        }
    }
}

/// The reserved control identifiers are not user identities, so checking
/// them before the identity fallback loses nothing: no user identity is
/// ever shadowed by a control keyword.
pub proof fn lemma_reserved_ids_are_not_identities()
    ensures
        user_id_of_text("switch_mode"@) is None,
        user_id_of_text("confirm_results"@) is None,
        user_id_of_text("report_abuse"@) is None,
{
    reveal_strlit("switch_mode");
    reveal_strlit("confirm_results");
    reveal_strlit("report_abuse");
    assert(!is_dec_digit("switch_mode"@[0]));
    assert(!is_dec_digit("confirm_results"@[0]));
    assert(!is_dec_digit("report_abuse"@[0]));
}

/// Maps the triggering UI element's opaque identifier to a typed action.
/// Reserved control identifiers are checked before the identity fallback,
/// so a user identity can never collide with a control keyword.
pub fn classify(component_id: &str) -> (r: Result<ReportScoreAction, DecodeError>)
    ensures
        match action_of_id(component_id@) {
            Some(a) => r == Ok::<ReportScoreAction, DecodeError>(a),
            None => (r matches Err(DecodeError::UnknownAction(id)) && id@ == component_id@),
        },
{
    if str_eq_chars(component_id, "switch_mode") {
        Ok(ReportScoreAction::SwitchMode)
    } else if str_eq_chars(component_id, "confirm_results") {
        Ok(ReportScoreAction::ConfirmResults)
    } else if str_eq_chars(component_id, "report_abuse") {
        Ok(ReportScoreAction::ReportAbuse)
    } else {
        match parse_user_id(component_id) {
            Some(n) => Ok(ReportScoreAction::ReportScore(n)),
            None => Err(DecodeError::UnknownAction(component_id.to_owned())),
        }
    }
}

// ---------------------------------------------------------------------------
// Field selection
// ---------------------------------------------------------------------------

/// The subsequence of `fields` whose `inline` flag equals `inline`, in
/// rendering order.
pub open spec fn kept_fields(fields: Seq<EmbedField>, inline: bool) -> Seq<EmbedField>
    decreases fields.len(),
{
    if fields.len() == 0 {
        Seq::empty()
    } else {
        let rest = kept_fields(fields.drop_last(), inline);
        if fields.last().inline == inline {
            rest.push(fields.last())
        } else {
            rest
        }
    }
}

/// The participant score fields: those rendered inline, in order.
pub open spec fn inline_fields(fields: Seq<EmbedField>) -> Seq<EmbedField> {
    kept_fields(fields, true)
}

/// The full-width rows: the fields not rendered inline, in order.
pub open spec fn block_rows(fields: Seq<EmbedField>) -> Seq<EmbedField> {
    kept_fields(fields, false)
}

/// The kept fields of a prefix are a prefix of the kept fields.
pub proof fn lemma_kept_fields_take_prefix(fields: Seq<EmbedField>, i: int, inline: bool)
    requires
        0 <= i <= fields.len(),
    ensures
        kept_fields(fields.take(i), inline).is_prefix_of(kept_fields(fields, inline)),
    decreases fields.len() - i,
{
    if i == fields.len() {
        assert(fields.take(i) =~= fields);
    } else {
        lemma_kept_fields_take_prefix(fields, i + 1, inline);
        assert(fields.take(i + 1).drop_last() =~= fields.take(i));
        assert(fields.take(i + 1).last() == fields[i]);
    }
}

/// The index of the first inline field whose value carries no usable
/// score, or the number of inline fields when every one of them does.
pub open spec fn first_bad_score(inl: Seq<EmbedField>) -> int
    decreases inl.len(),
{
    if inl.len() == 0 {
        0
    } else if !field_score_ok(inl[0].value@) {
        0
    } else {
        1 + first_bad_score(inl.drop_first())
    }
}

/// `first_bad_score` is what a left-to-right scan finds: if the first `n`
/// inline fields parse and the next one (if any) does not, it is `n`.
pub proof fn lemma_first_bad_score_is(inl: Seq<EmbedField>, n: int)
    requires
        0 <= n <= inl.len(),
        forall|j: int| 0 <= j < n ==> field_score_ok((#[trigger] inl[j]).value@),
        n < inl.len() ==> !field_score_ok(inl[n].value@),
    ensures
        first_bad_score(inl) == n,
    decreases inl.len(),
{
    if n != 0 {
        assert(field_score_ok(inl[0].value@));
        lemma_first_bad_score_is(inl.drop_first(), n - 1);
    }
}

/// Every inline field of `fields` carries a usable score.
pub open spec fn scores_ok(fields: Seq<EmbedField>) -> bool {
    first_bad_score(inline_fields(fields)) == inline_fields(fields).len()
}

// ---------------------------------------------------------------------------
// Panel state codec
// ---------------------------------------------------------------------------

/// Parses every inline field of `fields` into a score entry, in rendering
/// order, failing on the first inline field that carries no usable score.
fn collect_scores(fields: &Vec<EmbedField>) -> (r: Result<Vec<ScoreData>, DecodeError>)
    ensures
        ({
            let inl = inline_fields(fields@);
            match r {
                Ok(entries) => scores_ok(fields@) && entries@.len() == inl.len() && (forall|
                    i: int,
                |
                    0 <= i < inl.len() ==> (#[trigger] entries@[i]).user@ == inl[i].name@
                        && entries@[i].score == field_score(inl[i].value@)),
                Err(e) => ({
                    let j = first_bad_score(inl);
                    j < inl.len() && (if digit_run_len(inl[j].value@) == 0 {
                        e matches DecodeError::MissingScore(f) && f@ == inl[j].name@
                    } else {
                        e matches DecodeError::ScoreOutOfRange(f) && f@ == inl[j].name@
                    })
                }),
            }
        }),
{
    let n = fields.len();
    let mut entries: Vec<ScoreData> = Vec::new();
    let mut idx: usize = 0;
    proof {
        assert(fields@.take(0) =~= Seq::<EmbedField>::empty());
    }
    while idx < n
        invariant
            n == fields@.len(),
            0 <= idx <= n,
            entries@.len() == inline_fields(fields@.take(idx as int)).len(),
            forall|i: int|
                0 <= i < entries@.len() ==> field_score_ok(
                    (#[trigger] inline_fields(fields@.take(idx as int))[i]).value@,
                ),
            forall|i: int|
                0 <= i < entries@.len() ==> (#[trigger] entries@[i]).user@ == inline_fields(
                    fields@.take(idx as int),
                )[i].name@ && entries@[i].score == field_score(
                    inline_fields(fields@.take(idx as int))[i].value@,
                ),
        decreases n - idx,
    {
        let f = &fields[idx];
        proof {
            assert(fields@.take(idx as int + 1).drop_last() =~= fields@.take(idx as int));
            assert(fields@.take(idx as int + 1).last() == fields@[idx as int]);
            if fields@[idx as int].inline {
                assert(inline_fields(fields@.take(idx as int + 1)) == inline_fields(
                    fields@.take(idx as int),
                ).push(fields@[idx as int]));
            } else {
                assert(inline_fields(fields@.take(idx as int + 1)) == inline_fields(
                    fields@.take(idx as int),
                ));
            }
        }
        if f.inline {
            match parse_score(f.value.as_str(), f.name.as_str()) {
                Ok(score) => {
                    let entry = ScoreData { user: f.name.clone(), score };
                    entries.push(entry);
                }
                Err(e) => {
                    proof {
                        let inl = inline_fields(fields@);
                        let old_inl = inline_fields(fields@.take(idx as int));
                        let part = inline_fields(fields@.take(idx as int + 1));
                        let m = entries@.len() as int;
                        lemma_kept_fields_take_prefix(fields@, idx as int + 1, true);
                        assert(part =~= inl.subrange(0, m + 1));
                        assert forall|j: int| 0 <= j < m implies field_score_ok(
                            (#[trigger] inl[j]).value@,
                        ) by {
                            assert(inl[j] == inl.subrange(0, m + 1)[j]);
                            assert(inl[j] == old_inl[j]);
                            assert(field_score_ok(old_inl[j].value@));
                        }
                        assert(inl[m] == inl.subrange(0, m + 1)[m]);
                        assert(inl[m] == fields@[idx as int]);
                        assert(!field_score_ok(fields@[idx as int].value@));
                        lemma_first_bad_score_is(inl, m);
                    }
                    return Err(e);
                }
            }
        }
        idx += 1;
    }
    proof {
        assert(fields@.take(n as int) =~= fields@);
        lemma_first_bad_score_is(inline_fields(fields@), entries@.len() as int);
    }
    Ok(entries)
}

/// Finds the full-width row that holds the current mode label: the second
/// non-inline field, in rendering order.
fn find_mode_row(fields: &Vec<EmbedField>) -> (r: Result<&EmbedField, DecodeError>)
    ensures
        ({
            let rows = block_rows(fields@);
            match r {
                Ok(f) => rows.len() >= 2 && *f == rows[1],
                Err(e) => rows.len() < 2 && e == DecodeError::MissingModeField,
            }
        }),
{
    let n = fields.len();
    let mut count: usize = 0;
    let mut idx: usize = 0;
    proof {
        assert(fields@.take(0) =~= Seq::<EmbedField>::empty());
    }
    while idx < n
        invariant
            n == fields@.len(),
            0 <= idx <= n,
            count == block_rows(fields@.take(idx as int)).len(),
            count <= 1,
        decreases n - idx,
    {
        let f = &fields[idx];
        proof {
            assert(fields@.take(idx as int + 1).drop_last() =~= fields@.take(idx as int));
            assert(fields@.take(idx as int + 1).last() == fields@[idx as int]);
            if !fields@[idx as int].inline {
                assert(block_rows(fields@.take(idx as int + 1)) == block_rows(
                    fields@.take(idx as int),
                ).push(fields@[idx as int]));
            } else {
                assert(block_rows(fields@.take(idx as int + 1)) == block_rows(
                    fields@.take(idx as int),
                ));
            }
        }
        if !f.inline {
            if count == 1 {
                proof {
                    let rows = block_rows(fields@);
                    let part = block_rows(fields@.take(idx as int + 1));
                    lemma_kept_fields_take_prefix(fields@, idx as int + 1, false);
                    assert(part =~= rows.subrange(0, 2));
                    assert(rows[1] == rows.subrange(0, 2)[1]);
                    assert(rows[1] == fields@[idx as int]);
                }
                return Ok(f);
            }
            count += 1;
        }
        idx += 1;
    }
    proof {
        assert(fields@.take(n as int) =~= fields@);
    }
    Err(DecodeError::MissingModeField)
}

impl ReportScorePanel {
    /// Reconstructs the typed panel state from a rendered interaction
    /// payload: the first content block's inline fields become the score
    /// entries, its second full-width row names the mode, and the
    /// triggering element's identifier names the action. The first failure,
    /// in that order, is the result.
    pub fn decode(payload: &InteractionPayload) -> (r: Result<ReportScorePanel, DecodeError>)
        ensures
            ({
                let blocks = payload.blocks@;
                if blocks.len() == 0 {
                    r == Err::<ReportScorePanel, DecodeError>(DecodeError::MissingContent)
                } else {
                    let fields = blocks[0].fields@;
                    let inl = inline_fields(fields);
                    let rows = block_rows(fields);
                    if first_bad_score(inl) < inl.len() {
                        let j = first_bad_score(inl);
                        if digit_run_len(inl[j].value@) == 0 {
                            r matches Err(DecodeError::MissingScore(f)) && f@ == inl[j].name@
                        } else {
                            r matches Err(DecodeError::ScoreOutOfRange(f)) && f@ == inl[j].name@
                        }
                    } else if rows.len() < 2 {
                        r == Err::<ReportScorePanel, DecodeError>(DecodeError::MissingModeField)
                    } else if mode_of_label(rows[1].value@) is None {
                        r matches Err(DecodeError::UnrecognizedMode(t)) && t@ == rows[1].value@
                    } else if action_of_id(payload.component_id@) is None {
                        r matches Err(DecodeError::UnknownAction(id)) && id@
                            == payload.component_id@
                    } else {
                        r matches Ok(p) && p.user_scores@.len() == inl.len() && (forall|i: int|
                            0 <= i < inl.len() ==> (#[trigger] p.user_scores@[i]).user@
                                == inl[i].name@ && p.user_scores@[i].score == field_score(
                                inl[i].value@,
                            )) && Some(p.mode) == mode_of_label(rows[1].value@) && Some(p.action)
                            == action_of_id(payload.component_id@)
                    }
                }
            }),
    {
        if payload.blocks.len() == 0 {
            return Err(DecodeError::MissingContent);
        }
        let block = &payload.blocks[0];
        let entries = match collect_scores(&block.fields) {
            Ok(v) => v,
            Err(e) => {
                return Err(e);
            },
        };
        let mode_row = match find_mode_row(&block.fields) {
            Ok(f) => f,
            Err(e) => {
                return Err(e);
            },
        };
        let mode = match ScoreMode::from_label(mode_row.value.as_str()) {
            Ok(m) => m,
            Err(e) => {
                return Err(e);
            },
        };
        let action = match classify(payload.component_id.as_str()) {
            Ok(a) => a,
            Err(e) => {
                return Err(e);
            },
        };
        Ok(ReportScorePanel { user_scores: entries, mode, action })
    }

    /// Appends a participant entry; used when composing a new panel before
    /// it is first rendered, not when decoding an existing one.
    pub fn add_user(&mut self, name: String, score: u32)
        ensures
            final(self).user_scores@ == old(self).user_scores@.push(
                (ScoreData { user: name, score }),
            ),
            final(self).mode == old(self).mode,
            final(self).action == old(self).action,
    {
        self.user_scores.push(ScoreData { user: name, score });
    }
}

} // verus!
