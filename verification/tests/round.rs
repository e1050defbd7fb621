use sen_engine::sen::Sen;
use sen_engine::sen::SenOp;
use sen_engine::status::contains_on;
use sen_engine::status::ConfigError;
use sen_engine::status::PuzzleStatus;
use sen_engine::status::RoundState;

fn row_bits(st: &PuzzleStatus) -> Vec<u8> {
    let mut out = Vec::new();
    let mut i = 0;
    while i < st.sen.len() {
        out.push(st.sen.get(i).bit);
        i += 1;
    }
    out
}

#[test]
fn rejects_zero_row_length() {
    let r = PuzzleStatus::new(0, 0, 1, vec![SenOp::Off]);
    assert_eq!(r.err(), Some(ConfigError::BadRowLength));
}

#[test]
fn rejects_too_long_row() {
    let r = PuzzleStatus::new(16, 0, 1, vec![SenOp::Off]);
    assert_eq!(r.err(), Some(ConfigError::BadRowLength));
}

#[test]
fn rejects_unreachable_target() {
    let r = PuzzleStatus::new(2, 16, 1, vec![SenOp::Off]);
    assert_eq!(r.err(), Some(ConfigError::BadTargetValue));
    let r = PuzzleStatus::new(2, -1, 1, vec![SenOp::Off]);
    assert_eq!(r.err(), Some(ConfigError::BadTargetValue));
}

#[test]
fn rejects_empty_operator_list() {
    let r = PuzzleStatus::new(2, 10, 1, vec![]);
    assert_eq!(r.err(), Some(ConfigError::BadOperatorList));
}

#[test]
fn rejects_pending_token_in_initial_operators() {
    let r = PuzzleStatus::new(2, 10, 1, vec![SenOp::Off, SenOp::OrO(Sen::new(2))]);
    assert_eq!(r.err(), Some(ConfigError::BadOperatorList));
}

#[test]
fn accepts_a_well_formed_definition() {
    let st = PuzzleStatus::new(2, 10, 1, vec![SenOp::Off, SenOp::On]).unwrap();
    assert_eq!(row_bits(&st), vec![0, 0]);
    assert_eq!(st.sen_op.get_top(), SenOp::Off);
    assert_eq!(st.target_value, 10);
    assert_eq!(st.ops_border, 1);
    assert_eq!(st.ops_count, 0);
    assert_eq!(st.state, RoundState::InProgress);
    assert!(!st.is_cleared());
    assert!(!st.is_complete());
}

#[test]
fn simple_clear_misses_keep_the_round_open() {
    // rowLength 2, target 0b1010 = 10, budget 1; queue [Off, On], cursor on On.
    let mut st = PuzzleStatus::new(2, 10, 1, vec![SenOp::Off, SenOp::On]).unwrap();
    st.sen_op.next();
    assert_eq!(st.sen_op.get_top(), SenOp::On);

    st.apply_player_action(|i, _s| i == 0);
    assert_eq!(row_bits(&st), vec![3, 0]);
    assert_eq!(st.temperature(), 12);
    assert_eq!(st.ops_count, 1);
    assert_eq!(st.state, RoundState::InProgress);
    assert!(!st.is_clear);

    st.apply_player_action(|i, _s| i == 1);
    assert_eq!(row_bits(&st), vec![3, 3]);
    assert_eq!(st.ops_count, 2);
    assert_eq!(st.state, RoundState::InProgress);
    assert!(!st.is_clear);
}

#[test]
fn or_commit_then_match_solves_the_round() {
    // rowLength 1, target 2; queue [Off, Or], cursor on Or.
    let mut st = PuzzleStatus::new(1, 2, 9, vec![SenOp::Off, SenOp::Or]).unwrap();
    st.sen_op.next();
    assert_eq!(st.sen_op.get_top(), SenOp::Or);

    // First step: the cell stays 0, one OrO(2) token lands after the cursor.
    st.apply_player_action(|_i, _s| true);
    assert_eq!(row_bits(&st), vec![0]);
    assert_eq!(st.ops_count, 0);
    assert_eq!(st.state, RoundState::InProgress);
    assert_eq!(st.sen_op.get_front(), SenOp::OrO(Sen::new(2)));

    // Second step: rotate onto the token and commit it.
    st.sen_op.next();
    assert!(st.sen_op.get_top().is_o());
    st.apply_player_action(|_i, _s| true);
    assert_eq!(row_bits(&st), vec![2]);
    assert_eq!(st.ops_count, 1);
    assert_eq!(st.state, RoundState::Solved);
    assert!(st.is_clear);
    assert!(st.is_lower_border);
    assert!(!st.is_using_onsen);
    assert!(st.is_cleared());
    // The consumed token left the queue; only the two base operators remain.
    assert_eq!(st.sen_op.get_top(), SenOp::Or);
    assert_eq!(st.sen_op.get_back(), SenOp::Off);
    assert_eq!(st.sen_op.get_front(), SenOp::Off);
}

#[test]
fn off_always_resets_even_on_a_match() {
    // Target 0: after Off the row encodes to the target, yet the round is
    // reset, not solved.
    let mut st = PuzzleStatus::new(1, 0, 1, vec![SenOp::Off, SenOp::On]).unwrap();
    st.sen_op.next();
    st.apply_player_action(|_i, _s| true);
    assert_eq!(row_bits(&st), vec![3]);

    st.sen_op.prev();
    assert_eq!(st.sen_op.get_top(), SenOp::Off);
    st.apply_player_action(|_i, _s| true);
    assert_eq!(row_bits(&st), vec![0]);
    assert_eq!(st.ops_count, 0);
    assert_eq!(st.state, RoundState::InProgress);
    assert!(!st.is_clear);
}

#[test]
fn on_operator_earns_the_second_flag() {
    let mut st = PuzzleStatus::new(1, 3, 5, vec![SenOp::Off, SenOp::On]).unwrap();
    st.sen_op.next();
    st.apply_player_action(|_i, _s| true);
    assert_eq!(st.state, RoundState::Solved);
    assert!(st.is_clear);
    assert!(st.is_using_onsen);
    assert!(st.is_lower_border);
    assert!(st.is_complete());
}

#[test]
fn exceeding_the_budget_loses_the_third_flag() {
    // Budget 0: even one counted operation is over it.
    let mut st = PuzzleStatus::new(1, 3, 0, vec![SenOp::Off, SenOp::On]).unwrap();
    st.sen_op.next();
    st.apply_player_action(|_i, _s| true);
    assert_eq!(st.state, RoundState::Solved);
    assert!(st.is_clear);
    assert!(!st.is_lower_border);
}

#[test]
fn unchanged_row_counts_no_operation() {
    // Applying On to a row that is already all-on changes nothing.
    let mut st = PuzzleStatus::new(2, 10, 1, vec![SenOp::Off, SenOp::On]).unwrap();
    st.sen_op.next();
    st.apply_player_action(|_i, _s| true);
    assert_eq!(st.ops_count, 1);
    st.apply_player_action(|_i, _s| true);
    assert_eq!(row_bits(&st), vec![3, 3]);
    assert_eq!(st.ops_count, 1);
}

#[test]
fn reinitialize_keeps_the_recorded_flags() {
    let mut st = PuzzleStatus::new(1, 3, 5, vec![SenOp::Off, SenOp::On]).unwrap();
    st.sen_op.next();
    st.apply_player_action(|_i, _s| true);
    assert_eq!(st.state, RoundState::Solved);

    st.reinitialize();
    assert_eq!(st.state, RoundState::InProgress);
    assert_eq!(row_bits(&st), vec![0]);
    assert_eq!(st.ops_count, 0);
    assert!(st.is_clear);
    assert!(st.is_using_onsen);
}

#[test]
fn history_scan_finds_on_across_name_boundaries() {
    assert!(!contains_on(&String::new()));
    assert!(!contains_on(&String::from("o")));
    assert!(!contains_on(&String::from("no")));
    assert!(contains_on(&String::from("on")));
    assert!(!contains_on(&String::from("orooro")));
    // "ando" followed by "not" spells out "on" at the boundary.
    assert!(contains_on(&String::from("andonot")));
}
