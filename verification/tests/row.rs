use sen_engine::sen::Sen;
use sen_engine::sen::SenManager;
use sen_engine::sen::SenOp;

fn row_bits(m: &SenManager) -> Vec<u8> {
    let mut out = Vec::new();
    let mut i = 0;
    while i < m.len() {
        out.push(m.get(i).bit);
        i += 1;
    }
    out
}

#[test]
fn encode_concatenates_two_bit_fields() {
    // Cells [0b10, 0b01] read as the binary string "1001", which is 9.
    let m = SenManager { sen_list: vec![Sen::new(0b10), Sen::new(0b01)] };
    assert_eq!(m.get_number(), 9);
}

#[test]
fn encode_single_cell_is_its_value() {
    for v in 0..4u8 {
        let m = SenManager { sen_list: vec![Sen::new(v)] };
        assert_eq!(m.get_number(), v as i32);
    }
}

#[test]
fn encode_longest_row_all_on() {
    let mut m = SenManager::with_length(15);
    m.operation(&SenOp::On, |_i, _s| true);
    assert_eq!(m.get_number(), (1 << 30) - 1);
}

#[test]
fn off_zeroes_every_cell() {
    let mut m = SenManager { sen_list: vec![Sen::new(3), Sen::new(1), Sen::new(2)] };
    let produced = m.operation(&SenOp::Off, |_i, _s| true);
    assert!(produced.is_empty());
    assert_eq!(row_bits(&m), vec![0, 0, 0]);
}

#[test]
fn on_sets_every_cell_to_three() {
    let mut m = SenManager { sen_list: vec![Sen::new(0), Sen::new(2), Sen::new(1)] };
    let produced = m.operation(&SenOp::On, |_i, _s| true);
    assert!(produced.is_empty());
    assert_eq!(row_bits(&m), vec![3, 3, 3]);
    assert_eq!(m.get_number(), 0b111111);
}

#[test]
fn not_twice_restores_the_row() {
    let mut m = SenManager { sen_list: vec![Sen::new(1), Sen::new(2), Sen::new(0), Sen::new(3)] };
    m.operation(&SenOp::Not, |_i, _s| true);
    assert_eq!(row_bits(&m), vec![2, 1, 3, 0]);
    m.operation(&SenOp::Not, |_i, _s| true);
    assert_eq!(row_bits(&m), vec![1, 2, 0, 3]);
}

#[test]
fn or_stages_a_token_and_leaves_the_cell() {
    let mut m = SenManager { sen_list: vec![Sen::new(0)] };
    let produced = m.operation(&SenOp::Or, |_i, _s| true);
    assert_eq!(row_bits(&m), vec![0]);
    assert_eq!(produced.len(), 1);
    assert_eq!(produced[0], SenOp::OrO(Sen::new(2)));

    // Committing the staged token overwrites the cell with the carried value.
    let follow_up = m.operation(&produced[0], |_i, _s| true);
    assert!(follow_up.is_empty());
    assert_eq!(row_bits(&m), vec![2]);
}

#[test]
fn and_stages_the_masked_value() {
    let mut m = SenManager { sen_list: vec![Sen::new(1)] };
    let produced = m.operation(&SenOp::And, |_i, _s| true);
    assert_eq!(row_bits(&m), vec![1]);
    assert_eq!(produced, vec![SenOp::AndO(Sen::new(0))]);

    let mut m = SenManager { sen_list: vec![Sen::new(3)] };
    let produced = m.operation(&SenOp::And, |_i, _s| true);
    assert_eq!(produced, vec![SenOp::AndO(Sen::new(2))]);
}

#[test]
fn selector_picks_single_cells() {
    let mut m = SenManager { sen_list: vec![Sen::new(1), Sen::new(2)] };
    m.operation(&SenOp::On, |i, _s| i == 1);
    assert_eq!(row_bits(&m), vec![1, 3]);
}

#[test]
fn multi_match_emits_one_token_per_selected_cell() {
    let mut m = SenManager { sen_list: vec![Sen::new(1), Sen::new(3)] };
    let produced = m.operation(&SenOp::Or, |_i, _s| true);
    assert_eq!(row_bits(&m), vec![1, 3]);
    assert_eq!(produced, vec![SenOp::OrO(Sen::new(3)), SenOp::OrO(Sen::new(3))]);
}

#[test]
fn init_resets_and_keeps_length() {
    let mut m = SenManager { sen_list: vec![Sen::new(3), Sen::new(2)] };
    m.init();
    assert_eq!(row_bits(&m), vec![0, 0]);
}

#[test]
fn deep_copy_takes_length_and_zeroes() {
    let src = SenManager { sen_list: vec![Sen::new(3), Sen::new(1), Sen::new(2)] };
    let mut dst = SenManager::with_length(1);
    dst.deep_copy(&src);
    assert_eq!(row_bits(&dst), vec![0, 0, 0]);
}

#[test]
fn same_cells_is_structural() {
    let a = SenManager { sen_list: vec![Sen::new(1), Sen::new(2)] };
    let b = SenManager { sen_list: vec![Sen::new(1), Sen::new(2)] };
    let c = SenManager { sen_list: vec![Sen::new(1), Sen::new(3)] };
    let d = SenManager { sen_list: vec![Sen::new(1)] };
    assert!(a.same_cells(&b));
    assert!(!a.same_cells(&c));
    assert!(!a.same_cells(&d));
}

#[test]
fn for_each_visits_in_order() {
    let m = SenManager { sen_list: vec![Sen::new(2), Sen::new(0), Sen::new(1)] };
    let seen = std::cell::RefCell::new(Vec::new());
    m.for_each(|i, s| {
        seen.borrow_mut().push((i, s.bit));
    });
    assert_eq!(seen.into_inner(), vec![(0, 2), (1, 0), (2, 1)]);
}

#[test]
fn is_o_marks_pending_tokens_only() {
    assert!(!SenOp::Off.is_o());
    assert!(!SenOp::On.is_o());
    assert!(!SenOp::Not.is_o());
    assert!(!SenOp::Or.is_o());
    assert!(!SenOp::And.is_o());
    assert!(SenOp::OrO(Sen::new(2)).is_o());
    assert!(SenOp::AndO(Sen::new(0)).is_o());
}
