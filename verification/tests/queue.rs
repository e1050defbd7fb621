use sen_engine::sen::Sen;
use sen_engine::sen::SenOp;
use sen_engine::sen::SenOpManager;

fn base_queue() -> SenOpManager {
    SenOpManager::new(
        vec![SenOp::Off, SenOp::On, SenOp::Or, SenOp::And, SenOp::Not],
        Some(0),
    )
}

#[test]
fn new_defaults_the_cursor_to_zero() {
    let q = SenOpManager::new(vec![SenOp::Off, SenOp::On], None);
    assert_eq!(q.sen_index, 0);
    let q = SenOpManager::new(vec![SenOp::Off, SenOp::On], Some(1));
    assert_eq!(q.sen_index, 1);
}

#[test]
fn previews_wrap_around() {
    let q = base_queue();
    assert_eq!(q.get_top(), SenOp::Off);
    assert_eq!(q.get_back(), SenOp::Not);
    assert_eq!(q.get_front(), SenOp::On);
}

#[test]
fn rotate_next_full_cycle_returns_to_start() {
    let mut q = base_queue();
    for _ in 0..5 {
        q.next();
    }
    assert_eq!(q.sen_index, 0);
    assert_eq!(q.get_top(), SenOp::Off);
}

#[test]
fn rotate_prev_full_cycle_returns_to_start() {
    let mut q = base_queue();
    q.next();
    for _ in 0..5 {
        q.prev();
    }
    assert_eq!(q.sen_index, 1);
    assert_eq!(q.get_top(), SenOp::On);
}

#[test]
fn rotate_prev_wraps_at_the_front() {
    let mut q = base_queue();
    q.prev();
    assert_eq!(q.sen_index, 4);
    assert_eq!(q.get_top(), SenOp::Not);
}

#[test]
fn insert_after_cursor_preserves_order() {
    let mut q = base_queue();
    let a = SenOp::OrO(Sen::new(2));
    let b = SenOp::AndO(Sen::new(0));
    let mut tokens = vec![a, b];
    q.append_at_index(&mut tokens);
    assert_eq!(q.sen_index, 0);
    assert_eq!(q.get_top(), SenOp::Off);
    // Reading in order shows the two tokens right after the cursor element,
    // with the rest shifted right by two positions.
    let mut order = Vec::new();
    for _ in 0..7 {
        order.push(q.get_top());
        q.next();
    }
    assert_eq!(
        order,
        vec![SenOp::Off, a, b, SenOp::On, SenOp::Or, SenOp::And, SenOp::Not]
    );
}

#[test]
fn insert_empty_is_a_no_op() {
    let mut q = base_queue();
    let mut tokens: Vec<SenOp> = vec![];
    q.append_at_index(&mut tokens);
    assert_eq!(q.sen_index, 0);
    let mut order = Vec::new();
    for _ in 0..5 {
        order.push(q.get_top());
        q.next();
    }
    assert_eq!(
        order,
        vec![SenOp::Off, SenOp::On, SenOp::Or, SenOp::And, SenOp::Not]
    );
}

#[test]
fn pop_returns_the_cursor_element() {
    let mut q = base_queue();
    q.next();
    let removed = q.pop();
    assert_eq!(removed, SenOp::On);
    assert_eq!(q.sen_index, 1);
    assert_eq!(q.get_top(), SenOp::Or);
}

#[test]
fn pop_at_the_last_position_pulls_the_cursor_back() {
    let mut q = base_queue();
    q.prev();
    assert_eq!(q.sen_index, 4);
    let removed = q.pop();
    assert_eq!(removed, SenOp::Not);
    assert_eq!(q.sen_index, 3);
    assert_eq!(q.get_top(), SenOp::And);
}

#[test]
fn is_pending_result_looks_at_the_cursor() {
    let mut q = SenOpManager::new(vec![SenOp::Or, SenOp::OrO(Sen::new(2))], Some(0));
    assert!(!q.is_pending_result());
    q.next();
    assert!(q.is_pending_result());
}

#[test]
fn remove_drops_the_given_index() {
    let mut q = base_queue();
    q.remove(2);
    let mut order = Vec::new();
    for _ in 0..4 {
        order.push(q.get_top());
        q.next();
    }
    assert_eq!(order, vec![SenOp::Off, SenOp::On, SenOp::And, SenOp::Not]);
}
