use ordered_todos::todos::model::Todo;
use ordered_todos::todos::plan::{boundary_positions, explicit_positions, list_ordered, Boundary};
use ordered_todos::todos::rank::{rank_of, sorted_arrangement};
use ordered_todos::todos::token::token_id;

fn item(id: i32, position: i32, done: bool) -> Todo {
    Todo { id, done, description: String::new(), position }
}

fn tokens(ids: &[&str]) -> Vec<String> {
    ids.iter().map(|s| s.to_string()).collect()
}

#[test]
fn token_id_reads_decimal_numbers() {
    assert_eq!(token_id("12"), 12);
    assert_eq!(token_id("0"), 0);
    assert_eq!(token_id("007"), 7);
    assert_eq!(token_id("+5"), 5);
    assert_eq!(token_id("-7"), -7);
    assert_eq!(token_id("-0"), 0);
    assert_eq!(token_id("2147483647"), i32::MAX);
    assert_eq!(token_id("-2147483648"), i32::MIN);
    assert_eq!(token_id("00000000000000000000000000000000000000042"), 42);
}

#[test]
fn token_id_of_anything_else_is_zero() {
    assert_eq!(token_id(""), 0);
    assert_eq!(token_id("+"), 0);
    assert_eq!(token_id("-"), 0);
    assert_eq!(token_id("abc"), 0);
    assert_eq!(token_id("12a"), 0);
    assert_eq!(token_id(" 12"), 0);
    assert_eq!(token_id("12 "), 0);
    assert_eq!(token_id("1_000"), 0);
    assert_eq!(token_id("--5"), 0);
    assert_eq!(token_id("+-5"), 0);
    assert_eq!(token_id("1.5"), 0);
    assert_eq!(token_id("2147483648"), 0);
    assert_eq!(token_id("-2147483649"), 0);
    assert_eq!(token_id("\u{0663}"), 0);
    assert_eq!(token_id("\u{ff11}\u{ff12}"), 0);
}

#[test]
fn explicit_positions_number_the_tokens_from_the_bottom() {
    assert_eq!(explicit_positions(&tokens(&["3", "1", "2"])), vec![(0, 2), (1, 1), (2, 3)]);
    assert_eq!(
        explicit_positions(&tokens(&["3", "x", "3", ""])),
        vec![(0, 0), (1, 3), (2, 0), (3, 3)]
    );
    assert_eq!(explicit_positions(&Vec::new()), Vec::new());
}

#[test]
fn boundary_positions_list_the_bottom_group_first() {
    let todos = vec![item(1, 3, false), item(2, 2, true), item(3, 1, false)];
    let done = vec![false, true, false];
    assert_eq!(
        boundary_positions(&todos, &done, Boundary::Bottom),
        vec![(0, 2), (1, 3), (2, 1)]
    );
    assert_eq!(boundary_positions(&todos, &done, Boundary::Top), vec![(0, 3), (1, 1), (2, 2)]);
}

#[test]
fn boundary_positions_break_ties_by_place() {
    let todos = vec![item(9, 5, true), item(8, 5, true), item(7, 5, false), item(6, 4, true)];
    let done = vec![true, true, false, true];
    assert_eq!(
        boundary_positions(&todos, &done, Boundary::Bottom),
        vec![(0, 6), (1, 9), (2, 8), (3, 7)]
    );
}

#[test]
fn list_ordered_sorts_a_snapshot() {
    let todos = vec![item(1, 1, false), item(2, 3, false), item(3, 2, false), item(4, 3, true)];
    let ids: Vec<i32> = list_ordered(&todos).iter().map(|t| t.id).collect();
    assert_eq!(ids, vec![2, 4, 3, 1]);
    let extremes = vec![item(1, i32::MIN, false), item(2, i32::MAX, false), item(3, 0, false)];
    let ids: Vec<i32> = list_ordered(&extremes).iter().map(|t| t.id).collect();
    assert_eq!(ids, vec![2, 3, 1]);
}

#[test]
fn ranks_count_the_elements_that_come_before() {
    let keys = vec![(1, 5), (0, 9), (1, 5), (0, -2), (1, 4)];
    let ranks: Vec<usize> = (0..keys.len()).map(|i| rank_of(&keys, i)).collect();
    assert_eq!(ranks, vec![3, 1, 4, 0, 2]);
    assert_eq!(sorted_arrangement(&keys), vec![3, 1, 4, 0, 2]);
    assert_eq!(sorted_arrangement(&Vec::new()), Vec::<usize>::new());
}
