use ordered_todos::todos::model::Todo;
use ordered_todos::todos::plan::Boundary;
use ordered_todos::todos::store::{EngineError, TodoStore};

fn item(id: i32, position: i32, done: bool) -> Todo {
    Todo { id, done, description: format!("item {}", id), position }
}

fn sample() -> TodoStore {
    TodoStore::from_todos(vec![item(1, 3, false), item(2, 2, true), item(3, 1, false)]).unwrap()
}

fn shown(store: &TodoStore) -> Vec<(i32, i32)> {
    store.list_ordered().iter().map(|t| (t.id, t.position)).collect()
}

fn ids_shown(store: &TodoStore) -> Vec<i32> {
    store.list_ordered().iter().map(|t| t.id).collect()
}

fn tokens(ids: &[&str]) -> Vec<String> {
    ids.iter().map(|s| s.to_string()).collect()
}

fn positions_are_unique(store: &TodoStore) -> bool {
    let mut positions: Vec<i32> = store.list_ordered().iter().map(|t| t.position).collect();
    positions.sort();
    let before = positions.len();
    positions.dedup();
    positions.len() == before
}

#[test]
fn list_ordered_shows_largest_position_first() {
    let store =
        TodoStore::from_todos(vec![item(5, -4, false), item(6, 10, true), item(7, 0, false)])
            .unwrap();
    assert_eq!(shown(&store), vec![(6, 10), (7, 0), (5, -4)]);
    assert_eq!(store.len(), 3);
}

#[test]
fn list_ordered_keeps_store_order_among_equal_positions() {
    let store =
        TodoStore::from_todos(vec![item(1, 5, false), item(2, 9, false), item(3, 5, false)])
            .unwrap();
    assert_eq!(ids_shown(&store), vec![2, 1, 3]);
}

#[test]
fn list_ordered_of_empty_store_is_empty() {
    let store = TodoStore::new();
    assert!(store.list_ordered().is_empty());
    assert_eq!(store.len(), 0);
}

#[test]
fn completed_items_move_to_the_bottom() {
    let mut store = sample();
    assert_eq!(store.move_group_to_boundary(|t: &Todo| t.done, Boundary::Bottom), Ok(()));
    assert_eq!(shown(&store), vec![(1, 2), (3, 1), (2, 0)]);
}

#[test]
fn completed_items_move_to_the_top() {
    let mut store = sample();
    assert_eq!(store.move_group_to_boundary(|t: &Todo| t.done, Boundary::Top), Ok(()));
    assert_eq!(shown(&store), vec![(2, 2), (1, 1), (3, 0)]);
}

#[test]
fn move_preserves_order_within_each_group() {
    let mut store = TodoStore::from_todos(vec![
        item(1, 40, true),
        item(2, 10, false),
        item(3, 30, false),
        item(4, 20, true),
        item(5, 50, false),
        item(6, 0, true),
    ])
    .unwrap();
    assert_eq!(store.move_group_to_boundary(|t: &Todo| t.done, Boundary::Bottom), Ok(()));
    assert_eq!(shown(&store), vec![(5, 5), (3, 4), (2, 3), (1, 2), (4, 1), (6, 0)]);
    assert!(positions_are_unique(&store));
}

#[test]
fn move_of_flagged_items_goes_by_store_order_of_flags() {
    let mut store = sample();
    assert_eq!(store.move_flagged_to_boundary(&vec![true, false, false], Boundary::Bottom), Ok(()));
    assert_eq!(shown(&store), vec![(2, 2), (3, 1), (1, 0)]);
}

#[test]
fn move_with_wrong_number_of_flags_is_refused() {
    let mut store = sample();
    let before = shown(&store);
    assert_eq!(
        store.move_flagged_to_boundary(&vec![true, false], Boundary::Bottom),
        Err(EngineError::PreconditionViolation)
    );
    assert_eq!(shown(&store), before);
}

#[test]
fn move_repairs_duplicate_positions() {
    let mut store =
        TodoStore::from_todos(vec![item(1, 7, false), item(2, 7, false), item(3, 7, true)])
            .unwrap();
    assert_eq!(store.move_group_to_boundary(|t: &Todo| t.done, Boundary::Bottom), Ok(()));
    assert_eq!(shown(&store), vec![(2, 2), (1, 1), (3, 0)]);
    assert!(positions_are_unique(&store));
}

#[test]
fn explicit_sequence_assigns_decreasing_positions() {
    let mut store = sample();
    assert_eq!(store.reorder_by_explicit_sequence(&tokens(&["3", "1", "2"])), Ok(()));
    assert_eq!(shown(&store), vec![(3, 2), (1, 1), (2, 0)]);
}

#[test]
fn unknown_id_in_explicit_sequence_is_ignored() {
    let mut store = sample();
    assert_eq!(store.reorder_by_explicit_sequence(&tokens(&["3", "99", "1"])), Ok(()));
    assert_eq!(shown(&store), vec![(3, 5), (1, 3), (2, 2)]);
    assert!(positions_are_unique(&store));
}

#[test]
fn listed_items_move_above_the_unlisted() {
    let mut store = TodoStore::from_todos(vec![
        item(1, 0, false),
        item(2, 1, false),
        item(3, 7, false),
        item(4, -3, false),
    ])
    .unwrap();
    assert_eq!(store.reorder_by_explicit_sequence(&tokens(&["4", "2"])), Ok(()));
    assert_eq!(shown(&store), vec![(4, 9), (2, 8), (3, 7), (1, 0)]);
    assert!(positions_are_unique(&store));
}

#[test]
fn base_of_a_reorder_may_be_negative() {
    let mut store =
        TodoStore::from_todos(vec![item(1, -50, false), item(2, -10, false), item(3, 4, false)])
            .unwrap();
    assert_eq!(store.reorder_by_explicit_sequence(&tokens(&["3", "2"])), Ok(()));
    assert_eq!(shown(&store), vec![(3, -48), (2, -49), (1, -50)]);
}

#[test]
fn reorder_is_declined_when_positions_do_not_fit() {
    let mut store =
        TodoStore::from_todos(vec![item(1, i32::MAX - 1, false), item(2, 5, false), item(3, 4, false)])
            .unwrap();
    let before = shown(&store);
    assert_eq!(
        store.reorder_by_explicit_sequence(&tokens(&["2", "3"])),
        Err(EngineError::StoreUnavailable)
    );
    assert_eq!(shown(&store), before);
    assert_eq!(store.reorder_by_explicit_sequence(&tokens(&["3"])), Ok(()));
    assert_eq!(shown(&store), vec![(3, i32::MAX), (1, i32::MAX - 1), (2, 5)]);
    assert_eq!(store.reorder_by_explicit_sequence(&tokens(&["77", "x"])), Ok(()));
    assert_eq!(shown(&store), vec![(3, i32::MAX), (1, i32::MAX - 1), (2, 5)]);
}

#[test]
fn declined_reorder_does_not_use_up_the_pending_failure() {
    let mut store =
        TodoStore::from_todos(vec![item(1, i32::MAX, false), item(2, 5, false)]).unwrap();
    store.fail_after(0);
    assert_eq!(
        store.reorder_by_explicit_sequence(&tokens(&["2"])),
        Err(EngineError::StoreUnavailable)
    );
    assert_eq!(store.reassign_positions(&vec![(7, 2)]), Err(EngineError::StoreUnavailable));
    assert_eq!(store.reassign_positions(&vec![(7, 2)]), Ok(()));
}

#[test]
fn unparseable_token_takes_a_place_but_moves_nothing() {
    let mut store = sample();
    assert_eq!(store.reorder_by_explicit_sequence(&tokens(&["2", "x", "", "1"])), Ok(()));
    assert_eq!(shown(&store), vec![(2, 5), (1, 2), (3, 1)]);
}

#[test]
fn unparseable_token_names_the_item_zero() {
    let mut store =
        TodoStore::from_todos(vec![item(0, 9, false), item(1, 8, false)]).unwrap();
    assert_eq!(store.reorder_by_explicit_sequence(&tokens(&["oops", "1", "junk"])), Ok(()));
    assert_eq!(shown(&store), vec![(1, 1), (0, 0)]);
}

#[test]
fn repeated_id_counts_where_it_occurs_last() {
    let mut store = sample();
    assert_eq!(store.reorder_by_explicit_sequence(&tokens(&["1", "2", "1", "3"])), Ok(()));
    assert_eq!(shown(&store), vec![(2, 2), (1, 1), (3, 0)]);
}

#[test]
fn partial_explicit_reorder_is_idempotent() {
    let order = tokens(&["3", "99", "1"]);
    let mut store = sample();
    assert_eq!(store.reorder_by_explicit_sequence(&order), Ok(()));
    let once = shown(&store);
    assert_eq!(store.reorder_by_explicit_sequence(&order), Ok(()));
    assert_eq!(shown(&store), once);
    assert_eq!(store.reorder_by_explicit_sequence(&order), Ok(()));
    assert_eq!(shown(&store), once);
}

#[test]
fn explicit_reorder_is_idempotent() {
    let order = tokens(&["2", "7", "3", "2", "1"]);
    let mut once = sample();
    assert_eq!(once.reorder_by_explicit_sequence(&order), Ok(()));
    let mut twice = sample();
    assert_eq!(twice.reorder_by_explicit_sequence(&order), Ok(()));
    assert_eq!(twice.reorder_by_explicit_sequence(&order), Ok(()));
    assert_eq!(shown(&twice), shown(&once));
}

#[test]
fn empty_explicit_sequence_changes_nothing() {
    let mut store = sample();
    let before = shown(&store);
    assert_eq!(store.reorder_by_explicit_sequence(&Vec::new()), Ok(()));
    assert_eq!(shown(&store), before);
}

#[test]
fn reassign_rewrites_named_items_only() {
    let mut store = sample();
    assert_eq!(store.reassign_positions(&vec![(10, 3), (-5, 1)]), Ok(()));
    assert_eq!(shown(&store), vec![(3, 10), (2, 2), (1, -5)]);
}

#[test]
fn reassign_refuses_a_position_that_a_bystander_keeps() {
    let mut store = TodoStore::from_todos(vec![item(1, 1, false), item(2, 2, false)]).unwrap();
    assert_eq!(store.reassign_positions(&vec![(2, 1)]), Err(EngineError::PreconditionViolation));
    assert_eq!(shown(&store), vec![(2, 2), (1, 1)]);
    assert_eq!(store.reassign_positions(&vec![(2, 1), (1, 2)]), Ok(()));
    assert_eq!(shown(&store), vec![(1, 2), (2, 1)]);
    assert_eq!(store.reassign_positions(&vec![(2, 1), (3, 2)]), Ok(()));
    assert_eq!(shown(&store), vec![(2, 3), (1, 2)]);
    assert_eq!(store.reassign_positions(&vec![(2, 1)]), Ok(()));
    assert_eq!(shown(&store), vec![(2, 3), (1, 2)]);
}

#[test]
fn reassign_refuses_duplicate_positions() {
    let mut store = sample();
    let before = shown(&store);
    assert_eq!(
        store.reassign_positions(&vec![(4, 1), (4, 2)]),
        Err(EngineError::PreconditionViolation)
    );
    assert_eq!(shown(&store), before);
}

#[test]
fn reassign_refuses_unknown_id() {
    let mut store = sample();
    let before = shown(&store);
    assert_eq!(
        store.reassign_positions(&vec![(4, 1), (5, 99)]),
        Err(EngineError::PreconditionViolation)
    );
    assert_eq!(shown(&store), before);
}

#[test]
fn reassign_refuses_an_item_named_twice() {
    let mut store = sample();
    let before = shown(&store);
    assert_eq!(
        store.reassign_positions(&vec![(4, 1), (5, 1)]),
        Err(EngineError::PreconditionViolation)
    );
    assert_eq!(shown(&store), before);
}

#[test]
fn refused_batch_does_not_use_up_the_pending_failure() {
    let mut store = sample();
    store.fail_after(0);
    assert_eq!(
        store.reassign_positions(&vec![(4, 99)]),
        Err(EngineError::PreconditionViolation)
    );
    assert_eq!(store.reassign_positions(&vec![(4, 1)]), Err(EngineError::StoreUnavailable));
    assert_eq!(store.reassign_positions(&vec![(4, 1)]), Ok(()));
}

#[test]
fn interrupted_batch_leaves_the_arrangement_alone() {
    let mut store = sample();
    let before = shown(&store);
    store.fail_after(1);
    let batch = vec![(10, 1), (11, 2), (12, 3)];
    assert_eq!(store.reassign_positions(&batch), Err(EngineError::StoreUnavailable));
    assert_eq!(shown(&store), before);
    assert_eq!(store.reassign_positions(&batch), Ok(()));
    assert_eq!(shown(&store), vec![(3, 12), (2, 11), (1, 10)]);
}

#[test]
fn failure_waits_for_the_row_it_was_set_for() {
    let mut store = sample();
    store.fail_after(3);
    assert_eq!(store.reassign_positions(&vec![(10, 1), (11, 2)]), Ok(()));
    assert_eq!(store.reassign_positions(&vec![(12, 3)]), Ok(()));
    let before = shown(&store);
    assert_eq!(store.reassign_positions(&vec![(13, 3)]), Err(EngineError::StoreUnavailable));
    assert_eq!(shown(&store), before);
}

#[test]
fn empty_batch_goes_through_a_failing_store() {
    let mut store = sample();
    store.fail_after(0);
    assert_eq!(store.reassign_positions(&Vec::new()), Ok(()));
    assert_eq!(store.reassign_positions(&vec![(9, 1)]), Err(EngineError::StoreUnavailable));
}

#[test]
fn interrupted_reorder_move_and_delete_change_nothing() {
    let mut store = sample();
    let before = shown(&store);
    store.fail_after(1);
    assert_eq!(
        store.reorder_by_explicit_sequence(&tokens(&["3", "1", "2"])),
        Err(EngineError::StoreUnavailable)
    );
    assert_eq!(shown(&store), before);
    store.fail_after(2);
    assert_eq!(
        store.move_group_to_boundary(|t: &Todo| t.done, Boundary::Bottom),
        Err(EngineError::StoreUnavailable)
    );
    assert_eq!(shown(&store), before);
    store.fail_after(1);
    assert_eq!(store.delete_where(|t: &Todo| !t.done), Err(EngineError::StoreUnavailable));
    assert_eq!(shown(&store), before);
}

#[test]
fn reorder_counts_only_rows_of_live_items() {
    let mut store = sample();
    store.fail_after(2);
    assert_eq!(store.reorder_by_explicit_sequence(&tokens(&["8", "3", "9", "1"])), Ok(()));
    assert_eq!(store.reassign_positions(&vec![(50, 2)]), Err(EngineError::StoreUnavailable));
}

#[test]
fn delete_where_does_not_renumber_survivors() {
    let mut store = TodoStore::from_todos(vec![
        item(1, 10, true),
        item(2, 20, false),
        item(3, 30, true),
        item(4, 40, false),
    ])
    .unwrap();
    assert_eq!(store.delete_where(|t: &Todo| t.done), Ok(2));
    assert_eq!(shown(&store), vec![(4, 40), (2, 20)]);
    assert_eq!(store.delete_where(|t: &Todo| t.done), Ok(0));
    assert_eq!(shown(&store), vec![(4, 40), (2, 20)]);
}

#[test]
fn delete_flagged_with_wrong_number_of_flags_is_refused() {
    let mut store = sample();
    assert_eq!(store.delete_flagged(&vec![true]), Err(EngineError::PreconditionViolation));
    assert_eq!(store.len(), 3);
    assert_eq!(store.delete_flagged(&vec![false, false, true]), Ok(1));
    assert_eq!(ids_shown(&store), vec![1, 2]);
}

#[test]
fn remove_takes_one_item_or_none() {
    let mut store = sample();
    assert_eq!(store.remove(2), Ok(1));
    assert_eq!(shown(&store), vec![(1, 3), (3, 1)]);
    assert_eq!(store.remove(2), Ok(0));
    assert_eq!(shown(&store), vec![(1, 3), (3, 1)]);
}

#[test]
fn create_appends_to_the_top_with_fresh_ids() {
    let mut store = TodoStore::new();
    assert_eq!(store.create("first".to_string()), Ok(1));
    assert_eq!(store.create("second".to_string()), Ok(2));
    assert_eq!(shown(&store), vec![(2, 1), (1, 0)]);
    let listed = store.list_ordered();
    assert_eq!(listed[0].description, "second");
    assert!(!listed[0].done);
}

#[test]
fn create_goes_one_above_the_highest_position() {
    let mut store = sample();
    assert_eq!(store.create("new".to_string()), Ok(4));
    assert_eq!(shown(&store), vec![(4, 4), (1, 3), (2, 2), (3, 1)]);
    let mut low = TodoStore::from_todos(vec![item(7, -9, false), item(3, -20, false)]).unwrap();
    assert_eq!(low.create("new".to_string()), Ok(8));
    assert_eq!(shown(&low), vec![(8, -8), (7, -9), (3, -20)]);
}

#[test]
fn ids_are_never_reused() {
    let mut store = TodoStore::new();
    assert_eq!(store.create("a".to_string()), Ok(1));
    assert_eq!(store.create("b".to_string()), Ok(2));
    assert_eq!(store.remove(2), Ok(1));
    assert_eq!(store.create("c".to_string()), Ok(3));
    assert_eq!(shown(&store), vec![(3, 1), (1, 0)]);
}

#[test]
fn create_is_refused_when_positions_or_ids_are_used_up() {
    let mut top = TodoStore::from_todos(vec![item(1, i32::MAX, false)]).unwrap();
    assert_eq!(top.create("x".to_string()), Err(EngineError::StoreUnavailable));
    assert_eq!(shown(&top), vec![(1, i32::MAX)]);
    let mut last = TodoStore::from_todos(vec![item(i32::MAX, 0, false)]).unwrap();
    assert_eq!(last.create("x".to_string()), Err(EngineError::StoreUnavailable));
    assert_eq!(shown(&last), vec![(i32::MAX, 0)]);
}

#[test]
fn interrupted_create_adds_nothing_and_keeps_the_id() {
    let mut store = sample();
    store.fail_after(0);
    assert_eq!(store.create("x".to_string()), Err(EngineError::StoreUnavailable));
    assert_eq!(store.len(), 3);
    assert_eq!(store.create("x".to_string()), Ok(4));
}

#[test]
fn set_done_flips_one_flag() {
    let mut store = sample();
    assert_eq!(store.set_done(1, true), Ok(()));
    assert_eq!(store.set_done(2, false), Ok(()));
    assert_eq!(store.set_done(42, true), Ok(()));
    let flags: Vec<(i32, bool)> = store.list_ordered().iter().map(|t| (t.id, t.done)).collect();
    assert_eq!(flags, vec![(1, true), (2, false), (3, false)]);
    assert_eq!(shown(&store), vec![(1, 3), (2, 2), (3, 1)]);
}

#[test]
fn set_done_on_a_failing_store() {
    let mut store = sample();
    store.fail_after(0);
    assert_eq!(store.set_done(42, true), Ok(()));
    assert_eq!(store.set_done(1, true), Err(EngineError::StoreUnavailable));
    assert!(!store.list_ordered()[0].done);
    assert_eq!(store.set_done(1, true), Ok(()));
    assert!(store.list_ordered()[0].done);
}

#[test]
fn from_todos_refuses_shared_ids() {
    let result = TodoStore::from_todos(vec![item(1, 0, false), item(2, 1, false), item(1, 2, true)]);
    assert!(matches!(result, Err(EngineError::PreconditionViolation)));
}

#[test]
fn from_todos_hands_out_ids_above_the_largest() {
    let mut store = TodoStore::from_todos(vec![item(40, 0, false), item(7, 1, false)]).unwrap();
    assert_eq!(store.create("x".to_string()), Ok(41));
    let mut negative = TodoStore::from_todos(vec![item(-3, 0, false)]).unwrap();
    assert_eq!(negative.create("x".to_string()), Ok(1));
}

#[test]
fn positions_stay_unique_through_a_run_of_operations() {
    let mut store = TodoStore::new();
    for text in ["a", "b", "c", "d", "e"] {
        store.create(text.to_string()).unwrap();
        assert!(positions_are_unique(&store));
    }
    store.set_done(2, true).unwrap();
    store.set_done(4, true).unwrap();
    assert_eq!(store.reorder_by_explicit_sequence(&tokens(&["3", "5", "1", "2", "4"])), Ok(()));
    assert!(positions_are_unique(&store));
    assert_eq!(ids_shown(&store), vec![3, 5, 1, 2, 4]);
    assert_eq!(store.move_group_to_boundary(|t: &Todo| t.done, Boundary::Bottom), Ok(()));
    assert!(positions_are_unique(&store));
    assert_eq!(ids_shown(&store), vec![3, 5, 1, 2, 4]);
    assert_eq!(store.move_group_to_boundary(|t: &Todo| t.id == 1, Boundary::Top), Ok(()));
    assert!(positions_are_unique(&store));
    assert_eq!(ids_shown(&store), vec![1, 3, 5, 2, 4]);
    assert_eq!(store.delete_where(|t: &Todo| t.done), Ok(2));
    assert!(positions_are_unique(&store));
    assert_eq!(shown(&store), vec![(1, 4), (3, 3), (5, 2)]);
    assert_eq!(store.create("f".to_string()), Ok(6));
    assert!(positions_are_unique(&store));
    assert_eq!(shown(&store), vec![(6, 5), (1, 4), (3, 3), (5, 2)]);
    assert_eq!(store.reorder_by_explicit_sequence(&tokens(&["5", "bad", "6"])), Ok(()));
    assert!(positions_are_unique(&store));
    assert_eq!(ids_shown(&store), vec![5, 6, 1, 3]);
    assert_eq!(store.reassign_positions(&vec![(4, 5)]), Err(EngineError::PreconditionViolation));
    assert!(positions_are_unique(&store));
    assert_eq!(store.reassign_positions(&vec![(4, 5), (100, 1)]), Ok(()));
    assert!(positions_are_unique(&store));
    assert_eq!(ids_shown(&store), vec![1, 6, 5, 3]);
}
