use std::rc::Rc;

use neuronika::counter::OperationsCounter;
use neuronika::diff_history::{RawParam, VarDiffHistory};
use neuronika::history::{Changeable, VarHistory};

fn listed<N: Copy>(buffer: &[Rc<N>]) -> Vec<N> {
    buffer.iter().map(|node| **node).collect()
}

#[test]
fn counter_hands_out_increasing_ids() {
    let mut counter = OperationsCounter::new();
    assert_eq!(counter.next(), 1);
    assert_eq!(counter.next(), 2);
    assert_eq!(counter.next(), 3);
}

#[test]
fn new_history_is_empty() {
    let history: VarHistory<u32, u32> = VarHistory::new();
    assert_eq!(history.len(), 0);
    assert!(history.is_empty());
    assert!(history.buffer().is_empty());
}

#[test]
fn buffer_lists_nodes_in_id_order() {
    let mut history: VarHistory<u32, u32> = VarHistory::new();
    history.append_forward(7, Rc::new(70));
    history.append_forward(2, Rc::new(20));
    history.append_forward(5, Rc::new(50));
    assert_eq!(history.len(), 3);
    assert!(!history.is_empty());
    assert!(history.buffer().is_empty());
    history.prepare_buffer();
    assert_eq!(listed(history.buffer()), vec![20, 50, 70]);
}

#[test]
fn buffer_shares_the_path_nodes() {
    let mut history: VarHistory<u32, u32> = VarHistory::new();
    let node = Rc::new(11);
    history.append_forward(1, node.clone());
    history.prepare_buffer();
    assert!(Rc::ptr_eq(&history.buffer()[0], &node));
}

#[test]
fn append_forward_replaces_same_id_and_empties_buffer() {
    let mut history: VarHistory<u32, u32> = VarHistory::new();
    history.append_forward(1, Rc::new(10));
    history.prepare_buffer();
    assert_eq!(listed(history.buffer()), vec![10]);
    history.append_forward(1, Rc::new(99));
    assert!(history.buffer().is_empty());
    assert_eq!(history.len(), 1);
    history.prepare_buffer();
    assert_eq!(listed(history.buffer()), vec![99]);
}

#[test]
fn prepared_buffer_is_kept_until_emptied() {
    let mut history: VarHistory<u32, u32> = VarHistory::new();
    history.append_forward(3, Rc::new(30));
    history.prepare_buffer();
    let mut other: VarHistory<u32, u32> = VarHistory::new();
    other.append_forward(3, Rc::new(33));
    other.append_forward(1, Rc::new(10));
    history.merge(other);
    assert_eq!(history.len(), 1);
    history.prepare_buffer();
    assert_eq!(listed(history.buffer()), vec![30]);
    history.append_forward(4, Rc::new(40));
    history.prepare_buffer();
    assert_eq!(listed(history.buffer()), vec![33, 40]);
}

#[test]
fn prepare_buffer_twice_changes_nothing() {
    let mut history: VarHistory<u32, u32> = VarHistory::new();
    history.append_forward(9, Rc::new(90));
    history.append_forward(4, Rc::new(40));
    history.prepare_buffer();
    history.prepare_buffer();
    assert_eq!(listed(history.buffer()), vec![40, 90]);
}

#[test]
fn merge_keeps_shared_ids_with_the_other_node() {
    let mut history: VarHistory<u32, u32> = VarHistory::new();
    history.append_forward(1, Rc::new(10));
    history.append_forward(2, Rc::new(20));
    history.append_forward(4, Rc::new(40));
    let mut other: VarHistory<u32, u32> = VarHistory::new();
    other.append_forward(2, Rc::new(200));
    other.append_forward(3, Rc::new(300));
    other.append_forward(4, Rc::new(400));
    history.merge(other);
    assert_eq!(history.len(), 2);
    history.prepare_buffer();
    assert_eq!(listed(history.buffer()), vec![200, 400]);
}

#[test]
fn merge_with_empty_history_empties_path() {
    let mut history: VarHistory<u32, u32> = VarHistory::new();
    history.append_forward(1, Rc::new(10));
    history.merge(VarHistory::new());
    assert_eq!(history.len(), 0);
    assert!(history.is_empty());
    let mut empty: VarHistory<u32, u32> = VarHistory::new();
    let mut other: VarHistory<u32, u32> = VarHistory::new();
    other.append_forward(6, Rc::new(60));
    empty.merge(other);
    assert!(empty.is_empty());
    empty.prepare_buffer();
    assert!(empty.buffer().is_empty());
}

#[test]
fn merge_of_disjoint_paths_is_empty() {
    let mut history: VarHistory<u32, u32> = VarHistory::new();
    history.append_forward(1, Rc::new(1));
    history.append_forward(2, Rc::new(2));
    let mut other: VarHistory<u32, u32> = VarHistory::new();
    other.append_forward(3, Rc::new(3));
    history.merge(other);
    assert_eq!(history.len(), 0);
}

#[test]
fn merge_with_a_copy_keeps_path_and_commutes_on_ids() {
    let mut history: VarHistory<u32, u32> = VarHistory::new();
    history.append_forward(5, Rc::new(50));
    history.append_forward(2, Rc::new(20));
    let copy = history.clone();
    history.merge(copy);
    assert_eq!(history.len(), 2);
    history.prepare_buffer();
    assert_eq!(listed(history.buffer()), vec![20, 50]);

    let mut a: VarHistory<u32, u32> = VarHistory::new();
    a.append_forward(1, Rc::new(1));
    a.append_forward(2, Rc::new(2));
    let mut b: VarHistory<u32, u32> = VarHistory::new();
    b.append_forward(2, Rc::new(20));
    b.append_forward(3, Rc::new(30));
    let mut x = a.clone();
    x.merge(b.clone());
    let mut y = b.clone();
    y.merge(a.clone());
    assert_eq!(x.len(), 1);
    assert_eq!(y.len(), 1);
    x.prepare_buffer();
    y.prepare_buffer();
    assert_eq!(listed(x.buffer()), vec![20]);
    assert_eq!(listed(y.buffer()), vec![2]);
}

#[test]
fn changeables_are_equal_by_id() {
    let a = Changeable::new(4, Rc::new(1u32));
    let b = Changeable::new(4, Rc::new(2u32));
    let c = Changeable::new(5, Rc::new(1u32));
    assert!(a == b);
    assert!(a != c);
}

#[test]
fn append_changeable_keeps_the_first_of_an_id() {
    let mut history: VarHistory<u32, u32> = VarHistory::new();
    history.append_changeable(Changeable::new(4, Rc::new(1)));
    history.append_changeable(Changeable::new(4, Rc::new(2)));
    history.append_changeable(Changeable::new(5, Rc::new(3)));
    assert_eq!(history.changeable_count(), 2);
    assert_eq!(**history.changeable(4).unwrap(), 1);
    assert_eq!(**history.changeable(5).unwrap(), 3);
    assert!(history.changeable(6).is_none());
    assert_eq!(history.len(), 0);
    assert!(history.is_empty());
}

#[test]
fn merge_keeps_own_changeables_only() {
    let mut history: VarHistory<u32, u32> = VarHistory::new();
    history.append_changeable(Changeable::new(1, Rc::new(10)));
    let mut other: VarHistory<u32, u32> = VarHistory::new();
    other.append_changeable(Changeable::new(2, Rc::new(20)));
    other.append_forward(2, Rc::new(200));
    history.append_forward(2, Rc::new(2));
    history.merge(other);
    assert_eq!(history.changeable_count(), 1);
    assert!(history.changeable(2).is_none());
    assert_eq!(history.len(), 1);
}

fn param(data: usize, grad: usize, shape: &[usize]) -> RawParam {
    RawParam::new(data, grad, shape.to_vec())
}

#[test]
fn raw_params_are_equal_by_all_fields() {
    assert!(param(1, 2, &[3, 4]) == param(1, 2, &[3, 4]));
    assert!(param(1, 2, &[3, 4]) != param(1, 2, &[3, 5]));
    assert!(param(1, 2, &[3, 4]) != param(1, 2, &[3]));
    assert!(param(1, 2, &[3]) != param(9, 2, &[3]));
    assert!(param(1, 2, &[3]) != param(1, 9, &[3]));
    let p = param(8, 9, &[2, 2]);
    let q = p.clone();
    assert!(p == q);
    assert_eq!(q.data(), 8);
    assert_eq!(q.grad(), 9);
    assert_eq!(q.shape(), &[2, 2]);
}

#[test]
fn diff_history_new_holds_each_parameter_once() {
    let history: VarDiffHistory<u32> =
        VarDiffHistory::new(vec![param(1, 2, &[3]), param(1, 2, &[3]), param(4, 5, &[6])]);
    assert_eq!(history.len(), 0);
    assert!(history.is_empty());
    assert_eq!(history.parameters().len(), 2);
}

#[test]
fn diff_history_merge_intersects_paths_and_parameters() {
    let mut history: VarDiffHistory<u32> = VarDiffHistory::new(vec![param(1, 2, &[3])]);
    history.append_backward(2, Rc::new(20));
    let mut other: VarDiffHistory<u32> =
        VarDiffHistory::new(vec![param(1, 2, &[3]), param(7, 8, &[9])]);
    other.append_backward(1, Rc::new(10));
    other.append_backward(2, Rc::new(200));
    history.merge(other);
    assert_eq!(history.len(), 1);
    assert_eq!(history.parameters().len(), 1);
    assert!(history.parameters()[0] == param(1, 2, &[3]));
    history.prepare_buffer();
    assert_eq!(listed(history.buffer()), vec![200]);
}

#[test]
fn diff_history_merge_with_empty_history_empties_all() {
    let mut history: VarDiffHistory<u32> = VarDiffHistory::new(vec![param(1, 2, &[3])]);
    history.append_backward(4, Rc::new(40));
    history.merge(VarDiffHistory::new(Vec::new()));
    assert!(history.is_empty());
    assert!(history.parameters().is_empty());
}

#[test]
fn diff_history_merge_with_a_copy_keeps_everything() {
    let mut history: VarDiffHistory<u32> =
        VarDiffHistory::new(vec![param(1, 2, &[3]), param(4, 5, &[6])]);
    history.append_backward(4, Rc::new(40));
    history.append_backward(1, Rc::new(10));
    let copy = history.clone();
    history.merge(copy);
    assert_eq!(history.len(), 2);
    assert_eq!(history.parameters().len(), 2);
    history.prepare_buffer();
    assert_eq!(listed(history.buffer()), vec![10, 40]);
}

#[test]
fn diff_history_append_backward_empties_buffer() {
    let mut history: VarDiffHistory<u32> = VarDiffHistory::new(Vec::new());
    history.append_backward(5, Rc::new(50));
    history.prepare_buffer();
    assert_eq!(listed(history.buffer()), vec![50]);
    history.append_backward(3, Rc::new(30));
    assert!(history.buffer().is_empty());
    history.prepare_buffer();
    assert_eq!(listed(history.buffer()), vec![30, 50]);
}
