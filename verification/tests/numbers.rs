use cell_codec::{CoordinateSet, NumberArray};

#[test]
fn new_message_has_no_values() {
    let message = NumberArray::new();
    assert_eq!(message.values(), &[] as &[u32]);
}

#[test]
fn set_values_replaces_the_values() {
    let mut message = NumberArray::new();
    message.set_values(vec![3, 1, 3]);
    assert_eq!(message.values(), &[3, 1, 3]);
    message.set_values(vec![9]);
    assert_eq!(message.values(), &[9]);
}

#[test]
fn clear_values_drops_them() {
    let mut message = NumberArray { values: vec![1, 2, 3] };
    message.clear_values();
    assert_eq!(message.values(), &[] as &[u32]);
}

#[test]
fn mut_values_changes_the_message() {
    let mut message = NumberArray { values: vec![1] };
    message.mut_values().push(2);
    message.mut_values()[0] = 5;
    assert_eq!(message.values(), &[5, 2]);
}

#[test]
fn take_values_leaves_none() {
    let mut message = NumberArray { values: vec![4, 5, 6] };
    assert_eq!(message.take_values(), vec![4, 5, 6]);
    assert_eq!(message.values(), &[] as &[u32]);
    assert_eq!(message.take_values(), Vec::<u32>::new());
}

#[test]
fn values_become_a_set_in_order_of_first_appearance() {
    let message = NumberArray { values: vec![512, 0, 512, 1, 0] };
    let set = CoordinateSet::from_values(message.values());
    assert_eq!(set.to_vec(), vec![512, 0, 1]);
}

#[test]
fn default_message_has_no_values() {
    assert_eq!(NumberArray::default(), NumberArray::new());
    assert_eq!(NumberArray::default().values(), &[] as &[u32]);
}

#[test]
fn clone_has_the_same_values() {
    let message = NumberArray { values: vec![8, 8, 1] };
    let mut copy = message.clone();
    assert_eq!(copy, message);
    copy.mut_values().push(2);
    assert_eq!(message.values(), &[8, 8, 1]);
    assert_eq!(copy.values(), &[8, 8, 1, 2]);
}
