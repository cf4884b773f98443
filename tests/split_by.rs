use nitroglycerin::split_by::{Ext, SplitByState};

#[test]
fn split_at_separator_then_finish() {
    let mut split = vec![1, 2, 0, 3, 4].split_by(|x: &i32| *x == 0);
    assert_eq!(split.next(), Some(1));
    assert_eq!(split.next(), Some(2));
    assert_eq!(split.next(), None);
    assert_eq!(split.done(), SplitByState::Split(0));
    assert_eq!(split.done(), SplitByState::Continue);
    assert_eq!(split.next(), Some(3));
    assert_eq!(split.next(), Some(4));
    assert_eq!(split.next(), None);
    assert_eq!(split.done(), SplitByState::Finished);
}

#[test]
fn rest_after_split() {
    let mut split = vec![5, 7, 9].split_by(|x: &i32| *x == 7);
    assert_eq!(split.next(), Some(5));
    assert_eq!(split.next(), None);
    assert_eq!(split.into_rest(), vec![9]);
}
