use traitgraph::sequence::Sequence;

#[test]
fn test_len() {
    let array = [0, 1, 2];
    let slice = &array[0..2];
    // Making sure that the fully qualified syntax in the trait implementation works as I think and does not create endless recursion.
    assert_eq!(2, Sequence::len(slice));
}

#[test]
fn test_merge_sequences_simple() {
    let s1 = vec![0, 1, 2, 3, 4, 5];
    let s2 = vec![3, 4, 5, 6, 7, 8];
    let merged: Vec<_> = s1
        .forward_merge_iter_assume_mergeable(&s2)
        .into_iter()
        .copied()
        .collect();
    assert_eq!(merged, vec![0, 1, 2, 3, 4, 5, 6, 7, 8]);
}

use traitgraph::sequence::{bracketed_text, EditableSequence, SequenceMut};

#[test]
fn prefix_suffix_first_and_last() {
    let sequence = vec![4, 5, 6, 7];
    assert_eq!(sequence.prefix(2), &[4, 5]);
    assert_eq!(sequence.suffix(3), &[5, 6, 7]);
    assert_eq!(sequence.prefix(0), &[] as &[i32]);
    assert_eq!(Sequence::first(&sequence), Some(&4));
    assert_eq!(Sequence::last(&sequence), Some(&7));
    assert_eq!(Sequence::iter(&sequence), vec![&4, &5, &6, &7]);
    assert!(!Sequence::is_empty(&sequence));
    let empty: Vec<i32> = Vec::new();
    assert!(Sequence::is_empty(&empty));
    assert_eq!(Sequence::first(&empty), None);
    assert_eq!(Sequence::last(&empty), None);
    assert_eq!(sequence[1..3].subsequence(1, 2), &[6]);
}

#[test]
fn proper_subsequences_and_contained_items() {
    let whole = vec![1, 2, 3, 2, 4];
    assert!(vec![2, 4].is_proper_subsequence_of(&whole));
    assert!(vec![1, 2, 3].is_proper_subsequence_of(&whole));
    assert!(Vec::<i32>::new().is_proper_subsequence_of(&whole));
    assert!(!vec![2, 2].is_proper_subsequence_of(&whole));
    assert!(!vec![1, 3].is_proper_subsequence_of(&whole));
    assert!(!whole.is_proper_subsequence_of(&whole));
    assert!(!vec![1, 2, 3, 2, 4, 5].is_proper_subsequence_of(&whole));
    assert!(Sequence::contains(&whole, &3));
    assert!(!Sequence::contains(&whole, &5));
}

#[test]
fn merge_from_the_first_occurrence() {
    // The first item of the second sequence stands at index 1 of the first:
    // the three items from there on are left out of the second.
    let s1 = vec![7, 1, 7, 1];
    let s2 = vec![1, 7, 1, 9, 9];
    let merged: Vec<_> = s1
        .forward_merge_iter_assume_mergeable(&s2)
        .into_iter()
        .copied()
        .collect();
    assert_eq!(merged, vec![7, 1, 7, 1, 9, 9]);
    let merged: Vec<_> = s2
        .backward_merge_iter_assume_mergeable(&s1)
        .into_iter()
        .copied()
        .collect();
    assert_eq!(merged, vec![7, 1, 7, 1, 9, 9]);
    // More items than the second sequence has are left out: nothing is added.
    let long = vec![3, 0, 0, 0];
    let short = vec![3, 4];
    let merged: Vec<_> = long
        .forward_merge_iter_assume_mergeable(&short)
        .into_iter()
        .copied()
        .collect();
    assert_eq!(merged, long);
}

#[test]
fn debug_strings() {
    let sequence = [0, 2, 1];
    assert_eq!(sequence[..].to_debug_string(), "[0, 2, 1]".to_string());
    let sequence = vec!["a", "c", "b"];
    assert_eq!(sequence.to_debug_string(), "[\"a\", \"c\", \"b\"]".to_string());
    assert_eq!(Vec::<u8>::new().to_debug_string(), "[]");
    assert_eq!(vec![5].to_debug_string(), "[5]");
    assert_eq!(bracketed_text(&vec!["x".to_string(), "".to_string()]), "[x, ]");
}

#[test]
fn editing_vectors() {
    let mut sequence = vec![0, 1, 2, 3, 4, 5];
    EditableSequence::set(&mut sequence, 1, 10);
    *sequence.item_mut(2) = 20;
    assert_eq!(sequence, vec![0, 10, 20, 3, 4, 5]);
    sequence.delete(1..3);
    assert_eq!(sequence, vec![0, 3, 4, 5]);
    sequence.delete(2..2);
    assert_eq!(sequence, vec![0, 3, 4, 5]);
    sequence.delete(3..4);
    assert_eq!(sequence, vec![0, 3, 4]);
    sequence.insert_repeat(1..1, 0);
    assert_eq!(sequence, vec![0, 3, 4]);
    EditableSequence::splice(&mut sequence, 1..2, vec![7, 8, 9]);
    assert_eq!(sequence, vec![0, 7, 8, 9, 4]);
    let tail = EditableSequence::split_off(&mut sequence, 3);
    assert_eq!(sequence, vec![0, 7, 8]);
    assert_eq!(tail, vec![9, 4]);
    sequence.extend_into(tail);
    assert_eq!(sequence, vec![0, 7, 8, 9, 4]);
    EditableSequence::resize(&mut sequence, 7, 1);
    assert_eq!(sequence, vec![0, 7, 8, 9, 4, 1, 1]);
    EditableSequence::resize(&mut sequence, 2, 1);
    assert_eq!(sequence, vec![0, 7]);
    EditableSequence::truncate(&mut sequence, 5);
    EditableSequence::push(&mut sequence, 3);
    EditableSequence::reserve(&mut sequence, 10);
    assert_eq!(sequence, vec![0, 7, 3]);
    EditableSequence::truncate(&mut sequence, 1);
    assert_eq!(sequence, vec![0]);
}
