use rule_verify::edit::Edit;
use rule_verify::edit::edits_in_order;
use rule_verify::edit::merge_edits;
use rule_verify::edit::try_merge_edits;
use rule_verify::transform::replace_bytes;
use rule_verify::transform::substring_bytes;

fn ed(position: usize, deleted_length: usize, inserted: &str) -> Edit {
    Edit { position, deleted_length, inserted_text: inserted.as_bytes().to_vec() }
}

#[test]
fn merge_without_edits_keeps_content() {
    let content = b"abc".to_vec();
    assert_eq!(merge_edits(&content, &vec![], 0), b"abc".to_vec());
}

#[test]
fn merge_replaces_spans_in_order() {
    let content = b"one two three".to_vec();
    let edits = vec![ed(0, 3, "1"), ed(4, 3, "2"), ed(8, 5, "3")];
    assert_eq!(merge_edits(&content, &edits, 0), b"1 2 3".to_vec());
}

#[test]
fn merge_honours_anchor_offset() {
    // the span starts at absolute offset 10; edit positions are absolute
    let content = b"hello".to_vec();
    let edits = vec![ed(11, 3, "XY")];
    assert_eq!(merge_edits(&content, &edits, 10), b"hXYo".to_vec());
}

#[test]
fn merge_at_both_boundaries() {
    let content = b"mid".to_vec();
    let edits = vec![ed(0, 0, "<"), ed(3, 0, ">")];
    assert_eq!(merge_edits(&content, &edits, 0), b"<mid>".to_vec());
}

#[test]
fn in_order_accepts_sorted_non_overlapping() {
    let edits = vec![ed(2, 1, "a"), ed(3, 0, "b"), ed(5, 2, "c")];
    assert!(edits_in_order(&edits, 0, 8));
}

#[test]
fn in_order_rejects_overlap() {
    let edits = vec![ed(2, 3, "a"), ed(4, 1, "b")];
    assert!(!edits_in_order(&edits, 0, 8));
}

#[test]
fn in_order_rejects_descending_positions() {
    let edits = vec![ed(5, 1, "a"), ed(2, 1, "b")];
    assert!(!edits_in_order(&edits, 0, 8));
}

#[test]
fn in_order_rejects_edit_before_anchor() {
    let edits = vec![ed(1, 1, "a")];
    assert!(!edits_in_order(&edits, 3, 8));
}

#[test]
fn in_order_rejects_edit_past_end() {
    let edits = vec![ed(7, 4, "a")];
    assert!(!edits_in_order(&edits, 0, 8));
}

#[test]
fn try_merge_fails_fast_on_overlap() {
    let content = b"abcdef".to_vec();
    let edits = vec![ed(0, 4, "x"), ed(2, 1, "y")];
    assert_eq!(try_merge_edits(&content, &edits, 0), None);
}

#[test]
fn try_merge_accepts_well_formed_edits() {
    let content = b"abcdef".to_vec();
    let edits = vec![ed(1, 2, "BC"), ed(4, 1, "E")];
    assert_eq!(try_merge_edits(&content, &edits, 0), Some(b"aBCdEf".to_vec()));
}

#[test]
fn substring_defaults_to_whole_text() {
    assert_eq!(substring_bytes(&b"hello".to_vec(), None, None), b"hello".to_vec());
}

#[test]
fn substring_negative_start_counts_from_end() {
    assert_eq!(substring_bytes(&b"hello".to_vec(), Some(-3), None), b"llo".to_vec());
}

#[test]
fn substring_clamps_out_of_range_positions() {
    assert_eq!(substring_bytes(&b"hello".to_vec(), Some(-99), Some(99)), b"hello".to_vec());
}

#[test]
fn substring_empty_when_start_after_end() {
    assert_eq!(substring_bytes(&b"hello".to_vec(), Some(3), Some(1)), b"".to_vec());
}

#[test]
fn replace_substitutes_every_occurrence() {
    assert_eq!(replace_bytes(&b"$A+$A".to_vec(), &b"$A".to_vec(), &b"x".to_vec()), b"x+x".to_vec());
}

#[test]
fn replace_without_occurrence_keeps_text() {
    assert_eq!(
        replace_bytes(&b"log(1)".to_vec(), &b"$B".to_vec(), &b"x".to_vec()),
        b"log(1)".to_vec()
    );
}
