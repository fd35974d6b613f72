use rule_verify::edit::Edit;
use rule_verify::rewrite::RewriteError;
use rule_verify::rewrite::Rewriters;

fn ed(position: usize, deleted_length: usize, inserted: &str) -> Edit {
    Edit { position, deleted_length, inserted_text: inserted.as_bytes().to_vec() }
}

fn splice_rewriter() -> Rewriters {
    Rewriters { source: b"$A".to_vec(), rewrites: vec![b"rewrite".to_vec()], join_by: None }
}

#[test]
fn test_perform_one_rewrite() {
    // `log($A)` matched against `log(t(1, 2, 3))` binds $A to `t(1, 2, 3)`
    // at offset 4; the sub-rule matching each number literal fixes it to
    // `114514`, one edit per descendant match.
    let rewrite = splice_rewriter();
    let var_bytes = b"t(1, 2, 3)".to_vec();
    let edits = vec![ed(6, 1, "114514"), ed(9, 1, "114514"), ed(12, 1, "114514")];
    let ret = rewrite.compute(&vec![4], &var_bytes, &edits);
    assert_eq!(ret, Some(b"t(114514, 114514, 114514)".to_vec()));
}

#[test]
fn test_perform_multiple_rewrites() {}

#[test]
fn test_rewrites_order_and_overlapping() {}

#[test]
fn test_rewrites_join_by() {}

#[test]
fn test_recursive_rewrites() {}

#[test]
fn compute_without_capture_yields_nothing() {
    let rewrite = splice_rewriter();
    assert_eq!(rewrite.compute(&vec![], &b"t(1)".to_vec(), &vec![]), None);
}

#[test]
fn join_by_joins_inserted_texts() {
    let rewrite = Rewriters {
        source: b"$A".to_vec(),
        rewrites: vec![b"rewrite".to_vec()],
        join_by: Some(b", ".to_vec()),
    };
    let edits = vec![ed(0, 1, "a"), ed(2, 1, "b"), ed(4, 1, "c")];
    let ret = rewrite.compute(&vec![0], &b"x y z".to_vec(), &edits);
    assert_eq!(ret, Some(b"a, b, c".to_vec()));
}

#[test]
fn join_by_without_edits_is_empty() {
    let rewrite = Rewriters {
        source: b"$A".to_vec(),
        rewrites: vec![],
        join_by: Some(b"-".to_vec()),
    };
    assert_eq!(rewrite.compute(&vec![0], &b"x".to_vec(), &vec![]), Some(b"".to_vec()));
}

#[test]
fn try_compute_rejects_overlapping_edits() {
    let rewrite = splice_rewriter();
    let edits = vec![ed(0, 3, "a"), ed(1, 1, "b")];
    let ret = rewrite.try_compute(&vec![0], &b"abcdef".to_vec(), &edits);
    assert_eq!(ret, Err(RewriteError::EditsOutOfOrder));
}

#[test]
fn try_compute_splices_well_formed_edits() {
    let rewrite = splice_rewriter();
    let edits = vec![ed(1, 1, "B")];
    let ret = rewrite.try_compute(&vec![0], &b"abc".to_vec(), &edits);
    assert_eq!(ret, Ok(Some(b"aBc".to_vec())));
}

#[test]
fn unresolvable_rewrite_ids_are_dropped() {
    let rewrite = Rewriters {
        source: b"$A".to_vec(),
        rewrites: vec![b"x".to_vec(), b"y".to_vec(), b"z".to_vec()],
        join_by: None,
    };
    let available = vec![b"z".to_vec(), b"x".to_vec()];
    assert_eq!(rewrite.resolve_rewrites(&available), vec![b"x".to_vec(), b"z".to_vec()]);
}
