use git_integrity::build_label::build_label;

#[test]
fn a_build_is_labelled_by_its_commit() {
    assert_eq!(build_label(Some(b"0123456789\n".to_vec()), Some(Vec::new())), "0123456789");
    assert_eq!(build_label(Some(b"0123456789\n".to_vec()), Some(b" M x\n".to_vec())), "0123456789-dirty");
    assert_eq!(build_label(Some(b"0123456789".to_vec()), None), "0123456789");
    assert_eq!(build_label(None, None), "unknown");
    assert_eq!(build_label(Some(vec![0xff]), Some(b"?? x".to_vec())), "unknown-dirty");
}
