use emojy::brackets::build_bracemap;

#[test]
fn bracemap_empty_program() {
    let b = build_bracemap("").expect("empty program is well formed");
    assert!(b.is_empty());
}

#[test]
fn bracemap_single_pair() {
    let b = build_bracemap("[]").expect("well formed");
    assert_eq!(b.len(), 2);
    assert_eq!(b[&0], 1);
    assert_eq!(b[&1], 0);
}

#[test]
fn bracemap_nested_and_sequential_pairs_are_symmetric() {
    let b = build_bracemap("[[][]]").expect("well formed");
    assert_eq!(b[&0], 5);
    assert_eq!(b[&1], 2);
    assert_eq!(b[&3], 4);
    assert_eq!(b.len(), 6);
    for (&a, &m) in b.iter() {
        assert_eq!(b[&m], a, "table must be symmetric");
    }
}

#[test]
fn bracemap_lifo_matching() {
    let b = build_bracemap("[[]]").expect("well formed");
    assert_eq!(b[&1], 2);
    assert_eq!(b[&2], 1);
    assert_eq!(b[&0], 3);
    assert_eq!(b[&3], 0);
}

#[test]
fn bracemap_ignores_other_characters() {
    let b = build_bracemap("a[b]c").expect("well formed");
    assert_eq!(b.len(), 2);
    assert_eq!(b[&1], 3);
    assert_eq!(b[&3], 1);
}

#[test]
fn bracemap_unmatched_backward_jump_fails() {
    assert!(build_bracemap("]").is_none());
    assert!(build_bracemap("[]]").is_none());
    assert!(build_bracemap("][").is_none());
    assert!(build_bracemap("+]-").is_none());
}

#[test]
fn bracemap_unmatched_forward_jump_is_tolerated() {
    let b = build_bracemap("[").expect("an unclosed forward jump builds an empty table");
    assert!(b.is_empty());
    let b = build_bracemap("[[]").expect("the inner pair still matches");
    assert_eq!(b.len(), 2);
    assert_eq!(b[&1], 2);
    assert_eq!(b[&2], 1);
}
