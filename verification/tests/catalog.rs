use parallax::catalog::tool_catalog;

#[test]
fn a_disabled_capability_is_absent_from_the_catalog() {
    let all = tool_catalog(true, true, true);
    assert_eq!(all.len(), 15);
    assert_eq!(&all[..5], ["verify", "unstick", "diverge", "decide", "elicit"]);
    assert!(all.contains(&"surface".to_string()));

    let bare = tool_catalog(false, false, false);
    assert_eq!(
        bare,
        ["verify", "unstick", "diverge", "decide", "elicit", "check", "checkpoint_action", "checkpoint_batch", "checkpoint_turn"]
    );
    let research_only = tool_catalog(false, true, false);
    assert!(research_only.contains(&"research".to_string()));
    assert!(!research_only.contains(&"save".to_string()));
    assert!(!research_only.contains(&"grounded_verify".to_string()));
}
