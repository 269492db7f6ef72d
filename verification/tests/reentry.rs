use imas_mvdd::reentry::ReentryDepth;

#[test]
fn callback_scope_preserves_the_outer_entry_then_restores_a_fresh_entry() {
    let mut depth = ReentryDepth::new();
    let outer_is_reentrant = depth.enter();
    assert!(
        !outer_is_reentrant,
        "the first entry receives conversion policy"
    );

    {
        let callback_is_reentrant = depth.enter();
        assert!(callback_is_reentrant, "a nested callback passes through");
        depth.leave();
    }

    let after_callback_is_reentrant = depth.enter();
    assert!(
        after_callback_is_reentrant,
        "leaving the callback preserves the in-flight outer entry"
    );
    depth.leave();
    depth.leave();

    let fresh_is_reentrant = depth.enter();
    assert!(
        !fresh_is_reentrant,
        "leaving the outer entry restores conversion for the next call"
    );
}

#[test]
fn leaving_with_nothing_entered_stays_at_rest() {
    let mut depth = ReentryDepth::new();
    depth.leave();
    assert!(!depth.is_entered());
    assert!(!depth.enter());
    assert!(depth.is_entered());
}
