use matrix_core::{ContextId, InstanceId, InstanceRef, ResourceHandle};

#[test]
fn stale_generation_never_revalidates() {
    let a = InstanceRef::new(1, 7, 7, "workspace", 1);
    let b = InstanceRef::new(1, 8, 8, "workspace", 2);
    assert_ne!(a.logical, "".to_string());
    assert!(!a.same_activation(&b));
    // Same logical id, distinct generations: different references.
    assert_eq!(a.logical, b.logical);
    assert_ne!(a.generation, b.generation);
}

#[test]
fn identities_are_shown_with_their_prefix() {
    assert_eq!(InstanceId(7).to_text(), "inst-7");
    assert_eq!(ContextId(8).to_text(), "ctx-8");
    assert_eq!(ResourceHandle(9).to_text(), "res-9");
}

#[test]
fn one_activation_is_itself() {
    let a = InstanceRef::new(1, 7, 9, "workspace", 1);
    assert!(a.same_activation(&a.copy()));
    assert!(!a.same_activation(&InstanceRef::new(2, 7, 9, "workspace", 1)));
}
