use slot_space::joint::{GenericJoint, JointAxesMask, JointAxis};
use slot_space::objects::{ObjectFlags, ObjectHandle, ObjectParent, ObjectSet, SceneObject};
use slot_space::rigid_body::RigidBody;
use slot_space::space::Index;
use slot_space::spatial::SpatialKey;

fn object(user_data: u128) -> SceneObject {
    SceneObject { parent: None, flags: ObjectFlags {}, user_data }
}

#[test]
fn insert_clears_inherited_parent() {
    let mut set = ObjectSet::new();
    let first = set.insert(object(1));
    let adopted = SceneObject {
        parent: Some(ObjectParent { handle: first }),
        flags: ObjectFlags {},
        user_data: 2,
    };
    let h = set.insert(adopted);
    let stored = set.get(h).unwrap();
    assert!(stored.parent.is_none(), "new objects start unparented");
    assert_eq!(stored.user_data, 2);
}

#[test]
fn insert_appends_to_change_log() {
    let mut set = ObjectSet::new();
    let h1 = set.insert(object(1));
    let h2 = set.insert(object(2));
    assert_eq!(set.changed_objects, vec![h1, h2]);
    assert!(set.removed_objects.is_empty());
    // The log is append-only: nothing drains or deduplicates it here.
    let h3 = set.insert(object(3));
    assert_eq!(set.changed_objects, vec![h1, h2, h3]);
}

#[test]
fn change_log_keeps_multiplicity() {
    let mut set = ObjectSet::new();
    let h = set.insert(object(1));
    set.changed_objects.push(h);
    set.changed_objects.push(h);
    assert_eq!(set.changed_objects.len(), 3);
}

#[test]
fn get_and_index_read_back_objects() {
    let mut set = ObjectSet::new();
    let h1 = set.insert(object(10));
    let h2 = set.insert(object(20));
    assert_eq!(set.get(h1).unwrap().user_data, 10);
    assert_eq!(set.get(h2).unwrap().user_data, 20);
    assert_eq!(set.index(h1).user_data, 10);
    assert_eq!(set.get(ObjectHandle::invalid()).map(|o| o.user_data), None);
}

#[test]
fn replace_updates_object_without_logging() {
    let mut set = ObjectSet::new();
    let h = set.insert(object(10));
    let log_before = set.changed_objects.clone();
    let old = set.replace(h, object(99));
    assert_eq!(old.user_data, 10);
    assert_eq!(set.get(h).unwrap().user_data, 99);
    assert_eq!(set.changed_objects, log_before);
}

#[test]
fn iter_counts_live_objects_exactly() {
    let mut set = ObjectSet::new();
    for v in 0..6u128 {
        set.insert(object(v));
    }
    let mut it = set.iter();
    assert_eq!(it.len(), 6);
    let mut seen = 0;
    while let Some((h, obj)) = it.next() {
        assert_eq!(set.get(h).unwrap().user_data, obj.user_data);
        seen += 1;
    }
    assert_eq!(seen, 6);
}

#[test]
fn invalid_handle_is_default_and_never_live() {
    assert_eq!(ObjectHandle::invalid(), ObjectHandle::default());
    let mut set = ObjectSet::new();
    for v in 0..100u128 {
        let h = set.insert(object(v));
        assert_ne!(h, ObjectHandle::invalid());
    }
    assert!(set.get(ObjectHandle::invalid()).is_none());
}

#[test]
fn spatial_key_is_the_slot_position() {
    let i = Index::from_raw_parts(42, 7);
    assert_eq!(i.key(), 42);
}

#[test]
fn spatial_sentinel_matches_default_handle() {
    let s: Index = SpatialKey::sentinel();
    assert_eq!(s, Index::default());
    assert_eq!(s.key(), u32::MAX as usize);
}

#[test]
fn joint_axis_masks() {
    let empty = JointAxesMask::empty();
    assert_eq!(empty.bits(), 0);
    assert!(!empty.contains(JointAxis::X));
    let x = JointAxesMask::from_axis(JointAxis::X);
    let z_angle = JointAxesMask::from_axis(JointAxis::ZAngle);
    assert_eq!(x.bits(), 1);
    assert_eq!(z_angle.bits(), 32);
    let locked = x.union(z_angle);
    assert_eq!(locked.bits(), 33);
    assert!(locked.contains(JointAxis::X));
    assert!(locked.contains(JointAxis::ZAngle));
    assert!(!locked.contains(JointAxis::Y));
    // Locking the same axis twice changes nothing.
    assert_eq!(locked.union(x).bits(), 33);
}

#[test]
fn generic_joint_locks_axes() {
    let x = JointAxesMask::from_axis(JointAxis::X);
    let y = JointAxesMask::from_axis(JointAxis::Y);
    let mut joint = GenericJoint::new(x);
    assert_eq!(joint.locked_axes.bits(), 1);
    assert_eq!(joint.limit_axes.bits(), 0);
    assert_eq!(joint.coupled_axes.bits(), 0);
    joint.lock_axes(y);
    assert_eq!(joint.locked_axes.bits(), 3);
    assert_eq!(GenericJoint::default().locked_axes.bits(), 0);
}

#[test]
fn rigid_body_default_tag_is_zero() {
    let body = RigidBody::default();
    assert_eq!(body.user_data, 0);
}
