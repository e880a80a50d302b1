//! Tests of builder identity: entries, equality and hashing.

use std::collections::hash_map::DefaultHasher;
use std::hash::Hash;
use std::hash::Hasher;

use daab::Blueprint;
use daab::BuilderEntry;
use daab::BuilderId;
use daab::IdSource;

#[derive(Debug)]
struct BuilderLeaf {}

impl BuilderLeaf {
    fn new() -> Self {
        Self {}
    }
}

fn init_entry(ids: &mut IdSource) -> (BuilderEntry, BuilderId) {
    let builder = BuilderLeaf::new();
    let bp = Blueprint::new(builder, ids);
    let id = bp.id();

    (BuilderEntry::new(&bp), id)
}

fn init_two_entries(ids: &mut IdSource) -> (BuilderEntry, BuilderEntry) {
    let builder = BuilderLeaf::new();
    let bp = Blueprint::new(builder, ids);

    (BuilderEntry::new(&bp), BuilderEntry::new(&bp.clone()))
}

#[test]
fn builder_entry_id() {
    let mut ids = IdSource::new();
    let (entry, id) = init_entry(&mut ids);

    assert_eq!(entry.id(), id);
}

#[test]
fn builder_entry_eq() {
    let mut ids = IdSource::new();
    let (entry_one, entry_two) = init_two_entries(&mut ids);

    assert_eq!(entry_one.id(), entry_two.id());

    assert_eq!(entry_one, entry_two);
}

#[test]
fn builder_entry_ne() {
    let mut ids = IdSource::new();
    let (entry_one, _) = init_entry(&mut ids);
    let (entry_two, _) = init_entry(&mut ids);

    assert_ne!(entry_one.id(), entry_two.id());

    assert_ne!(entry_one, entry_two);
}

#[test]
fn builder_entry_hash() {
    let mut ids = IdSource::new();
    let (entry, id) = init_entry(&mut ids);

    let mut hasher1 = DefaultHasher::new();
    let mut hasher2 = DefaultHasher::new();

    entry.hash(&mut hasher1);
    id.hash(&mut hasher2);

    assert_eq!(hasher1.finish(), hasher2.finish());
}

#[test]
fn weak_handle_upgrade() {
    let mut ids = IdSource::new();
    let bp = Blueprint::new(BuilderLeaf::new(), &mut ids);
    let weak = bp.downgrade();

    let upgraded = weak.upgrade().expect("strong handle still alive");
    assert_eq!(upgraded.id(), bp.id());

    drop(upgraded);
    drop(bp);
    assert!(weak.upgrade().is_none());
}
