//! End-to-end scenarios over the shared (`Rc`) carrier: identity, diamond
//! sharing, cascading invalidation and its confinement, dynamic-state
//! lifecycle, garbage collection, error propagation, and replays.

use std::rc::Rc;

use daab::Blueprint;
use daab::Builder;
use daab::IdSource;
use daab::RawCache;
use daab::Resolver;

#[derive(Debug, PartialEq)]
enum Art {
    Leaf(u32),
    Node { leaf: Rc<Art>, tag: u32 },
}

impl Art {
    fn leaf_of_node(&self) -> &Rc<Art> {
        match self {
            Art::Node { leaf, .. } => leaf,
            Art::Leaf(_) => panic!("not a node"),
        }
    }
}

type ShCache = RawCache<Rc<Art>, ()>;

#[derive(Debug)]
struct BuilderLeaf {
    val: u32,
}

impl Builder<Rc<Art>, ()> for BuilderLeaf {
    type Artifact = Art;
    type Err = ();

    fn build(&self, _resolver: &mut Resolver<Rc<Art>, ()>) -> Result<Art, ()> {
        Ok(Art::Leaf(self.val))
    }

    fn init_dyn_state(&self) {}
}

#[derive(Debug)]
struct BuilderNode {
    leaf: Blueprint<BuilderLeaf>,
    tag: u32,
}

impl Builder<Rc<Art>, ()> for BuilderNode {
    type Artifact = Art;
    type Err = ();

    fn build(&self, resolver: &mut Resolver<Rc<Art>, ()>) -> Result<Art, ()> {
        let leaf = resolver.resolve(&self.leaf)?;
        Ok(Art::Node { leaf, tag: self.tag })
    }

    fn init_dyn_state(&self) {}
}

/// A node that resolves its one dependency twice in one build; both
/// resolutions must hand back the same artifact bin.
#[derive(Debug)]
struct BuilderDoubleNode {
    leaf: Blueprint<BuilderLeaf>,
}

impl Builder<Rc<Art>, ()> for BuilderDoubleNode {
    type Artifact = Art;
    type Err = ();

    fn build(&self, resolver: &mut Resolver<Rc<Art>, ()>) -> Result<Art, ()> {
        let first = resolver.resolve(&self.leaf)?;
        let second = resolver.resolve(&self.leaf)?;
        assert!(Rc::ptr_eq(&first, &second));
        Ok(Art::Node { leaf: first, tag: 0 })
    }

    fn init_dyn_state(&self) {}
}

#[test]
fn leaf_identity() {
    let mut ids = IdSource::new();
    let mut cache = ShCache::new();
    let h1 = Blueprint::new(BuilderLeaf { val: 1 }, &mut ids);
    let h2 = Blueprint::new(BuilderLeaf { val: 1 }, &mut ids);

    let a = cache.get(&h1).unwrap();
    let b = cache.get(&h1).unwrap();
    assert!(Rc::ptr_eq(&a, &b));

    let c = cache.get(&h2).unwrap();
    assert!(!Rc::ptr_eq(&a, &c));
}

#[test]
fn cloned_handles_share_artifact() {
    let mut ids = IdSource::new();
    let mut cache = ShCache::new();
    let h1 = Blueprint::new(BuilderLeaf { val: 7 }, &mut ids);
    let h2 = h1.clone();

    let a = cache.get(&h1).unwrap();
    let b = cache.get(&h2).unwrap();
    assert!(Rc::ptr_eq(&a, &b));
}

#[test]
fn diamond_sharing() {
    let mut ids = IdSource::new();
    let mut cache = ShCache::new();
    let leaf = Blueprint::new(BuilderLeaf { val: 3 }, &mut ids);
    let n1 = Blueprint::new(BuilderNode { leaf: leaf.clone(), tag: 1 }, &mut ids);
    let n2 = Blueprint::new(BuilderNode { leaf: leaf.clone(), tag: 2 }, &mut ids);

    let a1 = cache.get(&n1).unwrap();
    let a2 = cache.get(&n2).unwrap();
    assert!(!Rc::ptr_eq(&a1, &a2));
    assert!(Rc::ptr_eq(a1.leaf_of_node(), a2.leaf_of_node()));
}

#[test]
fn invalidate_cascade() {
    let mut ids = IdSource::new();
    let mut cache = ShCache::new();
    let leaf = Blueprint::new(BuilderLeaf { val: 3 }, &mut ids);
    let n1 = Blueprint::new(BuilderNode { leaf: leaf.clone(), tag: 1 }, &mut ids);

    let old_leaf = cache.get(&leaf).unwrap();
    let a1 = cache.get(&n1).unwrap();

    cache.invalidate(&leaf);

    assert!(cache.lookup(&leaf).is_none());
    assert!(cache.lookup(&n1).is_none());

    let new_leaf = cache.get(&leaf).unwrap();
    let new_a1 = cache.get(&n1).unwrap();
    assert!(!Rc::ptr_eq(&old_leaf, &new_leaf));
    assert!(!Rc::ptr_eq(&a1, &new_a1));
}

#[test]
fn invalidate_confinement() {
    let mut ids = IdSource::new();
    let mut cache = ShCache::new();
    let leaf_a = Blueprint::new(BuilderLeaf { val: 1 }, &mut ids);
    let leaf_b = Blueprint::new(BuilderLeaf { val: 2 }, &mut ids);
    let n_a = Blueprint::new(BuilderNode { leaf: leaf_a.clone(), tag: 1 }, &mut ids);
    let n_b = Blueprint::new(BuilderNode { leaf: leaf_b.clone(), tag: 2 }, &mut ids);

    let old_leaf_a = cache.get(&leaf_a).unwrap();
    let old_leaf_b = cache.get(&leaf_b).unwrap();
    let old_a = cache.get(&n_a).unwrap();
    let old_b = cache.get(&n_b).unwrap();

    cache.invalidate(&leaf_a);

    let new_b = cache.get(&n_b).unwrap();
    let new_leaf_b = cache.get(&leaf_b).unwrap();
    assert!(Rc::ptr_eq(&old_b, &new_b));
    assert!(Rc::ptr_eq(&old_leaf_b, &new_leaf_b));

    let new_a = cache.get(&n_a).unwrap();
    let new_leaf_a = cache.get(&leaf_a).unwrap();
    assert!(!Rc::ptr_eq(&old_a, &new_a));
    assert!(!Rc::ptr_eq(&old_leaf_a, &new_leaf_a));
}

#[test]
fn idempotent_resolve() {
    let mut ids = IdSource::new();
    let mut cache = ShCache::new();
    let leaf = Blueprint::new(BuilderLeaf { val: 9 }, &mut ids);
    let node = Blueprint::new(BuilderDoubleNode { leaf: leaf.clone() }, &mut ids);

    let a = cache.get(&node).unwrap();
    let l = cache.get(&leaf).unwrap();
    assert!(Rc::ptr_eq(a.leaf_of_node(), &l));

    // One edge was recorded: one invalidation of the leaf removes the node,
    // and rebuilding works as before.
    cache.invalidate(&leaf);
    assert!(cache.lookup(&node).is_none());
    let b = cache.get(&node).unwrap();
    assert!(!Rc::ptr_eq(&a, &b));
}

#[test]
fn round_trip_replay() {
    let mut ids = IdSource::new();
    let mut cache = ShCache::new();
    let leaf = Blueprint::new(BuilderLeaf { val: 5 }, &mut ids);
    let node = Blueprint::new(BuilderNode { leaf: leaf.clone(), tag: 8 }, &mut ids);

    let first_leaf = cache.get(&leaf).unwrap();
    let first_node = cache.get(&node).unwrap();

    cache.clear_all();
    assert_eq!(cache.number_of_known_builders(), 0);

    let second_leaf = cache.get(&leaf).unwrap();
    let second_node = cache.get(&node).unwrap();

    // Structurally equal, yet fresh instances.
    assert_eq!(*first_leaf, *second_leaf);
    assert_eq!(*first_node, *second_node);
    assert!(!Rc::ptr_eq(&first_leaf, &second_leaf));
    assert!(!Rc::ptr_eq(&first_node, &second_node));
}

#[test]
fn purge_removes_every_trace() {
    let mut ids = IdSource::new();
    let mut cache = ShCache::new();
    let leaf = Blueprint::new(BuilderLeaf { val: 4 }, &mut ids);
    let node = Blueprint::new(BuilderNode { leaf: leaf.clone(), tag: 1 }, &mut ids);

    cache.get(&node).unwrap();
    assert!(cache.lookup(&leaf).is_some());

    cache.purge(&leaf);
    assert!(cache.lookup(&leaf).is_none());
    assert!(cache.lookup(&node).is_none());
    assert!(cache.get_dyn_state(&leaf).is_none());
}

#[test]
fn clear_artifacts_keeps_dyn_states() {
    let mut ids = IdSource::new();
    let mut cache = ShCache::new();
    let leaf = Blueprint::new(BuilderLeaf { val: 4 }, &mut ids);

    cache.get(&leaf).unwrap();
    assert!(cache.get_dyn_state(&leaf).is_some());

    cache.clear_artifacts();
    assert!(cache.lookup(&leaf).is_none());
    assert!(cache.get_dyn_state(&leaf).is_some());
    assert_eq!(cache.number_of_known_builders(), 1);
}

#[test]
fn gc_reclaims_orphans() {
    let mut ids = IdSource::new();
    let mut cache = ShCache::new();
    let h = Blueprint::new(BuilderLeaf { val: 2 }, &mut ids);

    let first = cache.get(&h).unwrap();
    assert_eq!(cache.number_of_known_builders(), 1);

    drop(h);
    assert_eq!(cache.number_of_known_builders(), 1);

    cache.garbage_collection();
    assert_eq!(cache.number_of_known_builders(), 0);

    let fresh = Blueprint::new(BuilderLeaf { val: 2 }, &mut ids);
    let second = cache.get(&fresh).unwrap();
    assert!(!Rc::ptr_eq(&first, &second));
}

#[test]
fn gc_keeps_live_builders() {
    let mut ids = IdSource::new();
    let mut cache = ShCache::new();
    let kept = Blueprint::new(BuilderLeaf { val: 1 }, &mut ids);
    let dropped = Blueprint::new(BuilderLeaf { val: 2 }, &mut ids);

    let kept_art = cache.get(&kept).unwrap();
    cache.get(&dropped).unwrap();
    assert_eq!(cache.number_of_known_builders(), 2);

    drop(dropped);
    cache.garbage_collection();

    assert_eq!(cache.number_of_known_builders(), 1);
    let again = cache.get(&kept).unwrap();
    assert!(Rc::ptr_eq(&kept_art, &again));
}

/// A builder whose build reads its dynamic state; its artifact embeds the
/// value seen at build time.
#[derive(Debug)]
struct BuilderCounted {}

impl Builder<Rc<Art>, u32> for BuilderCounted {
    type Artifact = Art;
    type Err = ();

    fn build(&self, resolver: &mut Resolver<Rc<Art>, u32>) -> Result<Art, ()> {
        let state = resolver.my_state();
        *state += 1;
        Ok(Art::Leaf(*state))
    }

    fn init_dyn_state(&self) -> u32 {
        0
    }
}

#[test]
fn dyn_state_lifecycle() {
    let mut ids = IdSource::new();
    let mut cache: RawCache<Rc<Art>, u32> = RawCache::new();
    let h = Blueprint::new(BuilderCounted {}, &mut ids);

    assert!(cache.get_dyn_state(&h).is_none());

    cache.set_dyn_state(&h, 0);
    assert_eq!(cache.get_dyn_state(&h), Some(&0));

    let built = cache.get(&h).unwrap();
    assert_eq!(*built, Art::Leaf(1));
    assert_eq!(cache.get_dyn_state(&h), Some(&1));

    // Setting the state invalidates the artifact; the next get rebuilds.
    cache.set_dyn_state(&h, 5);
    assert!(cache.lookup(&h).is_none());
    let rebuilt = cache.get(&h).unwrap();
    assert_eq!(*rebuilt, Art::Leaf(6));
}

#[test]
fn invalidate_keeps_dyn_state() {
    let mut ids = IdSource::new();
    let mut cache: RawCache<Rc<Art>, u32> = RawCache::new();
    let h = Blueprint::new(BuilderCounted {}, &mut ids);

    cache.get(&h).unwrap();
    assert_eq!(cache.get_dyn_state(&h), Some(&1));

    cache.invalidate(&h);
    assert!(cache.lookup(&h).is_none());
    assert_eq!(cache.get_dyn_state(&h), Some(&1));
}

/// A builder that fails until its dynamic state allows it to succeed.
#[derive(Debug)]
struct BuilderFallible {}

impl Builder<Rc<Art>, bool> for BuilderFallible {
    type Artifact = Art;
    type Err = u32;

    fn build(&self, resolver: &mut Resolver<Rc<Art>, bool>) -> Result<Art, u32> {
        if *resolver.my_state() {
            Ok(Art::Leaf(11))
        } else {
            Err(17)
        }
    }

    fn init_dyn_state(&self) -> bool {
        false
    }
}

#[test]
fn failed_build_is_not_cached() {
    let mut ids = IdSource::new();
    let mut cache: RawCache<Rc<Art>, bool> = RawCache::new();
    let h = Blueprint::new(BuilderFallible {}, &mut ids);

    assert_eq!(cache.get(&h).unwrap_err(), 17);
    assert!(cache.lookup(&h).is_none());
    // The freshly created dynamic state and the known entry remain.
    assert_eq!(cache.get_dyn_state(&h), Some(&false));
    assert_eq!(cache.number_of_known_builders(), 1);

    cache.set_dyn_state(&h, true);
    assert_eq!(*cache.get(&h).unwrap(), Art::Leaf(11));
}

#[test]
fn invalidate_unknown_builder_is_harmless() {
    let mut ids = IdSource::new();
    let mut cache = ShCache::new();
    let known = Blueprint::new(BuilderLeaf { val: 1 }, &mut ids);
    let stranger = Blueprint::new(BuilderLeaf { val: 2 }, &mut ids);

    let before = cache.get(&known).unwrap();
    cache.invalidate(&stranger);

    let after = cache.get(&known).unwrap();
    assert!(Rc::ptr_eq(&before, &after));
    assert_eq!(cache.number_of_known_builders(), 1);
}

#[test]
fn empty_cache_operations() {
    let mut ids = IdSource::new();
    let mut cache = ShCache::new();
    let h = Blueprint::new(BuilderLeaf { val: 1 }, &mut ids);

    assert_eq!(cache.number_of_known_builders(), 0);
    assert!(cache.lookup(&h).is_none());
    assert!(cache.get_dyn_state(&h).is_none());

    cache.garbage_collection();
    cache.clear_artifacts();
    cache.clear_all();
    assert_eq!(cache.number_of_known_builders(), 0);
}

#[test]
fn dyn_state_without_artifact_survives_gc_while_handle_lives() {
    let mut ids = IdSource::new();
    let mut cache = ShCache::new();
    let h = Blueprint::new(BuilderLeaf { val: 1 }, &mut ids);

    cache.dyn_state(&h);
    assert_eq!(cache.number_of_known_builders(), 1);

    cache.garbage_collection();
    assert_eq!(cache.number_of_known_builders(), 1);
    assert!(cache.get_dyn_state(&h).is_some());
}
