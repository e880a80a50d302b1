//! Tests of the other carriers: the exclusively owned boxed carrier with
//! mutable access, the thread-safe shared carrier, the blueprint carrier,
//! the simplified builder interface, and the doctor surface.

use std::rc::Rc;
use std::sync::Arc;

use daab::ArtifactHandle;
use daab::Blueprint;
use daab::Builder;
use daab::BuilderHandle;
use daab::Cache;
use daab::Doctor;
use daab::IdSource;
use daab::RawCache;
use daab::Resolver;
use daab::SimpleBuilder;

#[derive(Debug, Clone, PartialEq)]
enum Owned {
    Leaf(u32),
    Node { leaf_val: u32, tag: u32 },
}

#[derive(Debug)]
struct OwnedLeaf {
    val: u32,
}

impl Builder<Box<Owned>, ()> for OwnedLeaf {
    type Artifact = Owned;
    type Err = ();

    fn build(&self, _resolver: &mut Resolver<Box<Owned>, ()>) -> Result<Owned, ()> {
        Ok(Owned::Leaf(self.val))
    }

    fn init_dyn_state(&self) {}
}

#[derive(Debug)]
struct OwnedNode {
    leaf: Blueprint<OwnedLeaf>,
    tag: u32,
}

impl Builder<Box<Owned>, ()> for OwnedNode {
    type Artifact = Owned;
    type Err = ();

    fn build(&self, resolver: &mut Resolver<Box<Owned>, ()>) -> Result<Owned, ()> {
        let leaf = resolver.resolve_cloned(&self.leaf)?;
        let leaf_val = match leaf {
            Owned::Leaf(v) => v,
            Owned::Node { .. } => panic!("leaf expected"),
        };
        Ok(Owned::Node { leaf_val, tag: self.tag })
    }

    fn init_dyn_state(&self) {}
}

#[test]
fn get_mut_kills_dependents_only() {
    let mut ids = IdSource::new();
    let mut cache: RawCache<Box<Owned>, ()> = RawCache::new();
    let leaf = Blueprint::new(OwnedLeaf { val: 1 }, &mut ids);
    let node = Blueprint::new(OwnedNode { leaf: leaf.clone(), tag: 2 }, &mut ids);

    assert_eq!(cache.get_cloned(&node).unwrap(), Owned::Node { leaf_val: 1, tag: 2 });
    assert!(cache.lookup_ref(&leaf).is_some());

    {
        let art = cache.get_mut(&leaf).unwrap();
        *art = Owned::Leaf(10);
    }

    // The dependent is gone; the mutated artifact itself remains.
    assert!(cache.lookup_ref(&node).is_none());
    assert_eq!(cache.lookup_ref(&leaf), Some(&Owned::Leaf(10)));

    // The next build of the node sees the mutated leaf.
    assert_eq!(cache.get_cloned(&node).unwrap(), Owned::Node { leaf_val: 10, tag: 2 });
}

#[test]
fn get_mut_builds_on_miss() {
    let mut ids = IdSource::new();
    let mut cache: RawCache<Box<Owned>, ()> = RawCache::new();
    let leaf = Blueprint::new(OwnedLeaf { val: 3 }, &mut ids);

    let art = cache.get_mut(&leaf).unwrap();
    assert_eq!(*art, Owned::Leaf(3));
}

#[test]
fn lookup_mut_without_artifact() {
    let mut ids = IdSource::new();
    let mut cache: RawCache<Box<Owned>, ()> = RawCache::new();
    let leaf = Blueprint::new(OwnedLeaf { val: 3 }, &mut ids);

    assert!(cache.lookup_mut(&leaf).is_none());
}

#[derive(Debug, PartialEq)]
struct Wide {
    val: u32,
}

#[derive(Debug)]
struct WideBuilder {
    val: u32,
}

impl Builder<Arc<Wide>, ()> for WideBuilder {
    type Artifact = Wide;
    type Err = ();

    fn build(&self, _resolver: &mut Resolver<Arc<Wide>, ()>) -> Result<Wide, ()> {
        Ok(Wide { val: self.val })
    }

    fn init_dyn_state(&self) {}
}

#[test]
fn thread_safe_carrier() {
    let mut ids = IdSource::new();
    let mut cache: RawCache<Arc<Wide>, ()> = RawCache::new();
    let h = Blueprint::new(WideBuilder { val: 12 }, &mut ids);

    let a = cache.get(&h).unwrap();
    let b = cache.get(&h).unwrap();
    assert!(Arc::ptr_eq(&a, &b));
    assert_eq!(*a, Wide { val: 12 });
}

#[derive(Debug)]
struct PlainLeaf {
    val: u32,
}

impl SimpleBuilder<Rc<u32>> for PlainLeaf {
    type Artifact = u32;

    fn build(&self, _resolver: &mut Resolver<Rc<u32>, ()>) -> u32 {
        self.val
    }
}

#[test]
fn simple_builder_is_a_builder() {
    let mut ids = IdSource::new();
    let mut cache: RawCache<Rc<u32>, ()> = RawCache::new();
    let h = Blueprint::new(PlainLeaf { val: 21 }, &mut ids);

    let a = cache.get(&h).unwrap();
    assert_eq!(*a, 21);
}

// A super-cache: its artifacts are builder handles in turn.
#[derive(Debug)]
struct StagedLeaf {
    val: u32,
}

impl Builder<Rc<u32>, ()> for StagedLeaf {
    type Artifact = u32;
    type Err = ();

    fn build(&self, _resolver: &mut Resolver<Rc<u32>, ()>) -> Result<u32, ()> {
        Ok(self.val)
    }

    fn init_dyn_state(&self) {}
}

#[derive(Debug)]
struct StagePlanner {
    plan: Blueprint<StagedLeaf>,
}

impl Builder<Blueprint<StagedLeaf>, ()> for StagePlanner {
    type Artifact = Blueprint<StagedLeaf>;
    type Err = ();

    fn build(
        &self,
        _resolver: &mut Resolver<Blueprint<StagedLeaf>, ()>,
    ) -> Result<Blueprint<StagedLeaf>, ()> {
        Ok(self.plan.clone())
    }

    fn init_dyn_state(&self) {}
}

#[test]
fn super_cache_yields_handles() {
    let mut ids = IdSource::new();
    let mut super_cache: RawCache<Blueprint<StagedLeaf>, ()> = RawCache::new();
    let mut cache: RawCache<Rc<u32>, ()> = RawCache::new();

    let plan = Blueprint::new(StagedLeaf { val: 33 }, &mut ids);
    let planner = Blueprint::new(StagePlanner { plan: plan.clone() }, &mut ids);

    let staged = super_cache.get(&planner).unwrap();
    assert_eq!(staged.id(), plan.id());

    let value = cache.get(&staged).unwrap();
    assert_eq!(*value, 33);
}

#[derive(Debug, Default)]
struct CountingDoctor {
    resolves: u32,
    builds: u32,
    invalidates: u32,
    clears: u32,
}

impl Doctor for CountingDoctor {
    fn resolve(&mut self, _builder: &BuilderHandle, _used: &BuilderHandle) {
        self.resolves += 1;
    }

    fn build(&mut self, _builder: &BuilderHandle, _artifact: &ArtifactHandle) {
        self.builds += 1;
    }

    fn clear(&mut self) {
        self.clears += 1;
    }

    fn invalidate(&mut self, _builder: &BuilderHandle) {
        self.invalidates += 1;
    }
}

#[derive(Debug)]
struct DocLeaf {
    val: u32,
}

impl Builder<Rc<u32>, ()> for DocLeaf {
    type Artifact = u32;
    type Err = ();

    fn build(&self, _resolver: &mut Resolver<Rc<u32>, ()>) -> Result<u32, ()> {
        Ok(self.val)
    }

    fn init_dyn_state(&self) {}
}

#[derive(Debug)]
struct DocNode {
    leaf: Blueprint<DocLeaf>,
}

impl Builder<Rc<u32>, ()> for DocNode {
    type Artifact = u32;
    type Err = ();

    fn build(&self, resolver: &mut Resolver<Rc<u32>, ()>) -> Result<u32, ()> {
        let v = resolver.resolve(&self.leaf)?;
        Ok(*v + 1)
    }

    fn init_dyn_state(&self) {}
}

#[test]
fn doctor_sees_events_in_order() {
    let mut ids = IdSource::new();
    let mut cache: Cache<Rc<u32>, (), CountingDoctor> =
        Cache::new_with_doctor(CountingDoctor::default());

    let leaf = Blueprint::new(DocLeaf { val: 1 }, &mut ids);
    let n1 = Blueprint::new(DocNode { leaf: leaf.clone() }, &mut ids);
    let n2 = Blueprint::new(DocNode { leaf: leaf.clone() }, &mut ids);

    assert_eq!(*cache.get(&n1).unwrap(), 2);
    assert_eq!(*cache.get(&n2).unwrap(), 2);

    // Three fresh artifacts were built; the leaf was resolved twice but
    // built once.
    {
        let doctor = cache.get_doctor();
        assert_eq!(doctor.builds, 3);
        assert_eq!(doctor.resolves, 2);
    }

    cache.invalidate(&leaf);
    cache.clear_all();

    let doctor = cache.into_doctor();
    assert_eq!(doctor.invalidates, 1);
    assert_eq!(doctor.clears, 1);
}

#[test]
fn plain_cache_wrapper() {
    let mut ids = IdSource::new();
    let mut cache: Cache<Rc<u32>, ()> = Cache::new();
    let leaf = Blueprint::new(DocLeaf { val: 9 }, &mut ids);

    let a = cache.get(&leaf).unwrap();
    assert_eq!(*a, 9);
    assert_eq!(cache.number_of_known_builders(), 1);

    cache.clear();
    assert_eq!(cache.number_of_known_builders(), 0);
}
