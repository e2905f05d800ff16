use std::collections::HashSet;

use ecs_core::CoreError;
use ecs_core::access::{Access, Mode, Target};
use ecs_core::entity::{EntityId, EntityRegistry};
use ecs_core::resource::ResourceCell;
use ecs_core::schedule::{Scheduler, System};
use ecs_core::store::TypedStore;
use ecs_core::world::World;

#[derive(Clone, Debug, PartialEq)]
enum Comp {
    Int(i64),
    Str(String),
    Counter(u64),
}

#[derive(Clone, Debug, PartialEq)]
enum Res {
    Tick(u64),
}

fn int_of(c: &Comp) -> i64 {
    match c {
        Comp::Int(v) => *v,
        _ => panic!("expected an integer component"),
    }
}

fn counter_of(c: &Comp) -> u64 {
    match c {
        Comp::Counter(v) => *v,
        _ => panic!("expected a counter component"),
    }
}

#[test]
fn entity_create_and_is_live() {
    let mut reg = EntityRegistry::new();
    let a = reg.create().id;
    let b = reg.create().id;
    assert!(reg.is_live(a));
    assert!(reg.is_live(b));
    assert_ne!(a, b);
}

#[test]
fn entity_destroy_retires_handle() {
    let mut reg = EntityRegistry::new();
    let a = reg.create().id;
    assert!(reg.destroy(a));
    assert!(!reg.is_live(a));
    // destroying again is a no-op
    assert!(!reg.destroy(a));
    // the slot may be reused, but never under the same handle
    let b = reg.create().id;
    assert!(reg.is_live(b));
    assert!(!reg.is_live(a));
    assert_ne!(a, b);
}

#[test]
fn entity_identity_under_churn() {
    // P-style scenario: create and destroy 10,000 entities in arbitrary
    // interleavings; no two simultaneously live entities share a handle.
    let mut reg = EntityRegistry::new();
    let mut live: Vec<EntityId> = Vec::new();
    let mut ever: HashSet<(usize, u64)> = HashSet::new();
    let mut made = 0usize;
    let mut step = 7usize;
    while made < 10_000 {
        // a small deterministic pseudo-random walk over create/destroy
        step = step.wrapping_mul(31).wrapping_add(17) % 100;
        if step < 60 || live.is_empty() {
            let id = reg.create().id;
            // fresh handle: never seen before, among live or destroyed
            assert!(
                ever.insert((id.index, id.generation)),
                "handle reused: {:?}",
                id
            );
            for other in &live {
                assert_ne!(*other, id);
                assert_ne!(other.index, id.index, "two live entities share a slot");
            }
            live.push(id);
            made += 1;
        } else {
            let victim = live.swap_remove(step % live.len());
            assert!(reg.destroy(victim));
            assert!(!reg.is_live(victim));
        }
    }
    for id in &live {
        assert!(reg.is_live(*id));
    }
}

#[test]
fn store_set_get_remove() {
    let mut reg = EntityRegistry::new();
    let mut store: TypedStore<Comp> = TypedStore::new();
    let e = reg.create().id;
    assert!(!store.contains(e));
    assert_eq!(store.get(e), None);
    store.set(e, Comp::Int(5));
    assert_eq!(store.get(e), Some(&Comp::Int(5)));
    // overwrite is idempotent, no error
    store.set(e, Comp::Int(9));
    assert_eq!(store.get(e), Some(&Comp::Int(9)));
    assert_eq!(store.remove(e), Some(Comp::Int(9)));
    assert_eq!(store.get(e), None);
    // removing an absent entry is a no-op
    assert_eq!(store.remove(e), None);
}

#[test]
fn store_ignores_stale_handles() {
    let mut reg = EntityRegistry::new();
    let mut store: TypedStore<Comp> = TypedStore::new();
    let stale = reg.create().id;
    store.set(stale, Comp::Int(1));
    reg.destroy(stale);
    let fresh = reg.create().id;
    assert_eq!(fresh.index, stale.index, "slot should be reused here");
    store.set(fresh, Comp::Int(2));
    assert_eq!(store.get(stale), None, "stale handle must not alias");
    assert_eq!(store.get(fresh), Some(&Comp::Int(2)));
}

#[test]
fn join_intersection_example() {
    // stores A = {e1: 10, e2: 20}, B = {e2: "x", e3: "y"}:
    // the join is exactly e2, with values (20, "x").
    let mut reg = EntityRegistry::new();
    let mut world: World<Comp, Res> = World::new();
    let a = world.register_component();
    let b = world.register_component();
    let e1 = reg.create().id;
    let e2 = reg.create().id;
    let e3 = reg.create().id;
    world.set_comp(a, e1, Comp::Int(10));
    world.set_comp(a, e2, Comp::Int(20));
    world.set_comp(b, e2, Comp::Str("x".to_string()));
    world.set_comp(b, e3, Comp::Str("y".to_string()));
    let matched = world.join(&vec![a, b]);
    assert_eq!(matched, vec![e2]);
    assert_eq!(world.get_comp(a, e2), Some(&Comp::Int(20)));
    assert_eq!(world.get_comp(b, e2), Some(&Comp::Str("x".to_string())));
}

#[test]
fn join_order_is_ascending_and_duplicate_free() {
    let mut reg = EntityRegistry::new();
    let mut world: World<Comp, Res> = World::new();
    let a = world.register_component();
    let b = world.register_component();
    let mut ids = Vec::new();
    for i in 0..50 {
        let e = reg.create().id;
        world.set_comp(a, e, Comp::Int(i));
        if i % 2 == 0 {
            world.set_comp(b, e, Comp::Int(-i));
        }
        ids.push(e);
    }
    let matched = world.join(&vec![a, b]);
    assert_eq!(matched.len(), 25);
    for pair in matched.windows(2) {
        assert!(pair[0].index < pair[1].index);
    }
    // same join computed twice within the tick gives the same sequence
    assert_eq!(matched, world.join(&vec![a, b]));
}

#[test]
fn mutation_through_join_is_visible() {
    let mut reg = EntityRegistry::new();
    let mut world: World<Comp, Res> = World::new();
    let a = world.register_component();
    let e = reg.create().id;
    world.set_comp(a, e, Comp::Int(1));
    for id in world.join(&vec![a]) {
        let old = int_of(world.get_comp(a, id).unwrap());
        world.set_comp(a, id, Comp::Int(old + 41));
    }
    assert_eq!(world.get_comp(a, e), Some(&Comp::Int(42)));
}

#[test]
fn resource_missing_then_present() {
    let mut world: World<Comp, Res> = World::new();
    assert_eq!(world.get_resource(0), Err(CoreError::ResourceMissing));
    let t = world.register_resource();
    assert_eq!(world.get_resource(t), Err(CoreError::ResourceMissing));
    world.insert_resource(t, Res::Tick(3));
    assert_eq!(world.get_resource(t), Ok(&Res::Tick(3)));
    // insert replaces the prior value
    world.insert_resource(t, Res::Tick(4));
    assert_eq!(world.get_resource(t), Ok(&Res::Tick(4)));
}

#[test]
fn resource_cell_take() {
    let mut cell: ResourceCell<Res> = ResourceCell::new();
    assert_eq!(cell.get(), Err(CoreError::ResourceMissing));
    cell.insert(Res::Tick(1));
    assert_eq!(cell.get(), Ok(&Res::Tick(1)));
    assert_eq!(cell.take(), Some(Res::Tick(1)));
    assert_eq!(cell.get(), Err(CoreError::ResourceMissing));
}

#[test]
fn accessors_shared_and_exclusive() {
    let mut world: World<Comp, Res> = World::new();
    let a = world.register_component();
    let s1 = world.read_store(a).unwrap();
    let s2 = world.read_store(a).unwrap();
    assert_eq!(s1.target, Target::Store(a));
    assert_eq!(s1.mode, Mode::Shared);
    // a live sharer blocks the exclusive accessor
    assert_eq!(world.write_store(a), Err(CoreError::AccessConflict));
    world.release(s1);
    world.release(s2);
    let x = world.write_store(a).unwrap();
    assert_eq!(x.mode, Mode::Exclusive);
    // a live exclusive holder blocks everyone
    assert_eq!(world.read_store(a), Err(CoreError::AccessConflict));
    assert_eq!(world.acquire(Target::Store(a), Mode::Exclusive), Err(CoreError::AccessConflict));
    world.release(x);
    assert!(world.read_store(a).is_ok());
}

#[test]
fn resource_accessors() {
    let mut world: World<Comp, Res> = World::new();
    let t = world.register_resource();
    world.insert_resource(t, Res::Tick(0));
    let r1 = world.read_resource(t).unwrap();
    assert_eq!(r1.target, Target::Resource(t));
    assert_eq!(world.write_resource(t), Err(CoreError::AccessConflict));
    world.release(r1);
    let w = world.write_resource(t).unwrap();
    assert_eq!(world.read_resource(t), Err(CoreError::AccessConflict));
    world.release(w);
}

#[test]
fn builder_chains_component_writes() {
    let mut reg = EntityRegistry::new();
    let mut world: World<Comp, Res> = World::new();
    let a = world.register_component();
    let b = world.register_component();
    let e = reg
        .create()
        .add(&mut world, a, Comp::Int(7))
        .add(&mut world, b, Comp::Str("tag".to_string()))
        .id;
    assert_eq!(world.get_comp(a, e), Some(&Comp::Int(7)));
    assert_eq!(world.get_comp(b, e), Some(&Comp::Str("tag".to_string())));
}

struct Increment {
    store: usize,
    who: EntityId,
}

impl System<Comp, Res> for Increment {
    fn declared_access(&self) -> Vec<Access> {
        vec![Access { target: Target::Store(self.store), mode: Mode::Exclusive }]
    }

    fn run(&self, world: &mut World<Comp, Res>) {
        let old = counter_of(world.get_comp(self.store, self.who).unwrap());
        world.set_comp(self.store, self.who, Comp::Counter(old + 1));
    }
}

struct CopyOver {
    from: usize,
    to: usize,
    who: EntityId,
}

impl System<Comp, Res> for CopyOver {
    fn declared_access(&self) -> Vec<Access> {
        vec![
            Access { target: Target::Store(self.from), mode: Mode::Shared },
            Access { target: Target::Store(self.to), mode: Mode::Exclusive },
        ]
    }

    fn run(&self, world: &mut World<Comp, Res>) {
        let v = world.get_comp(self.from, self.who).unwrap().clone();
        world.set_comp(self.to, self.who, v);
    }
}

struct SelfConflicted {
    store: usize,
}

impl System<Comp, Res> for SelfConflicted {
    fn declared_access(&self) -> Vec<Access> {
        vec![
            Access { target: Target::Store(self.store), mode: Mode::Shared },
            Access { target: Target::Store(self.store), mode: Mode::Exclusive },
        ]
    }

    fn run(&self, _world: &mut World<Comp, Res>) {}
}

enum Sys {
    Inc(Increment),
    Copy(CopyOver),
}

impl System<Comp, Res> for Sys {
    fn declared_access(&self) -> Vec<Access> {
        match self {
            Sys::Inc(s) => s.declared_access(),
            Sys::Copy(s) => s.declared_access(),
        }
    }
    fn run(&self, world: &mut World<Comp, Res>) {
        match self {
            Sys::Inc(s) => s.run(world),
            Sys::Copy(s) => s.run(world),
        }
    }
}

fn counted_world() -> (World<Comp, Res>, usize, EntityId) {
    let mut reg = EntityRegistry::new();
    let mut world: World<Comp, Res> = World::new();
    let store = world.register_component();
    let e = reg.create().id;
    world.set_comp(store, e, Comp::Counter(0));
    (world, store, e)
}

#[test]
fn tick_count_matches_tick_calls() {
    // P-style scenario: after T ticks of a +1 system the counter equals
    // its initial value plus T, including T = 0.
    for ticks in [0usize, 1, 2, 7, 50] {
        let (mut world, store, e) = counted_world();
        let mut sched: Scheduler<Comp, Res, Increment> = Scheduler::new();
        sched.add(Increment { store, who: e }, "inc".to_string(), vec![]).unwrap();
        sched.compile().unwrap();
        for _ in 0..ticks {
            let _ = sched.run(&mut world);
        }
        assert_eq!(counter_of(world.get_comp(store, e).unwrap()), ticks as u64);
    }
}

#[test]
fn dependent_system_sees_same_tick_effects() {
    // A -> B: in every tick, B observes A's effect of that same tick.
    let mut reg = EntityRegistry::new();
    let mut world: World<Comp, Res> = World::new();
    let x = world.register_component();
    let y = world.register_component();
    let e = reg.create().id;
    world.set_comp(x, e, Comp::Counter(0));
    world.set_comp(y, e, Comp::Counter(0));

    let mut sched: Scheduler<Comp, Res, Sys> = Scheduler::new();
    sched
        .add(Sys::Copy(CopyOver { from: x, to: y, who: e }), "b".to_string(), vec!["a".to_string()])
        .unwrap();
    sched.add(Sys::Inc(Increment { store: x, who: e }), "a".to_string(), vec![]).unwrap();
    sched.compile().unwrap();
    for k in 1..=10u64 {
        let _ = sched.run(&mut world);
        assert_eq!(counter_of(world.get_comp(x, e).unwrap()), k);
        // B ran after A within the tick: it copied tick k's value, not k-1's
        assert_eq!(counter_of(world.get_comp(y, e).unwrap()), k);
    }
}

#[test]
fn conflicting_systems_both_run_exactly_once() {
    // two exclusive writers on one store are serialized within a tick,
    // and each still runs exactly once per tick
    let (mut world, store, e) = counted_world();
    let mut sched: Scheduler<Comp, Res, Increment> = Scheduler::new();
    sched.add(Increment { store, who: e }, "first".to_string(), vec![]).unwrap();
    sched.add(Increment { store, who: e }, "second".to_string(), vec![]).unwrap();
    sched.compile().unwrap();
    let _ = sched.run(&mut world);
    assert_eq!(counter_of(world.get_comp(store, e).unwrap()), 2);
    let _ = sched.run(&mut world);
    assert_eq!(counter_of(world.get_comp(store, e).unwrap()), 4);
}

#[test]
fn duplicate_name_is_rejected() {
    let (_world, store, e) = counted_world();
    let mut sched: Scheduler<Comp, Res, Increment> = Scheduler::new();
    sched.add(Increment { store, who: e }, "inc".to_string(), vec![]).unwrap();
    let r = sched.add(Increment { store, who: e }, "inc".to_string(), vec![]);
    assert_eq!(r, Err(CoreError::DuplicateName));
}

#[test]
fn self_conflicting_access_is_rejected() {
    let mut sched: Scheduler<Comp, Res, SelfConflicted> = Scheduler::new();
    let r = sched.add(SelfConflicted { store: 0 }, "bad".to_string(), vec![]);
    assert_eq!(r, Err(CoreError::ConflictingAccess));
}

#[test]
fn unknown_dependency_is_rejected() {
    let (_world, store, e) = counted_world();
    let mut sched: Scheduler<Comp, Res, Increment> = Scheduler::new();
    sched
        .add(Increment { store, who: e }, "inc".to_string(), vec!["missing".to_string()])
        .unwrap();
    assert_eq!(sched.compile(), Err(CoreError::UnknownDependency));
    assert!(!sched.compiled());
}

#[test]
fn cycle_is_rejected_before_any_tick() {
    // edges a -> b -> c -> a must fail compilation with a cycle error
    let (_world, store, e) = counted_world();
    let mut sched: Scheduler<Comp, Res, Increment> = Scheduler::new();
    sched.add(Increment { store, who: e }, "a".to_string(), vec!["c".to_string()]).unwrap();
    sched.add(Increment { store, who: e }, "b".to_string(), vec!["a".to_string()]).unwrap();
    sched.add(Increment { store, who: e }, "c".to_string(), vec!["b".to_string()]).unwrap();
    assert_eq!(sched.compile(), Err(CoreError::CyclicDependency));
    assert!(!sched.compiled());
}

#[test]
fn acyclic_graph_compiles() {
    let (_world, store, e) = counted_world();
    let mut sched: Scheduler<Comp, Res, Increment> = Scheduler::new();
    sched.add(Increment { store, who: e }, "a".to_string(), vec![]).unwrap();
    sched.add(Increment { store, who: e }, "b".to_string(), vec!["a".to_string()]).unwrap();
    sched.add(Increment { store, who: e }, "c".to_string(), vec!["a".to_string(), "b".to_string()]).unwrap();
    assert_eq!(sched.compile(), Ok(()));
    assert!(sched.compiled());
    assert_eq!(sched.system_count(), 3);
}
