use zopra::utils::arena::{Arena, Id};

#[test]
fn new_arena_resolves_nothing() {
    let arena: Arena<u32> = Arena::new();
    assert_eq!(arena.get(Id { index: 0, generation: 0 }), None);
}

#[test]
fn insert_then_get_returns_the_value() {
    let mut arena = Arena::new();
    let a = arena.insert("a");
    let b = arena.insert("b");
    assert_eq!(a, Id { index: 0, generation: 0 });
    assert_eq!(b, Id { index: 1, generation: 0 });
    assert_eq!(arena.get(a), Some(&"a"));
    assert_eq!(arena.get(b), Some(&"b"));
}

#[test]
fn get_mut_writes_only_the_addressed_value() {
    let mut arena = Arena::new();
    let a = arena.insert(1u32);
    let b = arena.insert(2u32);
    *arena.get_mut(a).unwrap() = 10;
    assert_eq!(arena.get(a), Some(&10));
    assert_eq!(arena.get(b), Some(&2));
    assert!(arena.get_mut(Id { index: 5, generation: 0 }).is_none());
}

#[test]
fn remove_returns_the_value_once() {
    let mut arena = Arena::new();
    let a = arena.insert(String::from("x"));
    assert_eq!(arena.remove(a), Some(String::from("x")));
    assert_eq!(arena.get(a), None);
    assert_eq!(arena.remove(a), None);
}

#[test]
fn removed_slot_is_reused_under_the_next_generation() {
    let mut arena = Arena::new();
    let a = arena.insert(1u8);
    let _b = arena.insert(2u8);
    arena.remove(a);
    let c = arena.insert(3u8);
    assert_eq!(c, Id { index: 0, generation: 1 });
    assert_ne!(c, a);
    assert_eq!(arena.get(a), None);
    assert_eq!(arena.get(c), Some(&3));
}

#[test]
fn slots_are_reused_last_freed_first() {
    let mut arena = Arena::new();
    let a = arena.insert(1u8);
    let b = arena.insert(2u8);
    let c = arena.insert(3u8);
    arena.remove(a);
    arena.remove(c);
    assert_eq!(arena.insert(4u8), Id { index: 2, generation: 1 });
    assert_eq!(arena.insert(5u8), Id { index: 0, generation: 1 });
    assert_eq!(arena.insert(6u8), Id { index: 3, generation: 0 });
    assert_eq!(arena.get(b), Some(&2));
}

#[test]
fn stale_handle_stays_dead_after_reinsertion() {
    let mut arena = Arena::new();
    let a = arena.insert(7i64);
    arena.remove(a);
    let _ = arena.insert(8i64);
    let _ = arena.insert(9i64);
    assert_eq!(arena.get(a), None);
    assert!(arena.get_mut(a).is_none());
}

#[test]
fn handle_with_wrong_generation_or_index_misses() {
    let mut arena = Arena::new();
    let a = arena.insert(1u16);
    assert_eq!(arena.get(Id { index: a.index, generation: 3 }), None);
    assert_eq!(arena.get(Id { index: 9, generation: 0 }), None);
    assert_eq!(arena.remove(Id { index: a.index, generation: 3 }), None);
    assert_eq!(arena.get(a), Some(&1));
}

#[test]
fn remove_undoes_insert() {
    let mut arena = Arena::new();
    let a = arena.insert('a');
    let b = arena.insert('b');
    assert_eq!(arena.remove(b), Some('b'));
    assert_eq!(arena.get(a), Some(&'a'));
    assert_eq!(arena.get(b), None);
}
