use resourcetrack::new_registry;

#[derive(Clone, Debug, PartialEq, Eq)]
enum Kind {
    Connections,
    Buffers,
}

#[test]
fn count_is_number_of_live_guards() {
    let mut registry = new_registry::<Kind>();
    let tracker = registry.category(Kind::Connections);
    let a = tracker.track(&mut registry);
    let b = tracker.track(&mut registry);
    let c = tracker.track(&mut registry);
    assert_eq!(vec![(Kind::Connections, 3)], registry.read_counts());
    b.release(&mut registry);
    assert_eq!(vec![(Kind::Connections, 2)], registry.read_counts());
    a.release(&mut registry);
    c.release(&mut registry);
    assert_eq!(vec![(Kind::Connections, 0)], registry.read_counts());
}

#[test]
fn unreferenced_categories_are_absent() {
    let mut registry = new_registry::<Kind>();
    let _ = registry.category(Kind::Buffers);
    assert_eq!(vec![(Kind::Buffers, 0)], registry.read_counts());
}

#[test]
fn categories_listed_in_order_of_creation() {
    let mut registry = new_registry::<Kind>();
    let buffers = registry.category(Kind::Buffers);
    let connections = registry.category(Kind::Connections);
    let size = buffers.track_size(&mut registry, 10);
    let count = connections.track(&mut registry);
    assert_eq!(
        vec![(Kind::Buffers, 10), (Kind::Connections, 1)],
        registry.read_counts()
    );
    size.release(&mut registry);
    count.release(&mut registry);
    assert_eq!(
        vec![(Kind::Buffers, 0), (Kind::Connections, 0)],
        registry.read_counts()
    );
}

#[test]
fn equal_ids_share_one_category() {
    let mut registry = new_registry::<String>();
    let first = registry.category(String::from("per-user"));
    let second = registry.category(["per", "-user"].concat());
    let g1 = first.track(&mut registry);
    let g2 = second.track(&mut registry);
    assert_eq!(vec![(String::from("per-user"), 2)], registry.read_counts());
    g1.release(&mut registry);
    g2.release(&mut registry);
    assert_eq!(vec![(String::from("per-user"), 0)], registry.read_counts());
}

#[test]
fn reading_twice_gives_same_snapshot() {
    let mut registry = new_registry::<Kind>();
    let tracker = registry.category(Kind::Buffers);
    let mut size = tracker.track_size(&mut registry, 3);
    size.add(&mut registry, 2);
    let first = registry.read_counts();
    let second = registry.read_counts();
    assert_eq!(first, second);
    assert_eq!(vec![(Kind::Buffers, 5)], first);
}

#[test]
fn add_then_release_returns_to_zero() {
    let mut registry = new_registry::<Kind>();
    let tracker = registry.category(Kind::Buffers);
    let mut size = tracker.track_size(&mut registry, 4);
    size.add(&mut registry, 3);
    assert_eq!(vec![(Kind::Buffers, 7)], registry.read_counts());
    size.release(&mut registry);
    assert_eq!(vec![(Kind::Buffers, 0)], registry.read_counts());
}

#[test]
fn subtract_clamps_and_release_keeps_zero() {
    let mut registry = new_registry::<Kind>();
    let tracker = registry.category(Kind::Buffers);
    let other = tracker.track_size(&mut registry, 6);
    let mut size = tracker.track_size(&mut registry, 4);
    size.subtract(&mut registry, 5);
    assert_eq!(vec![(Kind::Buffers, 6)], registry.read_counts());
    size.release(&mut registry);
    assert_eq!(vec![(Kind::Buffers, 6)], registry.read_counts());
    other.release(&mut registry);
    assert_eq!(vec![(Kind::Buffers, 0)], registry.read_counts());
}

#[test]
fn set_up_down_and_release() {
    let mut registry = new_registry::<Kind>();
    let tracker = registry.category(Kind::Buffers);
    let mut size = tracker.track_size(&mut registry, 4);
    size.set(&mut registry, 5);
    assert_eq!(vec![(Kind::Buffers, 5)], registry.read_counts());
    size.set(&mut registry, 1);
    assert_eq!(vec![(Kind::Buffers, 1)], registry.read_counts());
    size.set(&mut registry, 1);
    assert_eq!(vec![(Kind::Buffers, 1)], registry.read_counts());
    size.release(&mut registry);
    assert_eq!(vec![(Kind::Buffers, 0)], registry.read_counts());
}

#[test]
fn sizes_and_counts_mix_in_one_category() {
    let mut registry = new_registry::<Kind>();
    let tracker = registry.category(Kind::Buffers);
    let count = tracker.track(&mut registry);
    let mut size = tracker.track_size(&mut registry, 0);
    size.add(&mut registry, 5);
    assert_eq!(vec![(Kind::Buffers, 6)], registry.read_counts());
    size.subtract(&mut registry, 1);
    assert_eq!(vec![(Kind::Buffers, 5)], registry.read_counts());
    count.release(&mut registry);
    assert_eq!(vec![(Kind::Buffers, 4)], registry.read_counts());
    size.release(&mut registry);
    assert_eq!(vec![(Kind::Buffers, 0)], registry.read_counts());
}

#[test]
fn category_total_reads_one_counter() {
    let mut registry = new_registry::<Kind>();
    let tracker = registry.category(Kind::Connections);
    let g = tracker.track(&mut registry);
    assert_eq!(1, registry.get(&tracker).total());
    g.release(&mut registry);
    assert_eq!(0, registry.get(&tracker).total());
}

#[test]
fn largest_size_fits() {
    let mut registry = new_registry::<Kind>();
    let tracker = registry.category(Kind::Buffers);
    let mut size = tracker.track_size(&mut registry, usize::MAX - 1);
    size.add(&mut registry, 1);
    assert_eq!(vec![(Kind::Buffers, usize::MAX)], registry.read_counts());
    size.subtract(&mut registry, usize::MAX);
    assert_eq!(vec![(Kind::Buffers, 0)], registry.read_counts());
    size.release(&mut registry);
}
