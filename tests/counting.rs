use std::sync::Arc;

use resourcetrack::new_registry;

#[derive(Clone, Debug, PartialEq, Eq, Hash)]
enum Categories {
    Miscellaneous,
    SpecificOne,
}

type CountsVec = Vec<(Categories, usize)>;

#[test]
fn count_follows_counters() {
    let mut registry = new_registry::<Categories>();

    assert_eq!(CountsVec::new(), registry.read_counts());

    let miscellaneous_tracker = registry.category(Categories::Miscellaneous);
    assert_eq!(vec![(Categories::Miscellaneous, 0)], registry.read_counts());

    {
        let counter = miscellaneous_tracker.track(&mut registry);
        assert_eq!(vec![(Categories::Miscellaneous, 1)], registry.read_counts());
        counter.release(&mut registry);
    }
    assert_eq!(vec![(Categories::Miscellaneous, 0)], registry.read_counts());
}

#[test]
fn count_does_not_reset_on_read() {
    let mut registry = new_registry::<Categories>();
    let category_tracker = registry.category(Categories::SpecificOne);

    let _counter = category_tracker.track(&mut registry);
    assert_eq!(vec![(Categories::SpecificOne, 1)], registry.read_counts());
    assert_eq!(vec![(Categories::SpecificOne, 1)], registry.read_counts());
}

#[test]
fn static_string_registry() {
    let mut registry = new_registry::<&'static str>();
    let category_tracker = registry.category("plain string category");

    let _counter = category_tracker.track(&mut registry);
    assert_eq!(vec![("plain string category", 1)], registry.read_counts());
}

#[test]
fn string_registry() {
    let mut registry = new_registry::<Arc<String>>();
    let category_tracker = registry.category(Arc::new("dynamic".into()));

    let _counter = category_tracker.track(&mut registry);
    assert_eq!(vec![(Arc::new("dynamic".into()), 1)], registry.read_counts());
}

#[test]
fn add() {
    let mut registry = new_registry::<Categories>();
    let category_tracker = registry.category(Categories::SpecificOne);

    {
        let mut size = category_tracker.track_size(&mut registry, 4);
        assert_eq!(vec![(Categories::SpecificOne, 4)], registry.read_counts());

        size.add(&mut registry, 3);

        assert_eq!(vec![(Categories::SpecificOne, 7)], registry.read_counts());
        size.release(&mut registry);
    }
    assert_eq!(vec![(Categories::SpecificOne, 0)], registry.read_counts());
}

#[test]
fn subtract() {
    let mut registry = new_registry::<Categories>();
    let category_tracker = registry.category(Categories::SpecificOne);

    {
        let mut size = category_tracker.track_size(&mut registry, 4);

        size.subtract(&mut registry, 2);

        assert_eq!(vec![(Categories::SpecificOne, 2)], registry.read_counts());
        size.release(&mut registry);
    }
    assert_eq!(vec![(Categories::SpecificOne, 0)], registry.read_counts());
}

#[test]
fn subtract_does_not_wrap() {
    let mut registry = new_registry::<Categories>();
    let category_tracker = registry.category(Categories::SpecificOne);

    {
        let mut size = category_tracker.track_size(&mut registry, 4);

        size.subtract(&mut registry, 5);

        assert_eq!(vec![(Categories::SpecificOne, 0)], registry.read_counts());
        size.release(&mut registry);
    }
    assert_eq!(vec![(Categories::SpecificOne, 0)], registry.read_counts());
}

#[test]
fn size_set() {
    let mut registry = new_registry::<Categories>();
    let category_tracker = registry.category(Categories::SpecificOne);

    {
        let mut size = category_tracker.track_size(&mut registry, 4);

        size.set(&mut registry, 5);
        assert_eq!(vec![(Categories::SpecificOne, 5)], registry.read_counts());

        size.set(&mut registry, 1);
        assert_eq!(vec![(Categories::SpecificOne, 1)], registry.read_counts());
        size.release(&mut registry);
    }
    assert_eq!(vec![(Categories::SpecificOne, 0)], registry.read_counts());
}
