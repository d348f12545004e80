use std::sync::Arc;
use gauzilla::scene::Scene;
use gauzilla::sorter::{Sorter, SorterState};

fn store(records: usize) -> Scene {
    let mut scene = Scene::new();
    scene.load_buffer(vec![0u8; 32 * records]).unwrap();
    scene
}

#[test]
fn first_view_is_sorted_and_cached_at_once() {
    let mut sorter = Sorter::new();
    assert_eq!(sorter.state, SorterState::Idle);
    assert_eq!(sorter.cached, None);
    assert!(sorter.receive(3, [1, 2, 3], true));
    assert_eq!(sorter.state, SorterState::Sorting);
    assert_eq!(sorter.cached, Some([1, 2, 3]));
    assert_eq!(sorter.pending, [1, 2, 3]);
}

#[test]
fn unchanged_view_is_skipped() {
    let scene = store(3);
    let mut sorter = Sorter::new();
    assert!(sorter.receive(3, [1, 2, 3], false));
    let order = Scene::sort2(&scene, &mut sorter, &vec![5, 7, 6]);
    assert_eq!(order, Some(vec![1, 2, 0]));
    assert_eq!(sorter.state, SorterState::Idle);
    assert_eq!(sorter.cached, Some([1, 2, 3]));
    // the same view again, found unchanged: nothing to do, nothing published
    assert!(!sorter.receive(3, [1, 2, 3], true));
    assert_eq!(sorter.state, SorterState::Idle);
    assert_eq!(sorter.cached, Some([1, 2, 3]));
    assert_eq!(Scene::sort2(&scene, &mut sorter, &vec![5, 7, 6]), None);
    assert!(!sorter.receive(3, [1, 2, 4], true));
    assert_eq!(sorter.cached, Some([1, 2, 3]));
}

#[test]
fn changed_view_is_sorted_and_then_cached() {
    let scene = store(2);
    let mut sorter = Sorter::new();
    assert!(sorter.receive(2, [1, 1, 1], false));
    assert_eq!(Scene::sort2(&scene, &mut sorter, &vec![0, 9]), Some(vec![1, 0]));
    assert!(sorter.receive(2, [2, 2, 2], false));
    assert_eq!(sorter.state, SorterState::Sorting);
    assert_eq!(sorter.cached, Some([1, 1, 1]));
    assert_eq!(sorter.pending, [2, 2, 2]);
    assert_eq!(Scene::sort2(&scene, &mut sorter, &vec![9, 0]), Some(vec![0, 1]));
    assert_eq!(sorter.state, SorterState::Idle);
    assert_eq!(sorter.cached, Some([2, 2, 2]));
}

#[test]
fn empty_store_is_never_sorted() {
    let scene = Scene::new();
    let mut sorter = Sorter::new();
    assert!(!sorter.receive(scene.splat_count(), [1, 2, 3], false));
    assert_eq!(sorter.state, SorterState::Idle);
    assert_eq!(sorter.cached, None);
    assert_eq!(Scene::sort2(&scene, &mut sorter, &Vec::new()), None);
    sorter.state = SorterState::Sorting;
    assert_eq!(Scene::sort2(&scene, &mut sorter, &Vec::new()), None);
    assert_eq!(sorter.state, SorterState::Sorting);
}

#[test]
fn depths_must_be_one_per_record() {
    let scene = store(3);
    let mut sorter = Sorter::new();
    assert!(sorter.receive(3, [1, 2, 3], false));
    assert_eq!(Scene::sort2(&scene, &mut sorter, &vec![1, 2]), None);
    assert_eq!(sorter.state, SorterState::Sorting);
    assert_eq!(Scene::sort2(&scene, &mut sorter, &vec![1, 2, 3]), Some(vec![2, 1, 0]));
}

#[test]
fn idle_sorter_publishes_nothing() {
    let scene = store(2);
    let mut sorter = Sorter::new();
    assert_eq!(Scene::sort2(&scene, &mut sorter, &vec![1, 2]), None);
    assert_eq!(sorter.cached, None);
}

#[test]
fn shared_store_sorts_alike() {
    let scene = Arc::new(store(4));
    let mut sorter = Sorter::new();
    assert!(sorter.receive(scene.splat_count(), [0, 0, 1], false));
    assert_eq!(Scene::sort(&scene, &mut sorter, &vec![3, 1, 4, 1]), Some(vec![2, 0, 3, 1]));
    assert_eq!(sorter.cached, Some([0, 0, 1]));
}
