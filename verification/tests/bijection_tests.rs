use snake_game::{Bijection, Point};

#[test]
fn empty_bijection_has_no_members() {
    let b = Bijection::new();
    assert_eq!(b.len(), 0);
    assert!(!b.contains(Point { x: 0, y: 0 }));
}

#[test]
fn insert_makes_member() {
    let mut b = Bijection::new();
    b.insert(Point { x: 3, y: 4 });
    b.insert(Point { x: 5, y: 6 });
    assert_eq!(b.len(), 2);
    assert!(b.contains(Point { x: 3, y: 4 }));
    assert!(b.contains(Point { x: 5, y: 6 }));
    assert!(!b.contains(Point { x: 4, y: 3 }));
}

#[test]
fn remove_elem_removes_only_that_member() {
    let mut b = Bijection::new();
    let ps = [
        Point { x: 0, y: 0 },
        Point { x: 1, y: 0 },
        Point { x: 0, y: 1 },
        Point { x: 7, y: 9 },
    ];
    for p in ps {
        b.insert(p);
    }
    b.remove_elem(&Point { x: 1, y: 0 });
    assert_eq!(b.len(), 3);
    assert!(!b.contains(Point { x: 1, y: 0 }));
    assert!(b.contains(Point { x: 0, y: 0 }));
    assert!(b.contains(Point { x: 0, y: 1 }));
    assert!(b.contains(Point { x: 7, y: 9 }));
}

#[test]
fn remove_last_inserted_member() {
    let mut b = Bijection::new();
    b.insert(Point { x: 2, y: 2 });
    b.insert(Point { x: 3, y: 3 });
    b.remove_elem(&Point { x: 3, y: 3 });
    assert_eq!(b.len(), 1);
    assert!(b.contains(Point { x: 2, y: 2 }));
    assert!(!b.contains(Point { x: 3, y: 3 }));
}

#[test]
fn negative_coordinates_are_distinct_members() {
    let mut b = Bijection::new();
    b.insert(Point { x: -1, y: 0 });
    b.insert(Point { x: 0, y: -1 });
    assert!(b.contains(Point { x: -1, y: 0 }));
    assert!(b.contains(Point { x: 0, y: -1 }));
    assert!(!b.contains(Point { x: -1, y: -1 }));
    b.remove_elem(&Point { x: -1, y: 0 });
    assert!(!b.contains(Point { x: -1, y: 0 }));
    assert!(b.contains(Point { x: 0, y: -1 }));
}

#[test]
fn pop_random_on_singleton_returns_it() {
    let mut b = Bijection::new();
    b.insert(Point { x: 11, y: 5 });
    let p = b.pop_random();
    assert_eq!(p, Point { x: 11, y: 5 });
    assert_eq!(b.len(), 0);
}

#[test]
fn pop_random_returns_a_member_and_shrinks() {
    let mut b = Bijection::new();
    let ps = [
        Point { x: 0, y: 0 },
        Point { x: 1, y: 1 },
        Point { x: 2, y: 2 },
    ];
    for p in ps {
        b.insert(p);
    }
    let got = b.pop_random();
    assert!(ps.contains(&got));
    assert_eq!(b.len(), 2);
    assert!(!b.contains(got));
}

#[test]
fn point_add_offsets_componentwise() {
    let p = Point { x: 2, y: 1 }.add(Point { x: 0, y: 1 });
    assert_eq!(p, Point { x: 2, y: 2 });
    let q = Point { x: 0, y: 0 }.add(Point { x: -1, y: 0 });
    assert_eq!(q, Point { x: -1, y: 0 });
}
