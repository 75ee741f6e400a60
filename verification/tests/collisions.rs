use particle_sim::collisions::{mark_absorbers, merge_pairs, retain_unmarked};
use particle_sim::flags::ObjectFlags;

fn table(n: usize, edges: &[(usize, usize)]) -> Vec<Vec<bool>> {
    let mut t = vec![vec![false; n]; n];
    for &(i, j) in edges {
        t[i][j] = true;
    }
    t
}

#[test]
fn pairs_are_ordered_and_skip_self_and_marked() {
    let mut flags = vec![ObjectFlags::empty(); 4];
    flags[2] = ObjectFlags::remove_next();
    let t = table(4, &[(3, 0), (0, 3), (0, 1), (1, 1), (2, 0), (3, 1)]);
    let pairs = merge_pairs(&flags, &t);
    assert_eq!(pairs, vec![(0, 1), (0, 3), (3, 0), (3, 1)]);
}

#[test]
fn no_touching_gives_no_pairs() {
    let flags = vec![ObjectFlags::empty(); 3];
    let t = table(3, &[(0, 0), (1, 1), (2, 2)]);
    assert!(merge_pairs(&flags, &t).is_empty());
    let none: Vec<ObjectFlags> = Vec::new();
    assert!(merge_pairs(&none, &Vec::new()).is_empty());
}

#[test]
fn absorbers_are_marked_others_kept() {
    let mut flags = vec![
        ObjectFlags::from_bits_retain(0b100),
        ObjectFlags::empty(),
        ObjectFlags::empty(),
    ];
    mark_absorbers(&mut flags, &vec![(0, 1), (0, 2), (2, 1)]);
    assert_eq!(flags[0].bits(), 0b101);
    assert_eq!(flags[1].bits(), 0);
    assert_eq!(flags[2].bits(), 1);
}

#[test]
fn retain_keeps_unmarked_in_order() {
    let objects = vec!['a', 'b', 'c', 'd'];
    let flags = vec![
        ObjectFlags::empty(),
        ObjectFlags::remove_next(),
        ObjectFlags::from_bits_retain(0b10),
        ObjectFlags::from_bits_retain(0b11),
    ];
    assert_eq!(retain_unmarked(&objects, &flags), vec!['a', 'c']);
}

#[test]
fn nothing_marked_keeps_everything() {
    let objects = vec![1u32, 2, 3];
    let flags = vec![ObjectFlags::empty(); 3];
    assert_eq!(retain_unmarked(&objects, &flags), objects);
}

#[test]
fn a_whole_tick_removes_absorbers_and_marked_objects() {
    // 0 touches 1, 1 is already marked, 2 touches nothing, 3 touches 2.
    let objects = vec!["zero", "one", "two", "three"];
    let mut flags = vec![ObjectFlags::empty(); 4];
    flags[1] = ObjectFlags::remove_next();
    let t = table(4, &[(0, 1), (1, 0), (3, 2)]);
    let pairs = merge_pairs(&flags, &t);
    assert_eq!(pairs, vec![(0, 1), (3, 2)]);
    mark_absorbers(&mut flags, &pairs);
    assert_eq!(retain_unmarked(&objects, &flags), vec!["two"]);
}
