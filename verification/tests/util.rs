use ether::util::{mod_add, mod_inc};

#[test]
fn modular_increment() {
    assert_eq!(1, mod_inc(0, 3));
    assert_eq!(2, mod_inc(1, 3));
    assert_eq!(0, mod_inc(2, 3));
    assert_eq!(0, mod_inc(0, 1));
    // Outside the ring the successor wraps to zero.
    assert_eq!(0, mod_inc(7, 3));
    assert_eq!(0, mod_inc(0, 0));
    for i in 0..5 {
        assert_eq!((i + 1) % 5, mod_inc(i, 5));
    }
}

#[test]
fn modular_addition() {
    assert_eq!(1, mod_add(2, 2, 3));
    assert_eq!(0, mod_add(0, 0, 1));
    assert_eq!(4, mod_add(2, 2, 5));
    assert_eq!(2, mod_add(10, 10, 3));
    assert_eq!(0, mod_add(usize::MAX, 0, usize::MAX));
    for i in 0..7 {
        for j in 0..7 {
            assert_eq!((i + j) % 7, mod_add(i, j, 7));
        }
    }
}
