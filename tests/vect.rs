use underscore::Vect;

#[test]
fn test_vec_last() {
    let __ = Vect;
    let vec_int = vec!(1isize, 2isize, 3isize);
    let last_int = __.last(&vec_int);
    let vec_str = vec!("aa", "bb", "cc");
    let last_str = __.last(&vec_str);

    assert_eq!(3isize, *last_int);
    assert_eq!("cc", *last_str);
}

#[test]
fn test_vec_initial() {
    let __ = Vect;

    let vec_int = vec!(1isize, 1isize, 2isize);
    let initial_vec = __.initial(&vec_int, 2usize);
    for x in initial_vec.iter() {
        assert_eq!(1isize, **x);
    }

    let vec_str = vec!("aa", "aa", "bb");
    let initial_vec_str = __.initial(&vec_str, 2usize);
    for x in initial_vec_str.iter() {
        assert_eq!("aa", **x);
    }
}

#[test]
fn test_vec_rest() {
    let __ = Vect;

    let vec_int = vec!(1isize, 2isize, 3isize, 3isize);
    let rest_vec = __.rest(&vec_int, 2usize);
    for x in rest_vec.iter() {
        assert_eq!(3isize, **x);
    }

    let vec_str = vec!("aa", "bb", "cc", "cc");
    let rest_str = __.rest(&vec_str, 2usize);
    for x in rest_str.iter() {
        assert_eq!("cc", **x);
    }
}
