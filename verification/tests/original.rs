use simple_serialize::_test_simpleser;
use simple_serialize::{SimpleSerialize, SimpleSerializeVec};

// Records come back in the opposite order of their making: the record popped
// at `index` is the one made for `number - index - 1`.
fn expect_reversed<T: PartialEq, F: Fn(usize) -> T>(number: usize, element: F, popped: Vec<T>) {
    let mut popped = popped.into_iter();
    for index in 0..number {
        if let Some(record) = popped.next() {
            if record.ne(&element(number - index - 1)) {
                panic!("un-equal elements found");
            }
        } else {
            panic!("Too few elements pop()d.");
        }
    }
    assert!(popped.next().is_none());
}

fn bounced<T: SimpleSerialize<R> + Eq + PartialEq, R: SimpleSerializeVec<T>, F: Fn(usize) -> T>(
    number: usize,
    element: F,
) {
    let popped = _test_simpleser::<T, R, _>(number, &element);
    expect_reversed(number, &element, popped);
}

#[test]
fn test_uint() {
    bounced::<usize, Vec<usize>, _>(1024, |i| i);
}

#[test]
fn test_uint_uint_uint() {
    bounced::<(usize, (usize, usize)), Vec<(usize, (usize, usize))>, _>(1024, |i| {
        (i, (i + 1, i.wrapping_sub(1)))
    });
}

#[test]
fn test_vec_vec_uint() {
    bounced::<
        Vec<Vec<usize>>,
        (Vec<usize>, (Vec<usize>, Vec<usize>, Vec<Vec<usize>>), Vec<Vec<Vec<usize>>>),
        _,
    >(128, |_| vec![vec![0usize, 1usize], vec![1, 2, 1, 2, 1, 2, 1, 2, 1, 2, 1, 2, 1, 2]]);
}

#[test]
fn test_option_uint() {
    bounced::<Option<usize>, Vec<Option<usize>>, _>(1024, |i| if i % 2 == 0 { Some(i) } else { None });
}
