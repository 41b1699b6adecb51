use simple_serialize::{DecodeError, SimpleSerializeVec};

type Nested = (Vec<usize>, Vec<u16>, Vec<Vec<u16>>);

type Deep = (Vec<usize>, (Vec<usize>, Vec<usize>, Vec<Vec<usize>>), Vec<Vec<Vec<usize>>>);

#[test]
fn nested_push_records_the_length_and_the_elements_last_to_first() {
    let mut stack: Nested = Default::default();
    stack.push(vec![1, 2, 3]);
    stack.push(vec![]);
    stack.push(vec![4, 5]);
    assert_eq!(stack.0, vec![3usize, 0, 2]);
    assert_eq!(stack.1, vec![3u16, 2, 1, 5, 4]);
    assert_eq!(stack.2, vec![Vec::<u16>::new(), vec![], vec![]]);
    assert_eq!(stack.len(), 3);
}

#[test]
fn nested_pop_gives_the_vectors_back_last_in_first_out() {
    let mut stack: Nested = Default::default();
    stack.push(vec![1, 2, 3]);
    stack.push(vec![]);
    stack.push(vec![4, 5]);
    assert_eq!(stack.pop(), Some(vec![4u16, 5]));
    assert_eq!(stack.len(), 2);
    assert_eq!(stack.pop(), Some(vec![]));
    assert_eq!(stack.pop(), Some(vec![1u16, 2, 3]));
    assert_eq!(stack.pop(), None);
    assert_eq!(stack.len(), 0);
    assert!(stack.0.is_empty());
    assert!(stack.1.is_empty());
}

#[test]
fn nested_pop_takes_its_vector_from_the_pool() {
    let mut stack: Nested = Default::default();
    stack.push(vec![1, 2, 3]);
    stack.push(vec![4]);
    assert_eq!(stack.2.len(), 2);
    assert_eq!(stack.pop(), Some(vec![4u16]));
    assert_eq!(stack.2.len(), 1);
    assert_eq!(stack.pop(), Some(vec![1u16, 2, 3]));
    assert_eq!(stack.2.len(), 0);
    assert_eq!(stack.pop(), None);
    assert_eq!(stack.2.len(), 0);
}

#[test]
fn nested_pop_works_with_an_empty_pool() {
    let mut stack: Nested = Default::default();
    stack.push(vec![7, 8]);
    let mut buffers: Vec<Vec<u8>> = Vec::new();
    stack.encode(&mut buffers);
    let mut other: Nested = Default::default();
    assert_eq!(other.decode(&mut buffers), Ok(()));
    assert!(other.2.is_empty());
    assert_eq!(other.pop(), Some(vec![7u16, 8]));
    assert_eq!(other.pop(), None);
}

#[test]
fn nested_encode_appends_lengths_and_then_elements() {
    let mut stack: Nested = Default::default();
    stack.push(vec![1, 2, 3]);
    stack.push(vec![0x0405]);
    let mut buffers: Vec<Vec<u8>> = vec![vec![0xaa]];
    stack.encode(&mut buffers);
    assert_eq!(
        buffers,
        vec![
            vec![0xaau8],
            vec![3, 0, 0, 0, 0, 0, 0, 0, 1, 0, 0, 0, 0, 0, 0, 0],
            vec![3, 0, 2, 0, 1, 0, 5, 4],
        ]
    );
    assert_eq!(stack.len(), 0);
    assert_eq!(stack.pop(), None);
}

#[test]
fn nested_decode_takes_elements_and_then_lengths() {
    let mut stack: Nested = Default::default();
    let mut buffers: Vec<Vec<u8>> = vec![
        vec![0xaa],
        vec![2, 0, 0, 0, 0, 0, 0, 0, 1, 0, 0, 0, 0, 0, 0, 0],
        vec![20, 0, 10, 0, 30, 0],
    ];
    assert_eq!(stack.decode(&mut buffers), Ok(()));
    assert_eq!(buffers, vec![vec![0xaau8]]);
    assert_eq!(stack.len(), 2);
    assert_eq!(stack.pop(), Some(vec![30u16]));
    assert_eq!(stack.pop(), Some(vec![10u16, 20]));
    assert_eq!(stack.pop(), None);
}

#[test]
fn nested_roundtrip_keeps_the_shape() {
    let long: Vec<usize> = vec![30, 31, 32, 32, 32, 32, 32, 32, 32, 32, 32, 32, 32, 32];
    assert_eq!(long.len(), 14);
    let mut stack: (Vec<usize>, Vec<usize>, Vec<Vec<usize>>) = Default::default();
    stack.push(vec![10, 20]);
    stack.push(long.clone());
    let mut buffers: Vec<Vec<u8>> = Vec::new();
    stack.encode(&mut buffers);
    assert_eq!(buffers.len(), 2);
    assert_eq!(stack.decode(&mut buffers), Ok(()));
    assert!(buffers.is_empty());
    assert_eq!(stack.pop(), Some(long));
    assert_eq!(stack.pop(), Some(vec![10usize, 20]));
    assert_eq!(stack.pop(), None);
}

#[test]
fn nested_decode_on_a_non_empty_container_fails_and_touches_nothing() {
    let mut stack: Nested = Default::default();
    stack.push(vec![1, 2]);
    let mut buffers: Vec<Vec<u8>> = vec![vec![0, 0, 0, 0, 0, 0, 0, 0], vec![]];
    assert_eq!(stack.decode(&mut buffers), Err(DecodeError::NonEmptyDecode));
    assert_eq!(buffers, vec![vec![0u8, 0, 0, 0, 0, 0, 0, 0], vec![]]);
    assert_eq!(stack.len(), 1);
    assert_eq!(stack.pop(), Some(vec![1u16, 2]));
}

#[test]
fn nested_decode_on_a_container_of_empty_vectors_fails_and_touches_nothing() {
    let mut stack: Nested = Default::default();
    stack.push(vec![]);
    stack.push(vec![]);
    assert!(stack.1.is_empty());
    let mut buffers: Vec<Vec<u8>> = vec![vec![1, 0, 0, 0, 0, 0, 0, 0], vec![5, 0]];
    assert_eq!(stack.decode(&mut buffers), Err(DecodeError::NonEmptyDecode));
    assert_eq!(buffers, vec![vec![1u8, 0, 0, 0, 0, 0, 0, 0], vec![5, 0]]);
    assert_eq!(stack.len(), 2);
    assert!(stack.1.is_empty());
    assert_eq!(stack.pop(), Some(vec![]));
    assert_eq!(stack.pop(), Some(vec![]));
    assert_eq!(stack.pop(), None);
}

#[test]
fn nested_decode_without_buffers_is_starved() {
    let mut stack: Nested = Default::default();
    let mut buffers: Vec<Vec<u8>> = Vec::new();
    assert_eq!(stack.decode(&mut buffers), Err(DecodeError::StarvedBuffer));
    assert_eq!(stack.len(), 0);
    assert!(buffers.is_empty());
}

#[test]
fn nested_decode_with_one_buffer_is_starved_and_leaves_the_container_empty() {
    let mut stack: Nested = Default::default();
    let mut buffers: Vec<Vec<u8>> = vec![vec![1, 0, 2, 0]];
    assert_eq!(stack.decode(&mut buffers), Err(DecodeError::StarvedBuffer));
    assert!(buffers.is_empty());
    assert_eq!(stack.len(), 0);
    assert!(stack.0.is_empty());
    assert!(stack.1.is_empty());
    assert_eq!(stack.pop(), None);

    let mut again: Vec<Vec<u8>> = vec![vec![1, 0, 0, 0, 0, 0, 0, 0], vec![9, 0]];
    assert_eq!(stack.decode(&mut again), Ok(()));
    assert_eq!(stack.pop(), Some(vec![9u16]));
}

#[test]
fn nested_decode_of_misaligned_elements_is_malformed() {
    let mut stack: Nested = Default::default();
    let mut buffers: Vec<Vec<u8>> = vec![vec![1, 0, 0, 0, 0, 0, 0, 0], vec![1, 0, 2]];
    assert_eq!(stack.decode(&mut buffers), Err(DecodeError::MalformedBuffer));
    assert_eq!(buffers, vec![vec![1u8, 0, 0, 0, 0, 0, 0, 0]]);
    assert_eq!(stack.len(), 0);
    assert_eq!(stack.pop(), None);
}

#[test]
fn nested_decode_of_misaligned_lengths_is_malformed_and_leaves_the_container_empty() {
    let mut stack: Nested = Default::default();
    let mut buffers: Vec<Vec<u8>> = vec![vec![1, 0, 0, 0, 0, 0, 0], vec![1, 0]];
    assert_eq!(stack.decode(&mut buffers), Err(DecodeError::MalformedBuffer));
    assert!(buffers.is_empty());
    assert_eq!(stack.len(), 0);
    assert!(stack.0.is_empty());
    assert!(stack.1.is_empty());
}

#[test]
fn nested_decode_of_lengths_that_ask_for_too_many_elements_is_a_shape_mismatch() {
    let mut stack: Nested = Default::default();
    let mut buffers: Vec<Vec<u8>> = vec![vec![3, 0, 0, 0, 0, 0, 0, 0], vec![1, 0, 2, 0]];
    assert_eq!(stack.decode(&mut buffers), Err(DecodeError::ShapeMismatch));
    assert!(buffers.is_empty());
    assert_eq!(stack.len(), 0);
    assert!(stack.0.is_empty());
    assert!(stack.1.is_empty());
    assert_eq!(stack.pop(), None);
}

#[test]
fn nested_decode_of_lengths_that_leave_elements_over_is_a_shape_mismatch() {
    let mut stack: Nested = Default::default();
    let mut buffers: Vec<Vec<u8>> = vec![vec![1, 0, 0, 0, 0, 0, 0, 0], vec![1, 0, 2, 0]];
    assert_eq!(stack.decode(&mut buffers), Err(DecodeError::ShapeMismatch));
    assert_eq!(stack.len(), 0);
    assert!(stack.0.is_empty());
    assert!(stack.1.is_empty());

    let mut none: Vec<Vec<u8>> = vec![vec![], vec![1, 0]];
    assert_eq!(stack.decode(&mut none), Err(DecodeError::ShapeMismatch));
    assert!(stack.1.is_empty());
}

#[test]
fn nested_decode_of_lengths_whose_sum_overflows_is_a_shape_mismatch() {
    let mut stack: Nested = Default::default();
    let max = vec![0xffu8; 8];
    let mut lengths = max.clone();
    lengths.extend_from_slice(&max);
    let mut buffers: Vec<Vec<u8>> = vec![lengths, vec![1, 0]];
    assert_eq!(stack.decode(&mut buffers), Err(DecodeError::ShapeMismatch));
    assert_eq!(stack.len(), 0);
}

#[test]
fn twice_nested_encode_appends_three_buffers_and_decode_takes_three() {
    let mut stack: Deep = Default::default();
    stack.push(vec![vec![1, 2], vec![3]]);
    stack.push(vec![]);
    stack.push(vec![vec![], vec![4, 5, 6]]);
    assert_eq!(stack.len(), 3);
    let mut buffers: Vec<Vec<u8>> = vec![vec![0xee], vec![0xdd]];
    stack.encode(&mut buffers);
    assert_eq!(buffers.len(), 5);
    assert_eq!(buffers[0], vec![0xeeu8]);
    assert_eq!(buffers[1], vec![0xddu8]);
    // how many vectors each record holds
    assert_eq!(buffers[2], vec![2u8, 0, 0, 0, 0, 0, 0, 0, 0, 0, 0, 0, 0, 0, 0, 0, 2, 0, 0, 0, 0, 0, 0, 0]);
    // how long each of those vectors is, last to first within a record
    assert_eq!(
        buffers[3],
        vec![
            1u8, 0, 0, 0, 0, 0, 0, 0, 2, 0, 0, 0, 0, 0, 0, 0,
            3, 0, 0, 0, 0, 0, 0, 0, 0, 0, 0, 0, 0, 0, 0, 0,
        ]
    );
    // the numbers themselves
    assert_eq!(
        buffers[4],
        vec![
            3u8, 0, 0, 0, 0, 0, 0, 0, 2, 0, 0, 0, 0, 0, 0, 0, 1, 0, 0, 0, 0, 0, 0, 0,
            6, 0, 0, 0, 0, 0, 0, 0, 5, 0, 0, 0, 0, 0, 0, 0, 4, 0, 0, 0, 0, 0, 0, 0,
        ]
    );
    assert_eq!(stack.len(), 0);

    assert_eq!(stack.decode(&mut buffers), Ok(()));
    assert_eq!(buffers, vec![vec![0xeeu8], vec![0xdd]]);
    assert_eq!(stack.pop(), Some(vec![vec![], vec![4usize, 5, 6]]));
    assert_eq!(stack.pop(), Some(vec![]));
    assert_eq!(stack.pop(), Some(vec![vec![1usize, 2], vec![3]]));
    assert_eq!(stack.pop(), None);
}

#[test]
fn twice_nested_decode_with_two_buffers_is_starved() {
    let mut stack: Deep = Default::default();
    let mut buffers: Vec<Vec<u8>> = vec![vec![1, 0, 0, 0, 0, 0, 0, 0], vec![7, 0, 0, 0, 0, 0, 0, 0]];
    assert_eq!(stack.decode(&mut buffers), Err(DecodeError::StarvedBuffer));
    assert!(buffers.is_empty());
    assert_eq!(stack.len(), 0);
    assert_eq!(stack.pop(), None);
}

#[test]
fn twice_nested_decode_checks_the_inner_shape() {
    let mut stack: Deep = Default::default();
    let mut buffers: Vec<Vec<u8>> = vec![
        vec![1, 0, 0, 0, 0, 0, 0, 0],
        vec![2, 0, 0, 0, 0, 0, 0, 0],
        vec![7, 0, 0, 0, 0, 0, 0, 0],
    ];
    assert_eq!(stack.decode(&mut buffers), Err(DecodeError::ShapeMismatch));
    assert_eq!(buffers, vec![vec![1u8, 0, 0, 0, 0, 0, 0, 0]]);
    assert_eq!(stack.len(), 0);
}

#[test]
fn nested_containers_mix_pushes_and_pops() {
    let mut stack: Nested = Default::default();
    stack.push(vec![1]);
    stack.push(vec![2, 3]);
    assert_eq!(stack.pop(), Some(vec![2u16, 3]));
    stack.push(vec![4, 5, 6]);
    stack.push(vec![]);
    assert_eq!(stack.pop(), Some(vec![]));
    assert_eq!(stack.pop(), Some(vec![4u16, 5, 6]));
    stack.push(vec![7]);
    let mut buffers: Vec<Vec<u8>> = Vec::new();
    stack.encode(&mut buffers);
    assert_eq!(stack.decode(&mut buffers), Ok(()));
    assert_eq!(stack.pop(), Some(vec![7u16]));
    assert_eq!(stack.pop(), Some(vec![1u16]));
    assert_eq!(stack.pop(), None);
}
