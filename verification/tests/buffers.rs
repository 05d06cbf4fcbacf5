use asml_runtime::buffers::{FunctionInputBuffer, FUNCTION_INPUT_BUFFER_SIZE};

const W: usize = FUNCTION_INPUT_BUFFER_SIZE;

fn patterned(n: usize) -> Vec<u8> {
    (0..n).map(|i| (i % 251) as u8).collect()
}

#[test]
fn chunks_reproduce_input_exactly() {
    let input = patterned(2 * W + 3616);
    let mut fib = FunctionInputBuffer::new();
    fib.set_buffer(input.clone());
    assert_eq!(fib.len(), input.len());

    let mut window = vec![0u8; W];
    let mut replayed: Vec<u8> = Vec::new();

    assert_eq!(fib.start(&mut window), 0);
    replayed.extend_from_slice(&window[..W]);
    assert_eq!(fib.next(&mut window), 0);
    replayed.extend_from_slice(&window[..W]);
    assert_eq!(fib.next(&mut window), 0);
    replayed.extend_from_slice(&window[..3616]);

    assert_eq!(replayed, input);

    // All but the final chunk were exactly one window long; the final call
    // overwrote only the final chunk's bytes, the tail of the window still
    // holds the previous chunk's bytes.
    assert_eq!(&window[3616..], &input[W + 3616..2 * W]);
}

#[test]
fn next_past_the_end_is_a_no_op() {
    let input = patterned(W + 10);
    let mut fib = FunctionInputBuffer::new();
    fib.set_buffer(input.clone());

    let mut window = vec![0u8; W];
    fib.start(&mut window);
    fib.next(&mut window);
    let after_last = window.clone();

    fib.next(&mut window);
    fib.next(&mut window);
    assert_eq!(window, after_last);
}

#[test]
fn input_shorter_than_one_window() {
    let input = b"tiny payload".to_vec();
    let mut fib = FunctionInputBuffer::new();
    fib.set_buffer(input.clone());
    assert_eq!(fib.len(), 12);

    let mut window = vec![0xAAu8; W];
    fib.start(&mut window);
    assert_eq!(&window[..12], &input[..]);
    // Bytes past the written chunk are untouched.
    assert!(window[12..].iter().all(|&b| b == 0xAA));

    // Nothing remains beyond one window: next must not touch the window.
    fib.next(&mut window);
    assert_eq!(&window[..12], &input[..]);
    assert!(window[12..].iter().all(|&b| b == 0xAA));
}

#[test]
fn input_of_exactly_one_window() {
    let input = patterned(W);
    let mut fib = FunctionInputBuffer::new();
    fib.set_buffer(input.clone());

    let mut window = vec![0u8; W];
    fib.start(&mut window);
    assert_eq!(window, input);

    fib.next(&mut window);
    assert_eq!(window, input);
}

#[test]
fn empty_input_writes_nothing() {
    let mut fib = FunctionInputBuffer::new();
    assert_eq!(fib.len(), 0);

    let mut window = vec![7u8; W];
    fib.start(&mut window);
    assert!(window.iter().all(|&b| b == 7));
    fib.next(&mut window);
    assert!(window.iter().all(|&b| b == 7));
}

#[test]
fn set_buffer_rewinds_the_cursor() {
    let first = patterned(3 * W);
    let mut fib = FunctionInputBuffer::new();
    fib.set_buffer(first.clone());

    let mut window = vec![0u8; W];
    fib.start(&mut window);
    fib.next(&mut window);

    let second = b"second payload".to_vec();
    fib.set_buffer(second.clone());
    assert_eq!(fib.len(), second.len());
    fib.start(&mut window);
    assert_eq!(&window[..second.len()], &second[..]);
}
