use uringy::circular_buffer::CircularBuffer;
use uringy::circular_buffer::calculate_length;
use uringy::circular_buffer::circular_buffer;

fn fill_and_commit(cb: &mut CircularBuffer, bytes: &[u8]) {
    cb.copy_into_uninit(bytes);
    cb.commit(bytes.len());
}

#[test]
fn starts_uninitialized() {
    let cb = circular_buffer(4096).unwrap();

    assert!(cb.data_is_empty());
    assert_eq!(cb.uninit_len(), 4096);
}

#[test]
fn rounds_up_length_to_nearest_page_size() {
    let cb = circular_buffer(1).unwrap();

    assert!(cb.uninit_len() > 1);
    assert!(cb.uninit_len().is_power_of_two());
}

#[test]
fn commits_uninit() {
    let mut cb = circular_buffer(4096).unwrap();

    fill_and_commit(&mut cb, b"hi");

    assert_eq!(cb.data_to_vec(), b"hi".to_vec());
    assert_eq!(cb.uninit_len(), 4096 - 2);
}

#[test]
fn consumes_data() {
    let mut cb = circular_buffer(4096).unwrap();
    fill_and_commit(&mut cb, b"hi");

    assert_eq!(cb.read_data(0), b'h');
    cb.consume(1);

    assert_eq!(cb.data_to_vec(), b"i".to_vec());
    assert_eq!(cb.uninit_len(), 4096 - 1);
}

#[test]
fn data_spans_across_boundary() {
    let mut cb = circular_buffer(4096).unwrap();
    let almost = cb.uninit_len() - 1;
    cb.commit(almost);
    cb.consume(cb.data_len());

    fill_and_commit(&mut cb, b"hi");

    assert_eq!(cb.data_to_vec(), b"hi".to_vec());
}

#[test]
fn uninit_spans_across_boundary() {
    let mut cb = circular_buffer(4096).unwrap();

    cb.commit(42);
    cb.consume(42);

    assert_eq!(cb.uninit_len(), 4096);
}

#[test]
fn data_and_uninit_partition_the_ring() {
    let mut cb = circular_buffer(4096).unwrap();
    assert_eq!(cb.data_len() + cb.uninit_len(), 4096);

    fill_and_commit(&mut cb, b"abcdef");
    assert_eq!(cb.data_len() + cb.uninit_len(), 4096);

    cb.consume(3);
    assert_eq!(cb.data_len() + cb.uninit_len(), 4096);
}

#[test]
fn committed_bytes_come_back_in_order_after_wrap() {
    let mut cb = circular_buffer(1).unwrap();
    let length = cb.uninit_len();

    // Walk the head close to the end of the block, then wrap.
    cb.commit(length - 1);
    cb.consume(length - 1);
    fill_and_commit(&mut cb, b"wrap!");

    assert_eq!(cb.data_to_vec(), b"wrap!".to_vec());
    cb.consume(2);
    assert_eq!(cb.data_to_vec(), b"ap!".to_vec());
}

#[test]
fn calculate_length_picks_least_fitting_power_of_two() {
    assert_eq!(calculate_length(0), Some(4096));
    assert_eq!(calculate_length(1), Some(4096));
    assert_eq!(calculate_length(4096), Some(4096));
    assert_eq!(calculate_length(4097), Some(8192));
    assert_eq!(calculate_length(100_000), Some(131_072));
}
