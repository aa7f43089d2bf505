use meridian::compute::{ComputeBuffer, DispatchSize};

#[test]
fn buffer_zeroed_has_requested_length_and_zero_bytes() {
    let buf = ComputeBuffer::zeroed(16);
    assert_eq!(buf.len(), 16);
    assert!(buf.as_slice().iter().all(|&b| b == 0));
}

#[test]
fn buffer_mut_slice_writes_are_visible() {
    let mut buf = ComputeBuffer::zeroed(4);
    buf.as_mut_slice()[2] = 42;
    assert_eq!(buf.as_slice(), &[0, 0, 42, 0]);
}

#[test]
fn dispatch_size_linear_and_total() {
    let size = DispatchSize::linear(42);
    assert_eq!(size.x, 42);
    assert_eq!(size.y, 1);
    assert_eq!(size.z, 1);
    assert_eq!(size.total(), 42);
}

#[test]
fn buffer_from_bytes_keeps_them() {
    let buf = ComputeBuffer::from_bytes(vec![1, 2, 3]);
    assert_eq!(buf.len(), 3);
    assert!(!buf.is_empty());
    assert_eq!(buf.as_slice(), &[1, 2, 3]);
    assert!(ComputeBuffer::zeroed(0).is_empty());
}

#[test]
fn dispatch_size_total_multiplies_axes() {
    let size = DispatchSize { x: 4, y: 3, z: 2 };
    assert_eq!(size.total(), 24);
}

use meridian::compute::{parallel_chunks, runs_in_parallel};

#[test]
fn parallel_chunks_tile_the_items() {
    assert_eq!(parallel_chunks(10, 3), vec![(0, 4), (4, 8), (8, 10)]);
    assert_eq!(parallel_chunks(0, 4), vec![]);
    assert_eq!(parallel_chunks(5, 0), vec![(0, 5)]);
    assert_eq!(parallel_chunks(2, 8), vec![(0, 1), (1, 2)]);
    let n = 10_000;
    let mut seen = vec![0u8; n];
    for (start, end) in parallel_chunks(n, 7) {
        for i in start..end {
            seen[i] += 1;
        }
    }
    assert!(seen.iter().all(|&c| c == 1));
}

#[test]
fn parallel_threshold_decision() {
    assert!(!runs_in_parallel(0, 0));
    assert!(!runs_in_parallel(10, 1024));
    assert!(runs_in_parallel(1024, 1024));
}
