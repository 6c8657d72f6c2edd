use sapp_jsutils::buffer::{boundary_len, size_read_buffer};
use sapp_jsutils::version::pack_version;

#[test]
fn version_packing() {
    assert_eq!(pack_version(1, 2, 3), (1 << 24) + (2 << 16) + 3);
    assert_eq!(pack_version(1, 2, 3), 16_908_291);
    assert_eq!(pack_version(0, 0, 0), 0);
    assert_eq!(pack_version(0, 1, 0), 65_536);
    assert_eq!(pack_version(255, 255, 65_535), u32::MAX);
}

#[test]
fn sized_buffer_grows_with_zeros() {
    let mut buf = vec![7u8, 8];
    size_read_buffer(&mut buf, 5);
    assert_eq!(buf, vec![7, 8, 0, 0, 0]);
}

#[test]
fn sized_buffer_shrinks_keeping_prefix() {
    let mut buf = vec![1u8, 2, 3, 4];
    size_read_buffer(&mut buf, 2);
    assert_eq!(buf, vec![1, 2]);
}

#[test]
fn sized_buffer_boundary_sizes() {
    for len in [0u32, 1, 64 * 1024] {
        let mut buf = Vec::new();
        size_read_buffer(&mut buf, len);
        assert_eq!(buf.len(), len as usize);
        let mut big = vec![3u8; 100_000];
        size_read_buffer(&mut big, len);
        assert_eq!(big.len(), len as usize);
        assert!(big.iter().all(|b| *b == 3));
    }
}

#[test]
fn boundary_len_fits() {
    assert_eq!(boundary_len(0), Some(0));
    assert_eq!(boundary_len(11), Some(11));
    assert_eq!(boundary_len(u32::MAX as usize), Some(u32::MAX));
}

#[test]
fn boundary_len_too_long() {
    if usize::BITS > 32 {
        assert_eq!(boundary_len(u32::MAX as usize + 1), None);
    }
}
