use dirsync::chunker::{chunk_data, DEFAULT_CHUNK_SIZE};
use dirsync::event::SyncEvent;
use dirsync::path::SyncPath;

fn write_at(content: &mut Vec<u8>, offset: usize, data: &[u8]) {
    if content.len() < offset + data.len() {
        content.resize(offset + data.len(), 0);
    }
    content[offset..offset + data.len()].copy_from_slice(data);
}

#[test]
fn test_chunk_small_data() {
    let events = chunk_data(&SyncPath::parse("test.txt"), b"hello world", DEFAULT_CHUNK_SIZE);
    assert_eq!(events.len(), 1);
    match &events[0] {
        SyncEvent::FileContent { path, offset, data } => {
            assert_eq!(path, &SyncPath::parse("test.txt"));
            assert_eq!(*offset, 0);
            assert_eq!(data, b"hello world");
        }
        _ => panic!("Expected FileContent"),
    }
}

#[test]
fn test_chunk_large_data() {
    let data = vec![0xABu8; 200];
    let events = chunk_data(&SyncPath::parse("big.bin"), &data, 64);
    assert_eq!(events.len(), 4);

    assert_eq!(events[0].offset(), 0);
    assert_eq!(events[0].data_len(), 64);
    assert_eq!(events[1].offset(), 64);
    assert_eq!(events[1].data_len(), 64);
    assert_eq!(events[2].offset(), 128);
    assert_eq!(events[2].data_len(), 64);
    assert_eq!(events[3].offset(), 192);
    assert_eq!(events[3].data_len(), 8);
}

#[test]
fn test_chunk_empty_data() {
    let events = chunk_data(&SyncPath::parse("empty.txt"), b"", DEFAULT_CHUNK_SIZE);
    assert_eq!(events.len(), 1);
    assert_eq!(events[0].data_len(), 0);
}

#[test]
fn chunks_rebuild_the_data() {
    let data: Vec<u8> = (0..1000u32).map(|i| (i * 7 % 251) as u8).collect();
    for size in [1usize, 7, 250, 999, 1000, 1001] {
        let mut rebuilt = Vec::new();
        for event in chunk_data(&SyncPath::parse("d/f"), &data, size) {
            match event {
                SyncEvent::FileContent { offset, data, .. } => {
                    write_at(&mut rebuilt, offset as usize, &data)
                }
                _ => panic!("Expected FileContent"),
            }
        }
        assert_eq!(rebuilt, data);
    }
}

#[test]
fn chunk_size_that_divides_the_data_leaves_no_empty_chunk() {
    let events = chunk_data(&SyncPath::parse("f"), &[1u8; 128], 64);
    assert_eq!(events.len(), 2);
    assert_eq!(events[1].offset(), 64);
    assert_eq!(events[1].data_len(), 64);
}
