use koit::backend::{Backend, Memory};

#[test]
fn default_memory_reads_empty() {
    let mut backend = Memory::default();
    assert_eq!(backend.read().unwrap(), Vec::<u8>::new());
}

#[test]
fn new_memory_reads_empty() {
    let mut backend = Memory::new();
    assert_eq!(backend.read().unwrap(), Vec::<u8>::new());
    assert_eq!(backend, Memory::default());
}

#[test]
fn memory_returns_what_was_written() {
    let bytes = b"[\n  \"a message\",\n  \"from me to you\"\n]".to_vec();
    let mut backend = Memory::default();
    backend.write(bytes.clone()).unwrap();
    assert_eq!(backend.read().unwrap(), bytes);
    // Reading leaves the bytes in place.
    assert_eq!(backend.read().unwrap(), bytes);
}

#[test]
fn take_empties_memory() {
    let bytes = b"[\n  \"a message\",\n  \"from me to you\"\n]".to_vec();
    let mut backend = Memory::default();
    backend.write(bytes.clone()).unwrap();
    assert_eq!(backend.take(), bytes);
    assert_eq!(backend.read().unwrap(), Vec::<u8>::new());
    assert_eq!(backend.take(), Vec::<u8>::new());
}

#[test]
fn memory_from_buffer_holds_it() {
    let mut backend = Memory::from(vec![1u8, 2, 3]);
    assert_eq!(backend.read().unwrap(), vec![1u8, 2, 3]);
}

#[test]
fn write_replaces_the_whole_buffer() {
    let mut backend = Memory::from(vec![9u8; 100]);
    backend.write(vec![7u8]).unwrap();
    assert_eq!(backend.read().unwrap(), vec![7u8]);
    backend.write(Vec::new()).unwrap();
    assert_eq!(backend.read().unwrap(), Vec::<u8>::new());
}

#[test]
fn writing_twice_is_writing_once() {
    let mut once = Memory::new();
    once.write(vec![4u8, 5, 6]).unwrap();
    let mut twice = Memory::new();
    twice.write(vec![4u8, 5, 6]).unwrap();
    twice.write(vec![4u8, 5, 6]).unwrap();
    assert_eq!(once, twice);
    assert_eq!(twice.read().unwrap(), vec![4u8, 5, 6]);
}

#[test]
fn clone_of_memory_is_independent() {
    let mut first = Memory::from(vec![1u8, 2]);
    let mut copy = first.clone();
    assert_eq!(first, copy);
    copy.write(vec![3u8]).unwrap();
    assert_eq!(first.read().unwrap(), vec![1u8, 2]);
    assert_eq!(copy.read().unwrap(), vec![3u8]);
}
