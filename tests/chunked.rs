use fill::{Chunk, MemError, MemReader, Step};

fn collect(source: MemReader, size: usize) -> (Vec<Vec<u8>>, MemReader) {
    let mut reader = source.chunked(size);
    let mut chunks = Vec::new();
    while let Some(chunk) = reader.next() {
        chunks.push(chunk.expect("no read fails"));
    }
    (chunks, reader.into_inner())
}

#[test]
fn chunks_of_hello_world() {
    let (chunks, _) = collect(MemReader::new(b"Hello, World!".to_vec()), 5);
    assert_eq!(chunks, vec![b"Hello".to_vec(), b", Wor".to_vec(), b"ld!".to_vec()]);
}

#[test]
fn chunks_end_after_last() {
    let mut reader = MemReader::new(b"Hello, World!".to_vec()).chunked(5);
    assert_eq!(reader.next(), Some(Ok(b"Hello".to_vec())));
    assert_eq!(reader.next(), Some(Ok(b", Wor".to_vec())));
    assert_eq!(reader.next(), Some(Ok(b"ld!".to_vec())));
    assert_eq!(reader.next(), None);
    assert_eq!(reader.next(), None);
}

#[test]
fn chunks_of_empty_stream() {
    let mut reader = MemReader::new(Vec::new()).chunked(5);
    assert_eq!(reader.next(), None);
}

#[test]
fn chunks_of_exact_multiple() {
    let data: Vec<u8> = (0..12).collect();
    let (chunks, _) = collect(MemReader::new(data.clone()), 4);
    assert_eq!(chunks.len(), 3);
    assert!(chunks.iter().all(|c| c.len() == 4));
    assert_eq!(chunks.concat(), data);
}

#[test]
fn chunk_count_and_lengths() {
    let data: Vec<u8> = (0..=255).collect();
    for size in 1..40 {
        let (chunks, _) = collect(MemReader::new(data.clone()), size);
        assert_eq!(chunks.len(), (data.len() + size - 1) / size);
        for c in &chunks[..chunks.len() - 1] {
            assert_eq!(c.len(), size);
        }
        let last = chunks.last().unwrap().len();
        let expect = if data.len() % size == 0 { size } else { data.len() % size };
        assert_eq!(last, expect);
        assert_eq!(chunks.concat(), data);
    }
}

#[test]
fn chunk_size_one() {
    let (chunks, _) = collect(MemReader::new(vec![4, 5, 6]), 1);
    assert_eq!(chunks, vec![vec![4], vec![5], vec![6]]);
}

#[test]
fn chunk_larger_than_stream() {
    let (chunks, _) = collect(MemReader::new(vec![4, 5, 6]), 100);
    assert_eq!(chunks, vec![vec![4, 5, 6]]);
}

#[test]
fn into_inner_keeps_position() {
    let mut reader = MemReader::new(b"Hello, World!".to_vec()).chunked(5);
    assert_eq!(reader.next(), Some(Ok(b"Hello".to_vec())));
    let mut source = reader.into_inner();
    assert_eq!(source.position(), 5);
    let mut rest = source.chunked(100);
    assert_eq!(rest.next(), Some(Ok(b", World!".to_vec())));
}

#[test]
fn into_inner_before_any_read() {
    let reader = MemReader::new(vec![1, 2, 3]).chunked(2);
    let source = reader.into_inner();
    assert_eq!(source.position(), 0);
}

#[test]
fn chunks_through_interruptions() {
    let script: Vec<Step> = (0..30).map(|i| if i % 2 == 0 { Step::Interrupt } else { Step::Read }).collect();
    let (chunks, _) = collect(MemReader::scripted(b"Hello, World!".to_vec(), 2, script), 5);
    assert_eq!(chunks, vec![b"Hello".to_vec(), b", Wor".to_vec(), b"ld!".to_vec()]);
}

#[test]
fn chunk_error_is_handed_out() {
    let script = vec![Step::Read, Step::Read, Step::Fail];
    let mut reader = MemReader::scripted(b"Hello, World!".to_vec(), 3, script).chunked(5);
    assert_eq!(reader.next(), Some(Ok(b"Hello".to_vec())));
    assert_eq!(reader.next(), Some(Err(MemError::Failed(2))));
    assert_eq!(reader.into_inner().position(), 5);
}
