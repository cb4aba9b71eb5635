use std::io::{Error, ErrorKind, Read, Result};

use r_json_event_parser::byte_source::{next_block, Block, ByteSource};

/// A stream that hands out at most `step` bytes at a time, after `failures` failed reads.
struct Chunks {
    data: Vec<u8>,
    position: usize,
    step: usize,
    failures: usize,
}

impl Chunks {
    fn new(data: &[u8], step: usize, failures: usize) -> Self {
        Chunks { data: data.to_vec(), position: 0, step, failures }
    }
}

impl Read for Chunks {
    fn read(&mut self, buf: &mut [u8]) -> Result<usize> {
        if self.failures > 0 {
            self.failures -= 1;
            return Err(Error::from(ErrorKind::Interrupted));
        }
        let n = self.step.min(buf.len()).min(self.data.len() - self.position);
        buf[..n].copy_from_slice(&self.data[self.position..self.position + n]);
        self.position += n;
        Ok(n)
    }
}

fn drain<R: Read>(source: &mut ByteSource<R>) -> Vec<u8> {
    let mut bytes = vec!();
    while let Some(byte) = source.get() {
        bytes.push(byte);
    }
    bytes
}

#[test]
fn get_hands_out_the_bytes_in_order() {
    let mut source = ByteSource::new("abc".as_bytes());
    assert_eq!(Some(b'a'), source.get());
    assert_eq!(Some(b'b'), source.get());
    assert_eq!(Some(b'c'), source.get());
    assert_eq!(None, source.get());
}

#[test]
fn get_on_an_empty_stream_is_none() {
    let mut source = ByteSource::new("".as_bytes());
    assert_eq!(None, source.get());
    assert_eq!(None, source.get());
}

#[test]
fn get_unget_get_gives_the_same_byte() {
    let mut source = ByteSource::new("xyz".as_bytes());
    assert_eq!(Some(b'x'), source.get());
    source.unget();
    assert_eq!(Some(b'x'), source.get());
    assert_eq!(Some(b'y'), source.get());
    source.unget();
    assert_eq!(Some(b'y'), source.get());
    assert_eq!(Some(b'z'), source.get());
    source.unget();
    assert_eq!(Some(b'z'), source.get());
    assert_eq!(None, source.get());
}

#[test]
fn get_unget_get_at_every_position_of_a_stream_read_byte_by_byte() {
    let data: Vec<u8> = (0..=255u8).collect();
    let mut source = ByteSource::new(Chunks::new(&data, 1, 0));
    for expected in data.iter() {
        let first = source.get();
        assert_eq!(Some(*expected), first);
        source.unget();
        assert_eq!(first, source.get());
    }
    assert_eq!(None, source.get());
}

#[test]
fn unget_takes_nothing_from_the_stream() {
    let mut source = ByteSource::new(Chunks::new(b"12345", 2, 0));
    assert_eq!(Some(b'1'), source.get());
    assert_eq!(Some(b'2'), source.get());
    source.unget();
    assert_eq!(vec!(b'2', b'3', b'4', b'5'), drain(&mut source));
}

#[test]
fn unget_twice_pushes_back_one_byte() {
    let mut source = ByteSource::new("ab".as_bytes());
    assert_eq!(Some(b'a'), source.get());
    source.unget();
    source.unget();
    assert_eq!(Some(b'a'), source.get());
    assert_eq!(Some(b'b'), source.get());
    assert_eq!(None, source.get());
}

#[test]
fn a_failed_read_is_tried_again() {
    let mut source = ByteSource::new(Chunks::new(b"ok", 1, 3));
    assert_eq!(vec!(b'o', b'k'), drain(&mut source));
}

#[test]
fn a_stream_longer_than_the_buffer_comes_out_whole() {
    let data: Vec<u8> = (0..100_000usize).map(|i| (i % 251) as u8).collect();
    let mut source = ByteSource::new(data.as_slice());
    assert_eq!(data, drain(&mut source));
}

#[test]
fn unget_across_the_edge_of_the_buffer() {
    let data: Vec<u8> = (0..40_000usize).map(|i| (i % 251) as u8).collect();
    let mut source = ByteSource::new(data.as_slice());
    for (i, expected) in data.iter().enumerate() {
        assert_eq!(Some(*expected), source.get());
        if i == 32767 || i == 32768 {
            source.unget();
            assert_eq!(Some(*expected), source.get());
        }
    }
    assert_eq!(None, source.get());
}

#[test]
fn what_the_answer_of_a_read_comes_to() {
    assert_eq!(Block::Again, next_block(None, 32768));
    assert_eq!(Block::Ended, next_block(Some(0), 32768));
    assert_eq!(Block::Filled(1), next_block(Some(1), 32768));
    assert_eq!(Block::Filled(32768), next_block(Some(32768), 32768));
    assert_eq!(Block::Filled(32768), next_block(Some(32769), 32768));
    assert_eq!(Block::Filled(8), next_block(Some(usize::MAX), 8));
}

#[test]
fn after_the_end_no_byte_comes_again() {
    let mut source = ByteSource::new("a".as_bytes());
    assert_eq!(Some(b'a'), source.get());
    assert_eq!(None, source.get());
    assert_eq!(None, source.get());
    assert_eq!(None, source.get());
}

#[test]
fn after_the_end_of_a_long_stream_no_byte_comes_again() {
    let data: Vec<u8> = (0..70_000usize).map(|i| (i % 7) as u8 + 1).collect();
    let mut source = ByteSource::new(Chunks::new(&data, 30_000, 0));
    assert_eq!(data, drain(&mut source));
    assert_eq!(None, source.get());
    assert_eq!(None, source.get());
}

/// A stream that fails before each block.
struct Stubborn {
    data: Vec<u8>,
    position: usize,
    fail: bool,
}

impl Read for Stubborn {
    fn read(&mut self, buf: &mut [u8]) -> Result<usize> {
        self.fail = !self.fail;
        if self.fail {
            return Err(Error::from(ErrorKind::Other));
        }
        let n = 3.min(buf.len()).min(self.data.len() - self.position);
        buf[..n].copy_from_slice(&self.data[self.position..self.position + n]);
        self.position += n;
        Ok(n)
    }
}

#[test]
fn failed_reads_between_blocks_lose_no_byte() {
    let data: Vec<u8> = (1..=20u8).collect();
    let mut source = ByteSource::new(Stubborn { data: data.clone(), position: 0, fail: false });
    assert_eq!(data, drain(&mut source));
    assert_eq!(None, source.get());
}

#[test]
fn a_push_back_at_the_end_of_a_block_and_the_stream_goes_on() {
    let mut source = ByteSource::new(Chunks::new(b"abcd", 2, 0));
    assert_eq!(Some(b'a'), source.get());
    assert_eq!(Some(b'b'), source.get());
    source.unget();
    assert_eq!(Some(b'b'), source.get());
    assert_eq!(Some(b'c'), source.get());
    source.unget();
    assert_eq!(Some(b'c'), source.get());
    assert_eq!(Some(b'd'), source.get());
    assert_eq!(None, source.get());
}
