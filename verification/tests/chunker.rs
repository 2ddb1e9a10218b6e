use dechst::process::chunk::{
    gear, Algorithm, ChunkError, ChunkIter, ChunkRead, Chunker, ChunkerParams, FastCdc,
    FastCdcChunker, AVG_SIZE, MAX_SIZE, MIN_SIZE,
};
use rand::{RngCore, SeedableRng};

fn random_data(len: usize, seed: u64) -> Vec<u8> {
    let mut data = vec![0u8; len];
    rand::rngs::StdRng::seed_from_u64(seed).fill_bytes(&mut data);
    data
}

fn small() -> FastCdc {
    FastCdc { min_size: 4, avg_size: 16, max_size: 64 }
}

fn lengths(chunks: &[Vec<u8>]) -> Vec<usize> {
    chunks.iter().map(|c| c.len()).collect()
}

#[test]
fn chunker_gear_values() {
    assert_eq!(gear(0), 0xe220a8397b1dcdaf);
    assert_eq!(gear(1), 0x6e789e6aa1b965f4);
    assert_eq!(gear(255), 0x5a5832bb47bcf19e);
}

#[test]
fn chunker_exact_cuts() {
    let data: Vec<u8> = (0..200usize).map(|i| ((i * 7 + 3) % 256) as u8).collect();
    let chunks = small().split(&data);
    assert_eq!(lengths(&chunks), vec![25, 18, 19, 24, 55, 12, 9, 21, 17]);
    assert_eq!(small().cut(&data), 25);
    assert_eq!(small().cut(&data[25..]), 18);

    let data: Vec<u8> = (0..1024usize).map(|i| (i % 256) as u8).collect();
    let params = FastCdc { min_size: 8, avg_size: 32, max_size: 128 };
    let chunks = params.split(&data);
    assert_eq!(&lengths(&chunks)[..12], &[51, 73, 40, 48, 37, 22, 28, 15, 55, 10, 110, 18]);
}

#[test]
fn chunker_edges() {
    let params = small();
    assert_eq!(params.cut(&[]), 0);
    assert_eq!(params.split(&[]), Vec::<Vec<u8>>::new());
    // data no longer than the smallest chunk is one chunk
    assert_eq!(params.cut(&[1, 2, 3]), 3);
    assert_eq!(params.cut(&[1, 2, 3, 4]), 4);
    assert_eq!(params.split(&[1, 2, 3, 4]), vec![vec![1, 2, 3, 4]]);
    // no chunk is longer than the largest
    let zeros = vec![0u8; 1000];
    for chunk in params.split(&zeros) {
        assert!(chunk.len() <= 64);
    }
    // sizes that make no sense are put right: the largest chunk is 1 at least
    let odd = FastCdc { min_size: 10, avg_size: 0, max_size: 0 };
    assert_eq!(odd.cut(&[5, 6, 7]), 1);
    assert_eq!(odd.split(&[5, 6, 7]), vec![vec![5], vec![6], vec![7]]);
    let fixed = FastCdc { min_size: 8, avg_size: 8, max_size: 8 };
    assert_eq!(lengths(&fixed.split(&random_data(20, 3))), vec![8, 8, 4]);
    assert_eq!(FastCdc::default(), FastCdc { min_size: 2048, avg_size: 8192, max_size: 65536 });
    assert_eq!((MIN_SIZE, AVG_SIZE, MAX_SIZE), (2048, 8192, 65536));
    assert_eq!(Chunker::fastcdc_default(), Chunker::FastCdc(FastCdc::default()));
    assert_eq!(ChunkerParams::FastCdc(small()).create(), Chunker::FastCdc(small()));
}

#[test]
fn chunker_concatenation_is_the_input() {
    for (seed, len) in [(1u64, 0usize), (2, 1), (3, 2048), (4, 2049), (5, 300_000), (6, 65_536)] {
        let data = random_data(len, seed);
        for params in [FastCdc::default(), small(), FastCdc { min_size: 0, avg_size: 1, max_size: 3 }] {
            let chunks = params.split(&data);
            assert_eq!(chunks.concat(), data);
            for (i, chunk) in chunks.iter().enumerate() {
                assert!(!chunk.is_empty());
                assert!(chunk.len() <= params.max_size as usize);
                if i + 1 < chunks.len() {
                    assert!(chunk.len() >= params.min_size as usize);
                }
            }
        }
    }
    // random data is cut before the largest size, most of the time
    let chunks = FastCdc::default().split(&random_data(1_000_000, 7));
    assert!(chunks.len() > 1_000_000 / 65_536 + 1);
}

#[test]
fn chunker_prefix_has_the_same_chunks() {
    let data = random_data(400_000, 11);
    for params in [FastCdc::default(), small()] {
        let whole = params.split(&data);
        for cut in [0usize, 1, 5_000, 123_456, 399_999, 400_000] {
            let part = params.split(&data[..cut]);
            let mut end = 0;
            for (i, chunk) in whole.iter().enumerate() {
                end += chunk.len();
                if end > cut {
                    break;
                }
                assert_eq!(&part[i], chunk);
            }
        }
    }
}

#[test]
fn chunker_reproducibility() {
    let data = b"hello world\n".repeat(100_000);
    let first = FastCdc::default().split(&data);
    let second = FastCdc::default().split(&data);
    assert_eq!(lengths(&first), lengths(&second));
    assert_eq!(first, second);
    assert_eq!(first.concat(), data);
    assert_eq!(first.len(), 19);
    assert_eq!(first[18].len(), 20_352);

    let by_reader: Vec<Vec<u8>> = {
        let mut iter = Chunker::fastcdc_default().chunk(data.clone()).into_iter();
        let mut chunks = Vec::new();
        while let Some(chunk) = iter.next() {
            chunks.push(chunk.unwrap());
        }
        chunks
    };
    assert_eq!(by_reader, first);
}

fn fed_in_pieces(params: FastCdc, data: &[u8], piece: usize) -> Vec<Vec<u8>> {
    let mut chunker = FastCdcChunker::new(params);
    let mut chunks = Vec::new();
    for part in data.chunks(piece) {
        assert!(chunker.feed(part));
        while let Some(chunk) = chunker.next_chunk() {
            chunks.push(chunk);
        }
        assert!(chunker.wants_input());
    }
    chunker.finish();
    assert!(!chunker.wants_input());
    assert!(!chunker.feed(b"late"));
    while let Some(chunk) = chunker.next_chunk() {
        chunks.push(chunk);
    }
    assert_eq!(chunker.next_chunk(), None);
    chunks
}

#[test]
fn chunker_does_not_depend_on_buffering() {
    let data = random_data(300_000, 21);
    let expected = FastCdc::default().split(&data);
    for piece in [4096usize, 65_536, 100_000, 300_000] {
        assert_eq!(fed_in_pieces(FastCdc::default(), &data, piece), expected);
    }
    let expected = small().split(&data[..20_000]);
    for piece in [1usize, 7, 64, 1000] {
        assert_eq!(fed_in_pieces(small(), &data[..20_000], piece), expected);
    }
}

#[test]
fn chunk_reader() {
    let data = random_data(10_000, 5);
    let mut reader = small().chunk(data.clone());
    assert_eq!(reader.prefered_buffer(), Vec::<u8>::new());
    assert!(reader.prefered_buffer().capacity() >= 64);
    let mut buf = vec![1, 2, 3];
    let mut chunks = Vec::new();
    loop {
        let n = reader.read_chunk(&mut buf).unwrap();
        assert_eq!(n, buf.len());
        if n == 0 {
            break;
        }
        chunks.push(buf.clone());
    }
    assert_eq!(chunks, small().split(&data));
    assert_eq!(reader.read_chunk(&mut buf), Ok(0));

    assert_eq!(reader.preferred_buffer_size(), 64);
    assert_eq!(FastCdcChunker::new(FastCdc::default()).preferred_buffer_size(), 65_536);
    let mut waiting = FastCdcChunker::new(small());
    assert_eq!(waiting.read_chunk(&mut buf), Err(ChunkError::Incomplete));
    waiting.feed(&data[..10]);
    assert_eq!(waiting.read_chunk(&mut buf), Err(ChunkError::Incomplete));
    waiting.finish();
    assert_eq!(waiting.read_chunk(&mut buf), Ok(small().cut(&data[..10])));

    let mut iter = ChunkIter::new(FastCdcChunker::over(small(), data.clone()));
    let mut count = 0;
    while let Some(chunk) = iter.next() {
        assert_eq!(chunk.unwrap(), chunks[count]);
        count += 1;
    }
    assert_eq!(count, chunks.len());
    assert!(iter.next().is_none());
    let mut stuck = ChunkIter::new(FastCdcChunker::new(small()));
    assert_eq!(stuck.next(), Some(Err(ChunkError::Incomplete)));
    // the error ends the sequence
    assert_eq!(stuck.next(), None);
    assert_eq!(stuck.next(), None);
}

#[test]
fn chunk_sequence_collected() {
    let data = random_data(10_000, 9);
    let chunker = Chunker::FastCdc(small());
    let chunks = chunker.chunk(data.clone()).into_iter().collect().unwrap();
    assert_eq!(chunks, small().split(&data));
    assert!(chunks.iter().all(|c| !c.is_empty()));
    assert_eq!(chunks.concat(), data);
    // two runs give the same chunks
    assert_eq!(chunker.chunk(data.clone()).into_iter().collect(), Ok(chunks));
    // no data, no chunk
    assert_eq!(chunker.chunk(Vec::new()).into_iter().collect(), Ok(Vec::new()));
    // after the end nothing is left
    let mut iter = chunker.chunk(b"abc".to_vec()).into_iter();
    assert_eq!(iter.next(), Some(Ok(b"abc".to_vec())));
    assert_eq!(iter.next(), None);
    assert_eq!(iter.collect(), Ok(Vec::new()));
}
