use ordered_pipeline::blocks::{
    append_output, find_blocks, output_capacity, write_stage, EmitterCompress, EmitterDecompress,
    Tcontent, BLOCK_SIZE, HEADER_LEN, SCAN_MARGIN,
};

const HEADER: &[u8; 10] = b"BZh91AY&SY";

fn pattern(len: usize) -> Vec<u8> {
    (0..len).map(|i| (i % 251) as u8).collect()
}

fn stream(body: usize) -> Vec<u8> {
    let mut bytes = HEADER.to_vec();
    bytes.extend(std::iter::repeat(0xAAu8).take(body));
    bytes
}

#[test]
fn constants_have_their_documented_values() {
    assert_eq!(BLOCK_SIZE, 900000);
    assert_eq!(SCAN_MARGIN, 10000);
    assert_eq!(HEADER_LEN, 10);
}

#[test]
fn output_capacity_examples() {
    assert_eq!(output_capacity(0), 600);
    assert_eq!(output_capacity(99), 699);
    assert_eq!(output_capacity(100), 701);
    assert_eq!(output_capacity(1000), 1610);
    assert_eq!(output_capacity(900000), 909600);
}

#[test]
fn output_capacity_is_one_percent_more_and_600_for_every_block_length() {
    for len in 0..=BLOCK_SIZE {
        assert_eq!(output_capacity(len), (len as f64 * 1.01) as usize + 600);
    }
}

#[test]
fn empty_input_gives_no_block() {
    let mut emitter = EmitterCompress::new(Vec::new());
    assert!(emitter.next().is_none());
    assert!(emitter.next().is_none());
}

#[test]
fn input_is_cut_every_block_size() {
    let input = pattern(2 * BLOCK_SIZE + 1);
    let mut emitter = EmitterCompress::new(input.clone());
    let mut joined = Vec::new();
    let mut lengths = Vec::new();
    let mut order = 0;
    while let Some(block) = emitter.next() {
        assert_eq!(block.order, order);
        assert_eq!(block.output_size, 0);
        assert_eq!(block.buffer_output.len(), output_capacity(block.buffer_input.len()));
        assert!(block.buffer_output.iter().all(|b| *b == 0));
        lengths.push(block.buffer_input.len());
        joined.extend(block.buffer_input);
        order += 1;
    }
    assert_eq!(lengths, vec![900000, 900000, 1]);
    assert_eq!(joined, input);
    assert!(emitter.next().is_none());
}

#[test]
fn input_of_exactly_one_block_gives_one_block() {
    let mut emitter = EmitterCompress::new(pattern(BLOCK_SIZE));
    let block = emitter.next().unwrap();
    assert_eq!(block.order, 0);
    assert_eq!(block.buffer_input.len(), BLOCK_SIZE);
    assert_eq!(block.buffer_output.len(), 909600);
    assert!(emitter.next().is_none());
}

#[test]
fn short_input_gives_one_short_block() {
    let mut emitter = EmitterCompress::new(vec![1, 2, 3]);
    let block = emitter.next().unwrap();
    assert_eq!(block.buffer_input, vec![1, 2, 3]);
    assert_eq!(block.buffer_output.len(), 603);
    assert!(emitter.next().is_none());
}

#[test]
fn empty_buffer_holds_no_stream() {
    assert_eq!(find_blocks(&Vec::new()), Vec::<(usize, usize)>::new());
}

#[test]
fn buffer_without_a_second_header_is_one_block() {
    assert_eq!(find_blocks(&stream(0)), vec![(0, 10)]);
    assert_eq!(find_blocks(&stream(25)), vec![(0, 35)]);
    assert_eq!(find_blocks(&vec![7u8; 40]), vec![(0, 40)]);
}

#[test]
fn streams_are_cut_at_their_headers() {
    let mut buffer = stream(20);
    buffer.extend(stream(5));
    buffer.extend(stream(0));
    buffer.extend(stream(31));
    assert_eq!(find_blocks(&buffer), vec![(0, 30), (30, 45), (45, 55), (55, 96)]);
}

#[test]
fn header_inside_the_first_ten_bytes_of_a_block_is_not_a_cut() {
    let mut buffer = vec![0u8; 4];
    buffer.extend(stream(20));
    // The header stands at 4, inside the block's own first ten bytes.
    assert_eq!(find_blocks(&buffer), vec![(0, 34)]);
    let mut buffer = vec![0u8; 10];
    buffer.extend(stream(20));
    assert_eq!(find_blocks(&buffer), vec![(0, 10), (10, 40)]);
}

#[test]
fn search_stops_one_block_size_and_the_margin_after_the_start() {
    let limit = BLOCK_SIZE + SCAN_MARGIN;
    // A header that ends exactly at the limit is found.
    let mut buffer = vec![0u8; 1_000_000];
    buffer[limit - 10..limit].copy_from_slice(HEADER);
    assert_eq!(find_blocks(&buffer), vec![(0, limit - 10), (limit - 10, 1_000_000)]);
    // One byte further on it is not, and the block runs to the end.
    let mut buffer = vec![0u8; 1_000_000];
    buffer[limit - 9..limit + 1].copy_from_slice(HEADER);
    assert_eq!(find_blocks(&buffer), vec![(0, 1_000_000)]);
    // In a buffer that ends before the limit the search goes to the end.
    let mut buffer = vec![0u8; limit - 1];
    buffer[limit - 11..limit - 1].copy_from_slice(HEADER);
    assert_eq!(find_blocks(&buffer), vec![(0, limit - 11), (limit - 11, limit - 1)]);
}

#[test]
fn decompress_emitter_hands_out_the_listed_blocks() {
    let mut buffer = stream(20);
    buffer.extend(stream(5));
    let blocks = find_blocks(&buffer);
    let mut emitter = EmitterDecompress::new(buffer.clone(), blocks);
    let first = emitter.next().unwrap();
    assert_eq!(first.order, 0);
    assert_eq!(first.buffer_input, buffer[0..30].to_vec());
    assert_eq!(first.buffer_output.len(), 900000);
    assert!(first.buffer_output.iter().all(|b| *b == 0));
    assert_eq!(first.output_size, 0);
    let second = emitter.next().unwrap();
    assert_eq!(second.order, 1);
    assert_eq!(second.buffer_input, buffer[30..45].to_vec());
    assert!(emitter.next().is_none());
}

#[test]
fn decompress_emitter_takes_any_bounds_inside_the_input() {
    let mut emitter = EmitterDecompress::new(vec![9, 8, 7, 6, 5], vec![(3, 5), (0, 0), (1, 2)]);
    assert_eq!(emitter.next().unwrap().buffer_input, vec![6, 5]);
    assert_eq!(emitter.next().unwrap().buffer_input, Vec::<u8>::new());
    let last = emitter.next().unwrap();
    assert_eq!(last.order, 2);
    assert_eq!(last.buffer_input, vec![8]);
    assert!(emitter.next().is_none());
}

fn content(order: usize, output: &[u8], output_size: u32) -> Tcontent {
    Tcontent { order, buffer_input: Vec::new(), buffer_output: output.to_vec(), output_size }
}

#[test]
fn write_stage_joins_what_each_block_produced() {
    let collection = vec![
        content(0, &[1, 2, 3, 0, 0], 3),
        content(1, &[9, 9], 0),
        content(2, &[4, 5], 2),
    ];
    assert_eq!(write_stage(&collection), vec![1, 2, 3, 4, 5]);
    assert_eq!(write_stage(&Vec::new()), Vec::<u8>::new());
}

#[test]
fn append_output_keeps_what_was_written_before() {
    let mut output = vec![7u8, 7];
    append_output(&mut output, &content(0, &[1, 2, 3], 2));
    assert_eq!(output, vec![7, 7, 1, 2]);
    append_output(&mut output, &content(1, &[1, 2, 3], 0));
    assert_eq!(output, vec![7, 7, 1, 2]);
}
