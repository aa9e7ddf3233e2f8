use spooky_maze::spi_dma::{
    encode_be, encode_le, first_chunk_target, plan_transfers, split_transfers, DisplayData, TransferError,
    DMA_BUFFER_SIZE,
};

#[test]
fn first_chunk_is_the_rest_of_the_hint() {
    assert_eq!(first_chunk_target(0), 0);
    assert_eq!(first_chunk_target(100), 100);
    assert_eq!(first_chunk_target(4096), 0);
    assert_eq!(first_chunk_target(10000), 10000 - 2 * 4096);
}

#[test]
fn words_in_both_byte_orders() {
    assert_eq!(encode_be(&vec![0x1234, 0xABCD]), vec![0x12, 0x34, 0xAB, 0xCD]);
    assert_eq!(encode_le(&vec![0x1234, 0xABCD]), vec![0x34, 0x12, 0xCD, 0xAB]);
    let words: Vec<u16> = vec![0, 1, 255, 256, 65535];
    let be = encode_be(&words);
    for (k, w) in words.iter().enumerate() {
        assert_eq!(be[2 * k] as u16 * 256 + be[2 * k + 1] as u16, *w);
    }
}

#[test]
fn streams_are_cut_into_buffers() {
    let stream: Vec<u8> = (0..10000u32).map(|i| (i % 251) as u8).collect();
    let transfers = split_transfers(&stream, 1, 100);
    let lengths: Vec<usize> = transfers.iter().map(|t| t.len()).collect();
    assert_eq!(lengths, vec![100, 4096, 4096, 10000 - 100 - 2 * 4096]);
    assert_eq!(transfers.concat(), stream);
}

#[test]
fn a_zero_target_sends_one_word_first() {
    let stream = vec![1u8, 2, 3, 4, 5, 6];
    assert_eq!(split_transfers(&stream, 2, 0), vec![vec![1, 2], vec![3, 4, 5, 6]]);
    assert_eq!(split_transfers(&stream, 1, 0), vec![vec![1], vec![2, 3, 4, 5, 6]]);
    assert_eq!(split_transfers(&Vec::new(), 1, 0), Vec::<Vec<u8>>::new());
}

#[test]
fn an_odd_target_rounds_up_to_whole_words() {
    let stream: Vec<u8> = vec![0; 12];
    let lengths: Vec<usize> = split_transfers(&stream, 2, 5).iter().map(|t| t.len()).collect();
    assert_eq!(lengths, vec![6, 6]);
}

#[test]
fn no_transfer_exceeds_a_buffer() {
    let stream: Vec<u8> = vec![9; 3 * DMA_BUFFER_SIZE + 10];
    for t in split_transfers(&stream, 2, 4095) {
        assert!(!t.is_empty() && t.len() <= DMA_BUFFER_SIZE);
    }
}

#[test]
fn planning_each_format() {
    assert_eq!(plan_transfers(&DisplayData::U8(vec![1, 2, 3]), 0), Ok(vec![vec![1, 2, 3]]));
    assert_eq!(plan_transfers(&DisplayData::U16BE(vec![0x0102]), 0), Ok(vec![vec![1, 2]]));
    assert_eq!(plan_transfers(&DisplayData::U16LE(vec![0x0102]), 0), Ok(vec![vec![2, 1]]));
    let native = plan_transfers(&DisplayData::U16(vec![0x0102]), 0).unwrap();
    assert!(native == vec![vec![1, 2]] || native == vec![vec![2, 1]]);
    assert_eq!(plan_transfers(&DisplayData::U8Iter(vec![1, 2, 3]), 2), Ok(vec![vec![1, 2], vec![3]]));
    assert_eq!(
        plan_transfers(&DisplayData::U16BEIter(vec![0x0102, 0x0304]), 4098),
        Ok(vec![vec![1, 2], vec![3, 4]])
    );
    assert_eq!(plan_transfers(&DisplayData::U16LEIter(vec![0x0102, 0x0304]), 8192), Ok(vec![vec![2, 1], vec![4, 3]]));
    assert_eq!(plan_transfers(&DisplayData::Other, 0), Err(TransferError::DataFormatNotImplemented));
}
