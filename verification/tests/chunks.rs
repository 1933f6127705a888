use rush::chunks::{chunk_size, emit_chunks};
use rush::error::RushError;
use rush::naming::{
    chunk_file_name, chunk_file_names, chunk_padding_width, count_digits, decimal_string,
    zero_padded_string,
};

#[test]
fn last_chunk_is_padded_with_zeros() {
    let samples: Vec<i32> = (1..=12).collect();
    let chunks = emit_chunks(&samples, 1, 5).unwrap();
    assert_eq!(
        chunks,
        vec![
            vec![1, 2, 3, 4, 5],
            vec![6, 7, 8, 9, 10],
            vec![11, 12, 0, 0, 0],
        ]
    );
}

#[test]
fn chunk_length_counts_frames_of_all_channels() {
    let samples: Vec<i32> = (1..=10).collect();
    let chunks = emit_chunks(&samples, 2, 3).unwrap();
    assert_eq!(
        chunks,
        vec![vec![1, 2, 3, 4, 5, 6], vec![7, 8, 9, 10, 0, 0]]
    );
}

#[test]
fn even_split_needs_no_padding() {
    let samples: Vec<i32> = (0..10).collect();
    let chunks = emit_chunks(&samples, 1, 5).unwrap();
    assert_eq!(chunks, vec![vec![0, 1, 2, 3, 4], vec![5, 6, 7, 8, 9]]);
}

#[test]
fn empty_buffer_gives_no_chunk() {
    let samples: Vec<i32> = Vec::new();
    assert_eq!(emit_chunks(&samples, 1, 5), Ok(vec![]));
}

#[test]
fn chunk_of_no_samples_is_invalid() {
    let samples: Vec<i32> = vec![1, 2, 3];
    assert_eq!(emit_chunks(&samples, 1, 0), Err(RushError::InvalidArgument));
    assert_eq!(emit_chunks(&samples, 0, 5), Err(RushError::InvalidArgument));
    assert_eq!(emit_chunks(&Vec::new(), 0, 0), Err(RushError::InvalidArgument));
}

#[test]
fn short_buffer_gives_one_padded_chunk() {
    let samples: Vec<i32> = vec![7, -7];
    assert_eq!(emit_chunks(&samples, 1, 4), Ok(vec![vec![7, -7, 0, 0]]));
}

#[test]
fn five_seconds_in_chunks_of_one_second() {
    for sample_rate in [8000usize, 22050, 44100] {
        let samples: Vec<i32> = vec![1; 5 * sample_rate];
        let chunks = emit_chunks(&samples, 1, sample_rate).unwrap();
        assert_eq!(chunks.len(), 5);
        assert!(chunks.iter().all(|c| c.len() == sample_rate));
        let names = chunk_file_names("input", chunks.len());
        assert_eq!(
            names,
            vec!["input@0.wav", "input@1.wav", "input@2.wav", "input@3.wav", "input@4.wav"]
        );
    }
}

#[test]
fn ten_chunks_end_at_index_nine_and_keep_one_digit() {
    let names = chunk_file_names("take", 10);
    assert_eq!(
        names,
        vec![
            "take@0.wav",
            "take@1.wav",
            "take@2.wav",
            "take@3.wav",
            "take@4.wav",
            "take@5.wav",
            "take@6.wav",
            "take@7.wav",
            "take@8.wav",
            "take@9.wav",
        ]
    );
}

#[test]
fn eleven_chunks_are_named_with_two_digits() {
    let names = chunk_file_names("a", 11);
    assert_eq!(names[0], "a@00.wav");
    assert_eq!(names[9], "a@09.wav");
    assert_eq!(names[10], "a@10.wav");
    assert_eq!(chunk_file_name("a", 3, 11), "a@03.wav");
    assert_eq!(chunk_file_name("a", 10, 11), "a@10.wav");
}

#[test]
fn padding_width_is_the_digit_count_of_the_last_index() {
    assert_eq!(chunk_padding_width(1), 1);
    assert_eq!(chunk_padding_width(5), 1);
    assert_eq!(chunk_padding_width(10), 1);
    assert_eq!(chunk_padding_width(11), 2);
    assert_eq!(chunk_padding_width(100), 2);
    assert_eq!(chunk_padding_width(101), 3);
    assert_eq!(chunk_padding_width(usize::MAX), format!("{}", usize::MAX - 1).len());
}

#[test]
fn padding_width_without_chunks_does_not_underflow() {
    assert_eq!(chunk_padding_width(0), 1);
    assert_eq!(chunk_file_names("x", 0), Vec::<String>::new());
    assert_eq!(chunk_file_name("x", 0, 1), "x@0.wav");
}

#[test]
fn index_wider_than_the_padding_is_written_in_full() {
    assert_eq!(chunk_file_name("x", 123, 5), "x@123.wav");
    assert_eq!(zero_padded_string(123, 2), "123");
    assert_eq!(zero_padded_string(7, 0), "7");
}

#[test]
fn decimal_matches_the_standard_formatting() {
    for n in [0u64, 1, 9, 10, 11, 99, 100, 101, 12345, 4294967295, 4294967296, u64::MAX] {
        assert_eq!(decimal_string(n), format!("{}", n));
        assert_eq!(count_digits(n), format!("{}", n).len());
        assert_eq!(zero_padded_string(n, 5), format!("{:05}", n));
        assert_eq!(zero_padded_string(n, 25), format!("{:025}", n));
    }
}

#[test]
fn chunk_size_is_frames_times_channels() {
    assert_eq!(chunk_size(2, 44100), Ok(88200));
    assert_eq!(chunk_size(1, 1), Ok(1));
    assert_eq!(chunk_size(0, 5), Err(RushError::InvalidArgument));
    assert_eq!(chunk_size(2, 0), Err(RushError::InvalidArgument));
    assert_eq!(chunk_size(1, usize::MAX), Ok(usize::MAX));
}
