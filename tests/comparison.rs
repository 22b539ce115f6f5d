use lanecmp::chunk::{compare_buffers_simd, LANE_WIDTH};
use lanecmp::reader::{FillAction, Filler, ReadResult};
use lanecmp::session::{
    compare_contents, settled_without_reading, Outcome, Session, Side, BUFFER_SIZE,
};

fn with_byte(len: usize, fill: u8, at: usize, value: u8) -> Vec<u8> {
    let mut v = vec![fill; len];
    v[at] = value;
    v
}

#[test]
fn equal_chunks_have_no_difference() {
    let a: Vec<u8> = (0..100u32).map(|i| (i * 7) as u8).collect();
    let b = a.clone();
    assert_eq!(compare_buffers_simd(&a, &b), None);
}

#[test]
fn empty_chunks_have_no_difference() {
    assert_eq!(compare_buffers_simd(&[], &[]), None);
}

#[test]
fn difference_at_first_byte() {
    let a = vec![5u8; 64];
    let b = with_byte(64, 5, 0, 6);
    assert_eq!(compare_buffers_simd(&a, &b), Some(0));
}

#[test]
fn difference_at_last_byte_of_lane() {
    let a = vec![0u8; 64];
    let b = with_byte(64, 0, LANE_WIDTH - 1, 1);
    assert_eq!(compare_buffers_simd(&a, &b), Some(31));
}

#[test]
fn difference_at_first_byte_of_second_lane() {
    let a = vec![0u8; 64];
    let b = with_byte(64, 0, LANE_WIDTH, 1);
    assert_eq!(compare_buffers_simd(&a, &b), Some(32));
}

#[test]
fn difference_in_tail_after_full_lanes() {
    let a = vec![9u8; 40];
    let b = with_byte(40, 9, 35, 8);
    assert_eq!(compare_buffers_simd(&a, &b), Some(35));
}

#[test]
fn difference_in_chunk_shorter_than_a_lane() {
    let a = vec![1u8, 2, 3, 4];
    let b = vec![1u8, 2, 0, 0];
    assert_eq!(compare_buffers_simd(&a, &b), Some(2));
}

#[test]
fn lowest_of_several_differences_wins() {
    let mut a = vec![0u8; 96];
    a[40] = 1;
    a[45] = 1;
    a[70] = 1;
    let b = vec![0u8; 96];
    assert_eq!(compare_buffers_simd(&a, &b), Some(40));
}

#[test]
fn last_byte_differs_in_page_of_capital_a() {
    let a = vec![0x41u8; 4096];
    let b = with_byte(4096, 0x41, 4095, 0x42);
    let r = compare_contents(&a, &b, BUFFER_SIZE);
    assert_eq!(r, Outcome::Differ { offset: 4095, byte_a: 0x41, byte_b: 0x42 });
    if let Outcome::Differ { offset, byte_a, byte_b } = r {
        assert_eq!(offset + 1, 4096);
        assert_eq!(format!("{:o}", byte_a), "101");
        assert_eq!(format!("{:o}", byte_b), "102");
    }
}

#[test]
fn truncated_second_stream_ends_first() {
    let a = vec![0u8; 10000];
    let b = vec![0u8; 9000];
    let r = compare_contents(&a, &b, BUFFER_SIZE);
    assert_eq!(r, Outcome::LengthMismatch { shorter: Side::Second });
}

#[test]
fn empty_streams_are_identical() {
    assert_eq!(compare_contents(&[], &[], BUFFER_SIZE), Outcome::Identical);
}

#[test]
fn same_path_settled_without_reading() {
    let p = String::from("/no/such/dir/missing.bin");
    let q = p.clone();
    assert_eq!(settled_without_reading(&p, &q), Some(Outcome::Identical));
}

#[test]
fn different_paths_are_not_settled() {
    let p = String::from("left.bin");
    let q = String::from("right.bin");
    assert_eq!(settled_without_reading(&p, &q), None);
}

#[test]
fn copy_compares_identical() {
    let a: Vec<u8> = (0..9000u32).map(|i| (i % 251) as u8).collect();
    let b = a.clone();
    for cap in [1usize, 7, 32, 4096] {
        assert_eq!(compare_contents(&a, &b, cap), Outcome::Identical);
    }
}

#[test]
fn equal_length_streams_report_lowest_difference() {
    let a: Vec<u8> = (0..5000u32).map(|i| (i % 200) as u8).collect();
    let mut b = a.clone();
    b[4100] = 255;
    b[4500] = 255;
    for cap in [3usize, 32, 4096] {
        assert_eq!(
            compare_contents(&a, &b, cap),
            Outcome::Differ { offset: 4100, byte_a: a[4100], byte_b: 255 }
        );
    }
}

#[test]
fn strict_prefix_names_shorter_side() {
    let long: Vec<u8> = (0..300u32).map(|i| i as u8).collect();
    let short = long[..200].to_vec();
    assert_eq!(
        compare_contents(&short, &long, 64),
        Outcome::LengthMismatch { shorter: Side::First }
    );
    assert_eq!(
        compare_contents(&long, &short, 64),
        Outcome::LengthMismatch { shorter: Side::Second }
    );
}

#[test]
fn prefix_ending_on_chunk_boundary() {
    let long = vec![3u8; 192];
    let short = vec![3u8; 128];
    assert_eq!(
        compare_contents(&short, &long, 64),
        Outcome::LengthMismatch { shorter: Side::First }
    );
}

#[test]
fn repeated_comparison_gives_same_outcome() {
    let a = vec![7u8; 1000];
    let b = with_byte(1000, 7, 999, 0);
    let first = compare_contents(&a, &b, 128);
    let second = compare_contents(&a, &b, 128);
    assert_eq!(first, second);
    assert_eq!(first, Outcome::Differ { offset: 999, byte_a: 7, byte_b: 0 });
}

#[test]
fn exchanging_streams_swaps_sides() {
    let a = vec![1u8; 700];
    let b = with_byte(700, 1, 333, 2);
    assert_eq!(
        compare_contents(&a, &b, 100),
        Outcome::Differ { offset: 333, byte_a: 1, byte_b: 2 }
    );
    assert_eq!(
        compare_contents(&b, &a, 100),
        Outcome::Differ { offset: 333, byte_a: 2, byte_b: 1 }
    );
    assert_eq!(compare_contents(&a, &a.clone(), 100), Outcome::Identical);
}

#[test]
fn mismatch_at_lane_seam_across_streams() {
    for at in [31usize, 32, 63, 64] {
        let a = vec![0u8; 100];
        let b = with_byte(100, 0, at, 9);
        assert_eq!(
            compare_contents(&a, &b, BUFFER_SIZE),
            Outcome::Differ { offset: at as u64, byte_a: 0, byte_b: 9 }
        );
    }
}

#[test]
fn shorter_final_chunk_wins_over_content() {
    // Lengths differ in the chunk that also holds a content difference:
    // the unequal counts decide before any byte is compared.
    let a = vec![0u8; 100];
    let b = with_byte(90, 0, 80, 1);
    assert_eq!(
        compare_contents(&a, &b, 64),
        Outcome::LengthMismatch { shorter: Side::Second }
    );
}

#[test]
fn session_steps_accumulate_offset() {
    let mut s = Session::new();
    assert_eq!(s.offset(), 0);
    assert_eq!(s.step(&[1, 2, 3], &[1, 2, 3]), None);
    assert_eq!(s.offset(), 3);
    assert_eq!(
        s.step(&[4, 5], &[4, 6]),
        Some(Outcome::Differ { offset: 4, byte_a: 5, byte_b: 6 })
    );
    assert_eq!(s.offset(), 3);
}

#[test]
fn session_ends_on_empty_chunks() {
    let mut s = Session::new();
    assert_eq!(s.step(&[], &[]), Some(Outcome::Identical));
}

#[test]
fn session_reports_first_stream_shorter() {
    let mut s = Session::new();
    assert_eq!(
        s.step(&[1], &[1, 2]),
        Some(Outcome::LengthMismatch { shorter: Side::First })
    );
}

#[test]
fn filler_coalesces_partial_reads() {
    let mut f = Filler::new(10);
    assert_eq!(f.first_action(), FillAction::Read);
    assert_eq!(f.on_read(ReadResult::Bytes(4)), FillAction::Read);
    assert_eq!(f.on_read(ReadResult::Interrupted), FillAction::Read);
    assert_eq!(f.filled(), 4);
    assert_eq!(f.on_read(ReadResult::Bytes(6)), FillAction::Done);
    assert_eq!(f.filled(), 10);
    assert_eq!(f.capacity(), 10);
}

#[test]
fn filler_stops_at_end_of_stream() {
    let mut f = Filler::new(10);
    assert_eq!(f.on_read(ReadResult::Bytes(3)), FillAction::Read);
    assert_eq!(f.on_read(ReadResult::Bytes(0)), FillAction::Done);
    assert_eq!(f.filled(), 3);
}

#[test]
fn filler_aborts_on_failure() {
    let mut f = Filler::new(8);
    assert_eq!(f.on_read(ReadResult::Bytes(2)), FillAction::Read);
    assert_eq!(f.on_read(ReadResult::Failed), FillAction::Abort);
    assert_eq!(f.filled(), 2);
}

#[test]
fn filler_without_room_is_done() {
    let f = Filler::new(0);
    assert_eq!(f.first_action(), FillAction::Done);
    assert_eq!(f.filled(), 0);
}
