use lan_speedtest::payload::{PayloadSource, RepeatBody};

fn drain(mut body: RepeatBody, chunk: usize) -> u64 {
    let mut total = 0u64;
    while let Some(take) = body.next_frame() {
        assert!(take > 0 && take <= chunk);
        total += take as u64;
    }
    assert!(body.is_end_stream());
    total
}

#[test]
fn emits_exactly_the_requested_length() {
    let src = PayloadSource::new(1024);
    for n in [0u64, 1, 1023, 1024, 1025, 4096, 100_000] {
        assert_eq!(drain(src.body(n), 1024), n, "n = {n}");
    }
}

#[test]
fn size_hint_is_exact_so_hyper_can_set_content_length() {
    let src = PayloadSource::new(64);
    let body = src.body(4096);
    assert_eq!(body.remaining(), 4096);
}

#[test]
fn zero_length_body_is_immediately_end_of_stream() {
    let src = PayloadSource::new(64);
    assert!(src.body(0).is_end_stream());
    assert!(!src.body(1).is_end_stream());
}

#[test]
fn source_buffer_is_not_all_zero() {
    let src = PayloadSource::new(4096);
    assert!(src.chunk().iter().any(|&b| b != 0));
}

#[test]
fn the_buffer_is_printable_ascii_from_the_generator() {
    let src = PayloadSource::new(8);
    let mut x: u32 = 0x9E37_79B9;
    let mut expected = Vec::new();
    for _ in 0..8 {
        x = x.wrapping_mul(1_664_525).wrapping_add(1_013_904_223);
        expected.push(b'!' + (x >> 24) as u8 % 94);
    }
    assert_eq!(src.chunk(), &expected);
    assert!(src.chunk().iter().all(|b| (b'!'..=b'~').contains(b)));
}

#[test]
fn a_zero_sized_buffer_is_made_one_byte_long() {
    let src = PayloadSource::new(0);
    assert_eq!(src.chunk_len(), 1);
    assert_eq!(drain(src.body(5), 1), 5);
}

#[test]
fn frames_are_full_buffers_then_the_rest() {
    let src = PayloadSource::new(10);
    let mut body = src.body(25);
    assert_eq!(body.next_frame(), Some(10));
    assert_eq!(body.remaining(), 15);
    assert_eq!(body.next_frame(), Some(10));
    assert_eq!(body.next_frame(), Some(5));
    assert_eq!(body.next_frame(), None);
}
