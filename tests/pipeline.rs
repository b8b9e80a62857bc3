use std::sync::mpsc;

use voip::{accept_datagram, decode, encode, take_datagram, SampleBuffer, MAX_DATAGRAM_LEN};

fn bits(samples: &[f32]) -> Vec<u32> {
    samples.iter().map(|x| x.to_bits()).collect()
}

fn floats(samples: &[u32]) -> Vec<f32> {
    samples.iter().map(|b| f32::from_bits(*b)).collect()
}

fn holding(samples: &[f32]) -> SampleBuffer {
    let mut b = SampleBuffer::new();
    b.replace(bits(samples));
    b
}

#[test]
fn encode_concrete_block() {
    let wire = encode(&bits(&[0.5, -0.25, 1.0]));
    assert_eq!(
        wire,
        vec![0x00, 0x00, 0x00, 0x3F, 0x00, 0x00, 0x80, 0xBE, 0x00, 0x00, 0x80, 0x3F]
    );
}

#[test]
fn decode_concrete_bytes() {
    let wire = vec![0x00, 0x00, 0x00, 0x3F, 0x00, 0x00, 0x80, 0xBE, 0x00, 0x00, 0x80, 0x3F];
    assert_eq!(floats(&decode(&wire)), vec![0.5f32, -0.25, 1.0]);
}

#[test]
fn encode_matches_std_little_endian() {
    let samples = [0.125f32, -3.5, f32::MAX, f32::MIN_POSITIVE];
    let mut expected = Vec::new();
    for s in samples.iter() {
        expected.extend_from_slice(&s.to_le_bytes());
    }
    assert_eq!(encode(&bits(&samples)), expected);
}

#[test]
fn round_trip_is_bit_exact() {
    let samples = vec![
        0.0f32.to_bits(),
        (-0.0f32).to_bits(),
        f32::INFINITY.to_bits(),
        f32::NEG_INFINITY.to_bits(),
        0x7FC0_0001,
        0xFFFF_FFFF,
        1.5f32.to_bits(),
        0x0000_0001,
    ];
    assert_eq!(decode(&encode(&samples)), samples);
}

#[test]
fn round_trip_of_largest_datagram() {
    let n = MAX_DATAGRAM_LEN / 4;
    let samples: Vec<u32> = (0..n as u32).map(|i| i.wrapping_mul(2654435761)).collect();
    let wire = encode(&samples);
    assert_eq!(wire.len(), 4 * n);
    assert!(wire.len() <= MAX_DATAGRAM_LEN);
    assert_eq!(decode(&wire), samples);
}

#[test]
fn empty_block_encodes_to_nothing() {
    assert!(encode(&Vec::new()).is_empty());
    assert!(decode(&Vec::new()).is_empty());
}

#[test]
fn decode_drops_trailing_partial_sample() {
    let whole = encode(&bits(&[0.5, -0.25]));
    for extra in 1..4usize {
        let mut bytes = whole.clone();
        bytes.extend(std::iter::repeat(0xAB).take(extra));
        assert_eq!(bytes.len(), 8 + extra);
        assert_eq!(floats(&decode(&bytes)), vec![0.5f32, -0.25]);
    }
    assert!(decode(&vec![1, 2, 3]).is_empty());
}

#[test]
fn second_replace_overwrites_first() {
    let mut b = SampleBuffer::new();
    b.replace(bits(&[1.0, 2.0]));
    b.replace(bits(&[3.0]));
    assert_eq!(floats(&b.snapshot_and_clear()), vec![3.0f32]);
    assert!(b.is_empty());
}

#[test]
fn partial_drain_then_rest() {
    let mut b = holding(&[1.0, 2.0, 3.0, 4.0, 5.0]);
    assert_eq!(floats(&b.drain_into(3)), vec![1.0f32, 2.0, 3.0]);
    assert_eq!(floats(&b.drain_into(2)), vec![4.0f32, 5.0]);
    assert!(b.is_empty());
}

#[test]
fn drain_more_than_held() {
    let mut b = holding(&[1.0, 2.0]);
    assert_eq!(floats(&b.drain_into(10)), vec![1.0f32, 2.0]);
    assert_eq!(b.len(), 0);
}

#[test]
fn drain_of_empty_buffer_is_empty() {
    let mut b = SampleBuffer::new();
    assert!(b.drain_into(0).is_empty());
    assert!(b.drain_into(7).is_empty());
    assert!(b.drain_into(usize::MAX).is_empty());
    assert!(b.is_empty());
}

#[test]
fn replace_then_drain_two() {
    let mut b = SampleBuffer::new();
    b.replace(bits(&[1.0, 2.0, 3.0]));
    assert_eq!(floats(&b.drain_into(2)), vec![1.0f32, 2.0]);
    assert_eq!(floats(&b.contents()), vec![3.0f32]);
    assert_eq!(b.len(), 1);
}

#[test]
fn snapshot_clears_buffer() {
    let mut b = holding(&[0.25, 0.75]);
    assert_eq!(floats(&b.snapshot_and_clear()), vec![0.25f32, 0.75]);
    assert!(b.snapshot_and_clear().is_empty());
}

#[test]
fn fill_output_leaves_rest_untouched() {
    let mut b = holding(&[1.0, 2.0]);
    let mut out = bits(&[9.0, 9.0, 9.0, 9.0]);
    assert_eq!(b.fill_output(&mut out), 2);
    assert_eq!(floats(&out), vec![1.0f32, 2.0, 9.0, 9.0]);
    assert!(b.is_empty());
}

#[test]
fn fill_output_keeps_what_does_not_fit() {
    let mut b = holding(&[1.0, 2.0, 3.0]);
    let mut out = bits(&[0.0, 0.0]);
    assert_eq!(b.fill_output(&mut out), 2);
    assert_eq!(floats(&out), vec![1.0f32, 2.0]);
    assert_eq!(floats(&b.contents()), vec![3.0f32]);
}

#[test]
fn take_datagram_skips_empty_buffer() {
    let mut b = SampleBuffer::new();
    assert_eq!(take_datagram(&mut b), None);
}

#[test]
fn take_datagram_sends_once() {
    let mut b = holding(&[0.5, -0.25, 1.0]);
    let d = take_datagram(&mut b).unwrap();
    assert_eq!(d, vec![0x00, 0x00, 0x00, 0x3F, 0x00, 0x00, 0x80, 0xBE, 0x00, 0x00, 0x80, 0x3F]);
    assert!(b.is_empty());
    assert_eq!(take_datagram(&mut b), None);
}

#[test]
fn accept_datagram_replaces_unplayed_samples() {
    let mut b = holding(&[7.0, 8.0, 9.0]);
    accept_datagram(&mut b, &encode(&bits(&[0.5, -0.25])));
    assert_eq!(floats(&b.contents()), vec![0.5f32, -0.25]);
    accept_datagram(&mut b, &vec![1, 2, 3]);
    assert!(b.is_empty());
}

#[test]
fn end_to_end_over_loopback() {
    let block = [0.1f32, -0.7, 0.333, 1.0, -1.0, 0.0];
    let mut outbound = SampleBuffer::new();
    outbound.replace(bits(&block));

    let (tx, rx) = mpsc::channel::<Vec<u8>>();
    tx.send(take_datagram(&mut outbound).unwrap()).unwrap();
    let received = rx.recv().unwrap();

    let mut inbound = SampleBuffer::new();
    accept_datagram(&mut inbound, &received);
    let mut out = vec![0u32; 4];
    assert_eq!(inbound.fill_output(&mut out), 4);
    let mut played = out.clone();
    let mut rest = vec![0u32; 8];
    assert_eq!(inbound.fill_output(&mut rest), 2);
    played.extend_from_slice(&rest[..2]);
    assert_eq!(played, bits(&block));
}

#[test]
fn end_to_end_with_truncated_datagram() {
    let block = [0.5f32, 0.25];
    let mut outbound = SampleBuffer::new();
    outbound.replace(bits(&block));
    let mut wire = take_datagram(&mut outbound).unwrap();
    wire.truncate(7);
    let mut inbound = SampleBuffer::new();
    accept_datagram(&mut inbound, &wire);
    assert_eq!(floats(&inbound.snapshot_and_clear()), vec![0.5f32]);
}
