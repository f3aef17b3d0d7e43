use id3v2::{decode_unsynchronisation, Bytestream, FiniteStream, ScopedReader, UnsyncStream};
use symphonia_core::io::BufReader;

fn one_shot(raw: &[u8]) -> Vec<u8> {
    let mut buf = raw.to_vec();
    let len = decode_unsynchronisation(&mut buf);
    assert!(len <= raw.len());
    assert_eq!(buf.len(), raw.len());
    buf.truncate(len);
    buf
}

fn stream_over(raw: &[u8]) -> UnsyncStream<ScopedReader<'_>> {
    UnsyncStream::new(ScopedReader::new(BufReader::new(raw), raw.len() as u64))
}

/// A small generator of test data, the same on every run.
struct Lcg(u64);

impl Lcg {
    fn next(&mut self) -> u64 {
        self.0 = self.0.wrapping_mul(6364136223846793005).wrapping_add(1442695040888963407);
        self.0 >> 33
    }

    /// Bytes among which 0xFF and 0x00 are frequent.
    fn bytes(&mut self, len: usize) -> Vec<u8> {
        (0..len)
            .map(|_| match self.next() % 4 {
                0 => 0xff,
                1 => 0x00,
                2 => 0x01,
                _ => (self.next() % 256) as u8,
            })
            .collect()
    }
}

#[test]
fn decode_drops_zero_after_ff() {
    assert_eq!(one_shot(&[0xff, 0x00, 0x01]), vec![0xff, 0x01]);
    assert_eq!(one_shot(&[0x01, 0xff, 0x00]), vec![0x01, 0xff]);
    assert_eq!(one_shot(&[0xff, 0x00]), vec![0xff]);
    assert_eq!(one_shot(&[0xff, 0x00, 0xff, 0x00, 0xff, 0x00]), vec![0xff, 0xff, 0xff]);
}

#[test]
fn decode_drops_only_one_zero() {
    assert_eq!(one_shot(&[0xff, 0x00, 0x00]), vec![0xff, 0x00]);
    assert_eq!(one_shot(&[0xff, 0x00, 0x00, 0x00]), vec![0xff, 0x00, 0x00]);
}

#[test]
fn decode_keeps_other_bytes() {
    assert_eq!(one_shot(&[]), Vec::<u8>::new());
    assert_eq!(one_shot(&[0x00]), vec![0x00]);
    assert_eq!(one_shot(&[0xff]), vec![0xff]);
    assert_eq!(one_shot(&[0x00, 0xff]), vec![0x00, 0xff]);
    assert_eq!(one_shot(&[0xff, 0x01, 0x00]), vec![0xff, 0x01, 0x00]);
    assert_eq!(one_shot(&[0xff, 0xff, 0xe0]), vec![0xff, 0xff, 0xe0]);
    assert_eq!(one_shot(&[1, 2, 3, 4, 5]), vec![1, 2, 3, 4, 5]);
}

#[test]
fn decode_of_decoded_data_changes_nothing() {
    let inputs: [&[u8]; 5] = [
        &[],
        &[0xff],
        &[0x00, 0xff, 0x01, 0x00],
        &[0xff, 0xff, 0xff, 0x01, 0x00, 0x00],
        &[1, 2, 3, 0xff, 0xe0, 0x00, 0xfe, 0x00],
    ];
    for input in inputs {
        let once = one_shot(input);
        assert_eq!(once, input.to_vec());
        assert_eq!(one_shot(&once), input.to_vec());
    }
}

#[test]
fn decode_twice_may_differ_where_data_was_not_decoded() {
    // 0xFF 0x00 0x00 decodes to 0xFF 0x00, which still holds a pair.
    let once = one_shot(&[0xff, 0x00, 0x00]);
    assert_eq!(once, vec![0xff, 0x00]);
    assert_eq!(one_shot(&once), vec![0xff]);
}

#[test]
fn stream_single_bytes() {
    let raw = [0x01, 0xff, 0x00, 0x02, 0xff, 0x00, 0x00, 0xff];
    let mut stream = stream_over(&raw);
    let mut out = Vec::new();
    while let Ok(byte) = stream.read_byte() {
        out.push(byte);
    }
    assert_eq!(out, vec![0x01, 0xff, 0x02, 0xff, 0x00, 0xff]);
    assert_eq!(out, one_shot(&raw));
}

#[test]
fn stream_pair_split_over_two_reads() {
    // The 0xFF ends one read, its 0x00 starts the next.
    let raw = [0x01, 0xff, 0x00, 0x02, 0x03];
    let mut stream = stream_over(&raw);
    let mut first = [0u8; 2];
    stream.read_buf_bytes(&mut first).unwrap();
    assert_eq!(first, [0x01, 0xff]);
    let mut second = [0u8; 2];
    stream.read_buf_bytes(&mut second).unwrap();
    assert_eq!(second, [0x02, 0x03]);
    assert!(stream.read_byte().is_err());
}

#[test]
fn stream_pair_split_between_byte_and_bulk() {
    let raw = [0xff, 0x00, 0x02, 0x03];
    let mut stream = stream_over(&raw);
    assert_eq!(stream.read_byte().unwrap(), 0xff);
    let mut rest = [0u8; 2];
    stream.read_buf_bytes(&mut rest).unwrap();
    assert_eq!(rest, [0x02, 0x03]);

    let mut stream = stream_over(&raw);
    let mut first = [0u8; 1];
    stream.read_buf_bytes(&mut first).unwrap();
    assert_eq!(first, [0xff]);
    assert_eq!(stream.read_byte().unwrap(), 0x02);
    assert_eq!(stream.read_byte().unwrap(), 0x03);
}

#[test]
fn stream_bulk_read_is_filled_up() {
    // Four raw bytes decode to three; the fourth decoded byte is read after them.
    let raw = [0x01, 0xff, 0x00, 0x02, 0x03, 0x04];
    let mut stream = stream_over(&raw);
    let mut buf = [0u8; 4];
    stream.read_buf_bytes(&mut buf).unwrap();
    assert_eq!(buf, [0x01, 0xff, 0x02, 0x03]);
    assert_eq!(stream.read_byte().unwrap(), 0x04);
}

#[test]
fn stream_bulk_read_ending_in_a_pair() {
    let raw = [0x01, 0xff, 0x00, 0x00, 0x05];
    let mut stream = stream_over(&raw);
    let mut buf = [0u8; 3];
    stream.read_buf_bytes(&mut buf).unwrap();
    // The 0x00 behind the pair is data.
    assert_eq!(buf, [0x01, 0xff, 0x00]);
    assert_eq!(stream.read_byte().unwrap(), 0x05);
}

#[test]
fn stream_fill_up_drops_zero_after_trailing_ff() {
    let raw = [0xff, 0x00, 0xff, 0x00, 0x07, 0x08];
    let mut stream = stream_over(&raw);
    let mut buf = [0u8; 3];
    stream.read_buf_bytes(&mut buf).unwrap();
    assert_eq!(buf, [0xff, 0xff, 0x07]);
    assert_eq!(stream.read_byte().unwrap(), 0x08);
}

#[test]
fn stream_empty_bulk_read() {
    let raw = [0xff, 0x00];
    let mut stream = stream_over(&raw);
    let mut buf = [0u8; 0];
    stream.read_buf_bytes(&mut buf).unwrap();
    assert_eq!(stream.read_byte().unwrap(), 0xff);
    assert!(stream.read_byte().is_err());
}

#[test]
fn stream_fails_when_decoded_bytes_run_out() {
    let raw = [0x01, 0xff, 0x00];
    let mut stream = stream_over(&raw);
    let mut buf = [0u8; 3];
    assert!(stream.read_buf_bytes(&mut buf).is_err());

    let mut stream = stream_over(&raw);
    let mut buf = [0u8; 4];
    assert!(stream.read_buf_bytes(&mut buf).is_err());

    let mut stream = stream_over(&raw);
    let mut buf = [0u8; 2];
    stream.read_buf_bytes(&mut buf).unwrap();
    assert_eq!(buf, [0x01, 0xff]);
    assert!(stream.read_byte().is_err());
}

#[test]
fn stream_fixed_reads() {
    let raw = [0xff, 0x00, 0x01, 0xff, 0x00, 0x02, 0x03, 0xff, 0x00, 0x04, 0x05, 0x06, 0x07];
    let mut stream = stream_over(&raw);
    assert_eq!(stream.read_double_bytes().unwrap(), [0xff, 0x01]);
    assert_eq!(stream.read_triple_bytes().unwrap(), [0xff, 0x02, 0x03]);
    assert_eq!(stream.read_quad_bytes().unwrap(), [0xff, 0x04, 0x05, 0x06]);
    assert!(stream.read_double_bytes().is_err());
}

#[test]
fn stream_skips_decoded_bytes() {
    let raw = [0x01, 0xff, 0x00, 0x02, 0xff, 0x00, 0x03, 0x04];
    // Decoded: 01 ff 02 ff 03 04.
    let mut stream = stream_over(&raw);
    stream.ignore_bytes(3).unwrap();
    assert_eq!(stream.read_byte().unwrap(), 0xff);
    assert_eq!(stream.read_byte().unwrap(), 0x03);

    let mut stream = stream_over(&raw);
    stream.ignore_bytes(2).unwrap();
    // The 0x00 behind the skipped 0xFF is still taken out.
    assert_eq!(stream.read_byte().unwrap(), 0x02);

    let mut stream = stream_over(&raw);
    stream.ignore_bytes(0).unwrap();
    assert_eq!(stream.read_byte().unwrap(), 0x01);

    let mut stream = stream_over(&raw);
    stream.ignore_bytes(6).unwrap();
    assert!(stream.read_byte().is_err());

    let mut stream = stream_over(&raw);
    assert!(stream.ignore_bytes(7).is_err());
}

#[test]
fn stream_counts_bytes_as_the_stream_below_does() {
    let raw = [0x01, 0xff, 0x00, 0x02];
    let mut stream = stream_over(&raw);
    assert_eq!(stream.bytes_available(), 4);
    assert_eq!(stream.read_byte().unwrap(), 0x01);
    assert_eq!(stream.bytes_available(), 3);
    assert_eq!(stream.read_byte().unwrap(), 0xff);
    assert_eq!(stream.bytes_available(), 2);
    assert_eq!(stream.read_byte().unwrap(), 0x02);
    assert_eq!(stream.bytes_available(), 0);
}

#[test]
fn stream_stops_at_the_bound_of_the_stream_below() {
    let raw = [0x01, 0xff, 0x00, 0x02, 0x03];
    let mut stream = UnsyncStream::new(ScopedReader::new(BufReader::new(&raw), 3));
    assert_eq!(stream.read_byte().unwrap(), 0x01);
    assert_eq!(stream.read_byte().unwrap(), 0xff);
    assert!(stream.read_byte().is_err());
}

#[test]
fn stream_in_any_chunks_gives_the_one_shot_decoding() {
    let mut rng = Lcg(0x1d3);
    for round in 0..400 {
        let raw = rng.bytes(round % 67);
        let expected = one_shot(&raw);
        let mut stream = stream_over(&raw);
        let mut out = Vec::new();
        while out.len() < expected.len() {
            let left = expected.len() - out.len();
            match rng.next() % 6 {
                0 => out.push(stream.read_byte().unwrap()),
                1 if left >= 2 => out.extend_from_slice(&stream.read_double_bytes().unwrap()),
                2 if left >= 3 => out.extend_from_slice(&stream.read_triple_bytes().unwrap()),
                3 if left >= 4 => out.extend_from_slice(&stream.read_quad_bytes().unwrap()),
                _ => {
                    let len = (rng.next() as usize) % (left + 1);
                    let mut buf = vec![0xa5u8; len];
                    stream.read_buf_bytes(&mut buf).unwrap();
                    out.extend_from_slice(&buf);
                }
            }
        }
        assert_eq!(out, expected);
        assert!(stream.read_byte().is_err());
    }
}

#[test]
fn stream_with_skips_gives_the_one_shot_decoding() {
    let mut rng = Lcg(0x2b);
    for round in 0..200 {
        let raw = rng.bytes(1 + round % 50);
        let expected = one_shot(&raw);
        let mut stream = stream_over(&raw);
        let mut at = 0;
        while at < expected.len() {
            let left = expected.len() - at;
            if rng.next() % 2 == 0 {
                let count = (rng.next() as usize) % (left + 1);
                stream.ignore_bytes(count as u64).unwrap();
                at += count;
            } else {
                assert_eq!(stream.read_byte().unwrap(), expected[at]);
                at += 1;
            }
        }
        assert!(stream.read_byte().is_err());
    }
}

#[test]
fn one_shot_decoding_of_parts_with_the_stream_state() {
    // Decoding two halves apart, with the last byte of the first handed on, is what the
    // stream does; it gives the decoding of the whole.
    let mut rng = Lcg(7);
    for round in 0..200 {
        let raw = rng.bytes(2 + round % 40);
        let cut = (rng.next() as usize) % (raw.len() + 1);
        let mut stream = stream_over(&raw);
        let mut first = vec![0u8; 0];
        let mut out = Vec::new();
        // Read the decoded bytes that the first `cut` raw bytes give, one by one.
        let head = one_shot(&raw[..cut]);
        for _ in 0..head.len() {
            first.push(stream.read_byte().unwrap());
        }
        assert_eq!(first, head);
        out.extend_from_slice(&first);
        while let Ok(byte) = stream.read_byte() {
            out.push(byte);
        }
        assert_eq!(out, one_shot(&raw));
    }
}

#[test]
fn stream_takes_the_dropped_zero_with_the_byte_behind_it() {
    let raw = [0xff, 0x00, 0x01];
    let mut stream = stream_over(&raw);
    assert_eq!(stream.read_byte().unwrap(), 0xff);
    // The 0x00 is not taken before the next byte is asked for.
    assert_eq!(stream.bytes_available(), 2);
    assert_eq!(stream.read_byte().unwrap(), 0x01);
    assert_eq!(stream.bytes_available(), 0);
    assert_eq!(stream.bytes_read(), 3);
}

#[test]
fn stream_keeps_a_leading_zero() {
    let raw = [0x00, 0x01];
    let mut stream = stream_over(&raw);
    assert_eq!(stream.read_byte().unwrap(), 0x00);
    assert_eq!(stream.bytes_available(), 1);
    assert_eq!(stream.read_byte().unwrap(), 0x01);
    assert_eq!(stream.bytes_available(), 0);
}

#[test]
fn stream_takes_three_raw_bytes_for_ff_and_the_zero_behind_the_pair() {
    let raw = [0xff, 0x00, 0x00, 0x05];
    let mut stream = stream_over(&raw);
    assert_eq!(stream.read_byte().unwrap(), 0xff);
    assert_eq!(stream.bytes_available(), 3);
    assert_eq!(stream.read_byte().unwrap(), 0x00);
    assert_eq!(stream.bytes_available(), 1);
    assert_eq!(stream.read_byte().unwrap(), 0x05);
    assert_eq!(stream.bytes_available(), 0);
}

#[test]
fn stream_drops_the_zero_behind_a_bulk_read_that_ends_in_ff() {
    let raw = [0x01, 0xff, 0x00, 0x07];
    let mut stream = stream_over(&raw);
    let mut buf = [0u8; 2];
    stream.read_buf_bytes(&mut buf).unwrap();
    assert_eq!(buf, [0x01, 0xff]);
    assert_eq!(stream.bytes_available(), 2);
    assert_eq!(stream.read_byte().unwrap(), 0x07);
    assert_eq!(stream.bytes_available(), 0);
}

#[test]
fn stream_bulk_read_takes_the_raw_bytes_of_its_decoded_bytes() {
    let raw = [0x01, 0xff, 0x00, 0x02, 0x03];
    let mut stream = stream_over(&raw);
    let mut buf = [0u8; 4];
    stream.read_buf_bytes(&mut buf).unwrap();
    assert_eq!(buf, [0x01, 0xff, 0x02, 0x03]);
    assert_eq!(stream.bytes_available(), 0);

    let raw = [0xff, 0x00, 0x00, 0x09];
    let mut stream = stream_over(&raw);
    let mut buf = [0u8; 2];
    stream.read_buf_bytes(&mut buf).unwrap();
    assert_eq!(buf, [0xff, 0x00]);
    assert_eq!(stream.bytes_available(), 1);
    assert_eq!(stream.read_byte().unwrap(), 0x09);
}

#[test]
fn stream_empty_bulk_read_changes_nothing() {
    let raw = [0xff, 0x00, 0x01];
    let mut stream = stream_over(&raw);
    assert_eq!(stream.read_byte().unwrap(), 0xff);
    let mut none = [0u8; 0];
    stream.read_buf_bytes(&mut none).unwrap();
    assert_eq!(stream.bytes_available(), 2);
    // The 0xFF is still the last byte seen: the 0x00 is dropped.
    assert_eq!(stream.read_byte().unwrap(), 0x01);
}

#[test]
fn stream_skip_takes_the_raw_bytes_of_single_reads() {
    let raw = [0xff, 0x00, 0x01, 0x02];
    let mut stream = stream_over(&raw);
    stream.ignore_bytes(2).unwrap();
    assert_eq!(stream.bytes_available(), 1);
    assert_eq!(stream.read_byte().unwrap(), 0x02);

    let mut singles = stream_over(&raw);
    singles.read_byte().unwrap();
    singles.read_byte().unwrap();
    assert_eq!(singles.bytes_available(), 1);
}

#[test]
fn stream_bulk_read_counts_between_its_length_and_twice_that() {
    let mut rng = Lcg(99);
    for round in 0..300 {
        let raw = rng.bytes(1 + round % 60);
        let decoded = one_shot(&raw);
        let mut stream = stream_over(&raw);
        let mut singles = stream_over(&raw);
        let mut at = 0;
        while at < decoded.len() {
            let len = 1 + (rng.next() as usize) % (decoded.len() - at);
            let before = stream.bytes_available();
            let mut buf = vec![0u8; len];
            stream.read_buf_bytes(&mut buf).unwrap();
            let taken = before - stream.bytes_available();
            assert!(taken >= len as u64 && taken <= 2 * len as u64);
            // One by one, the same bytes are taken.
            for _ in 0..len {
                singles.read_byte().unwrap();
            }
            assert_eq!(stream.bytes_available(), singles.bytes_available());
            at += len;
        }
    }
}

#[test]
fn stream_length_and_bytes_read() {
    let raw = [0x01, 0xff, 0x00, 0x02, 0x03];
    let mut stream = UnsyncStream::new(ScopedReader::new(BufReader::new(&raw), 4));
    assert_eq!(stream.len(), 4);
    assert_eq!(stream.bytes_read(), 0);
    stream.read_byte().unwrap();
    stream.read_byte().unwrap();
    assert_eq!(stream.len(), 4);
    assert_eq!(stream.bytes_read(), 2);
    assert_eq!(stream.read_byte().unwrap(), 0x02);
    assert_eq!(stream.bytes_read(), 4);
    assert_eq!(stream.bytes_available(), 0);
}
