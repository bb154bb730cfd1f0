use trivium::Trivium;

/// A small generator of test bytes; the same seed gives the same bytes.
struct Bytes(u32);

impl Bytes {
    fn next(&mut self) -> u8 {
        self.0 = self.0.wrapping_mul(1664525).wrapping_add(1013904223);
        (self.0 >> 24) as u8
    }

    fn take(&mut self, n: usize) -> Vec<u8> {
        (0..n).map(|_| self.next()).collect()
    }
}

fn fresh(key: &[u8], iv: &[u8]) -> Trivium {
    Trivium::new(key, iv).unwrap()
}

#[test]
fn two_engines_of_one_key_and_iv_emit_the_same_bytes() {
    let mut source = Bytes(1);
    for len in [0usize, 1, 13, 288, 1000] {
        let key = source.take(80);
        let iv = source.take(80);
        let mut a = fresh(&key, &iv);
        let mut b = fresh(&key, &iv);
        assert_eq!(a.generate(len), b.generate(len));
        assert_eq!(a.generate(16), b.generate(16));
    }
}

#[test]
fn two_engines_of_zero_key_and_iv_emit_the_same_bytes() {
    let mut a = fresh(&[0u8; 80], &[0u8; 80]);
    let mut b = fresh(&[0u8; 80], &[0u8; 80]);
    assert_eq!(a.generate(500), b.generate(500));
}

#[test]
fn a_shorter_request_is_a_prefix_of_a_longer_one() {
    let mut source = Bytes(2);
    let key = source.take(80);
    let iv = source.take(80);
    for (n, k) in [(0usize, 0usize), (0, 5), (1, 1), (13, 4), (100, 188), (288, 1), (300, 300)] {
        let short = fresh(&key, &iv).generate(n);
        let long = fresh(&key, &iv).generate(n + k);
        assert_eq!(short.len(), n);
        assert_eq!(long.len(), n + k);
        assert_eq!(&long[..n], &short[..]);
    }
}

#[test]
fn flipping_an_iv_bit_changes_the_first_byte_for_many_keys() {
    let mut source = Bytes(2024);
    let samples = 64;
    let mut first_byte_changed = 0;
    let mut stream_changed = 0;
    for _ in 0..samples {
        let key = source.take(80);
        let iv = source.take(80);
        let mut position = (source.next() % 80) as usize;
        if position == 18 {
            position = 19;
        }
        let bit = source.next() % 8;
        let mut flipped = iv.clone();
        flipped[position] ^= 1 << bit;
        let a = fresh(&key, &iv).generate(16);
        let b = fresh(&key, &flipped).generate(16);
        if a[0] != b[0] {
            first_byte_changed += 1;
        }
        if a != b {
            stream_changed += 1;
        }
    }
    // One flipped bit reaches one of the eight bit positions of the output,
    // so at best every second first byte changes.
    assert_eq!(first_byte_changed, 27);
    assert!(4 * first_byte_changed >= samples);
    assert_eq!(stream_changed, samples);
}

#[test]
fn a_flipped_bit_changes_only_its_own_bit_position() {
    let mut source = Bytes(10);
    for _ in 0..16 {
        let key = source.take(80);
        let iv = source.take(80);
        let position = (source.next() % 80) as usize;
        let bit = source.next() % 8;
        let base = fresh(&key, &iv).generate(64);

        let mut other_iv = iv.clone();
        other_iv[position] ^= 1 << bit;
        let stream = fresh(&key, &other_iv).generate(64);
        for i in 0..64 {
            assert_eq!((stream[i] ^ base[i]) & !(1u8 << bit), 0);
        }

        let mut other_key = key.clone();
        other_key[position] ^= 1 << bit;
        let stream = fresh(&other_key, &iv).generate(64);
        assert_ne!(stream, base);
        for i in 0..64 {
            assert_eq!((stream[i] ^ base[i]) & !(1u8 << bit), 0);
        }
    }
}

#[test]
fn zero_key_and_iv_use_the_lowest_bit_position_only() {
    let stream = fresh(&[0u8; 80], &[0u8; 80]).generate(1000);
    assert!(stream.iter().all(|b| *b <= 1));
    assert!(stream.iter().any(|b| *b == 1));
}

#[test]
fn every_iv_bit_but_those_under_the_marker_reaches_the_keystream() {
    let key: Vec<u8> = (0..80u32).map(|i| (7 * i + 3) as u8).collect();
    let iv: Vec<u8> = (0..80u32).map(|i| (11 * i + 5) as u8).collect();
    let base = fresh(&key, &iv).generate(16);
    let mut first_byte_changed = 0;
    for position in 0..80 {
        for bit in 0..8 {
            let mut flipped = iv.clone();
            flipped[position] ^= 1 << bit;
            let stream = fresh(&key, &flipped).generate(16);
            if position == 18 {
                assert_eq!(stream, base, "byte {} bit {}", position, bit);
            } else {
                assert_ne!(stream, base, "byte {} bit {}", position, bit);
            }
            if stream[0] != base[0] {
                first_byte_changed += 1;
            }
        }
    }
    assert_eq!(first_byte_changed, 319);
}

#[test]
fn the_iv_byte_under_the_marker_is_not_used() {
    let mut source = Bytes(4);
    let key = source.take(80);
    let iv = source.take(80);
    let mut other = iv.clone();
    other[18] = !other[18];
    assert_eq!(fresh(&key, &iv).generate(256), fresh(&key, &other).generate(256));

    let mut neighbour = iv.clone();
    neighbour[17] = !neighbour[17];
    assert_ne!(fresh(&key, &iv).generate(256), fresh(&key, &neighbour).generate(256));
}

#[test]
fn warm_up_changes_the_keystream_of_zero_key_and_iv() {
    let cold = Trivium::load(&[0u8; 80], &[0u8; 80]).unwrap().generate(13);
    let warm = fresh(&[0u8; 80], &[0u8; 80]).generate(13);
    assert_eq!(cold, vec![0u8; 13]);
    assert_eq!(warm, vec![0, 0, 0, 0, 0, 0, 0, 0, 0, 1, 0, 1, 1]);
    assert_ne!(cold, warm);
}

#[test]
fn warm_up_changes_the_keystream_for_many_keys() {
    let mut source = Bytes(6);
    for _ in 0..32 {
        let key = source.take(80);
        let iv = source.take(80);
        let cold = Trivium::load(&key, &iv).unwrap().generate(32);
        let warm = fresh(&key, &iv).generate(32);
        assert_ne!(cold, warm);
    }
}

#[test]
fn all_zero_key_and_iv_do_not_give_an_all_zero_keystream() {
    let stream = fresh(&[0u8; 80], &[0u8; 80]).generate(64);
    assert!(stream.iter().any(|b| *b != 0));
}

#[test]
fn different_keys_give_different_keystreams() {
    let mut source = Bytes(8);
    let key = source.take(80);
    let iv = source.take(80);
    let base = fresh(&key, &iv).generate(32);
    for position in [0usize, 1, 40, 64, 65, 66, 79] {
        let mut other = key.clone();
        other[position] ^= 0x80;
        assert_ne!(fresh(&other, &iv).generate(32), base, "key byte {}", position);
    }
}
