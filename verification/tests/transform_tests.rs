use shn::decrypt;

#[test]
fn involution_restores_any_buffer() {
    let original: Vec<u8> = (0u16..300).map(|i| (i % 256) as u8).collect();
    let mut data = original.clone();
    decrypt(&mut data);
    assert_ne!(data, original);
    decrypt(&mut data);
    assert_eq!(data, original);
}

#[test]
fn involution_on_empty_buffer() {
    let mut data: Vec<u8> = Vec::new();
    decrypt(&mut data);
    assert_eq!(data, Vec::<u8>::new());
}

#[test]
fn keystream_depends_only_on_length_and_position() {
    let b1: Vec<u8> = vec![0x00, 0x11, 0x22, 0x33, 0x44, 0x55, 0x66, 0x77];
    let b2: Vec<u8> = vec![0xff, 0xee, 0xdd, 0xcc, 0xbb, 0xaa, 0x99, 0x88];
    let mut t1 = b1.clone();
    let mut t2 = b2.clone();
    decrypt(&mut t1);
    decrypt(&mut t2);
    for i in 0..b1.len() {
        assert_eq!(t1[i] ^ b1[i], t2[i] ^ b2[i]);
    }
}

#[test]
fn exact_keystream_values() {
    // a single byte is XORed with the length itself
    let mut one = vec![0x00u8];
    decrypt(&mut one);
    assert_eq!(one, vec![0x01]);

    // for two bytes, the top byte takes the length and the key step
    // ((1 & 0x0f) + 0x55) ^ (1 * 11) ^ 2 ^ 0xaa == 0xf5 covers the other
    let mut two = vec![0x00u8, 0x00u8];
    decrypt(&mut two);
    assert_eq!(two, vec![0xf5, 0x02]);
}
