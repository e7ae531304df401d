use zeroboot::bytes::{r16, r32, r64, signed};

#[test]
fn little_endian_reads() {
    let d: [u8; 9] = [0xff, 0x01, 0x02, 0x03, 0x04, 0x05, 0x06, 0x07, 0x88];
    assert_eq!(r64(&d, 1), 0x8807_0605_0403_0201);
    assert_eq!(r32(&d, 5), 0x8807_0605);
    assert_eq!(r16(&d, 7), 0x8807);
    assert_eq!(signed(0xff), -1);
    assert_eq!(signed(0x7f), 127);
    assert_eq!(signed(0x80), -128);
}
