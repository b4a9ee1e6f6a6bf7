use byteorder::{BigEndian, ByteOrder, LittleEndian};
use s2prot_rs::replay::buffer::BitPackedBuff;
use s2prot_rs::replay::error::{DecodeError, LimitKind};

fn fixture() -> &'static [u8] {
    b"\x00\xae+\x03\x00\xa4\x00\x00\x00\xe7\x03\x00\x00\xbf\x0b\x00\x00\x01traP\xe7\x03\x00\x00\xbf\x0b\x00\x00\x02traP\xe7\x03\x00\x00\xf4\x01\x00\x00\x01nmuH\xe7\x03\x00\x00\xf4\x01\x00\x00\x02nmuH\xe7\x03\x00\x00\xb9\x0b\x00\x00\x01rreT\xe7\x03\x00\x00\xb9\x0b\x00\x00\x02torP\xe7\x03\x00\x00\x1f\x0c\x00\x00\x0100BA\xe7\x03\x00\x00\x1f\x0c\x00\x00\x0200BA\xe7\x03\x00\x00\xc3\x0b\x00\x00\x010   \xe7\x03\x00\x00\xc3\x0b\x00\x00\x020   \xe7\x03\x00\x00$\x0c\x00\x00\x0100BA\xe7\x03\x00\x00$\x0c\x00\x00\x0200BA\xe7\x03\x00\x00`\x0c\x00\x00\x0100BA\xe7\x03\x00\x00`\x0c\x00\x00\x0200BA\xe7\x03\x00\x00\xe8\x07\x00\x00\x012T\x00\x00\xe7\x03\x00\x00\xe8\x07\x00\x00\x021T\x00\x00\xe7\x03\x00\x00\xc4\x0b\x00\x00\x0122  \xe7\x03\x00\x00\xc4\x0b\x00\x00\x0222  \xe7\x03\x00\x00\x8d\x13\x00\x00\x010   \xe7\x03\x00\x00\x8d\x13\x00\x00\x020   \xe7\x03\x00\x00&\x0c\x00\x00\x0100BA\xe7\x03\x00\x00&\x0c\x00\x00\x0200BA\xe7\x03\x00\x00%\x0c\x00\x00\x0100BA\xe7\x03\x00\x00%\x0c\x00\x00\x0200BA\xe7\x03\x00\x00\x82\x0c\x00\x00\x0100BA\xe7\x03\x00\x00\x82\x0c\x00\x00\x0200BA\xe7\x03\x00\x00\xba\x0b\x00\x00\x0110ct\xe7\x03\x00\x00\xba\x0b\x00\x00\x0220ct\xe7\x03\x00\x00\xd8\x07\x00\x00\x012T\x00\x00\xe7\x03\x00\x00\xd8\x07\x00\x00\x021T\x00\x00\xe7\x03\x00\x00~\x0c\x00\x00\x0100BA\xe7\x03\x00\x00~\x0c\x00\x00\x0200BA\xe7\x03\x00\x00a\x0c\x00\x00\x0100BA\xe7\x03\x00\x00a\x0c\x00\x00\x0200BA\xe7\x03\x00\x00g\x0c\x00\x00\x0100BA\xe7\x03\x00\x00g\x0c\x00\x00\x0200BA\xe7\x03\x00\x00\xd4\x07\x00\x00\x012T\x00\x00\xe7\x03\x00\x00\xd4\x07\x00\x00\x021T\x00\x00\xe7\x03\x00\x00\xcc\x0b\x00\x00\x01on\x00\x00\xe7\x03\x00\x00\xcc\x0b\x00\x00\x02on\x00\x00\xe7\x03\x00\x00C\x0c\x00\x00\x0100BA\xe7\x03\x00\x00C\x0c\x00\x00\x0200BA\xe7\x03\x00\x00P\x14\x00\x00\x01on\x00\x00\xe7\x03\x00\x00P\x14\x00\x00\x02on\x00\x00\xe7\x03\x00\x00\xd3\x07\x00\x00\x012T\x00\x00\xe7\x03\x00\x00\xd3\x07\x00\x00\x021T\x00\x00\xe7\x03\x00\x00\x7f\x0c\x00\x00\x0100BA\xe7\x03\x00\x00\x7f\x0c\x00\x00\x0200BA\xe7\x03\x00\x00\x84\x0c\x00\x00\x0100BA\xe7\x03\x00\x00\x84\x0c\x00\x00\x0200BA\xe7\x03\x00\x00\xc8\x0b\x00\x00\x010   \xe7\x03\x00\x00\xc8\x0b\x00\x00\x020   \xe7\x03\x00\x00@\x0c\x00\x00\x0100BA\xe7\x03\x00\x00@\x0c\x00\x00\x0200BA\xe7\x03\x00\x00\xa0\x0f\x00\x00\x10HMoN\xe7\x03\x00\x00\xbc\x0b\x00\x00\x01ideM\xe7\x03\x00\x00\xbc\x0b\x00\x00\x02ideM\xe7\x03\x00\x00\xdb\x07\x00\x00\x012T\x00\x00\xe7\x03\x00\x00\xdb\x07\x00\x00\x021T\x00\x00\xe7\x03\x00\x00\xb4\x14\x00\x00\x010   \xe7\x03\x00\x00\xb4\x14\x00\x00\x020   \xe7\x03\x00\x00\x8a\x13\x00\x00\x010   \xe7\x03\x00\x00\x8a\x13\x00\x00\x020   \xe7\x03\x00\x00\xd0\x07\x00\x00\x102t\x00\x00\xe7\x03\x00\x00\x86\x0c\x00\x00\x0100BA\xe7\x03\x00\x00\x86\x0c\x00\x00\x0200BA\xe7\x03\x00\x00\xa5\x0f\x00\x00\x01on\x00\x00\xe7\x03\x00\x00\xa5\x0f\x00\x00\x02on\x00\x00\xe7\x03\x00\x00\xb8\x0b\x00\x00\x10rsaF\xe7\x03\x00\x00\x85\x0c\x00\x00\x0100BA\xe7\x03\x00\x00\x85\x0c\x00\x00\x0200BA\xe7\x03\x00\x00b\x0c\x00\x00\x0100BA\xe7\x03\x00\x00b\x0c\x00\x00\x0200BA\xe7\x03\x00\x00A\x0c\x00\x00\x0100BA\xe7\x03\x00\x00A\x0c\x00\x00\x0200BA\xe7\x03\x00\x00^\x0c\x00\x00\x0100BA\xe7\x03\x00\x00^\x0c\x00\x00\x0200BA\xe7\x03\x00\x00\xbe\x0b\x00\x00\x1001\x00\x00\xe7\x03\x00\x00\xe9\x03\x00\x00\x10sey\x00\xe7\x03\x00\x00\xc1\x0b\x00\x00\x10virP\xe7\x03\x00\x00G\x0c\x00\x00\x0100BA\xe7\x03\x00\x00G\x0c\x00\x00\x0200BA\xe7\x03\x00\x00#\x0c\x00\x00\x0100BA\xe7\x03\x00\x00#\x0c\x00\x00\x0200BA\xe7\x03\x00\x00\xcb\x0b\x00\x00\x01on\x00\x00\xe7\x03\x00\x00\xcb\x0b\x00\x00\x02on\x00\x00\xe7\x03\x00\x00_\x0c\x00\x00\x0100BA\xe7\x03\x00\x00_\x0c\x00\x00\x0200BA\xe7\x03\x00\x00d\x0c\x00\x00\x0100BA\xe7\x03\x00\x00d\x0c\x00\x00\x0200BA\xe7\x03\x00\x00\xe2\x07\x00\x00\x012T\x00\x00\xe7\x03\x00\x00\xe2\x07\x00\x00\x021T\x00\x00\xe7\x03\x00\x00 \x0c\x00\x00\x0100BA\xe7\x03\x00\x00 \x0c\x00\x00\x0200BA\xe7\x03\x00\x00\xd7\x07\x00\x00\x012T\x00\x00\xe7\x03\x00\x00\xd7\x07\x00\x00\x021T\x00\x00\xe7\x03\x00\x00\xbb\x0b\x00\x00\x01001 \xe7\x03\x00\x00\xbb\x0b\x00\x00\x02001 \xe7\x03\x00\x00\xc5\x0b\x00\x00\x01\x00\x00\x00\x00\xe7\x03\x00\x00\xc5\x0b\x00\x00\x02\x00\x00\x00\x00\xe7\x03\x00\x00\xd6\x07\x00\x00\x012T\x00\x00\xe7\x03\x00\x00\xd6\x07\x00\x00\x021T\x00\x00\xe7\x03\x00\x00f\x0c\x00\x00\x0100BA\xe7\x03\x00\x00f\x0c\x00\x00\x0200BA\xe7\x03\x00\x00\xd2\x07\x00\x00\x012T\x00\x00\xe7\x03\x00\x00\xd2\x07\x00\x00\x021T\x00\x00\xe7\x03\x00\x00\xc6\x0b\x00\x00\x011   \xe7\x03\x00\x00\xc6\x0b\x00\x00\x021   \xe7\x03\x00\x00e\x0c\x00\x00\x0100BA\xe7\x03\x00\x00e\x0c\x00\x00\x0200BA\xe7\x03\x00\x00B\x0c\x00\x00\x0100BA\xe7\x03\x00\x00B\x0c\x00\x00\x0200BA\xe7\x03\x00\x00!\x0c\x00\x00\x0100BA\xe7\x03\x00\x00!\x0c\x00\x00\x0200BA\xe7\x03\x00\x00\xc7\x0b\x00\x00\x100\x00\x00\x00\xe7\x03\x00\x00>\x0c\x00\x00\x0100BA\xe7\x03\x00\x00>\x0c\x00\x00\x0200BA\xe7\x03\x00\x00'\x0c\x00\x00\x0100BA\xe7\x03\x00\x00'\x0c\x00\x00\x0200BA\xe7\x03\x00\x00\x83\x0c\x00\x00\x0100BA\xe7\x03\x00\x00\x83\x0c\x00\x00\x0200BA\xe7\x03\x00\x00\x8c\x13\x00\x00\x010   \xe7\x03\x00\x00\x8c\x13\x00\x00\x020   \xe7\x03\x00\x00?\x0c\x00\x00\x0100BA\xe7\x03\x00\x00?\x0c\x00\x00\x0200BA\xe7\x03\x00\x00D\x0c\x00\x00\x0100BA\xe7\x03\x00\x00D\x0c\x00\x00\x0200BA\xe7\x03\x00\x00\x8b\x13\x00\x00\x010   \xe7\x03\x00\x00\x8b\x13\x00\x00\x020   \xe7\x03\x00\x00\x80\x0c\x00\x00\x0100BA\xe7\x03\x00\x00\x80\x0c\x00\x00\x0200BA\xe7\x03\x00\x00\xd5\x07\x00\x00\x012T\x00\x00\xe7\x03\x00\x00\xd5\x07\x00\x00\x021T\x00\x00\xe7\x03\x00\x00\xe8\x03\x00\x00\x10tlfD\xe7\x03\x00\x00\xc0\x0b\x00\x00\x01sbO\x00\xe7\x03\x00\x00\xc0\x0b\x00\x00\x02sbO\x00\xe7\x03\x00\x00\xc2\x0b\x00\x00\x10sey\x00\xe7\x03\x00\x00\x89\x13\x00\x00\x010   \xe7\x03\x00\x00\x89\x13\x00\x00\x020   \xe7\x03\x00\x00F\x0c\x00\x00\x0100BA\xe7\x03\x00\x00F\x0c\x00\x00\x0200BA\xae+\x03\x00\x01\x00\x00\x00\x011000\xae+\x03\x00\x01\x00\x00\x00\x021000\xe7\x03\x00\x00\xc9\x0b\x00\x00\x010   \xe7\x03\x00\x00\xc9\x0b\x00\x00\x020   \xe7\x03\x00\x00E\x0c\x00\x00\x0100BA\xe7\x03\x00\x00E\x0c\x00\x00\x0200BA\xe7\x03\x00\x00\"\x0c\x00\x00\x0100BA\xe7\x03\x00\x00\"\x0c\x00\x00\x0200BA\xe7\x03\x00\x00\xa1\x0f\x00\x00\x01on\x00\x00\xe7\x03\x00\x00\xa1\x0f\x00\x00\x02on\x00\x00\xe7\x03\x00\x00\x81\x0c\x00\x00\x0100BA\xe7\x03\x00\x00\x81\x0c\x00\x00\x0200BA\xe7\x03\x00\x00\x1e\x0c\x00\x00\x0100BA\xe7\x03\x00\x00\x1e\x0c\x00\x00\x0200BA\xe7\x03\x00\x00\x87\x0c\x00\x00\x0100BA\xe7\x03\x00\x00\x87\x0c\x00\x00\x0200BA\xe7\x03\x00\x00\x88\x13\x00\x00\x010   \xe7\x03\x00\x00\x88\x13\x00\x00\x020   \xe7\x03\x00\x00c\x0c\x00\x00\x0100BA\xe7\x03\x00\x00c\x0c\x00\x00\x0200BA\xe7\x03\x00\x00\xd1\x07\x00\x00\x101v1\x00\xe7\x03\x00\x00\xec\x13\x00\x00\x010   \xe7\x03\x00\x00\xec\x13\x00\x00\x020"
}

#[test]
fn it_reads_bits() {
    let mut buff = BitPackedBuff::new_big_endian(fixture());
    assert_eq!("0", format!("{:x}", buff.read_bits(8).unwrap()));
    assert_eq!("ae2b0300", format!("{:x}", buff.read_bits(32).unwrap()));
    assert_eq!("a4000000", format!("{:x}", buff.read_bits(32).unwrap()));
}

#[test]
fn buffer_it_reads_bits() {
    let mut buff = BitPackedBuff::new_little_endian(fixture());
    assert_eq!("0", format!("{:x}", buff.read_bits(8).unwrap()));
    assert_eq!("32bae", format!("{:x}", buff.read_bits(32).unwrap()));
    assert_eq!("a4", format!("{:x}", buff.read_bits(32).unwrap()));
}

#[test]
fn it_is_equivalant_to_bigedian_read_32() {
    let data: [u8; 4] = [0xae, 0x2b, 0x03, 0x00];
    assert_eq!("ae2b0300", format!("{:x}", BigEndian::read_u32(&data)));
    let mut buff = BitPackedBuff::new_big_endian(&data);
    assert_eq!(BigEndian::read_u32(&data) as i128, buff.read_bits(32).unwrap());
}

#[test]
fn it_is_equivalant_to_littleedian_read_32() {
    let data: [u8; 4] = [0xae, 0x2b, 0x03, 0x00];
    assert_eq!("32bae", format!("{:x}", LittleEndian::read_u32(&data)));
    let mut buff = BitPackedBuff::new_little_endian(&data);
    assert_eq!(LittleEndian::read_u32(&data) as i128, buff.read_bits(32).unwrap());
}

#[test]
fn it_reads_aligned_bytes() {
    let data: [u8; 6] = [5, 18, 0, 2, 44, 83];
    let mut buff = BitPackedBuff::new_big_endian(&data);
    assert_eq!(0, buff.byte_index);
    let bytes = buff.read_aligned_bytes(4).unwrap();
    assert_eq!(4, buff.byte_index);
    assert_eq!(vec![5, 18, 0, 2], bytes);
}

#[test]
fn it_reads_int() {
    let data: [u8; 2] = [1, 18];
    let mut buff = BitPackedBuff::new_big_endian(&data);
    let res = buff.read_int(16, 1).unwrap();
    assert_eq!(275, res);
}

#[test]
fn it_reads_var_int() {
    let data: [u8; 2] = [44, 83];
    let mut buff = BitPackedBuff::new_little_endian(&data);
    assert_eq!(22, buff.read_var_int().unwrap());
}

#[test]
fn it_reads_var_int_that_is_larger_than_256() {
    let data: [u8; 3] = [176, 177, 11];
    let mut buff = BitPackedBuff::new_little_endian(&data);
    assert_eq!(93272, buff.read_var_int().unwrap());
}

#[test]
fn it_expects_and_skips_bytes() {
    let data: [u8; 6] = [5, 18, 0, 2, 44, 83];
    let mut buff = BitPackedBuff::new_little_endian(&data);
    assert_eq!(0, buff.byte_index);
    buff.expect_and_skip_byte(5).unwrap();
    assert_eq!(1, buff.byte_index);
}

#[test]
fn it_skips_bytes() {
    let data: [u8; 6] = [5, 18, 0, 2, 44, 83];
    let mut buff = BitPackedBuff::new_little_endian(&data);
    assert_eq!(0, buff.byte_index);
    buff.skip_bytes(4).unwrap();
    assert_eq!(4, buff.byte_index);
}

#[test]
fn read_bits_of_nothing_reads_nothing() {
    let data: [u8; 0] = [];
    let mut buff = BitPackedBuff::new_big_endian(&data);
    assert_eq!(Ok(0), buff.read_bits(0));
    assert!(buff.done());
    assert_eq!(Err(DecodeError::EndOfInput), buff.read_bits(1));
}

#[test]
fn read_bits_takes_the_low_bits_of_a_byte_first() {
    let data: [u8; 2] = [0b1011_0101, 0b0000_0110];
    let mut big = BitPackedBuff::new_big_endian(&data);
    assert_eq!(Ok(0b101), big.read_bits(3));
    assert_eq!(Ok(0b10110), big.read_bits(5));
    let mut big = BitPackedBuff::new_big_endian(&data);
    assert_eq!(Ok(0b101), big.read_bits(3));
    // five bits are left of the first byte and stand above the three  low bits of the second
    assert_eq!(Ok((0b10110 << 3) | 0b110), big.read_bits(8));
    let mut little = BitPackedBuff::new_little_endian(&data);
    assert_eq!(Ok(0b101), little.read_bits(3));
    assert_eq!(Ok(0b10110 | (0b110 << 5)), little.read_bits(8));
}

#[test]
fn read_bits_is_additive_on_little_endian_cursors() {
    let data: [u8; 9] = [0xde, 0xad, 0xbe, 0xef, 0x01, 0x23, 0x45, 0x67, 0x89];
    for a in 0..=40usize {
        for b in 0..=(64 - a).min(30) {
            let mut whole = BitPackedBuff::new_little_endian(&data);
            whole.read_bits(5).unwrap();
            let mut split = whole;
            let n = whole.read_bits(a + b).unwrap();
            let first = split.read_bits(a).unwrap();
            let second = split.read_bits(b).unwrap();
            assert_eq!(n, first | (second << a));
            assert_eq!(whole.byte_index, split.byte_index);
            assert_eq!(whole.read_bits(3), split.read_bits(3));
        }
    }
}

#[test]
fn read_bits_is_additive_on_big_endian_cursors_at_byte_boundaries() {
    let data: [u8; 9] = [0xde, 0xad, 0xbe, 0xef, 0x01, 0x23, 0x45, 0x67, 0x89];
    for a in [0usize, 3, 11, 19, 27] {
        for b in 0..=30usize {
            let mut whole = BitPackedBuff::new_big_endian(&data);
            whole.read_bits(5).unwrap();
            let mut split = whole;
            let n = whole.read_bits(a + b).unwrap();
            let first = split.read_bits(a).unwrap();
            let second = split.read_bits(b).unwrap();
            assert_eq!(n, (first << b) | second);
            assert_eq!(whole.read_bits(3), split.read_bits(3));
        }
    }
    // a split inside a byte turns the two pieces of that byte round
    let one: [u8; 1] = [0b1011_0101];
    let mut whole = BitPackedBuff::new_big_endian(&one);
    let mut split = whole;
    let n = whole.read_bits(8).unwrap();
    let first = split.read_bits(3).unwrap();
    let second = split.read_bits(5).unwrap();
    assert_ne!(n, (first << 5) | second);
}

#[test]
fn read_bits_reads_sixty_four_bits() {
    let data: [u8; 9] = [0xff, 0x80, 0, 0, 0, 0, 0, 0, 0x01];
    let mut buff = BitPackedBuff::new_big_endian(&data);
    assert_eq!(Ok(0xff80_0000_0000_0000), buff.read_bits(64));
    assert_eq!(Ok(1), buff.read_bits(8));
    let mut buff = BitPackedBuff::new_big_endian(&data);
    assert_eq!(Ok(0x7f80_0000_0000_0000), buff.read_int(64, i64::MIN));
    let mut buff = BitPackedBuff::new_big_endian(&data);
    assert_eq!(
        Err(DecodeError::ResourceLimit { kind: LimitKind::IntegerRange }),
        buff.read_int(64, 0)
    );
}

#[test]
fn byte_align_is_idempotent() {
    let data: [u8; 3] = [0xff, 0x12, 0x34];
    let mut buff = BitPackedBuff::new_big_endian(&data);
    buff.read_bits(3).unwrap();
    buff.byte_align();
    let once = buff;
    buff.byte_align();
    assert_eq!(format!("{:?}", once), format!("{:?}", buff));
    assert_eq!(Ok(0x12), buff.read_bits(8));
    let after_read = buff;
    buff.byte_align();
    assert_eq!(format!("{:?}", after_read), format!("{:?}", buff));
    let bytes = buff.read_aligned_bytes(1).unwrap();
    assert_eq!(vec![0x34], bytes);
    let after_read = buff;
    buff.byte_align();
    assert_eq!(format!("{:?}", after_read), format!("{:?}", buff));
    assert!(buff.done());
}

#[test]
fn aligned_reads_past_the_end_fail_and_read_nothing() {
    let data: [u8; 2] = [1, 2];
    let mut buff = BitPackedBuff::new_big_endian(&data);
    assert_eq!(Err(DecodeError::EndOfInput), buff.read_aligned_bytes(3));
    assert_eq!(Err(DecodeError::EndOfInput), buff.skip_bytes(3));
    assert_eq!(Err(DecodeError::EndOfInput), buff.read_unaligned_bytes(3));
    assert_eq!(Err(DecodeError::EndOfInput), buff.read_bit_array(17));
    assert_eq!(0, buff.byte_index);
    assert_eq!(Ok(vec![1, 2]), buff.read_unaligned_bytes(2));
    assert_eq!(Err(DecodeError::EndOfInput), buff.expect_and_skip_byte(0));
    assert!(buff.done());
}

#[test]
fn expect_and_skip_byte_passes_a_wrong_byte() {
    let data: [u8; 3] = [7, 8, 9];
    let mut buff = BitPackedBuff::new_big_endian(&data);
    buff.read_bits(3).unwrap();
    assert_eq!(
        Err(DecodeError::UnexpectedTag { expected: 5, actual: 8, offset: 1 }),
        buff.expect_and_skip_byte(5)
    );
    assert_eq!(2, buff.byte_index);
    assert_eq!(Ok(9), buff.read_bits(8));
}

#[test]
fn read_bit_array_reads_whole_bytes_and_the_bits_left_over() {
    let data: [u8; 3] = [0xab, 0xcd, 0b1110_0101];
    let mut buff = BitPackedBuff::new_big_endian(&data);
    assert_eq!(Ok(vec![0xab, 0xcd, 0b101]), buff.read_bit_array(19));
    assert_eq!(Ok(0b11100), buff.read_bits(5));
    let mut buff = BitPackedBuff::new_big_endian(&data);
    assert_eq!(Ok(vec![0xab, 0xcd]), buff.read_bit_array(16));
    assert_eq!(Ok(vec![]), buff.read_bit_array(0));
}

#[test]
fn read_unaligned_bytes_straddles_bytes() {
    let data: [u8; 3] = [0b1010_0101, 0b1100_0011, 0xff];
    let mut buff = BitPackedBuff::new_big_endian(&data);
    assert_eq!(Ok(0b0101), buff.read_bits(4));
    // the four bits left of the first byte stand above the four low bits of the second
    assert_eq!(Ok(vec![0b1010_0011]), buff.read_unaligned_bytes(1));
    assert_eq!(Ok(0b1100), buff.read_bits(4));
}

#[test]
fn read_var_int_reads_negative_numbers_and_refuses_long_ones() {
    let data: [u8; 1] = [0x03];
    let mut buff = BitPackedBuff::new_big_endian(&data);
    assert_eq!(Ok(-1), buff.read_var_int());
    let data: [u8; 10] = [0xff, 0xff, 0xff, 0xff, 0xff, 0xff, 0xff, 0xff, 0xff, 0x01];
    let mut buff = BitPackedBuff::new_big_endian(&data);
    assert_eq!(Ok(-i64::MAX), buff.read_var_int());
    let data: [u8; 10] = [0xfe, 0xff, 0xff, 0xff, 0xff, 0xff, 0xff, 0xff, 0xff, 0x01];
    let mut buff = BitPackedBuff::new_big_endian(&data);
    assert_eq!(Ok(i64::MAX), buff.read_var_int());
    let data: [u8; 10] = [0xff, 0xff, 0xff, 0xff, 0xff, 0xff, 0xff, 0xff, 0xff, 0x02];
    let mut buff = BitPackedBuff::new_big_endian(&data);
    assert_eq!(
        Err(DecodeError::ResourceLimit { kind: LimitKind::IntegerRange }),
        buff.read_var_int()
    );
    let data: [u8; 11] = [0x80, 0x80, 0x80, 0x80, 0x80, 0x80, 0x80, 0x80, 0x80, 0x80, 0x00];
    let mut buff = BitPackedBuff::new_big_endian(&data);
    assert_eq!(
        Err(DecodeError::ResourceLimit { kind: LimitKind::IntegerRange }),
        buff.read_var_int()
    );
    let data: [u8; 2] = [0x80, 0x80];
    let mut buff = BitPackedBuff::new_big_endian(&data);
    assert_eq!(Err(DecodeError::EndOfInput), buff.read_var_int());
}

fn encode_var_int(v: i64) -> Vec<u8> {
    let mut raw: u64 = if v < 0 { 2 * v.unsigned_abs() + 1 } else { 2 * (v as u64) };
    let mut bytes = Vec::new();
    while raw >= 128 {
        bytes.push(128 + (raw % 128) as u8);
        raw /= 128;
    }
    bytes.push(raw as u8);
    bytes
}

#[test]
fn read_var_int_reads_back_what_was_written() {
    let low: i64 = -(1 << 56);
    let high: i64 = (1 << 56) - 1;
    for v in [0, 1, -1, 63, 64, -64, 93272, -93272, 11749, low, low + 1, high, high - 1, 1 << 40] {
        let bytes = encode_var_int(v);
        let mut buff = BitPackedBuff::new_big_endian(&bytes);
        assert_eq!(Ok(v), buff.read_var_int());
        assert!(buff.done());
        let mut buff = BitPackedBuff::new_little_endian(&bytes);
        assert_eq!(Ok(v), buff.read_var_int());
        assert!(buff.done());
    }
}

/// A cursor that reads as the masks and shifts of a byte cache do.
struct Reference<'a> {
    data: &'a [u8],
    byte_index: usize,
    cache: u8,
    big_endian: bool,
    bits_in_cache: usize,
}

impl Reference<'_> {
    const LOWEST_BITS_MASK: [u8; 9] = [0x00, 0x01, 0x03, 0x07, 0x0f, 0x1f, 0x3f, 0x7f, 0xff];

    fn read_bits(&mut self, mut n: usize) -> Option<u128> {
        let mut bits_in_value: usize = 0;
        let mut value: u128 = 0;
        loop {
            if self.bits_in_cache == 0 {
                self.cache = *self.data.get(self.byte_index)?;
                self.byte_index += 1;
                self.bits_in_cache = 8;
            }
            if n > self.bits_in_cache {
                if self.big_endian {
                    value = (value << self.bits_in_cache) | self.cache as u128;
                } else {
                    value |= (self.cache as u128) << bits_in_value;
                }
                n -= self.bits_in_cache;
                bits_in_value += self.bits_in_cache;
                self.bits_in_cache = 0;
            } else {
                let piece = (self.cache & Self::LOWEST_BITS_MASK[n]) as u128;
                if self.big_endian {
                    value = (value << n) | piece;
                } else {
                    value |= piece << bits_in_value;
                }
                if n == self.bits_in_cache {
                    self.bits_in_cache = 0;
                } else {
                    self.bits_in_cache -= n;
                    self.cache >>= n;
                }
                return Some(value);
            }
        }
    }
}

#[test]
fn read_bits_reads_as_masks_and_shifts_of_a_byte_cache_do() {
    let mut state: u64 = 0x9e37_79b9_7f4a_7c15;
    let mut next = move |bound: u64| {
        state ^= state << 13;
        state ^= state >> 7;
        state ^= state << 17;
        state % bound
    };
    for round in 0..400 {
        let length = next(40) as usize;
        let data: Vec<u8> = (0..length).map(|_| next(256) as u8).collect();
        let big_endian = round % 2 == 0;
        let mut buff = if big_endian {
            BitPackedBuff::new_big_endian(&data)
        } else {
            BitPackedBuff::new_little_endian(&data)
        };
        let mut reference =
            Reference { data: &data, byte_index: 0, cache: 0, big_endian, bits_in_cache: 0 };
        loop {
            let n = 1 + next(64) as usize;
            let before = buff;
            match reference.read_bits(n) {
                Some(value) => {
                    assert_eq!(Ok(value as i128), buff.read_bits(n));
                    assert_eq!(reference.byte_index, buff.byte_index);
                    assert_eq!(reference.bits_in_cache == 0, buff.bits_in_cache == 0);
                }
                None => {
                    assert_eq!(Err(DecodeError::EndOfInput), buff.read_bits(n));
                    assert_eq!(format!("{:?}", before), format!("{:?}", buff));
                    break;
                }
            }
        }
    }
}

/// Bytes from which a cursor that has read `used` bits gives the bytes `wanted` next.
fn shifted(wanted: &[u8], used: usize, big_endian: bool) -> Vec<u8> {
    let low = |byte: u8, bits: usize| (byte as u16 & ((1u16 << bits) - 1)) as u8;
    let mut data = vec![0u8; wanted.len() + 1];
    for (i, byte) in wanted.iter().enumerate() {
        if big_endian {
            data[i] |= (byte >> used) << used;
            data[i + 1] |= low(*byte, used);
        } else {
            data[i] |= low(*byte, 8 - used) << used;
            data[i + 1] |= byte >> (8 - used);
        }
    }
    data
}

#[test]
fn read_var_int_reads_back_what_was_written_inside_a_byte() {
    let low: i64 = -(1 << 56);
    let high: i64 = (1 << 56) - 1;
    for v in [0, 1, -1, 64, -64, 93272, -93272, low, high, 0x1234_5678_9abc] {
        let bytes = encode_var_int(v);
        for used in 1..8usize {
            for big_endian in [true, false] {
                let data = shifted(&bytes, used, big_endian);
                let mut buff = if big_endian {
                    BitPackedBuff::new_big_endian(&data)
                } else {
                    BitPackedBuff::new_little_endian(&data)
                };
                buff.read_bits(used).unwrap();
                let mut bytewise = buff;
                assert_eq!(Ok(bytes.clone()), bytewise.read_unaligned_bytes(bytes.len()));
                assert_eq!(Ok(v), buff.read_var_int());
                assert_eq!(format!("{:?}", bytewise), format!("{:?}", buff));
            }
        }
    }
}
