use pci::num_ops::{
    deposit_u32, extract_u32, extract_u64, read_u32, round_down, round_up, write_u32,
};

#[test]
fn round_up_test() {
    let result = round_up(10001 as u64, 100 as u64);
    assert_eq!(result, Some(10100));
}

#[test]
fn round_down_test() {
    let result = round_down(10001 as u64, 100 as u64);
    assert_eq!(result, Some(10000));
}

#[test]
fn test_read_u32_from_u64() {
    let value = 0x1234_5678_9012_3456u64;
    assert_eq!(read_u32(value, 0), 0x9012_3456u32);
    assert_eq!(read_u32(value, 1), 0x1234_5678u32);
    assert_eq!(read_u32(value, 2), 0);
}

#[test]
fn test_set_u64_from_half32bit() {
    assert_eq!(write_u32(0x1234_5678, 0), 0x1234_5678u64);
    assert_eq!(write_u32(0x1234_5678, 1), 0x1234_5678_0000_0000u64);
    assert_eq!(write_u32(0x1234_5678, 2), 0);
}

#[test]
fn round_up_of_unaligned_value() {
    assert_eq!(round_up(1003, 4), Some(1004));
}

#[test]
fn round_down_of_unaligned_value() {
    assert_eq!(round_down(1003, 4), Some(1000));
}

#[test]
fn rounding_keeps_aligned_values() {
    assert_eq!(round_up(4096, 4096), Some(4096));
    assert_eq!(round_down(4096, 4096), Some(4096));
    assert_eq!(round_up(0, 7), Some(0));
    assert_eq!(round_down(0, 7), Some(0));
}

#[test]
fn rounding_brackets_the_value() {
    let mut x: u64 = 0;
    while x < 200 {
        let mut a: u64 = 1;
        while a < 20 {
            let down = round_down(x, a).unwrap();
            let up = round_up(x, a).unwrap();
            assert!(down <= x && x <= up);
            assert_eq!(down % a, 0);
            assert_eq!(up % a, 0);
            assert_eq!(down == x, x % a == 0);
            assert_eq!(up == x, x % a == 0);
            assert!(up - down < 2 * a);
            a += 1;
        }
        x += 1;
    }
}

#[test]
fn round_up_has_no_value_on_overflow() {
    assert_eq!(round_up(u64::MAX, 4), None);
    assert_eq!(round_up(u64::MAX - 2, 4), None);
    assert_eq!(round_up(u64::MAX - 3, 4), Some(u64::MAX - 3));
    assert_eq!(round_up(u64::MAX, 1), Some(u64::MAX));
}

#[test]
fn round_down_always_has_a_value() {
    assert_eq!(round_down(u64::MAX, 4), Some(u64::MAX - 3));
    assert_eq!(round_down(3, 4), Some(0));
    assert_eq!(round_down(u64::MAX, u64::MAX), Some(u64::MAX));
}

#[test]
fn read_u32_picks_a_half() {
    assert_eq!(read_u32(0x2000_1000_0000, 1), 0x2000);
    assert_eq!(read_u32(0x2000_1000_0000, 0), 0x1000_0000);
    assert_eq!(read_u32(u64::MAX, 3), 0);
}

#[test]
fn write_u32_fills_a_half() {
    assert_eq!(write_u32(0x1000_0000, 1), 0x1000_0000_0000_0000);
    assert_eq!(write_u32(u32::MAX, 1), 0xffff_ffff_0000_0000);
    assert_eq!(write_u32(u32::MAX, 0), 0xffff_ffff);
}

#[test]
fn extract_u32_reads_a_field() {
    assert_eq!(extract_u32(0xfffa, 0, 8), Some(0xfa));
    assert_eq!(extract_u32(0xfffa, 4, 8), Some(0xff));
    assert_eq!(extract_u32(0x1234_5678, 0, 32), Some(0x1234_5678));
    assert_eq!(extract_u32(0x8000_0000, 31, 1), Some(1));
}

#[test]
fn extract_u32_refuses_a_field_outside_the_word() {
    assert_eq!(extract_u32(0xfffa, 25, 8), None);
    assert_eq!(extract_u32(0xfffa, 0, 33), None);
    assert_eq!(extract_u32(0xfffa, 33, 0), None);
    assert_eq!(extract_u32(0xfffa, u32::MAX, u32::MAX), None);
}

#[test]
fn extract_u32_of_an_empty_field_is_zero() {
    assert_eq!(extract_u32(0xffff_ffff, 0, 0), Some(0));
    assert_eq!(extract_u32(0xffff_ffff, 32, 0), Some(0));
}

#[test]
fn extract_u64_reads_a_field() {
    assert_eq!(extract_u64(0xfbfb_a0a0_ffff_5a5a, 16, 16), Some(0xffff));
    assert_eq!(extract_u64(0xfbfb_a0a0_ffff_5a5a, 0, 64), Some(0xfbfb_a0a0_ffff_5a5a));
    assert_eq!(extract_u64(0xfbfb_a0a0_ffff_5a5a, 48, 16), Some(0xfbfb));
    assert_eq!(extract_u64(0xfbfb_a0a0_ffff_5a5a, 64, 0), Some(0));
}

#[test]
fn extract_u64_refuses_a_field_outside_the_word() {
    assert_eq!(extract_u64(1, 60, 5), None);
    assert_eq!(extract_u64(1, 65, 0), None);
    assert_eq!(extract_u64(1, 0, 65), None);
}

#[test]
fn deposit_u32_writes_a_field() {
    assert_eq!(deposit_u32(0xffff, 0, 8, 0xbaba), Some(0xffba));
    assert_eq!(deposit_u32(0, 28, 4, 0xff), Some(0xf000_0000));
    assert_eq!(deposit_u32(0x1234_5678, 0, 32, 0xdead_beef), Some(0xdead_beef));
    assert_eq!(deposit_u32(0x1234_5678, 7, 0, 0xdead_beef), Some(0x1234_5678));
}

#[test]
fn deposit_u32_refuses_a_field_outside_the_word() {
    assert_eq!(deposit_u32(0xffff, 30, 3, 1), None);
    assert_eq!(deposit_u32(0xffff, 33, 0, 1), None);
}

#[test]
fn deposit_of_extract_gives_the_word_back() {
    let values = [0u32, 1, 0xfffa, 0x1234_5678, 0x8000_0001, u32::MAX];
    for v in values {
        let mut start: u32 = 0;
        while start <= 32 {
            let mut length: u32 = 0;
            while start + length <= 32 {
                let field = extract_u32(v, start, length).unwrap();
                assert_eq!(deposit_u32(v, start, length, field), Some(v));
                length += 1;
            }
            start += 1;
        }
    }
}

#[test]
fn extract_of_deposit_gives_the_field_back() {
    let word = deposit_u32(0xaaaa_aaaa, 8, 12, 0x0f35).unwrap();
    assert_eq!(word, 0xaaaf_35aa);
    assert_eq!(extract_u32(word, 8, 12), Some(0x0f35));
    assert_eq!(extract_u32(word, 0, 8), Some(0xaa));
    assert_eq!(extract_u32(word, 20, 12), Some(0xaaa));
}
