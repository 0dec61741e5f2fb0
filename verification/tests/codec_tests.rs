use rage_pool::corruptor::MemoryCorruptor;
use rage_pool::encode::{i32_from_le_bytes, i32_to_le_bytes, string_bytes};
use rage_pool::meta::{byte_ramp, create_complex_data_structure};
use rage_pool::mixing::{checked_byte_sum, mix_byte, mix_bytes};

#[test]
fn i32_to_le_bytes_orders_low_byte_first() {
    assert_eq!(i32_to_le_bytes(0x0102_0304), vec![4u8, 3, 2, 1]);
    assert_eq!(i32_to_le_bytes(42), vec![42u8, 0, 0, 0]);
    assert_eq!(i32_to_le_bytes(-1), vec![255u8; 4]);
    assert_eq!(i32_to_le_bytes(i32::MIN), vec![0u8, 0, 0, 0x80]);
}

#[test]
fn i32_le_bytes_roundtrip_law() {
    for x in [0i32, 1, -1, 42, i32::MAX, i32::MIN, 123_456_789, -987_654] {
        assert_eq!(i32_from_le_bytes(&i32_to_le_bytes(x)), x);
    }
    let b = vec![0x78u8, 0x56, 0x34, 0x12];
    assert_eq!(i32_from_le_bytes(&b), 0x1234_5678);
    assert_eq!(i32_to_le_bytes(i32_from_le_bytes(&b)), b);
}

#[test]
fn string_bytes_is_utf8() {
    assert_eq!(string_bytes(&"Hello World".to_string()), b"Hello World".to_vec());
    assert_eq!(string_bytes(&"héllo".to_string()), vec![0x68u8, 0xC3, 0xA9, 0x6C, 0x6C, 0x6F]);
    assert_eq!(string_bytes(&String::new()), Vec::<u8>::new());
}

#[test]
fn corruptor_disabled_returns_none_and_keeps_bytes() {
    let mut c = MemoryCorruptor::new(vec![1u8, 2, 3]);
    assert!(!c.corruption_enabled());
    assert_eq!(c.corrupt(&vec![true, true, true]), None);
    c.set_corruption_enabled(true);
    assert_eq!(c.corrupt(&vec![false, false, false]), Some(vec![1u8, 2, 3]));
}

#[test]
fn corruptor_inverts_flagged_bytes() {
    let mut c = MemoryCorruptor::new(vec![0x00u8, 0x0F, 0xAA, 0x42]);
    c.set_corruption_enabled(true);
    assert_eq!(c.corrupt(&vec![true, false, true]), Some(vec![0xFFu8, 0x0F, 0x55, 0x42]));
    assert_eq!(c.len(), 4);
}

#[test]
fn corrupting_twice_with_same_flags_restores_law() {
    let mut c = MemoryCorruptor::new(i32_to_le_bytes(42));
    c.set_corruption_enabled(true);
    let flips = vec![true, false, false, true];
    let once = c.corrupt(&flips).unwrap();
    assert_eq!(i32_from_le_bytes(&once), !42i32 ^ 0x00FF_FF00u32 as i32);
    let twice = c.corrupt(&flips).unwrap();
    assert_eq!(i32_from_le_bytes(&twice), 42);
}

fn reference_mix(b: u8) -> u8 {
    let mut val = b as u32;
    for _ in 0..100 {
        val = val.wrapping_mul(31).wrapping_add(17);
        val = val.rotate_left(5);
    }
    val as u8
}

#[test]
fn mix_byte_matches_rounds() {
    for b in 0..=255u8 {
        assert_eq!(mix_byte(b), reference_mix(b));
    }
}

#[test]
fn mix_bytes_maps_each_byte() {
    let data = vec![0u8, 7, 255, 7];
    let out = mix_bytes(&data);
    assert_eq!(out.len(), 4);
    assert_eq!(out[1], out[3]);
    assert_eq!(out, data.iter().map(|b| reference_mix(*b)).collect::<Vec<u8>>());
    assert_eq!(mix_bytes(&Vec::new()), Vec::<u8>::new());
}

#[test]
fn checked_byte_sum_fits_or_not() {
    assert_eq!(checked_byte_sum(&vec![1u8, 2, 3]), Some(6));
    assert_eq!(checked_byte_sum(&vec![]), Some(0));
    assert_eq!(checked_byte_sum(&vec![200u8, 55]), Some(255));
    assert_eq!(checked_byte_sum(&vec![200u8, 56]), None);
    assert_eq!(checked_byte_sum(&vec![0u8; 1000]), Some(0));
}

#[test]
fn byte_ramp_wraps_at_256() {
    let r = byte_ramp(250, 10);
    assert_eq!(r, vec![250u8, 251, 252, 253, 254, 255, 0, 1, 2, 3]);
}

#[test]
fn sample_record_has_three_levels() {
    let m = create_complex_data_structure();
    assert_eq!(m.name, "ComplexNestedStructure");
    assert_eq!(m.timestamp, 69);
    assert_eq!(m.data.len(), 1000);
    assert_eq!(m.data[0], 0);
    assert_eq!(m.data[999], (999 % 256) as u8);
    let n1 = m.nested.as_ref().unwrap();
    assert_eq!(n1.name, "DeeplyNested");
    assert_eq!(n1.timestamp, 420);
    assert_eq!(n1.data[0], (1000 % 256) as u8);
    let n2 = n1.nested.as_ref().unwrap();
    assert_eq!(n2.name, "InceptionLevel");
    assert_eq!(n2.timestamp, 1337);
    assert_eq!(n2.data[999], (2999 % 256) as u8);
    assert!(n2.nested.is_none());
}

#[test]
fn sample_record_clone_is_equal() {
    let m = create_complex_data_structure();
    let c = m.clone();
    assert_eq!(format!("{:?}", m), format!("{:?}", c));
    assert_eq!(c.nested.as_ref().unwrap().nested.as_ref().unwrap().name, "InceptionLevel");
}
