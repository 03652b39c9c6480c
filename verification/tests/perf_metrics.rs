use perf_harness::perf_metrics::{
    get_page_faults, high_resolution_clock, page_fault_delta, TimebaseInfo, VirtualAddress,
    PAGE_FAULTS_UNAVAILABLE,
};

#[test]
fn clock_scales_ticks_by_the_time_base() {
    let info = TimebaseInfo { numer: 125, denom: 3 };
    assert_eq!(high_resolution_clock(24_000_000, info), Some(1_000_000_000));
    assert_eq!(high_resolution_clock(3, info), Some(125));
    assert_eq!(high_resolution_clock(0, info), Some(0));
}

#[test]
fn clock_rounds_nanoseconds_down() {
    let info = TimebaseInfo { numer: 1, denom: 2 };
    assert_eq!(high_resolution_clock(7, info), Some(3));
    assert_eq!(high_resolution_clock(1, info), Some(0));
    let thirds = TimebaseInfo { numer: 2, denom: 3 };
    assert_eq!(high_resolution_clock(10, thirds), Some(6));
}

#[test]
fn clock_with_nanosecond_time_base_is_identity() {
    let info = TimebaseInfo::nanoseconds();
    assert_eq!(info, TimebaseInfo { numer: 1, denom: 1 });
    assert_eq!(high_resolution_clock(5_000_000, info), Some(5_000_000));
    assert_eq!(high_resolution_clock(u64::MAX, info), Some(u64::MAX));
}

#[test]
fn clock_has_no_answer_for_zero_denominator() {
    assert_eq!(high_resolution_clock(100, TimebaseInfo { numer: 1, denom: 0 }), None);
    assert_eq!(high_resolution_clock(0, TimebaseInfo { numer: 0, denom: 0 }), None);
}

#[test]
fn clock_has_no_answer_beyond_64_bits() {
    assert_eq!(high_resolution_clock(u64::MAX, TimebaseInfo { numer: 2, denom: 1 }), None);
    assert_eq!(
        high_resolution_clock(u64::MAX / 2 + 1, TimebaseInfo { numer: 2, denom: 1 }),
        None
    );
    assert_eq!(
        high_resolution_clock(u64::MAX / 2, TimebaseInfo { numer: 2, denom: 1 }),
        Some(u64::MAX - 1)
    );
}

#[test]
fn clock_keeps_the_product_exact_before_dividing() {
    let info = TimebaseInfo { numer: 4_000_000_000, denom: 4_000_000_000 };
    assert_eq!(high_resolution_clock(u64::MAX, info), Some(u64::MAX));
    let info = TimebaseInfo { numer: u32::MAX, denom: u32::MAX };
    assert_eq!(high_resolution_clock(u64::MAX - 1, info), Some(u64::MAX - 1));
}

#[test]
fn clock_is_monotonic_in_the_ticks() {
    let info = TimebaseInfo { numer: 125, denom: 3 };
    let mut last = 0;
    for ticks in 0..200u64 {
        let nanos = high_resolution_clock(ticks, info).unwrap();
        assert!(last <= nanos);
        last = nanos;
    }
}

#[test]
fn page_faults_come_from_a_whole_record_only() {
    assert_eq!(get_page_faults(96, 96, 42), 42);
    assert_eq!(get_page_faults(96, 96, 0), 0);
    assert_eq!(get_page_faults(0, 96, 42), PAGE_FAULTS_UNAVAILABLE);
    assert_eq!(get_page_faults(95, 96, 42), -1);
    assert_eq!(get_page_faults(-1, 96, 42), -1);
}

#[test]
fn page_fault_delta_is_the_difference_of_good_readings() {
    assert_eq!(page_fault_delta(10, 25), 15);
    assert_eq!(page_fault_delta(0, 0), 0);
    assert_eq!(page_fault_delta(7, 7), 0);
    assert_eq!(page_fault_delta(0, i32::MAX), i32::MAX as u64);
}

#[test]
fn page_fault_delta_is_zero_after_a_failed_reading() {
    assert_eq!(page_fault_delta(PAGE_FAULTS_UNAVAILABLE, 25), 0);
    assert_eq!(page_fault_delta(10, PAGE_FAULTS_UNAVAILABLE), 0);
    assert_eq!(page_fault_delta(-1, -1), 0);
    assert_eq!(page_fault_delta(i32::MIN, i32::MAX), 0);
}

#[test]
fn page_fault_delta_is_zero_when_the_counter_went_back() {
    assert_eq!(page_fault_delta(25, 10), 0);
}

#[test]
fn virtual_address_of_zero() {
    let va = VirtualAddress::from_pointer(0);
    assert_eq!(
        va,
        VirtualAddress { l1_index: 0, l2_index: 0, l3_index: 0, l4_index: 0, offset: 0 }
    );
}

#[test]
fn virtual_address_takes_each_field_from_its_bits() {
    let pointer: usize = (1 << 47) | (5 << 36) | (7 << 25) | (9 << 14) | 11;
    let va = VirtualAddress::from_pointer(pointer);
    assert_eq!(
        va,
        VirtualAddress { l1_index: 1, l2_index: 5, l3_index: 7, l4_index: 9, offset: 11 }
    );
}

#[test]
fn virtual_address_fields_at_their_largest() {
    let va = VirtualAddress::from_pointer(0xFFFF_FFFF_FFFF);
    assert_eq!(
        va,
        VirtualAddress {
            l1_index: 1,
            l2_index: 0x7FF,
            l3_index: 0x7FF,
            l4_index: 0x7FF,
            offset: 0x3FFF
        }
    );
}

#[test]
fn virtual_address_ignores_bits_from_48_up() {
    let low: usize = (3 << 36) | (2 << 14) | 0x1234;
    let high: usize = low | (0xABCD << 48);
    assert_eq!(VirtualAddress::from_pointer(high), VirtualAddress::from_pointer(low));
    assert_eq!(
        VirtualAddress::from_pointer(usize::MAX),
        VirtualAddress::from_pointer(0xFFFF_FFFF_FFFF)
    );
}

#[test]
fn virtual_address_field_boundaries() {
    assert_eq!(VirtualAddress::from_pointer(0x3FFF).offset, 0x3FFF);
    assert_eq!(VirtualAddress::from_pointer(0x3FFF).l4_index, 0);
    let va = VirtualAddress::from_pointer(0x4000);
    assert_eq!((va.l4_index, va.offset), (1, 0));
    let va = VirtualAddress::from_pointer(1 << 25);
    assert_eq!((va.l3_index, va.l4_index, va.offset), (1, 0, 0));
    let va = VirtualAddress::from_pointer(1 << 36);
    assert_eq!((va.l2_index, va.l3_index), (1, 0));
    let va = VirtualAddress::from_pointer((1 << 47) - 1);
    assert_eq!((va.l1_index, va.l2_index), (0, 0x7FF));
}

#[test]
fn virtual_address_parts_give_the_address_back() {
    let pointers: [usize; 5] = [0, 1, 0x1234_5678_9ABC, 0xFFFF_FFFF_FFFF, 0x7FFF_0000_4001];
    for pointer in pointers {
        let va = VirtualAddress::from_pointer(pointer);
        let address = ((va.l1_index as usize) << 47)
            + ((va.l2_index as usize) << 36)
            + ((va.l3_index as usize) << 25)
            + ((va.l4_index as usize) << 14)
            + va.offset as usize;
        assert_eq!(address, pointer % (1 << 48));
    }
}
