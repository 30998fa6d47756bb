use supermips::errors::SuperMipsError;
use supermips::memory::{Memory, Segment, DATA_END, DATA_START, TEXT_END, TEXT_START};

#[test]
fn new_memory_holds_one_block_of_zeros() {
    let mem = Memory::new_mips_default(16);
    assert_eq!(mem.blocksize(), 16);
    assert_eq!(mem.allocated(Segment::Text), 16);
    assert_eq!(mem.allocated(Segment::Data), 16);
    assert_eq!(mem.generation(Segment::Text), 0);
    assert_eq!(mem.generation(Segment::Data), 0);
    for offset in 0..16u32 {
        assert_eq!(mem.get(TEXT_START + offset), Ok(0));
        assert_eq!(mem.get(DATA_START + offset), Ok(0));
    }
}

#[test]
fn address_map_is_two_adjacent_ranges() {
    assert_eq!(TEXT_START, 0x0010_0000);
    assert_eq!(TEXT_END, 0x0400_3FFF);
    assert_eq!(DATA_START, 0x0400_4000);
    assert_eq!(DATA_END, 0x1FFF_FFFF);
    assert_eq!(TEXT_END + 1, DATA_START);
}

#[test]
fn set_then_get_returns_the_value() {
    let mut mem = Memory::new_mips_default(8);
    let addresses = [
        TEXT_START,
        TEXT_START + 7,
        TEXT_START + 8,
        TEXT_START + 1000,
        TEXT_END,
        DATA_START,
        DATA_START + 3,
        DATA_START + 4096,
    ];
    for (i, address) in addresses.iter().enumerate() {
        let value = 0xDEAD_0000 + i as u32;
        assert_eq!(mem.set(*address, value), Ok(()));
        assert_eq!(mem.get(*address), Ok(value));
    }
    for (i, address) in addresses.iter().enumerate() {
        assert_eq!(mem.get(*address), Ok(0xDEAD_0000 + i as u32));
    }
}

#[test]
fn set_then_get_at_the_end_of_the_data_range() {
    let mut mem = Memory::new_mips_default(1 << 20);
    assert_eq!(mem.set(DATA_START + (1 << 22), 77), Ok(()));
    assert_eq!(mem.get(DATA_START + (1 << 22)), Ok(77));
    assert_eq!(mem.get(DATA_END), Ok(0));
}

#[test]
fn overwriting_keeps_the_latest_value() {
    let mut mem = Memory::new_mips_default(4);
    assert_eq!(mem.set(DATA_START + 2, 1), Ok(()));
    assert_eq!(mem.set(DATA_START + 2, 2), Ok(()));
    assert_eq!(mem.get(DATA_START + 2), Ok(2));
    assert_eq!(mem.allocated(Segment::Data), 4);
    assert_eq!(mem.generation(Segment::Data), 2);
}

#[test]
fn unmapped_addresses_are_refused() {
    let mut mem = Memory::new_mips_default(4);
    for address in [0u32, 1, TEXT_START - 1, DATA_END + 1, 0x8000_0000, u32::MAX] {
        assert_eq!(mem.get(address), Err(SuperMipsError::AddressError(address)));
        assert_eq!(mem.set(address, 5), Err(SuperMipsError::AddressError(address)));
    }
    assert_eq!(mem.allocated(Segment::Text), 4);
    assert_eq!(mem.allocated(Segment::Data), 4);
    assert_eq!(mem.generation(Segment::Text), 0);
    assert_eq!(mem.generation(Segment::Data), 0);
}

#[test]
fn reads_past_the_stored_words_are_zero_and_allocate_nothing() {
    let mem = Memory::new_mips_default(4);
    assert_eq!(mem.get(TEXT_START + 4), Ok(0));
    assert_eq!(mem.get(TEXT_END), Ok(0));
    assert_eq!(mem.get(DATA_START + 123_456), Ok(0));
    assert_eq!(mem.get(DATA_END), Ok(0));
    assert_eq!(mem.allocated(Segment::Text), 4);
    assert_eq!(mem.allocated(Segment::Data), 4);
    assert_eq!(mem.generation(Segment::Text), 0);
    assert_eq!(mem.generation(Segment::Data), 0);
}

#[test]
fn growth_comes_in_whole_blocks_of_zeros() {
    let mut mem = Memory::new_mips_default(4);
    assert_eq!(mem.set(TEXT_START + 1, 11), Ok(()));
    assert_eq!(mem.set(TEXT_START + 9, 99), Ok(()));
    assert_eq!(mem.allocated(Segment::Text), 12);
    assert_eq!(mem.allocated(Segment::Data), 4);
    let (words, generation) = mem.snapshot_if_changed(Segment::Text, 0).unwrap();
    assert_eq!(words, vec![0, 11, 0, 0, 0, 0, 0, 0, 0, 99, 0, 0]);
    assert_eq!(generation, 2);
}

#[test]
fn growth_stops_at_the_first_block_boundary_above_the_address() {
    let mut mem = Memory::new_mips_default(5);
    assert_eq!(mem.set(DATA_START + 5, 1), Ok(()));
    assert_eq!(mem.allocated(Segment::Data), 10);
    assert_eq!(mem.set(DATA_START + 9, 1), Ok(()));
    assert_eq!(mem.allocated(Segment::Data), 10);
    assert_eq!(mem.set(DATA_START + 10, 1), Ok(()));
    assert_eq!(mem.allocated(Segment::Data), 15);
    assert_eq!(mem.set(DATA_START + 34, 1), Ok(()));
    assert_eq!(mem.allocated(Segment::Data), 35);
    assert_eq!(mem.set(DATA_START + 35, 1), Ok(()));
    assert_eq!(mem.allocated(Segment::Data), 40);
}

#[test]
fn growth_with_a_block_of_one_word() {
    let mut mem = Memory::new_mips_default(1);
    assert_eq!(mem.allocated(Segment::Text), 1);
    assert_eq!(mem.set(TEXT_START + 6, 3), Ok(()));
    assert_eq!(mem.allocated(Segment::Text), 7);
    let (words, _) = mem.snapshot_if_changed(Segment::Text, 0).unwrap();
    assert_eq!(words, vec![0, 0, 0, 0, 0, 0, 3]);
}

#[test]
fn each_set_advances_one_generation_by_one() {
    let mut mem = Memory::new_mips_default(4);
    for i in 0..10u32 {
        assert_eq!(mem.generation(Segment::Text), i);
        assert_eq!(mem.set(TEXT_START + i, i), Ok(()));
        assert_eq!(mem.get(TEXT_START + i), Ok(i));
        assert_eq!(mem.generation(Segment::Text), i + 1);
        assert_eq!(mem.generation(Segment::Data), 0);
    }
    assert_eq!(mem.set(DATA_START, 1), Ok(()));
    assert_eq!(mem.generation(Segment::Text), 10);
    assert_eq!(mem.generation(Segment::Data), 1);
}

#[test]
fn snapshot_is_handed_out_once_per_change() {
    let mut mem = Memory::new_mips_default(2);
    let mut seen = mem.generation(Segment::Data);
    assert_eq!(mem.snapshot_if_changed(Segment::Data, seen), None);
    assert_eq!(mem.snapshot_if_changed(Segment::Data, seen), None);

    assert_eq!(mem.set(DATA_START + 1, 42), Ok(()));
    let (words, generation) = mem.snapshot_if_changed(Segment::Data, seen).unwrap();
    assert_eq!(words, vec![0, 42]);
    assert_eq!(generation, 1);
    seen = generation;
    assert_eq!(mem.snapshot_if_changed(Segment::Data, seen), None);
    assert_eq!(mem.snapshot_if_changed(Segment::Data, seen), None);

    assert_eq!(mem.set(DATA_START, 7), Ok(()));
    assert_eq!(mem.set(DATA_START + 2, 8), Ok(()));
    let (words, generation) = mem.snapshot_if_changed(Segment::Data, seen).unwrap();
    assert_eq!(words, vec![7, 42, 8, 0]);
    assert_eq!(generation, 3);
    seen = generation;
    assert_eq!(mem.snapshot_if_changed(Segment::Data, seen), None);
}

#[test]
fn snapshot_of_one_segment_ignores_writes_to_the_other() {
    let mut mem = Memory::new_mips_default(2);
    assert_eq!(mem.set(TEXT_START, 1), Ok(()));
    assert_eq!(mem.snapshot_if_changed(Segment::Data, 0), None);
    assert_eq!(mem.snapshot_if_changed(Segment::Text, 0), Some((vec![1, 0], 1)));
}

#[test]
fn load_text_installs_the_words_from_the_base() {
    let mut mem = Memory::new_mips_default(4);
    let program = vec![0x2402_0005, 0x3c01_1001, 0x3424_0003, 0x0000_000c, 0x0810_0004];
    assert_eq!(mem.load_text(program.clone()), Ok(()));
    for (i, word) in program.iter().enumerate() {
        assert_eq!(mem.get(TEXT_START + i as u32), Ok(*word));
    }
    assert_eq!(mem.get(TEXT_START + 5), Ok(0));
    assert_eq!(mem.allocated(Segment::Text), 8);
    assert_eq!(mem.generation(Segment::Text), 5);
    assert_eq!(mem.generation(Segment::Data), 0);
    assert_eq!(mem.allocated(Segment::Data), 4);
}

#[test]
fn load_data_installs_the_words_from_the_base() {
    let mut mem = Memory::new_mips_default(2);
    let data = vec![0x6e75_6f42, 0x5320_7963, 0x7261_7571, 0x0000_2165];
    assert_eq!(mem.load_data(data.clone()), Ok(()));
    assert_eq!(mem.snapshot_if_changed(Segment::Data, 0), Some((data, 4)));
    assert_eq!(mem.generation(Segment::Text), 0);
}

#[test]
fn loading_nothing_changes_nothing() {
    let mut mem = Memory::new_mips_default(3);
    assert_eq!(mem.load_text(Vec::new()), Ok(()));
    assert_eq!(mem.load_data(Vec::new()), Ok(()));
    assert_eq!(mem.generation(Segment::Text), 0);
    assert_eq!(mem.generation(Segment::Data), 0);
    assert_eq!(mem.allocated(Segment::Text), 3);
    assert_eq!(mem.allocated(Segment::Data), 3);
}
