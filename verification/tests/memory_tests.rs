use wizard_tactics::wizard_memory::{
    MemoryBlob, MemoryCell, MemoryCellType, MemoryLocation, LOCAL_MEMORY, MEMORY_SIZE,
};

#[test]
fn fresh_memory_is_blank() {
    let blob = MemoryBlob::new();
    let cell = blob.get_one(MemoryLocation { pointer: 0 }).unwrap();
    assert_eq!(cell, MemoryCell::new(MemoryCellType::Blank, 0));
    let cell = blob.get_one(MemoryLocation { pointer: MEMORY_SIZE - 1 }).unwrap();
    assert_eq!(cell.value, 0);
}

#[test]
fn reads_past_the_end_name_no_cell() {
    let blob = MemoryBlob::new();
    assert!(blob.get_one(MemoryLocation { pointer: MEMORY_SIZE }).is_none());
}

#[test]
fn written_cells_read_back() {
    let mut blob = MemoryBlob::new();
    let values = vec![
        MemoryCell::new(MemoryCellType::Field, 3),
        MemoryCell::new(MemoryCellType::Field, 7),
    ];
    blob.write_mem(&values, 40).unwrap();
    let read = blob.get_many(40, 2);
    assert_eq!(read, values);
    // Neighbors stay blank.
    assert_eq!(blob.get_one(MemoryLocation { pointer: 39 }).unwrap().value, 0);
    assert_eq!(blob.get_one(MemoryLocation { pointer: 42 }).unwrap().value, 0);
}

#[test]
fn writes_past_the_end_are_rejected() {
    let mut blob = MemoryBlob::new();
    let values = vec![MemoryCell::new(MemoryCellType::Field, 1)];
    assert!(blob.write_mem(&values, MEMORY_SIZE).is_err());
}

#[test]
fn overrunning_write_is_rejected_unchanged() {
    let mut blob = MemoryBlob::new();
    let values = vec![
        MemoryCell::new(MemoryCellType::Field, 5),
        MemoryCell::new(MemoryCellType::Field, 6),
    ];
    // The second value would run past the end of the bank: the whole
    // write is rejected and nothing is truncated into place.
    assert!(blob.write_mem(&values, MEMORY_SIZE - 1).is_err());
    let last = blob.get_one(MemoryLocation { pointer: MEMORY_SIZE - 1 }).unwrap();
    assert_eq!(last.value, 0);
}

#[test]
fn reset_clears_working_memory() {
    let mut blob = MemoryBlob::new();
    let values = vec![MemoryCell::new(MemoryCellType::Field, 9)];
    blob.write_mem(&values, 0).unwrap();
    blob.write_mem(&values, LOCAL_MEMORY - 2).unwrap();
    blob.write_mem(&values, LOCAL_MEMORY - 1).unwrap();
    blob.reset_player_memory();
    assert_eq!(blob.get_one(MemoryLocation { pointer: 0 }).unwrap().value, 0);
    assert_eq!(blob.get_one(MemoryLocation { pointer: LOCAL_MEMORY - 2 }).unwrap().value, 0);
    // The reset covers one cell less than the working memory's size.
    assert_eq!(blob.get_one(MemoryLocation { pointer: LOCAL_MEMORY - 1 }).unwrap().value, 9);
}

#[test]
fn default_location_points_at_the_start() {
    let loc = MemoryLocation::default();
    assert_eq!(loc.pointer, 0);
}

#[test]
fn digit_cells_carry_their_classification() {
    let cell = MemoryCell::new(MemoryCellType::Field, 9);
    assert_eq!(cell.cell_type, MemoryCellType::Field);
    assert_eq!(cell.value, 9);
    assert_eq!(MemoryCell::default(), MemoryCell::new(MemoryCellType::Blank, 0));
}

#[test]
fn empty_write_at_the_boundary() {
    // A start past the end is rejected even with nothing to write;
    // an empty write at the last valid address succeeds.
    let mut blob = MemoryBlob::new();
    let values: Vec<MemoryCell> = Vec::new();
    assert!(blob.write_mem(&values, MEMORY_SIZE).is_err());
    assert!(blob.write_mem(&values, MEMORY_SIZE - 1).is_ok());
}
