use cwe_checker_lib::{address_base_offset, BaseAddressError, ObjectFile, ProgramHeader};

const PT_LOAD: u32 = 1;
const PT_DYNAMIC: u32 = 2;
const PT_NOTE: u32 = 4;

fn header(p_type: u32, p_vaddr: u64, p_memsz: u64) -> ProgramHeader {
    ProgramHeader { p_type, p_vaddr, p_memsz }
}

#[test]
fn base_address_is_the_start_of_the_first_loaded_segment() {
    let object = ObjectFile::Elf(vec![
        header(PT_NOTE, 0x1000, 0x20),
        header(PT_LOAD, 0x400000, 0x1000),
        header(PT_LOAD, 0x600000, 0x2000),
    ]);
    assert_eq!(object.base_address(), Ok(0x400000));
    let object = ObjectFile::Elf(vec![header(PT_LOAD, 0, 1), header(PT_LOAD, 0x1000, 1)]);
    assert_eq!(object.base_address(), Ok(0));
}

#[test]
fn segments_without_memory_are_passed_over() {
    let object = ObjectFile::Elf(vec![header(PT_LOAD, 0x400000, 0), header(PT_LOAD, 0x401000, 8)]);
    assert_eq!(object.base_address(), Ok(0x401000));
}

#[test]
fn segments_of_other_types_are_passed_over() {
    let object = ObjectFile::Elf(vec![
        header(PT_DYNAMIC, 0x1000, 0x100),
        header(0, 0x2000, 0x100),
        header(PT_NOTE, 0x3000, 0x100),
        header(PT_LOAD, 0x4000, 0x100),
    ]);
    assert_eq!(object.base_address(), Ok(0x4000));
}

#[test]
fn segments_that_pass_the_last_address_are_passed_over() {
    let object = ObjectFile::Elf(vec![
        header(PT_NOTE, 0x10, 0x10),
        header(PT_LOAD, 0x2000, 0),
        header(PT_LOAD, u64::MAX, 2),
        header(PT_LOAD, u64::MAX, 1),
        header(PT_LOAD, u64::MAX - 1, 1),
        header(PT_LOAD, 0x3000, 1),
    ]);
    assert_eq!(object.base_address(), Ok(u64::MAX - 1));
    assert_eq!(
        ObjectFile::Elf(vec![header(PT_LOAD, u64::MAX - 1, 3)]).base_address(),
        Err(BaseAddressError::NoLoadableSegment)
    );
}

#[test]
fn elf_file_without_loaded_segment_has_no_base_address() {
    let object = ObjectFile::Elf(vec![header(PT_NOTE, 0x1000, 0x20), header(PT_LOAD, 0x2000, 0)]);
    assert_eq!(object.base_address(), Err(BaseAddressError::NoLoadableSegment));
    assert_eq!(ObjectFile::Elf(Vec::new()).base_address(), Err(BaseAddressError::NoLoadableSegment));
}

#[test]
fn other_files_are_not_supported() {
    for object in [ObjectFile::PE, ObjectFile::Mach, ObjectFile::Archive, ObjectFile::Unknown] {
        assert_eq!(object.base_address(), Err(BaseAddressError::UnsupportedBinaryType));
    }
}

#[test]
fn loaded_segments() {
    assert!(header(PT_LOAD, 0, 1).loaded());
    assert!(header(PT_LOAD, u64::MAX - 4, 4).loaded());
    assert!(!header(PT_LOAD, u64::MAX - 4, 5).loaded());
    assert!(!header(PT_LOAD, 0x1000, 0).loaded());
    assert!(!header(PT_NOTE, 0x1000, 0x10).loaded());
}

#[test]
fn offset_between_the_base_addresses() {
    assert_eq!(address_base_offset(0x400000, 0x100000), 0x300000);
    assert_eq!(address_base_offset(0x400000, 0x400000), 0);
    assert_eq!(address_base_offset(0, 0), 0);
    assert_eq!(address_base_offset(0x100000, 0x400000), 0xffff_ffff_ffd0_0000);
    assert_eq!(address_base_offset(0, 1), u64::MAX);
    assert_eq!(address_base_offset(0, u64::MAX), 1);
    assert_eq!(address_base_offset(u64::MAX, 0), u64::MAX);
    assert_eq!(address_base_offset(7, 9).wrapping_add(9), 7);
}
