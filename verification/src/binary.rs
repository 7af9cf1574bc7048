//! The address at which a binary is loaded into memory.
//!
//! A parser reads the bytes of the binary. This module works on what the
//! parser found: the kind of the object file and, for an ELF file, its
//! program headers.

use vstd::prelude::*;

verus! {

/// The type of a program header that describes a loadable segment.
pub const PT_LOAD: u32 = 1;

/// What the program header of an ELF file says about where its segment
/// lies in memory.
#[derive(Debug, Clone, Copy, PartialEq, Eq, Hash, Structural)]
pub struct ProgramHeader {
    /// The type of the segment.
    pub p_type: u32,
    /// The address of the first byte of the segment in memory.
    pub p_vaddr: u64,
    /// The number of bytes that the segment takes in memory.
    pub p_memsz: u64,
}

/// What a parser found in the bytes of an object file.
#[derive(Debug, PartialEq, Eq, Hash)]
pub enum ObjectFile {
    /// An ELF file with its program headers, in the order of the file.
    Elf(Vec<ProgramHeader>),
    /// A PE file.
    PE,
    /// A Mach-O file.
    Mach,
    /// An archive.
    Archive,
    /// A file of no known type.
    Unknown,
}

/// What an [`ObjectFile`] stands for in specifications.
pub enum ObjectFileView {
    Elf(Seq<ProgramHeader>),
    PE,
    Mach,
    Archive,
    Unknown,
}

impl View for ObjectFile {
    type V = ObjectFileView;

    open spec fn view(&self) -> ObjectFileView {
        match self {
            ObjectFile::Elf(program_headers) => ObjectFileView::Elf(program_headers@),
            ObjectFile::PE => ObjectFileView::PE,
            ObjectFile::Mach => ObjectFileView::Mach,
            ObjectFile::Archive => ObjectFileView::Archive,
            ObjectFile::Unknown => ObjectFileView::Unknown,
        }
    }
}

/// The reason why an object file has no base address.
#[derive(Debug, Clone, Copy, PartialEq, Eq, Hash, Structural)]
pub enum BaseAddressError {
    /// The ELF file has no loadable segment that takes up memory.
    NoLoadableSegment,
    /// The object file is no ELF file.
    UnsupportedBinaryType,
}

impl ProgramHeader {
    /// Whether the segment is loaded and takes up memory.
    ///
    /// A segment whose end would lie beyond the last address takes up no
    /// memory.
    pub open spec fn is_loaded(self) -> bool {
        self.p_type == PT_LOAD && 0 < self.p_memsz && self.p_vaddr + self.p_memsz <= u64::MAX
    }

    /// Whether the segment is loaded and takes up memory, see
    /// [`ProgramHeader::is_loaded`].
    pub fn loaded(&self) -> (loaded: bool)
        ensures
            loaded == self.is_loaded(),
    {
        self.p_type == PT_LOAD && 0 < self.p_memsz && self.p_memsz <= u64::MAX - self.p_vaddr
    }
}

/// The index of the first program header of a segment that is loaded and
/// takes up memory, or the number of program headers if there is none.
pub open spec fn first_loaded(program_headers: Seq<ProgramHeader>) -> int
    decreases program_headers.len(),
{
    if program_headers.len() == 0 || program_headers.first().is_loaded() {
        0
    } else {
        1 + first_loaded(program_headers.drop_first())
    }
}

/// The base address of an object file: the address of the first segment of
/// an ELF file that is loaded and takes up memory.
pub open spec fn base_address_of(object: ObjectFileView) -> Result<u64, BaseAddressError> {
    match object {
        ObjectFileView::Elf(program_headers) => {
            if first_loaded(program_headers) < program_headers.len() {
                Ok(program_headers[first_loaded(program_headers)].p_vaddr)
            } else {
                Err(BaseAddressError::NoLoadableSegment)
            }
        },
        _ => Err(BaseAddressError::UnsupportedBinaryType),
    }
}

/// The first loaded segment lies in the list, no segment before it is
/// loaded, and it is loaded itself.
pub proof fn lemma_first_loaded(program_headers: Seq<ProgramHeader>)
    ensures
        0 <= first_loaded(program_headers) <= program_headers.len(),
        forall|i: int|
            0 <= i < first_loaded(program_headers) ==> !(#[trigger] program_headers[i]).is_loaded(),
        first_loaded(program_headers) < program_headers.len() ==> program_headers[first_loaded(
            program_headers,
        )].is_loaded(),
    decreases program_headers.len(),
{
    if program_headers.len() > 0 && !program_headers.first().is_loaded() {
        let rest = program_headers.drop_first();
        lemma_first_loaded(rest);
        assert forall|i: int| 0 <= i < first_loaded(program_headers) implies !(
        #[trigger] program_headers[i]).is_loaded() by {
            if i > 0 {
                assert(program_headers[i] == rest[i - 1]);
            }
        }
    }
}

impl ObjectFile {
    /// The base address of the object file, see [`base_address_of`].
    pub fn base_address(&self) -> (result: Result<u64, BaseAddressError>)
        ensures
            result == base_address_of(self@),
    {
        match self {
            ObjectFile::Elf(program_headers) => {
                let mut index: usize = 0;
                while index < program_headers.len()
                    invariant
                        index <= program_headers.len(),
                        self@ == ObjectFileView::Elf(program_headers@),
                        forall|i: int| 0 <= i < index ==> !(#[trigger] program_headers@[i]).is_loaded(),
                    decreases program_headers.len() - index,
                {
                    // The loadable segments have to occur in order in the program header table.
                    // So the start address of the first loadable segment is the base offset of the binary.
                    if program_headers[index].loaded() {
                        proof {
                            let first: int = first_loaded(program_headers@);
                            lemma_first_loaded(program_headers@);
                            if first < index {
                                assert(!program_headers@[first].is_loaded());
                            }
                            if index < first {
                                assert(!program_headers@[index as int].is_loaded());
                            }
                        }
                        return Ok(program_headers[index].p_vaddr);
                    }
                    index = index + 1;
                }
                proof {
                    let first: int = first_loaded(program_headers@);
                    lemma_first_loaded(program_headers@);
                    if first < index {
                        assert(!program_headers@[first].is_loaded());
                    }
                }
                Err(BaseAddressError::NoLoadableSegment)
            },
            _ => Err(BaseAddressError::UnsupportedBinaryType),
        }
    }
}

/// What has to be added to an address that the lifter gives, for which the
/// binary is loaded at `image_base`, to get the address in the binary as
/// it is loaded at `binary_base_address`. Addresses wrap around at the end
/// of the address space, so the offset is the difference modulo 2^64.
pub open spec fn offset_between(binary_base_address: u64, image_base: u64) -> u64 {
    if binary_base_address >= image_base {
        (binary_base_address - image_base) as u64
    } else {
        (binary_base_address + 0x1_0000_0000_0000_0000 - image_base) as u64
    }
}

/// The offset from the addresses of the lifter to the addresses of the
/// loaded binary, see [`offset_between`].
pub fn address_base_offset(binary_base_address: u64, image_base: u64) -> (offset: u64)
    ensures
        offset == offset_between(binary_base_address, image_base),
{
    if binary_base_address >= image_base {
        binary_base_address - image_base
    } else {
        u64::MAX - (image_base - binary_base_address) + 1
    }
}

} // verus!
