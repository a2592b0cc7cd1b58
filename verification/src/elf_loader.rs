//! The loader of relocatable x86_64 ELF modules: it checks the header, lays
//! out the allocated sections, copies their bytes, builds the symbol table
//! and applies the relocations. The module's memory is a byte image placed at
//! a base address that the caller chooses.
use vstd::prelude::*;
use crate::util::{push_all, utf8_to_string, le_bytes, lemma_le_bytes_len};
use crate::util::{keyed_map, keys_unique};
use crate::snapshot::{le_at, pow256};

verus! {

/// File class: 64-bit.
pub const ELFCLASS64: u8 = 2;
/// Byte order: little-endian.
pub const ELFDATA2LSB: u8 = 1;
/// Object type: relocatable.
pub const ET_REL: u16 = 1;
/// Machine: x86_64.
pub const EM_X86_64: u16 = 62;
/// Section types.
pub const SHT_NULL: u32 = 0;
pub const SHT_PROGBITS: u32 = 1;
pub const SHT_SYMTAB: u32 = 2;
pub const SHT_STRTAB: u32 = 3;
pub const SHT_RELA: u32 = 4;
pub const SHT_NOBITS: u32 = 8;
/// Section flag: occupies memory at run time.
pub const SHF_ALLOC: u64 = 0x2;
/// Symbol bindings.
pub const STB_GLOBAL: u8 = 1;
pub const STB_WEAK: u8 = 2;
/// Relocation types.
pub const R_X86_64_64: u32 = 1;
pub const R_X86_64_PC32: u32 = 2;
pub const R_X86_64_PLT32: u32 = 4;
pub const R_X86_64_32: u32 = 10;
pub const R_X86_64_32S: u32 = 11;

/// Sizes of the on-disk records.
pub const EHDR_SIZE: usize = 64;
pub const SHDR_SIZE: usize = 64;
pub const SYM_SIZE: usize = 24;
pub const RELA_SIZE: usize = 24;

/// Little-endian 16-bit value at `o`.
#[verifier::opaque]
pub open spec fn le16(d: Seq<u8>, o: int) -> u16 {
    (d[o] as int + d[o + 1] as int * 256) as u16
}

/// Little-endian 32-bit value at `o`.
#[verifier::opaque]
pub open spec fn le32(d: Seq<u8>, o: int) -> u32 {
    (le16(d, o) as int + le16(d, o + 2) as int * 65536) as u32
}

/// Little-endian 64-bit value at `o`.
#[verifier::opaque]
pub open spec fn le64(d: Seq<u8>, o: int) -> u64 {
    (le32(d, o) as int + le32(d, o + 4) as int * 4294967296) as u64
}

fn rd16(d: &[u8], o: usize) -> (r: u16)
    requires
        o + 2 <= d.len(),
    ensures
        r == le16(d@, o as int),
{
    reveal(le16);
    d[o] as u16 + (d[o + 1] as u16) * 256
}

fn rd32(d: &[u8], o: usize) -> (r: u32)
    requires
        o + 4 <= d.len(),
    ensures
        r == le32(d@, o as int),
{
    reveal(le32);
    rd16(d, o) as u32 + (rd16(d, o + 2) as u32) * 65536
}

fn rd64(d: &[u8], o: usize) -> (r: u64)
    requires
        o + 8 <= d.len(),
    ensures
        r == le64(d@, o as int),
{
    reveal(le64);
    rd32(d, o) as u64 + (rd32(d, o + 4) as u64) * 4294967296
}

/// The ELF file header.
#[derive(Clone, Copy)]
pub struct Elf64Header {
    pub e_ident: [u8; 16],
    pub e_type: u16,
    pub e_machine: u16,
    pub e_version: u32,
    pub e_entry: u64,
    pub e_phoff: u64,
    pub e_shoff: u64,
    pub e_flags: u32,
    pub e_ehsize: u16,
    pub e_phentsize: u16,
    pub e_phnum: u16,
    pub e_shentsize: u16,
    pub e_shnum: u16,
    pub e_shstrndx: u16,
}

/// A section header.
#[derive(Clone, Copy, PartialEq, Eq, Structural)]
pub struct Elf64SectionHeader {
    pub sh_name: u32,
    pub sh_type: u32,
    pub sh_flags: u64,
    pub sh_addr: u64,
    pub sh_offset: u64,
    pub sh_size: u64,
    pub sh_link: u32,
    pub sh_info: u32,
    pub sh_addralign: u64,
    pub sh_entsize: u64,
}

/// A symbol table entry.
#[derive(Clone, Copy, PartialEq, Eq, Structural)]
pub struct Elf64Symbol {
    pub st_name: u32,
    pub st_info: u8,
    pub st_other: u8,
    pub st_shndx: u16,
    pub st_value: u64,
    pub st_size: u64,
}

/// A relocation with an explicit addend.
#[derive(Clone, Copy, PartialEq, Eq, Structural)]
pub struct Elf64Rela {
    pub r_offset: u64,
    pub r_info: u64,
    pub r_addend: i64,
}

impl Elf64Symbol {
    /// The symbol's type: the low four bits of `st_info`.
    pub fn symbol_type(&self) -> (t: u8)
        ensures
            t == self.st_info & 0xf,
            t == self.st_info % 16,
    {
        let i = self.st_info;
        assert(i & 0xf == i % 16) by (bit_vector);
        i & 0xf
    }

    /// The symbol's binding: the high four bits of `st_info`.
    pub fn binding(&self) -> (b: u8)
        ensures
            b == self.st_info >> 4,
            b == self.st_info / 16,
    {
        let i = self.st_info;
        assert(i >> 4 == i / 16) by (bit_vector);
        i >> 4
    }
}

impl Elf64Rela {
    /// The symbol index: the high 32 bits of `r_info`.
    pub fn symbol_index(&self) -> (i: u32)
        ensures
            i == self.r_info / 0x1_0000_0000,
    {
        let r = self.r_info;
        assert(r >> 32 == r / 0x1_0000_0000) by (bit_vector);
        (r >> 32) as u32
    }

    /// The relocation type: the low 32 bits of `r_info`.
    pub fn reloc_type(&self) -> (t: u32)
        ensures
            t == self.r_info % 0x1_0000_0000,
    {
        let r = self.r_info;
        assert(r & 0xffff_ffff == r % 0x1_0000_0000) by (bit_vector);
        (r & 0xffff_ffff) as u32
    }
}

/// The section header stored at `o`.
pub open spec fn section_at(d: Seq<u8>, o: int) -> Elf64SectionHeader {
    Elf64SectionHeader {
        sh_name: le32(d, o),
        sh_type: le32(d, o + 4),
        sh_flags: le64(d, o + 8),
        sh_addr: le64(d, o + 16),
        sh_offset: le64(d, o + 24),
        sh_size: le64(d, o + 32),
        sh_link: le32(d, o + 40),
        sh_info: le32(d, o + 44),
        sh_addralign: le64(d, o + 48),
        sh_entsize: le64(d, o + 56),
    }
}

/// The symbol stored at `o`.
pub open spec fn symbol_at(d: Seq<u8>, o: int) -> Elf64Symbol {
    Elf64Symbol {
        st_name: le32(d, o),
        st_info: d[o + 4],
        st_other: d[o + 5],
        st_shndx: le16(d, o + 6),
        st_value: le64(d, o + 8),
        st_size: le64(d, o + 16),
    }
}

/// The relocation stored at `o`.
pub open spec fn rela_at(d: Seq<u8>, o: int) -> Elf64Rela {
    Elf64Rela { r_offset: le64(d, o), r_info: le64(d, o + 8), r_addend: le64(d, o + 16) as i64 }
}

fn read_section(d: &[u8], o: usize) -> (s: Elf64SectionHeader)
    requires
        o + SHDR_SIZE <= d.len(),
    ensures
        s == section_at(d@, o as int),
{
    Elf64SectionHeader {
        sh_name: rd32(d, o),
        sh_type: rd32(d, o + 4),
        sh_flags: rd64(d, o + 8),
        sh_addr: rd64(d, o + 16),
        sh_offset: rd64(d, o + 24),
        sh_size: rd64(d, o + 32),
        sh_link: rd32(d, o + 40),
        sh_info: rd32(d, o + 44),
        sh_addralign: rd64(d, o + 48),
        sh_entsize: rd64(d, o + 56),
    }
}

fn read_symbol(d: &[u8], o: usize) -> (s: Elf64Symbol)
    requires
        o + SYM_SIZE <= d.len(),
    ensures
        s == symbol_at(d@, o as int),
{
    Elf64Symbol {
        st_name: rd32(d, o),
        st_info: d[o + 4],
        st_other: d[o + 5],
        st_shndx: rd16(d, o + 6),
        st_value: rd64(d, o + 8),
        st_size: rd64(d, o + 16),
    }
}

fn read_rela(d: &[u8], o: usize) -> (r: Elf64Rela)
    requires
        o + RELA_SIZE <= d.len(),
    ensures
        r == rela_at(d@, o as int),
{
    Elf64Rela { r_offset: rd64(d, o), r_info: rd64(d, o + 8), r_addend: rd64(d, o + 16) as i64 }
}

/// Reads the file header of `d`.
pub fn read_header(d: &[u8]) -> (h: Elf64Header)
    requires
        EHDR_SIZE <= d@.len(),
    ensures
        h.e_ident@ == d@.subrange(0, 16),
        h.e_type == le16(d@, 16),
        h.e_machine == le16(d@, 18),
        h.e_version == le32(d@, 20),
        h.e_entry == le64(d@, 24),
        h.e_phoff == le64(d@, 32),
        h.e_shoff == le64(d@, 40),
        h.e_flags == le32(d@, 48),
        h.e_ehsize == le16(d@, 52),
        h.e_phentsize == le16(d@, 54),
        h.e_phnum == le16(d@, 56),
        h.e_shentsize == le16(d@, 58),
        h.e_shnum == le16(d@, 60),
        h.e_shstrndx == le16(d@, 62),
{
    let id: [u8; 16] = [d[0], d[1], d[2], d[3], d[4], d[5], d[6], d[7], d[8], d[9], d[10], d[11], d[12], d[13], d[14], d[15]];
    assert(id@ =~= d@.subrange(0, 16));
    Elf64Header {
        e_ident: id,
        e_type: rd16(d, 16),
        e_machine: rd16(d, 18),
        e_version: rd32(d, 20),
        e_entry: rd64(d, 24),
        e_phoff: rd64(d, 32),
        e_shoff: rd64(d, 40),
        e_flags: rd32(d, 48),
        e_ehsize: rd16(d, 52),
        e_phentsize: rd16(d, 54),
        e_phnum: rd16(d, 56),
        e_shentsize: rd16(d, 58),
        e_shnum: rd16(d, 60),
        e_shstrndx: rd16(d, 62),
    }
}


/// Why a module could not be loaded.
#[derive(Clone)]
pub enum ElfError {
    TooSmall,
    InvalidMagic,
    NotElf64,
    NotLittleEndian,
    NotRelocatable,
    WrongArchitecture,
    InvalidSectionOffset,
    UndefinedSymbol(String),
    RelocationFailed(String),
    AllocationFailed,
}

/// A symbol that the kernel offers to modules.
pub struct KernelSymbol {
    pub name: String,
    pub address: u64,
}

/// Offset of the section header table.
pub open spec fn shoff(d: Seq<u8>) -> int {
    le64(d, 40) as int
}

/// Size of one section header entry.
pub open spec fn shentsize(d: Seq<u8>) -> int {
    le16(d, 58) as int
}

/// Number of sections.
pub open spec fn shnum(d: Seq<u8>) -> int {
    le16(d, 60) as int
}

/// Index of the section-name string table.
pub open spec fn shstrndx(d: Seq<u8>) -> int {
    le16(d, 62) as int
}

/// Where the `i`-th section header is stored.
pub open spec fn hdr_pos(d: Seq<u8>, i: int) -> int {
    shoff(d) + i * shentsize(d)
}

/// The `i`-th section header.
pub open spec fn sec(d: Seq<u8>, i: int) -> Elf64SectionHeader {
    section_at(d, hdr_pos(d, i))
}

/// The bytes of a section lie inside the file.
pub open spec fn in_file(d: Seq<u8>, s: Elf64SectionHeader) -> bool {
    s.sh_offset + s.sh_size <= d.len()
}

/// The bytes of a section.
pub open spec fn sec_bytes(d: Seq<u8>, s: Elf64SectionHeader) -> Seq<u8> {
    d.subrange(s.sh_offset as int, s.sh_offset + s.sh_size)
}

/// The error found in the file header, if any.
pub open spec fn header_error(d: Seq<u8>) -> Option<ElfError> {
    if d.len() < EHDR_SIZE {
        Some(ElfError::TooSmall)
    } else if !(d[0] == 0x7f && d[1] == 0x45 && d[2] == 0x4c && d[3] == 0x46) {
        Some(ElfError::InvalidMagic)
    } else if d[4] != ELFCLASS64 {
        Some(ElfError::NotElf64)
    } else if d[5] != ELFDATA2LSB {
        Some(ElfError::NotLittleEndian)
    } else if le16(d, 16) != ET_REL {
        Some(ElfError::NotRelocatable)
    } else if le16(d, 18) != EM_X86_64 {
        Some(ElfError::WrongArchitecture)
    } else if shoff(d) + shentsize(d) * shnum(d) > d.len() {
        Some(ElfError::InvalidSectionOffset)
    } else {
        None
    }
}

/// Every section header can be read whole, and the section-name table exists
/// and lies inside the file.
pub open spec fn table_readable(d: Seq<u8>) -> bool {
    &&& forall|i: int| 0 <= i < shnum(d) ==> #[trigger] hdr_pos(d, i) + SHDR_SIZE <= d.len()
    &&& 0 <= shstrndx(d) < shnum(d)
    &&& in_file(d, sec(d, shstrndx(d)))
}

/// The section-name table.
pub open spec fn shstrtab(d: Seq<u8>) -> Seq<u8> {
    sec_bytes(d, sec(d, shstrndx(d)))
}

/// The section occupies memory when the module runs.
pub open spec fn is_alloc(s: Elf64SectionHeader) -> bool {
    s.sh_flags & SHF_ALLOC != 0 && s.sh_type != SHT_NULL
}

/// `t` rounded up as the section's alignment asks (the mask of a power of two).
pub open spec fn align_up(t: int, a: u64) -> int {
    if a > 1 { (((t + a - 1) as u64) & !((a - 1) as u64)) as int } else { t }
}

/// The offset of each of the first `k` sections in the module's memory and the
/// total size; none when the sizes overflow 64 bits.
pub open spec fn layout(d: Seq<u8>, k: int) -> Option<(Seq<Option<int>>, int)>
    decreases k,
{
    if k <= 0 {
        Some((Seq::empty(), 0))
    } else {
        match layout(d, k - 1) {
            None => None,
            Some(lt) => {
                let s = sec(d, k - 1);
                if !is_alloc(s) {
                    Some((lt.0.push(None), lt.1))
                } else if s.sh_addralign > 1 && lt.1 + s.sh_addralign - 1 > u64::MAX {
                    None
                } else {
                    let o = align_up(lt.1, s.sh_addralign);
                    if o + s.sh_size > u64::MAX {
                        None
                    } else {
                        Some((lt.0.push(Some(o)), o + s.sh_size))
                    }
                }
            },
        }
    }
}

/// The bytes from `o` up to the first zero byte (or the end).
pub open spec fn cstr(t: Seq<u8>, o: int) -> Seq<u8>
    decreases t.len() - o,
{
    if o < 0 || o >= t.len() || t[o] == 0 { Seq::empty() } else { seq![t[o]] + cstr(t, o + 1) }
}

/// The name read from a string table: its text, or `<invalido>` when the bytes
/// are not UTF-8.
pub open spec fn name_text(b: Seq<u8>) -> Seq<char> {
    if vstd::utf8::valid_utf8(b) {
        vstd::utf8::decode_utf8(b)
    } else {
        seq!['<', 'i', 'n', 'v', 'a', 'l', 'i', 'd', 'o', '>']
    }
}

/// The section is one whose name is read while loading: a copied section or a string table.
pub open spec fn named_section(d: Seq<u8>, s: Elf64SectionHeader) -> bool {
    (is_alloc(s) && s.sh_type == SHT_PROGBITS && in_file(d, s)) || s.sh_type == SHT_STRTAB
}

/// The last of the first `k` sections for which `f` holds.
pub open spec fn last_where(k: int, f: spec_fn(int) -> bool) -> Option<int>
    decreases k,
{
    if k <= 0 { None } else if f(k - 1) { Some(k - 1) } else { last_where(k - 1, f) }
}

/// The symbol table: the last section of that type.
pub open spec fn symtab_index(d: Seq<u8>) -> Option<int> {
    last_where(shnum(d), |i: int| sec(d, i).sh_type == SHT_SYMTAB)
}

/// The name `.strtab`.
pub open spec fn strtab_name() -> Seq<u8> {
    seq![0x2eu8, 0x73u8, 0x74u8, 0x72u8, 0x74u8, 0x61u8, 0x62u8]
}

/// The symbol string table: the last string table named `.strtab`.
pub open spec fn strtab_index(d: Seq<u8>) -> Option<int> {
    last_where(shnum(d), |i: int| sec(d, i).sh_type == SHT_STRTAB
        && cstr(shstrtab(d), sec(d, i).sh_name as int) == strtab_name())
}

/// Both symbol tables were found.
pub open spec fn has_symbols(d: Seq<u8>) -> bool {
    symtab_index(d).is_some() && strtab_index(d).is_some()
}

/// Number of symbols.
pub open spec fn sym_count(d: Seq<u8>) -> int {
    (sec(d, symtab_index(d).unwrap()).sh_size / 24) as int
}

/// The `i`-th symbol.
pub open spec fn sym(d: Seq<u8>, i: int) -> Elf64Symbol {
    symbol_at(d, sec(d, symtab_index(d).unwrap()).sh_offset + 24 * i)
}

/// The name bytes of the `i`-th symbol.
pub open spec fn sym_name(d: Seq<u8>, i: int) -> Seq<u8> {
    cstr(sec_bytes(d, sec(d, strtab_index(d).unwrap())), sym(d, i).st_name as int)
}

/// The symbol tables lie inside the file and every symbol name starts inside its table.
pub open spec fn symbols_readable(d: Seq<u8>) -> bool {
    has_symbols(d) ==> {
        &&& in_file(d, sec(d, symtab_index(d).unwrap()))
        &&& in_file(d, sec(d, strtab_index(d).unwrap()))
        &&& forall|i: int| 0 <= i < sym_count(d) ==> #[trigger] sym(d, i).st_name
            <= sec(d, strtab_index(d).unwrap()).sh_size
    }
}

/// The memory offset of the section that relocations of `s` patch, if it is placed.
pub open spec fn reloc_target(offs: Seq<Option<int>>, s: Elf64SectionHeader) -> Option<int> {
    if s.sh_info < offs.len() { offs[s.sh_info as int] } else { None }
}

/// Every relocation section with a placed target lies inside the file.
pub open spec fn relas_readable(d: Seq<u8>, offs: Seq<Option<int>>) -> bool {
    forall|i: int| 0 <= i < shnum(d) && #[trigger] sec(d, i).sh_type == SHT_RELA
        && reloc_target(offs, sec(d, i)).is_some() ==> in_file(d, sec(d, i))
}


/// `x` reduced to 64 bits, as wrapping arithmetic gives it.
pub open spec fn wrap64(x: int) -> u64 {
    (x % 0x1_0000_0000_0000_0000) as u64
}

/// The kernel's symbols as names and addresses.
pub open spec fn kernel_view(k: Seq<KernelSymbol>) -> Seq<(Seq<char>, u64)> {
    k.map_values(|e: KernelSymbol| (e.name@, e.address))
}

/// The address of the first kernel symbol called `n`.
pub open spec fn kernel_lookup(k: Seq<(Seq<char>, u64)>, n: Seq<char>) -> Option<u64>
    decreases k.len(),
{
    if k.len() == 0 {
        None
    } else if k[0].0 == n {
        Some(k[0].1)
    } else {
        kernel_lookup(k.drop_first(), n)
    }
}

/// The symbol is defined in a section of the module that was placed in memory.
pub open spec fn sym_placed(d: Seq<u8>, offs: Seq<Option<int>>, i: int) -> bool {
    let s = sym(d, i);
    s.st_shndx != 0 && s.st_shndx < shnum(d) && offs[s.st_shndx as int].is_some()
}

/// The address of the `i`-th symbol: inside the module, or from the kernel for
/// a named undefined symbol; none when it does not resolve.
pub open spec fn sym_addr(
    d: Seq<u8>,
    offs: Seq<Option<int>>,
    base: u64,
    kernel: Seq<(Seq<char>, u64)>,
    i: int,
) -> Option<u64> {
    let s = sym(d, i);
    if s.st_shndx != 0 && s.st_shndx < shnum(d) {
        match offs[s.st_shndx as int] {
            Some(o) => Some(wrap64(base + o + s.st_value)),
            None => None,
        }
    } else if s.st_shndx == 0 && sym_name(d, i).len() > 0 {
        kernel_lookup(kernel, name_text(sym_name(d, i)))
    } else {
        None
    }
}

/// The value that relocations against symbol `idx` use: its address, or zero.
pub open spec fn sym_value(d: Seq<u8>, offs: Seq<Option<int>>, base: u64, kernel: Seq<(Seq<char>, u64)>, idx: int) -> u64 {
    if has_symbols(d) && 0 <= idx < sym_count(d) {
        match sym_addr(d, offs, base, kernel, idx) {
            Some(a) => a,
            None => 0,
        }
    } else {
        0
    }
}

/// The exports after the first `n` symbols: global symbols placed in the module,
/// by name; a later one replaces an earlier one of the same name.
pub open spec fn exports_upto(d: Seq<u8>, offs: Seq<Option<int>>, base: u64, n: int) -> Map<Seq<char>, u64>
    decreases n,
{
    if n <= 0 {
        Map::empty()
    } else {
        let m = exports_upto(d, offs, base, n - 1);
        let i = n - 1;
        if sym_placed(d, offs, i) && sym(d, i).st_info / 16 == STB_GLOBAL && sym_name(d, i).len() > 0 {
            m.insert(name_text(sym_name(d, i)), wrap64(base + offs[sym(d, i).st_shndx as int].unwrap() + sym(d, i).st_value))
        } else {
            m
        }
    }
}

/// The module's exports.
pub open spec fn exports_of(d: Seq<u8>, offs: Seq<Option<int>>, base: u64) -> Map<Seq<char>, u64> {
    if has_symbols(d) { exports_upto(d, offs, base, sym_count(d)) } else { Map::empty() }
}

/// `img` with `b` written at `o`.
pub open spec fn splice(img: Seq<u8>, o: int, b: Seq<u8>) -> Seq<u8> {
    img.subrange(0, o) + b + img.subrange(o + b.len(), img.len() as int)
}

/// The memory after copying the bytes of the first `k` sections that were placed
/// and hold file data.
pub open spec fn copy_upto(d: Seq<u8>, offs: Seq<Option<int>>, img: Seq<u8>, k: int) -> Seq<u8>
    decreases k,
{
    if k <= 0 {
        img
    } else {
        let m = copy_upto(d, offs, img, k - 1);
        let s = sec(d, k - 1);
        match offs[k - 1] {
            Some(o) => if s.sh_type == SHT_PROGBITS && in_file(d, s) { splice(m, o, sec_bytes(d, s)) } else { m },
            None => m,
        }
    }
}

/// The memory after one relocation of a section placed at `toff`, with symbol value `sv`.
pub open spec fn apply_rela(img: Seq<u8>, toff: int, base: u64, sv: u64, r: Elf64Rela) -> Seq<u8> {
    let p = toff + r.r_offset;
    if p + 8 > img.len() {
        img
    } else {
        let t = r.r_info % 0x1_0000_0000;
        let v = wrap64(sv + (r.r_addend as u64));
        if t == R_X86_64_64 {
            splice(img, p, le_bytes(v, 8))
        } else if t == R_X86_64_PC32 || t == R_X86_64_PLT32 {
            splice(img, p, le_bytes(wrap64(v - wrap64(base + p)), 4))
        } else if t == R_X86_64_32 || t == R_X86_64_32S {
            splice(img, p, le_bytes(v, 4))
        } else {
            img
        }
    }
}

/// Reading `n` little-endian bytes depends only on those bytes.
proof fn lemma_le_at_same(d: Seq<u8>, e: Seq<u8>, o1: int, o2: int, n: nat)
    requires
        0 <= o1 && o1 + n <= d.len(),
        0 <= o2 && o2 + n <= e.len(),
        d.subrange(o1, o1 + n) == e.subrange(o2, o2 + n),
    ensures
        le_at(d, o1, n) == le_at(e, o2, n),
    decreases n,
{
    if n > 0 {
        assert(d[o1] == d.subrange(o1, o1 + n)[0]);
        assert(e[o2] == e.subrange(o2, o2 + n)[0]);
        assert(d.subrange(o1 + 1, o1 + n) =~= d.subrange(o1, o1 + n).drop_first());
        assert(e.subrange(o2 + 1, o2 + n) =~= e.subrange(o2, o2 + n).drop_first());
        lemma_le_at_same(d, e, o1 + 1, o2 + 1, (n - 1) as nat);
    }
}

/// The bytes `le_bytes` writes read back as the value modulo 256^n.
proof fn lemma_le_bytes_value(v: u64, n: nat)
    ensures
        le_at(le_bytes(v, n), 0, n) == (v as nat) % pow256(n),
        pow256(n) > 0,
    decreases n,
{
    lemma_le_bytes_len(v, n);
    if n == 0 {
    } else {
        let b = le_bytes(v, n);
        let v2: u64 = v / 256;
        lemma_le_bytes_value(v2, (n - 1) as nat);
        lemma_le_bytes_len(v2, (n - 1) as nat);
        assert(b == seq![(v % 256) as u8] + le_bytes(v2, (n - 1) as nat));
        assert(b.subrange(1, n as int) =~= le_bytes(v2, (n - 1) as nat).subrange(0, n - 1));
        lemma_le_at_same(b, le_bytes(v2, (n - 1) as nat), 1, 0, (n - 1) as nat);
        assert(b[0] == (v % 256) as u8);
        vstd::arithmetic::div_mod::lemma_mod_breakdown(v as int, 256, pow256((n - 1) as nat) as int);
        assert(v2 as int == (v as int) / 256);
    }
}

/// Splicing bytes in leaves the rest alone, and the spliced bytes read back.
proof fn lemma_splice_le(img: Seq<u8>, o: int, v: u64, n: nat)
    requires
        0 <= o,
        o + n <= img.len(),
    ensures
        splice(img, o, le_bytes(v, n)).len() == img.len(),
        le_at(splice(img, o, le_bytes(v, n)), o, n) == (v as nat) % pow256(n),
        forall|i: int| 0 <= i < img.len() && !(o <= i < o + n) ==> #[trigger] splice(img, o, le_bytes(v, n))[i] == img[i],
{
    let b = le_bytes(v, n);
    lemma_le_bytes_len(v, n);
    let out = splice(img, o, b);
    assert(out.subrange(o, o + n) =~= b.subrange(0, n as int));
    lemma_le_at_same(out, b, o, 0, n);
    lemma_le_bytes_value(v, n);
    assert forall|i: int| 0 <= i < img.len() && !(o <= i < o + n) implies #[trigger] out[i] == img[i] by {
        if i < o {
            assert(out[i] == img.subrange(0, o)[i]);
        } else {
            assert(out[i] == img.subrange(o + n, img.len() as int)[i - o - n]);
        }
    }
}

/// An addend as the relocation reads it: its bits as an unsigned number.
proof fn lemma_addend_bits(a: i64)
    ensures
        (a as u64) as int == (if a < 0 { a as int + 0x1_0000_0000_0000_0000 } else { a as int }),
{
    assert((a as u64) as int == (if a < 0 { a as int + 0x1_0000_0000_0000_0000 } else { a as int })) by (bit_vector);
}

/// A relocation writes what its type asks for at `P` (the section's place
/// plus the relocation's offset), with `S` the symbol's value and `A` the
/// addend, and leaves every other byte alone: for PC32 and PLT32 the 32 bits
/// written plus `P` come to `S + A` (modulo 2^32), a displacement relative to
/// the place patched; for 32 and 32S they are `S + A` itself; for 64 the 64
/// bits are `S + A`.
pub proof fn lemma_rela_patch(img: Seq<u8>, toff: int, base: u64, sv: u64, r: Elf64Rela)
    requires
        0 <= toff,
        toff + r.r_offset + 8 <= img.len(),
    ensures
        ({
            let p = toff + r.r_offset;
            let out = apply_rela(img, toff, base, sv, r);
            let t = r.r_info % 0x1_0000_0000;
            let sa = sv as int + r.r_addend as int;
            &&& out.len() == img.len()
            &&& (t == R_X86_64_PC32 || t == R_X86_64_PLT32) ==> {
                &&& (le_at(out, p, 4) + base + p) % 0x1_0000_0000 == sa % 0x1_0000_0000
                &&& forall|i: int| 0 <= i < img.len() && !(p <= i < p + 4) ==> #[trigger] out[i] == img[i]
            }
            &&& (t == R_X86_64_32 || t == R_X86_64_32S) ==> {
                &&& le_at(out, p, 4) == sa % 0x1_0000_0000
                &&& forall|i: int| 0 <= i < img.len() && !(p <= i < p + 4) ==> #[trigger] out[i] == img[i]
            }
            &&& t == R_X86_64_64 ==> {
                &&& le_at(out, p, 8) == sa % 0x1_0000_0000_0000_0000
                &&& forall|i: int| 0 <= i < img.len() && !(p <= i < p + 8) ==> #[trigger] out[i] == img[i]
            }
        }),
{
    let p = toff + r.r_offset;
    let t = r.r_info % 0x1_0000_0000;
    let m32: int = 0x1_0000_0000;
    let m64: int = 0x1_0000_0000_0000_0000;
    assert(pow256(4) == m32) by { reveal_with_fuel(pow256, 5); }
    assert(pow256(8) == m64) by { reveal_with_fuel(pow256, 9); }
    lemma_addend_bits(r.r_addend);
    let au = (r.r_addend as u64) as int;
    let big = sv as int + au;
    let sa = sv as int + r.r_addend as int;
    // S + A read through the addend's bits differs from S + A by 0 or 2^64.
    let c: int = if r.r_addend < 0 { 1 } else { 0 };
    assert(big == m32 * (m32 * c) + sa);
    vstd::arithmetic::div_mod::lemma_mod_multiples_vanish(m32 * c, sa, m32);
    vstd::arithmetic::div_mod::lemma_mod_multiples_vanish(c, sa, m64);
    let v = wrap64(sv + (r.r_addend as u64));
    assert(v as int == big % m64);
    vstd::arithmetic::div_mod::lemma_mod_mod(big, m32, m32);
    if t == R_X86_64_64 {
        lemma_splice_le(img, p, v, 8);
    } else if t == R_X86_64_PC32 || t == R_X86_64_PLT32 {
        let q = wrap64(base + p);
        let w = wrap64(v - q);
        lemma_splice_le(img, p, w, 4);
        // w = v - q - 2^64 k3, v = big - 2^64 k1, q = base + p - 2^64 k2, w % 2^32 = w - 2^32 k4.
        vstd::arithmetic::div_mod::lemma_fundamental_div_mod(big, m64);
        vstd::arithmetic::div_mod::lemma_fundamental_div_mod(base + p, m64);
        vstd::arithmetic::div_mod::lemma_fundamental_div_mod(v - q, m64);
        vstd::arithmetic::div_mod::lemma_fundamental_div_mod(w as int, m32);
        let k1 = big / m64;
        let k2 = (base + p) / m64;
        let k3 = (v - q) / m64;
        let k4 = (w as int) / m32;
        let x = (w as int) % m32 + base + p;
        assert(big == m32 * (m32 * (k1 - k2 + k3) + k4) + x) by (nonlinear_arith)
            requires
                big == m64 * k1 + v,
                base + p == m64 * k2 + q,
                v - q == m64 * k3 + w,
                w == m32 * k4 + (w as int) % m32,
                x == (w as int) % m32 + base + p,
                m64 == m32 * m32;
        vstd::arithmetic::div_mod::lemma_mod_multiples_vanish(m32 * (k1 - k2 + k3) + k4, x, m32);
    } else if t == R_X86_64_32 || t == R_X86_64_32S {
        lemma_splice_le(img, p, v, 4);
    }
}

/// A relocation whose 8-byte window runs past the image, or whose type is
/// not one the loader handles, changes nothing.
pub proof fn lemma_rela_leaves_alone(img: Seq<u8>, toff: int, base: u64, sv: u64, r: Elf64Rela)
    requires
        ({
            let t = r.r_info % 0x1_0000_0000;
            toff + r.r_offset + 8 > img.len()
                || !(t == R_X86_64_64 || t == R_X86_64_PC32 || t == R_X86_64_PLT32 || t == R_X86_64_32 || t == R_X86_64_32S)
        }),
    ensures
        apply_rela(img, toff, base, sv, r) == img,
{
}

/// The `j`-th relocation of section `s`.
pub open spec fn rela_of(d: Seq<u8>, s: Elf64SectionHeader, j: int) -> Elf64Rela {
    rela_at(d, s.sh_offset + 24 * j)
}

/// The memory after the first `n` relocations of section `s`.
pub open spec fn reloc_sec(
    img: Seq<u8>,
    d: Seq<u8>,
    offs: Seq<Option<int>>,
    base: u64,
    kernel: Seq<(Seq<char>, u64)>,
    s: Elf64SectionHeader,
    toff: int,
    n: int,
) -> Seq<u8>
    decreases n,
{
    if n <= 0 {
        img
    } else {
        let r = rela_of(d, s, n - 1);
        apply_rela(
            reloc_sec(img, d, offs, base, kernel, s, toff, n - 1),
            toff,
            base,
            sym_value(d, offs, base, kernel, (r.r_info / 0x1_0000_0000) as int),
            r,
        )
    }
}

/// The memory after the relocation sections among the first `k` sections.
pub open spec fn reloc_upto(
    img: Seq<u8>,
    d: Seq<u8>,
    offs: Seq<Option<int>>,
    base: u64,
    kernel: Seq<(Seq<char>, u64)>,
    k: int,
) -> Seq<u8>
    decreases k,
{
    if k <= 0 {
        img
    } else {
        let m = reloc_upto(img, d, offs, base, kernel, k - 1);
        let s = sec(d, k - 1);
        if s.sh_type == SHT_RELA && reloc_target(offs, s).is_some() {
            reloc_sec(m, d, offs, base, kernel, s, reloc_target(offs, s).unwrap(), (s.sh_size / 24) as int)
        } else {
            m
        }
    }
}

/// Every section name that loading reads starts inside the section-name table.
pub open spec fn names_readable(d: Seq<u8>) -> bool {
    forall|i: int| 0 <= i < shnum(d) && #[trigger] named_section(d, sec(d, i))
        ==> sec(d, i).sh_name <= shstrtab(d).len()
}

/// Why `d` cannot be loaded, if it cannot.
pub open spec fn load_error(d: Seq<u8>) -> Option<ElfError> {
    match header_error(d) {
        Some(e) => Some(e),
        None => if !table_readable(d) {
            Some(ElfError::InvalidSectionOffset)
        } else {
            match layout(d, shnum(d)) {
                None => Some(ElfError::AllocationFailed),
                Some(lt) => if lt.1 == 0 || lt.1 > usize::MAX {
                    Some(ElfError::AllocationFailed)
                } else if !names_readable(d) || !symbols_readable(d) || !relas_readable(d, lt.0) {
                    Some(ElfError::InvalidSectionOffset)
                } else {
                    None
                },
            }
        },
    }
}

/// The loaded module's memory image.
pub open spec fn image_of(d: Seq<u8>, base: u64, kernel: Seq<(Seq<char>, u64)>) -> Seq<u8> {
    let lt = layout(d, shnum(d)).unwrap();
    reloc_upto(copy_upto(d, lt.0, Seq::new(lt.1 as nat, |i: int| 0u8), shnum(d)), d, lt.0, base, kernel, shnum(d))
}

/// The exported names and addresses held by a module.
pub open spec fn exports_view(v: Seq<(String, u64)>) -> Seq<(Seq<char>, u64)> {
    v.map_values(|e: (String, u64)| (e.0@, e.1))
}


/// Offsets in memory as integers.
pub open spec fn offs_view(v: Seq<Option<u64>>) -> Seq<Option<int>> {
    v.map_values(|o: Option<u64>| match o {
        Some(x) => Some(x as int),
        None => None,
    })
}

/// Checks the file header.
fn check_header(d: &[u8]) -> (r: Option<ElfError>)
    ensures
        r == header_error(d@),
{
    if d.len() < EHDR_SIZE {
        return Some(ElfError::TooSmall);
    }
    if !(d[0] == 0x7f && d[1] == 0x45 && d[2] == 0x4c && d[3] == 0x46) {
        return Some(ElfError::InvalidMagic);
    }
    if d[4] != ELFCLASS64 {
        return Some(ElfError::NotElf64);
    }
    if d[5] != ELFDATA2LSB {
        return Some(ElfError::NotLittleEndian);
    }
    if rd16(d, 16) != ET_REL {
        return Some(ElfError::NotRelocatable);
    }
    if rd16(d, 18) != EM_X86_64 {
        return Some(ElfError::WrongArchitecture);
    }
    let off = rd64(d, 40) as u128;
    let ent = rd16(d, 58) as u128;
    let num = rd16(d, 60) as u128;
    assert(ent * num <= 0xffff * 0xffff) by (nonlinear_arith)
        requires
            ent <= 0xffff,
            num <= 0xffff,
    ;
    if off + ent * num > d.len() as u128 {
        return Some(ElfError::InvalidSectionOffset);
    }
    None
}

/// Reads every section header; none when one does not lie whole inside the file.
fn read_sections(d: &[u8]) -> (r: Option<Vec<Elf64SectionHeader>>)
    requires
        d@.len() >= EHDR_SIZE,
    ensures
        r.is_some() == (forall|i: int| 0 <= i < shnum(d@) ==> #[trigger] hdr_pos(d@, i) + SHDR_SIZE <= d@.len()),
        r matches Some(v) ==> v@.len() == shnum(d@) && forall|i: int| 0 <= i < shnum(d@) ==> #[trigger] v@[i] == sec(d@, i),
{
    let off = rd64(d, 40) as u128;
    let ent = rd16(d, 58) as u128;
    let num = rd16(d, 60);
    let mut v: Vec<Elf64SectionHeader> = Vec::new();
    let mut i: u16 = 0;
    while i < num
        invariant
            off == shoff(d@),
            ent == shentsize(d@),
            num == shnum(d@),
            d@.len() >= EHDR_SIZE,
            i <= num,
            v@.len() == i,
            forall|j: int| 0 <= j < i ==> #[trigger] hdr_pos(d@, j) + SHDR_SIZE <= d@.len(),
            forall|j: int| 0 <= j < i ==> #[trigger] v@[j] == sec(d@, j),
        decreases num - i,
    {
        assert((i as u128) * ent <= 0xffff * 0xffff) by (nonlinear_arith)
            requires
                i <= 0xffff,
                ent <= 0xffff,
        ;
        let pos = off + (i as u128) * ent;
        assert(pos == hdr_pos(d@, i as int));
        if pos + 64 > d.len() as u128 {
            return None;
        }
        v.push(read_section(d, pos as usize));
        i = i + 1;
    }
    Some(v)
}

proof fn lemma_layout_none(d: Seq<u8>, k: int, n: int)
    requires
        0 <= k <= n,
        layout(d, k).is_none(),
    ensures
        layout(d, n).is_none(),
    decreases n - k,
{
    if k < n {
        lemma_layout_none(d, k + 1, n);
    }
}

proof fn lemma_mask_ge(t: u64, a: u64)
    by (bit_vector)
    requires
        a > 1,
        t + a - 1 <= 0xffff_ffff_ffff_ffff,
    ensures
        (((t + a - 1) as u64) & !((a - 1) as u64)) >= t,
{
}

proof fn lemma_layout_len(d: Seq<u8>, k: int)
    requires
        k >= 0,
        layout(d, k).is_some(),
    ensures
        layout(d, k).unwrap().0.len() == k,
        0 <= layout(d, k).unwrap().1 <= u64::MAX,
        forall|i: int| 0 <= i < k && (#[trigger] layout(d, k).unwrap().0[i]).is_some() ==> {
            let o = layout(d, k).unwrap().0[i].unwrap();
            0 <= o && o + sec(d, i).sh_size <= layout(d, k).unwrap().1
        },
    decreases k,
{
    if k > 0 {
        lemma_layout_len(d, k - 1);
        let lt = layout(d, k - 1).unwrap();
        let s = sec(d, k - 1);
        if is_alloc(s) {
            let o = align_up(lt.1, s.sh_addralign);
            if s.sh_addralign > 1 && lt.1 + s.sh_addralign - 1 <= u64::MAX {
                lemma_mask_ge(lt.1 as u64, s.sh_addralign);
            }
        }
    }
}

/// Places the allocated sections: each at the running size rounded up to its
/// alignment. None when the sizes overflow 64 bits.
fn compute_layout(d: &[u8], secs: &Vec<Elf64SectionHeader>) -> (r: Option<(Vec<Option<u64>>, u64)>)
    requires
        secs@.len() == shnum(d@),
        forall|i: int| 0 <= i < shnum(d@) ==> #[trigger] secs@[i] == sec(d@, i),
    ensures
        r.is_some() == layout(d@, shnum(d@)).is_some(),
        r matches Some(lt) ==> offs_view(lt.0@) == layout(d@, shnum(d@)).unwrap().0
            && lt.1 == layout(d@, shnum(d@)).unwrap().1,
{
    let mut offs: Vec<Option<u64>> = Vec::new();
    let mut total: u64 = 0;
    let mut i: usize = 0;
    while i < secs.len()
        invariant
            secs@.len() == shnum(d@),
            forall|j: int| 0 <= j < shnum(d@) ==> #[trigger] secs@[j] == sec(d@, j),
            i <= secs@.len(),
            layout(d@, i as int).is_some(),
            offs_view(offs@) == layout(d@, i as int).unwrap().0,
            total == layout(d@, i as int).unwrap().1,
        decreases secs@.len() - i,
    {
        let s = secs[i];
        assert(s == sec(d@, i as int));
        let ghost before = offs@;
        if !(s.sh_flags & SHF_ALLOC != 0 && s.sh_type != SHT_NULL) {
            offs.push(None);
        } else {
            let a = s.sh_addralign;
            let mut o = total;
            if a > 1 {
                if total as u128 + a as u128 - 1 > 0xffff_ffff_ffff_ffffu128 {
                    proof {
                        lemma_layout_none(d@, i + 1, shnum(d@));
                    }
                    return None;
                }
                o = (total + (a - 1)) & !(a - 1);
            }
            if o as u128 + s.sh_size as u128 > 0xffff_ffff_ffff_ffffu128 {
                proof {
                    lemma_layout_none(d@, i + 1, shnum(d@));
                }
                return None;
            }
            offs.push(Some(o));
            total = o + s.sh_size;
        }
        assert(offs_view(offs@) =~= offs_view(before).push(offs_view(offs@).last()));
        i = i + 1;
    }
    Some((offs, total))
}


/// The bytes `d[off..off + len]`.
fn slice_of(d: &[u8], off: u64, len: u64) -> (r: Vec<u8>)
    requires
        off + len <= d.len(),
    ensures
        r@ == d@.subrange(off as int, off + len),
{
    let mut r: Vec<u8> = Vec::new();
    let start = off as usize;
    let end = start + (len as usize);
    let mut i: usize = start;
    while i < end
        invariant
            start <= i <= end,
            end <= d@.len(),
            start == off,
            end == off + len,
            r@ == d@.subrange(start as int, i as int),
        decreases end - i,
    {
        r.push(d[i]);
        i = i + 1;
        assert(r@ =~= d@.subrange(start as int, i as int));
    }
    r
}

/// The zero-terminated string at `o` of a string table.
fn read_cstr(t: &[u8], o: usize) -> (r: Vec<u8>)
    requires
        o <= t@.len(),
    ensures
        r@ == cstr(t@, o as int),
{
    let mut end: usize = o;
    while end < t.len() && t[end] != 0
        invariant
            o <= end <= t@.len(),
            cstr(t@, o as int) == t@.subrange(o as int, end as int) + cstr(t@, end as int),
        decreases t@.len() - end,
    {
        assert(t@.subrange(o as int, end + 1) =~= t@.subrange(o as int, end as int) + seq![t@[end as int]]);
        end = end + 1;
    }
    assert(cstr(t@, end as int) =~= Seq::<u8>::empty());
    let mut r: Vec<u8> = Vec::new();
    let mut i: usize = o;
    while i < end
        invariant
            o <= i <= end,
            end <= t@.len(),
            r@ == t@.subrange(o as int, i as int),
        decreases end - i,
    {
        r.push(t[i]);
        i = i + 1;
        assert(r@ =~= t@.subrange(o as int, i as int));
    }
    r
}

/// Whether every section name that loading reads starts inside the name table.
fn check_names(d: &[u8], secs: &Vec<Elf64SectionHeader>, shstr_len: u64) -> (ok: bool)
    requires
        secs@.len() == shnum(d@),
        forall|i: int| 0 <= i < shnum(d@) ==> #[trigger] secs@[i] == sec(d@, i),
        shstr_len == shstrtab(d@).len(),
    ensures
        ok == names_readable(d@),
{
    let mut i: usize = 0;
    while i < secs.len()
        invariant
            secs@.len() == shnum(d@),
            forall|j: int| 0 <= j < shnum(d@) ==> #[trigger] secs@[j] == sec(d@, j),
            shstr_len == shstrtab(d@).len(),
            i <= secs@.len(),
            forall|j: int| 0 <= j < i && #[trigger] named_section(d@, sec(d@, j)) ==> sec(d@, j).sh_name <= shstrtab(d@).len(),
        decreases secs@.len() - i,
    {
        let s = secs[i];
        assert(s == sec(d@, i as int));
        let named = (s.sh_flags & SHF_ALLOC != 0 && s.sh_type != SHT_NULL && s.sh_type == SHT_PROGBITS
            && s.sh_offset as u128 + s.sh_size as u128 <= d.len() as u128) || s.sh_type == SHT_STRTAB;
        assert(named == named_section(d@, s));
        if named && s.sh_name as u64 > shstr_len {
            return false;
        }
        i = i + 1;
    }
    true
}

/// The symbol table and the symbol string table, found as loading finds them.
fn find_tables(d: &[u8], secs: &Vec<Elf64SectionHeader>, shstr: &Vec<u8>) -> (r: (Option<usize>, Option<usize>))
    requires
        secs@.len() == shnum(d@),
        forall|i: int| 0 <= i < shnum(d@) ==> #[trigger] secs@[i] == sec(d@, i),
        shstr@ == shstrtab(d@),
        names_readable(d@),
    ensures
        r.0 matches Some(k) ==> symtab_index(d@) == Some(k as int),
        r.0.is_none() ==> symtab_index(d@).is_none(),
        r.1 matches Some(k) ==> strtab_index(d@) == Some(k as int),
        r.1.is_none() ==> strtab_index(d@).is_none(),
{
    let ghost fsym = |i: int| sec(d@, i).sh_type == SHT_SYMTAB;
    let ghost fstr = |i: int| sec(d@, i).sh_type == SHT_STRTAB && cstr(shstrtab(d@), sec(d@, i).sh_name as int) == strtab_name();
    let mut sym: Option<usize> = None;
    let mut str: Option<usize> = None;
    let mut i: usize = 0;
    while i < secs.len()
        invariant
            secs@.len() == shnum(d@),
            forall|j: int| 0 <= j < shnum(d@) ==> #[trigger] secs@[j] == sec(d@, j),
            shstr@ == shstrtab(d@),
            names_readable(d@),
            i <= secs@.len(),
            fsym == (|i: int| sec(d@, i).sh_type == SHT_SYMTAB),
            fstr == (|i: int| sec(d@, i).sh_type == SHT_STRTAB && cstr(shstrtab(d@), sec(d@, i).sh_name as int) == strtab_name()),
            match sym {
                Some(k) => last_where(i as int, fsym) == Some(k as int),
                None => last_where(i as int, fsym).is_none(),
            },
            match str {
                Some(k) => last_where(i as int, fstr) == Some(k as int),
                None => last_where(i as int, fstr).is_none(),
            },
        decreases secs@.len() - i,
    {
        let s = secs[i];
        assert(s == sec(d@, i as int));
        if s.sh_type == SHT_SYMTAB {
            sym = Some(i);
        }
        if s.sh_type == SHT_STRTAB {
            assert(named_section(d@, sec(d@, i as int)));
            let name = read_cstr(shstr.as_slice(), s.sh_name as usize);
            let wanted: [u8; 7] = [0x2e, 0x73, 0x74, 0x72, 0x74, 0x61, 0x62];
            assert(wanted@ =~= strtab_name());
            if crate::util::bytes_equal(name.as_slice(), wanted.as_slice()) {
                str = Some(i);
            }
        }
        i = i + 1;
    }
    (sym, str)
}


/// Whether the symbol tables lie inside the file with every name inside its table.
fn check_symbols(d: &[u8], secs: &Vec<Elf64SectionHeader>, tabs: (Option<usize>, Option<usize>)) -> (ok: bool)
    requires
        secs@.len() == shnum(d@),
        forall|i: int| 0 <= i < shnum(d@) ==> #[trigger] secs@[i] == sec(d@, i),
        tabs.0 matches Some(k) ==> symtab_index(d@) == Some(k as int),
        tabs.0.is_none() ==> symtab_index(d@).is_none(),
        tabs.1 matches Some(k) ==> strtab_index(d@) == Some(k as int),
        tabs.1.is_none() ==> strtab_index(d@).is_none(),
    ensures
        ok == symbols_readable(d@),
{
    match tabs {
        (Some(si), Some(ti)) => {
            proof {
                lemma_last_where_bound(shnum(d@), |i: int| sec(d@, i).sh_type == SHT_SYMTAB);
                lemma_last_where_bound(shnum(d@), |i: int| sec(d@, i).sh_type == SHT_STRTAB
                    && cstr(shstrtab(d@), sec(d@, i).sh_name as int) == strtab_name());
            }
            let st = secs[si];
            let tt = secs[ti];
            if st.sh_offset as u128 + st.sh_size as u128 > d.len() as u128 {
                return false;
            }
            if tt.sh_offset as u128 + tt.sh_size as u128 > d.len() as u128 {
                return false;
            }
            let count = st.sh_size / 24;
            let mut i: u64 = 0;
            while i < count
                invariant
                    has_symbols(d@),
                    st == sec(d@, symtab_index(d@).unwrap()),
                    tt == sec(d@, strtab_index(d@).unwrap()),
                    in_file(d@, st),
                    count == sym_count(d@),
                    i <= count,
                    forall|j: int| 0 <= j < i ==> #[trigger] sym(d@, j).st_name <= tt.sh_size,
                decreases count - i,
            {
                assert(24 * i + 24 <= st.sh_size) by (nonlinear_arith)
                    requires
                        i < count,
                        count == st.sh_size / 24,
                ;
                let pos = st.sh_offset as u128 + 24 * (i as u128);
                assert(pos + 24 <= d.len());
                let y = read_symbol(d, pos as usize);
                assert(y == sym(d@, i as int));
                if y.st_name as u64 > tt.sh_size {
                    return false;
                }
                i = i + 1;
            }
            true
        },
        _ => true,
    }
}

proof fn lemma_last_where_bound(k: int, f: spec_fn(int) -> bool)
    ensures
        last_where(k, f) matches Some(i) ==> 0 <= i < k && f(i),
    decreases k,
{
    if k > 0 && !f(k - 1) {
        lemma_last_where_bound(k - 1, f);
    }
}

/// Whether every relocation section with a placed target lies inside the file.
fn check_relas(d: &[u8], secs: &Vec<Elf64SectionHeader>, offs: &Vec<Option<u64>>) -> (ok: bool)
    requires
        secs@.len() == shnum(d@),
        offs@.len() == shnum(d@),
        forall|i: int| 0 <= i < shnum(d@) ==> #[trigger] secs@[i] == sec(d@, i),
    ensures
        ok == relas_readable(d@, offs_view(offs@)),
{
    let mut i: usize = 0;
    while i < secs.len()
        invariant
            secs@.len() == shnum(d@),
            offs@.len() == shnum(d@),
            forall|j: int| 0 <= j < shnum(d@) ==> #[trigger] secs@[j] == sec(d@, j),
            i <= secs@.len(),
            forall|j: int| 0 <= j < i && #[trigger] sec(d@, j).sh_type == SHT_RELA
                && reloc_target(offs_view(offs@), sec(d@, j)).is_some() ==> in_file(d@, sec(d@, j)),
        decreases secs@.len() - i,
    {
        let s = secs[i];
        assert(s == sec(d@, i as int));
        if s.sh_type == SHT_RELA {
            let t = s.sh_info as usize;
            let placed = t < offs.len() && offs[t].is_some();
            assert(placed == reloc_target(offs_view(offs@), s).is_some());
            if placed && s.sh_offset as u128 + s.sh_size as u128 > d.len() as u128 {
                return false;
            }
        }
        i = i + 1;
    }
    true
}


/// Copies the bytes of the placed sections that hold file data.
fn copy_sections(d: &[u8], secs: &Vec<Elf64SectionHeader>, offs: &Vec<Option<u64>>, mem: &mut Vec<u8>)
    requires
        secs@.len() == shnum(d@),
        forall|i: int| 0 <= i < shnum(d@) ==> #[trigger] secs@[i] == sec(d@, i),
        layout(d@, shnum(d@)).is_some(),
        offs_view(offs@) == layout(d@, shnum(d@)).unwrap().0,
        old(mem)@.len() == layout(d@, shnum(d@)).unwrap().1,
    ensures
        final(mem)@ == copy_upto(d@, offs_view(offs@), old(mem)@, shnum(d@)),
        final(mem)@.len() == old(mem)@.len(),
{
    let ghost ov = offs_view(offs@);
    let ghost total = layout(d@, shnum(d@)).unwrap().1;
    proof {
        lemma_layout_len(d@, shnum(d@));
    }
    let mut i: usize = 0;
    while i < secs.len()
        invariant
            secs@.len() == shnum(d@),
            forall|j: int| 0 <= j < shnum(d@) ==> #[trigger] secs@[j] == sec(d@, j),
            ov == offs_view(offs@),
            ov.len() == shnum(d@),
            forall|j: int| 0 <= j < shnum(d@) && (#[trigger] ov[j]).is_some() ==> 0 <= ov[j].unwrap() && ov[j].unwrap() + sec(d@, j).sh_size <= total,
            mem@.len() == total,
            i <= secs@.len(),
            mem@ == copy_upto(d@, ov, old(mem)@, i as int),
        decreases secs@.len() - i,
    {
        let s = secs[i];
        assert(s == sec(d@, i as int));
        assert(ov[i as int] == match offs@[i as int] { Some(x) => Some(x as int), None => None::<int> });
        match offs[i] {
            Some(o) => {
                if s.sh_type == SHT_PROGBITS && s.sh_offset as u128 + s.sh_size as u128 <= d.len() as u128 {
                    let ghost m = mem@;
                    assert(o as int + s.sh_size as int <= mem.len());
                    let src = s.sh_offset as usize;
                    let n = s.sh_size as usize;
                    let dst = o as usize;
                    let mut j: usize = 0;
                    while j < n
                        invariant
                            j <= n,
                            n == s.sh_size,
                            src == s.sh_offset,
                            dst == o,
                            src + n <= d.len(),
                            dst + n <= mem.len(),
                            mem@.len() == m.len(),
                            mem@ == m.subrange(0, dst as int) + d@.subrange(src as int, src + j)
                                + m.subrange(dst + j, m.len() as int),
                        decreases n - j,
                    {
                        mem.set(dst + j, d[src + j]);
                        j = j + 1;
                        assert(mem@ =~= m.subrange(0, dst as int) + d@.subrange(src as int, src + j)
                            + m.subrange(dst + j, m.len() as int));
                    }
                    assert(mem@ =~= splice(m, o as int, sec_bytes(d@, s)));
                }
            },
            None => {},
        }
        i = i + 1;
    }
}

/// Writes the `n` low bytes of `v` at `p`, least significant first.
fn write_le(mem: &mut Vec<u8>, p: usize, v: u64, n: usize)
    requires
        p + n <= old(mem).len(),
    ensures
        final(mem)@ == splice(old(mem)@, p as int, le_bytes(v, n as nat)),
    decreases n,
{
    if n == 0 {
        assert(mem@ =~= splice(old(mem)@, p as int, le_bytes(v, 0)));
        return;
    }
    mem.set(p, (v % 256) as u8);
    let ghost m1 = mem@;
    write_le(mem, p + 1, v / 256, n - 1);
    proof {
        lemma_le_bytes_len(v / 256, (n - 1) as nat);
        assert(le_bytes(v, n as nat) == seq![(v % 256) as u8] + le_bytes(v / 256, (n - 1) as nat));
    }
    assert(mem@ =~= splice(old(mem)@, p as int, le_bytes(v, n as nat)));
}

/// The text of a name read from a string table.
fn name_string(b: &[u8]) -> (s: String)
    ensures
        s@ == name_text(b@),
{
    match utf8_to_string(b) {
        Some(s) => s,
        None => {
            let s = String::from_str("<invalido>");
            proof {
                reveal_strlit("<invalido>");
            }
            s
        },
    }
}

/// The address of the first kernel symbol named `name`.
pub fn resolve_kernel_symbol(kernel: &[KernelSymbol], name: &String) -> (r: Option<u64>)
    ensures
        r == kernel_lookup(kernel_view(kernel@), name@),
{
    let ghost kv = kernel_view(kernel@);
    let mut k: usize = 0;
    assert(kv.subrange(0, kv.len() as int) =~= kv);
    while k < kernel.len()
        invariant
            k <= kernel@.len(),
            kv == kernel_view(kernel@),
            kernel_lookup(kv, name@) == kernel_lookup(kv.subrange(k as int, kv.len() as int), name@),
        decreases kernel@.len() - k,
    {
        assert(kv.subrange(k as int, kv.len() as int)[0] == (kernel@[k as int].name@, kernel@[k as int].address));
        if kernel[k].name == *name {
            return Some(kernel[k].address);
        }
        assert(kv.subrange(k as int, kv.len() as int).drop_first() =~= kv.subrange(k + 1, kv.len() as int));
        k = k + 1;
    }
    None
}

/// Adds or replaces the export `name`.
fn insert_export(v: &mut Vec<(String, u64)>, name: String, addr: u64)
    requires
        keys_unique(exports_view(old(v)@)),
    ensures
        keys_unique(exports_view(final(v)@)),
        keyed_map(exports_view(final(v)@)) == keyed_map(exports_view(old(v)@)).insert(name@, addr),
{
    let ghost ev = exports_view(v@);
    let mut k: usize = 0;
    while k < v.len()
        invariant
            k <= v@.len(),
            ev == exports_view(v@),
            v@ == old(v)@,
            keys_unique(ev),
            forall|j: int| 0 <= j < k ==> (#[trigger] ev[j]).0 != name@,
        decreases v@.len() - k,
    {
        if v[k].0 == name {
            proof {
                crate::util::lemma_keyed_map_update(ev, k as int, addr);
            }
            let old_entry = v.remove(k);
            v.insert(k, (old_entry.0, addr));
            assert(exports_view(v@) =~= ev.update(k as int, (ev[k as int].0, addr)));
            return;
        }
        k = k + 1;
    }
    let ghost nm = name@;
    v.push((name, addr));
    assert(exports_view(v@) =~= ev.push((nm, addr)));
    assert(exports_view(v@).drop_last() =~= ev);
}


/// The addresses of all symbols and the module's exports.
fn build_symbols(
    d: &[u8],
    secs: &Vec<Elf64SectionHeader>,
    offs: &Vec<Option<u64>>,
    base: u64,
    kernel: &[KernelSymbol],
    tabs: (Option<usize>, Option<usize>),
) -> (r: (Vec<Option<u64>>, Vec<(String, u64)>))
    requires
        secs@.len() == shnum(d@),
        offs@.len() == shnum(d@),
        forall|i: int| 0 <= i < shnum(d@) ==> #[trigger] secs@[i] == sec(d@, i),
        tabs.0 matches Some(k) ==> symtab_index(d@) == Some(k as int),
        tabs.0.is_none() ==> symtab_index(d@).is_none(),
        tabs.1 matches Some(k) ==> strtab_index(d@) == Some(k as int),
        tabs.1.is_none() ==> strtab_index(d@).is_none(),
        symbols_readable(d@),
    ensures
        has_symbols(d@) ==> r.0@.len() == sym_count(d@),
        !has_symbols(d@) ==> r.0@.len() == 0,
        forall|i: int| 0 <= i < r.0@.len() ==> #[trigger] r.0@[i] == sym_addr(d@, offs_view(offs@), base, kernel_view(kernel@), i),
        keys_unique(exports_view(r.1@)),
        keyed_map(exports_view(r.1@)) == exports_of(d@, offs_view(offs@), base),
{
    let ghost ov = offs_view(offs@);
    let ghost kv = kernel_view(kernel@);
    let mut addrs: Vec<Option<u64>> = Vec::new();
    let mut exports: Vec<(String, u64)> = Vec::new();
    assert(keyed_map(exports_view(exports@)) =~= Map::<Seq<char>, u64>::empty());
    match tabs {
        (Some(si), Some(ti)) => {
            proof {
                lemma_last_where_bound(shnum(d@), |i: int| sec(d@, i).sh_type == SHT_SYMTAB);
                lemma_last_where_bound(shnum(d@), |i: int| sec(d@, i).sh_type == SHT_STRTAB
                    && cstr(shstrtab(d@), sec(d@, i).sh_name as int) == strtab_name());
            }
            let st = secs[si];
            let tt = secs[ti];
            let strtab = slice_of(d, tt.sh_offset, tt.sh_size);
            assert(st.sh_size <= d.len());
            let count = (st.sh_size / 24) as usize;
            let num = secs.len();
            let mut i: usize = 0;
            while i < count
                invariant
                    has_symbols(d@),
                    symbols_readable(d@),
                    st == sec(d@, symtab_index(d@).unwrap()),
                    tt == sec(d@, strtab_index(d@).unwrap()),
                    strtab@ == sec_bytes(d@, tt),
                    count == sym_count(d@),
                    num == shnum(d@),
                    offs@.len() == shnum(d@),
                    ov == offs_view(offs@),
                    kv == kernel_view(kernel@),
                    i <= count,
                    addrs@.len() == i,
                    forall|j: int| 0 <= j < i ==> #[trigger] addrs@[j] == sym_addr(d@, ov, base, kv, j),
                    keys_unique(exports_view(exports@)),
                    keyed_map(exports_view(exports@)) == exports_upto(d@, ov, base, i as int),
                decreases count - i,
            {
                assert(24 * i + 24 <= st.sh_size) by (nonlinear_arith)
                    requires
                        i < count,
                        count == st.sh_size / 24,
                ;
                let pos = st.sh_offset as u128 + 24 * (i as u128);
                assert(pos + 24 <= d.len());
                let y = read_symbol(d, pos as usize);
                assert(y == sym(d@, i as int));
                let nb = read_cstr(strtab.as_slice(), y.st_name as usize);
                assert(nb@ == sym_name(d@, i as int));
                let ghost before = addrs@;
                if y.st_shndx != 0 && (y.st_shndx as usize) < num {
                    let k = y.st_shndx as usize;
                    assert(ov[k as int] == match offs@[k as int] { Some(x) => Some(x as int), None => None::<int> });
                    match offs[k] {
                        Some(o) => {
                            let addr = ((base as u128 + o as u128 + y.st_value as u128) % 0x1_0000_0000_0000_0000u128) as u64;
                            addrs.push(Some(addr));
                            if y.binding() == STB_GLOBAL && nb.len() > 0 {
                                let name = name_string(nb.as_slice());
                                insert_export(&mut exports, name, addr);
                            }
                        },
                        None => {
                            addrs.push(None);
                        },
                    }
                } else if y.st_shndx == 0 && nb.len() > 0 {
                    let name = name_string(nb.as_slice());
                    addrs.push(resolve_kernel_symbol(kernel, &name));
                } else {
                    addrs.push(None);
                }
                assert(addrs@ =~= before.push(sym_addr(d@, ov, base, kv, i as int)));
                i = i + 1;
            }
            (addrs, exports)
        },
        _ => (addrs, exports),
    }
}

/// The value relocations against symbol `idx` use.
fn symbol_value(addrs: &Vec<Option<u64>>, idx: u32) -> (v: u64)
    ensures
        v == (if (idx as int) < addrs@.len() {
            match addrs@[idx as int] {
                Some(a) => a,
                None => 0,
            }
        } else {
            0
        }),
{
    if (idx as usize) < addrs.len() {
        match addrs[idx as usize] {
            Some(a) => a,
            None => 0,
        }
    } else {
        0
    }
}

/// Applies one relocation of a section placed at `toff`.
fn relocate_one(mem: &mut Vec<u8>, toff: u64, base: u64, sv: u64, r: Elf64Rela)
    ensures
        final(mem)@ == apply_rela(old(mem)@, toff as int, base, sv, r),
{
    let p = toff as u128 + r.r_offset as u128;
    if p + 8 > mem.len() as u128 {
        return;
    }
    let pu = p as usize;
    let t = r.reloc_type();
    let v = ((sv as u128 + (r.r_addend as u64) as u128) % 0x1_0000_0000_0000_0000u128) as u64;
    if t == R_X86_64_64 {
        write_le(mem, pu, v, 8);
    } else if t == R_X86_64_PC32 || t == R_X86_64_PLT32 {
        let pa = ((base as u128 + p) % 0x1_0000_0000_0000_0000u128) as u64;
        let w = ((v as u128 + 0x1_0000_0000_0000_0000u128 - pa as u128) % 0x1_0000_0000_0000_0000u128) as u64;
        assert(w == wrap64(v - wrap64(base + p)));
        write_le(mem, pu, w, 4);
    } else if t == R_X86_64_32 || t == R_X86_64_32S {
        write_le(mem, pu, v, 4);
    }
}


/// Applies every relocation of every relocation section whose target was placed.
fn apply_relocations(
    d: &[u8],
    secs: &Vec<Elf64SectionHeader>,
    offs: &Vec<Option<u64>>,
    base: u64,
    kernel: Ghost<Seq<(Seq<char>, u64)>>,
    addrs: &Vec<Option<u64>>,
    mem: &mut Vec<u8>,
)
    requires
        secs@.len() == shnum(d@),
        offs@.len() == shnum(d@),
        forall|i: int| 0 <= i < shnum(d@) ==> #[trigger] secs@[i] == sec(d@, i),
        relas_readable(d@, offs_view(offs@)),
        has_symbols(d@) ==> addrs@.len() == sym_count(d@),
        !has_symbols(d@) ==> addrs@.len() == 0,
        forall|i: int| 0 <= i < addrs@.len() ==> #[trigger] addrs@[i] == sym_addr(d@, offs_view(offs@), base, kernel@, i),
    ensures
        final(mem)@ == reloc_upto(old(mem)@, d@, offs_view(offs@), base, kernel@, shnum(d@)),
{
    let ghost ov = offs_view(offs@);
    let mut i: usize = 0;
    while i < secs.len()
        invariant
            secs@.len() == shnum(d@),
            offs@.len() == shnum(d@),
            forall|j: int| 0 <= j < shnum(d@) ==> #[trigger] secs@[j] == sec(d@, j),
            relas_readable(d@, ov),
            ov == offs_view(offs@),
            has_symbols(d@) ==> addrs@.len() == sym_count(d@),
            !has_symbols(d@) ==> addrs@.len() == 0,
            forall|j: int| 0 <= j < addrs@.len() ==> #[trigger] addrs@[j] == sym_addr(d@, ov, base, kernel@, j),
            i <= secs@.len(),
            mem@ == reloc_upto(old(mem)@, d@, ov, base, kernel@, i as int),
        decreases secs@.len() - i,
    {
        let s = secs[i];
        assert(s == sec(d@, i as int));
        if s.sh_type == SHT_RELA {
            let t = s.sh_info as usize;
            if t < offs.len() {
                assert(ov[t as int] == match offs@[t as int] { Some(x) => Some(x as int), None => None::<int> });
                match offs[t] {
                    Some(toff) => {
                        assert(in_file(d@, s));
                        assert(s.sh_size <= d.len());
                        let n = (s.sh_size / 24) as usize;
                        let ghost m0 = mem@;
                        let mut j: usize = 0;
                        while j < n
                            invariant
                                s == sec(d@, i as int),
                                in_file(d@, s),
                                n == s.sh_size / 24,
                                j <= n,
                                toff as int == reloc_target(ov, s).unwrap(),
                                has_symbols(d@) ==> addrs@.len() == sym_count(d@),
                                !has_symbols(d@) ==> addrs@.len() == 0,
                                forall|k: int| 0 <= k < addrs@.len() ==> #[trigger] addrs@[k] == sym_addr(d@, ov, base, kernel@, k),
                                mem@ == reloc_sec(m0, d@, ov, base, kernel@, s, toff as int, j as int),
                            decreases n - j,
                        {
                            assert(24 * j + 24 <= s.sh_size) by (nonlinear_arith)
                                requires
                                    j < n,
                                    n == s.sh_size / 24,
                            ;
                            let pos = s.sh_offset as u128 + 24 * (j as u128);
                            assert(pos + 24 <= d.len());
                            let r = read_rela(d, pos as usize);
                            assert(r == rela_of(d@, s, j as int));
                            let idx = r.symbol_index();
                            let sv = symbol_value(addrs, idx);
                            assert(sv == sym_value(d@, ov, base, kernel@, idx as int));
                            relocate_one(mem, toff, base, sv, r);
                            j = j + 1;
                        }
                    },
                    None => {},
                }
            }
        }
        i = i + 1;
    }
}

/// A module loaded into memory.
pub struct LoadedModule {
    pub name: String,
    pub memory: Vec<u8>,
    pub base_address: u64,
    pub exports: Vec<(String, u64)>,
    pub size: usize,
}

impl LoadedModule {
    /// The exports by name.
    pub open spec fn exports_map(&self) -> Map<Seq<char>, u64> {
        keyed_map(exports_view(self.exports@))
    }

    /// The address of the exported function `name`.
    pub fn get_function(&self, name: &str) -> (r: Option<u64>)
        requires
            keys_unique(exports_view(self.exports@)),
        ensures
            r == (if self.exports_map().contains_key(name@) { Some(self.exports_map()[name@]) } else { None }),
    {
        let key = String::from_str(name);
        let ghost ev = exports_view(self.exports@);
        let mut k: usize = 0;
        while k < self.exports.len()
            invariant
                k <= self.exports@.len(),
                ev == exports_view(self.exports@),
                keys_unique(ev),
                key@ == name@,
                forall|j: int| 0 <= j < k ==> (#[trigger] ev[j]).0 != name@,
            decreases self.exports@.len() - k,
        {
            if self.exports[k].0 == key {
                proof {
                    crate::util::lemma_keyed_map_get(ev, k as int);
                }
                return Some(self.exports[k].1);
            }
            k = k + 1;
        }
        proof {
            crate::util::lemma_keyed_map_absent(ev, name@);
        }
        None
    }
}

/// Loads the relocatable module `data` for memory placed at `base_address`,
/// resolving undefined symbols against `kernel`.
pub fn load_module(name: &str, data: &[u8], base_address: u64, kernel: &[KernelSymbol]) -> (r: Result<LoadedModule, ElfError>)
    ensures
        match r {
            Err(e) => load_error(data@) == Some(e),
            Ok(m) => {
                &&& load_error(data@).is_none()
                &&& m.name@ == name@
                &&& m.base_address == base_address
                &&& m.size == layout(data@, shnum(data@)).unwrap().1
                &&& m.memory@ == image_of(data@, base_address, kernel_view(kernel@))
                &&& keys_unique(exports_view(m.exports@))
                &&& m.exports_map() == exports_of(data@, layout(data@, shnum(data@)).unwrap().0, base_address)
            },
        },
{
    if let Some(e) = check_header(data) {
        return Err(e);
    }
    let secs = match read_sections(data) {
        Some(v) => v,
        None => {
            return Err(ElfError::InvalidSectionOffset);
        },
    };
    let si = rd16(data, 62) as usize;
    if si >= secs.len() {
        return Err(ElfError::InvalidSectionOffset);
    }
    let ss = secs[si];
    assert(ss == sec(data@, shstrndx(data@)));
    if ss.sh_offset as u128 + ss.sh_size as u128 > data.len() as u128 {
        return Err(ElfError::InvalidSectionOffset);
    }
    let shstr = slice_of(data, ss.sh_offset, ss.sh_size);
    let (offs, total) = match compute_layout(data, &secs) {
        Some(lt) => lt,
        None => {
            return Err(ElfError::AllocationFailed);
        },
    };
    if total == 0 || total as u128 > usize::MAX as u128 {
        return Err(ElfError::AllocationFailed);
    }
    if !check_names(data, &secs, ss.sh_size) {
        return Err(ElfError::InvalidSectionOffset);
    }
    let tabs = find_tables(data, &secs, &shstr);
    proof {
        lemma_layout_len(data@, shnum(data@));
    }
    if !check_symbols(data, &secs, tabs) || !check_relas(data, &secs, &offs) {
        return Err(ElfError::InvalidSectionOffset);
    }
    let size = total as usize;
    let mut memory: Vec<u8> = Vec::new();
    let mut k: usize = 0;
    while k < size
        invariant
            k <= size,
            memory@ == Seq::new(k as nat, |i: int| 0u8),
        decreases size - k,
    {
        memory.push(0);
        k = k + 1;
        assert(memory@ =~= Seq::new(k as nat, |i: int| 0u8));
    }
    copy_sections(data, &secs, &offs, &mut memory);
    let (addrs, exports) = build_symbols(data, &secs, &offs, base_address, kernel, tabs);
    apply_relocations(data, &secs, &offs, base_address, Ghost(kernel_view(kernel@)), &addrs, &mut memory);
    Ok(LoadedModule { name: String::from_str(name), memory, base_address, exports, size })
}


/// The first module, in load order, that exports `sym`, and the address it gives.
pub open spec fn find_export(ms: Seq<LoadedModule>, sym: Seq<char>) -> Option<u64>
    decreases ms.len(),
{
    if ms.len() == 0 {
        None
    } else if ms[0].exports_map().contains_key(sym) {
        Some(ms[0].exports_map()[sym])
    } else {
        find_export(ms.drop_first(), sym)
    }
}

/// Total bytes of the modules' memory.
pub open spec fn sum_sizes(ms: Seq<LoadedModule>) -> int
    decreases ms.len(),
{
    if ms.len() == 0 { 0 } else { sum_sizes(ms.drop_last()) + ms.last().size }
}

/// The loaded modules, in load order.
pub struct ElfModuleManager {
    modules: Vec<LoadedModule>,
}

impl ElfModuleManager {
    /// The modules.
    pub closed spec fn view(&self) -> Seq<LoadedModule> {
        self.modules@
    }

    /// Every module's exports have distinct names.
    pub closed spec fn wf(&self) -> bool {
        forall|i: int| 0 <= i < self.modules@.len() ==> keys_unique(exports_view(#[trigger] self.modules@[i].exports@))
    }

    /// No modules.
    pub fn new() -> (m: ElfModuleManager)
        ensures
            m.wf(),
            m@.len() == 0,
    {
        ElfModuleManager { modules: Vec::new() }
    }

    fn position(&self, name: &str) -> (r: Option<usize>)
        ensures
            match r {
                Some(i) => i < self@.len() && self@[i as int].name@ == name@,
                None => forall|i: int| 0 <= i < self@.len() ==> self@[i].name@ != name@,
            },
    {
        let key = String::from_str(name);
        let mut i: usize = 0;
        while i < self.modules.len()
            invariant
                i <= self.modules@.len(),
                key@ == name@,
                forall|j: int| 0 <= j < i ==> self.modules@[j].name@ != name@,
            decreases self.modules@.len() - i,
        {
            if self.modules[i].name == key {
                return Some(i);
            }
            i = i + 1;
        }
        None
    }

    /// Loads `data` as module `name` unless a module of that name is already loaded.
    pub fn load(&mut self, name: &str, data: &[u8], base_address: u64, kernel: &[KernelSymbol]) -> (r: Result<(), ElfError>)
        requires
            old(self).wf(),
        ensures
            final(self).wf(),
            (exists|i: int| 0 <= i < old(self)@.len() && old(self)@[i].name@ == name@) ==> r is Ok && final(self)@ == old(self)@,
            (forall|i: int| 0 <= i < old(self)@.len() ==> old(self)@[i].name@ != name@) ==> match r {
                Err(e) => load_error(data@) == Some(e) && final(self)@ == old(self)@,
                Ok(_) => {
                    &&& load_error(data@).is_none()
                    &&& final(self)@.len() == old(self)@.len() + 1
                    &&& final(self)@.drop_last() == old(self)@
                    &&& final(self)@.last().name@ == name@
                    &&& final(self)@.last().base_address == base_address
                    &&& final(self)@.last().size == layout(data@, shnum(data@)).unwrap().1
                    &&& final(self)@.last().memory@ == image_of(data@, base_address, kernel_view(kernel@))
                    &&& final(self)@.last().exports_map() == exports_of(data@, layout(data@, shnum(data@)).unwrap().0, base_address)
                },
            },
    {
        if self.position(name).is_some() {
            return Ok(());
        }
        match load_module(name, data, base_address, kernel) {
            Err(e) => Err(e),
            Ok(m) => {
                self.modules.push(m);
                assert(self@.drop_last() =~= old(self)@);
                Ok(())
            },
        }
    }

    /// Drops every module named `name`; true when one went.
    pub fn unload(&mut self, name: &str) -> (removed: bool)
        requires
            old(self).wf(),
        ensures
            final(self).wf(),
            final(self)@ == old(self)@.filter(|m: LoadedModule| m.name@ != name@),
            removed == (final(self)@.len() < old(self)@.len()),
            removed == exists|i: int| 0 <= i < old(self)@.len() && old(self)@[i].name@ == name@,
    {
        let ghost f = |m: LoadedModule| m.name@ != name@;
        let key = String::from_str(name);
        let before = self.modules.len();
        let mut all: Vec<LoadedModule> = Vec::new();
        std::mem::swap(&mut all, &mut self.modules);
        let ghost old_ms = all@;
        let mut kept: Vec<LoadedModule> = Vec::new();
        let mut k: usize = 0;
        let n = all.len();
        while all.len() > 0
            invariant
                k + all@.len() == n,
                n == old_ms.len(),
                key@ == name@,
                f == (|m: LoadedModule| m.name@ != name@),
                all@ == old_ms.subrange(k as int, n as int),
                kept@ == old_ms.subrange(0, k as int).filter(f),
                forall|i: int| 0 <= i < old_ms.len() ==> keys_unique(exports_view(#[trigger] old_ms[i].exports@)),
                forall|i: int| 0 <= i < kept@.len() ==> keys_unique(exports_view(#[trigger] kept@[i].exports@)),
                kept@.len() <= k,
                kept@.len() < k <==> exists|i: int| 0 <= i < k && old_ms[i].name@ == name@,
            decreases all@.len(),
        {
            let m = all.remove(0);
            assert(old_ms.subrange(0, k + 1) =~= old_ms.subrange(0, k as int).push(m));
            proof {
                old_ms.subrange(0, k as int).lemma_filter_push(m, f);
            }
            assert(old_ms.subrange(k + 1, n as int) =~= all@);
            assert(m == old_ms[k as int]);
            if m.name != key {
                kept.push(m);
            }
            k = k + 1;
        }
        assert(old_ms.subrange(0, n as int) =~= old_ms);
        self.modules = kept;
        self.modules.len() < before
    }

    /// The address of `symbol` in the first module that exports it.
    pub fn find_symbol(&self, symbol: &str) -> (r: Option<u64>)
        requires
            self.wf(),
        ensures
            r == find_export(self@, symbol@),
    {
        let mut i: usize = 0;
        assert(self@.subrange(0, self@.len() as int) =~= self@);
        while i < self.modules.len()
            invariant
                self.wf(),
                i <= self@.len(),
                find_export(self@, symbol@) == find_export(self@.subrange(i as int, self@.len() as int), symbol@),
            decreases self@.len() - i,
        {
            let ghost rest = self@.subrange(i as int, self@.len() as int);
            assert(rest[0] == self@[i as int]);
            assert(rest.drop_first() =~= self@.subrange(i + 1, self@.len() as int));
            match self.modules[i].get_function(symbol) {
                Some(a) => {
                    return Some(a);
                },
                None => {},
            }
            i = i + 1;
        }
        None
    }

    /// Name, base address and size of each module.
    pub fn list(&self) -> (v: Vec<(String, u64, usize)>)
        ensures
            v@.len() == self@.len(),
            forall|i: int| 0 <= i < v@.len() ==> (#[trigger] v@[i]).0@ == self@[i].name@
                && v@[i].1 == self@[i].base_address && v@[i].2 == self@[i].size,
    {
        let mut v: Vec<(String, u64, usize)> = Vec::new();
        let mut i: usize = 0;
        while i < self.modules.len()
            invariant
                i <= self@.len(),
                v@.len() == i,
                forall|j: int| 0 <= j < i ==> (#[trigger] v@[j]).0@ == self@[j].name@
                    && v@[j].1 == self@[j].base_address && v@[j].2 == self@[j].size,
            decreases self@.len() - i,
        {
            let m = &self.modules[i];
            v.push((m.name.clone(), m.base_address, m.size));
            i = i + 1;
        }
        v
    }

    /// Total bytes used by the modules.
    pub fn total_memory(&self) -> (t: usize)
        requires
            sum_sizes(self@) <= usize::MAX,
        ensures
            t == sum_sizes(self@),
    {
        let mut t: usize = 0;
        let mut i: usize = 0;
        while i < self.modules.len()
            invariant
                i <= self@.len(),
                sum_sizes(self@) <= usize::MAX,
                t == sum_sizes(self@.subrange(0, i as int)),
            decreases self@.len() - i,
        {
            assert(self@.subrange(0, i + 1).drop_last() =~= self@.subrange(0, i as int));
            proof {
                lemma_sum_sizes_prefix(self@, i + 1);
            }
            t = t + self.modules[i].size;
            i = i + 1;
        }
        assert(self@.subrange(0, i as int) =~= self@);
        t
    }
}

proof fn lemma_sum_sizes_prefix(ms: Seq<LoadedModule>, k: int)
    requires
        0 <= k <= ms.len(),
    ensures
        sum_sizes(ms.subrange(0, k)) <= sum_sizes(ms),
    decreases ms.len() - k,
{
    if k < ms.len() {
        lemma_sum_sizes_prefix(ms, k + 1);
        assert(ms.subrange(0, k + 1).drop_last() =~= ms.subrange(0, k));
    } else {
        assert(ms.subrange(0, k) =~= ms);
    }
}

/// Loads a module into `mgr`.
pub fn load_elf_module(mgr: &mut ElfModuleManager, name: &str, data: &[u8], base_address: u64, kernel: &[KernelSymbol]) -> (r: Result<(), ElfError>)
    requires
        old(mgr).wf(),
    ensures
        final(mgr).wf(),
        (exists|i: int| 0 <= i < old(mgr)@.len() && old(mgr)@[i].name@ == name@) ==> r is Ok && final(mgr)@ == old(mgr)@,
        (forall|i: int| 0 <= i < old(mgr)@.len() ==> old(mgr)@[i].name@ != name@) ==> match r {
            Err(e) => load_error(data@) == Some(e) && final(mgr)@ == old(mgr)@,
            Ok(_) => final(mgr)@.len() == old(mgr)@.len() + 1 && final(mgr)@.drop_last() == old(mgr)@
                && final(mgr)@.last().name@ == name@
                && final(mgr)@.last().memory@ == image_of(data@, base_address, kernel_view(kernel@)),
        },
{
    mgr.load(name, data, base_address, kernel)
}

/// Unloads module `name` from `mgr`.
pub fn unload_elf_module(mgr: &mut ElfModuleManager, name: &str) -> (removed: bool)
    requires
        old(mgr).wf(),
    ensures
        final(mgr).wf(),
        final(mgr)@ == old(mgr)@.filter(|m: LoadedModule| m.name@ != name@),
        removed == exists|i: int| 0 <= i < old(mgr)@.len() && old(mgr)@[i].name@ == name@,
{
    mgr.unload(name)
}

/// Looks `symbol` up in the modules of `mgr`.
pub fn find_module_symbol(mgr: &ElfModuleManager, symbol: &str) -> (r: Option<u64>)
    requires
        mgr.wf(),
    ensures
        r == find_export(mgr@, symbol@),
{
    mgr.find_symbol(symbol)
}

} // verus!
