use vstd::prelude::*;

verus! {

/// One loadable segment of a static image.
#[derive(Debug, Clone, PartialEq, Eq)]
pub struct SegmentImage {
    pub vaddr: u64,
    pub mem_size: u64,
    pub file_size: u64,
    pub flags: u32,
    pub data: Vec<u8>,
}

/// A static 64-bit little-endian ELF image, ready to load.
#[derive(Debug, Clone, PartialEq, Eq)]
pub struct LoadedElf {
    pub path: String,
    pub entry: u64,
    pub little_endian: bool,
    pub bits: u8,
    pub machine: u16,
    pub segments: Vec<SegmentImage>,
}

/// The last component of a path, as text, when the path has one that is
/// valid Unicode.
pub uninterp spec fn path_file_name(path: Seq<char>) -> Option<Seq<char>>;

/// `Path::file_name` of `path`, turned into text with `OsStr::to_str`.
/// Both depend on the path alone; what they return is named, not stated.
#[verifier::external_body]
fn file_name_of(path: &String) -> (r: Option<String>)
    ensures
        match r {
            Some(s) => path_file_name(path@) == Some(s@),
            None => path_file_name(path@) is None,
        },
{
    match std::path::Path::new(path.as_str()).file_name() {
        Some(name) => match name.to_str() {
            Some(text) => Some(text.to_string()),
            None => None,
        },
        None => None,
    }
}

pub open spec fn spec_image_name(file_name: Option<Seq<char>>) -> Seq<char> {
    match file_name {
        Some(s) => s,
        None => "a.out"@,
    }
}

/// The name an image goes by: its file name, else `a.out`.
pub fn image_name_or_default(file_name: Option<String>) -> (r: String)
    ensures
        r@ == spec_image_name(match file_name {
            Some(s) => Some(s@),
            None => None,
        }),
{
    match file_name {
        Some(s) => s,
        None => String::from_str("a.out"),
    }
}

impl LoadedElf {
    /// The file name of the image, or `a.out` when the path has none.
    pub fn image_name(&self) -> (r: String)
        ensures
            r@ == spec_image_name(path_file_name(self.path@)),
    {
        image_name_or_default(file_name_of(&self.path))
    }
}

} // verus!

verus! {

/// What the loader reads of one program header.
#[derive(Clone, Copy, Debug, PartialEq, Eq, Structural)]
pub struct ProgramHeaderInfo {
    pub p_type: u32,
    pub p_flags: u32,
    pub p_offset: u64,
    pub p_vaddr: u64,
    pub p_filesz: u64,
    pub p_memsz: u64,
}

/// What the loader reads of a parsed ELF file.
#[derive(Debug)]
pub struct ElfLayout {
    pub is_64: bool,
    pub little_endian: bool,
    pub entry: u64,
    pub machine: u16,
    pub program_headers: Vec<ProgramHeaderInfo>,
}

pub struct ElfLayoutView {
    pub is_64: bool,
    pub little_endian: bool,
    pub entry: u64,
    pub machine: u16,
    pub program_headers: Seq<ProgramHeaderInfo>,
}

impl View for ElfLayout {
    type V = ElfLayoutView;

    open spec fn view(&self) -> ElfLayoutView {
        ElfLayoutView {
            is_64: self.is_64,
            little_endian: self.little_endian,
            entry: self.entry,
            machine: self.machine,
            program_headers: self.program_headers@,
        }
    }
}

/// The layout goblin reads from `bytes`, when it parses them as an ELF file.
pub uninterp spec fn goblin_elf_layout(bytes: Seq<u8>) -> Option<ElfLayoutView>;

#[verifier::external_type_specification]
#[verifier::external_body]
pub struct ExGoblinError(goblin::error::Error);

/// `goblin::elf::Elf::parse` of `bytes`, with the header fields the loader
/// reads copied out. Parsing depends on the bytes alone; its result is
/// named, not stated.
#[verifier::external_body]
fn parse_elf_layout(bytes: &Vec<u8>) -> (r: Result<ElfLayout, goblin::error::Error>)
    ensures
        match r {
            Ok(l) => goblin_elf_layout(bytes@) == Some(l@),
            Err(_) => goblin_elf_layout(bytes@) is None,
        },
{
    let elf = goblin::elf::Elf::parse(bytes.as_slice())?;
    let program_headers = elf.program_headers.iter().map(|ph| ProgramHeaderInfo {
        p_type: ph.p_type, p_flags: ph.p_flags, p_offset: ph.p_offset,
        p_vaddr: ph.p_vaddr, p_filesz: ph.p_filesz, p_memsz: ph.p_memsz,
    }).collect();
    Ok(ElfLayout { is_64: elf.is_64, little_endian: elf.little_endian, entry: elf.entry, machine: elf.header.e_machine, program_headers })
}

/// goblin's `Display` text of a parse error.
#[verifier::external_body]
fn parse_error_text(e: &goblin::error::Error) -> String {
    e.to_string()
}

/// Segment type of a loadable segment.
pub const PT_LOAD: u32 = 1;
/// Segment type of a dynamic-interpreter request.
pub const PT_INTERP: u32 = 3;

/// Why an image cannot be loaded.
#[derive(Debug, Clone, PartialEq, Eq)]
pub enum ElfLoadError {
    /// goblin could not parse the file; its message.
    Parse(String),
    NotSixtyFourBit,
    NotLittleEndian,
    DynamicInterpreter,
    SegmentOutsideImage,
    NoLoadSegments,
}

pub enum ElfLoadErrorKind {
    Parse,
    NotSixtyFourBit,
    NotLittleEndian,
    DynamicInterpreter,
    SegmentOutsideImage,
    NoLoadSegments,
}

pub open spec fn error_kind(e: ElfLoadError) -> ElfLoadErrorKind {
    match e {
        ElfLoadError::Parse(_) => ElfLoadErrorKind::Parse,
        ElfLoadError::NotSixtyFourBit => ElfLoadErrorKind::NotSixtyFourBit,
        ElfLoadError::NotLittleEndian => ElfLoadErrorKind::NotLittleEndian,
        ElfLoadError::DynamicInterpreter => ElfLoadErrorKind::DynamicInterpreter,
        ElfLoadError::SegmentOutsideImage => ElfLoadErrorKind::SegmentOutsideImage,
        ElfLoadError::NoLoadSegments => ElfLoadErrorKind::NoLoadSegments,
    }
}

pub struct SegmentView {
    pub vaddr: u64,
    pub mem_size: u64,
    pub file_size: u64,
    pub flags: u32,
    pub data: Seq<u8>,
}

impl View for SegmentImage {
    type V = SegmentView;

    open spec fn view(&self) -> SegmentView {
        SegmentView { vaddr: self.vaddr, mem_size: self.mem_size, file_size: self.file_size, flags: self.flags, data: self.data@ }
    }
}

pub struct LoadedView {
    pub path: Seq<char>,
    pub entry: u64,
    pub little_endian: bool,
    pub bits: u8,
    pub machine: u16,
    pub segments: Seq<SegmentView>,
}

impl View for LoadedElf {
    type V = LoadedView;

    open spec fn view(&self) -> LoadedView {
        LoadedView {
            path: self.path@,
            entry: self.entry,
            little_endian: self.little_endian,
            bits: self.bits,
            machine: self.machine,
            segments: self.segments@.map_values(|s: SegmentImage| s@),
        }
    }
}

pub open spec fn segment_in_image(ph: ProgramHeaderInfo, len: nat) -> bool {
    ph.p_offset + ph.p_filesz <= len
}

pub open spec fn segment_of(ph: ProgramHeaderInfo, bytes: Seq<u8>) -> SegmentView {
    SegmentView {
        vaddr: ph.p_vaddr,
        mem_size: ph.p_memsz,
        file_size: ph.p_filesz,
        flags: ph.p_flags,
        data: bytes.subrange(ph.p_offset as int, ph.p_offset + ph.p_filesz),
    }
}

/// The loadable segments among the first `k` headers, in order.
pub open spec fn load_segments(hs: Seq<ProgramHeaderInfo>, bytes: Seq<u8>, k: int) -> Seq<SegmentView>
    decreases k,
{
    if k <= 0 {
        Seq::empty()
    } else if hs[k - 1].p_type == PT_LOAD {
        load_segments(hs, bytes, k - 1).push(segment_of(hs[k - 1], bytes))
    } else {
        load_segments(hs, bytes, k - 1)
    }
}

pub open spec fn has_interp(hs: Seq<ProgramHeaderInfo>) -> bool {
    exists|i: int| 0 <= i < hs.len() && (#[trigger] hs[i]).p_type == PT_INTERP
}

pub open spec fn loads_in_image(hs: Seq<ProgramHeaderInfo>, len: nat) -> bool {
    forall|i: int| 0 <= i < hs.len() && (#[trigger] hs[i]).p_type == PT_LOAD ==> segment_in_image(hs[i], len)
}

/// What loading a parsed image gives: the first check that fails, else the
/// image with its loadable segments, in header order.
pub open spec fn spec_load(path: Seq<char>, bytes: Seq<u8>, l: ElfLayoutView) -> Result<LoadedView, ElfLoadErrorKind> {
    if !l.is_64 {
        Err(ElfLoadErrorKind::NotSixtyFourBit)
    } else if !l.little_endian {
        Err(ElfLoadErrorKind::NotLittleEndian)
    } else if has_interp(l.program_headers) {
        Err(ElfLoadErrorKind::DynamicInterpreter)
    } else if !loads_in_image(l.program_headers, bytes.len()) {
        Err(ElfLoadErrorKind::SegmentOutsideImage)
    } else if load_segments(l.program_headers, bytes, l.program_headers.len() as int).len() == 0 {
        Err(ElfLoadErrorKind::NoLoadSegments)
    } else {
        Ok(LoadedView {
            path,
            entry: l.entry,
            little_endian: l.little_endian,
            bits: 64,
            machine: l.machine,
            segments: load_segments(l.program_headers, bytes, l.program_headers.len() as int),
        })
    }
}

pub open spec fn result_view(r: Result<LoadedElf, ElfLoadError>) -> Result<LoadedView, ElfLoadErrorKind> {
    match r {
        Ok(e) => Ok(e@),
        Err(e) => Err(error_kind(e)),
    }
}

fn copy_range(bytes: &Vec<u8>, start: usize, end: usize) -> (r: Vec<u8>)
    requires
        start <= end <= bytes@.len(),
    ensures
        r@ == bytes@.subrange(start as int, end as int),
{
    let mut out: Vec<u8> = Vec::new();
    let mut i: usize = start;
    while i < end
        invariant
            start <= i <= end <= bytes@.len(),
            out@ == bytes@.subrange(start as int, i as int),
        decreases end - i,
    {
        out.push(bytes[i]);
        i += 1;
        assert(out@ =~= bytes@.subrange(start as int, i as int));
    }
    out
}

/// Checks a parsed image and cuts its loadable segments out of `bytes`:
/// it must be 64-bit, little-endian, ask for no dynamic interpreter, keep
/// every loadable segment inside the file, and have at least one.
pub fn load_from_layout(path: String, bytes: &Vec<u8>, layout: ElfLayout) -> (r: Result<LoadedElf, ElfLoadError>)
    ensures
        result_view(r) == spec_load(path@, bytes@, layout@),
{
    if !layout.is_64 {
        return Err(ElfLoadError::NotSixtyFourBit);
    }
    if !layout.little_endian {
        return Err(ElfLoadError::NotLittleEndian);
    }
    let hs = &layout.program_headers;
    let mut i: usize = 0;
    while i < hs.len()
        invariant
            i <= hs@.len(),
            hs@ == layout.program_headers@,
            layout.is_64 && layout.little_endian,
            forall|j: int| 0 <= j < i ==> (#[trigger] hs@[j]).p_type != PT_INTERP,
        decreases hs@.len() - i,
    {
        if hs[i].p_type == PT_INTERP {
            assert(has_interp(hs@));
            return Err(ElfLoadError::DynamicInterpreter);
        }
        i += 1;
    }
    let mut segments: Vec<SegmentImage> = Vec::new();
    let mut k: usize = 0;
    while k < hs.len()
        invariant
            k <= hs@.len(),
            hs@ == layout.program_headers@,
            layout.is_64 && layout.little_endian,
            !has_interp(hs@),
            forall|j: int| 0 <= j < k && (#[trigger] hs@[j]).p_type == PT_LOAD ==> segment_in_image(hs@[j], bytes@.len()),
            segments@.map_values(|s: SegmentImage| s@) == load_segments(hs@, bytes@, k as int),
        decreases hs@.len() - k,
    {
        let ph = hs[k];
        if ph.p_type == PT_LOAD {
            let len = bytes.len() as u64;
            let end = match ph.p_offset.checked_add(ph.p_filesz) {
                Some(e) => e,
                None => {
                    assert(!segment_in_image(hs@[k as int], bytes@.len()));
                    return Err(ElfLoadError::SegmentOutsideImage);
                },
            };
            if end > len {
                assert(!segment_in_image(hs@[k as int], bytes@.len()));
                return Err(ElfLoadError::SegmentOutsideImage);
            }
            let data = copy_range(bytes, ph.p_offset as usize, end as usize);
            let seg = SegmentImage { vaddr: ph.p_vaddr, mem_size: ph.p_memsz, file_size: ph.p_filesz, flags: ph.p_flags, data };
            let ghost before = segments@;
            segments.push(seg);
            assert(segments@.map_values(|s: SegmentImage| s@) =~= before.map_values(|s: SegmentImage| s@).push(seg@));
        }
        k += 1;
    }
    if segments.len() == 0 {
        return Err(ElfLoadError::NoLoadSegments);
    }
    Ok(LoadedElf { path, entry: layout.entry, little_endian: layout.little_endian, bits: 64, machine: layout.machine, segments })
}

/// Parses `bytes` (read from `path`) as a static ELF image and loads it.
pub fn load_static_elf_bytes(path: String, bytes: &Vec<u8>) -> (r: Result<LoadedElf, ElfLoadError>)
    ensures
        match goblin_elf_layout(bytes@) {
            None => r matches Err(ElfLoadError::Parse(_)),
            Some(l) => result_view(r) == spec_load(path@, bytes@, l),
        },
{
    match parse_elf_layout(bytes) {
        Ok(layout) => load_from_layout(path, bytes, layout),
        Err(e) => Err(ElfLoadError::Parse(parse_error_text(&e))),
    }
}

} // verus!

verus! {

/// The program headers that ask for a loadable segment.
pub open spec fn is_load_header() -> spec_fn(ProgramHeaderInfo) -> bool {
    |h: ProgramHeaderInfo| h.p_type == PT_LOAD
}

proof fn lemma_load_segments_are_filtered_headers(hs: Seq<ProgramHeaderInfo>, bytes: Seq<u8>, k: int)
    requires
        0 <= k <= hs.len(),
    ensures
        load_segments(hs, bytes, k).len() == hs.take(k).filter(is_load_header()).len(),
        forall|i: int| 0 <= i < load_segments(hs, bytes, k).len() ==> #[trigger] load_segments(hs, bytes, k)[i]
            == segment_of(hs.take(k).filter(is_load_header())[i], bytes),
    decreases k,
{
    let t = hs.take(k);
    if k == 0 {
        reveal(Seq::filter);
        assert(t.len() == 0);
    } else {
        lemma_load_segments_are_filtered_headers(hs, bytes, k - 1);
        assert(t.drop_last() =~= hs.take(k - 1));
        assert(t.last() == hs[k - 1]);
        reveal(Seq::filter);
        assert(t.filter(is_load_header()) == if hs[k - 1].p_type == PT_LOAD {
            hs.take(k - 1).filter(is_load_header()).push(hs[k - 1])
        } else {
            hs.take(k - 1).filter(is_load_header())
        });
    }
}

/// Law: an image loads exactly when it is 64-bit, little-endian, asks for
/// no dynamic interpreter, keeps every loadable segment inside the file and
/// has at least one; and then its segments are its PT_LOAD program headers,
/// one each, in header order, each with the header's address, sizes and
/// flags and the file bytes the header covers.
pub proof fn law_load_keeps_every_load_segment(
    path: Seq<char>,
    bytes: Seq<u8>,
    l: ElfLayoutView,
    r: Result<LoadedView, ElfLoadErrorKind>,
)
    requires
        r == spec_load(path, bytes, l),
    ensures
        ({
            let loads = l.program_headers.filter(is_load_header());
            &&& (r is Ok <==> {
                &&& l.is_64
                &&& l.little_endian
                &&& forall|i: int| 0 <= i < l.program_headers.len() ==> (#[trigger] l.program_headers[i]).p_type != PT_INTERP
                &&& forall|i: int| 0 <= i < loads.len() ==> (#[trigger] loads[i]).p_offset + loads[i].p_filesz <= bytes.len()
                &&& loads.len() > 0
            })
            &&& (!l.is_64 ==> r == Err::<LoadedView, ElfLoadErrorKind>(ElfLoadErrorKind::NotSixtyFourBit))
            &&& (l.is_64 && !l.little_endian ==> r == Err::<LoadedView, ElfLoadErrorKind>(ElfLoadErrorKind::NotLittleEndian))
            &&& (l.is_64 && l.little_endian && (exists|i: int| 0 <= i < l.program_headers.len()
                && (#[trigger] l.program_headers[i]).p_type == PT_INTERP)
                ==> r == Err::<LoadedView, ElfLoadErrorKind>(ElfLoadErrorKind::DynamicInterpreter))
            &&& (l.is_64 && l.little_endian && !(exists|i: int| 0 <= i < l.program_headers.len()
                && (#[trigger] l.program_headers[i]).p_type == PT_INTERP) && (exists|i: int| 0 <= i < loads.len()
                && !((#[trigger] loads[i]).p_offset + loads[i].p_filesz <= bytes.len()))
                ==> r == Err::<LoadedView, ElfLoadErrorKind>(ElfLoadErrorKind::SegmentOutsideImage))
            &&& (l.is_64 && l.little_endian && !(exists|i: int| 0 <= i < l.program_headers.len()
                && (#[trigger] l.program_headers[i]).p_type == PT_INTERP) && loads.len() == 0
                ==> r == Err::<LoadedView, ElfLoadErrorKind>(ElfLoadErrorKind::NoLoadSegments))
            &&& (r matches Ok(v) ==> {
                &&& v.path == path && v.entry == l.entry && v.little_endian && v.bits == 64 && v.machine == l.machine
                &&& v.segments.len() == loads.len()
                &&& forall|i: int| 0 <= i < loads.len() ==> {
                    &&& (#[trigger] v.segments[i]).vaddr == loads[i].p_vaddr
                    &&& v.segments[i].mem_size == loads[i].p_memsz
                    &&& v.segments[i].file_size == loads[i].p_filesz
                    &&& v.segments[i].flags == loads[i].p_flags
                    &&& v.segments[i].data == bytes.subrange(loads[i].p_offset as int, loads[i].p_offset + loads[i].p_filesz)
                }
            })
        }),
{
    let hs = l.program_headers;
    let loads = hs.filter(is_load_header());
    lemma_load_segments_are_filtered_headers(hs, bytes, hs.len() as int);
    assert(hs.take(hs.len() as int) =~= hs);
    let segs = load_segments(hs, bytes, hs.len() as int);
    assert forall|i: int| 0 <= i < loads.len() implies (#[trigger] loads[i]).p_type == PT_LOAD && hs.contains(loads[i]) by {
        hs.lemma_filter_pred(is_load_header(), i);
        assert(loads.contains(loads[i]));
        hs.lemma_filter_contains_rev(is_load_header(), loads[i]);
    }
    if loads_in_image(hs, bytes.len()) {
        assert forall|i: int| 0 <= i < loads.len() implies (#[trigger] loads[i]).p_offset + loads[i].p_filesz <= bytes.len() by {
            let j = choose|j: int| 0 <= j < hs.len() && hs[j] == loads[i];
            assert(hs[j].p_type == PT_LOAD);
        }
    } else {
        let j = choose|j: int| 0 <= j < hs.len() && (#[trigger] hs[j]).p_type == PT_LOAD && !segment_in_image(hs[j], bytes.len());
        hs.lemma_filter_contains(is_load_header(), j);
        let i = choose|i: int| 0 <= i < loads.len() && loads[i] == hs[j];
        assert(!(loads[i].p_offset + loads[i].p_filesz <= bytes.len()));
    }
    if has_interp(hs) {
        let i = choose|i: int| 0 <= i < hs.len() && (#[trigger] hs[i]).p_type == PT_INTERP;
        assert(hs[i].p_type == PT_INTERP);
    }
    if r is Ok {
        assert forall|i: int| 0 <= i < loads.len() implies {
            &&& (#[trigger] r->Ok_0.segments[i]).vaddr == loads[i].p_vaddr
            &&& r->Ok_0.segments[i].mem_size == loads[i].p_memsz
            &&& r->Ok_0.segments[i].file_size == loads[i].p_filesz
            &&& r->Ok_0.segments[i].flags == loads[i].p_flags
            &&& r->Ok_0.segments[i].data == bytes.subrange(loads[i].p_offset as int, loads[i].p_offset + loads[i].p_filesz)
        } by {
            assert(r->Ok_0.segments[i] == segs[i]);
        }
    }
}

} // verus!
