//! The parts of a linked executable image that bundling reads.

use vstd::prelude::*;
use vstd::string::*;
use vstd::utf8::*;
use crate::lookup::{first_where, is_first_where, lemma_first_where_unique};
use object::{Object, ObjectSection, ObjectSegment};

verus! {

/// A named section: its load address, its bytes, and where those bytes sit in
/// the image file (`None` for a section that occupies no file bytes).
#[derive(Debug, Clone)]
pub struct Section {
    pub name: String,
    pub address: u64,
    pub data: Vec<u8>,
    pub file_range: Option<(u64, u64)>,
}

/// A loadable segment: the bytes to place in memory at `address`.
#[derive(Debug, Clone)]
pub struct Segment {
    pub address: u64,
    pub data: Vec<u8>,
}

/// An executable image as its sections and segments, in the order the file
/// lists them, and its declared byte order.
#[derive(Debug, Clone)]
pub struct Image {
    pub big_endian: bool,
    pub sections: Vec<Section>,
    pub segments: Vec<Segment>,
}

/// Why an image cannot be read, patched or flattened.
#[derive(Debug, Clone, Copy, PartialEq, Eq)]
pub enum ImageError {
    /// No section is named `.metadata`.
    MissingMetadata,
    /// The `.metadata` section is too short to hold the version record.
    MalformedMetadata,
    /// No section holds the whole range that the version record describes.
    NoVersionFound,
    /// A segment starts below the end of the one placed before it.
    AddressOverlap,
    /// The flattened image would not fit in memory.
    TooLarge,
    /// A `.firmware_flag` section is not four bytes inside the file.
    BadFlagSection,
    /// The bytes are not an executable image.
    MalformedImage,
}

#[verifier::external_type_specification]
#[verifier::external_body]
pub struct ExObjectError(object::Error);

/// The parts of the executable image file with bytes `data`, when it is one.
pub uninterp spec fn parsed_image(data: Seq<u8>) -> Option<Image>;

/// Relies on `object::File::parse`, and on the section and segment accessors
/// of the parsed file, to list an executable image's parts in file order;
/// what they return depends on the bytes alone.
#[verifier::external_body]
fn parse_object(data: &[u8]) -> (r: Result<Image, object::Error>)
    ensures
        r is Ok <==> parsed_image(data@) is Some,
        r matches Ok(img) ==> parsed_image(data@) == Some(img),
{
    let obj = object::File::parse(data)?;
    let sections = obj.sections().map(|s| Ok(Section {
        name: String::from_utf8_lossy(s.name_bytes()?).into_owned(),
        address: s.address(),
        data: s.data()?.to_vec(),
        file_range: s.file_range(),
    })).collect::<Result<Vec<Section>, object::Error>>()?;
    let segments = obj.segments().map(|s| Ok(Segment { address: s.address(), data: s.data()?.to_vec() }))
        .collect::<Result<Vec<Segment>, object::Error>>()?;
    Ok(Image { big_endian: obj.endianness() == object::Endianness::Big, sections, segments })
}

/// Reads the sections and segments of the executable image file `data`.
pub fn parse_image(data: &[u8]) -> (r: Result<Image, ImageError>)
    ensures
        match r {
            Ok(img) => parsed_image(data@) == Some(img),
            Err(e) => parsed_image(data@) is None && e == ImageError::MalformedImage,
        },
{
    match parse_object(data) {
        Ok(img) => Ok(img),
        Err(_) => Err(ImageError::MalformedImage),
    }
}

} // verus!

verus! {

/// Sections named `name`.
pub open spec fn named(name: Seq<char>) -> spec_fn(Section) -> bool {
    |s: Section| s.name@ == name
}

/// Sections whose address range holds all of `[addr, addr + len)`.
pub open spec fn holds_range(addr: int, len: int) -> spec_fn(Section) -> bool {
    |s: Section| s.address <= addr && addr + len <= s.address + s.data@.len()
}

/// The 32-bit word stored in `d[i..i + 4]` in the given byte order.
pub open spec fn word_at(d: Seq<u8>, i: int, big_endian: bool) -> int {
    if big_endian {
        d[i] * 0x100_0000 + d[i + 1] * 0x1_0000 + d[i + 2] * 0x100 + d[i + 3]
    } else {
        d[i] + d[i + 1] * 0x100 + d[i + 2] * 0x1_0000 + d[i + 3] * 0x100_0000
    }
}

/// The text that lossy UTF-8 decoding makes of `b`: invalid sequences become
/// replacement characters.
pub uninterp spec fn utf8_lossy(b: Seq<u8>) -> Seq<char>;

/// The version string embedded in `img`, or why there is none.
///
/// The `.metadata` section holds at bytes 4 and 8 the address and the length
/// of the version text, in the image's byte order. The text is read from the
/// first section that holds that whole range.
pub open spec fn version_of(img: Image) -> Result<Seq<char>, ImageError> {
    let secs = img.sections@;
    match first_where(secs, named(".metadata"@)) {
        None => Err(ImageError::MissingMetadata),
        Some(m) => {
            let d = secs[m].data@;
            if d.len() < 12 {
                Err(ImageError::MalformedMetadata)
            } else {
                let addr = word_at(d, 4, img.big_endian);
                let len = word_at(d, 8, img.big_endian);
                match first_where(secs, holds_range(addr, len)) {
                    None => Err(ImageError::NoVersionFound),
                    Some(k) => {
                        let off = addr - secs[k].address;
                        Ok(utf8_lossy(secs[k].data@.subrange(off, off + len)))
                    },
                }
            }
        },
    }
}

/// Relies on `String::from_utf8_lossy`: the text depends on the bytes alone,
/// and valid UTF-8 comes back decoded as it is.
#[verifier::external_body]
fn decode_lossy(b: &[u8]) -> (r: String)
    ensures
        r@ == utf8_lossy(b@),
        valid_utf8(b@) ==> r@ == decode_utf8(b@),
{
    String::from_utf8_lossy(b).into_owned()
}

/// The 32-bit word at `d[i..i + 4]` in the given byte order.
fn read_word(d: &Vec<u8>, i: usize, big_endian: bool) -> (r: u32)
    requires
        i + 4 <= d.len(),
    ensures
        r == word_at(d@, i as int, big_endian),
{
    let b0 = d[i] as u32;
    let b1 = d[i + 1] as u32;
    let b2 = d[i + 2] as u32;
    let b3 = d[i + 3] as u32;
    if big_endian {
        b0 * 0x100_0000 + b1 * 0x1_0000 + b2 * 0x100 + b3
    } else {
        b0 + b1 * 0x100 + b2 * 0x1_0000 + b3 * 0x100_0000
    }
}

/// Finds the first section named `name`.
fn find_named(secs: &Vec<Section>, name: &String) -> (r: Option<usize>)
    ensures
        match r {
            Some(i) => is_first_where(secs@, named(name@), i as int),
            None => first_where(secs@, named(name@)) is None,
        },
{
    let mut i: usize = 0;
    while i < secs.len()
        invariant
            0 <= i <= secs.len(),
            forall|j: int| 0 <= j < i ==> !named(name@)(#[trigger] secs@[j]),
        decreases secs.len() - i,
    {
        if secs[i].name == *name {
            return Some(i);
        }
        i = i + 1;
    }
    None
}

/// Reads the version string embedded in `img` (see `version_of`).
pub fn read_version(img: &Image) -> (r: Result<String, ImageError>)
    ensures
        match r {
            Ok(s) => version_of(*img) == Ok::<Seq<char>, ImageError>(s@),
            Err(e) => version_of(*img) == Err::<Seq<char>, ImageError>(e),
        },
{
    let secs = &img.sections;
    let meta_name = String::from_str(".metadata");
    let m = match find_named(secs, &meta_name) {
        None => return Err(ImageError::MissingMetadata),
        Some(m) => m,
    };
    proof {
        lemma_first_where_unique(secs@, named(".metadata"@), m as int);
    }
    let d = &secs[m].data;
    if d.len() < 12 {
        return Err(ImageError::MalformedMetadata);
    }
    let addr = read_word(d, 4, img.big_endian);
    let len = read_word(d, 8, img.big_endian);
    let ghost p = holds_range(addr as int, len as int);
    let mut k: usize = 0;
    while k < secs.len()
        invariant
            0 <= k <= secs.len(),
            p == holds_range(addr as int, len as int),
            secs@ == img.sections@,
            first_where(secs@, named(".metadata"@)) == Some(m as int),
            0 <= m < secs.len(),
            secs@[m as int].data@.len() >= 12,
            addr == word_at(secs@[m as int].data@, 4, img.big_endian),
            len == word_at(secs@[m as int].data@, 8, img.big_endian),
            forall|j: int| 0 <= j < k ==> !p(#[trigger] secs@[j]),
        decreases secs.len() - k,
    {
        let s = &secs[k];
        if s.address as u128 <= addr as u128 && addr as u128 + len as u128 <= s.address as u128
            + s.data.len() as u128 {
            proof {
                lemma_first_where_unique(secs@, p, k as int);
            }
            let off = (addr as u64 - s.address) as usize;
            let text = vstd::slice::slice_subrange(s.data.as_slice(), off, off + len as usize);
            let r = decode_lossy(text);
            assert(text@ == secs@[k as int].data@.subrange(off as int, off + len));
            return Ok(r);
        }
        k = k + 1;
    }
    Err(ImageError::NoVersionFound)
}

} // verus!

verus! {

/// Sections named `.firmware_flag` that occupy bytes of the file.
pub open spec fn is_flag(s: Section) -> bool {
    s.name@ == ".firmware_flag"@ && s.file_range is Some
}

/// Where a section's bytes start in the file, and how many there are.
pub open spec fn file_start(s: Section) -> int {
    match s.file_range {
        Some((o, _)) => o as int,
        None => 0,
    }
}

pub open spec fn file_size(s: Section) -> int {
    match s.file_range {
        Some((_, z)) => z as int,
        None => 0,
    }
}

/// A flag section can be cleared: it is four bytes, all inside a file of `n` bytes.
pub open spec fn flag_fits(s: Section, n: int) -> bool {
    file_size(s) == 4 && file_start(s) + 4 <= n
}

/// Byte `k` of the file belongs to one of the first `upto` flag sections.
pub open spec fn in_flag(secs: Seq<Section>, upto: int, k: int) -> bool {
    exists|i: int|
        0 <= i < upto && is_flag(#[trigger] secs[i]) && file_start(secs[i]) <= k < file_start(secs[i]) + 4
}

/// `raw` with the bytes of the first `upto` flag sections set to `0xFF`.
pub open spec fn flag_cleared(raw: Seq<u8>, secs: Seq<Section>, upto: int) -> Seq<u8> {
    Seq::new(raw.len(), |k: int| if in_flag(secs, upto, k) { 0xFFu8 } else { raw[k] })
}

/// Clears the firmware flag of the image file `raw`, whose parts are `img`:
/// every `.firmware_flag` section's four bytes become `0xFF`, and every other
/// byte stays as it is. An image without the flag comes back unchanged.
pub fn clear_firmware_flag(raw: &Vec<u8>, img: &Image) -> (r: Result<Vec<u8>, ImageError>)
    ensures
        match r {
            Ok(v) => {
                &&& forall|i: int|
                    0 <= i < img.sections@.len() && is_flag(#[trigger] img.sections@[i]) ==> flag_fits(
                        img.sections@[i],
                        raw@.len() as int,
                    )
                &&& v@ == flag_cleared(raw@, img.sections@, img.sections@.len() as int)
            },
            Err(e) => e == ImageError::BadFlagSection && exists|i: int|
                0 <= i < img.sections@.len() && is_flag(#[trigger] img.sections@[i]) && !flag_fits(
                    img.sections@[i],
                    raw@.len() as int,
                ),
        },
{
    let secs = &img.sections;
    let flag = String::from_str(".firmware_flag");
    let mut out: Vec<u8> = Vec::new();
    out.extend_from_slice(raw.as_slice());
    assert(out@ =~= flag_cleared(raw@, secs@, 0));
    let mut i: usize = 0;
    while i < secs.len()
        invariant
            0 <= i <= secs.len(),
            flag@ == ".firmware_flag"@,
            secs@ == img.sections@,
            out@ == flag_cleared(raw@, secs@, i as int),
            forall|j: int| 0 <= j < i && is_flag(#[trigger] secs@[j]) ==> flag_fits(secs@[j], raw@.len() as int),
        decreases secs.len() - i,
    {
        let s = &secs[i];
        if s.name == flag {
            if let Some((o, z)) = s.file_range {
                if z != 4 || o > raw.len() as u64 || raw.len() as u64 - o < 4 {
                    assert(is_flag(secs@[i as int]) && !flag_fits(secs@[i as int], raw@.len() as int));
                    return Err(ImageError::BadFlagSection);
                }
                let start = o as usize;
                let ghost before = out@;
                out.set(start, 0xFFu8);
                out.set(start + 1, 0xFFu8);
                out.set(start + 2, 0xFFu8);
                out.set(start + 3, 0xFFu8);
                assert forall|k: int| 0 <= k < raw@.len() implies #[trigger] out@[k]
                    == flag_cleared(raw@, secs@, i + 1)[k] by {
                    if start <= k < start + 4 {
                        assert(in_flag(secs@, i + 1, k));
                    } else {
                        assert(out@[k] == before[k]);
                        if in_flag(secs@, i + 1, k) {
                            let w = choose|w: int|
                                0 <= w < i + 1 && is_flag(#[trigger] secs@[w]) && file_start(secs@[w]) <= k
                                    < file_start(secs@[w]) + 4;
                            assert(w != i);
                            assert(in_flag(secs@, i as int, k));
                        } else {
                            assert(!in_flag(secs@, i as int, k));
                        }
                    }
                }
                assert(out@ =~= flag_cleared(raw@, secs@, i + 1));
            } else {
                assert(flag_cleared(raw@, secs@, i + 1) =~= flag_cleared(raw@, secs@, i as int)) by {
                    assert forall|k: int| in_flag(secs@, i + 1, k) implies in_flag(secs@, i as int, k) by {
                        let w = choose|w: int|
                            0 <= w < i + 1 && is_flag(#[trigger] secs@[w]) && file_start(secs@[w]) <= k
                                < file_start(secs@[w]) + 4;
                        assert(w != i);
                    }
                }
            }
        } else {
            assert(flag_cleared(raw@, secs@, i + 1) =~= flag_cleared(raw@, secs@, i as int)) by {
                assert forall|k: int| in_flag(secs@, i + 1, k) implies in_flag(secs@, i as int, k) by {
                    let w = choose|w: int|
                        0 <= w < i + 1 && is_flag(#[trigger] secs@[w]) && file_start(secs@[w]) <= k
                            < file_start(secs@[w]) + 4;
                    assert(w != i);
                }
            }
        }
        i = i + 1;
    }
    Ok(out)
}

} // verus!
