//! Sub-word register updates.

use vstd::prelude::*;

verus! {

/// A mask of `width` low ones, for `width <= 32`.
pub open spec fn mask_of(width: u32) -> u32 {
    if width >= 32 {
        0xffff_ffffu32
    } else {
        ((1u32 << width) - 1) as u32
    }
}

/// The word `current` with bits `[offset, offset + width)` replaced by the low
/// `width` bits of `value`; a field of width zero leaves the word as it is.
pub open spec fn merged_word(current: u32, offset: u32, width: u32, value: u32) -> u32 {
    if width == 0 {
        current
    } else {
        (current & !(mask_of(width) << offset)) | ((value & mask_of(width)) << offset)
    }
}

/// How a field write reaches the register.
#[derive(Debug, Clone, Copy, PartialEq, Eq)]
pub enum RegisterWrite {
    /// The field is the whole word: write `value` at `address`.
    Direct { address: u64, value: u32 },
    /// Read the word at `address`, merge the field in with `merge_field`, write it back.
    ReadModifyWrite { address: u64, offset: u32, width: u32, value: u32 },
}

/// Why a field cannot be written.
#[derive(Debug, Clone, Copy, PartialEq, Eq)]
pub enum FieldWriteError {
    /// The bit range crosses the end of the 32-bit word.
    UnalignedField,
}

/// A mask of `width` low ones.
pub fn field_mask(width: u32) -> (r: u32)
    requires
        width <= 32,
    ensures
        r == mask_of(width),
{
    if width >= 32 {
        0xffff_ffffu32
    } else {
        assert(1u32 << width >= 1) by (bit_vector)
            requires width < 32;
        (1u32 << width) - 1
    }
}

/// Merges `value` into bits `[offset, offset + width)` of `current`.
///
/// Bits outside the field keep their value, and the field holds the low
/// `width` bits of `value`.
pub fn merge_field(current: u32, offset: u32, width: u32, value: u32) -> (r: u32)
    requires
        offset + width <= 32,
    ensures
        r == merged_word(current, offset, width, value),
        width > 0 ==> (current ^ r) & !(mask_of(width) << offset) == 0,
        width > 0 ==> (r >> offset) & mask_of(width) == value & mask_of(width),
        width == 0 ==> r == current,
{
    if width == 0 {
        return current;
    }
    let mask = field_mask(width);
    let r = (current & !(mask << offset)) | ((value & mask) << offset);
    proof {
        lemma_merge_bits(current, offset, width, value, mask);
    }
    r
}

proof fn lemma_merge_bits(current: u32, offset: u32, width: u32, value: u32, mask: u32)
    requires
        offset < 32,
        offset + width <= 32,
        mask == mask_of(width),
    ensures
        (current ^ ((current & !(mask << offset)) | ((value & mask) << offset))) & !(mask << offset) == 0,
        (((current & !(mask << offset)) | ((value & mask) << offset)) >> offset) & mask == value & mask,
{
    if width >= 32 {
        assert(offset == 0);
        assert(mask == 0xffff_ffffu32);
        assert((current ^ ((current & !(mask << offset)) | ((value & mask) << offset))) & !(mask << offset) == 0
            && (((current & !(mask << offset)) | ((value & mask) << offset)) >> offset) & mask == value & mask)
            by (bit_vector)
            requires offset == 0u32, mask == 0xffff_ffffu32;
    } else {
        assert(mask == ((1u32 << width) - 1) as u32);
        assert((current ^ ((current & !(mask << offset)) | ((value & mask) << offset))) & !(mask << offset) == 0
            && (((current & !(mask << offset)) | ((value & mask) << offset)) >> offset) & mask == value & mask)
            by (bit_vector)
            requires offset + width <= 32, width < 32, mask == ((1u32 << width) - 1) as u32;
    }
}

/// Decides how to write `value` into `field`, given as
/// (register address, bit offset, bit width).
///
/// A field that is the whole word is written directly; a field that crosses
/// the end of the word is refused before any register is touched; any other
/// field is merged into the current word.
pub fn plan_field_write(field: (u64, u32, u32), value: u32) -> (r: Result<RegisterWrite, FieldWriteError>)
    ensures
        field.1 == 0 && field.2 == 32 ==> r == Ok::<RegisterWrite, FieldWriteError>(
            RegisterWrite::Direct { address: field.0, value },
        ),
        !(field.1 == 0 && field.2 == 32) && field.1 + field.2 > 32 ==> r == Err::<RegisterWrite, FieldWriteError>(
            FieldWriteError::UnalignedField,
        ),
        !(field.1 == 0 && field.2 == 32) && field.1 + field.2 <= 32 ==> r == Ok::<RegisterWrite, FieldWriteError>(
            RegisterWrite::ReadModifyWrite { address: field.0, offset: field.1, width: field.2, value },
        ),
{
    let (address, offset, width) = field;
    if width == 32 && offset == 0 {
        Ok(RegisterWrite::Direct { address, value })
    } else if offset as u64 + width as u64 > 32 {
        Err(FieldWriteError::UnalignedField)
    } else {
        Ok(RegisterWrite::ReadModifyWrite { address, offset, width, value })
    }
}

} // verus!
