//! Flash procedures: the actions of a bundle's config and the register
//! writes and programming steps that each one takes on a chip.

use vstd::prelude::*;
use vstd::utf8::*;
use crate::bundle::Index;
use crate::register::{plan_field_write, FieldWriteError, RegisterWrite};
use crate::resources::{Algo, AlgoRegistry, regex_matches};
use crate::svd::{get_svd_field, resolution, FieldError, RegisterMap};

verus! {

/// One step of a flash procedure.
#[derive(Debug, Clone)]
pub enum FlashAction {
    UnlockFlash,
    LockFlash,
    UnlockOptBytes,
    FlashBootloader,
    FlashFirmware,
    SetField { path: String, value: u32 },
}

/// A device's procedure: actions run in order, and the first failure ends it.
#[derive(Debug, Clone)]
pub struct FlashConfig {
    pub procedure: Vec<FlashAction>,
}

/// What the hardware is asked to do.
#[derive(Debug, Clone)]
pub enum HwStep {
    /// Write a register field.
    Write(RegisterWrite),
    /// Release the core and program the bundle artifact of this name.
    Program(String),
}

/// Why an action cannot run.
#[derive(Debug, Clone, Copy, PartialEq, Eq)]
pub enum FlashError {
    /// No chip family's pattern matches the chip.
    UnknownChip,
    /// A field path does not resolve.
    Field(FieldError),
    /// An unlock key is not a 32-bit hexadecimal number.
    BadKey,
    /// A field crosses the end of its register word.
    UnalignedField,
}

/// The value of a hexadecimal digit byte.
pub open spec fn hex_digit(c: u8) -> Option<int> {
    if 0x30 <= c <= 0x39 {
        Some(c - 0x30)
    } else if 0x61 <= c <= 0x66 {
        Some(c - 0x61 + 10)
    } else if 0x41 <= c <= 0x46 {
        Some(c - 0x41 + 10)
    } else {
        None
    }
}

/// The value of a run of hexadecimal digits, most significant first.
pub open spec fn hex_digits(b: Seq<u8>) -> Option<int>
    decreases b.len(),
{
    if b.len() == 0 {
        Some(0)
    } else {
        match (hex_digits(b.drop_last()), hex_digit(b.last())) {
            (Some(v), Some(d)) => Some(v * 16 + d),
            _ => None,
        }
    }
}

/// The digits of a key: its bytes after an optional `0x` prefix.
pub open spec fn key_digits(b: Seq<u8>) -> Seq<u8> {
    if b.len() >= 2 && b[0] == 0x30 && b[1] == 0x78 {
        b.subrange(2, b.len() as int)
    } else {
        b
    }
}

/// The 32-bit value that the key text with UTF-8 bytes `b` denotes: one or
/// more hexadecimal digits after an optional `0x` prefix.
pub open spec fn key_value(b: Seq<u8>) -> Option<u32> {
    let d = key_digits(b);
    if d.len() == 0 {
        None
    } else {
        match hex_digits(d) {
            Some(v) => if v <= u32::MAX {
                Some(v as u32)
            } else {
                None
            },
            None => None,
        }
    }
}

proof fn lemma_hex_digits_grow(b: Seq<u8>, i: int)
    requires
        0 <= i <= b.len(),
        hex_digits(b) is Some,
    ensures
        hex_digits(b.subrange(0, i)) is Some,
        hex_digits(b.subrange(0, i))->Some_0 <= hex_digits(b)->Some_0,
        hex_digits(b)->Some_0 >= 0,
    decreases b.len(),
{
    if b.len() == 0 {
        assert(b.subrange(0, i) =~= b);
    } else {
        let front = b.drop_last();
        if i == b.len() {
            lemma_hex_digits_grow(front, 0);
            assert(b.subrange(0, i) =~= b);
        } else {
            assert(front.subrange(0, i) =~= b.subrange(0, i));
            lemma_hex_digits_grow(front, i);
        }
    }
}

/// Parses an unlock key: hexadecimal digits after an optional `0x` prefix.
pub fn parse_key(key: &str) -> (r: Option<u32>)
    ensures
        r == key_value(encode_utf8(key@)),
{
    let b = key.as_bytes();
    let start: usize = if b.len() >= 2 && b[0] == 0x30u8 && b[1] == 0x78u8 {
        2
    } else {
        0
    };
    let ghost d = key_digits(b@);
    assert(d =~= b@.subrange(start as int, b@.len() as int));
    if start == b.len() {
        return None;
    }
    let mut v: u64 = 0;
    let mut i: usize = start;
    assert(d.subrange(0, 0) =~= Seq::<u8>::empty());
    while i < b.len()
        invariant
            start <= i <= b@.len(),
            d == b@.subrange(start as int, b@.len() as int),
            d == key_digits(b@),
            d.len() > 0,
            b@ == encode_utf8(key@),
            hex_digits(d.subrange(0, i - start)) == Some(v as int),
            v <= u32::MAX,
        decreases b@.len() - i,
    {
        let c = b[i];
        let ghost pre = d.subrange(0, i - start);
        let ghost next = d.subrange(0, i - start + 1);
        assert(next.drop_last() =~= pre);
        assert(next.last() == c);
        let digit: u64 = if 0x30u8 <= c && c <= 0x39u8 {
            (c - 0x30u8) as u64
        } else if 0x61u8 <= c && c <= 0x66u8 {
            (c - 0x61u8 + 10u8) as u64
        } else if 0x41u8 <= c && c <= 0x46u8 {
            (c - 0x41u8 + 10u8) as u64
        } else {
            proof {
                assert(hex_digit(c) is None);
                assert(hex_digits(next) is None);
                if hex_digits(d) is Some {
                    lemma_hex_digits_grow(d, i - start + 1);
                }
                assert(hex_digits(d) is None);
            }
            return None;
        };
        let w = v * 16 + digit;
        assert(hex_digit(c) == Some(digit as int));
        assert(hex_digits(next) == Some(w as int));
        if w > 0xffff_ffffu64 {
            proof {
                if hex_digits(d) is Some {
                    lemma_hex_digits_grow(d, i - start + 1);
                }
            }
            return None;
        }
        v = w;
        i = i + 1;
    }
    assert(d.subrange(0, d.len() as int) =~= d);
    Some(v as u32)
}

/// A field that crosses the end of its register word.
pub open spec fn unaligned(field: (u64, u32, u32)) -> bool {
    !(field.1 == 0 && field.2 == 32) && field.1 + field.2 > 32
}

/// The write of `value` into the field at `field`.
pub open spec fn write_of(field: (u64, u32, u32), value: u32) -> HwStep {
    if field.1 == 0 && field.2 == 32 {
        HwStep::Write(RegisterWrite::Direct { address: field.0, value })
    } else {
        HwStep::Write(RegisterWrite::ReadModifyWrite { address: field.0, offset: field.1, width: field.2, value })
    }
}

/// Writing the unlock keys `keys` into the field at `field`, key by key: each
/// key is parsed, then written. The first key that does not parse, or cannot
/// be written, ends the sequence with its error, after the writes of the keys
/// before it.
pub open spec fn key_plan(field: (u64, u32, u32), keys: Seq<String>) -> (Seq<HwStep>, Option<FlashError>)
    decreases keys.len(),
{
    if keys.len() == 0 {
        (Seq::empty(), None)
    } else {
        let (steps, err) = key_plan(field, keys.drop_last());
        if err is Some {
            (steps, err)
        } else {
            match key_value(encode_utf8(keys.last()@)) {
                None => (steps, Some(FlashError::BadKey)),
                Some(v) => if unaligned(field) {
                    (steps, Some(FlashError::UnalignedField))
                } else {
                    (steps.push(write_of(field, v)), None)
                },
            }
        }
    }
}

/// Writing one value into the field at `field`.
pub open spec fn value_plan(field: (u64, u32, u32), value: u32) -> (Seq<HwStep>, Option<FlashError>) {
    if unaligned(field) {
        (Seq::empty(), Some(FlashError::UnalignedField))
    } else {
        (seq![write_of(field, value)], None)
    }
}

/// Writing the keys `keys` into the field at `path` of `map`.
pub open spec fn keys_at(path: Seq<char>, keys: Seq<String>, map: RegisterMap) -> (Seq<HwStep>, Option<FlashError>) {
    match resolution(encode_utf8(path), map) {
        Err(e) => (Seq::empty(), Some(FlashError::Field(e))),
        Ok(field) => key_plan(field, keys),
    }
}

/// Writing `value` into the field at `path` of `map`.
pub open spec fn value_at(path: Seq<char>, value: u32, map: RegisterMap) -> (Seq<HwStep>, Option<FlashError>) {
    match resolution(encode_utf8(path), map) {
        Err(e) => (Seq::empty(), Some(FlashError::Field(e))),
        Ok(field) => value_plan(field, value),
    }
}

/// The steps that `action` takes on a chip of family `algo` with register
/// map `map`, for a bundle with index `index`, and the error that ends it,
/// if one does.
pub open spec fn action_steps(action: FlashAction, algo: Algo, map: RegisterMap, index: Index) -> (Seq<HwStep>, Option<FlashError>) {
    match action {
        FlashAction::UnlockFlash => keys_at(algo.flash.key_path@, algo.flash.unlock_key@, map),
        FlashAction::LockFlash => value_at(algo.flash.lock_path@, 1u32, map),
        FlashAction::UnlockOptBytes => keys_at(algo.flash.option.key_path@, algo.flash.option.unlock_key@, map),
        FlashAction::FlashBootloader => (seq![HwStep::Program(index.bootloader)], None),
        FlashAction::FlashFirmware => (seq![HwStep::Program(index.firmware)], None),
        FlashAction::SetField { path, value } => value_at(path@, value, map),
    }
}

/// The steps to perform for one action, in order, and the error to report
/// once they are done, if any.
#[derive(Debug, Clone)]
pub struct ActionPlan {
    pub steps: Vec<HwStep>,
    pub error: Option<FlashError>,
}

/// A plan as its steps and error.
pub open spec fn plan_of(p: ActionPlan) -> (Seq<HwStep>, Option<FlashError>) {
    (p.steps@, p.error)
}

/// The write of `value` into the field at `field`, which does not cross the
/// end of its word.
fn write_step(field: (u64, u32, u32), value: u32) -> (r: HwStep)
    requires
        !unaligned(field),
    ensures
        r == write_of(field, value),
{
    match plan_field_write(field, value) {
        Ok(w) => HwStep::Write(w),
        Err(FieldWriteError::UnalignedField) => HwStep::Write(RegisterWrite::Direct { address: field.0, value }),
    }
}

/// Writes the unlock keys `keys` into the field at `field`, key by key.
fn key_writes(field: (u64, u32, u32), keys: &Vec<String>) -> (r: ActionPlan)
    ensures
        plan_of(r) == key_plan(field, keys@),
{
    let mut out: Vec<HwStep> = Vec::new();
    let mut i: usize = 0;
    assert(keys@.subrange(0, 0) =~= Seq::<String>::empty());
    while i < keys.len()
        invariant
            0 <= i <= keys@.len(),
            key_plan(field, keys@.subrange(0, i as int)) == (out@, None::<FlashError>),
        decreases keys@.len() - i,
    {
        let ghost pre = keys@.subrange(0, i as int);
        let ghost next = keys@.subrange(0, i + 1);
        assert(next.drop_last() =~= pre);
        assert(next.last() == keys@[i as int]);
        match parse_key(keys[i].as_str()) {
            None => {
                proof {
                    lemma_key_plan_stops(field, keys@, i + 1);
                }
                return ActionPlan { steps: out, error: Some(FlashError::BadKey) };
            },
            Some(v) => {
                if field.1 as u64 + field.2 as u64 > 32 && !(field.1 == 0 && field.2 == 32) {
                    proof {
                        lemma_key_plan_stops(field, keys@, i + 1);
                    }
                    return ActionPlan { steps: out, error: Some(FlashError::UnalignedField) };
                }
                out.push(write_step(field, v));
            },
        }
        i = i + 1;
    }
    assert(keys@.subrange(0, keys@.len() as int) =~= keys@);
    ActionPlan { steps: out, error: None }
}

/// Once a prefix of the keys ends in an error, all of them end the same way.
proof fn lemma_key_plan_stops(field: (u64, u32, u32), keys: Seq<String>, k: int)
    requires
        0 <= k <= keys.len(),
        key_plan(field, keys.subrange(0, k)).1 is Some,
    ensures
        key_plan(field, keys) == key_plan(field, keys.subrange(0, k)),
    decreases keys.len() - k,
{
    if k < keys.len() {
        let front = keys.drop_last();
        assert(front.subrange(0, k) =~= keys.subrange(0, k));
        lemma_key_plan_stops(field, front, k);
    } else {
        assert(keys.subrange(0, k) =~= keys);
    }
}

/// Writes `value` into the field at `field`.
fn value_write(field: (u64, u32, u32), value: u32) -> (r: ActionPlan)
    ensures
        plan_of(r) == value_plan(field, value),
{
    if field.1 as u64 + field.2 as u64 > 32 && !(field.1 == 0 && field.2 == 32) {
        ActionPlan { steps: Vec::new(), error: Some(FlashError::UnalignedField) }
    } else {
        let steps = vec![write_step(field, value)];
        assert(steps@ =~= seq![write_of(field, value)]);
        ActionPlan { steps, error: None }
    }
}

/// Writes the keys `keys` into the field at `path` of `map`.
fn keys_at_exec(path: &String, keys: &Vec<String>, map: &RegisterMap) -> (r: ActionPlan)
    ensures
        plan_of(r) == keys_at(path@, keys@, *map),
{
    match get_svd_field(path.as_str(), map) {
        Ok(field) => key_writes(field, keys),
        Err(e) => ActionPlan { steps: Vec::new(), error: Some(FlashError::Field(e)) },
    }
}

/// Writes `value` into the field at `path` of `map`.
fn value_at_exec(path: &String, value: u32, map: &RegisterMap) -> (r: ActionPlan)
    ensures
        plan_of(r) == value_at(path@, value, *map),
{
    match get_svd_field(path.as_str(), map) {
        Ok(field) => value_write(field, value),
        Err(e) => ActionPlan { steps: Vec::new(), error: Some(FlashError::Field(e)) },
    }
}

impl FlashAction {
    /// The steps that this action takes on the chip `chip`, for a bundle with
    /// index `index`: register writes to unlock or lock flash, unlock the
    /// option bytes or set a field, or the programming of one artifact. The
    /// steps are to be performed in order, and the plan's error reported
    /// after them.
    ///
    /// The chip's family is the first in `registry` whose pattern matches
    /// `chip`; without one the action takes no step and fails with
    /// `UnknownChip`.
    pub fn run(&self, registry: &AlgoRegistry, chip: &str, index: &Index) -> (r: ActionPlan)
        ensures
            (forall|i: int|
                0 <= i < registry.entries@.len() ==> !regex_matches(
                    #[trigger] registry.entries@[i].pattern.source(),
                    chip@,
                )) ==> plan_of(r) == (Seq::<HwStep>::empty(), Some(FlashError::UnknownChip)),
            forall|i: int|
                crate::resources::is_first_match(registry.entries@, chip@, i) ==> plan_of(r) == action_steps(
                    *self,
                    #[trigger] registry.entries@[i].algo,
                    registry.entries@[i].map,
                    *index,
                ),
    {
        let entry = match registry.find(chip) {
            None => return ActionPlan { steps: Vec::new(), error: Some(FlashError::UnknownChip) },
            Some(e) => e,
        };
        proof {
            let k = choose|k: int|
                crate::resources::is_first_match(registry.entries@, chip@, k) && *entry == #[trigger] registry.entries@[k];
            assert forall|i: int| crate::resources::is_first_match(registry.entries@, chip@, i) implies i == k by {
                if i < k {
                    assert(!regex_matches(registry.entries@[i].pattern.source(), chip@));
                } else if k < i {
                    assert(!regex_matches(registry.entries@[k].pattern.source(), chip@));
                }
            }
        }
        action_steps_exec(self, &entry.algo, &entry.map, index)
    }
}

/// The steps that `action` takes on a chip of family `algo` with register map `map`.
fn action_steps_exec(action: &FlashAction, algo: &Algo, map: &RegisterMap, index: &Index) -> (r: ActionPlan)
    ensures
        plan_of(r) == action_steps(*action, *algo, *map, *index),
{
    match action {
        FlashAction::UnlockFlash => keys_at_exec(&algo.flash.key_path, &algo.flash.unlock_key, map),
        FlashAction::LockFlash => value_at_exec(&algo.flash.lock_path, 1u32, map),
        FlashAction::UnlockOptBytes => keys_at_exec(&algo.flash.option.key_path, &algo.flash.option.unlock_key, map),
        FlashAction::FlashBootloader => {
            let steps = vec![HwStep::Program(index.bootloader.clone())];
            assert(steps@ =~= seq![HwStep::Program(index.bootloader)]);
            ActionPlan { steps, error: None }
        },
        FlashAction::FlashFirmware => {
            let steps = vec![HwStep::Program(index.firmware.clone())];
            assert(steps@ =~= seq![HwStep::Program(index.firmware)]);
            ActionPlan { steps, error: None }
        },
        FlashAction::SetField { path, value } => value_at_exec(path, *value, map),
    }
}

} // verus!
