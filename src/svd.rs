//! Register maps and the resolution of `peripheral/register/field` paths.

use vstd::prelude::*;
use vstd::string::*;
use vstd::utf8::*;
use crate::lookup::{first_where, is_first_where, lemma_first_where_unique};

verus! {

/// A bit-field of a register.
#[derive(Debug, Clone)]
pub struct Field {
    pub name: String,
    pub bit_offset: u32,
    pub bit_width: u32,
}

/// A register, at `address_offset` from its peripheral's base address.
#[derive(Debug, Clone)]
pub struct Register {
    pub name: String,
    pub address_offset: u32,
    pub fields: Vec<Field>,
}

/// A memory-mapped peripheral and its registers.
#[derive(Debug, Clone)]
pub struct Peripheral {
    pub name: String,
    pub base_address: u64,
    pub registers: Vec<Register>,
}

/// A chip's register map: peripherals, their registers, and their fields.
#[derive(Debug, Clone)]
pub struct RegisterMap {
    pub peripherals: Vec<Peripheral>,
}

/// Why a field path does not resolve.
#[derive(Debug, Clone, Copy, PartialEq, Eq)]
pub enum FieldError {
    /// The path lacks its register or its field part.
    MalformedPath,
    UnknownPeripheral,
    UnknownRegister,
    UnknownField,
    /// The register's address does not fit in 64 bits.
    AddressOverflow,
}

/// The parts of `p` between the bytes `/`; there is always at least one.
pub open spec fn pieces(p: Seq<u8>) -> Seq<Seq<u8>>
    decreases p.len(),
{
    if p.len() == 0 {
        seq![Seq::empty()]
    } else {
        let rest = pieces(p.drop_last());
        if p.last() == 0x2fu8 {
            rest.push(Seq::empty())
        } else {
            rest.update(rest.len() - 1, rest.last().push(p.last()))
        }
    }
}

proof fn lemma_pieces_nonempty(p: Seq<u8>)
    ensures
        pieces(p).len() >= 1,
    decreases p.len(),
{
    if p.len() > 0 {
        lemma_pieces_nonempty(p.drop_last());
    }
}

/// The UTF-8 bytes of a name.
pub open spec fn name_bytes(s: String) -> Seq<u8> {
    encode_utf8(s@)
}

pub open spec fn peripheral_named(n: Seq<u8>) -> spec_fn(Peripheral) -> bool {
    |x: Peripheral| name_bytes(x.name) == n
}

pub open spec fn register_named(n: Seq<u8>) -> spec_fn(Register) -> bool {
    |x: Register| name_bytes(x.name) == n
}

pub open spec fn field_named(n: Seq<u8>) -> spec_fn(Field) -> bool {
    |x: Field| name_bytes(x.name) == n
}

/// What the path with UTF-8 bytes `path` resolves to in `map`: the register's
/// address (peripheral base plus register offset), the field's bit offset and
/// its bit width. Each name is looked up before the next part is required,
/// and the first entry of a name wins; parts after the third are ignored.
pub open spec fn resolution(path: Seq<u8>, map: RegisterMap) -> Result<(u64, u32, u32), FieldError> {
    let ps = pieces(path);
    let periphs = map.peripherals@;
    match first_where(periphs, peripheral_named(ps[0])) {
        None => Err(FieldError::UnknownPeripheral),
        Some(pi) => if ps.len() < 2 {
            Err(FieldError::MalformedPath)
        } else {
            let regs = periphs[pi].registers@;
            match first_where(regs, register_named(ps[1])) {
                None => Err(FieldError::UnknownRegister),
                Some(ri) => if ps.len() < 3 {
                    Err(FieldError::MalformedPath)
                } else {
                    let fields = regs[ri].fields@;
                    match first_where(fields, field_named(ps[2])) {
                        None => Err(FieldError::UnknownField),
                        Some(fi) => {
                            let addr = periphs[pi].base_address + regs[ri].address_offset;
                            if addr > u64::MAX {
                                Err(FieldError::AddressOverflow)
                            } else {
                                Ok((addr as u64, fields[fi].bit_offset, fields[fi].bit_width))
                            }
                        },
                    }
                },
            }
        },
    }
}

/// Each pair of `r` bounds the matching part of `p[..i]`.
spec fn ranges_match(r: Seq<(usize, usize)>, p: Seq<u8>, i: int) -> bool {
    forall|j: int|
        0 <= j < r.len() ==> {
            &&& #[trigger] r[j].0 <= r[j].1
            &&& r[j].1 <= i
            &&& p.subrange(r[j].0 as int, r[j].1 as int) == pieces(p.subrange(0, i))[j]
        }
}

/// Splits `p` at its `/` bytes: each pair is the start and end of one part.
fn split_ranges(p: &[u8]) -> (r: Vec<(usize, usize)>)
    ensures
        r@.len() == pieces(p@).len(),
        ranges_match(r@, p@, p@.len() as int),
{
    let mut r: Vec<(usize, usize)> = Vec::new();
    r.push((0, 0));
    let mut i: usize = 0;
    assert(p@.subrange(0, 0) =~= Seq::<u8>::empty());
    while i < p.len()
        invariant
            0 <= i <= p@.len(),
            r@.len() == pieces(p@.subrange(0, i as int)).len(),
            r@.len() > 0,
            r@.last().1 == i,
            ranges_match(r@, p@, i as int),
        decreases p@.len() - i,
    {
        let ghost pre = p@.subrange(0, i as int);
        let ghost next = p@.subrange(0, i + 1);
        assert(next.drop_last() =~= pre);
        assert(next.last() == p@[i as int]);
        let ghost old_r = r@;
        if p[i] == 0x2fu8 {
            assert(pieces(next) == pieces(pre).push(Seq::<u8>::empty()));
            r.push((i + 1, i + 1));
            assert forall|j: int| 0 <= j < r@.len() implies #[trigger] r@[j].0 <= r@[j].1 <= i + 1
                && p@.subrange(r@[j].0 as int, r@[j].1 as int) == pieces(next)[j] by {
                if j < old_r.len() {
                    assert(r@[j] == old_r[j]);
                } else {
                    assert(p@.subrange(r@[j].0 as int, r@[j].1 as int) =~= Seq::<u8>::empty());
                }
            }
        } else {
            let last = r.len() - 1;
            let (a, _) = r[last];
            assert(pieces(next) == pieces(pre).update(
                pieces(pre).len() - 1,
                pieces(pre).last().push(p@[i as int]),
            ));
            assert(old_r[last as int].0 <= old_r[last as int].1 <= i);
            assert(p@.subrange(a as int, i as int) == pieces(pre)[last as int]);
            r.set(last, (a, i + 1));
            assert forall|j: int| 0 <= j < r@.len() implies #[trigger] r@[j].0 <= r@[j].1 <= i + 1
                && p@.subrange(r@[j].0 as int, r@[j].1 as int) == pieces(next)[j] by {
                if j < last {
                    assert(r@[j] == old_r[j]);
                } else {
                    assert(p@.subrange(a as int, i + 1) =~= p@.subrange(a as int, i as int).push(p@[i as int]));
                }
            }
        }
        assert(ranges_match(r@, p@, i + 1));
        i = i + 1;
    }
    assert(p@.subrange(0, p@.len() as int) =~= p@);
    assert(pieces(p@.subrange(0, p@.len() as int)) == pieces(p@));
    assert(ranges_match(r@, p@, p@.len() as int));
    r
}

/// `a[lo..hi]` equals `b`.
fn bytes_equal(a: &[u8], lo: usize, hi: usize, b: &[u8]) -> (r: bool)
    requires
        lo <= hi <= a@.len(),
    ensures
        r == (a@.subrange(lo as int, hi as int) == b@),
{
    if hi - lo != b.len() {
        return false;
    }
    let mut k: usize = 0;
    while k < b.len()
        invariant
            hi - lo == b@.len(),
            lo <= hi <= a@.len(),
            0 <= k <= b@.len(),
            forall|t: int| 0 <= t < k ==> a@[lo + t] == b@[t],
        decreases b@.len() - k,
    {
        if a[lo + k] != b[k] {
            assert(a@.subrange(lo as int, hi as int)[k as int] != b@[k as int]);
            return false;
        }
        k = k + 1;
    }
    assert(a@.subrange(lo as int, hi as int) =~= b@);
    true
}

} // verus!

verus! {

fn find_peripheral(xs: &Vec<Peripheral>, p: &[u8], lo: usize, hi: usize) -> (r: Option<usize>)
    requires
        lo <= hi <= p@.len(),
    ensures
        match r {
            Some(i) => is_first_where(xs@, peripheral_named(p@.subrange(lo as int, hi as int)), i as int),
            None => first_where(xs@, peripheral_named(p@.subrange(lo as int, hi as int))) is None,
        },
{
    let ghost f = peripheral_named(p@.subrange(lo as int, hi as int));
    let mut i: usize = 0;
    while i < xs.len()
        invariant
            0 <= i <= xs@.len(),
            lo <= hi <= p@.len(),
            f == peripheral_named(p@.subrange(lo as int, hi as int)),
            forall|j: int| 0 <= j < i ==> !f(#[trigger] xs@[j]),
        decreases xs@.len() - i,
    {
        if bytes_equal(p, lo, hi, xs[i].name.as_str().as_bytes()) {
            return Some(i);
        }
        i = i + 1;
    }
    None
}

fn find_register(xs: &Vec<Register>, p: &[u8], lo: usize, hi: usize) -> (r: Option<usize>)
    requires
        lo <= hi <= p@.len(),
    ensures
        match r {
            Some(i) => is_first_where(xs@, register_named(p@.subrange(lo as int, hi as int)), i as int),
            None => first_where(xs@, register_named(p@.subrange(lo as int, hi as int))) is None,
        },
{
    let ghost f = register_named(p@.subrange(lo as int, hi as int));
    let mut i: usize = 0;
    while i < xs.len()
        invariant
            0 <= i <= xs@.len(),
            lo <= hi <= p@.len(),
            f == register_named(p@.subrange(lo as int, hi as int)),
            forall|j: int| 0 <= j < i ==> !f(#[trigger] xs@[j]),
        decreases xs@.len() - i,
    {
        if bytes_equal(p, lo, hi, xs[i].name.as_str().as_bytes()) {
            return Some(i);
        }
        i = i + 1;
    }
    None
}

fn find_field(xs: &Vec<Field>, p: &[u8], lo: usize, hi: usize) -> (r: Option<usize>)
    requires
        lo <= hi <= p@.len(),
    ensures
        match r {
            Some(i) => is_first_where(xs@, field_named(p@.subrange(lo as int, hi as int)), i as int),
            None => first_where(xs@, field_named(p@.subrange(lo as int, hi as int))) is None,
        },
{
    let ghost f = field_named(p@.subrange(lo as int, hi as int));
    let mut i: usize = 0;
    while i < xs.len()
        invariant
            0 <= i <= xs@.len(),
            lo <= hi <= p@.len(),
            f == field_named(p@.subrange(lo as int, hi as int)),
            forall|j: int| 0 <= j < i ==> !f(#[trigger] xs@[j]),
        decreases xs@.len() - i,
    {
        if bytes_equal(p, lo, hi, xs[i].name.as_str().as_bytes()) {
            return Some(i);
        }
        i = i + 1;
    }
    None
}

/// Resolves a `peripheral/register/field` path against `svd` into the
/// register's address, the field's bit offset and its bit width.
pub fn get_svd_field(path: &str, svd: &RegisterMap) -> (r: Result<(u64, u32, u32), FieldError>)
    ensures
        r == resolution(encode_utf8(path@), *svd),
{
    let p = path.as_bytes();
    let ranges = split_ranges(p);
    let ghost ps = pieces(p@);
    proof {
        lemma_pieces_nonempty(p@);
        assert(p@.subrange(0, p@.len() as int) =~= p@);
    }
    assert(ranges@[0].0 <= ranges@[0].1);
    assert(p@.subrange(ranges@[0].0 as int, ranges@[0].1 as int) == ps[0]);
    let (lo0, hi0) = ranges[0];
    let pi = match find_peripheral(&svd.peripherals, p, lo0, hi0) {
        None => return Err(FieldError::UnknownPeripheral),
        Some(i) => i,
    };
    proof {
        lemma_first_where_unique(svd.peripherals@, peripheral_named(ps[0]), pi as int);
    }
    if ranges.len() < 2 {
        return Err(FieldError::MalformedPath);
    }
    let periph = &svd.peripherals[pi];
    assert(ranges@[1].0 <= ranges@[1].1);
    assert(p@.subrange(ranges@[1].0 as int, ranges@[1].1 as int) == ps[1]);
    let (lo1, hi1) = ranges[1];
    let ri = match find_register(&periph.registers, p, lo1, hi1) {
        None => return Err(FieldError::UnknownRegister),
        Some(i) => i,
    };
    proof {
        lemma_first_where_unique(periph.registers@, register_named(ps[1]), ri as int);
    }
    if ranges.len() < 3 {
        return Err(FieldError::MalformedPath);
    }
    let reg = &periph.registers[ri];
    assert(ranges@[2].0 <= ranges@[2].1);
    assert(p@.subrange(ranges@[2].0 as int, ranges@[2].1 as int) == ps[2]);
    let (lo2, hi2) = ranges[2];
    let fi = match find_field(&reg.fields, p, lo2, hi2) {
        None => return Err(FieldError::UnknownField),
        Some(i) => i,
    };
    proof {
        lemma_first_where_unique(reg.fields@, field_named(ps[2]), fi as int);
    }
    let field = &reg.fields[fi];
    match periph.base_address.checked_add(reg.address_offset as u64) {
        None => Err(FieldError::AddressOverflow),
        Some(addr) => Ok((addr, field.bit_offset, field.bit_width)),
    }
}

} // verus!
