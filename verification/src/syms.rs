//! Symbol resolution: reading fixed-size symbol records through the
//! `SymTab`, `SymEnt` and `StrTab` dynamic entries, and looking symbols up
//! by their null-terminated names.

use vstd::prelude::*;
use crate::error::PixieError;
use crate::format::sym::{Sym, spec_sym};
use crate::object::{DynamicEntries, DynamicEntry};
use crate::format::dynamic::DynamicTagType;

verus! {

/// The length of the null-terminated byte string at `off`: the number of
/// bytes before the first zero byte, stopping at the buffer's end.
pub open spec fn spec_cstr_len(s: Seq<u8>, off: int) -> int
    decreases s.len() - off when off <= s.len()
{
    if off < 0 || off >= s.len() {
        0
    } else if s[off] == 0 {
        0
    } else {
        1 + spec_cstr_len(s, off + 1)
    }
}

/// The null-terminated byte string stored at `off`, without its
/// terminator; empty when `off` lies outside the buffer.
pub open spec fn spec_name_at(s: Seq<u8>, off: int) -> Seq<u8> {
    if 0 <= off <= s.len() {
        s.subrange(off, off + spec_cstr_len(s, off))
    } else {
        Seq::empty()
    }
}

/// `l` is the byte string's length exactly when the `l` bytes at `off` are
/// nonzero and a zero byte, or the buffer's end, follows them.
proof fn lemma_cstr_len(s: Seq<u8>, off: int, l: int)
    requires
        0 <= off,
        0 <= l,
        off + l <= s.len(),
        forall|k: int| 0 <= k < l ==> #[trigger] s[off + k] != 0,
        off + l == s.len() || s[off + l] == 0,
    ensures
        spec_cstr_len(s, off) == l,
    decreases l,
{
    if l == 0 {
    } else {
        assert(s[off + 0] != 0);
        assert forall|k: int| 0 <= k < l - 1 implies #[trigger] s[(off + 1) + k] != 0 by {
            assert(s[off + (k + 1)] != 0);
        }
        lemma_cstr_len(s, off + 1, l - 1);
    }
}

/// True when the byte string at `off` is exactly `name`.
fn name_matches_at(buf: &[u8], off: usize, name: &[u8]) -> (r: bool)
    requires
        off <= buf@.len(),
    ensures
        r == (spec_name_at(buf@, off as int) == name@),
{
    let buf_len = buf.len();
    let mut l: usize = 0;
    while off + l < buf_len && buf[off + l] != 0
        invariant
            0 <= l,
            off + l <= buf_len,
            buf_len == buf@.len(),
            forall|k: int| 0 <= k < l ==> #[trigger] buf@[off + k] != 0,
        decreases buf_len - off - l,
    {
        l += 1;
    }
    proof {
        lemma_cstr_len(buf@, off as int, l as int);
        assert(spec_name_at(buf@, off as int) =~= buf@.subrange(off as int, off + l));
        assert(spec_name_at(buf@, off as int).len() == l);
    }
    if l != name.len() {
        return false;
    }
    let mut j: usize = 0;
    while j < l
        invariant
            0 <= j <= l,
            l == name@.len(),
            off + l <= buf_len,
            buf_len == buf@.len(),
            spec_name_at(buf@, off as int) == buf@.subrange(off as int, off + l),
            forall|k: int| 0 <= k < j ==> #[trigger] buf@[off + k] == name@[k],
        decreases l - j,
    {
        if buf[off + j] != name[j] {
            proof {
                assert(buf@.subrange(off as int, off + l)[j as int] == buf@[off + j]);
                assert(spec_name_at(buf@, off as int)[j as int] != name@[j as int]);
            }
            return false;
        }
        j += 1;
    }
    proof {
        assert forall|k: int| 0 <= k < l
            implies buf@.subrange(off as int, off + l)[k] == name@[k] by {
            assert(buf@[off + k] == name@[k]);
        }
        assert(spec_name_at(buf@, off as int) =~= name@);
    }
    true
}

/// Reads symbols out of an ELF file through the three dynamic entries that
/// locate the symbol table, its record stride and the string table.
#[derive(Clone, Copy, Debug)]
pub struct Syms {
    /// The symbol table's offset into the file.
    pub symtab: u64,
    /// The size of one symbol record.
    pub syment: u64,
    /// The string table's offset into the file.
    pub strtab: u64,
}

impl Syms {
    /// The file offset of symbol record `n`.
    pub open spec fn spec_sym_off(self, n: int) -> int {
        self.symtab + self.syment * n
    }

    /// True when symbol record `n` lies inside the buffer.
    pub open spec fn spec_sym_fits(self, s: Seq<u8>, n: int) -> bool {
        self.spec_sym_off(n) + 24 <= s.len()
    }

    /// Symbol record `n` as stored in the buffer.
    pub open spec fn spec_nth(self, s: Seq<u8>, n: int) -> Sym {
        spec_sym(s, self.spec_sym_off(n))
    }

    /// The name of symbol `sym`: the null-terminated byte string the
    /// string table holds at the symbol's name offset.
    pub open spec fn spec_sym_name(self, s: Seq<u8>, sym: Sym) -> Seq<u8> {
        spec_name_at(s, self.strtab + sym.name)
    }

    /// True when symbol record `n` lies inside the buffer and bears the
    /// name `name`.
    pub open spec fn spec_matches(self, s: Seq<u8>, n: int, name: Seq<u8>) -> bool {
        self.spec_sym_fits(s, n) && self.spec_sym_name(s, self.spec_nth(s, n)) == name
    }

    /// Read the `n`-th fixed-size symbol record.
    ///
    /// Succeeds exactly when the record lies inside the buffer.
    pub fn nth(&self, buf: &[u8], n: u64) -> (r: Result<Sym, PixieError>)
        ensures
            r is Ok <==> self.spec_sym_fits(buf@, n as int),
            r is Ok ==> r->Ok_0 == self.spec_nth(buf@, n as int),
            r is Err ==> r->Err_0 == PixieError::DynamicOutOfBounds,
    {
        let buf_len = buf.len();
        proof {
            assert((self.syment as int) * (n as int) <= u128::MAX) by (nonlinear_arith)
                requires self.syment <= u64::MAX, n <= u64::MAX;
        }
        let scaled = (self.syment as u128) * (n as u128);
        if scaled > (u64::MAX - self.symtab) as u128 {
            return Err(PixieError::DynamicOutOfBounds);
        }
        let off = self.symtab + scaled as u64;
        if off > buf_len as u64 || 24 > buf_len as u64 - off {
            return Err(PixieError::DynamicOutOfBounds);
        }
        Sym::parse_at(buf, off as usize)
    }

    /// Find a symbol by its name, scanning the table in record order.
    ///
    /// The scan is bounded by the buffer: it stops at the first record
    /// that no longer fits, so a missing name yields a not-found error
    /// rather than an unbounded walk. Returns the first matching record.
    pub fn by_name(&self, buf: &[u8], name: &[u8]) -> (r: Result<Sym, PixieError>)
        ensures
            r is Ok ==> (exists|n: int| 0 <= n
                && #[trigger] self.spec_matches(buf@, n, name@)
                && r->Ok_0 == self.spec_nth(buf@, n)
                && (forall|m: int| 0 <= m < n ==> !(#[trigger] self.spec_matches(buf@, m, name@)))),
            r is Err ==> r->Err_0 == PixieError::SymbolNotFound
                && (forall|n: int| 0 <= n ==> !(#[trigger] self.spec_matches(buf@, n, name@))),
    {
        let buf_len = buf.len();
        if self.syment == 0 {
            // Every record index names the same bytes; one check decides.
            let r = self.check_record(buf, self.symtab, name);
            proof {
                assert forall|m: int| 0 <= m
                    implies self.spec_sym_off(m) == self.symtab as int by {
                    assert(self.syment * m == 0) by (nonlinear_arith)
                        requires self.syment == 0;
                }
                if r is None {
                    assert forall|m: int| 0 <= m
                        implies !(#[trigger] self.spec_matches(buf@, m, name@)) by {
                        assert(self.spec_sym_off(m) == self.spec_sym_off(0));
                        assert(!self.spec_matches(buf@, 0, name@));
                    }
                } else {
                    assert(self.spec_matches(buf@, 0, name@));
                }
            }
            return match r {
                Some(sym) => Ok(sym),
                None => Err(PixieError::SymbolNotFound),
            };
        }
        let mut n: u64 = 0;
        let mut off: u64 = self.symtab;
        loop
            invariant
                buf_len == buf@.len(),
                self.syment >= 1,
                n <= buf_len as u64,
                off == self.symtab + self.syment * n,
                off <= u64::MAX,
                forall|m: int| 0 <= m < n ==> !(#[trigger] self.spec_matches(buf@, m, name@)),
            ensures
                forall|m: int| 0 <= m ==> !(#[trigger] self.spec_matches(buf@, m, name@)),
            decreases buf_len as int + 1 - n,
        {
            let ghost n0 = n as int;
            if off > buf_len as u64 || 24 > buf_len as u64 - off {
                // This record does not fit; with a positive stride no later
                // one can either.
                proof {
                    assert forall|m: int| 0 <= m
                        implies !(#[trigger] self.spec_matches(buf@, m, name@)) by {
                        if m >= n0 {
                            assert(self.syment * m >= self.syment * n0)
                                by (nonlinear_arith)
                                requires self.syment >= 1, m >= n0;
                            assert(!self.spec_sym_fits(buf@, m));
                        }
                    }
                }
                break;
            }
            match self.check_record(buf, off, name) {
                Some(sym) => {
                    proof {
                        assert(self.spec_matches(buf@, n0, name@));
                    }
                    return Ok(sym);
                },
                None => {},
            }
            if self.syment > u64::MAX - off {
                // The next record offset leaves the address space; no later
                // record fits either.
                proof {
                    assert forall|m: int| 0 <= m
                        implies !(#[trigger] self.spec_matches(buf@, m, name@)) by {
                        if m > n0 {
                            assert(self.syment * m >= self.syment * (n0 + 1))
                                by (nonlinear_arith)
                                requires self.syment >= 1, m >= n0 + 1;
                            assert(self.syment * (n0 + 1) == self.syment * n0 + self.syment)
                                by (nonlinear_arith);
                            assert(self.spec_sym_off(m) > u64::MAX);
                            assert(!self.spec_sym_fits(buf@, m));
                        }
                    }
                }
                break;
            }
            proof {
                assert(self.syment * n0 >= n0) by (nonlinear_arith)
                    requires self.syment >= 1, n0 >= 0;
                assert(n0 + 24 <= buf_len as int);
            }
            off = off + self.syment;
            n += 1;
            proof {
                assert(self.syment * (n0 + 1) == self.syment * n0 + self.syment)
                    by (nonlinear_arith);
                assert(n0 + 1 <= buf_len as int) by {
                    assert(self.syment * n0 >= n0) by (nonlinear_arith)
                        requires self.syment >= 1, n0 >= 0;
                }
            }
        }
        Err(PixieError::SymbolNotFound)
    }

    /// Check the record at file offset `off` (ghost index `n`): read it
    /// and compare its name; nothing when it does not fit or does not
    /// match.
    fn check_record(&self, buf: &[u8], off: u64, name: &[u8]) -> (r: Option<Sym>)
        ensures
            ({
                let fits = off + 24 <= buf@.len();
                let sym = spec_sym(buf@, off as int);
                match r {
                    Some(got) => fits && got == sym
                        && self.spec_sym_name(buf@, sym) == name@,
                    None => !fits || self.spec_sym_name(buf@, sym) != name@,
                }
            }),
    {
        let buf_len = buf.len();
        if off > buf_len as u64 || 24 > buf_len as u64 - off {
            return None;
        }
        let sym = match Sym::parse_at(buf, off as usize) {
            Ok(s) => s,
            Err(_) => {
                return None;
            },
        };
        // Clamp an out-of-range name offset to the buffer's end: the name
        // there is empty, exactly as the model says of any offset outside
        // the buffer.
        let name_off = if self.strtab > buf_len as u64
            || sym.name as u64 > buf_len as u64 - self.strtab {
            buf_len
        } else {
            (self.strtab + sym.name as u64) as usize
        };
        proof {
            if self.strtab + sym.name > buf@.len() {
                assert(spec_name_at(buf@, self.strtab + sym.name) == Seq::<u8>::empty());
                assert(spec_cstr_len(buf@, buf@.len() as int) == 0);
                assert(spec_name_at(buf@, buf@.len() as int)
                    =~= Seq::<u8>::empty());
            }
            assert(spec_name_at(buf@, name_off as int)
                == spec_name_at(buf@, self.strtab + sym.name));
        }
        if name_matches_at(buf, name_off, name) {
            Some(sym)
        } else {
            None
        }
    }
}

/// True when an entry of type `t` stands in `items`.
pub open spec fn dyn_has(items: Seq<DynamicEntry>, t: DynamicTagType) -> bool {
    exists|i: int| 0 <= i < items.len() && (#[trigger] items[i]).tag.typ == t
}

/// The index of the first entry of type `t` in `items`.
#[verifier::opaque]
pub open spec fn dyn_first_idx(items: Seq<DynamicEntry>, t: DynamicTagType) -> int {
    choose|i: int| 0 <= i < items.len()
        && (#[trigger] items[i]).tag.typ == t
        && (forall|j: int| 0 <= j < i ==> (#[trigger] items[j]).tag.typ != t)
}

/// The first entry of type `t` in `items`.
pub open spec fn dyn_first(items: Seq<DynamicEntry>, t: DynamicTagType) -> DynamicEntry {
    items[dyn_first_idx(items, t)]
}

/// The symbol-resolution triple named by a dynamic-entry list: the values
/// of its first `SymTab`, `SymEnt` and `StrTab` entries.
pub open spec fn spec_syms_of(items: Seq<DynamicEntry>) -> Syms {
    Syms {
        symtab: dyn_first(items, DynamicTagType::SymTab).tag.addr,
        syment: dyn_first(items, DynamicTagType::SymEnt).tag.addr,
        strtab: dyn_first(items, DynamicTagType::StrTab).tag.addr,
    }
}

impl DynamicEntries {
    /// True when an entry of type `t` exists.
    pub open spec fn spec_has(self, t: DynamicTagType) -> bool {
        dyn_has(self.items@, t)
    }

    /// The first entry of type `t`.
    pub open spec fn spec_first(self, t: DynamicTagType) -> DynamicEntry {
        dyn_first(self.items@, t)
    }

    /// Constructs a `Syms` from the `SymTab`, `SymEnt` and `StrTab`
    /// entries; fails when any of the three is missing.
    pub fn syms(&self) -> (r: Result<Syms, PixieError>)
        ensures
            r is Ok <==> (self.spec_has(DynamicTagType::SymTab)
                && self.spec_has(DynamicTagType::SymEnt)
                && self.spec_has(DynamicTagType::StrTab)),
            r is Ok ==> r->Ok_0 == (Syms {
                symtab: self.spec_first(DynamicTagType::SymTab).tag.addr,
                syment: self.spec_first(DynamicTagType::SymEnt).tag.addr,
                strtab: self.spec_first(DynamicTagType::StrTab).tag.addr,
            }),
            r is Err ==> r->Err_0 == PixieError::DynamicEntryNotFound(
                if !self.spec_has(DynamicTagType::SymTab) {
                    DynamicTagType::SymTab
                } else if !self.spec_has(DynamicTagType::SymEnt) {
                    DynamicTagType::SymEnt
                } else {
                    DynamicTagType::StrTab
                }),
    {
        let symtab = match self.find_first(DynamicTagType::SymTab) {
            Ok(e) => e,
            Err(e) => {
                return Err(e);
            },
        };
        let syment = match self.find_first(DynamicTagType::SymEnt) {
            Ok(e) => e,
            Err(e) => {
                return Err(e);
            },
        };
        let strtab = match self.find_first(DynamicTagType::StrTab) {
            Ok(e) => e,
            Err(e) => {
                return Err(e);
            },
        };
        Ok(Syms {
            symtab: symtab.tag.addr,
            syment: syment.tag.addr,
            strtab: strtab.tag.addr,
        })
    }

    /// The first entry of a given type, pinned to `spec_first`; an error
    /// when none exists.
    pub fn find_first(&self, typ: DynamicTagType) -> (r: Result<DynamicEntry, PixieError>)
        ensures
            r is Ok <==> self.spec_has(typ),
            r is Ok ==> r->Ok_0 == self.spec_first(typ),
            r is Err ==> r->Err_0 == PixieError::DynamicEntryNotFound(typ),
    {
        let n = self.items.len();
        let mut i: usize = 0;
        while i < n
            invariant
                0 <= i <= n,
                n == self.items@.len(),
                forall|j: int| 0 <= j < i ==> (#[trigger] self.items@[j]).tag.typ != typ,
            decreases n - i,
        {
            let e = self.items[i];
            if e.tag.typ == typ {
                proof {
                    reveal(dyn_first_idx);
                    let c = dyn_first_idx(self.items@, typ);
                    assert(0 <= c < self.items@.len()
                        && self.items@[c].tag.typ == typ
                        && (forall|j: int| 0 <= j < c
                            ==> (#[trigger] self.items@[j]).tag.typ != typ)) by {
                        assert(0 <= i < self.items@.len()
                            && self.items@[i as int].tag.typ == typ
                            && (forall|j: int| 0 <= j < i
                                ==> (#[trigger] self.items@[j]).tag.typ != typ));
                    }
                    assert(c == i);
                }
                return Ok(e);
            }
            i += 1;
        }
        Err(PixieError::DynamicEntryNotFound(typ))
    }
}

} // verus!
