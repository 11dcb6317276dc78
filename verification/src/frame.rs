//! The per-path execution frame visible to the primitive operations.
//!
//! The executor that owns control flow, the full memory model and the
//! thread scheduler is outside this library; the primops only need the
//! frame's let-bindings (for the ELF entry point), and a memory facade
//! that records accesses as events and yields fresh symbols for the values
//! read.

use vstd::prelude::*;
use crate::error::ExecError;
use crate::smt::{Solver, Event, SmtTy};
use crate::value::{Val, UVal, AbsVal};
use crate::primop::{type_error, declare_result, solver_unchanged, declares_fresh_with_event};

verus! {

/// The memory facade: each read yields a fresh symbol of the right width
/// and publishes the access as an event; each write yields a fresh boolean
/// success symbol and publishes the written data.
pub struct Memory {}

impl Memory {
    /// An empty memory facade.
    pub fn new() -> (r: Memory) {
        Memory {  }
    }

    /// Read `bytes` bytes: a fresh bit-vector symbol of eight bits per
    /// byte, published as a read event. The byte count must be a concrete,
    /// positive integer.
    pub fn read(
        &mut self,
        read_kind: Val,
        address: Val,
        bytes: Val,
        solver: &mut Solver,
        _tag: bool,
    ) -> (r: Result<Val, ExecError>)
        requires
            old(solver).wf(),
            old(solver).next_sym() < u32::MAX,
        ensures
            final(solver).wf(),
            match bytes@ {
                AbsVal::I128(n) => if 0 < n <= 0x1fffffff {
                    r matches Ok(v) && declares_fresh_with_event(
                        *old(solver),
                        *final(solver),
                        v,
                        SmtTy::BitVec((8 * n) as u32),
                        Event::ReadMem {
                            value: v,
                            read_kind: read_kind,
                            address: address,
                            bytes: n as u32,
                        },
                    )
                } else {
                    r matches Err(e) && e is Type && solver_unchanged(*old(solver), *final(solver))
                },
                AbsVal::Symbolic(_) => r matches Err(e) && e is SymbolicLength
                    && solver_unchanged(*old(solver), *final(solver)),
                _ => r matches Err(e) && e is Type && solver_unchanged(
                    *old(solver),
                    *final(solver),
                ),
            },
    {
        match bytes {
            Val::I128(n) => {
                if 0 < n && n <= 0x1fffffff {
                    let v = declare_result(solver, SmtTy::BitVec(8 * (n as u32)));
                    let sym = match &v {
                        Val::Symbolic(s) => *s,
                        _ => {
                            return Err(type_error("read_mem"));
                        },
                    };
                    let value = Val::Symbolic(sym);
                    solver.add_event(
                        Event::ReadMem { value, read_kind, address, bytes: n as u32 },
                    );
                    Ok(Val::Symbolic(sym))
                } else {
                    Err(type_error("read_mem"))
                }
            },
            Val::Symbolic(_) => Err(ExecError::SymbolicLength("read_mem".to_owned())),
            _ => Err(type_error("read_mem")),
        }
    }

    /// Write data: a fresh boolean success symbol, published together with
    /// the written data as a write event. The byte count must be concrete.
    pub fn write(
        &mut self,
        write_kind: Val,
        address: Val,
        data: Val,
        bytes: Val,
        solver: &mut Solver,
    ) -> (r: Result<Val, ExecError>)
        requires
            old(solver).wf(),
            old(solver).next_sym() < u32::MAX,
        ensures
            final(solver).wf(),
            match bytes@ {
                AbsVal::I128(n) => if 0 < n <= 0x1fffffff {
                    r matches Ok(v) && (v matches Val::Symbolic(s)
                        && declares_fresh_with_event(
                        *old(solver),
                        *final(solver),
                        v,
                        SmtTy::Bool,
                        Event::WriteMem {
                            value: s,
                            write_kind: write_kind,
                            address: address,
                            data: data,
                            bytes: n as u32,
                        },
                    ))
                } else {
                    r matches Err(e) && e is Type && solver_unchanged(*old(solver), *final(solver))
                },
                AbsVal::Symbolic(_) => r matches Err(e) && e is SymbolicLength
                    && solver_unchanged(*old(solver), *final(solver)),
                _ => r matches Err(e) && e is Type && solver_unchanged(
                    *old(solver),
                    *final(solver),
                ),
            },
    {
        match bytes {
            Val::I128(n) => {
                if 0 < n && n <= 0x1fffffff {
                    let v = declare_result(solver, SmtTy::Bool);
                    let sym = match &v {
                        Val::Symbolic(s) => *s,
                        _ => {
                            return Err(type_error("write_mem"));
                        },
                    };
                    solver.add_event(
                        Event::WriteMem {
                            value: sym,
                            write_kind,
                            address,
                            data,
                            bytes: n as u32,
                        },
                    );
                    Ok(Val::Symbolic(sym))
                } else {
                    Err(type_error("write_mem"))
                }
            },
            Val::Symbolic(_) => Err(ExecError::SymbolicLength("write_mem".to_owned())),
            _ => Err(type_error("write_mem")),
        }
    }
}

/// The per-path frame: the global let-bindings the primops may read, the
/// memory facade, and the interned name of the ELF entry binding.
pub struct LocalFrame {
    /// The global let-bindings, by interned name.
    pub lets: Vec<(u32, UVal)>,
    /// The memory facade.
    pub memory: Memory,
    /// The interned name of the ELF entry binding.
    pub elf_entry_name: u32,
}

impl LocalFrame {
    /// A frame with no bindings.
    pub fn new(elf_entry_name: u32) -> (r: LocalFrame)
        ensures
            r.lets@.len() == 0,
            r.elf_entry_name == elf_entry_name,
    {
        LocalFrame { lets: Vec::new(), memory: Memory::new(), elf_entry_name }
    }

    /// Access to the memory facade.
    pub fn memory_mut(&mut self) -> (r: &mut Memory)
        ensures
            final(self).lets == old(self).lets,
            final(self).elf_entry_name == old(self).elf_entry_name,
    {
        &mut self.memory
    }

    /// Look up a let-binding by interned name.
    pub fn get_let(&self, name: u32) -> (r: Option<&UVal>)
        ensures
            r is Some <==> exists|i: int|
                0 <= i < self.lets@.len() && (#[trigger] self.lets@[i]).0 == name,
            r matches Some(v) ==> exists|i: int|
                0 <= i < self.lets@.len() && (#[trigger] self.lets@[i]).0 == name
                    && self.lets@[i].1 == *v,
    {
        let mut k: usize = 0;
        while k < self.lets.len()
            invariant
                k <= self.lets@.len(),
                forall|i: int| 0 <= i < k ==> (#[trigger] self.lets@[i]).0 != name,
            decreases self.lets@.len() - k,
        {
            if self.lets[k].0 == name {
                return Some(&self.lets[k].1);
            }
            k += 1;
        }
        None
    }
}

} // verus!
