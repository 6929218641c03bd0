//! The execution engine: a fetch-decode-execute machine over a 16-bit
//! word-addressed memory image.
//!
//! Sixteen 16-bit registers; by convention register 14 is the program
//! counter and register 15 the status register (bit 0 the halted flag,
//! bits 1 to 3 the condition bits written by `cmp` and read by `brk`).
//! All arithmetic wraps, and memory addresses cover exactly the
//! sixteen-bit range, so no step can fail except a trap whose index lies
//! beyond the configured trap table: trap handlers themselves are
//! supplied by the embedder, which performs the handler's effect through
//! the register and memory accessors whenever `step` reports a trap.

use vstd::prelude::*;

use crate::isa::{
    op_of, sext8, OP_HALT, OP_TRAP, OP_CMP, OP_PUTH, OP_PUTL, OP_BRK, OP_LEA, OP_LD, OP_ST, OP_MV,
    OP_NOT, OP_AND, OP_OR, OP_LS, OP_RS, OP_ADD,
};

verus! {

/// Index of the program counter in the register file.
pub const PC: usize = 0xe;

/// Index of the status register in the register file.
pub const PSR: usize = 0xf;

/// What one execution step asks of the embedder.
#[derive(Clone, Copy, Debug, PartialEq, Eq, Structural)]
pub enum StepEvent {
    /// The instruction completed; nothing to do.
    Ran,
    /// A trap instruction: the embedder must run the handler at this
    /// index of its trap table, then may step again.
    Trap(u16),
}

/// A fatal engine-side failure.
#[derive(Clone, Copy, Debug, PartialEq, Eq, Structural)]
pub enum VmError {
    /// A trap instruction's index lies beyond the configured trap table:
    /// the program was assembled against a different table.
    TrapIndexOutOfBounds(u16),
}

/// The machine state as the contracts see it.
#[verifier::ext_equal]
pub struct VmView {
    pub regs: Seq<u16>,
    pub mem: Seq<u16>,
    /// Number of entries in the embedder's trap table.
    pub traps: nat,
}

/// The register file after construction: all zero but for the status
/// register, which starts with every condition bit set and the halted
/// flag clear.
pub open spec fn init_regs() -> Seq<u16> {
    Seq::new(16, |i: int| if i == 15 { 0b1110u16 } else { 0u16 })
}

/// The effect of the instruction `opc`/`args` on state `s`, with the
/// program counter already advanced past the instruction word. Returns
/// the next state and what the step reports.
pub open spec fn op_spec(s: VmView, opc: u16, args: u16) -> (VmView, Result<StepEvent, VmError>) {
    let r1 = ((args >> 8) & 0xf) as int;
    let r2 = ((args >> 4) & 0xf) as int;
    let r3 = (args & 0xf) as int;
    let val = args & 0xff;
    if opc == OP_HALT {
        (VmView { regs: s.regs.update(PSR as int, 1u16), mem: s.mem, traps: s.traps }, Ok(
            StepEvent::Ran,
        ))
    } else if opc == OP_TRAP {
        if (args as nat) < s.traps {
            (s, Ok(StepEvent::Trap(args)))
        } else {
            (s, Err(VmError::TrapIndexOutOfBounds(args)))
        }
    } else if opc == OP_CMP {
        let v = s.regs[r1];
        let flags: u16 = if v == 0 {
            0b100
        } else if v >= 0x8000 {
            0b010
        } else {
            0b1000
        };
        (VmView { regs: s.regs.update(PSR as int, flags), mem: s.mem, traps: s.traps }, Ok(
            StepEvent::Ran,
        ))
    } else if opc == OP_PUTH {
        let w = ((val << 8) | (s.regs[r1] & 0xff)) as u16;
        (VmView { regs: s.regs.update(r1, w), mem: s.mem, traps: s.traps }, Ok(StepEvent::Ran))
    } else if opc == OP_PUTL {
        let w = ((s.regs[r1] & 0xff00) | val) as u16;
        (VmView { regs: s.regs.update(r1, w), mem: s.mem, traps: s.traps }, Ok(StepEvent::Ran))
    } else if opc == OP_BRK {
        if ((s.regs[PSR as int] >> 1) & 7) & (r1 as u16) != 0 {
            let target: u16 = if r1 > 7 {
                s.regs[PC as int].wrapping_add(sext8(val))
            } else {
                s.regs[r2]
            };
            (VmView { regs: s.regs.update(PC as int, target), mem: s.mem, traps: s.traps }, Ok(
                StepEvent::Ran,
            ))
        } else {
            // the condition mask missed the status bits: fall through,
            // the counter already stands past the instruction.
            (s, Ok(StepEvent::Ran))
        }
    } else if opc == OP_LEA {
        let w = s.regs[PC as int].wrapping_add(sext8(val));
        (VmView { regs: s.regs.update(r1, w), mem: s.mem, traps: s.traps }, Ok(StepEvent::Ran))
    } else if opc == OP_LD {
        let w = s.mem[s.regs[r3] as int];
        (VmView { regs: s.regs.update(r1, w), mem: s.mem, traps: s.traps }, Ok(StepEvent::Ran))
    } else if opc == OP_ST {
        (VmView { regs: s.regs, mem: s.mem.update(s.regs[r1] as int, s.regs[r3]), traps: s.traps },
        Ok(StepEvent::Ran))
    } else if opc == OP_MV {
        (VmView { regs: s.regs.update(r1, s.regs[r3]), mem: s.mem, traps: s.traps }, Ok(
            StepEvent::Ran,
        ))
    } else if opc == OP_NOT {
        (VmView { regs: s.regs.update(r1, !s.regs[r3]), mem: s.mem, traps: s.traps }, Ok(
            StepEvent::Ran,
        ))
    } else if opc == OP_AND {
        (VmView { regs: s.regs.update(r1, s.regs[r2] & s.regs[r3]), mem: s.mem, traps: s.traps },
        Ok(StepEvent::Ran))
    } else if opc == OP_OR {
        (VmView { regs: s.regs.update(r1, s.regs[r2] | s.regs[r3]), mem: s.mem, traps: s.traps },
        Ok(StepEvent::Ran))
    } else if opc == OP_LS {
        let w = (s.regs[r2] << (s.regs[r3] & 0xf)) as u16;
        (VmView { regs: s.regs.update(r1, w), mem: s.mem, traps: s.traps }, Ok(StepEvent::Ran))
    } else if opc == OP_RS {
        let w = (s.regs[r2] >> (s.regs[r3] & 0xf)) as u16;
        (VmView { regs: s.regs.update(r1, w), mem: s.mem, traps: s.traps }, Ok(StepEvent::Ran))
    } else if opc == OP_ADD {
        let w = s.regs[r2].wrapping_add(s.regs[r3]);
        (VmView { regs: s.regs.update(r1, w), mem: s.mem, traps: s.traps }, Ok(StepEvent::Ran))
    } else {
        (s, Ok(StepEvent::Ran))
    }
}

/// One full step: fetch the word at the program counter, advance the
/// counter (wrapping), then perform the decoded instruction.
pub open spec fn step_spec(s: VmView) -> (VmView, Result<StepEvent, VmError>) {
    let pc = s.regs[PC as int];
    let w = s.mem[pc as int];
    let s1 = VmView { regs: s.regs.update(PC as int, pc.wrapping_add(1)), mem: s.mem, traps:
        s.traps };
    op_spec(s1, op_of(w), w & 0xfff)
}

/// The halted flag: bit 0 of the status register.
pub open spec fn halted_spec(s: VmView) -> bool {
    s.regs[PSR as int] & 1 != 0
}

/// Places an image's payload bytes from position `i` on into memory as
/// big-endian words starting at word address `addr`; what runs past the
/// end of the address space is dropped, and a final odd byte overwrites
/// only the high half of its word.
pub open spec fn place_words(mem: Seq<u16>, addr: int, img: Seq<u8>, i: int) -> Seq<u16>
    decreases img.len() - i,
    when i >= 0
{
    if i >= img.len() || addr >= 0x10000 {
        mem
    } else if i + 1 == img.len() {
        mem.update(addr, ((img[i] as int) * 256 + (mem[addr] & 0xff)) as u16)
    } else {
        place_words(
            mem.update(addr, ((img[i] as int) * 256 + img[i + 1]) as u16),
            addr + 1,
            img,
            i + 2,
        )
    }
}

/// The memory after loading one binary image: the first two bytes give
/// the big-endian origin word address, the payload follows.
pub open spec fn load_image_spec(mem: Seq<u16>, img: Seq<u8>) -> Seq<u16> {
    place_words(mem, (img[0] as int) * 256 + img[1], img, 2)
}

/// The virtual processor.
pub struct Vm {
    reg: Vec<u16>,
    mem: Vec<u16>,
    traps: usize,
}

impl View for Vm {
    type V = VmView;

    closed spec fn view(&self) -> VmView {
        VmView { regs: self.reg@, mem: self.mem@, traps: self.traps as nat }
    }
}

impl Vm {
    /// The register file has its sixteen registers and memory covers the
    /// full sixteen-bit address space.
    pub open spec fn wf(&self) -> bool {
        self@.regs.len() == 16 && self@.mem.len() == 0x10000
    }

    /// Builds a machine over the given memory image, with the embedder's
    /// trap table holding `traps` entries.
    pub fn new(mem: Vec<u16>, traps: usize) -> (r: Vm)
        requires
            mem@.len() == 0x10000,
        ensures
            r.wf(),
            r@.regs == init_regs(),
            r@.mem == mem@,
            r@.traps == traps as nat,
    {
        let mut reg: Vec<u16> = Vec::new();
        let mut i: usize = 0;
        while i < 16
            invariant
                i <= 16,
                reg@ =~= Seq::new(i as nat, |j: int| 0u16),
            decreases 16 - i,
        {
            reg.push(0);
            proof {
                assert(reg@ =~= Seq::new((i + 1) as nat, |j: int| 0u16));
            }
            i = i + 1;
        }
        reg.set(PSR, 0b1110);
        proof {
            assert(reg@ =~= init_regs());
        }
        Vm { reg, mem, traps }
    }

    /// The halted flag is set; the driving loop stops stepping.
    pub fn halted(&self) -> (r: bool)
        requires
            self.wf(),
        ensures
            r == halted_spec(self@),
    {
        self.reg[PSR] & 1 != 0
    }

    /// Fetches the word at the program counter and advances the counter.
    fn load(&mut self) -> (w: u16)
        requires
            old(self).wf(),
        ensures
            final(self).wf(),
            w == old(self)@.mem[old(self)@.regs[PC as int] as int],
            final(self)@.regs == old(self)@.regs.update(
                PC as int,
                old(self)@.regs[PC as int].wrapping_add(1),
            ),
            final(self)@.mem == old(self)@.mem,
            final(self)@.traps == old(self)@.traps,
    {
        let pc = self.reg[PC];
        let w = self.mem[pc as usize];
        self.pc_update(pc.wrapping_add(1));
        w
    }

    /// Overwrites the program counter.
    fn pc_update(&mut self, addr: u16)
        requires
            old(self).wf(),
        ensures
            final(self).wf(),
            final(self)@.regs == old(self)@.regs.update(PC as int, addr),
            final(self)@.mem == old(self)@.mem,
            final(self)@.traps == old(self)@.traps,
    {
        self.reg.set(PC, addr);
    }

    /// Performs one decoded instruction; the program counter already
    /// stands past the instruction word.
    fn op(&mut self, opc: u16, args: u16) -> (r: Result<StepEvent, VmError>)
        requires
            old(self).wf(),
            opc < 16,
        ensures
            final(self).wf(),
            final(self)@ == op_spec(old(self)@, opc, args).0,
            r == op_spec(old(self)@, opc, args).1,
    {
        proof {
            assert((args >> 8) & 0xf < 16) by (bit_vector);
            assert((args >> 4) & 0xf < 16) by (bit_vector);
            assert(args & 0xf < 16) by (bit_vector);
            assert(args & 0xff < 256) by (bit_vector);
        }
        let r1 = ((args >> 8) & 0xf) as usize;
        let r2 = ((args >> 4) & 0xf) as usize;
        let r3 = (args & 0xf) as usize;
        let val = args & 0xff;
        let ghost s0 = self@;
        if opc == OP_HALT {
            self.reg.set(PSR, 1);
            proof {
                assert(self@ =~~= op_spec(s0, opc, args).0);
            }
            Ok(StepEvent::Ran)
        } else if opc == OP_TRAP {
            if (args as usize) < self.traps {
                Ok(StepEvent::Trap(args))
            } else {
                Err(VmError::TrapIndexOutOfBounds(args))
            }
        } else if opc == OP_CMP {
            let v = self.reg[r1];
            let flags: u16 = if v == 0 {
                0b100
            } else if v >= 0x8000 {
                0b010
            } else {
                0b1000
            };
            self.reg.set(PSR, flags);
            proof {
                assert(self@ =~~= op_spec(s0, opc, args).0);
            }
            Ok(StepEvent::Ran)
        } else if opc == OP_PUTH {
            let cur = self.reg[r1];
            self.reg.set(r1, (val << 8) | (cur & 0xff));
            proof {
                assert(self@ =~~= op_spec(s0, opc, args).0);
            }
            Ok(StepEvent::Ran)
        } else if opc == OP_PUTL {
            let cur = self.reg[r1];
            self.reg.set(r1, (cur & 0xff00) | val);
            proof {
                assert(self@ =~~= op_spec(s0, opc, args).0);
            }
            Ok(StepEvent::Ran)
        } else if opc == OP_BRK {
            let psr = self.reg[PSR];
            if ((psr >> 1) & 7) & (r1 as u16) != 0 {
                let target: u16 = if r1 > 7 {
                    self.reg[PC].wrapping_add(sext8_exec(val))
                } else {
                    self.reg[r2]
                };
                self.reg.set(PC, target);
            }
            proof {
                assert(self@ =~~= op_spec(s0, opc, args).0);
            }
            Ok(StepEvent::Ran)
        } else if opc == OP_LEA {
            let w = self.reg[PC].wrapping_add(sext8_exec(val));
            self.reg.set(r1, w);
            proof {
                assert(self@ =~~= op_spec(s0, opc, args).0);
            }
            Ok(StepEvent::Ran)
        } else if opc == OP_LD {
            let a = self.reg[r3];
            let w = self.mem[a as usize];
            self.reg.set(r1, w);
            proof {
                assert(self@ =~~= op_spec(s0, opc, args).0);
            }
            Ok(StepEvent::Ran)
        } else if opc == OP_ST {
            let a = self.reg[r1];
            let w = self.reg[r3];
            self.mem.set(a as usize, w);
            proof {
                assert(self@ =~~= op_spec(s0, opc, args).0);
            }
            Ok(StepEvent::Ran)
        } else if opc == OP_MV {
            let w = self.reg[r3];
            self.reg.set(r1, w);
            proof {
                assert(self@ =~~= op_spec(s0, opc, args).0);
            }
            Ok(StepEvent::Ran)
        } else if opc == OP_NOT {
            let w = !self.reg[r3];
            self.reg.set(r1, w);
            proof {
                assert(self@ =~~= op_spec(s0, opc, args).0);
            }
            Ok(StepEvent::Ran)
        } else if opc == OP_AND {
            let w = self.reg[r2] & self.reg[r3];
            self.reg.set(r1, w);
            proof {
                assert(self@ =~~= op_spec(s0, opc, args).0);
            }
            Ok(StepEvent::Ran)
        } else if opc == OP_OR {
            let w = self.reg[r2] | self.reg[r3];
            self.reg.set(r1, w);
            proof {
                assert(self@ =~~= op_spec(s0, opc, args).0);
            }
            Ok(StepEvent::Ran)
        } else if opc == OP_LS {
            let sh = self.reg[r3] & 0xf;
            proof {
                let x = self.reg@[r3 as int];
                assert(x & 0xf < 16) by (bit_vector);
            }
            let w = self.reg[r2] << sh;
            self.reg.set(r1, w);
            proof {
                assert(self@ =~~= op_spec(s0, opc, args).0);
            }
            Ok(StepEvent::Ran)
        } else if opc == OP_RS {
            let sh = self.reg[r3] & 0xf;
            proof {
                let x = self.reg@[r3 as int];
                assert(x & 0xf < 16) by (bit_vector);
            }
            let w = self.reg[r2] >> sh;
            self.reg.set(r1, w);
            proof {
                assert(self@ =~~= op_spec(s0, opc, args).0);
            }
            Ok(StepEvent::Ran)
        } else {
            let a = self.reg[r2];
            let b = self.reg[r3];
            self.reg.set(r1, a.wrapping_add(b));
            proof {
                assert(opc == OP_ADD);
                assert(self@ =~~= op_spec(s0, opc, args).0);
            }
            Ok(StepEvent::Ran)
        }
    }

    /// Executes exactly one instruction. Reports a trap's index for the
    /// embedder to dispatch, or the engine-side error when the index lies
    /// beyond the trap table.
    pub fn step(&mut self) -> (r: Result<StepEvent, VmError>)
        requires
            old(self).wf(),
        ensures
            final(self).wf(),
            final(self)@ == step_spec(old(self)@).0,
            r == step_spec(old(self)@).1,
    {
        let w = self.load();
        proof {
            assert(w >> 12 < 16) by (bit_vector);
        }
        self.op(w >> 12, w & 0xfff)
    }

    /// Loads one binary image: two big-endian origin bytes, then the
    /// payload placed word by word from that origin.
    pub fn load_image(&mut self, image: &Vec<u8>)
        requires
            old(self).wf(),
            image@.len() >= 2,
        ensures
            final(self).wf(),
            final(self)@.regs == old(self)@.regs,
            final(self)@.traps == old(self)@.traps,
            final(self)@.mem == load_image_spec(old(self)@.mem, image@),
    {
        let origin: usize = (image[0] as usize) * 256 + (image[1] as usize);
        let ghost mem0 = self@.mem;
        let mut i: usize = 2;
        let mut addr: usize = origin;
        while i < image.len() && addr < 0x10000
            invariant
                2 <= i <= image@.len(),
                self.wf(),
                self@.regs == old(self)@.regs,
                self@.traps == old(self)@.traps,
                place_words(mem0, origin as int, image@, 2) == place_words(
                    self@.mem,
                    addr as int,
                    image@,
                    i as int,
                ),
            decreases image.len() - i,
        {
            let hi = image[i];
            if i + 1 < image.len() {
                let lo = image[i + 1];
                self.mem.set(addr, (hi as u16) * 256 + (lo as u16));
                i = i + 2;
            } else {
                let cur = self.mem[addr];
                proof {
                    assert(cur & 0xff < 256) by (bit_vector);
                }
                self.mem.set(addr, (hi as u16) * 256 + (cur & 0xff));
                i = i + 1;
            }
            addr = addr + 1;
        }
        proof {
            assert(place_words(self@.mem, addr as int, image@, i as int) == self@.mem);
        }
    }

    /// Number of entries in the embedder's trap table.
    pub fn trap_count(&self) -> (r: usize)
        ensures
            r as nat == self@.traps,
    {
        self.traps
    }

    /// Reads a register; trap handlers see the register file through
    /// this.
    pub fn get_reg(&self, i: usize) -> (r: u16)
        requires
            self.wf(),
            i < 16,
        ensures
            r == self@.regs[i as int],
    {
        self.reg[i]
    }

    /// Overwrites a register; trap handlers mutate the register file
    /// through this.
    pub fn set_reg(&mut self, i: usize, v: u16)
        requires
            old(self).wf(),
            i < 16,
        ensures
            final(self).wf(),
            final(self)@.regs == old(self)@.regs.update(i as int, v),
            final(self)@.mem == old(self)@.mem,
            final(self)@.traps == old(self)@.traps,
    {
        self.reg.set(i, v);
    }

    /// Reads a memory word.
    pub fn read_mem(&self, a: u16) -> (r: u16)
        requires
            self.wf(),
        ensures
            r == self@.mem[a as int],
    {
        self.mem[a as usize]
    }

    /// Overwrites a memory word.
    pub fn write_mem(&mut self, a: u16, v: u16)
        requires
            old(self).wf(),
        ensures
            final(self).wf(),
            final(self)@.mem == old(self)@.mem.update(a as int, v),
            final(self)@.regs == old(self)@.regs,
            final(self)@.traps == old(self)@.traps,
    {
        self.mem.set(a as usize, v);
    }
}

/// Sign-extends an eight-bit immediate to the full word.
fn sext8_exec(v: u16) -> (r: u16)
    ensures
        r == sext8(v),
{
    if v & 0x80 != 0 {
        v | 0xff00
    } else {
        v & 0xff
    }
}

} // verus!

verus! {

/// A compare recomputes the status register from the compared register
/// alone: a zero value sets the zero condition bit, a top-bit-set value
/// the negative bit, any other value the positive bit — exactly one of
/// the three, with the halted flag left clear. No other register,
/// memory, or the trap table changes, and the step cannot fail.
pub proof fn lemma_cmp_sets_condition_bits(s: VmView, args: u16)
    requires
        s.regs.len() == 16,
    ensures
        ({
            let r1 = ((args >> 8) & 0xf) as int;
            let v = s.regs[r1];
            let s2 = op_spec(s, OP_CMP, args).0;
            &&& op_spec(s, OP_CMP, args).1 == Ok::<StepEvent, VmError>(StepEvent::Ran)
            &&& s2.regs[PSR as int] == (if v == 0 {
                0b100u16
            } else if v >= 0x8000 {
                0b010u16
            } else {
                0b1000u16
            })
            &&& s2.regs[PSR as int] & 1 == 0
            &&& s2.mem == s.mem
            &&& s2.traps == s.traps
            &&& forall|j: int| 0 <= j < 16 && j != PSR as int ==> s2.regs[j] == s.regs[j]
        }),
{
    assert(0b100u16 & 1 == 0) by (bit_vector);
    assert(0b010u16 & 1 == 0) by (bit_vector);
    assert(0b1000u16 & 1 == 0) by (bit_vector);
}

/// After a compare on a zero-valued register, an immediate-form branch
/// whose condition mask asks only for the zero bit is taken: the
/// counter moves by the sign-extended displacement.
pub proof fn lemma_branch_on_zero_taken(s: VmView, args: u16)
    requires
        s.regs.len() == 16,
        s.regs[PSR as int] == 0b100,
        (args >> 8) & 0xf == 0xa,
    ensures
        op_spec(s, OP_BRK, args).1 == Ok::<StepEvent, VmError>(StepEvent::Ran),
        op_spec(s, OP_BRK, args).0.regs == s.regs.update(
            PC as int,
            s.regs[PC as int].wrapping_add(sext8(args & 0xff)),
        ),
        op_spec(s, OP_BRK, args).0.mem == s.mem,
{
    assert(((0b100u16 >> 1) & 7) & 0xa != 0) by (bit_vector);
}

/// Addition wraps modulo the word range: the destination register
/// receives the sources' sum modulo `0x10000` — never an error, and no
/// other effect.
pub proof fn lemma_add_wraps(s: VmView, args: u16)
    requires
        s.regs.len() == 16,
    ensures
        ({
            let r1 = ((args >> 8) & 0xf) as int;
            let r2 = ((args >> 4) & 0xf) as int;
            let r3 = (args & 0xf) as int;
            let s2 = op_spec(s, OP_ADD, args).0;
            &&& op_spec(s, OP_ADD, args).1 == Ok::<StepEvent, VmError>(StepEvent::Ran)
            &&& s2.regs == s.regs.update(r1, (((s.regs[r2] + s.regs[r3]) % 0x10000) as u16))
            &&& s2.mem == s.mem
            &&& s2.traps == s.traps
        }),
{
    let r2 = ((args >> 4) & 0xf) as int;
    let r3 = (args & 0xf) as int;
    crate::isa::lemma_wrapping_add_is_mod(s.regs[r2], s.regs[r3]);
    vstd::arithmetic::div_mod::lemma_mod_bound((s.regs[r2] + s.regs[r3]) as int, 0x10000);
}

} // verus!
