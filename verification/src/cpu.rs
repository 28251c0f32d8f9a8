//! The interpreter core: CPU-visible state and the fetch-decode-execute
//! cycle, verified against the model in `model`. The driver calls
//! `run_next_instruction` at its own cadence and `decrease_timers` at the
//! timer cadence; the core itself performs no I/O and no timing.

use vstd::prelude::*;
use vstd::wrapping::u16_specs;
use vstd::wrapping::u8_specs;

use rand::Rng;

use crate::bus::Bus;
use crate::bus::Chip8Error;
use crate::bus::MEM_SIZE;
use crate::model::CpuView;
use crate::model::blank_video;
use crate::model::collision_mid;
use crate::model::draw_mid;
use crate::model::flip;
use crate::model::initial_view;
use crate::model::instr_rel;
use crate::model::last_pressed_below;
use crate::model::lemma_draw_mid_bit_step;
use crate::model::lemma_draw_mid_done;
use crate::model::lemma_draw_mid_row_done;
use crate::model::lemma_draw_mid_start;
use crate::model::set_reg;
use crate::model::spec_draw;
use crate::model::spec_exec_alu;
use crate::model::spec_exec_key;
use crate::model::spec_exec_misc;
use crate::model::step_rel;
use crate::model::step_result;
use crate::model::wf_view;

verus! {

/// The framebuffer array as the model sees it: a sequence of 32 rows of 64
/// cells.
pub open spec fn video_view(a: [[u8; 64]; 32]) -> Seq<Seq<u8>> {
    Seq::new(32, |r: int| a@[r]@)
}

/// Relies on rand::thread_rng and rand::Rng::gen: an arbitrary `u32` drawn
/// from the thread-local generator. Nothing is assumed about its value.
#[verifier::external_body]
fn random_u32() -> u32 {
    rand::thread_rng().gen()
}

/// The CPU: every piece of state the instruction set can observe or write.
/// The framebuffer is public so that the rendering collaborator can read it
/// between steps.
pub struct Cpu {
    bus: Bus,
    pc: u16,
    sp: u8,
    stack: [u16; 16],
    i: u16,
    v: [u8; 16],
    pub video: [[u8; 64]; 32],
    key: [bool; 16],
    delay_timer: u8,
    sound_timer: u8,
}

impl View for Cpu {
    type V = CpuView;

    closed spec fn view(&self) -> CpuView {
        CpuView {
            mem: self.bus@,
            pc: self.pc,
            sp: self.sp,
            stack: self.stack@,
            i: self.i,
            v: self.v@,
            video: video_view(self.video),
            key: self.key@,
            delay_timer: self.delay_timer,
            sound_timer: self.sound_timer,
        }
    }
}

/// True when the framebuffer cell at column `x`, row `y` is lit.
pub fn is_paint(x: usize, y: usize, vid_buffer: &[[u8; 64]; 32]) -> (r: bool)
    requires
        x < 64,
        y < 32,
    ensures
        r == (video_view(*vid_buffer)[y as int][x as int] == 1),
{
    vid_buffer[y][x] == 1
}

impl Cpu {
    /// A well-formed CPU: the sizes the model expects, and framebuffer
    /// cells that are 0 or 1.
    pub open spec fn wf(&self) -> bool {
        wf_view(self@)
    }

    /// A freshly powered-on CPU over the memory held by `bus`.
    pub fn new(bus: Bus) -> (cpu: Cpu)
        ensures
            cpu.wf(),
            cpu@ == initial_view(bus@),
    {
        let cpu = Cpu {
            bus,
            pc: 0x200,
            sp: 0,
            stack: [0; 16],
            i: 0,
            v: [0; 16],
            video: [[0; 64]; 32],
            key: [false; 16],
            delay_timer: 0,
            sound_timer: 0,
        };
        proof {
            assert forall|r: int| 0 <= r < 32 implies cpu@.video[r] =~= initial_view(
                cpu.bus@,
            ).video[r] by {}
            assert(cpu@ =~~= initial_view(cpu.bus@));
        }
        cpu
    }

    /// Writes general register `Vx`.
    pub fn set_v(&mut self, addr: u8, value: u8)
        requires
            addr < 16,
        ensures
            final(self)@ == set_reg(old(self)@, addr as int, value),
            old(self).wf() ==> final(self).wf(),
    {
        self.v[addr as usize] = value;
        proof {
            assert(self@ =~~= set_reg(old(self)@, addr as int, value));
        }
    }

    /// Reads general register `Vx`.
    pub fn get_v(&self, addr: u8) -> (r: u8)
        requires
            addr < 16,
        ensures
            r == self@.v[addr as int],
    {
        self.v[addr as usize]
    }

    /// Records one key going down or up. The index names one of the 16 keys.
    pub fn read_keys(&mut self, key_code: usize, status: bool)
        requires
            key_code < 16,
        ensures
            final(self)@ == (CpuView {
                key: old(self)@.key.update(key_code as int, status),
                ..old(self)@
            }),
            old(self).wf() ==> final(self).wf(),
    {
        self.key[key_code] = status;
        proof {
            assert(self@ =~~= (CpuView {
                key: old(self)@.key.update(key_code as int, status),
                ..old(self)@
            }));
        }
    }

    /// One timer tick: each timer counts down by one, stopping at zero. The
    /// driver calls this at its chosen real-time cadence.
    pub fn decrease_timers(&mut self)
        ensures
            final(self)@ == (CpuView {
                delay_timer: if old(self)@.delay_timer > 0 {
                    (old(self)@.delay_timer - 1) as u8
                } else {
                    0u8
                },
                sound_timer: if old(self)@.sound_timer > 0 {
                    (old(self)@.sound_timer - 1) as u8
                } else {
                    0u8
                },
                ..old(self)@
            }),
            old(self).wf() ==> final(self).wf(),
    {
        if self.delay_timer > 0 {
            self.delay_timer = self.delay_timer - 1;
        }
        if self.sound_timer > 0 {
            self.sound_timer = self.sound_timer - 1;
        }
    }

    /// True while the sound timer runs: the audio collaborator polls this.
    pub fn make_sound(&self) -> (r: bool)
        ensures
            r == (self@.sound_timer > 0),
    {
        self.sound_timer > 0
    }

    /// The current program counter.
    pub fn program_counter(&self) -> (r: u16)
        ensures
            r == self@.pc,
    {
        self.pc
    }

    /// The current index register.
    pub fn index_register(&self) -> (r: u16)
        ensures
            r == self@.i,
    {
        self.i
    }

    /// The current delay timer value.
    pub fn delay_timer_value(&self) -> (r: u8)
        ensures
            r == self@.delay_timer,
    {
        self.delay_timer
    }

    /// One full step: fetch the instruction word at the program counter,
    /// advance the counter, then decode and execute. The step relates to
    /// the model by `step_rel` for some random byte; only the random
    /// instruction depends on which one.
    pub fn run_next_instruction(&mut self) -> (r: Result<(), Chip8Error>)
        requires
            old(self).wf(),
        ensures
            final(self).wf(),
            exists|rb: u8| #[trigger] step_rel(old(self)@, rb, final(self)@, r),
    {
        if self.pc >= 0xFFF {
            // the second fetch byte would fall outside the mapped range
            proof {
                assert(step_rel(
                    old(self)@,
                    0u8,
                    self@,
                    Err::<(), Chip8Error>(Chip8Error::UnmappedAddress),
                ));
            }
            return Err(Chip8Error::UnmappedAddress);
        }
        let lhs = self.bus.load(self.pc).unwrap() as u16;
        let rhs = self.bus.load(self.pc + 1).unwrap() as u16;

        let instruction = (lhs << 8) | rhs;

        self.pc = self.pc.wrapping_add(2);

        let ghost mid = self@;
        proof {
            assert(mid =~~= (CpuView {
                pc: u16_specs::wrapping_add(old(self)@.pc, 2),
                ..old(self)@
            }));
        }

        let r = self.decode(instruction);

        proof {
            let rb = choose|rb: u8| instr_rel(mid, instruction, rb, self@, r);
            assert(step_rel(old(self)@, rb, self@, r));
        }
        r
    }

    /// Decodes and executes one instruction word on a state whose program
    /// counter has already advanced past it.
    fn decode(&mut self, instruction: u16) -> (r: Result<(), Chip8Error>)
        requires
            old(self).wf(),
        ensures
            final(self).wf(),
            exists|rb: u8| #[trigger] instr_rel(old(self)@, instruction, rb, final(self)@, r),
    {
        let opcode = instruction >> 12;

        let nnn = instruction & 0x0fff;
        let nn = (instruction & 0x00ff) as u8;
        let n = (instruction & 0x000f) as u8;
        let x = ((instruction & 0x0f00) >> 8) as u8;
        let y = ((instruction & 0x00f0) >> 4) as u8;

        proof {
            assert((instruction >> 12) < 16 && (instruction & 0x0fff) < 0x1000 && ((instruction
                & 0x0f00) >> 8) < 16 && ((instruction & 0x00f0) >> 4) < 16 && (instruction
                & 0x000f) < 16 && (instruction & 0x00ff) < 256) by (bit_vector);
        }

        match opcode {
            0x0 => {
                if nn == 0xe0 {
                    self.video = [[0; 64]; 32];
                    proof {
                        assert forall|r: int| 0 <= r < 32 implies self@.video[r] =~= blank_video()[r]
                        by {}
                        assert(self@.video =~= blank_video());
                        assert(self@ =~~= (CpuView { video: blank_video(), ..old(self)@ }));
                        assert(instr_rel(old(self)@, instruction, 0u8, self@, Ok::<
                            (),
                            Chip8Error,
                        >(())));
                    }
                    Ok(())
                } else if nn == 0xee {
                    if self.sp >= 16 {
                        // a return past the sixteen stack slots would index
                        // outside them
                        proof {
                            assert(instr_rel(old(self)@, instruction, 0u8, self@, Err::<
                                (),
                                Chip8Error,
                            >(Chip8Error::UnmappedAddress)));
                        }
                        Err(Chip8Error::UnmappedAddress)
                    } else {
                        self.pc = self.stack[self.sp as usize];
                        self.sp = self.sp.wrapping_sub(1);
                        proof {
                            assert(self@ =~~= (CpuView {
                                pc: old(self)@.stack[old(self)@.sp as int],
                                sp: u8_specs::wrapping_sub(old(self)@.sp, 1),
                                ..old(self)@
                            }));
                            assert(instr_rel(old(self)@, instruction, 0u8, self@, Ok::<
                                (),
                                Chip8Error,
                            >(())));
                        }
                        Ok(())
                    }
                } else {
                    proof {
                        assert(instr_rel(old(self)@, instruction, 0u8, self@, Err::<
                            (),
                            Chip8Error,
                        >(Chip8Error::InvalidInstruction)));
                    }
                    Err(Chip8Error::InvalidInstruction)
                }
            }
            0x1 => {
                self.pc = nnn;
                proof {
                    assert(self@ =~~= (CpuView { pc: nnn, ..old(self)@ }));
                    assert(instr_rel(old(self)@, instruction, 0u8, self@, Ok::<(), Chip8Error>(())));
                }
                Ok(())
            }
            0x2 => {
                let sp2 = self.sp.wrapping_add(1);
                if sp2 >= 16 {
                    // a call past the sixteen stack slots would index
                    // outside them
                    proof {
                        assert(instr_rel(old(self)@, instruction, 0u8, self@, Err::<
                            (),
                            Chip8Error,
                        >(Chip8Error::UnmappedAddress)));
                    }
                    Err(Chip8Error::UnmappedAddress)
                } else {
                    self.sp = sp2;
                    self.stack[sp2 as usize] = self.pc;
                    self.pc = nnn;
                    proof {
                        assert(self@ =~~= (CpuView {
                            sp: u8_specs::wrapping_add(old(self)@.sp, 1),
                            stack: old(self)@.stack.update(sp2 as int, old(self)@.pc),
                            pc: nnn,
                            ..old(self)@
                        }));
                        assert(instr_rel(old(self)@, instruction, 0u8, self@, Ok::<
                            (),
                            Chip8Error,
                        >(())));
                    }
                    Ok(())
                }
            }
            0x3 => {
                let vx = self.get_v(x);
                if vx == nn {
                    self.pc = self.pc.wrapping_add(2);
                }
                proof {
                    assert(instr_rel(old(self)@, instruction, 0u8, self@, Ok::<(), Chip8Error>(())));
                }
                Ok(())
            }
            0x4 => {
                let vx = self.get_v(x);
                if vx != nn {
                    self.pc = self.pc.wrapping_add(2);
                }
                proof {
                    assert(instr_rel(old(self)@, instruction, 0u8, self@, Ok::<(), Chip8Error>(())));
                }
                Ok(())
            }
            0x5 => {
                if n == 0 {
                    let vx = self.get_v(x);
                    let vy = self.get_v(y);
                    if vx == vy {
                        self.pc = self.pc.wrapping_add(2);
                    }
                    proof {
                        assert(instr_rel(old(self)@, instruction, 0u8, self@, Ok::<
                            (),
                            Chip8Error,
                        >(())));
                    }
                    Ok(())
                } else {
                    proof {
                        assert(instr_rel(old(self)@, instruction, 0u8, self@, Err::<
                            (),
                            Chip8Error,
                        >(Chip8Error::InvalidInstruction)));
                    }
                    Err(Chip8Error::InvalidInstruction)
                }
            }
            0x6 => {
                self.set_v(x, nn);
                proof {
                    assert(instr_rel(old(self)@, instruction, 0u8, self@, Ok::<(), Chip8Error>(())));
                }
                Ok(())
            }
            0x7 => {
                let old_v = self.get_v(x);
                self.set_v(x, old_v.wrapping_add(nn));
                proof {
                    assert(instr_rel(old(self)@, instruction, 0u8, self@, Ok::<(), Chip8Error>(())));
                }
                Ok(())
            }
            0x8 => {
                let r = self.exec_alu(x, y, n);
                proof {
                    assert(instr_rel(old(self)@, instruction, 0u8, self@, r));
                }
                r
            }
            0x9 => {
                if n == 0 {
                    let vx = self.get_v(x);
                    let vy = self.get_v(y);
                    if vx != vy {
                        self.pc = self.pc.wrapping_add(2);
                    }
                    proof {
                        assert(instr_rel(old(self)@, instruction, 0u8, self@, Ok::<
                            (),
                            Chip8Error,
                        >(())));
                    }
                    Ok(())
                } else {
                    proof {
                        assert(instr_rel(old(self)@, instruction, 0u8, self@, Err::<
                            (),
                            Chip8Error,
                        >(Chip8Error::InvalidInstruction)));
                    }
                    Err(Chip8Error::InvalidInstruction)
                }
            }
            0xa => {
                self.i = nnn;
                proof {
                    assert(self@ =~~= (CpuView { i: nnn, ..old(self)@ }));
                    assert(instr_rel(old(self)@, instruction, 0u8, self@, Ok::<(), Chip8Error>(())));
                }
                Ok(())
            }
            0xb => {
                let value = self.get_v(0);
                self.pc = nnn.wrapping_add(value as u16);
                proof {
                    assert(self@ =~~= (CpuView {
                        pc: u16_specs::wrapping_add(nnn, old(self)@.v[0] as u16),
                        ..old(self)@
                    }));
                    assert(instr_rel(old(self)@, instruction, 0u8, self@, Ok::<(), Chip8Error>(())));
                }
                Ok(())
            }
            0xc => {
                let rand = random_u32();
                let masked = (rand & nn as u32) as u8;
                self.set_v(x, masked);
                proof {
                    let rb = rand as u8;
                    assert((rand & (nn as u32)) as u8 == (rand as u8) & nn) by (bit_vector);
                    assert(instr_rel(old(self)@, instruction, rb, self@, Ok::<(), Chip8Error>(())));
                }
                Ok(())
            }
            0xd => {
                let r = self.draw(x, y, n);
                proof {
                    assert(instr_rel(old(self)@, instruction, 0u8, self@, r));
                }
                r
            }
            0xe => {
                let r = self.exec_key(x, nn);
                proof {
                    assert(instr_rel(old(self)@, instruction, 0u8, self@, r));
                }
                r
            }
            0xf => {
                let r = self.exec_misc(x, nn);
                proof {
                    assert(instr_rel(old(self)@, instruction, 0u8, self@, r));
                }
                r
            }
            _ => {
                proof {
                    assert(instr_rel(old(self)@, instruction, 0u8, self@, Err::<(), Chip8Error>(
                        Chip8Error::InvalidInstruction,
                    )));
                }
                Err(Chip8Error::InvalidInstruction)
            }
        }
    }

    /// The 8xyN register-arithmetic family.
    fn exec_alu(&mut self, x: u8, y: u8, n: u8) -> (r: Result<(), Chip8Error>)
        requires
            x < 16,
            y < 16,
        ensures
            final(self)@ == spec_exec_alu(old(self)@, x, y, n).0,
            r == step_result(spec_exec_alu(old(self)@, x, y, n).1),
    {
        match n {
            0x0 => {
                let vy = self.get_v(y);
                self.set_v(x, vy);
                Ok(())
            }
            0x1 => {
                let vx = self.get_v(x);
                let vy = self.get_v(y);
                self.set_v(x, vx | vy);
                Ok(())
            }
            0x2 => {
                let vx = self.get_v(x);
                let vy = self.get_v(y);
                self.set_v(x, vx & vy);
                Ok(())
            }
            0x3 => {
                let vx = self.get_v(x);
                let vy = self.get_v(y);
                self.set_v(x, vx ^ vy);
                Ok(())
            }
            0x4 => {
                let vx = self.get_v(x);
                let vy = self.get_v(y);
                let sum = vx.wrapping_add(vy);
                self.set_v(x, sum);
                if sum < vx {
                    self.set_v(0xf, 1);
                } else {
                    self.set_v(0xf, 0);
                }
                Ok(())
            }
            0x5 => {
                let vx = self.get_v(x);
                let vy = self.get_v(y);
                let diff = vx.wrapping_sub(vy);
                self.set_v(x, diff);
                if vy > vx {
                    self.set_v(0xf, 1);
                } else {
                    self.set_v(0xf, 0);
                }
                Ok(())
            }
            0x6 => {
                let vy = self.get_v(y);
                self.set_v(y, vy >> 1);
                self.set_v(x, vy >> 1);
                self.set_v(0xf, vy & 1);
                Ok(())
            }
            0x7 => {
                let vx = self.get_v(x);
                let vy = self.get_v(y);
                let diff = vy.wrapping_sub(vx);
                self.set_v(x, diff);
                if vx > vy {
                    self.set_v(0xf, 1);
                } else {
                    self.set_v(0xf, 0);
                }
                Ok(())
            }
            0xe => {
                let vy = self.get_v(y);
                self.set_v(y, vy << 1);
                self.set_v(x, vy << 1);
                self.set_v(0xf, vy >> 7);
                Ok(())
            }
            _ => Err(Chip8Error::InvalidInstruction),
        }
    }

    /// The Ex9E / ExA1 key-test skips.
    fn exec_key(&mut self, x: u8, nn: u8) -> (r: Result<(), Chip8Error>)
        requires
            x < 16,
        ensures
            final(self)@ == spec_exec_key(old(self)@, x, nn).0,
            r == step_result(spec_exec_key(old(self)@, x, nn).1),
    {
        if nn == 0x9e || nn == 0xa1 {
            let kidx = self.get_v(x);
            if kidx >= 16 {
                // the register value would index outside the 16-key matrix
                return Err(Chip8Error::UnmappedAddress);
            }
            let pressed = self.key[kidx as usize];
            let skip = if nn == 0x9e {
                pressed
            } else {
                !pressed
            };
            if skip {
                self.pc = self.pc.wrapping_add(2);
            }
            Ok(())
        } else {
            Err(Chip8Error::InvalidInstruction)
        }
    }

    /// The FxNN family: timers, key wait, index arithmetic, the font
    /// address, binary-coded decimal, and the register block moves.
    fn exec_misc(&mut self, x: u8, nn: u8) -> (r: Result<(), Chip8Error>)
        requires
            x < 16,
        ensures
            final(self)@ == spec_exec_misc(old(self)@, x, nn).0,
            r == step_result(spec_exec_misc(old(self)@, x, nn).1),
    {
        if nn == 0x07 {
            let value = self.delay_timer;
            self.set_v(x, value);
            Ok(())
        } else if nn == 0x0a {
            let mut pressed = false;

            let mut index: usize = 0;
            while index < 15
                invariant
                    x < 16,
                    index <= 15,
                    match last_pressed_below(old(self)@.key, index as int) {
                        Some(k) => pressed && self@ == set_reg(old(self)@, x as int, k),
                        None => !pressed && self@ == old(self)@,
                    },
                decreases 15 - index,
            {
                if self.key[index] {
                    self.set_v(x, index as u8);
                    proof {
                        if let Some(k) = last_pressed_below(old(self)@.key, index as int) {
                            assert(self@.v =~= old(self)@.v.update(x as int, index as u8));
                            assert(self@ =~~= set_reg(old(self)@, x as int, index as u8));
                        }
                    }
                    pressed = true;
                }
                index = index + 1;
            }

            if !pressed {
                // Blocking operation: rewind so the same instruction runs
                // again on the next step.
                self.pc = self.pc.wrapping_sub(2);
                proof {
                    assert(self@ =~~= (CpuView {
                        pc: u16_specs::wrapping_sub(old(self)@.pc, 2),
                        ..old(self)@
                    }));
                }
            }
            Ok(())
        } else if nn == 0x15 {
            let value = self.get_v(x);
            self.delay_timer = value;
            proof {
                assert(self@ =~~= (CpuView { delay_timer: old(self)@.v[x as int], ..old(self)@ }));
            }
            Ok(())
        } else if nn == 0x18 {
            let value = self.get_v(x);
            self.sound_timer = value;
            proof {
                assert(self@ =~~= (CpuView { sound_timer: old(self)@.v[x as int], ..old(self)@ }));
            }
            Ok(())
        } else if nn == 0x1e {
            let vx = self.get_v(x);
            self.i = self.i.wrapping_add(vx as u16);
            proof {
                assert(self@ =~~= (CpuView {
                    i: u16_specs::wrapping_add(old(self)@.i, old(self)@.v[x as int] as u16),
                    ..old(self)@
                }));
            }
            Ok(())
        } else if nn == 0x29 {
            let value = self.get_v(x);
            self.i = value as u16 * 5;  // Font 4x5.
            proof {
                assert(self@ =~~= (CpuView {
                    i: (old(self)@.v[x as int] * 5) as u16,
                    ..old(self)@
                }));
            }
            Ok(())
        } else if nn == 0x33 {
            if self.i >= 0xFFE {
                // the three digit stores would run past the mapped range
                return Err(Chip8Error::UnmappedAddress);
            }
            let value = self.get_v(x);
            self.bus.store(self.i, value / 100).unwrap();
            self.bus.store(self.i + 1, (value % 100) / 10).unwrap();
            self.bus.store(self.i + 2, value % 10).unwrap();
            proof {
                assert(self@ =~~= (CpuView {
                    mem: old(self)@.mem.update(
                        old(self)@.i as int,
                        (old(self)@.v[x as int] / 100) as u8,
                    ).update(
                        old(self)@.i as int + 1,
                        ((old(self)@.v[x as int] % 100) / 10) as u8,
                    ).update(old(self)@.i as int + 2, (old(self)@.v[x as int] % 10) as u8),
                    ..old(self)@
                }));
            }
            Ok(())
        } else if nn == 0x55 {
            if x > 0 {
                let last: usize = self.i as usize + x as usize - 1;
                if last >= MEM_SIZE {
                    // the final register store would run past the mapped range
                    return Err(Chip8Error::UnmappedAddress);
                }
            }
            proof {
                assert(Seq::new(
                    MEM_SIZE as nat,
                    |a: int|
                        if old(self)@.i <= a < old(self)@.i + 0 {
                            old(self)@.v[a - old(self)@.i]
                        } else {
                            old(self)@.mem[a]
                        },
                ) =~= old(self)@.mem);
            }
            let mut index: u8 = 0;
            while index < x
                invariant
                    x < 16,
                    index <= x,
                    old(self)@.mem.len() == MEM_SIZE,
                    x > 0 ==> old(self)@.i + x - 1 < MEM_SIZE,
                    self@ == (CpuView {
                        mem: Seq::new(
                            MEM_SIZE as nat,
                            |a: int|
                                if old(self)@.i <= a < old(self)@.i + index {
                                    old(self)@.v[a - old(self)@.i]
                                } else {
                                    old(self)@.mem[a]
                                },
                        ),
                        ..old(self)@
                    }),
                decreases x - index,
            {
                let value = self.get_v(index);
                self.bus.store(self.i + index as u16, value).unwrap();
                proof {
                    assert(Seq::new(
                        MEM_SIZE as nat,
                        |a: int|
                            if old(self)@.i <= a < old(self)@.i + (index + 1) {
                                old(self)@.v[a - old(self)@.i]
                            } else {
                                old(self)@.mem[a]
                            },
                    ) =~= Seq::new(
                        MEM_SIZE as nat,
                        |a: int|
                            if old(self)@.i <= a < old(self)@.i + index {
                                old(self)@.v[a - old(self)@.i]
                            } else {
                                old(self)@.mem[a]
                            },
                    ).update(old(self)@.i + index, old(self)@.v[index as int]));
                }
                index = index + 1;
            }
            Ok(())
        } else if nn == 0x65 {
            if x > 0 {
                let last: usize = self.i as usize + x as usize - 1;
                if last >= MEM_SIZE {
                    // the final register load would run past the mapped range
                    return Err(Chip8Error::UnmappedAddress);
                }
            }
            proof {
                assert(Seq::new(
                    16,
                    |j: int|
                        if j < 0 {
                            old(self)@.mem[old(self)@.i + j]
                        } else {
                            old(self)@.v[j]
                        },
                ) =~= old(self)@.v);
            }
            let mut index: u8 = 0;
            while index < x
                invariant
                    x < 16,
                    index <= x,
                    old(self)@.mem.len() == MEM_SIZE,
                    old(self)@.v.len() == 16,
                    x > 0 ==> old(self)@.i + x - 1 < MEM_SIZE,
                    self@ == (CpuView {
                        v: Seq::new(
                            16,
                            |j: int|
                                if j < index {
                                    old(self)@.mem[old(self)@.i + j]
                                } else {
                                    old(self)@.v[j]
                                },
                        ),
                        ..old(self)@
                    }),
                decreases x - index,
            {
                let value = self.bus.load(self.i + index as u16).unwrap();
                self.set_v(index, value);
                proof {
                    assert(Seq::new(
                        16,
                        |j: int|
                            if j < index + 1 {
                                old(self)@.mem[old(self)@.i + j]
                            } else {
                                old(self)@.v[j]
                            },
                    ) =~= Seq::new(
                        16,
                        |j: int|
                            if j < index {
                                old(self)@.mem[old(self)@.i + j]
                            } else {
                                old(self)@.v[j]
                            },
                    ).update(index as int, old(self)@.mem[old(self)@.i + index]));
                    assert(self@ =~~= (CpuView {
                        v: Seq::new(
                            16,
                            |j: int|
                                if j < index + 1 {
                                    old(self)@.mem[old(self)@.i + j]
                                } else {
                                    old(self)@.v[j]
                                },
                        ),
                        ..old(self)@
                    }));
                }
                index = index + 1;
            }
            Ok(())
        } else {
            Err(Chip8Error::InvalidInstruction)
        }
    }

    /// The draw instruction Dxyn: XOR-blends an `n`-row sprite read from
    /// memory at the index register into the framebuffer, wrapping at both
    /// screen edges, and reports a collision in `VF`.
    fn draw(&mut self, x: u8, y: u8, n: u8) -> (r: Result<(), Chip8Error>)
        requires
            old(self).wf(),
            x < 16,
            y < 16,
            n < 16,
        ensures
            final(self).wf(),
            final(self)@ == spec_draw(old(self)@, x, y, n).0,
            r == step_result(spec_draw(old(self)@, x, y, n).1),
    {
        if n > 0 {
            let last: usize = self.i as usize + n as usize - 1;
            if last >= MEM_SIZE {
                // some sprite row would be read past the mapped range
                return Err(Chip8Error::UnmappedAddress);
            }
        }

        let ghost pre = old(self)@;
        let ghost row0 = (pre.v[y as int] as int) % 32;
        let ghost col0 = (pre.v[x as int] as int) % 64;
        let ghost sprite = if n == 0 {
            Seq::<u8>::empty()
        } else {
            pre.mem.subrange(pre.i as int, pre.i + n)
        };

        let col = self.get_v(x) % 64;
        let row = self.get_v(y) % 32;

        self.set_v(0xf, 0);

        proof {
            lemma_draw_mid_start(pre.video, sprite, row0, col0);
            assert(self@ =~~= (CpuView {
                video: draw_mid(pre.video, sprite, row0, col0, 0, 0),
                v: pre.v.update(
                    15,
                    if collision_mid(pre.video, sprite, row0, col0, 0, 0) {
                        1u8
                    } else {
                        0u8
                    },
                ),
                ..pre
            }));
        }

        let mut offset: u8 = 0;
        while offset < n
            invariant
                wf_view(pre),
                x < 16,
                y < 16,
                n < 16,
                row0 == (pre.v[y as int] as int) % 32,
                col0 == (pre.v[x as int] as int) % 64,
                row as int == row0,
                col as int == col0,
                0 <= row0 < 32,
                0 <= col0 < 64,
                n > 0 ==> sprite == pre.mem.subrange(pre.i as int, pre.i + n),
                sprite.len() == n,
                n > 0 ==> pre.i + n - 1 < MEM_SIZE,
                offset <= n,
                self@ == (CpuView {
                    video: draw_mid(pre.video, sprite, row0, col0, offset as int, 0),
                    v: pre.v.update(
                        15,
                        if collision_mid(pre.video, sprite, row0, col0, offset as int, 0) {
                            1u8
                        } else {
                            0u8
                        },
                    ),
                    ..pre
                }),
            decreases n - offset,
        {
            let pixel = self.bus.load(self.i + offset as u16).unwrap();
            proof {
                assert(pixel == sprite[offset as int]);
            }

            let mut coll_offset: u8 = 0;
            while coll_offset < 8
                invariant
                    wf_view(pre),
                    x < 16,
                    y < 16,
                    n < 16,
                    row0 == (pre.v[y as int] as int) % 32,
                    col0 == (pre.v[x as int] as int) % 64,
                    row as int == row0,
                    col as int == col0,
                    0 <= row0 < 32,
                    0 <= col0 < 64,
                    n > 0 ==> sprite == pre.mem.subrange(pre.i as int, pre.i + n),
                    sprite.len() == n,
                    n > 0 ==> pre.i + n - 1 < MEM_SIZE,
                    offset < n,
                    pixel == sprite[offset as int],
                    coll_offset <= 8,
                    self@ == (CpuView {
                        video: draw_mid(
                            pre.video,
                            sprite,
                            row0,
                            col0,
                            offset as int,
                            coll_offset as int,
                        ),
                        v: pre.v.update(
                            15,
                            if collision_mid(
                                pre.video,
                                sprite,
                                row0,
                                col0,
                                offset as int,
                                coll_offset as int,
                            ) {
                                1u8
                            } else {
                                0u8
                            },
                        ),
                        ..pre
                    }),
                decreases 8 - coll_offset,
            {
                proof {
                    lemma_draw_mid_bit_step(
                        pre.video,
                        sprite,
                        row0,
                        col0,
                        offset as int,
                        coll_offset as int,
                    );
                }
                let ghost mid = draw_mid(
                    pre.video,
                    sprite,
                    row0,
                    col0,
                    offset as int,
                    coll_offset as int,
                );
                let ghost hit_mid = collision_mid(
                    pre.video,
                    sprite,
                    row0,
                    col0,
                    offset as int,
                    coll_offset as int,
                );

                if (pixel & (0x80 >> coll_offset)) > 0 {
                    let rr = ((row + offset) % 32) as usize;
                    let cc = ((col + coll_offset) % 64) as usize;
                    proof {
                        assert(rr as int == (row0 + offset as int) % 32);
                        assert(cc as int == (col0 + coll_offset as int) % 64);
                    }

                    if self.video[rr][cc] == 1 {
                        self.set_v(0xf, 1);
                        proof {
                            assert(self@.v =~= pre.v.update(15, 1u8));
                        }
                    }
                    let cell = self.video[rr][cc];
                    proof {
                        assert(cell == pre.video[rr as int][cc as int]);
                        assert(cell <= 1);
                        assert(cell <= 1 ==> (cell ^ 1) == flip(cell)) by (bit_vector);
                    }
                    let mut vrow: [u8; 64] = self.video[rr];
                    vrow[cc] = vrow[cc] ^ 1;
                    self.video[rr] = vrow;
                    proof {
                        assert(self@.video =~= mid.update(
                            rr as int,
                            mid[rr as int].update(cc as int, flip(pre.video[rr as int][cc as int])),
                        ));
                        assert(self@ =~~= (CpuView {
                            video: draw_mid(
                                pre.video,
                                sprite,
                                row0,
                                col0,
                                offset as int,
                                coll_offset as int + 1,
                            ),
                            v: pre.v.update(
                                15,
                                if collision_mid(
                                    pre.video,
                                    sprite,
                                    row0,
                                    col0,
                                    offset as int,
                                    coll_offset as int + 1,
                                ) {
                                    1u8
                                } else {
                                    0u8
                                },
                            ),
                            ..pre
                        }));
                    }
                } else {
                    proof {
                        assert(!crate::model::sprite_bit(pixel, coll_offset as int));
                        assert(self@ =~~= (CpuView {
                            video: draw_mid(
                                pre.video,
                                sprite,
                                row0,
                                col0,
                                offset as int,
                                coll_offset as int + 1,
                            ),
                            v: pre.v.update(
                                15,
                                if collision_mid(
                                    pre.video,
                                    sprite,
                                    row0,
                                    col0,
                                    offset as int,
                                    coll_offset as int + 1,
                                ) {
                                    1u8
                                } else {
                                    0u8
                                },
                            ),
                            ..pre
                        }));
                    }
                }
                coll_offset = coll_offset + 1;
            }

            proof {
                lemma_draw_mid_row_done(pre.video, sprite, row0, col0, offset as int);
            }
            offset = offset + 1;
        }

        proof {
            lemma_draw_mid_done(pre.video, sprite, row0, col0);
            assert(self@ == spec_draw(pre, x, y, n).0);
            assert forall|r: int, c: int| 0 <= r < 32 && 0 <= c < 64 implies #[trigger] self@.video[r][c]
                <= 1 by {}
            assert(wf_view(self@));
        }
        Ok(())
    }
}

} // verus!
