//! The mathematical model of the interpreter: an abstract CPU state and the
//! meaning of one fetch-decode-execute step as a function over that state.
//! The executable engine in `cpu` is verified against `spec_step`.

use vstd::prelude::*;
use vstd::wrapping::u16_specs;
use vstd::wrapping::u8_specs;

use crate::bus::Chip8Error;
use crate::bus::LOAD_ADDR;
use crate::bus::MEM_SIZE;

verus! {

/// Abstract interpreter state. `mem` is the 4096-byte memory, `video` the
/// 32-row by 64-column framebuffer of 0/1 cells, `key` the 16-entry key
/// matrix. The call stack always has its full 16 slots; `sp` names the slot
/// holding the most recent return address.
#[verifier::ext_equal]
pub struct CpuView {
    pub mem: Seq<u8>,
    pub pc: u16,
    pub sp: u8,
    pub stack: Seq<u16>,
    pub i: u16,
    pub v: Seq<u8>,
    pub video: Seq<Seq<u8>>,
    pub key: Seq<bool>,
    pub delay_timer: u8,
    pub sound_timer: u8,
}

/// Shape of a well-formed state: the fixed sizes of every component, and
/// framebuffer cells that are either 0 or 1.
pub open spec fn wf_view(c: CpuView) -> bool {
    &&& c.mem.len() == MEM_SIZE
    &&& c.stack.len() == 16
    &&& c.v.len() == 16
    &&& c.video.len() == 32
    &&& forall|r: int| 0 <= r < 32 ==> (#[trigger] c.video[r]).len() == 64
    &&& forall|r: int, cc: int| 0 <= r < 32 && 0 <= cc < 64 ==> #[trigger] c.video[r][cc] <= 1
    &&& c.key.len() == 16
}

/// An all-zero framebuffer.
pub open spec fn blank_video() -> Seq<Seq<u8>> {
    Seq::new(32, |r: int| Seq::new(64, |c: int| 0u8))
}

/// The state at power-on over memory image `mem`: everything zeroed, the
/// program counter at the load address.
pub open spec fn initial_view(mem: Seq<u8>) -> CpuView {
    CpuView {
        mem,
        pc: LOAD_ADDR as u16,
        sp: 0,
        stack: Seq::new(16, |k: int| 0u16),
        i: 0,
        v: Seq::new(16, |k: int| 0u8),
        video: blank_video(),
        key: Seq::new(16, |k: int| false),
        delay_timer: 0,
        sound_timer: 0,
    }
}

/// The state with register `x` set to `value`.
pub open spec fn set_reg(pre: CpuView, x: int, value: u8) -> CpuView {
    CpuView { v: pre.v.update(x, value), ..pre }
}

/// The state after a conditional skip: the program counter moves past the
/// next instruction word exactly when `cond` holds.
pub open spec fn skip_if(pre: CpuView, cond: bool) -> CpuView {
    if cond {
        CpuView { pc: u16_specs::wrapping_add(pre.pc, 2), ..pre }
    } else {
        pre
    }
}

/// True when bit `b` of sprite row byte `byte` is set, counting the most
/// significant bit as bit 0 (the leftmost drawn pixel).
pub open spec fn sprite_bit(byte: u8, b: int) -> bool {
    byte & (0x80u8 >> (b as u8)) > 0
}

/// The value of a framebuffer cell after an XOR toggle.
pub open spec fn flip(p: u8) -> u8 {
    if p == 0 {
        1u8
    } else {
        0u8
    }
}

/// The sprite row that covers screen row `r` when the sprite origin row is
/// `row0`: the inverse of the wrapping placement `r == (row0 + k) % 32`.
pub open spec fn wrap_back32(r: int, row0: int) -> int {
    if r >= row0 {
        r - row0
    } else {
        r - row0 + 32
    }
}

/// The sprite bit that covers screen column `c` when the sprite origin
/// column is `col0`: the inverse of `c == (col0 + b) % 64`.
pub open spec fn wrap_back64(c: int, col0: int) -> int {
    if c >= col0 {
        c - col0
    } else {
        c - col0 + 64
    }
}

/// The framebuffer after XOR-drawing `sprite` with origin at row `row0`,
/// column `col0`: each set sprite bit toggles the cell it covers, wrapping
/// around both screen edges. A cell `(r, c)` is covered by sprite row `k`
/// and bit `b` exactly when `r == (row0 + k) % 32` and `c == (col0 + b) % 64`;
/// with at most 15 sprite rows no cell is covered twice.
pub open spec fn draw_video(video: Seq<Seq<u8>>, sprite: Seq<u8>, row0: int, col0: int) -> Seq<
    Seq<u8>,
>
    recommends
        0 <= row0 < 32,
        0 <= col0 < 64,
        sprite.len() <= 15,
{
    Seq::new(
        32,
        |r: int|
            Seq::new(
                64,
                |c: int|
                    {
                        let k = wrap_back32(r, row0);
                        let b = wrap_back64(c, col0);
                        if k < sprite.len() && b < 8 && sprite_bit(sprite[k], b) {
                            flip(video[r][c])
                        } else {
                            video[r][c]
                        }
                    },
            ),
    )
}

/// True when drawing `sprite` at `(row0, col0)` would toggle at least one
/// cell that is currently set: the collision condition reported in `VF`.
pub open spec fn draw_collision(video: Seq<Seq<u8>>, sprite: Seq<u8>, row0: int, col0: int) -> bool {
    exists|k: int, b: int|
        0 <= k < sprite.len() && 0 <= b < 8 && #[trigger] sprite_bit(sprite[k], b) && video[(row0
            + k) % 32][(col0 + b) % 64] == 1
}

/// Effect of the draw instruction Dxyn: `n` sprite rows are read from memory
/// at the index register; the sprite is XOR-blended into the framebuffer and
/// `VF` reports a collision. A sprite row outside the mapped memory range is
/// an unmapped access that leaves the state unchanged.
pub open spec fn spec_draw(pre: CpuView, x: u8, y: u8, n: u8) -> (CpuView, Option<Chip8Error>)
    recommends
        wf_view(pre),
        x < 16,
        y < 16,
        n < 16,
{
    if n > 0 && pre.i + n - 1 >= MEM_SIZE {
        (pre, Some(Chip8Error::UnmappedAddress))
    } else {
        let row0 = (pre.v[y as int] as int) % 32;
        let col0 = (pre.v[x as int] as int) % 64;
        let sprite = if n == 0 {
            Seq::<u8>::empty()
        } else {
            pre.mem.subrange(pre.i as int, pre.i + n)
        };
        let hit = draw_collision(pre.video, sprite, row0, col0);
        (
            CpuView {
                video: draw_video(pre.video, sprite, row0, col0),
                v: pre.v.update(
                    15,
                    if hit {
                        1u8
                    } else {
                        0u8
                    },
                ),
                ..pre
            },
            None,
        )
    }
}

/// The last pressed key among indices `0 .. m`: the key-wait instruction
/// scans upward and keeps the highest pressed index. `None` when none of
/// them is pressed.
pub open spec fn last_pressed_below(key: Seq<bool>, m: int) -> Option<u8>
    recommends
        0 <= m <= key.len(),
    decreases m,
{
    if m <= 0 {
        None
    } else if key[m - 1] {
        Some((m - 1) as u8)
    } else {
        last_pressed_below(key, m - 1)
    }
}

/// Effect of the 8xyN register-arithmetic family. The shift instructions
/// read and write through `Vy`, and the flag write to `VF` comes last, so it
/// prevails whenever `x` or `y` is 15.
pub open spec fn spec_exec_alu(pre: CpuView, x: u8, y: u8, n: u8) -> (CpuView, Option<Chip8Error>)
    recommends
        wf_view(pre),
        x < 16,
        y < 16,
{
    let a = pre.v[x as int];
    let b = pre.v[y as int];
    if n == 0x0 {
        (set_reg(pre, x as int, b), None)
    } else if n == 0x1 {
        (set_reg(pre, x as int, a | b), None)
    } else if n == 0x2 {
        (set_reg(pre, x as int, a & b), None)
    } else if n == 0x3 {
        (set_reg(pre, x as int, a ^ b), None)
    } else if n == 0x4 {
        let flag: u8 = if a + b > 255 {
            1
        } else {
            0
        };
        (
            CpuView { v: pre.v.update(x as int, u8_specs::wrapping_add(a, b)).update(15, flag), ..pre },
            None,
        )
    } else if n == 0x5 {
        let flag: u8 = if b > a {
            1
        } else {
            0
        };
        (
            CpuView { v: pre.v.update(x as int, u8_specs::wrapping_sub(a, b)).update(15, flag), ..pre },
            None,
        )
    } else if n == 0x6 {
        (
            CpuView {
                v: pre.v.update(y as int, b >> 1).update(x as int, b >> 1).update(15, b & 1),
                ..pre
            },
            None,
        )
    } else if n == 0x7 {
        let flag: u8 = if a > b {
            1
        } else {
            0
        };
        (
            CpuView { v: pre.v.update(x as int, u8_specs::wrapping_sub(b, a)).update(15, flag), ..pre },
            None,
        )
    } else if n == 0xe {
        (
            CpuView {
                v: pre.v.update(y as int, b << 1).update(x as int, b << 1).update(15, b >> 7),
                ..pre
            },
            None,
        )
    } else {
        (pre, Some(Chip8Error::InvalidInstruction))
    }
}

/// Effect of the Ex9E / ExA1 key-test skips. A register value beyond the 16
/// key slots would index outside the key matrix and is reported as an
/// unmapped access.
pub open spec fn spec_exec_key(pre: CpuView, x: u8, nn: u8) -> (CpuView, Option<Chip8Error>)
    recommends
        wf_view(pre),
        x < 16,
{
    if nn == 0x9e || nn == 0xa1 {
        let kidx = pre.v[x as int];
        if kidx >= 16 {
            (pre, Some(Chip8Error::UnmappedAddress))
        } else {
            let pressed = pre.key[kidx as int];
            (
                skip_if(
                    pre,
                    if nn == 0x9e {
                        pressed
                    } else {
                        !pressed
                    },
                ),
                None,
            )
        }
    } else {
        (pre, Some(Chip8Error::InvalidInstruction))
    }
}

/// Effect of the FxNN family: timers, key wait, index arithmetic, the font
/// address, binary-coded decimal, and the register dump/load block moves
/// (which cover registers `0 .. x`, excluding `Vx` itself).
pub open spec fn spec_exec_misc(pre: CpuView, x: u8, nn: u8) -> (CpuView, Option<Chip8Error>)
    recommends
        wf_view(pre),
        x < 16,
{
    if nn == 0x07 {
        (set_reg(pre, x as int, pre.delay_timer), None)
    } else if nn == 0x0a {
        match last_pressed_below(pre.key, 15) {
            Some(k) => (set_reg(pre, x as int, k), None),
            None => (CpuView { pc: u16_specs::wrapping_sub(pre.pc, 2), ..pre }, None),
        }
    } else if nn == 0x15 {
        (CpuView { delay_timer: pre.v[x as int], ..pre }, None)
    } else if nn == 0x18 {
        (CpuView { sound_timer: pre.v[x as int], ..pre }, None)
    } else if nn == 0x1e {
        (CpuView { i: u16_specs::wrapping_add(pre.i, pre.v[x as int] as u16), ..pre }, None)
    } else if nn == 0x29 {
        (CpuView { i: (pre.v[x as int] * 5) as u16, ..pre }, None)
    } else if nn == 0x33 {
        if pre.i + 2 >= MEM_SIZE {
            (pre, Some(Chip8Error::UnmappedAddress))
        } else {
            let val = pre.v[x as int];
            (
                CpuView {
                    mem: pre.mem.update(pre.i as int, (val / 100) as u8).update(
                        pre.i as int + 1,
                        ((val % 100) / 10) as u8,
                    ).update(pre.i as int + 2, (val % 10) as u8),
                    ..pre
                },
                None,
            )
        }
    } else if nn == 0x55 {
        if x > 0 && pre.i + x - 1 >= MEM_SIZE {
            (pre, Some(Chip8Error::UnmappedAddress))
        } else {
            (
                CpuView {
                    mem: Seq::new(
                        MEM_SIZE as nat,
                        |a: int|
                            if pre.i <= a < pre.i + x {
                                pre.v[a - pre.i]
                            } else {
                                pre.mem[a]
                            },
                    ),
                    ..pre
                },
                None,
            )
        }
    } else if nn == 0x65 {
        if x > 0 && pre.i + x - 1 >= MEM_SIZE {
            (pre, Some(Chip8Error::UnmappedAddress))
        } else {
            (
                CpuView {
                    v: Seq::new(
                        16,
                        |j: int|
                            if j < x {
                                pre.mem[pre.i + j]
                            } else {
                                pre.v[j]
                            },
                    ),
                    ..pre
                },
                None,
            )
        }
    } else {
        (pre, Some(Chip8Error::InvalidInstruction))
    }
}

/// Effect of one decoded instruction on a state whose program counter has
/// already advanced past the instruction word. `rb` is the byte the random
/// instruction CxNN masks; every other instruction ignores it. An
/// instruction matching no case reports an invalid instruction; a call or
/// return whose stack slot falls outside the sixteen available is reported
/// as an unmapped access.
pub open spec fn spec_exec_op(
    pre: CpuView,
    op: u16,
    x: u8,
    y: u8,
    n: u8,
    nn: u8,
    nnn: u16,
    rb: u8,
) -> (CpuView, Option<Chip8Error>)
    recommends
        wf_view(pre),
        x < 16,
        y < 16,
        n < 16,
        nnn < 0x1000,
{
    if op == 0x0 {
        if nn == 0xe0 {
            (CpuView { video: blank_video(), ..pre }, None)
        } else if nn == 0xee {
            if pre.sp >= 16 {
                (pre, Some(Chip8Error::UnmappedAddress))
            } else {
                (
                    CpuView {
                        pc: pre.stack[pre.sp as int],
                        sp: u8_specs::wrapping_sub(pre.sp, 1),
                        ..pre
                    },
                    None,
                )
            }
        } else {
            (pre, Some(Chip8Error::InvalidInstruction))
        }
    } else if op == 0x1 {
        (CpuView { pc: nnn, ..pre }, None)
    } else if op == 0x2 {
        let sp2 = u8_specs::wrapping_add(pre.sp, 1);
        if sp2 >= 16 {
            (pre, Some(Chip8Error::UnmappedAddress))
        } else {
            (CpuView { sp: sp2, stack: pre.stack.update(sp2 as int, pre.pc), pc: nnn, ..pre }, None)
        }
    } else if op == 0x3 {
        (skip_if(pre, pre.v[x as int] == nn), None)
    } else if op == 0x4 {
        (skip_if(pre, pre.v[x as int] != nn), None)
    } else if op == 0x5 {
        if n == 0 {
            (skip_if(pre, pre.v[x as int] == pre.v[y as int]), None)
        } else {
            (pre, Some(Chip8Error::InvalidInstruction))
        }
    } else if op == 0x6 {
        (set_reg(pre, x as int, nn), None)
    } else if op == 0x7 {
        (set_reg(pre, x as int, u8_specs::wrapping_add(pre.v[x as int], nn)), None)
    } else if op == 0x8 {
        spec_exec_alu(pre, x, y, n)
    } else if op == 0x9 {
        if n == 0 {
            (skip_if(pre, pre.v[x as int] != pre.v[y as int]), None)
        } else {
            (pre, Some(Chip8Error::InvalidInstruction))
        }
    } else if op == 0xa {
        (CpuView { i: nnn, ..pre }, None)
    } else if op == 0xb {
        (CpuView { pc: u16_specs::wrapping_add(nnn, pre.v[0] as u16), ..pre }, None)
    } else if op == 0xc {
        (set_reg(pre, x as int, rb & nn), None)
    } else if op == 0xd {
        spec_draw(pre, x, y, n)
    } else if op == 0xe {
        spec_exec_key(pre, x, nn)
    } else if op == 0xf {
        spec_exec_misc(pre, x, nn)
    } else {
        (pre, Some(Chip8Error::InvalidInstruction))
    }
}

/// Effect of one raw instruction word: the word is split into its fields and
/// dispatched.
pub open spec fn spec_exec_instr(pre: CpuView, instr: u16, rb: u8) -> (CpuView, Option<Chip8Error>)
    recommends
        wf_view(pre),
{
    spec_exec_op(
        pre,
        instr >> 12,
        ((instr & 0x0f00) >> 8) as u8,
        ((instr & 0x00f0) >> 4) as u8,
        (instr & 0x000f) as u8,
        (instr & 0x00ff) as u8,
        instr & 0x0fff,
        rb,
    )
}

/// One full step: fetch the two instruction bytes at the program counter,
/// advance it by 2 (wrapping at the 16-bit boundary), then execute. A fetch
/// from beyond the mapped range is an unmapped access that leaves the state
/// unchanged; an execution error leaves the state as it was after the
/// advance.
pub open spec fn spec_step(pre: CpuView, rb: u8) -> (CpuView, Option<Chip8Error>)
    recommends
        wf_view(pre),
{
    if pre.pc + 1 >= MEM_SIZE {
        (pre, Some(Chip8Error::UnmappedAddress))
    } else {
        let instr = ((pre.mem[pre.pc as int] as u16) << 8) | (pre.mem[pre.pc as int + 1] as u16);
        let advanced = CpuView { pc: u16_specs::wrapping_add(pre.pc, 2), ..pre };
        spec_exec_instr(advanced, instr, rb)
    }
}

/// The framebuffer in the middle of a draw: sprite rows before `k` are
/// fully blended, and of row `k` only the bits before `j` are.
pub open spec fn draw_mid(
    video: Seq<Seq<u8>>,
    sprite: Seq<u8>,
    row0: int,
    col0: int,
    k: int,
    j: int,
) -> Seq<Seq<u8>>
    recommends
        0 <= row0 < 32,
        0 <= col0 < 64,
        sprite.len() <= 15,
{
    Seq::new(
        32,
        |r: int|
            Seq::new(
                64,
                |c: int|
                    {
                        let o = wrap_back32(r, row0);
                        let b = wrap_back64(c, col0);
                        if o < sprite.len() && b < 8 && (o < k || (o == k && b < j))
                            && sprite_bit(sprite[o], b) {
                            flip(video[r][c])
                        } else {
                            video[r][c]
                        }
                    },
            ),
    )
}

/// The collision flag in the middle of a draw, over the same prefix of the
/// sprite as `draw_mid`.
pub open spec fn collision_mid(
    video: Seq<Seq<u8>>,
    sprite: Seq<u8>,
    row0: int,
    col0: int,
    k: int,
    j: int,
) -> bool {
    exists|o: int, b: int|
        0 <= o < sprite.len() && 0 <= b < 8 && (o < k || (o == k && b < j))
            && #[trigger] sprite_bit(sprite[o], b) && video[(row0 + o) % 32][(col0 + b) % 64] == 1
}

/// Placing sprite row `k` at origin row `row0` and mapping the resulting
/// screen row back recovers `k`: the wrapping placement is injective.
pub proof fn lemma_wrap_round_trip32(row0: int, k: int)
    requires
        0 <= row0 < 32,
        0 <= k < 32,
    ensures
        0 <= (row0 + k) % 32 < 32,
        wrap_back32((row0 + k) % 32, row0) == k,
{
    if row0 + k < 32 {
        assert((row0 + k) % 32 == row0 + k) by (nonlinear_arith)
            requires 0 <= row0 + k < 32;
    } else {
        assert((row0 + k) % 32 == row0 + k - 32) by (nonlinear_arith)
            requires 32 <= row0 + k < 64;
    }
}

/// The column counterpart of `lemma_wrap_round_trip32`.
pub proof fn lemma_wrap_round_trip64(col0: int, b: int)
    requires
        0 <= col0 < 64,
        0 <= b < 64,
    ensures
        0 <= (col0 + b) % 64 < 64,
        wrap_back64((col0 + b) % 64, col0) == b,
{
    if col0 + b < 64 {
        assert((col0 + b) % 64 == col0 + b) by (nonlinear_arith)
            requires 0 <= col0 + b < 64;
    } else {
        assert((col0 + b) % 64 == col0 + b - 64) by (nonlinear_arith)
            requires 64 <= col0 + b < 128;
    }
}

/// Before any sprite bit is blended, the mid-draw framebuffer is the
/// original one.
pub proof fn lemma_draw_mid_start(video: Seq<Seq<u8>>, sprite: Seq<u8>, row0: int, col0: int)
    requires
        video.len() == 32,
        forall|r: int| 0 <= r < 32 ==> (#[trigger] video[r]).len() == 64,
        0 <= row0 < 32,
        0 <= col0 < 64,
    ensures
        draw_mid(video, sprite, row0, col0, 0, 0) == video,
        !collision_mid(video, sprite, row0, col0, 0, 0),
{
    assert forall|r: int| 0 <= r < 32 implies #[trigger] draw_mid(
        video,
        sprite,
        row0,
        col0,
        0,
        0,
    )[r] =~= video[r] by {}
    assert(draw_mid(video, sprite, row0, col0, 0, 0) =~= video);
}

/// Finishing the bits of one sprite row is the same as standing at the
/// start of the next row.
pub proof fn lemma_draw_mid_row_done(
    video: Seq<Seq<u8>>,
    sprite: Seq<u8>,
    row0: int,
    col0: int,
    k: int,
)
    requires
        video.len() == 32,
        forall|r: int| 0 <= r < 32 ==> (#[trigger] video[r]).len() == 64,
        0 <= row0 < 32,
        0 <= col0 < 64,
    ensures
        draw_mid(video, sprite, row0, col0, k, 8) == draw_mid(video, sprite, row0, col0, k + 1, 0),
        collision_mid(video, sprite, row0, col0, k, 8) == collision_mid(
            video,
            sprite,
            row0,
            col0,
            k + 1,
            0,
        ),
{
    assert forall|r: int| 0 <= r < 32 implies #[trigger] draw_mid(
        video,
        sprite,
        row0,
        col0,
        k,
        8,
    )[r] =~= draw_mid(video, sprite, row0, col0, k + 1, 0)[r] by {}
    assert(draw_mid(video, sprite, row0, col0, k, 8) =~= draw_mid(
        video,
        sprite,
        row0,
        col0,
        k + 1,
        0,
    ));
    assert(collision_mid(video, sprite, row0, col0, k, 8) ==> collision_mid(
        video,
        sprite,
        row0,
        col0,
        k + 1,
        0,
    ));
    assert(collision_mid(video, sprite, row0, col0, k + 1, 0) ==> collision_mid(
        video,
        sprite,
        row0,
        col0,
        k,
        8,
    ));
}

/// Once every sprite row is blended, the mid-draw framebuffer and flag are
/// the full draw.
pub proof fn lemma_draw_mid_done(video: Seq<Seq<u8>>, sprite: Seq<u8>, row0: int, col0: int)
    requires
        video.len() == 32,
        forall|r: int| 0 <= r < 32 ==> (#[trigger] video[r]).len() == 64,
        0 <= row0 < 32,
        0 <= col0 < 64,
    ensures
        draw_mid(video, sprite, row0, col0, sprite.len() as int, 0) == draw_video(
            video,
            sprite,
            row0,
            col0,
        ),
        collision_mid(video, sprite, row0, col0, sprite.len() as int, 0) == draw_collision(
            video,
            sprite,
            row0,
            col0,
        ),
{
    let n = sprite.len() as int;
    assert forall|r: int| 0 <= r < 32 implies #[trigger] draw_mid(
        video,
        sprite,
        row0,
        col0,
        n,
        0,
    )[r] =~= draw_video(video, sprite, row0, col0)[r] by {}
    assert(draw_mid(video, sprite, row0, col0, n, 0) =~= draw_video(video, sprite, row0, col0));
    assert(collision_mid(video, sprite, row0, col0, n, 0) ==> draw_collision(
        video,
        sprite,
        row0,
        col0,
    ));
    assert(draw_collision(video, sprite, row0, col0) ==> collision_mid(
        video,
        sprite,
        row0,
        col0,
        n,
        0,
    ));
}

/// One bit of one sprite row: the cell it covers still holds its original
/// value in the mid-draw framebuffer, and blending the bit moves the
/// mid-draw state and collision flag forward by one.
pub proof fn lemma_draw_mid_bit_step(
    video: Seq<Seq<u8>>,
    sprite: Seq<u8>,
    row0: int,
    col0: int,
    k: int,
    j: int,
)
    requires
        video.len() == 32,
        forall|r: int| 0 <= r < 32 ==> (#[trigger] video[r]).len() == 64,
        0 <= row0 < 32,
        0 <= col0 < 64,
        sprite.len() <= 15,
        0 <= k < sprite.len(),
        0 <= j < 8,
    ensures
        ({
            let rr = (row0 + k) % 32;
            let cc = (col0 + j) % 64;
            let mid = draw_mid(video, sprite, row0, col0, k, j);
            &&& 0 <= rr < 32
            &&& 0 <= cc < 64
            &&& mid[rr][cc] == video[rr][cc]
            &&& (if sprite_bit(sprite[k], j) {
                draw_mid(video, sprite, row0, col0, k, j + 1) == mid.update(
                    rr,
                    mid[rr].update(cc, flip(video[rr][cc])),
                )
            } else {
                draw_mid(video, sprite, row0, col0, k, j + 1) == mid
            })
            &&& collision_mid(video, sprite, row0, col0, k, j + 1) == (collision_mid(
                video,
                sprite,
                row0,
                col0,
                k,
                j,
            ) || (sprite_bit(sprite[k], j) && video[rr][cc] == 1))
        }),
{
    let rr = (row0 + k) % 32;
    let cc = (col0 + j) % 64;
    let mid = draw_mid(video, sprite, row0, col0, k, j);
    let next = draw_mid(video, sprite, row0, col0, k, j + 1);
    lemma_wrap_round_trip32(row0, k);
    lemma_wrap_round_trip64(col0, j);
    assert(wrap_back32(rr, row0) == k && wrap_back64(cc, col0) == j);
    assert(mid[rr][cc] == video[rr][cc]);

    // Any cell other than (rr, cc) maps back to a (row, bit) pair other
    // than (k, j), so its processed status does not change.
    assert forall|r: int, c: int|
        0 <= r < 32 && 0 <= c < 64 && !(r == rr && c == cc) implies #[trigger] next[r][c]
        == mid[r][c] by {
        if wrap_back32(r, row0) == k && wrap_back64(c, col0) == j {
            lemma_wrap_round_trip32(row0, k);
            lemma_wrap_round_trip64(col0, j);
            assert((row0 + k) % 32 == r || (row0 + k) % 32 != r);
            assert(r == if row0 + k < 32 { row0 + k } else { row0 + k - 32 }) by (nonlinear_arith)
                requires 0 <= row0 < 32, 0 <= k < 32, 0 <= r < 32, wrap_back32(r, row0) == k;
            assert(c == if col0 + j < 64 { col0 + j } else { col0 + j - 64 }) by (nonlinear_arith)
                requires 0 <= col0 < 64, 0 <= j < 64, 0 <= c < 64, wrap_back64(c, col0) == j;
            assert(r == rr && c == cc);
        }
    }
    if sprite_bit(sprite[k], j) {
        let target = mid.update(rr, mid[rr].update(cc, flip(video[rr][cc])));
        assert(next[rr][cc] == flip(video[rr][cc]));
        assert forall|r: int| 0 <= r < 32 implies #[trigger] next[r] =~= target[r] by {}
        assert(next =~= target);
    } else {
        assert forall|r: int| 0 <= r < 32 implies #[trigger] next[r] =~= mid[r] by {}
        assert(next =~= mid);
    }

    // The collision flag picks up exactly the new bit.
    if collision_mid(video, sprite, row0, col0, k, j) {
        assert(collision_mid(video, sprite, row0, col0, k, j + 1));
    }
    if sprite_bit(sprite[k], j) && video[rr][cc] == 1 {
        assert(collision_mid(video, sprite, row0, col0, k, j + 1));
    }
    if collision_mid(video, sprite, row0, col0, k, j + 1) {
        let (o, b): (int, int) = choose|o: int, b: int|
            0 <= o < sprite.len() && 0 <= b < 8 && (o < k || (o == k && b < j + 1))
                && #[trigger] sprite_bit(sprite[o], b) && video[(row0 + o) % 32][(col0 + b) % 64]
                == 1;
        if o < k || (o == k && b < j) {
            assert(collision_mid(video, sprite, row0, col0, k, j));
        } else {
            assert(o == k && b == j);
        }
    }
}

/// The step result handed back to the driver for a given error outcome.
pub open spec fn step_result(e: Option<Chip8Error>) -> Result<(), Chip8Error> {
    match e {
        None => Ok(()),
        Some(err) => Err(err),
    }
}

/// Relates one executed step to the model: the machine went from `pre` to
/// `post` and reported `r`, as `spec_step` says for random byte `rb`.
pub open spec fn step_rel(pre: CpuView, rb: u8, post: CpuView, r: Result<(), Chip8Error>) -> bool {
    let (s, e) = spec_step(pre, rb);
    post == s && r == step_result(e)
}

/// Like `step_rel`, but for the execute stage alone, on a state whose
/// program counter has already advanced past the instruction word.
pub open spec fn instr_rel(
    pre: CpuView,
    instr: u16,
    rb: u8,
    post: CpuView,
    r: Result<(), Chip8Error>,
) -> bool {
    let (s, e) = spec_exec_instr(pre, instr, rb);
    post == s && r == step_result(e)
}

} // verus!
