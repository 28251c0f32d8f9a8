//! General properties of the interpreter model, stated and proved once and
//! for all inputs: register write/read round trips, the arithmetic flag
//! laws, XOR draw self-inversion, and the determinism of every instruction
//! but the random one.

use vstd::prelude::*;
use vstd::wrapping::u16_specs;
use vstd::wrapping::u8_specs;

use crate::bus::MEM_SIZE;
use crate::model::CpuView;
use crate::model::draw_collision;
use crate::model::draw_video;
use crate::model::flip;
use crate::model::lemma_wrap_round_trip32;
use crate::model::lemma_wrap_round_trip64;
use crate::model::set_reg;
use crate::model::spec_exec_alu;
use crate::model::spec_step;
use crate::model::sprite_bit;
use crate::model::wf_view;
use crate::model::wrap_back32;
use crate::model::wrap_back64;

verus! {

/// Law: a register write is read back unchanged within a step — after
/// `Vx := value`, reading `Vx` yields `value`, and every other register
/// keeps its old value.
pub proof fn lemma_register_write_read(pre: CpuView, x: int, value: u8)
    requires
        wf_view(pre),
        0 <= x < 16,
    ensures
        wf_view(set_reg(pre, x, value)),
        set_reg(pre, x, value).v[x] == value,
        forall|j: int| 0 <= j < 16 && j != x ==> set_reg(pre, x, value).v[j] == pre.v[j],
{
}

/// Law: the addition 8xy4 stores the wrapped sum in `Vx` and sets `VF` to 1
/// exactly when `a + b` exceeds 255.
pub proof fn lemma_add_flag(pre: CpuView, x: u8, y: u8, a: u8, b: u8)
    requires
        wf_view(pre),
        x < 15,
        y < 16,
        pre.v[x as int] == a,
        pre.v[y as int] == b,
    ensures
        spec_exec_alu(pre, x, y, 4).1 is None,
        spec_exec_alu(pre, x, y, 4).0.v[15] == (if a + b > 255 {
            1u8
        } else {
            0u8
        }),
        spec_exec_alu(pre, x, y, 4).0.v[x as int] == u8_specs::wrapping_add(a, b),
{
}

/// Law: the subtraction 8xy5 stores the wrapped difference in `Vx` and sets
/// `VF` to 1 exactly when a borrow occurs, that is when `b > a`.
pub proof fn lemma_sub_flag(pre: CpuView, x: u8, y: u8, a: u8, b: u8)
    requires
        wf_view(pre),
        x < 15,
        y < 16,
        pre.v[x as int] == a,
        pre.v[y as int] == b,
    ensures
        spec_exec_alu(pre, x, y, 5).1 is None,
        spec_exec_alu(pre, x, y, 5).0.v[15] == (if b > a {
            1u8
        } else {
            0u8
        }),
        spec_exec_alu(pre, x, y, 5).0.v[x as int] == u8_specs::wrapping_sub(a, b),
{
}

/// Law: XOR blending is self-inverse — drawing the same sprite at the same
/// origin twice restores the framebuffer exactly.
pub proof fn lemma_draw_twice_restores(
    video: Seq<Seq<u8>>,
    sprite: Seq<u8>,
    row0: int,
    col0: int,
)
    requires
        video.len() == 32,
        forall|r: int| 0 <= r < 32 ==> (#[trigger] video[r]).len() == 64,
        forall|r: int, c: int| 0 <= r < 32 && 0 <= c < 64 ==> #[trigger] video[r][c] <= 1,
        0 <= row0 < 32,
        0 <= col0 < 64,
        sprite.len() <= 15,
    ensures
        draw_video(draw_video(video, sprite, row0, col0), sprite, row0, col0) == video,
{
    let once = draw_video(video, sprite, row0, col0);
    let twice = draw_video(once, sprite, row0, col0);
    assert forall|r: int| 0 <= r < 32 implies #[trigger] twice[r] =~= video[r] by {
        assert forall|c: int| 0 <= c < 64 implies #[trigger] twice[r][c] == video[r][c] by {
            assert(flip(flip(video[r][c])) == video[r][c]);
        }
    }
    assert(twice =~= video);
}

/// Law: after a sprite is drawn onto cells that were all clear, drawing it
/// again reports a collision exactly when the sprite has any set bit — and
/// the first draw itself reports none.
pub proof fn lemma_second_draw_collides(
    video: Seq<Seq<u8>>,
    sprite: Seq<u8>,
    row0: int,
    col0: int,
)
    requires
        video.len() == 32,
        forall|r: int| 0 <= r < 32 ==> (#[trigger] video[r]).len() == 64,
        0 <= row0 < 32,
        0 <= col0 < 64,
        sprite.len() <= 15,
        forall|r: int, c: int|
            0 <= r < 32 && 0 <= c < 64 && wrap_back32(r, row0) < sprite.len() && wrap_back64(
                c,
                col0,
            ) < 8 ==> #[trigger] video[r][c] == 0,
    ensures
        !draw_collision(video, sprite, row0, col0),
        draw_collision(draw_video(video, sprite, row0, col0), sprite, row0, col0) <==> (exists|
            k: int,
            b: int,
        | 0 <= k < sprite.len() && 0 <= b < 8 && #[trigger] sprite_bit(sprite[k], b)),
{
    let once = draw_video(video, sprite, row0, col0);

    assert forall|k: int, b: int|
        0 <= k < sprite.len() && 0 <= b < 8 implies #[trigger] video[(row0 + k) % 32][(col0 + b)
        % 64] == 0 by {
        lemma_wrap_round_trip32(row0, k);
        lemma_wrap_round_trip64(col0, b);
    }
    assert(!draw_collision(video, sprite, row0, col0));

    if exists|k: int, b: int|
        0 <= k < sprite.len() && 0 <= b < 8 && #[trigger] sprite_bit(sprite[k], b) {
        let (k, b): (int, int) = choose|k: int, b: int|
            0 <= k < sprite.len() && 0 <= b < 8 && #[trigger] sprite_bit(sprite[k], b);
        lemma_wrap_round_trip32(row0, k);
        lemma_wrap_round_trip64(col0, b);
        let rr = (row0 + k) % 32;
        let cc = (col0 + b) % 64;
        assert(once[rr][cc] == flip(video[rr][cc]));
        assert(once[rr][cc] == 1);
        assert(draw_collision(once, sprite, row0, col0));
    }
    if draw_collision(once, sprite, row0, col0) {
        let (k, b): (int, int) = choose|k: int, b: int|
            0 <= k < sprite.len() && 0 <= b < 8 && #[trigger] sprite_bit(sprite[k], b) && once[(
            row0 + k) % 32][(col0 + b) % 64] == 1;
        assert(0 <= k < sprite.len() && 0 <= b < 8 && sprite_bit(sprite[k], b));
    }
}

/// Law: every instruction but the random one CxNN is deterministic — the
/// step relation does not depend on which random byte was drawn.
pub proof fn lemma_step_deterministic(pre: CpuView, rb1: u8, rb2: u8)
    requires
        wf_view(pre),
        pre.pc + 1 < MEM_SIZE ==> (pre.mem[pre.pc as int] >> 4) != 0xC,
    ensures
        spec_step(pre, rb1) == spec_step(pre, rb2),
{
    if pre.pc + 1 < MEM_SIZE {
        let hi = pre.mem[pre.pc as int];
        let lo = pre.mem[pre.pc as int + 1];
        assert((((hi as u16) << 8) | (lo as u16)) >> 12 == (hi >> 4) as u16) by (bit_vector);
    }
}

/// Law: the program counter advance wraps at the 16-bit boundary, not at
/// the end of the 12-bit memory space: a step from 0xFFE leaves the counter
/// at 0x1000, and the advance operation itself returns to 0 only from
/// 0xFFFE.
pub proof fn lemma_pc_advance_wraps()
    ensures
        u16_specs::wrapping_add(0xFFE, 2) == 0x1000,
        u16_specs::wrapping_add(0xFFFE, 2) == 0,
{
}

} // verus!
