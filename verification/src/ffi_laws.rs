//! What a host's raw numbers come to.

use crate::ffi::{clamped, low_half, nul_at, slot_of, KesselInput};
use vstd::prelude::*;

verus! {

/// A host's input reaches the console as it is: the buttons, the stick, and each
/// finger where it is.
pub proof fn law_input_is_handed_on_as_it_is(input: KesselInput, i: int)
    requires
        0 <= i < 4,
    ensures
        ({
            let m = input.model();
            let t = input.touches@[i];
            &&& m.buttons == input.buttons
            &&& m.stick_x == input.stick_x
            &&& m.stick_y == input.stick_y
            &&& m.touches.len() == 4
            &&& m.touches[i].x == t.x
            &&& m.touches[i].y == t.y
            &&& m.touches[i].down == t.down
        }),
{
}

/// A finger is three numbers: across, down, and whether it touches. A finger
/// whose numbers are not all there touches nothing.
pub proof fn law_a_finger_is_three_numbers(before: Seq<i32>, x: i32, y: i32, down: i32, slot: int)
    requires
        slot >= 0,
    ensures
        before.len() == 3 * slot ==> {
            let t = slot_of(before + seq![x, y, down], slot);
            &&& t.x == clamped(x)
            &&& t.y == clamped(y)
            &&& t.down <==> down != 0
        },
        before.len() < 3 * slot + 3 ==> {
            let t = slot_of(before, slot);
            t.x == 0 && t.y == 0 && !t.down
        },
{
    if before.len() == 3 * slot {
        let all = before + seq![x, y, down];
        assert(all[3 * slot] == x && all[3 * slot + 1] == y && all[3 * slot + 2] == down);
    }
}

/// A place is kept where it fits, and otherwise moved to the nearest that does.
pub proof fn law_a_place_is_moved_to_the_nearest(v: i32)
    ensures
        0 <= v <= 65535 ==> clamped(v) == v,
        v < 0 ==> clamped(v) == 0,
        v > 65535 ==> clamped(v) == 65535,
{
}

/// The lower half of a number, as a signed one: what fits is kept, and the rest
/// differs from it by whole turns.
pub proof fn law_the_lower_half_is_signed(x: i32)
    ensures
        -0x8000 <= low_half(x) < 0x8000,
        (x - low_half(x)) % 0x1_0000 == 0,
        -0x8000 <= x < 0x8000 ==> low_half(x) == x,
{
    let n = x as int % 0x1_0000;
    vstd::arithmetic::div_mod::lemma_fundamental_div_mod(x as int, 0x1_0000);
}

/// A text is cut before its first zero character, and is whole without one.
pub proof fn law_a_text_ends_before_its_first_zero(s: Seq<char>, i: int)
    requires
        0 <= i <= s.len(),
    ensures
        i <= nul_at(s, i) <= s.len(),
        forall|j: int| i <= j < nul_at(s, i) ==> (#[trigger] s[j]) as u32 != 0,
        nul_at(s, i) < s.len() ==> s[nul_at(s, i)] as u32 == 0,
    decreases s.len() - i,
{
    if i < s.len() && s[i] as u32 != 0 {
        law_a_text_ends_before_its_first_zero(s, i + 1);
    }
}

} // verus!
