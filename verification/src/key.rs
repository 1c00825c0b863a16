//! Key identities: a virtual-key code together with the extended-key flag.

use vstd::prelude::*;

verus! {

/// Virtual-key code of Enter.
pub const VK_RETURN: u32 = 0x0D;

/// Virtual-key code of Shift, either one.
pub const VK_SHIFT: u32 = 0x10;

/// Virtual-key code of Ctrl, either one.
pub const VK_CONTROL: u32 = 0x11;

/// Virtual-key code of Alt, either one.
pub const VK_MENU: u32 = 0x12;

/// Virtual-key code of Escape.
pub const VK_ESCAPE: u32 = 0x1B;

/// Virtual-key code of the left Windows key.
pub const VK_LWIN: u32 = 0x5B;

/// Virtual-key code of the right Windows key.
pub const VK_RWIN: u32 = 0x5C;

/// Virtual-key code of the left Shift.
pub const VK_LSHIFT: u32 = 0xA0;

/// Virtual-key code of the right Shift.
pub const VK_RSHIFT: u32 = 0xA1;

/// Virtual-key code of the left Ctrl.
pub const VK_LCONTROL: u32 = 0xA2;

/// Virtual-key code of the right Ctrl.
pub const VK_RCONTROL: u32 = 0xA3;

/// Virtual-key code of the left Alt.
pub const VK_LMENU: u32 = 0xA4;

/// Virtual-key code of the right Alt.
pub const VK_RMENU: u32 = 0xA5;

/// A physical key: its virtual-key code and whether the keyboard reported it
/// as an extended key. Two identities are the same key only if both fields
/// agree.
#[derive(Clone, Copy, Debug, PartialEq, Eq, Hash, Structural)]
pub struct KeyId {
    pub code: u32,
    pub extended: bool,
}

/// Where a key with this code stands among the modifiers: Ctrl 0, Alt 1,
/// Shift 2, Win 3, and 4 for every other key. The left and right variants
/// count with their modifier.
pub open spec fn modifier_rank(code: u32) -> int {
    if code == VK_CONTROL || code == VK_LCONTROL || code == VK_RCONTROL {
        0
    } else if code == VK_MENU || code == VK_LMENU || code == VK_RMENU {
        1
    } else if code == VK_SHIFT || code == VK_LSHIFT || code == VK_RSHIFT {
        2
    } else if code == VK_LWIN || code == VK_RWIN {
        3
    } else {
        4
    }
}

impl KeyId {
    pub fn new(code: u32, extended: bool) -> (key: KeyId)
        ensures
            key == (KeyId { code, extended }),
    {
        KeyId { code, extended }
    }

    /// Whether releasing this key alone abandons a capture: Escape cancels
    /// and Enter confirms with nothing chosen. These are the two plain keys.
    /// The Enter of the number pad, which reports the code of Enter with the
    /// extended flag set, is another key: alone it commits like any key, and
    /// so it can be bound.
    pub open spec fn is_cancel(self) -> bool {
        !self.extended && (self.code == VK_ESCAPE || self.code == VK_RETURN)
    }

    pub fn cancels(&self) -> (b: bool)
        ensures
            b == self.is_cancel(),
    {
        !self.extended && (self.code == VK_ESCAPE || self.code == VK_RETURN)
    }

    pub open spec fn is_modifier(self) -> bool {
        modifier_rank(self.code) < 4
    }

    pub fn modifier(&self) -> (b: bool)
        ensures
            b == self.is_modifier(),
    {
        self.rank() < 4
    }

    fn rank(&self) -> (r: u64)
        ensures
            r == modifier_rank(self.code),
    {
        let code: u32 = self.code;
        if code == VK_CONTROL || code == VK_LCONTROL || code == VK_RCONTROL {
            0
        } else if code == VK_MENU || code == VK_LMENU || code == VK_RMENU {
            1
        } else if code == VK_SHIFT || code == VK_LSHIFT || code == VK_RSHIFT {
            2
        } else if code == VK_LWIN || code == VK_RWIN {
            3
        } else {
            4
        }
    }

    /// The place of the key in the fixed order in which a chord lists its
    /// keys: modifiers first, by rank; within a rank by code; a plain key
    /// before the extended key of the same code.
    pub open spec fn order_value(self) -> int {
        modifier_rank(self.code) * 0x2_0000_0000 + self.code * 2 + if self.extended {
            1int
        } else {
            0int
        }
    }

    pub fn order(&self) -> (v: u64)
        ensures
            v == self.order_value(),
    {
        let low: u64 = if self.extended {
            1
        } else {
            0
        };
        self.rank() * 0x2_0000_0000 + (self.code as u64) * 2 + low
    }

    /// Keys at the same place in the order are the same key.
    pub proof fn lemma_order_injective(a: KeyId, b: KeyId)
        requires
            a.order_value() == b.order_value(),
        ensures
            a == b,
    {
    }
}

/// Reads the state word that the system keeps for a key. The first answer
/// says whether the high byte holds anything: the key is down. The second
/// says whether the low byte holds anything: the key is toggled, or was
/// pressed since it was last asked about.
pub fn split_key_state(state: i16) -> (flags: (bool, bool))
    ensures
        flags.0 == (state < 0 || state > 0xFF),
        flags.1 == (state & 0xFF != 0),
{
    let high: i16 = state >> 8;
    assert(high != 0 <==> (state < 0 || state > 0xFF)) by (bit_vector)
        requires
            high == state >> 8,
    ;
    (high != 0, state & 0xFF != 0)
}

} // verus!
