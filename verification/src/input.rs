//! Keyboard state as the guest sees it: one bit per key function, and the
//! bits that changed since the previous poll.

use vstd::prelude::*;

verus! {

/// Number of physical keys that the host reports.
pub const KEY_COUNT: usize = 14;

/// The physical keys that the host reports, in the order of its report.
#[derive(Debug, Clone, Copy, PartialEq, Eq, Structural)]
pub enum Key {
    Escape,
    W,
    A,
    S,
    D,
    Up,
    Left,
    Down,
    Right,
    Space,
    Return,
    KpEnter,
    LShift,
    RShift,
}

/// Position of a key in the host's report.
pub open spec fn position_of(key: Key) -> int {
    match key {
        Key::Escape => 0,
        Key::W => 1,
        Key::A => 2,
        Key::S => 3,
        Key::D => 4,
        Key::Up => 5,
        Key::Left => 6,
        Key::Down => 7,
        Key::Right => 8,
        Key::Space => 9,
        Key::Return => 10,
        Key::KpEnter => 11,
        Key::LShift => 12,
        Key::RShift => 13,
    }
}

/// The bit that stands for the key at `position` of the report. Both enter
/// keys share a bit, and so do both shift keys.
pub open spec fn bit_at(position: int) -> u32 {
    if position <= 10 {
        position as u32
    } else if position == 11 {
        10
    } else {
        11
    }
}

/// The bit that stands for a key.
pub open spec fn bit_of(key: Key) -> u32 {
    bit_at(position_of(key))
}

/// Whether `bit` is set in `mask`.
pub open spec fn bit_set(mask: u32, bit: u32) -> bool {
    (mask >> bit) & 1 == 1
}

/// Whether one of the first `count` keys of the report is held and stands
/// for `bit`.
pub open spec fn held(raw: Seq<bool>, count: int, bit: u32) -> bool {
    exists|i: int| 0 <= i < count && #[trigger] raw[i] && bit_at(i) == bit
}

/// What makes `mask` the pressed-mask of a report: bit `b` is set if and
/// only if a key that stands for `b` is held.
pub open spec fn is_pressed_mask(mask: u32, raw: Seq<bool>) -> bool {
    forall|bit: u32| bit < 32 ==> (#[trigger] bit_set(mask, bit) <==> held(raw, KEY_COUNT as int, bit))
}

/// The key at a position of the host's report.
pub fn key_at(position: usize) -> (key: Key)
    requires
        position < KEY_COUNT,
    ensures
        position_of(key) == position,
{
    match position {
        0 => Key::Escape,
        1 => Key::W,
        2 => Key::A,
        3 => Key::S,
        4 => Key::D,
        5 => Key::Up,
        6 => Key::Left,
        7 => Key::Down,
        8 => Key::Right,
        9 => Key::Space,
        10 => Key::Return,
        11 => Key::KpEnter,
        12 => Key::LShift,
        _ => Key::RShift,
    }
}

/// The bit that stands for a key.
pub fn key_bit(key: Key) -> (bit: u32)
    ensures
        bit == bit_of(key),
        bit < 12,
{
    match key {
        Key::Escape => 0,
        Key::W => 1,
        Key::A => 2,
        Key::S => 3,
        Key::D => 4,
        Key::Up => 5,
        Key::Left => 6,
        Key::Down => 7,
        Key::Right => 8,
        Key::Space => 9,
        Key::Return => 10,
        Key::KpEnter => 10,
        Key::LShift => 11,
        Key::RShift => 11,
    }
}

/// The pressed-mask of the first `count` keys of a report: the bits of the
/// keys among them that are held.
pub open spec fn pressed_upto(raw: Seq<bool>, count: int) -> u32
    decreases count,
{
    if count <= 0 {
        0
    } else if raw[count - 1] {
        pressed_upto(raw, count - 1) | (1u32 << bit_at(count - 1))
    } else {
        pressed_upto(raw, count - 1)
    }
}

/// The pressed-mask of a report.
pub open spec fn pressed_mask(raw: Seq<bool>) -> u32 {
    pressed_upto(raw, KEY_COUNT as int)
}

/// In the pressed-mask of the first `count` keys, a bit is set if and only
/// if one of these keys is held and stands for it.
pub proof fn lemma_pressed_upto(raw: Seq<bool>, count: int)
    requires
        0 <= count <= KEY_COUNT,
    ensures
        forall|bit: u32|
            bit < 32 ==> (#[trigger] bit_set(pressed_upto(raw, count), bit) <==> held(
                raw,
                count,
                bit,
            )),
    decreases count,
{
    if count == 0 {
        assert forall|bit: u32| bit < 32 implies !#[trigger] bit_set(0, bit) by {
            assert((0u32 >> bit) & 1 == 0) by (bit_vector);
        }
    } else {
        lemma_pressed_upto(raw, count - 1);
        let before = pressed_upto(raw, count - 1);
        let shift = bit_at(count - 1);
        assert forall|bit: u32| bit < 32 implies (#[trigger] bit_set(
            pressed_upto(raw, count),
            bit,
        ) <==> held(raw, count, bit)) by {
            if raw[count - 1] {
                assert(bit_set(before | (1u32 << shift), bit) <==> (bit_set(before, bit) || bit
                    == shift)) by (bit_vector)
                    requires
                        shift < 32,
                        bit < 32,
                ;
            }
            if held(raw, count, bit) {
                let w = choose|w: int| 0 <= w < count && #[trigger] raw[w] && bit_at(w) == bit;
                if w < count - 1 {
                    assert(held(raw, count - 1, bit));
                }
            }
            if held(raw, count - 1, bit) {
                let w = choose|w: int| 0 <= w < count - 1 && #[trigger] raw[w] && bit_at(w) == bit;
                assert(0 <= w < count && raw[w] && bit_at(w) == bit);
            }
            if raw[count - 1] && bit == shift {
                assert(0 <= count - 1 < count && raw[count - 1] && bit_at(count - 1) == bit);
            }
        }
    }
}

/// Folds the host's report, one flag per key in the order of `Key`, into
/// the pressed-mask.
pub fn get_keys_pressed(raw: &[bool; 14]) -> (mask: u32)
    ensures
        mask == pressed_mask(raw@),
        is_pressed_mask(mask, raw@),
{
    let mut val: u32 = 0;
    let mut i: usize = 0;
    while i < KEY_COUNT
        invariant
            i <= KEY_COUNT,
            val == pressed_upto(raw@, i as int),
        decreases KEY_COUNT - i,
    {
        let shift = key_bit(key_at(i));
        if raw[i] {
            val |= 1 << shift;
        }
        i += 1;
    }
    proof {
        lemma_pressed_upto(raw@, KEY_COUNT as int);
    }
    val
}

/// The key state that the guest can query.
#[derive(Debug, Clone, Copy, PartialEq, Eq, Structural)]
pub struct KeyState {
    /// Keys held at the latest poll.
    pub pressed: u32,
    /// Keys held at the latest poll that were not held at the one before.
    pub down: u32,
    /// Keys held at the poll before that are no longer held.
    pub up: u32,
}

/// The key state after a poll that found `current`, where the poll before
/// found `previous`.
pub open spec fn edges(previous: u32, current: u32) -> KeyState {
    KeyState {
        pressed: current,
        down: (previous ^ current) & current,
        up: (previous ^ current) & previous,
    }
}

impl KeyState {
    /// No key held, none changed.
    pub fn new() -> (state: KeyState)
        ensures
            state == (KeyState { pressed: 0, down: 0, up: 0 }),
    {
        KeyState { pressed: 0, down: 0, up: 0 }
    }

    /// The state after a poll that found the pressed-mask `current`.
    pub fn update(&mut self, current: u32)
        ensures
            *final(self) == edges(old(self).pressed, current),
    {
        let previous = self.pressed;
        self.down = (previous ^ current) & current;
        self.up = (previous ^ current) & previous;
        self.pressed = current;
    }
}

/// A key goes down exactly if it is held now and was not before, and up
/// exactly if it was held before and is not now; no key does both, and the
/// two together are the keys that changed.
pub proof fn lemma_edges(previous: u32, current: u32)
    ensures
        edges(previous, current).pressed == current,
        edges(previous, current).down == current & !previous,
        edges(previous, current).up == previous & !current,
        edges(previous, current).down & edges(previous, current).up == 0,
        edges(previous, current).down | edges(previous, current).up == previous ^ current,
        edges(current, current).down == 0,
        edges(current, current).up == 0,
{
    assert((previous ^ current) & current == current & !previous) by (bit_vector);
    assert((previous ^ current) & previous == previous & !current) by (bit_vector);
    assert(((previous ^ current) & current) & ((previous ^ current) & previous) == 0)
        by (bit_vector);
    assert(((previous ^ current) & current) | ((previous ^ current) & previous) == previous
        ^ current) by (bit_vector);
    assert((current ^ current) & current == 0) by (bit_vector);
}

} // verus!
