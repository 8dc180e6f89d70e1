//! The 16-key input state: one boolean per logical key code 0x0-0xF, set and
//! cleared by the external input source and queried by the instruction engine.

use vstd::prelude::*;

verus! {

/// The lowest-indexed pressed key at or after index `k`, if any.
pub open spec fn lowest_pressed_from(keys: Seq<bool>, k: int) -> Option<u8>
    decreases 16 - k,
{
    if k < 0 || k >= 16 {
        None
    } else if keys[k] {
        Some(k as u8)
    } else {
        lowest_pressed_from(keys, k + 1)
    }
}

/// The lowest-indexed pressed key, if any key is pressed.
pub open spec fn lowest_pressed(keys: Seq<bool>) -> Option<u8> {
    lowest_pressed_from(keys, 0)
}

/// What `lowest_pressed_from` returns: `None` exactly when no key at or after
/// `k` is pressed, otherwise the smallest pressed index at or after `k`.
pub proof fn lemma_lowest_pressed_from(keys: Seq<bool>, k: int)
    requires
        keys.len() == 16,
        0 <= k <= 16,
    ensures
        lowest_pressed_from(keys, k) is None
            ==> forall|t: int| k <= t < 16 ==> !keys[t],
        lowest_pressed_from(keys, k) matches Some(p)
            ==> k <= p < 16 && keys[p as int] && (forall|t: int| k <= t < p ==> !keys[t]),
    decreases 16 - k,
{
    if k < 16 {
        lemma_lowest_pressed_from(keys, k + 1);
    }
}

/// Characterisation of `lowest_pressed`: `None` exactly when no key is
/// pressed, otherwise the smallest pressed key index.
pub proof fn lemma_lowest_pressed(keys: Seq<bool>)
    requires
        keys.len() == 16,
    ensures
        lowest_pressed(keys) is None ==> forall|t: int| 0 <= t < 16 ==> !keys[t],
        lowest_pressed(keys) matches Some(p)
            ==> p < 16 && keys[p as int] && (forall|t: int| 0 <= t < p ==> !keys[t]),
{
    lemma_lowest_pressed_from(keys, 0);
}

/// The 16 key states.  The view is the sequence of 16 booleans; `true` is
/// pressed.
pub struct Keypad {
    keys: Vec<bool>,
}

impl View for Keypad {
    type V = Seq<bool>;

    closed spec fn view(&self) -> Seq<bool> {
        self.keys@
    }
}

impl Keypad {
    /// A keypad with every key released.
    pub fn new() -> (k: Keypad)
        ensures
            k@ == Seq::new(16, |t: int| false),
    {
        let keys = vec![false; 16];
        proof {
            assert forall|t: int| 0 <= t < 16 implies #[trigger] keys@[t] == false by {
                assert(cloned(false, keys@[t]));
            }
            assert(keys@ =~= Seq::new(16, |t: int| false));
        }
        Keypad { keys }
    }

    /// Record that `key` is now pressed or released.
    pub fn set(&mut self, key: u8, pressed: bool)
        requires
            old(self)@.len() == 16,
            key < 16,
        ensures
            final(self)@ == old(self)@.update(key as int, pressed),
    {
        self.keys[key as usize] = pressed;
    }

    /// Whether `key` is currently pressed.
    pub fn is_down(&self, key: u8) -> (down: bool)
        requires
            self@.len() == 16,
            key < 16,
        ensures
            down == self@[key as int],
    {
        self.keys[key as usize]
    }

    /// The lowest-indexed pressed key, or `None` if no key is pressed.
    pub fn any_pressed(&self) -> (r: Option<u8>)
        requires
            self@.len() == 16,
        ensures
            r == lowest_pressed(self@),
    {
        let mut k: usize = 0;
        while k < 16
            invariant
                self@.len() == 16,
                k <= 16,
                lowest_pressed(self@) == lowest_pressed_from(self@, k as int),
            decreases 16 - k,
        {
            if self.keys[k] {
                return Some(k as u8);
            }
            k = k + 1;
        }
        None
    }
}

} // verus!
