//! Button edge detection: each update shifts the current button mask into
//! the previous one, so a button is pressed on the update where its bit
//! rises, held while it stays up and released on the update where it falls.

use vstd::prelude::*;

verus! {

/// The seven buttons; each owns one bit of the button mask, in this order.
#[derive(Clone, Copy, Debug, PartialEq, Eq, Structural)]
pub enum Buttons {
    Back,
    Confirm,
    Left,
    Right,
    Up,
    Down,
    Power,
}

/// Bit position of a button in the mask.
pub open spec fn button_bit(b: Buttons) -> u8 {
    match b {
        Buttons::Back => 0,
        Buttons::Confirm => 1,
        Buttons::Left => 2,
        Buttons::Right => 3,
        Buttons::Up => 4,
        Buttons::Down => 5,
        Buttons::Power => 6,
    }
}

/// Whether bit `k` of a mask is set.
pub open spec fn mask_has(m: u8, k: u8) -> bool {
    (m >> k) & 1u8 == 1u8
}

impl Buttons {
    /// Bit position of this button in the mask.
    pub fn bit(self) -> (r: u8)
        ensures
            r == button_bit(self),
            r < 7,
    {
        match self {
            Buttons::Back => 0,
            Buttons::Confirm => 1,
            Buttons::Left => 2,
            Buttons::Right => 3,
            Buttons::Up => 4,
            Buttons::Down => 5,
            Buttons::Power => 6,
        }
    }
}

/// The button masks of the last two updates.
#[derive(Clone, Copy, Debug)]
pub struct ButtonState {
    current: u8,
    previous: u8,
}

impl ButtonState {
    pub closed spec fn spec_current(&self) -> u8 {
        self.current
    }

    pub closed spec fn spec_previous(&self) -> u8 {
        self.previous
    }

    /// Whether `b` is down now and was down on the previous update.
    pub open spec fn spec_is_held(&self, b: Buttons) -> bool {
        mask_has(self.spec_current(), button_bit(b)) && mask_has(
            self.spec_previous(),
            button_bit(b),
        )
    }

    /// Whether `b` went down on the latest update.
    pub open spec fn spec_is_pressed(&self, b: Buttons) -> bool {
        mask_has(self.spec_current(), button_bit(b)) && !mask_has(
            self.spec_previous(),
            button_bit(b),
        )
    }

    /// Whether `b` went up on the latest update.
    pub open spec fn spec_is_released(&self, b: Buttons) -> bool {
        !mask_has(self.spec_current(), button_bit(b)) && mask_has(
            self.spec_previous(),
            button_bit(b),
        )
    }

    /// No button down, now or before.
    pub fn new() -> (r: Self)
        ensures
            r.spec_current() == 0,
            r.spec_previous() == 0,
    {
        ButtonState { current: 0, previous: 0 }
    }

    /// A state with the given masks, as after two updates.
    pub fn from_masks(previous: u8, current: u8) -> (r: Self)
        ensures
            r.spec_current() == current,
            r.spec_previous() == previous,
    {
        ButtonState { current, previous }
    }

    /// Records a new button mask.
    pub fn update(&mut self, current: u8)
        ensures
            final(self).spec_previous() == old(self).spec_current(),
            final(self).spec_current() == current,
    {
        self.previous = self.current;
        self.current = current;
    }

    fn held(&self) -> (r: u8)
        ensures
            r == self.current & self.previous,
    {
        self.current & self.previous
    }

    fn pressed(&self) -> (r: u8)
        ensures
            r == self.current & !self.previous,
    {
        self.current & !self.previous
    }

    fn released(&self) -> (r: u8)
        ensures
            r == !self.current & self.previous,
    {
        !self.current & self.previous
    }

    pub fn is_held(&self, button: Buttons) -> (r: bool)
        ensures
            r == self.spec_is_held(button),
    {
        let k = button.bit();
        let mask: u8 = 1u8 << k;
        let h = self.held();
        let c = self.current;
        let p = self.previous;
        assert(((c & p) & (1u8 << k) != 0u8) == (((c >> k) & 1u8 == 1u8) && ((p >> k) & 1u8
            == 1u8))) by (bit_vector)
            requires
                k < 7,
        ;
        (h & mask) != 0
    }

    pub fn is_pressed(&self, button: Buttons) -> (r: bool)
        ensures
            r == self.spec_is_pressed(button),
    {
        let k = button.bit();
        let mask: u8 = 1u8 << k;
        let h = self.pressed();
        let c = self.current;
        let p = self.previous;
        assert(((c & !p) & (1u8 << k) != 0u8) == (((c >> k) & 1u8 == 1u8) && !((p >> k) & 1u8
            == 1u8))) by (bit_vector)
            requires
                k < 7,
        ;
        (h & mask) != 0
    }

    pub fn is_released(&self, button: Buttons) -> (r: bool)
        ensures
            r == self.spec_is_released(button),
    {
        let k = button.bit();
        let mask: u8 = 1u8 << k;
        let h = self.released();
        let c = self.current;
        let p = self.previous;
        assert(((!c & p) & (1u8 << k) != 0u8) == (!((c >> k) & 1u8 == 1u8) && ((p >> k) & 1u8
            == 1u8))) by (bit_vector)
            requires
                k < 7,
        ;
        (h & mask) != 0
    }
}

/// At most one of pressed, held and released holds for a button at a time.
pub proof fn lemma_button_edges_exclusive(s: ButtonState, b: Buttons)
    ensures
        !(s.spec_is_pressed(b) && s.spec_is_held(b)),
        !(s.spec_is_pressed(b) && s.spec_is_released(b)),
        !(s.spec_is_held(b) && s.spec_is_released(b)),
{
}

/// After an update with mask `m`, a button counts as pressed exactly when
/// its bit is set in `m` and was clear before, and as held exactly when it
/// is set in both.
pub proof fn lemma_update_press(before: ButtonState, after: ButtonState, m: u8, b: Buttons)
    requires
        after.spec_previous() == before.spec_current(),
        after.spec_current() == m,
    ensures
        after.spec_is_pressed(b) == (mask_has(m, button_bit(b)) && !mask_has(
            before.spec_current(),
            button_bit(b),
        )),
        after.spec_is_held(b) == (mask_has(m, button_bit(b)) && mask_has(
            before.spec_current(),
            button_bit(b),
        )),
{
}

/// Once the same mask has been seen twice in a row, no button is pressed
/// or released.
pub proof fn lemma_repeat_update_steady(s: ButtonState, b: Buttons)
    requires
        s.spec_current() == s.spec_previous(),
    ensures
        !s.spec_is_pressed(b),
        !s.spec_is_released(b),
{
}

} // verus!
