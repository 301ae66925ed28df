//! Cells for the storage that a task's resources live in.

use vstd::prelude::*;

verus! {

/// Storage for one value that is handed out by reference.
pub struct RacyCell<T> {
    value: T,
}

impl<T> View for RacyCell<T> {
    type V = T;

    closed spec fn view(&self) -> T {
        self.value
    }
}

impl<T> RacyCell<T> {
    /// Create a RacyCell
    pub fn new(value: T) -> (cell: Self)
        ensures
            cell@ == value,
    {
        RacyCell { value }
    }

    /// Get `&mut T`
    pub fn get_mut_unchecked(&mut self) -> (value: &mut T)
        ensures
            *value == old(self)@,
            final(self)@ == *final(value),
    {
        &mut self.value
    }

    /// Get `&T`
    pub fn get_unchecked(&self) -> (value: &T)
        ensures
            *value == self@,
    {
        &self.value
    }
}

/// Storage for a value that arrives after the storage was made: empty at
/// first, filled once, and read only after that.
pub struct LateInit<T> {
    value: Option<T>,
}

impl<T> View for LateInit<T> {
    type V = Option<T>;

    closed spec fn view(&self) -> Option<T> {
        self.value
    }
}

impl<T> LateInit<T> {
    /// Storage that holds nothing yet.
    pub fn new() -> (cell: Self)
        ensures
            cell@ is None,
    {
        LateInit { value: None }
    }

    /// Whether the value has arrived.
    pub fn is_init(&self) -> (b: bool)
        ensures
            b == (self@ is Some),
    {
        self.value.is_some()
    }

    /// Fills the storage. It is filled once: a second value is handed back
    /// and the first one stays.
    pub fn init(&mut self, value: T) -> (r: Result<(), T>)
        ensures
            match r {
                Ok(_) => old(self)@ is None && final(self)@ == Some(value),
                Err(back) => old(self)@ is Some && back == value && final(self)@ == old(self)@,
            },
    {
        if self.value.is_some() {
            Err(value)
        } else {
            self.value = Some(value);
            Ok(())
        }
    }

    /// The value, once it has arrived.
    pub fn get(&self) -> (r: Option<&T>)
        ensures
            match r {
                Some(value) => self@ == Some(*value),
                None => self@ is None,
            },
    {
        self.value.as_ref()
    }
}

} // verus!
