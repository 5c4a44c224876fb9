use vstd::prelude::*;

verus! {

/// A slot for a shared hardware handle: empty at start, filled once by `install`, never
/// emptied. The slot is public so that an empty cell, `ResourceCell { slot: None }`, can
/// stand in a `static` initializer; every other access goes through the methods.
pub struct ResourceCell<T> {
    pub slot: Option<T>,
}

impl<T> ResourceCell<T> {
    /// The handle held, if any.
    pub open spec fn view(&self) -> Option<T> {
        self.slot
    }

    /// An empty cell.
    pub fn new() -> (r: Self)
        ensures
            r@ is None,
    {
        ResourceCell { slot: None }
    }

    /// Whether a handle has been installed.
    pub fn is_present(&self) -> (r: bool)
        ensures
            r == self@ is Some,
    {
        self.slot.is_some()
    }

    /// Installs `value` into an empty cell. An occupied cell is left as it is and the value
    /// is handed back.
    pub fn install(&mut self, value: T) -> (r: Result<(), T>)
        ensures
            old(self)@ is None ==> r is Ok && final(self)@ == Some(value),
            old(self)@ is Some ==> r == Err::<(), T>(value) && final(self)@ == old(self)@,
    {
        if self.slot.is_some() {
            Err(value)
        } else {
            self.slot = Some(value);
            Ok(())
        }
    }

    /// Mutable access to the installed handle; `None` while the cell is empty.
    pub fn get_mut(&mut self) -> (r: Option<&mut T>)
        ensures
            old(self)@ is None ==> r is None && final(self)@ is None,
            old(self)@ is Some ==> r is Some && *r.unwrap() == old(self)@.unwrap()
                && final(self)@ == Some(*final(r.unwrap())),
    {
        self.slot.as_mut()
    }
}

} // verus!
