//! Classification of exceptions that reach the kernel's panic path.
use vstd::prelude::*;

verus! {

/// Class code that an unhandled-exception vector passes to the panic
/// path. Only code 1 has a meaning of its own; every other code,
/// including unexpected ones, is the generic class.
#[derive(Copy, Clone, Debug, PartialEq, Eq, Structural)]
pub enum PanicClass {
    /// Sync, FIQ or SError exception, or any unexpected class code.
    Generic,
    /// IRQ taken in a mode other than the kernel's own stack mode.
    UnhandledIrqMode,
}

impl PanicClass {
    /// Decode a class code: 1 is [`PanicClass::UnhandledIrqMode`], any
    /// other value [`PanicClass::Generic`].
    pub fn from_u64(raw: u64) -> (r: PanicClass)
        ensures
            r == (if raw == 1 {
                PanicClass::UnhandledIrqMode
            } else {
                PanicClass::Generic
            }),
    {
        if raw == 1 {
            PanicClass::UnhandledIrqMode
        } else {
            PanicClass::Generic
        }
    }

    /// The description printed for this class.
    pub fn as_str(&self) -> (r: &'static str)
        ensures
            r@ == (match *self {
                PanicClass::Generic => "unhandled-class exception"@,
                PanicClass::UnhandledIrqMode => "IRQ taken from unsupported mode (not curr_el_spx)"@,
            }),
    {
        match self {
            PanicClass::Generic => "unhandled-class exception",
            PanicClass::UnhandledIrqMode => "IRQ taken from unsupported mode (not curr_el_spx)",
        }
    }
}

} // verus!
