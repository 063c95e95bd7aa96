use vstd::prelude::*;

verus! {

/// The console method that a script invoked.
#[derive(Debug, Clone, Copy, PartialEq, Eq, Structural, PartialOrd, Ord, Hash)]
pub enum ConsoleFunc {
    Assert,
    Log,
    Debug,
    Trace,
    Info,
    Warn,
    Error,
    Exception,
    Dir,
}

/// The severity at which a console message is reported to the host.
#[derive(Debug, Clone, Copy, PartialEq, Eq, Structural, PartialOrd, Ord, Hash)]
pub enum ConsoleLevel {
    Error,
    Warn,
    Info,
    Debug,
    Trace,
}

impl ConsoleFunc {
    pub open spec fn spec_level(self) -> ConsoleLevel {
        match self {
            ConsoleFunc::Assert => ConsoleLevel::Error,
            ConsoleFunc::Log => ConsoleLevel::Debug,
            ConsoleFunc::Debug => ConsoleLevel::Debug,
            ConsoleFunc::Trace => ConsoleLevel::Trace,
            ConsoleFunc::Info => ConsoleLevel::Info,
            ConsoleFunc::Warn => ConsoleLevel::Warn,
            ConsoleFunc::Error => ConsoleLevel::Error,
            ConsoleFunc::Exception => ConsoleLevel::Error,
            ConsoleFunc::Dir => ConsoleLevel::Debug,
        }
    }

    /// The severity at which messages of this console method are reported.
    pub fn level(&self) -> (r: ConsoleLevel)
        ensures
            r == self.spec_level(),
    {
        match *self {
            ConsoleFunc::Assert => ConsoleLevel::Error,
            ConsoleFunc::Log => ConsoleLevel::Debug,
            ConsoleFunc::Debug => ConsoleLevel::Debug,
            ConsoleFunc::Trace => ConsoleLevel::Trace,
            ConsoleFunc::Info => ConsoleLevel::Info,
            ConsoleFunc::Warn => ConsoleLevel::Warn,
            ConsoleFunc::Error => ConsoleLevel::Error,
            ConsoleFunc::Exception => ConsoleLevel::Error,
            ConsoleFunc::Dir => ConsoleLevel::Debug,
        }
    }

    /// The wire code of this console method (1 for `Assert` up to 9 for `Dir`).
    pub open spec fn spec_code(self) -> u32 {
        match self {
            ConsoleFunc::Assert => 1,
            ConsoleFunc::Log => 2,
            ConsoleFunc::Debug => 3,
            ConsoleFunc::Trace => 4,
            ConsoleFunc::Info => 5,
            ConsoleFunc::Warn => 6,
            ConsoleFunc::Error => 7,
            ConsoleFunc::Exception => 8,
            ConsoleFunc::Dir => 9,
        }
    }

    pub open spec fn spec_from_code(value: u32) -> ConsoleFunc {
        if value == 1 {
            ConsoleFunc::Assert
        } else if value == 3 {
            ConsoleFunc::Debug
        } else if value == 4 {
            ConsoleFunc::Trace
        } else if value == 5 {
            ConsoleFunc::Info
        } else if value == 6 {
            ConsoleFunc::Warn
        } else if value == 7 {
            ConsoleFunc::Error
        } else if value == 8 {
            ConsoleFunc::Exception
        } else if value == 9 {
            ConsoleFunc::Dir
        } else {
            ConsoleFunc::Log
        }
    }

    /// The wire code of this console method.
    pub fn code(&self) -> (r: u32)
        ensures
            r == self.spec_code(),
            ConsoleFunc::spec_from_code(r) == *self,
    {
        match *self {
            ConsoleFunc::Assert => 1,
            ConsoleFunc::Log => 2,
            ConsoleFunc::Debug => 3,
            ConsoleFunc::Trace => 4,
            ConsoleFunc::Info => 5,
            ConsoleFunc::Warn => 6,
            ConsoleFunc::Error => 7,
            ConsoleFunc::Exception => 8,
            ConsoleFunc::Dir => 9,
        }
    }
}

impl From<u32> for ConsoleFunc {
    /// Decodes a wire code; an unknown code reads as `Log`.
    fn from(value: u32) -> (r: ConsoleFunc) {
        if value == 1 {
            ConsoleFunc::Assert
        } else if value == 3 {
            ConsoleFunc::Debug
        } else if value == 4 {
            ConsoleFunc::Trace
        } else if value == 5 {
            ConsoleFunc::Info
        } else if value == 6 {
            ConsoleFunc::Warn
        } else if value == 7 {
            ConsoleFunc::Error
        } else if value == 8 {
            ConsoleFunc::Exception
        } else if value == 9 {
            ConsoleFunc::Dir
        } else {
            ConsoleFunc::Log
        }
    }
}

impl vstd::std_specs::convert::FromSpecImpl<u32> for ConsoleFunc {
    open spec fn obeys_from_spec() -> bool {
        true
    }

    open spec fn from_spec(value: u32) -> ConsoleFunc {
        ConsoleFunc::spec_from_code(value)
    }
}

} // verus!
