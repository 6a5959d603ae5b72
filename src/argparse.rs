//! The command line: which brick, and what to do with it.
use vstd::prelude::*;
use vstd::string::StrSliceExecFns;

verus! {

#[derive(Clone, Copy, Debug, PartialEq, Eq, Structural)]
pub enum PoweredUpMode {
    /// Scan for PoweredUp bricks.
    Scan,
    /// Download a new program.
    Download,
    /// Load new firmware onto the brick.
    Flash,
}

#[derive(Clone, Debug, PartialEq, Eq)]
pub enum RcxMode {
    /// Check whether the RCX is reachable.
    Ping,
    /// Report ROM and firmware versions.
    Version,
    /// Compile an NQC program to RCX bytecode.
    Compile { file: String },
    /// Download a program to a slot (0-9).
    Program { slot: u8, file: String },
    /// Disassemble an RCX binary.
    Disasm { file: String },
}

#[derive(Clone, Debug, PartialEq, Eq)]
pub enum BrickType {
    /// PoweredUp, Robot Inventor, Spike Prime.
    Pup { mode: PoweredUpMode },
    Ev3,
    Nxt,
    Rcx { mode: RcxMode },
}

#[derive(Clone, Debug, PartialEq, Eq)]
pub struct Args {
    pub brick_type: BrickType,
}

/// Why the command words do not form a command.
#[derive(Clone, Copy, Debug, PartialEq, Eq, Structural)]
pub enum ArgsError {
    /// A command or subcommand is missing.
    MissingCommand,
    /// A word is not one of the commands allowed there.
    UnknownCommand,
    /// A required argument is missing.
    MissingArgument,
    /// More words follow a complete command.
    UnexpectedArgument,
    /// The slot is not a decimal number from 0 to 255.
    InvalidSlot,
}

/// What a command line asks for, with text as character sequences.
pub enum ArgsView {
    Pup(PoweredUpMode),
    Ev3,
    Nxt,
    RcxPing,
    RcxVersion,
    RcxCompile(Seq<char>),
    RcxProgram(u8, Seq<char>),
    RcxDisasm(Seq<char>),
}

impl View for Args {
    type V = ArgsView;

    open spec fn view(&self) -> ArgsView {
        match self.brick_type {
            BrickType::Pup { mode } => ArgsView::Pup(mode),
            BrickType::Ev3 => ArgsView::Ev3,
            BrickType::Nxt => ArgsView::Nxt,
            BrickType::Rcx { mode } => match mode {
                RcxMode::Ping => ArgsView::RcxPing,
                RcxMode::Version => ArgsView::RcxVersion,
                RcxMode::Compile { file } => ArgsView::RcxCompile(file@),
                RcxMode::Program { slot, file } => ArgsView::RcxProgram(slot, file@),
                RcxMode::Disasm { file } => ArgsView::RcxDisasm(file@),
            },
        }
    }
}

pub open spec fn is_digit(c: char) -> bool {
    48 <= (c as u32) <= 57
}

/// The value of a string of decimal digits.
pub open spec fn digits_value(s: Seq<char>) -> nat
    decreases s.len(),
{
    if s.len() == 0 {
        0
    } else {
        digits_value(s.drop_last()) * 10 + ((s.last() as u32) - 48) as nat
    }
}

/// The slot that a word gives: one or more decimal digits, at most 255.
pub open spec fn slot_of(w: Seq<char>) -> Option<u8> {
    if w.len() > 0 && (forall|i: int| 0 <= i < w.len() ==> is_digit(w[i])) && digits_value(w) <= 255 {
        Some(digits_value(w) as u8)
    } else {
        None
    }
}

pub open spec fn pup_mode_of(w: Seq<char>) -> Option<PoweredUpMode> {
    if w == "scan"@ {
        Some(PoweredUpMode::Scan)
    } else if w == "download"@ {
        Some(PoweredUpMode::Download)
    } else if w == "flash"@ {
        Some(PoweredUpMode::Flash)
    } else {
        None
    }
}

/// The `rcx` subcommands: `ping`, `version`, `compile FILE`, `program SLOT FILE`, `disasm FILE`.
pub open spec fn rcx_args(w: Seq<Seq<char>>) -> Result<ArgsView, ArgsError> {
    if w.len() < 2 {
        Err(ArgsError::MissingCommand)
    } else if w[1] == "ping"@ || w[1] == "version"@ {
        if w.len() > 2 {
            Err(ArgsError::UnexpectedArgument)
        } else if w[1] == "ping"@ {
            Ok(ArgsView::RcxPing)
        } else {
            Ok(ArgsView::RcxVersion)
        }
    } else if w[1] == "compile"@ || w[1] == "disasm"@ {
        if w.len() < 3 {
            Err(ArgsError::MissingArgument)
        } else if w.len() > 3 {
            Err(ArgsError::UnexpectedArgument)
        } else if w[1] == "compile"@ {
            Ok(ArgsView::RcxCompile(w[2]))
        } else {
            Ok(ArgsView::RcxDisasm(w[2]))
        }
    } else if w[1] == "program"@ {
        if w.len() < 4 {
            Err(ArgsError::MissingArgument)
        } else if slot_of(w[2]) is None {
            Err(ArgsError::InvalidSlot)
        } else if w.len() > 4 {
            Err(ArgsError::UnexpectedArgument)
        } else {
            Ok(ArgsView::RcxProgram(slot_of(w[2])->Some_0, w[3]))
        }
    } else {
        Err(ArgsError::UnknownCommand)
    }
}

/// The command that the words after the program's name give.
pub open spec fn args_of(w: Seq<Seq<char>>) -> Result<ArgsView, ArgsError> {
    if w.len() == 0 {
        Err(ArgsError::MissingCommand)
    } else if w[0] == "ev3"@ || w[0] == "nxt"@ {
        if w.len() > 1 {
            Err(ArgsError::UnexpectedArgument)
        } else if w[0] == "ev3"@ {
            Ok(ArgsView::Ev3)
        } else {
            Ok(ArgsView::Nxt)
        }
    } else if w[0] == "pup"@ {
        if w.len() < 2 {
            Err(ArgsError::MissingCommand)
        } else if pup_mode_of(w[1]) is None {
            Err(ArgsError::UnknownCommand)
        } else if w.len() > 2 {
            Err(ArgsError::UnexpectedArgument)
        } else {
            Ok(ArgsView::Pup(pup_mode_of(w[1])->Some_0))
        }
    } else if w[0] == "rcx"@ {
        rcx_args(w)
    } else {
        Err(ArgsError::UnknownCommand)
    }
}

pub open spec fn words_view(v: Seq<String>) -> Seq<Seq<char>> {
    v.map_values(|w: String| w@)
}

pub open spec fn args_result_view(r: Result<Args, ArgsError>) -> Result<ArgsView, ArgsError> {
    match r {
        Ok(a) => Ok(a@),
        Err(e) => Err(e),
    }
}

/// Whether `w` is the word `lit`.
fn is_word(w: &String, lit: &str) -> (r: bool)
    ensures
        r == (w@ == lit@),
{
    *w == lit.to_owned()
}

/// The slot that `w` names, if it is one.
fn parse_slot(w: &String) -> (r: Option<u8>)
    ensures
        r == slot_of(w@),
{
    let s = w.as_str();
    let n = s.unicode_len();
    if n == 0 {
        return None;
    }
    let mut acc: u32 = 0;
    let mut i: usize = 0;
    while i < n
        invariant
            n == w@.len(),
            s@ == w@,
            i <= n,
            forall|j: int| 0 <= j < i ==> is_digit(w@[j]),
            acc == if digits_value(w@.take(i as int)) < 256 { digits_value(w@.take(i as int)) } else { 256 },
        decreases n - i,
    {
        let c = s.get_char(i);
        if !((c as u32) >= 48 && (c as u32) <= 57) {
            assert(!is_digit(w@[i as int]));
            return None;
        }
        proof {
            let t = w@.take(i as int + 1);
            assert(t.drop_last() =~= w@.take(i as int));
            assert(t.last() == c);
        }
        let next = acc * 10 + (c as u32 - 48);
        acc = if next > 256 { 256 } else { next };
        i += 1;
    }
    assert(w@.take(i as int) =~= w@);
    if acc > 255 {
        None
    } else {
        Some(acc as u8)
    }
}

/// Reads the command from the words that follow the program's name.
pub fn parse_args(words: &Vec<String>) -> (r: Result<Args, ArgsError>)
    ensures
        args_result_view(r) == args_of(words_view(words@)),
{
    let ghost w = words_view(words@);
    let n = words.len();
    if n == 0 {
        return Err(ArgsError::MissingCommand);
    }
    assert(w[0] == words@[0]@);
    let brick_type = if is_word(&words[0], "ev3") || is_word(&words[0], "nxt") {
        if n > 1 {
            return Err(ArgsError::UnexpectedArgument);
        }
        if is_word(&words[0], "ev3") {
            BrickType::Ev3
        } else {
            BrickType::Nxt
        }
    } else if is_word(&words[0], "pup") {
        if n < 2 {
            return Err(ArgsError::MissingCommand);
        }
        assert(w[1] == words@[1]@);
        let mode = if is_word(&words[1], "scan") {
            PoweredUpMode::Scan
        } else if is_word(&words[1], "download") {
            PoweredUpMode::Download
        } else if is_word(&words[1], "flash") {
            PoweredUpMode::Flash
        } else {
            return Err(ArgsError::UnknownCommand);
        };
        if n > 2 {
            return Err(ArgsError::UnexpectedArgument);
        }
        BrickType::Pup { mode }
    } else if is_word(&words[0], "rcx") {
        if n < 2 {
            return Err(ArgsError::MissingCommand);
        }
        assert(w[1] == words@[1]@);
        let mode = if is_word(&words[1], "ping") || is_word(&words[1], "version") {
            if n > 2 {
                return Err(ArgsError::UnexpectedArgument);
            }
            if is_word(&words[1], "ping") {
                RcxMode::Ping
            } else {
                RcxMode::Version
            }
        } else if is_word(&words[1], "compile") || is_word(&words[1], "disasm") {
            if n < 3 {
                return Err(ArgsError::MissingArgument);
            }
            if n > 3 {
                return Err(ArgsError::UnexpectedArgument);
            }
            assert(w[2] == words@[2]@);
            let file = words[2].clone();
            if is_word(&words[1], "compile") {
                RcxMode::Compile { file }
            } else {
                RcxMode::Disasm { file }
            }
        } else if is_word(&words[1], "program") {
            if n < 4 {
                return Err(ArgsError::MissingArgument);
            }
            assert(w[2] == words@[2]@);
            assert(w[3] == words@[3]@);
            let slot = match parse_slot(&words[2]) {
                Some(s) => s,
                None => return Err(ArgsError::InvalidSlot),
            };
            if n > 4 {
                return Err(ArgsError::UnexpectedArgument);
            }
            RcxMode::Program { slot, file: words[3].clone() }
        } else {
            return Err(ArgsError::UnknownCommand);
        };
        BrickType::Rcx { mode }
    } else {
        return Err(ArgsError::UnknownCommand);
    };
    Ok(Args { brick_type })
}

} // verus!
