//! The debugger's command language and the pure arithmetic of breakpoint
//! patching. Reading the command line, tracing the child process and peeking
//! or poking its memory are the caller's system work; what can be decided
//! from plain values is decided here.

use crate::strutil::str_equal;
use vstd::prelude::*;

verus! {

/// A breakpoint: the patched address, and the instruction byte that the trap
/// byte replaced, kept so the instruction can be restored.
#[derive(Clone, Debug)]
pub struct Breakpoint {
    pub addr: usize,
    pub orig_byte: u8,
}

/// One command typed at the debugger prompt.
#[derive(Debug)]
pub enum DebuggerCommand {
    Quit,
    Run(Vec<String>),
    Continue,
    Backtrace,
}

impl DebuggerCommand {
    /// Parse a tokenized command line: the first token picks the command,
    /// the rest are the target's arguments for `Run`. Unknown first tokens
    /// parse to nothing.
    pub fn from_tokens(tokens: &Vec<&str>) -> (r: Option<DebuggerCommand>)
        requires
            tokens@.len() >= 1,
        ensures
            ({
                let toks = tokens.deep_view();
                match r {
                    Some(cmd) => match cmd {
                        DebuggerCommand::Quit => toks[0] == "q"@ || toks[0] == "quit"@,
                        DebuggerCommand::Run(args) => (toks[0] == "r"@ || toks[0] == "run"@)
                            && args.deep_view() == toks.skip(1),
                        DebuggerCommand::Continue => toks[0] == "c"@ || toks[0] == "cont"@
                            || toks[0] == "continue"@,
                        DebuggerCommand::Backtrace => toks[0] == "bt"@ || toks[0] == "back"@
                            || toks[0] == "backtrace"@,
                    },
                    None => {
                        &&& !(toks[0] == "q"@ || toks[0] == "quit"@)
                        &&& !(toks[0] == "r"@ || toks[0] == "run"@)
                        &&& !(toks[0] == "c"@ || toks[0] == "cont"@ || toks[0] == "continue"@)
                        &&& !(toks[0] == "bt"@ || toks[0] == "back"@ || toks[0] == "backtrace"@)
                    },
                }
            }),
    {
        let t: &str = tokens[0];
        if str_equal(t, "q") || str_equal(t, "quit") {
            Some(DebuggerCommand::Quit)
        } else if str_equal(t, "r") || str_equal(t, "run") {
            let mut args: Vec<String> = Vec::new();
            let mut i: usize = 1;
            while i < tokens.len()
                invariant
                    1 <= i <= tokens@.len(),
                    args@.len() == i - 1,
                    args.deep_view() =~= tokens.deep_view().subrange(1, i as int),
                decreases tokens@.len() - i,
            {
                args.push(tokens[i].to_owned());
                proof {
                    let dv = tokens.deep_view();
                    assert(args@.len() == i);
                    assert forall|j: int| 0 <= j < i implies args.deep_view()[j] == dv[j + 1] by {
                        if j < i - 1 {
                            assert(args.deep_view()[j] == dv.subrange(1, i as int)[j]);
                        } else {
                            assert(args.deep_view()[j] == tokens@[i as int]@);
                        }
                    }
                    assert(args.deep_view() =~= dv.subrange(1, i as int + 1));
                }
                i += 1;
            }
            proof {
                assert(args.deep_view() =~= tokens.deep_view().skip(1));
            }
            Some(DebuggerCommand::Run(args))
        } else if str_equal(t, "c") || str_equal(t, "cont") || str_equal(t, "continue") {
            Some(DebuggerCommand::Continue)
        } else if str_equal(t, "bt") || str_equal(t, "back") || str_equal(t, "backtrace") {
            Some(DebuggerCommand::Backtrace)
        } else {
            None
        }
    }
}

/// What the prompt loop does about one command, given whether an inferior —
/// the traced child process — is currently running.
pub enum DebuggerAction {
    /// Start the target with these arguments; an inferior already running is
    /// killed first, so that there is only ever one.
    StartTarget { args: Vec<String>, kill_existing: bool },
    /// Wake the stopped inferior up and let it run on.
    Resume,
    /// There is nothing to resume: tell the user instead.
    ReportNoInferior,
    /// Walk the inferior's stack and print it.
    ShowBacktrace,
    /// Leave, first killing the inferior if one is running.
    Exit { kill_existing: bool },
}

/// The prompt loop's decision table: what each command means in the current
/// state. Running the action — spawning, tracing, killing — is the caller's
/// system work.
pub fn dispatch_command(cmd: DebuggerCommand, has_inferior: bool) -> (a: DebuggerAction)
    ensures
        match cmd {
            DebuggerCommand::Run(args) => a == (DebuggerAction::StartTarget {
                args,
                kill_existing: has_inferior,
            }),
            DebuggerCommand::Continue => a == (if has_inferior {
                DebuggerAction::Resume
            } else {
                DebuggerAction::ReportNoInferior
            }),
            DebuggerCommand::Backtrace => a == DebuggerAction::ShowBacktrace,
            DebuggerCommand::Quit => a == (DebuggerAction::Exit { kill_existing: has_inferior }),
        },
{
    match cmd {
        DebuggerCommand::Run(args) => DebuggerAction::StartTarget {
            args,
            kill_existing: has_inferior,
        },
        DebuggerCommand::Continue => {
            if has_inferior {
                DebuggerAction::Resume
            } else {
                DebuggerAction::ReportNoInferior
            }
        },
        DebuggerCommand::Backtrace => DebuggerAction::ShowBacktrace,
        DebuggerCommand::Quit => DebuggerAction::Exit { kill_existing: has_inferior },
    }
}

/// Bytes per machine word of the traced process: addresses are aligned down
/// to this grain before a word is peeked or poked.
pub const WORD_SIZE: usize = 8;

/// Align an address down to the start of its word.
pub fn align_addr_to_word(addr: usize) -> (r: usize)
    ensures
        r == addr as int - addr as int % (WORD_SIZE as int),
        r as int % (WORD_SIZE as int) == 0,
        r <= addr,
{
    addr / WORD_SIZE * WORD_SIZE
}

/// The byte of `word` at little-endian byte position `k`.
pub open spec fn byte_of(word: u64, k: u64) -> u64 {
    (word >> (8 * k)) & 0xff
}

/// Replace one byte of a word: the pure middle of poking a trap byte into a
/// traced process, between peeking the word and poking it back. Returns the
/// patched word and the byte it replaced; every other byte is untouched.
pub fn patch_byte_in_word(word: u64, off: usize, val: u8) -> (r: (u64, u8))
    requires
        off < WORD_SIZE,
    ensures
        r.1 as u64 == byte_of(word, off as u64),
        byte_of(r.0, off as u64) == val as u64,
        forall|k: u64| k < 8 && k != off ==> byte_of(r.0, k) == byte_of(word, k),
{
    let off64: u64 = off as u64;
    proof {
        assert((word >> (8 * off64)) & 0xff < 256) by (bit_vector);
    }
    let orig: u8 = ((word >> (8 * off64)) & 0xff) as u8;
    let cleared: u64 = word & !(0xffu64 << (8 * off64));
    let patched: u64 = cleared | ((val as u64) << (8 * off64));
    proof {
        assert(orig as u64 == (word >> (8 * off64)) & 0xff);
        assert(((word & !(0xffu64 << (8 * off64))) | ((val as u64) << (8 * off64))) >> (8 * off64)
            & 0xff == val as u64) by (bit_vector)
            requires
                off64 < 8,
                val < 256,
        ;
        assert forall|k: u64| k < 8 && k != off64 implies byte_of(patched, k) == byte_of(
            word,
            k,
        ) by {
            assert((patched >> (8 * k)) & 0xff == (word >> (8 * k)) & 0xff) by (bit_vector)
                requires
                    off64 < 8,
                    k < 8,
                    k != off64,
                    val < 256,
                    patched == (word & !(0xffu64 << (8 * off64))) | ((val as u64) << (8 * off64)),
            ;
        }
    }
    (patched, orig)
}

} // verus!
