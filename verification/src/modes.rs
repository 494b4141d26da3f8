//! The raw-mode recipe, as plain bit masks: what it changes in a terminal's
//! attributes, and whether a terminal still matches it.
//!
//! The bit values of a Unix terminal differ from platform to platform, so
//! [`RawMasks`] holds them; those of a Windows console are fixed.
use vstd::prelude::*;

verus! {

/// The raw-mode-relevant part of a Unix terminal's attributes.
#[derive(Debug, Clone, Copy, PartialEq, Eq, Structural)]
pub struct Termios {
    /// Input flags.
    pub input: u64,
    /// Local flags.
    pub local: u64,
    /// Bytes that a read waits for.
    pub min: u8,
    /// Tenths of a second that a read waits.
    pub time: u8,
}

/// The flags that raw mode clears, on this platform.
#[derive(Debug, Clone, Copy, PartialEq, Eq, Structural)]
pub struct RawMasks {
    /// Input: flow control, CR/NL mangling, and 7-bit stripping.
    pub input: u64,
    /// Local: canonical mode, echo, signals, and literal-next.
    pub local: u64,
    /// Local: echo alone.
    pub echo: u64,
}

/// Raw mode.
pub open spec fn raw(t: Termios, masks: RawMasks) -> bool {
    t.input & masks.input == 0 && t.local & masks.local == 0
}

/// The raw-mode recipe: no flow control or CR/NL mangling, no 7-bit stripping,
/// no canonical mode, echo, signals, or literal-next; a read blocks until at
/// least one byte is there, and returns what is queued.
pub fn apply_raw_flags(t: &mut Termios, masks: &RawMasks)
    ensures
        *final(t) == (Termios {
            input: old(t).input & !masks.input,
            local: old(t).local & !masks.local,
            min: 1,
            time: 0,
        }),
{
    t.input = t.input & !masks.input;
    t.local = t.local & !masks.local;
    t.min = 1;
    t.time = 0;
}

/// Whether the attributes still match the recipe: what the idle tick checks to
/// heal the terminal after a stop and continue, or a host command that changed
/// it.
pub fn is_raw(t: &Termios, masks: &RawMasks) -> (r: bool)
    ensures
        r == raw(*t, *masks),
{
    t.input & masks.input == 0 && t.local & masks.local == 0
}

/// Turn terminal echo off.
pub fn clear_echo_flag(t: &mut Termios, masks: &RawMasks)
    ensures
        *final(t) == (Termios { local: old(t).local & !masks.echo, ..*old(t) }),
{
    t.local = t.local & !masks.echo;
}

/// The recipe makes a terminal raw, and keeps every flag that it does not name.
pub proof fn recipe_makes_raw(t: Termios, masks: RawMasks, other: u64)
    requires
        other & masks.input == 0,
        other & masks.local == 0,
    ensures
        raw(
            (Termios { input: t.input & !masks.input, local: t.local & !masks.local, min: 1, time: 0 }),
            masks,
        ),
        (t.input & !masks.input) & other == t.input & other,
        (t.local & !masks.local) & other == t.local & other,
{
    cleared(t.input, masks.input, other);
    cleared(t.local, masks.local, other);
}

proof fn cleared(flags: u64, mask: u64, other: u64)
    by (bit_vector)
    requires
        other & mask == 0,
    ensures
        (flags & !mask) & mask == 0,
        (flags & !mask) & other == flags & other,
{
}

/// A terminal's size as the system reports it, columns and rows, if it makes
/// sense in both dimensions.
pub fn usable_size(cols: u16, rows: u16) -> (r: Option<(u16, u16)>)
    ensures
        r == (if cols > 0 && rows > 0 {
            Some((cols, rows))
        } else {
            None
        }),
{
    if cols > 0 && rows > 0 {
        Some((cols, rows))
    } else {
        None
    }
}

/// The width to paint for: the terminal's, or 80 columns where it is unknown.
pub fn term_cols(size: Option<(u16, u16)>) -> (r: usize)
    ensures
        r == (match size {
            Some((cols, _)) => cols as usize,
            None => 80,
        }),
{
    match size {
        Some((cols, _)) => cols as usize,
        None => 80,
    }
}

/// Console input: Ctrl+C and the like are handled by the system.
pub const ENABLE_PROCESSED_INPUT: u32 = 0x0001;

/// Console input: whole lines are read.
pub const ENABLE_LINE_INPUT: u32 = 0x0002;

/// Console input: what is typed is echoed.
pub const ENABLE_ECHO_INPUT: u32 = 0x0004;

/// Console input: the mouse selects text.
pub const ENABLE_QUICK_EDIT_MODE: u32 = 0x0040;

/// Console input: the extended flags count.
pub const ENABLE_EXTENDED_FLAGS: u32 = 0x0080;

/// Console input: keys arrive as VT sequences.
pub const ENABLE_VIRTUAL_TERMINAL_INPUT: u32 = 0x0200;

/// Console output: VT sequences are interpreted.
pub const ENABLE_VIRTUAL_TERMINAL_PROCESSING: u32 = 0x0004;

/// A Windows console's modes, which are separate for input and output.
#[derive(Debug, Clone, Copy, PartialEq, Eq, Structural)]
pub struct ConsoleModes {
    /// The input mode.
    pub input_mode: u32,
    /// The output mode.
    pub output_mode: u32,
}

/// What the recipe makes of an input mode.
pub open spec fn raw_input(mode: u32) -> u32 {
    ((mode & !(ENABLE_LINE_INPUT | ENABLE_ECHO_INPUT | ENABLE_PROCESSED_INPUT)) | (
    ENABLE_VIRTUAL_TERMINAL_INPUT | ENABLE_EXTENDED_FLAGS)) & !ENABLE_QUICK_EDIT_MODE
}

impl ConsoleModes {
    /// Raw mode: no line buffering, echo, or handling of Ctrl+C, and VT
    /// sequences both ways.
    pub open spec fn raw(self) -> bool {
        &&& self.input_mode & (ENABLE_LINE_INPUT | ENABLE_ECHO_INPUT | ENABLE_PROCESSED_INPUT) == 0
        &&& self.input_mode & ENABLE_VIRTUAL_TERMINAL_INPUT != 0
        &&& self.output_mode & ENABLE_VIRTUAL_TERMINAL_PROCESSING != 0
    }

    /// The raw-mode recipe; the mouse selection of the console goes off too,
    /// and output stays cooked otherwise.
    pub fn apply_raw_flags(&mut self)
        ensures
            final(self).input_mode == raw_input(old(self).input_mode),
            final(self).output_mode == old(self).output_mode | ENABLE_VIRTUAL_TERMINAL_PROCESSING,
            final(self).raw(),
    {
        self.input_mode = self.input_mode & !(ENABLE_LINE_INPUT | ENABLE_ECHO_INPUT
            | ENABLE_PROCESSED_INPUT);
        self.input_mode = self.input_mode | (ENABLE_VIRTUAL_TERMINAL_INPUT | ENABLE_EXTENDED_FLAGS);
        self.input_mode = self.input_mode & !ENABLE_QUICK_EDIT_MODE;
        self.output_mode = self.output_mode | ENABLE_VIRTUAL_TERMINAL_PROCESSING;
        proof {
            recipe_makes_console_raw(old(self).input_mode, old(self).output_mode);
        }
    }

    /// Whether the modes still match the recipe.
    pub fn is_raw(&self) -> (r: bool)
        ensures
            r == self.raw(),
    {
        self.input_mode & (ENABLE_LINE_INPUT | ENABLE_ECHO_INPUT | ENABLE_PROCESSED_INPUT) == 0
            && self.input_mode & ENABLE_VIRTUAL_TERMINAL_INPUT != 0 && self.output_mode
            & ENABLE_VIRTUAL_TERMINAL_PROCESSING != 0
    }

    /// Turn console echo off.
    pub fn clear_echo_flag(&mut self)
        ensures
            *final(self) == (ConsoleModes {
                input_mode: old(self).input_mode & !ENABLE_ECHO_INPUT,
                ..*old(self)
            }),
    {
        self.input_mode = self.input_mode & !ENABLE_ECHO_INPUT;
    }
}

proof fn recipe_makes_console_raw(input: u32, output: u32)
    by (bit_vector)
    ensures
        raw_input(input) & (ENABLE_LINE_INPUT | ENABLE_ECHO_INPUT | ENABLE_PROCESSED_INPUT) == 0,
        raw_input(input) & ENABLE_VIRTUAL_TERMINAL_INPUT != 0,
        (output | ENABLE_VIRTUAL_TERMINAL_PROCESSING) & ENABLE_VIRTUAL_TERMINAL_PROCESSING != 0,
{
}

} // verus!
