//! The look of a log record on the screen: the level in a colour of its own
//! between brackets, then the message.

use vstd::prelude::*;
use vstd::string::StrSliceExecFns;
use crate::colour::{Colour, ColourCode};
use crate::renderer::{supported, DebugRenderer, RendererState};

verus! {

/// The severity of a log record.
#[derive(Debug, Clone, Copy, PartialEq, Eq, Structural)]
pub enum Level {
    Error,
    Warn,
    Info,
    Debug,
    Trace,
}

/// The word of the colour in which a level is written.
pub open spec fn level_colour_value(level: Level) -> u32 {
    match level {
        Level::Error => 0xFF0000,
        Level::Warn => 0xDEDB18,
        Level::Info => 0x21AD11,
        Level::Debug => 0x116AAD,
        Level::Trace => 0x4F524E,
    }
}

/// The name of a level as it is written.
pub open spec fn level_name(level: Level) -> Seq<char> {
    match level {
        Level::Error => "ERROR"@,
        Level::Warn => "WARN"@,
        Level::Info => "INFO"@,
        Level::Debug => "DEBUG"@,
        Level::Trace => "TRACE"@,
    }
}

/// The colour in which a level is written.
pub fn level_colour(level: Level) -> (colour: Colour)
    ensures
        colour == Colour::of(level_colour_value(level)),
{
    match level {
        Level::Error => Colour::from_hex(0xFF0000),
        Level::Warn => Colour::from_hex(0xDEDB18),
        Level::Info => Colour::from_hex(0x21AD11),
        Level::Debug => Colour::from_hex(0x116AAD),
        Level::Trace => Colour::from_hex(0x4F524E),
    }
}

/// The name of a level as it is written.
pub fn level_label(level: Level) -> (label: &'static str)
    ensures
        label@ == level_name(level),
        label@.len() <= 5,
{
    proof {
        reveal_strlit("ERROR");
        reveal_strlit("WARN");
        reveal_strlit("INFO");
        reveal_strlit("DEBUG");
        reveal_strlit("TRACE");
    }
    match level {
        Level::Error => "ERROR",
        Level::Warn => "WARN",
        Level::Info => "INFO",
        Level::Debug => "DEBUG",
        Level::Trace => "TRACE",
    }
}

/// Whether the renderer can write every character.
pub open spec fn all_supported(characters: Seq<char>) -> bool {
    forall|i: int| 0 <= i < characters.len() ==> supported(#[trigger] characters[i])
}

/// White on black: the colours of a log record but for the name of its level.
pub open spec fn plain_colours() -> ColourCode {
    ColourCode::of(Colour::of(0xFFFFFF), Colour::of(0x000000))
}

/// The screen after a log record: `[ `, the name of the level, ` ]    - `,
/// the message and a line feed, all in white on black but for the name of the
/// level, which has the colour of the level. The renderer is left with white
/// on black.
pub open spec fn logged(before: RendererState, level: Level, message: Seq<char>) -> RendererState {
    let opened = RendererState { colour: plain_colours(), ..before }.write_chars("[ "@);
    let named = RendererState {
        colour: ColourCode::of(Colour::of(level_colour_value(level)), Colour::of(0x000000)),
        ..opened
    }.write_chars(level_name(level));
    RendererState { colour: plain_colours(), ..named }.write_chars(" ]    - "@).write_chars(
        message,
    ).write_chars("\n"@)
}

/// Writes a log record to the screen, and returns whether all of it was
/// written. Writing stops at the first character that the renderer cannot write.
pub fn lightsaber_log(renderer: &mut DebugRenderer, level: Level, message: &str) -> (complete: bool)
    requires
        old(renderer)@.wf(),
        old(renderer)@.y_position + 16 * (message@.len() + 16) <= u64::MAX,
    ensures
        final(renderer)@.wf(),
        complete == (all_supported("[ "@) && all_supported(level_name(level)) && all_supported(
            " ]    - "@,
        ) && all_supported(message@) && all_supported("\n"@)),
        complete ==> final(renderer)@ == logged(old(renderer)@, level, message@),
{
    proof {
        reveal_strlit("[ ");
        reveal_strlit(" ]    - ");
        reveal_strlit("\n");
    }
    renderer.set_colour_code(ColourCode::new(Colour::white(), Colour::black()));
    if !write_all(renderer, "[ ") {
        return false;
    }
    renderer.set_colour_code(ColourCode::new(level_colour(level), Colour::black()));
    if !write_all(renderer, level_label(level)) {
        return false;
    }
    renderer.set_colour_code(ColourCode::new(Colour::white(), Colour::black()));
    if !write_all(renderer, " ]    - ") {
        return false;
    }
    if !write_all(renderer, message) {
        return false;
    }
    write_all(renderer, "\n")
}

/// Writes a string and returns whether all of it was written.
fn write_all(renderer: &mut DebugRenderer, string: &str) -> (complete: bool)
    requires
        old(renderer)@.wf(),
        old(renderer)@.y_position + 16 * string@.len() <= u64::MAX,
    ensures
        final(renderer)@.wf(),
        final(renderer)@.y_position <= old(renderer)@.y_position + 16 * string@.len(),
        complete == all_supported(string@),
        complete ==> final(renderer)@ == old(renderer)@.write_chars(string@),
{
    let written: usize = renderer.write_str(string);
    let complete: bool = written == string.unicode_len();
    proof {
        if complete {
            assert(string@.take(written as int) == string@);
        }
    }
    complete
}

} // verus!
