//! The commands a client sends, the reply it gets, and the framing of both on the socket.

use vstd::prelude::*;
use crate::color::{is_space, is_space_char};
use crate::geometry::{spec_tag_from_str, Direction, TagId, TagValueError};
use crate::modkey::{ascii_lower, lower_equals};

verus! {

#[derive(Debug, Clone, PartialEq, Eq)]
pub enum TagSubcommand {
    /// Flips a tag's visibility; the last visible tag stays visible.
    Toggle { tag_id: TagId },
    /// Makes a tag the only visible one.
    Switch { tag_id: TagId },
}

#[derive(Debug, Clone, PartialEq, Eq)]
pub enum Destination {
    Tag { tag_id: TagId },
    Monitor(Direction),
}

#[derive(Debug, Clone, Copy, PartialEq, Eq)]
pub enum WindowToggle {
    Float,
}

#[derive(Debug, Clone, PartialEq, Eq)]
pub enum WindowSubcommand {
    Destroy,
    Send(Destination),
    Focus(Direction),
    Shift(Direction),
    Toggle(WindowToggle),
}

#[derive(Debug, Clone, Copy, PartialEq, Eq)]
pub enum LayoutSubcommand {
    Next,
    Prev,
}

#[derive(Debug, Clone, PartialEq, Eq)]
pub enum ConfigSubcommand {
    Print,
    /// Loads the file at `path`, or the file loaded last.
    Load { path: Option<String> },
}

#[derive(Debug, Clone, Copy, PartialEq, Eq)]
pub enum MonitorSubcommand {
    Focus(Direction),
}

#[derive(Debug, Clone, PartialEq, Eq)]
pub enum Command {
    Quit,
    Tag(TagSubcommand),
    Window(WindowSubcommand),
    Layout(LayoutSubcommand),
    Config(ConfigSubcommand),
    Monitor(MonitorSubcommand),
}

/// A reply from the window manager to a client.
#[derive(Debug, Clone, PartialEq, Eq)]
pub struct Reply {
    /// True for success, false for an error.
    pub status: bool,
    pub message: Option<String>,
}

/// Why a framed message could not be read or written.
#[derive(Debug, Clone, Copy, PartialEq, Eq, Structural)]
pub enum FrameError {
    /// The payload is longer than four decimal digits can tell.
    TooLong,
    /// The length header is not four ASCII digits.
    BadHeader,
    /// Fewer bytes follow the header than it announces.
    Truncated,
}

/// The largest payload a frame carries.
pub const MAX_PAYLOAD: usize = 9999;

pub open spec fn is_ascii_digit(b: u8) -> bool {
    48 <= b <= 57
}

/// The four ASCII digits of `n`, zero-padded.
pub open spec fn header_of(n: int) -> Seq<u8> {
    seq![
        (48 + n / 1000) as u8,
        (48 + (n / 100) % 10) as u8,
        (48 + (n / 10) % 10) as u8,
        (48 + n % 10) as u8,
    ]
}

/// The length that a four-byte header gives.
pub open spec fn header_value(h: Seq<u8>) -> int {
    (h[0] - 48) * 1000 + (h[1] - 48) * 100 + (h[2] - 48) * 10 + (h[3] - 48)
}

pub open spec fn valid_header(h: Seq<u8>) -> bool {
    h.len() >= 4 && is_ascii_digit(h[0]) && is_ascii_digit(h[1]) && is_ascii_digit(h[2]) && is_ascii_digit(h[3])
}

/// The frame of a payload: its length in four ASCII digits, then the payload.
pub open spec fn spec_frame(payload: Seq<u8>) -> Seq<u8> {
    header_of(payload.len() as int) + payload
}

/// Frames a payload of at most 9999 bytes.
pub fn frame(payload: &[u8]) -> (r: Result<Vec<u8>, FrameError>)
    ensures
        payload@.len() <= MAX_PAYLOAD ==> (r matches Ok(v) && v@ == spec_frame(payload@)),
        payload@.len() > MAX_PAYLOAD ==> r == Err::<Vec<u8>, FrameError>(FrameError::TooLong),
{
    let n = payload.len();
    if n > MAX_PAYLOAD {
        return Err(FrameError::TooLong);
    }
    let mut v: Vec<u8> = Vec::new();
    v.push((48 + n / 1000) as u8);
    v.push((48 + (n / 100) % 10) as u8);
    v.push((48 + (n / 10) % 10) as u8);
    v.push((48 + n % 10) as u8);
    let mut i: usize = 0;
    while i < n
        invariant
            n == payload@.len(),
            n <= MAX_PAYLOAD,
            i <= n,
            v@ == header_of(n as int) + payload@.take(i as int),
        decreases n - i,
    {
        v.push(payload[i]);
        assert(payload@.take(i as int + 1) =~= payload@.take(i as int).push(payload@[i as int]));
        assert(v@ =~= header_of(n as int) + payload@.take(i as int + 1));
        i = i + 1;
    }
    assert(payload@.take(n as int) =~= payload@);
    Ok(v)
}

/// The payload length a header announces.
pub fn frame_length(header: &[u8]) -> (r: Result<usize, FrameError>)
    ensures
        valid_header(header@) ==> r == Ok::<usize, FrameError>(header_value(header@) as usize),
        !valid_header(header@) ==> r == Err::<usize, FrameError>(FrameError::BadHeader),
{
    if header.len() < 4 {
        return Err(FrameError::BadHeader);
    }
    let (a, b, c, d) = (header[0], header[1], header[2], header[3]);
    if !(48 <= a && a <= 57 && 48 <= b && b <= 57 && 48 <= c && c <= 57 && 48 <= d && d <= 57) {
        return Err(FrameError::BadHeader);
    }
    Ok((a - 48) as usize * 1000 + (b - 48) as usize * 100 + (c - 48) as usize * 10 + (d - 48) as usize)
}

/// The payload of a frame; bytes after it are ignored.
pub fn unframe(msg: &[u8]) -> (r: Result<Vec<u8>, FrameError>)
    ensures
        !valid_header(msg@) ==> r == Err::<Vec<u8>, FrameError>(FrameError::BadHeader),
        valid_header(msg@) && msg@.len() < 4 + header_value(msg@) ==> r == Err::<Vec<u8>, FrameError>(FrameError::Truncated),
        valid_header(msg@) && msg@.len() >= 4 + header_value(msg@) ==> (r matches Ok(v) && v@ == msg@.subrange(4, 4 + header_value(msg@))),
{
    let n = match frame_length(msg) {
        Ok(n) => n,
        Err(e) => {
            return Err(e);
        },
    };
    if msg.len() - 4 < n {
        return Err(FrameError::Truncated);
    }
    let len = msg.len();
    let mut v: Vec<u8> = Vec::new();
    let mut i: usize = 0;
    while i < n
        invariant
            i <= n,
            len == msg@.len(),
            4 + n <= msg@.len(),
            v@ == msg@.subrange(4, 4 + i),
        decreases n - i,
    {
        v.push(msg[4 + i]);
        assert(v@ =~= msg@.subrange(4, 4 + i + 1));
        i = i + 1;
    }
    Ok(v)
}

/// Framing and then reading back gives the payload, for any payload of at most
/// 9999 bytes.
pub proof fn law_frame_round_trip(payload: Seq<u8>)
    requires
        payload.len() <= MAX_PAYLOAD,
    ensures
        valid_header(spec_frame(payload)),
        header_value(spec_frame(payload)) == payload.len(),
        spec_frame(payload).subrange(4, 4 + payload.len() as int) == payload,
{
    let n = payload.len() as int;
    let f = spec_frame(payload);
    assert(f[0] == header_of(n)[0] && f[1] == header_of(n)[1] && f[2] == header_of(n)[2] && f[3] == header_of(n)[3]);
    assert(n / 1000 * 1000 + (n / 100) % 10 * 100 + (n / 10) % 10 * 10 + n % 10 == n) by (nonlinear_arith)
        requires
            0 <= n <= 9999,
    ;
    assert(f.subrange(4, 4 + n) =~= payload);
}

/// The white-space separated words of `s`.
pub open spec fn words(s: Seq<char>) -> Seq<Seq<char>>
    decreases s.len(),
{
    if s.len() == 0 {
        Seq::empty()
    } else {
        let p = words(s.drop_last());
        if is_space(s.last()) {
            p
        } else if s.len() >= 2 && !is_space(s[s.len() - 2]) {
            p.update(p.len() - 1, p.last().push(s.last()))
        } else {
            p.push(seq![s.last()])
        }
    }
}

/// Splits a line into its white-space separated words.
pub fn split_words(s: &str) -> (r: Vec<String>)
    ensures
        r@.map_values(|w: String| w@) == words(s@),
{
    let n = s.unicode_len();
    let mut r: Vec<String> = Vec::new();
    let mut start: usize = 0;
    let mut i: usize = 0;
    while i < n
        invariant
            start <= i <= n,
            n == s@.len(),
            (start < i && !is_space(s@[i - 1])) || (start == i && (i == 0 || is_space(s@[i - 1]))),
            r@.map_values(|w: String| w@) + (if start < i { seq![s@.subrange(start as int, i as int)] } else { Seq::empty() })
                == words(s@.take(i as int)),
        decreases n - i,
    {
        let ghost before = r@.map_values(|w: String| w@);
        let c = s.get_char(i);
        assert(s@.take(i as int + 1).drop_last() =~= s@.take(i as int));
        assert(s@.take(i as int + 1).last() == c);
        if is_space_char(c) {
            if start < i {
                let w = s.substring_char(start, i).to_owned();
                r.push(w);
                assert(r@.map_values(|w: String| w@) =~= before.push(s@.subrange(start as int, i as int)));
                assert(before + seq![s@.subrange(start as int, i as int)] =~= before.push(s@.subrange(start as int, i as int)));
            } else {
                assert(before + Seq::empty() =~= before);
            }
            start = i + 1;
            assert(r@.map_values(|w: String| w@) + Seq::empty() =~= r@.map_values(|w: String| w@));
        } else {
            if start < i {
                assert(s@.take(i as int + 1)[i - 1] == s@[i - 1]);
                assert(s@.subrange(start as int, i as int + 1) =~= s@.subrange(start as int, i as int).push(c));
                let ghost p = before + seq![s@.subrange(start as int, i as int)];
                assert(p.update(p.len() - 1, p.last().push(c)) =~= before + seq![s@.subrange(start as int, i as int + 1)]);
            } else {
                if i > 0 {
                    assert(s@.take(i as int + 1)[i - 1] == s@[i - 1]);
                }
                assert(s@.subrange(i as int, i as int + 1) =~= seq![c]);
                assert(before + Seq::empty() =~= before);
                assert(before.push(seq![c]) =~= before + seq![s@.subrange(i as int, i as int + 1)]);
            }
        }
        i = i + 1;
    }
    let ghost before = r@.map_values(|w: String| w@);
    if start < n {
        let w = s.substring_char(start, n).to_owned();
        r.push(w);
        assert(r@.map_values(|w: String| w@) =~= before + seq![s@.subrange(start as int, n as int)]);
    } else {
        assert(before + Seq::empty() =~= before);
    }
    assert(s@.take(n as int) =~= s@);
    r
}

/// Why a command line could not be read.
#[derive(Debug, Clone, PartialEq, Eq)]
pub enum CommandParseError {
    /// The words form no command.
    Unrecognised,
    /// The tag number is not 1 to 9.
    BadTag(TagValueError),
}

pub open spec fn lower(w: Seq<char>) -> Seq<char> {
    w.map_values(|c: char| ascii_lower(c))
}

/// A direction word: `up` or `down`, in any ASCII case.
pub open spec fn direction_word(w: Seq<char>) -> Option<Direction> {
    if lower(w) == "up"@ {
        Some(Direction::Up)
    } else if lower(w) == "down"@ {
        Some(Direction::Down)
    } else {
        None
    }
}

pub open spec fn tag_word(w: Seq<char>) -> Result<TagId, CommandParseError> {
    match spec_tag_from_str(w) {
        Ok(t) => Ok(t),
        Err(e) => Err(CommandParseError::BadTag(e)),
    }
}

pub open spec fn with_direction(d: Option<Direction>, f: spec_fn(Direction) -> Command) -> Result<Command, CommandParseError> {
    match d {
        Some(d) => Ok(f(d)),
        None => Err(CommandParseError::Unrecognised),
    }
}

/// `config load <path>`: the one command whose last word is kept as written.
pub open spec fn is_load_with_path(w: Seq<Seq<char>>) -> bool {
    w.len() == 3 && lower(w[0]) == "config"@ && lower(w[1]) == "load"@
}

/// The command that a line of words names, keywords read without regard to ASCII
/// case; `config load <path>` is `is_load_with_path`.
pub open spec fn command_of_words(w: Seq<Seq<char>>) -> Result<Command, CommandParseError> {
    let n = w.len();
    let k0 = if n > 0 { lower(w[0]) } else { Seq::empty() };
    let k1 = if n > 1 { lower(w[1]) } else { Seq::empty() };
    let k2 = if n > 2 { lower(w[2]) } else { Seq::empty() };
    if n == 1 && (k0 == "quit"@ || k0 == "exit"@) {
        Ok(Command::Quit)
    } else if n == 3 && k0 == "tag"@ && k1 == "toggle"@ {
        match tag_word(w[2]) {
            Ok(t) => Ok(Command::Tag(TagSubcommand::Toggle { tag_id: t })),
            Err(e) => Err(e),
        }
    } else if n == 3 && k0 == "tag"@ && k1 == "switch"@ {
        match tag_word(w[2]) {
            Ok(t) => Ok(Command::Tag(TagSubcommand::Switch { tag_id: t })),
            Err(e) => Err(e),
        }
    } else if n >= 2 && (k0 == "window"@ || k0 == "win"@) {
        if n == 2 && (k1 == "destroy"@ || k1 == "kill"@) {
            Ok(Command::Window(WindowSubcommand::Destroy))
        } else if n == 4 && k1 == "send"@ && k2 == "tag"@ {
            match tag_word(w[3]) {
                Ok(t) => Ok(Command::Window(WindowSubcommand::Send(Destination::Tag { tag_id: t }))),
                Err(e) => Err(e),
            }
        } else if n == 4 && k1 == "send"@ && k2 == "monitor"@ {
            with_direction(direction_word(w[3]), |d: Direction| Command::Window(WindowSubcommand::Send(Destination::Monitor(d))))
        } else if n == 3 && k1 == "focus"@ {
            with_direction(direction_word(w[2]), |d: Direction| Command::Window(WindowSubcommand::Focus(d)))
        } else if n == 3 && (k1 == "shift"@ || k1 == "move"@) {
            with_direction(direction_word(w[2]), |d: Direction| Command::Window(WindowSubcommand::Shift(d)))
        } else if n == 3 && k1 == "toggle"@ && k2 == "float"@ {
            Ok(Command::Window(WindowSubcommand::Toggle(WindowToggle::Float)))
        } else {
            Err(CommandParseError::Unrecognised)
        }
    } else if n == 2 && k0 == "layout"@ && k1 == "next"@ {
        Ok(Command::Layout(LayoutSubcommand::Next))
    } else if n == 2 && k0 == "layout"@ && (k1 == "prev"@ || k1 == "previous"@) {
        Ok(Command::Layout(LayoutSubcommand::Prev))
    } else if n == 2 && k0 == "config"@ && k1 == "print"@ {
        Ok(Command::Config(ConfigSubcommand::Print))
    } else if n == 2 && k0 == "config"@ && k1 == "load"@ {
        Ok(Command::Config(ConfigSubcommand::Load { path: None }))
    } else if n == 3 && k0 == "monitor"@ && k1 == "focus"@ {
        with_direction(direction_word(w[2]), |d: Direction| Command::Monitor(MonitorSubcommand::Focus(d)))
    } else {
        Err(CommandParseError::Unrecognised)
    }
}

/// The word, lower-cased, is `lit`.
fn word_is(w: &String, lit: &str) -> (r: bool)
    ensures
        r == (lower(w@) == lit@),
{
    let s = w.as_str();
    let n = s.unicode_len();
    let r = lower_equals(s, 0, n, lit);
    assert(s@.subrange(0, n as int) =~= w@);
    r
}

fn direction_of(w: &String) -> (r: Option<Direction>)
    ensures
        r == direction_word(w@),
{
    if word_is(w, "up") {
        Some(Direction::Up)
    } else if word_is(w, "down") {
        Some(Direction::Down)
    } else {
        None
    }
}

fn tag_of(w: &String) -> (r: Result<TagId, CommandParseError>)
    ensures
        r == tag_word(w@),
{
    match TagId::parse(w.as_str()) {
        Ok(t) => Ok(t),
        Err(e) => Err(CommandParseError::BadTag(e)),
    }
}

impl Command {
    /// Reads a command line such as `window shift down` or `tag switch 3`.
    pub fn parse(text: &str) -> (r: Result<Command, CommandParseError>)
        ensures
            is_load_with_path(words(text@)) ==> (r matches Ok(Command::Config(ConfigSubcommand::Load { path: Some(p) }))
                && p@ == words(text@)[2]),
            !is_load_with_path(words(text@)) ==> r == command_of_words(words(text@)),
    {
        let w = split_words(text);
        let ghost ws = w@.map_values(|x: String| x@);
        assert(forall|i: int| 0 <= i < w@.len() ==> #[trigger] ws[i] == w@[i]@);
        let n = w.len();
        let k0q = n > 0 && (word_is(&w[0], "quit") || word_is(&w[0], "exit"));
        if n == 1 && k0q {
            return Ok(Command::Quit);
        }
        if n == 3 && word_is(&w[0], "config") && word_is(&w[1], "load") {
            let p = w[2].clone();
            return Ok(Command::Config(ConfigSubcommand::Load { path: Some(p) }));
        }
        assert(!is_load_with_path(ws));
        if n == 3 && word_is(&w[0], "tag") {
            if word_is(&w[1], "toggle") {
                return match tag_of(&w[2]) {
                    Ok(t) => Ok(Command::Tag(TagSubcommand::Toggle { tag_id: t })),
                    Err(e) => Err(e),
                };
            }
            if word_is(&w[1], "switch") {
                return match tag_of(&w[2]) {
                    Ok(t) => Ok(Command::Tag(TagSubcommand::Switch { tag_id: t })),
                    Err(e) => Err(e),
                };
            }
        }
        if n >= 2 && (word_is(&w[0], "window") || word_is(&w[0], "win")) {
            if n == 2 && (word_is(&w[1], "destroy") || word_is(&w[1], "kill")) {
                return Ok(Command::Window(WindowSubcommand::Destroy));
            }
            if n == 4 && word_is(&w[1], "send") && word_is(&w[2], "tag") {
                return match tag_of(&w[3]) {
                    Ok(t) => Ok(Command::Window(WindowSubcommand::Send(Destination::Tag { tag_id: t }))),
                    Err(e) => Err(e),
                };
            }
            if n == 4 && word_is(&w[1], "send") && word_is(&w[2], "monitor") {
                return match direction_of(&w[3]) {
                    Some(d) => Ok(Command::Window(WindowSubcommand::Send(Destination::Monitor(d)))),
                    None => Err(CommandParseError::Unrecognised),
                };
            }
            if n == 3 && word_is(&w[1], "focus") {
                return match direction_of(&w[2]) {
                    Some(d) => Ok(Command::Window(WindowSubcommand::Focus(d))),
                    None => Err(CommandParseError::Unrecognised),
                };
            }
            if n == 3 && (word_is(&w[1], "shift") || word_is(&w[1], "move")) {
                return match direction_of(&w[2]) {
                    Some(d) => Ok(Command::Window(WindowSubcommand::Shift(d))),
                    None => Err(CommandParseError::Unrecognised),
                };
            }
            if n == 3 && word_is(&w[1], "toggle") && word_is(&w[2], "float") {
                return Ok(Command::Window(WindowSubcommand::Toggle(WindowToggle::Float)));
            }
            return Err(CommandParseError::Unrecognised);
        }
        if n == 2 && word_is(&w[0], "layout") {
            if word_is(&w[1], "next") {
                return Ok(Command::Layout(LayoutSubcommand::Next));
            }
            if word_is(&w[1], "prev") || word_is(&w[1], "previous") {
                return Ok(Command::Layout(LayoutSubcommand::Prev));
            }
        }
        if n >= 2 && n <= 3 && word_is(&w[0], "config") {
            if n == 2 && word_is(&w[1], "print") {
                return Ok(Command::Config(ConfigSubcommand::Print));
            }
            if word_is(&w[1], "load") {
                if n == 2 {
                    return Ok(Command::Config(ConfigSubcommand::Load { path: None }));
                }
            }
        }
        if n == 3 && word_is(&w[0], "monitor") && word_is(&w[1], "focus") {
            return match direction_of(&w[2]) {
                Some(d) => Ok(Command::Monitor(MonitorSubcommand::Focus(d))),
                None => Err(CommandParseError::Unrecognised),
            };
        }
        Err(CommandParseError::Unrecognised)
    }
}

} // verus!
