//! The lines that other programs send over the local event socket.

use crate::command::execution_context::Event;
use vstd::prelude::*;
use vstd::string::StrSliceExecFns;
use vstd::string::StringExecFns;

verus! {

/// Why a line of the event socket yields no event.
#[derive(Debug, Clone, Copy, PartialEq, Eq, Structural)]
pub enum SocketError {
    /// The connection ended before the line did: the client is gone, and
    /// the listener accepts the next one.
    ConnectionAborted,
    /// The line asks the listener to shut down.
    Shutdown,
    /// The line names no event.
    InvalidData,
}

/// Whether `c` is white space: a character with the Unicode property
/// `White_Space`.
pub open spec fn is_white_space(c: char) -> bool {
    let code = c as u32;
    ||| 0x09 <= code <= 0x0D
    ||| code == 0x20
    ||| code == 0x85
    ||| code == 0xA0
    ||| code == 0x1680
    ||| 0x2000 <= code <= 0x200A
    ||| code == 0x2028
    ||| code == 0x2029
    ||| code == 0x202F
    ||| code == 0x205F
    ||| code == 0x3000
}

/// `line` without the white space at its end.
pub open spec fn trimmed_end(line: Seq<char>) -> Seq<char>
    decreases line.len(),
{
    if line.len() > 0 && is_white_space(line.last()) {
        trimmed_end(line.drop_last())
    } else {
        line
    }
}

/// What a line of the event socket means. A line that is empty or does not
/// end in a newline is a connection that broke off. The line `shutdown`
/// ends the listener. Every other line is stripped of the white space at
/// its end and must then name an event.
pub open spec fn line_meaning(line: Seq<char>) -> Result<Event, SocketError> {
    if line.len() == 0 || line.last() != '\n' {
        Err(SocketError::ConnectionAborted)
    } else if line == "shutdown\n"@ {
        Err(SocketError::Shutdown)
    } else {
        match Event::named(trimmed_end(line)) {
            Ok(event) => Ok(event),
            Err(_) => Err(SocketError::InvalidData),
        }
    }
}

fn white_space(c: char) -> (r: bool)
    ensures
        r == is_white_space(c),
{
    let code = c as u32;
    (0x09 <= code && code <= 0x0D) || code == 0x20 || code == 0x85 || code == 0xA0 || code
        == 0x1680 || (0x2000 <= code && code <= 0x200A) || code == 0x2028 || code == 0x2029
        || code == 0x202F || code == 0x205F || code == 0x3000
}

/// Reads the event that `line` asks for; `line` is what was read from the
/// socket up to and including the next newline, or up to the end of the
/// connection.
pub fn read_object(line: &str) -> (r: Result<Event, SocketError>)
    ensures
        r == line_meaning(line@),
{
    let length = line.unicode_len();
    if length == 0 || line.get_char(length - 1) != '\n' {
        return Err(SocketError::ConnectionAborted);
    }
    if <String as StringExecFns>::from_str(line) == <String as StringExecFns>::from_str(
        "shutdown\n",
    ) {
        return Err(SocketError::Shutdown);
    }
    let mut end = length;
    proof {
        assert(line@.take(length as int) =~= line@);
    }
    while end > 0 && white_space(line.get_char(end - 1))
        invariant
            end <= length,
            length == line@.len(),
            trimmed_end(line@) == trimmed_end(line@.take(end as int)),
        decreases end,
    {
        proof {
            assert(line@.take(end as int).drop_last() =~= line@.take(end - 1));
        }
        end -= 1;
    }
    let trimmed = line.substring_char(0, end);
    assert(trimmed@ =~= line@.take(end as int));
    match Event::from_str(trimmed) {
        Ok(event) => Ok(event),
        Err(_) => Err(SocketError::InvalidData),
    }
}

} // verus!
