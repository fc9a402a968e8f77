//! Reading a command line typed on the host into a request for the board.

use vstd::prelude::*;
use crate::protocol::{str_equal, Command, Direction, Package};

verus! {

/// Unicode white space, as `char::is_whitespace` classifies it.
pub open spec fn is_ws(c: char) -> bool {
    let u = c as u32;
    ||| u == 0x20
    ||| (0x09 <= u && u <= 0x0d)
    ||| u == 0x85
    ||| u == 0xa0
    ||| u == 0x1680
    ||| (0x2000 <= u && u <= 0x200a)
    ||| u == 0x2028
    ||| u == 0x2029
    ||| u == 0x202f
    ||| u == 0x205f
    ||| u == 0x3000
}

/// Whether `c` is white space.
pub fn is_whitespace(c: char) -> (r: bool)
    ensures
        r == is_ws(c),
{
    let u = c as u32;
    u == 0x20 || (0x09 <= u && u <= 0x0d) || u == 0x85 || u == 0xa0 || u == 0x1680 || (0x2000
        <= u && u <= 0x200a) || u == 0x2028 || u == 0x2029 || u == 0x202f || u == 0x205f || u
        == 0x3000
}

/// The first position at or after `i` that is not white space (or the end).
pub open spec fn skip_ws(s: Seq<char>, i: int) -> int
    decreases s.len() - i,
{
    if i >= s.len() {
        i
    } else if is_ws(s[i]) {
        skip_ws(s, i + 1)
    } else {
        i
    }
}

/// The first position at or after `i` that is white space (or the end).
pub open spec fn word_end(s: Seq<char>, i: int) -> int
    decreases s.len() - i,
{
    if i >= s.len() {
        i
    } else if !is_ws(s[i]) {
        word_end(s, i + 1)
    } else {
        i
    }
}

/// Where the `k`-th white-space separated word starts (the end if there is none).
pub open spec fn word_start(s: Seq<char>, k: nat) -> int
    decreases k,
{
    if k == 0 {
        skip_ws(s, 0)
    } else {
        skip_ws(s, word_end(s, word_start(s, (k - 1) as nat)))
    }
}

/// The `k`-th white-space separated word of `s`, counting from 0.
pub open spec fn word(s: Seq<char>, k: nat) -> Option<Seq<char>> {
    let st = word_start(s, k);
    if st < s.len() {
        Some(s.subrange(st, word_end(s, st)))
    } else {
        None
    }
}

/// What a command line asks for, as the contracts see it.
pub enum RequestView {
    Help,
    Walk(Direction),
    Send(Command),
    InvalidDirection(Seq<char>),
    MissingDirection,
    UnknownCommand(Seq<char>),
    UnknownWithParameter(Seq<char>, Seq<char>),
    NoCommand,
}

/// What a command line asks for.
#[derive(Debug, PartialEq, Eq)]
pub enum Request {
    /// `help`: list the commands.
    Help,
    /// `walk` with a direction.
    Walk(Direction),
    /// `step`, `switch`, `reset` or `exit`, without parameter.
    Send(Command),
    /// `walk` with a word that names no direction.
    InvalidDirection(String),
    /// `walk` without a direction.
    MissingDirection,
    /// Another word, without parameter.
    UnknownCommand(String),
    /// Another command with a parameter, or a command that takes none with one.
    UnknownWithParameter(String, String),
    /// A line without any word.
    NoCommand,
}

impl View for Request {
    type V = RequestView;

    open spec fn view(&self) -> RequestView {
        match self {
            Request::Help => RequestView::Help,
            Request::Walk(d) => RequestView::Walk(*d),
            Request::Send(c) => RequestView::Send(*c),
            Request::InvalidDirection(w) => RequestView::InvalidDirection(w@),
            Request::MissingDirection => RequestView::MissingDirection,
            Request::UnknownCommand(w) => RequestView::UnknownCommand(w@),
            Request::UnknownWithParameter(c, p) => RequestView::UnknownWithParameter(c@, p@),
            Request::NoCommand => RequestView::NoCommand,
        }
    }
}

/// The command that a word names among those that take no parameter.
pub open spec fn plain_command(w: Seq<char>) -> Option<Command> {
    if w == "step"@ {
        Some(Command::step)
    } else if w == "switch"@ {
        Some(Command::switch)
    } else if w == "reset"@ {
        Some(Command::reset)
    } else if w == "exit"@ {
        Some(Command::exit)
    } else {
        None
    }
}

/// What the line `s` asks for, judged on its first two words.
pub open spec fn request_of(s: Seq<char>) -> RequestView {
    match word(s, 0) {
        None => RequestView::NoCommand,
        Some(c) => match word(s, 1) {
            None => if c == "help"@ {
                RequestView::Help
            } else if c == "walk"@ {
                RequestView::MissingDirection
            } else {
                match plain_command(c) {
                    Some(cmd) => RequestView::Send(cmd),
                    None => RequestView::UnknownCommand(c),
                }
            },
            Some(p) => if c == "walk"@ {
                match Direction::named(p) {
                    Some(d) => RequestView::Walk(d),
                    None => RequestView::InvalidDirection(p),
                }
            } else {
                RequestView::UnknownWithParameter(c, p)
            },
        },
    }
}

/// The package that a request sends to the board, if any.
pub open spec fn package_of(r: RequestView) -> Option<Package> {
    match r {
        RequestView::Walk(d) => Some(Package { command: Command::walk, parameter: Some(d.code()) }),
        RequestView::Send(c) => Some(Package { command: c, parameter: None }),
        _ => None,
    }
}

/// A command line read into a request.
#[derive(Debug, PartialEq, Eq)]
pub struct ParsedInput {
    /// What the line asks for.
    pub request: Request,
    /// Whether the line holds more than two words (the rest is ignored).
    pub too_many_arguments: bool,
}

impl Request {
    /// The package this request sends to the board, if any.
    pub fn package(&self) -> (p: Option<Package>)
        ensures
            p == package_of(self@),
    {
        match self {
            Request::Walk(d) => Some(Package { command: Command::walk, parameter: Some(d.to_u8()) }),
            Request::Send(c) => Some(Package { command: *c, parameter: None }),
            _ => None,
        }
    }
}

fn skip_whitespace(s: &str, len: usize, from: usize) -> (r: usize)
    requires
        len == s@.len(),
        from <= len,
    ensures
        r == skip_ws(s@, from as int),
        from <= r <= len,
{
    let mut i = from;
    while i < len && is_whitespace(s.get_char(i))
        invariant
            len == s@.len(),
            from <= i <= len,
            skip_ws(s@, i as int) == skip_ws(s@, from as int),
        decreases len - i,
    {
        i = i + 1;
    }
    i
}

fn find_word_end(s: &str, len: usize, from: usize) -> (r: usize)
    requires
        len == s@.len(),
        from <= len,
    ensures
        r == word_end(s@, from as int),
        from <= r <= len,
{
    let mut i = from;
    while i < len && !is_whitespace(s.get_char(i))
        invariant
            len == s@.len(),
            from <= i <= len,
            word_end(s@, i as int) == word_end(s@, from as int),
        decreases len - i,
    {
        i = i + 1;
    }
    i
}

/// Reads a command line: its first word names the command, its second the
/// parameter; words are separated by white space.
pub fn parse_command(input: &str) -> (r: ParsedInput)
    ensures
        r.request@ == request_of(input@),
        r.too_many_arguments == (word(input@, 2) is Some),
{
    let len = input.unicode_len();
    let s0 = skip_whitespace(input, len, 0);
    let e0 = find_word_end(input, len, s0);
    let s1 = skip_whitespace(input, len, e0);
    let e1 = find_word_end(input, len, s1);
    let s2 = skip_whitespace(input, len, e1);
    let too_many_arguments = s2 < len;
    proof {
        reveal_with_fuel(word_start, 3);
    }
    if s0 == len {
        return ParsedInput { request: Request::NoCommand, too_many_arguments };
    }
    let command = input.substring_char(s0, e0);
    let request = if s1 == len {
        if str_equal(command, "help") {
            Request::Help
        } else if str_equal(command, "walk") {
            Request::MissingDirection
        } else if str_equal(command, "step") {
            Request::Send(Command::step)
        } else if str_equal(command, "switch") {
            Request::Send(Command::switch)
        } else if str_equal(command, "reset") {
            Request::Send(Command::reset)
        } else if str_equal(command, "exit") {
            Request::Send(Command::exit)
        } else {
            Request::UnknownCommand(String::from_str(command))
        }
    } else {
        let parameter = input.substring_char(s1, e1);
        if str_equal(command, "walk") {
            match Direction::from_str(parameter) {
                Some(d) => Request::Walk(d),
                None => Request::InvalidDirection(String::from_str(parameter)),
            }
        } else {
            Request::UnknownWithParameter(String::from_str(command), String::from_str(parameter))
        }
    };
    ParsedInput { request, too_many_arguments }
}

/// A line whose only word names a command that takes no parameter sends
/// that command, without parameter; `exit` among them. A line `walk` with a
/// direction sends a walk with the direction's number. `help` and lines that
/// name no command send nothing.
pub proof fn lemma_lines_send_their_command(s: Seq<char>)
    ensures
        word(s, 0) == Some("exit"@) && word(s, 1) is None ==> package_of(request_of(s)) == Some(
            Package { command: Command::exit, parameter: None },
        ),
        word(s, 0) == Some("step"@) && word(s, 1) is None ==> package_of(request_of(s)) == Some(
            Package { command: Command::step, parameter: None },
        ),
        word(s, 0) == Some("switch"@) && word(s, 1) is None ==> package_of(request_of(s))
            == Some(Package { command: Command::switch, parameter: None }),
        word(s, 0) == Some("reset"@) && word(s, 1) is None ==> package_of(request_of(s))
            == Some(Package { command: Command::reset, parameter: None }),
        forall|d: Direction|
            word(s, 0) == Some("walk"@) && word(s, 1) is Some && Direction::named(
                word(s, 1).unwrap(),
            ) == Some(d) ==> #[trigger] package_of(request_of(s)) == Some(
                Package { command: Command::walk, parameter: Some(d.code()) },
            ),
        word(s, 0) == Some("help"@) ==> package_of(request_of(s)) is None,
        word(s, 0) is None ==> package_of(request_of(s)) is None,
{
    reveal_strlit("exit");
    reveal_strlit("step");
    reveal_strlit("switch");
    reveal_strlit("reset");
    reveal_strlit("walk");
    reveal_strlit("help");
    let (exit, step, switch, reset, walk, help) = ("exit"@, "step"@, "switch"@, "reset"@, "walk"@, "help"@);
    assert(exit != help && exit != walk && exit != step && exit != switch && exit != reset) by {
        assert(exit[0] != help[0] && exit[0] != walk[0] && exit[0] != step[0]);
        assert(exit[0] != switch[0] && exit[0] != reset[0]);
    }
    assert(step != help && step != walk) by {
        assert(step[0] != help[0] && step[0] != walk[0]);
    }
    assert(switch != help && switch != walk && switch != step) by {
        assert(switch[0] != help[0] && switch[0] != walk[0] && switch.len() != step.len());
    }
    assert(reset != help && reset != walk && reset != step && reset != switch) by {
        assert(reset[0] != help[0] && reset[0] != walk[0] && reset[0] != step[0]);
        assert(reset[0] != switch[0]);
    }
    assert(help != walk) by {
        assert(help[0] != walk[0]);
    }
}

} // verus!
