//! The commands that a client sends, and the text that each is sent as.
use vstd::prelude::*;
use vstd::string::StringExecFns;
use vstd::utf8::encode_utf8;
use crate::names::{bad_name_char, valid_name};
use crate::parser::is_bad_sieve_name_char;
use crate::types::Error;

verus! {

broadcast use vstd::string::group_string_axioms;

/// The decimal digit that stands for `d`.
pub open spec fn digit_char(d: nat) -> char
    recommends
        d < 10,
{
    if d == 0 {
        '0'
    } else if d == 1 {
        '1'
    } else if d == 2 {
        '2'
    } else if d == 3 {
        '3'
    } else if d == 4 {
        '4'
    } else if d == 5 {
        '5'
    } else if d == 6 {
        '6'
    } else if d == 7 {
        '7'
    } else if d == 8 {
        '8'
    } else {
        '9'
    }
}

/// The decimal form of a number, without leading zeros.
pub open spec fn decimal_text(n: nat) -> Seq<char>
    decreases n,
{
    if n < 10 {
        seq![digit_char(n)]
    } else {
        decimal_text(n / 10).push(digit_char(n % 10))
    }
}

/// A name between double quotes. Nothing in the name is escaped.
pub open spec fn quoted_text(name: Seq<char>) -> Seq<char> {
    seq!['"'] + name + seq!['"']
}

/// A synchronizing literal: the length of the text in bytes between `{` and
/// `+}`, CR LF, and the text itself.
pub open spec fn literal_text(body: Seq<char>) -> Seq<char> {
    seq!['{'] + decimal_text(encode_utf8(body).len()) + seq!['+', '}', '\r', '\n'] + body
}

/// A command that a client sends.
#[derive(Debug, PartialEq, Eq)]
pub enum Command {
    Authenticate,
    StartTls,
    Logout,
    Capability,
    HaveSpace(String, usize),
    PutScript(String, String),
    ListScripts,
    SetActive(String),
    DeleteScript(String),
    RenameScript(String),
    CheckScript(String),
    Noop,
    UnAuthenticate,
}

impl Command {
    /// Every script name in the command is a valid one.
    pub open spec fn wf(&self) -> bool {
        match self {
            Command::HaveSpace(name, _) => valid_name(name@),
            Command::PutScript(name, _) => valid_name(name@),
            Command::SetActive(name) => valid_name(name@),
            Command::DeleteScript(name) => valid_name(name@),
            Command::RenameScript(name) => valid_name(name@),
            Command::CheckScript(name) => valid_name(name@),
            _ => true,
        }
    }

    /// The line that the command is sent as, without the CR LF that ends it.
    pub open spec fn text(&self) -> Seq<char> {
        match self {
            Command::Authenticate => "AUTHENTICATE"@,
            Command::StartTls => "STARTTLS"@,
            Command::Logout => "LOGOUT"@,
            Command::Capability => "CAPABILITY"@,
            Command::HaveSpace(name, size) => "HAVESPACE "@ + quoted_text(name@) + " "@
                + decimal_text(*size as nat),
            Command::PutScript(name, script) => "PUTSCRIPT "@ + quoted_text(name@) + " "@
                + literal_text(script@),
            Command::ListScripts => "LISTSCRIPTS"@,
            Command::SetActive(name) => "SETACTIVE "@ + quoted_text(name@),
            Command::DeleteScript(name) => "DELETESCRIPT "@ + quoted_text(name@),
            Command::RenameScript(name) => "RENAMESCRIPT "@ + quoted_text(name@),
            Command::CheckScript(name) => "CHECKSCRIPT "@ + quoted_text(name@),
            Command::Noop => "NOOP"@,
            Command::UnAuthenticate => "UNAUTHENTICATE"@,
        }
    }

    /// The characters that the command is sent as.
    pub open spec fn wire(&self) -> Seq<char> {
        self.text() + seq!['\r', '\n']
    }

    /// Opens an AUTHENTICATE exchange.
    pub fn authenticate() -> (r: Command)
        ensures
            r == Command::Authenticate,
    {
        Command::Authenticate
    }

    /// Asks the server to switch to TLS.
    pub fn start_tls() -> (r: Command)
        ensures
            r == Command::StartTls,
    {
        Command::StartTls
    }

    /// Ends the session.
    pub fn logout() -> (r: Command)
        ensures
            r == Command::Logout,
    {
        Command::Logout
    }

    /// Asks the server what it supports.
    pub fn capability() -> (r: Command)
        ensures
            r == Command::Capability,
    {
        Command::Capability
    }

    /// Asks whether a script of `size` bytes could be stored under `name`.
    pub fn have_space(name: &str, size: usize) -> (r: Result<Command, Error>)
        ensures
            valid_name(name@) ==> (r matches Ok(Command::HaveSpace(n, s)) && n@ == name@ && s
                == size),
            !valid_name(name@) ==> r == Err::<Command, Error>(Error::InvalidInput),
            r matches Ok(c) ==> c.wf(),
    {
        match to_sieve_name(name) {
            Ok(n) => Ok(Command::HaveSpace(n, size)),
            Err(e) => Err(e),
        }
    }

    /// Stores `script` under `name`.
    pub fn put_script(name: &str, script: &str) -> (r: Result<Command, Error>)
        ensures
            valid_name(name@) ==> (r matches Ok(Command::PutScript(n, s)) && n@ == name@ && s@
                == script@),
            !valid_name(name@) ==> r == Err::<Command, Error>(Error::InvalidInput),
            r matches Ok(c) ==> c.wf(),
    {
        match to_sieve_name(name) {
            Ok(n) => Ok(Command::PutScript(n, script.to_owned())),
            Err(e) => Err(e),
        }
    }

    /// Asks for the names of the scripts.
    pub fn list_scripts() -> (r: Command)
        ensures
            r == Command::ListScripts,
    {
        Command::ListScripts
    }

    /// Makes the script `name` the active one.
    pub fn set_active(name: &str) -> (r: Result<Command, Error>)
        ensures
            valid_name(name@) ==> (r matches Ok(Command::SetActive(n)) && n@ == name@),
            !valid_name(name@) ==> r == Err::<Command, Error>(Error::InvalidInput),
            r matches Ok(c) ==> c.wf(),
    {
        match to_sieve_name(name) {
            Ok(n) => Ok(Command::SetActive(n)),
            Err(e) => Err(e),
        }
    }

    /// Deletes the script `name`.
    pub fn deletescript(name: &str) -> (r: Result<Command, Error>)
        ensures
            valid_name(name@) ==> (r matches Ok(Command::DeleteScript(n)) && n@ == name@),
            !valid_name(name@) ==> r == Err::<Command, Error>(Error::InvalidInput),
            r matches Ok(c) ==> c.wf(),
    {
        match to_sieve_name(name) {
            Ok(n) => Ok(Command::DeleteScript(n)),
            Err(e) => Err(e),
        }
    }

    /// Renames the script `name`.
    pub fn renamescript(name: &str) -> (r: Result<Command, Error>)
        ensures
            valid_name(name@) ==> (r matches Ok(Command::RenameScript(n)) && n@ == name@),
            !valid_name(name@) ==> r == Err::<Command, Error>(Error::InvalidInput),
            r matches Ok(c) ==> c.wf(),
    {
        match to_sieve_name(name) {
            Ok(n) => Ok(Command::RenameScript(n)),
            Err(e) => Err(e),
        }
    }

    /// Has the server check the script `name`.
    pub fn checkscript(name: &str) -> (r: Result<Command, Error>)
        ensures
            valid_name(name@) ==> (r matches Ok(Command::CheckScript(n)) && n@ == name@),
            !valid_name(name@) ==> r == Err::<Command, Error>(Error::InvalidInput),
            r matches Ok(c) ==> c.wf(),
    {
        match to_sieve_name(name) {
            Ok(n) => Ok(Command::CheckScript(n)),
            Err(e) => Err(e),
        }
    }

    /// Does nothing but make the server answer.
    pub fn noop() -> (r: Command)
        ensures
            r == Command::Noop,
    {
        Command::Noop
    }

    /// Returns to the state before AUTHENTICATE.
    pub fn unauthenticate() -> (r: Command)
        ensures
            r == Command::UnAuthenticate,
    {
        Command::UnAuthenticate
    }

    /// The command as it is sent: one line, or for PUTSCRIPT a line and the
    /// script, always ended by CR LF.
    pub fn to_string(&self) -> (r: String)
        ensures
            r@ == self.wire(),
            r@.len() >= 2,
            r@[r@.len() - 2] == '\r',
            r@[r@.len() - 1] == '\n',
    {
        let mut text = match self {
            Command::Authenticate => "AUTHENTICATE".to_owned(),
            Command::StartTls => "STARTTLS".to_owned(),
            Command::Logout => "LOGOUT".to_owned(),
            Command::Capability => "CAPABILITY".to_owned(),
            Command::HaveSpace(name, size) => {
                let mut t = "HAVESPACE ".to_owned();
                t.append(to_qs(name.as_str()).as_str());
                t.append(" ");
                t.append(decimal(*size).as_str());
                t
            },
            Command::PutScript(name, script) => {
                let mut t = "PUTSCRIPT ".to_owned();
                t.append(to_qs(name.as_str()).as_str());
                t.append(" ");
                t.append(to_lit_c2s(script.as_str()).as_str());
                t
            },
            Command::ListScripts => "LISTSCRIPTS".to_owned(),
            Command::SetActive(name) => {
                let mut t = "SETACTIVE ".to_owned();
                t.append(to_qs(name.as_str()).as_str());
                t
            },
            Command::DeleteScript(name) => {
                let mut t = "DELETESCRIPT ".to_owned();
                t.append(to_qs(name.as_str()).as_str());
                t
            },
            Command::RenameScript(name) => {
                let mut t = "RENAMESCRIPT ".to_owned();
                t.append(to_qs(name.as_str()).as_str());
                t
            },
            Command::CheckScript(name) => {
                let mut t = "CHECKSCRIPT ".to_owned();
                t.append(to_qs(name.as_str()).as_str());
                t
            },
            Command::Noop => "NOOP".to_owned(),
            Command::UnAuthenticate => "UNAUTHENTICATE".to_owned(),
        };
        proof {
            reveal_strlit("\r\n");
        }
        text.append("\r\n");
        text
    }
}

/// Checks a script name and makes it the library's own.
pub fn to_sieve_name(s: &str) -> (r: Result<String, Error>)
    ensures
        valid_name(s@) ==> (r matches Ok(name) && name@ == s@),
        !valid_name(s@) ==> r == Err::<String, Error>(Error::InvalidInput),
{
    for c in it: s.chars()
        invariant
            it.seq() == s@,
            forall|j: int| 0 <= j < it.index() ==> !bad_name_char(#[trigger] s@[j]),
    {
        if is_bad_sieve_name_char(c) {
            return Err(Error::InvalidInput);
        }
    }
    Ok(s.to_owned())
}

/// The text of a one-digit number.
fn digit_text(d: usize) -> (r: &'static str)
    requires
        d < 10,
    ensures
        r@ == seq![digit_char(d as nat)],
{
    proof {
        reveal_strlit("0");
        reveal_strlit("1");
        reveal_strlit("2");
        reveal_strlit("3");
        reveal_strlit("4");
        reveal_strlit("5");
        reveal_strlit("6");
        reveal_strlit("7");
        reveal_strlit("8");
        reveal_strlit("9");
    }
    let r = if d == 0 {
        "0"
    } else if d == 1 {
        "1"
    } else if d == 2 {
        "2"
    } else if d == 3 {
        "3"
    } else if d == 4 {
        "4"
    } else if d == 5 {
        "5"
    } else if d == 6 {
        "6"
    } else if d == 7 {
        "7"
    } else if d == 8 {
        "8"
    } else {
        "9"
    };
    r
}

/// Writes a number in decimal.
pub fn decimal(n: usize) -> (r: String)
    ensures
        r@ == decimal_text(n as nat),
    decreases n,
{
    if n < 10 {
        digit_text(n).to_owned()
    } else {
        let mut text = decimal(n / 10);
        text.append(digit_text(n % 10));
        text
    }
}

/// Puts a name between double quotes.
pub fn to_qs(s: &str) -> (r: String)
    ensures
        r@ == quoted_text(s@),
{
    proof {
        reveal_strlit("\"");
    }
    let mut text = "\"".to_owned();
    text.append(s);
    text.append("\"");
    text
}

/// Frames a text as a synchronizing literal.
pub fn to_lit_c2s(s: &str) -> (r: String)
    ensures
        r@ == literal_text(s@),
{
    proof {
        reveal_strlit("{");
        reveal_strlit("+}\r\n");
    }
    let mut text = "{".to_owned();
    let size = decimal(s.as_bytes().len());
    text.append(size.as_str());
    text.append("+}\r\n");
    text.append(s);
    text
}

} // verus!
