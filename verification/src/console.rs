//! The remote console: how an operator is admitted (a one-time password
//! shown on the server, answered with a random command token), the command
//! language `name::argument::...`, and the answers to each command.

use vstd::prelude::*;
use vstd::utf8::{decode_utf8, valid_utf8};
use crate::account::{random_below, Account};
use crate::frame::{frame_of, payload_of, string_to_buffer, text_bytes};
use crate::queue::Event;
use crate::session::{fits_frame, frame_views, repeated, signal_frame, text_fits};
use crate::text::{
    decode_text_or, has_sep, join_parts, lemma_split_join, owned, separable, split_parts, text_eq,
    views,
};
use crate::user::account_ids;

verus! {

/// The character of a decimal digit.
pub open spec fn digit_char(d: u8) -> char {
    (48 + d) as char
}

fn digit_text(d: u8) -> (text: &'static str)
    requires
        d < 10,
    ensures
        text@ == seq![digit_char(d)],
{
    proof {
        reveal_strlit("0");
        reveal_strlit("1");
        reveal_strlit("2");
        reveal_strlit("3");
        reveal_strlit("4");
        reveal_strlit("5");
        reveal_strlit("6");
        reveal_strlit("7");
        reveal_strlit("8");
        reveal_strlit("9");
    }
    if d == 0 {
        "0"
    } else if d == 1 {
        "1"
    } else if d == 2 {
        "2"
    } else if d == 3 {
        "3"
    } else if d == 4 {
        "4"
    } else if d == 5 {
        "5"
    } else if d == 6 {
        "6"
    } else if d == 7 {
        "7"
    } else if d == 8 {
        "8"
    } else {
        "9"
    }
}

/// Whether a character is one of the digits 0 to 8.
pub open spec fn is_password_digit(c: char) -> bool {
    exists|d: u8| d < 9 && c == #[trigger] digit_char(d)
}

/// A one-time console password: `length` random digits from 0 to 8.
pub fn admin_password(length: u8) -> (password: String)
    ensures
        password@.len() == length,
        forall|i: int| 0 <= i < password@.len() ==> is_password_digit(#[trigger] password@[i]),
{
    let mut password = owned("");
    proof {
        reveal_strlit("");
    }
    let mut i: u8 = 0;
    while i < length
        invariant
            i <= length,
            password@.len() == i,
            forall|j: int| 0 <= j < password@.len() ==> is_password_digit(#[trigger] password@[j]),
        decreases length - i,
    {
        let d = random_below(9);
        let ghost prev = password@;
        password.append(digit_text(d));
        proof {
            assert(password@ == prev + seq![digit_char(d)]);
            assert(is_password_digit(digit_char(d)));
            assert forall|j: int| 0 <= j < password@.len() implies is_password_digit(
                #[trigger] password@[j],
            ) by {
                if j < prev.len() {
                    assert(password@[j] == prev[j]);
                } else {
                    assert(password@[j] == digit_char(d));
                }
            }
        }
        i = i + 1;
    }
    password
}

/// A console token: 256 random bytes below 255, the first set to one.
pub fn admin_token() -> (token: [u8; 256])
    ensures
        token@[0] == 1,
        forall|i: int| 0 <= i < 256 ==> token@[i] < 255,
{
    let mut token: [u8; 256] = [0u8; 256];
    let mut i: usize = 0;
    while i < 256
        invariant
            i <= 256,
            token@.len() == 256,
            forall|j: int| 0 <= j < 256 ==> token@[j] < 255,
        decreases 256 - i,
    {
        token[i] = random_below(255);
        i = i + 1;
    }
    token[0] = 1;
    token
}

/// What an operator's password frame reads as.
pub open spec fn received_password(frame: Seq<u8>) -> Seq<char> {
    if valid_utf8(payload_of(frame)) {
        decode_utf8(payload_of(frame))
    } else {
        "[INVALID UTF8 ENCODING]"@
    }
}

/// Whether the received password frame holds the console password.
pub fn password_accepted(password: &String, frame: &[u8; 256]) -> (accepted: bool)
    ensures
        accepted == (received_password(frame@) == password@),
{
    let input = decode_text_or(
        crate::frame::frame_payload(frame).as_slice(),
        "[INVALID UTF8 ENCODING]",
    );
    text_eq(input.as_str(), password.as_str())
}

/// The answer to the password: the command token where it was right, else
/// the frame of four zero bytes.
pub open spec fn admission_view(accepted: bool, token: Seq<u8>) -> Seq<u8> {
    if accepted {
        token
    } else {
        frame_of(repeated(0, 4))
    }
}

/// The answer to the password: the command token where it was right, else
/// the frame of four zero bytes.
pub fn admission_reply(accepted: bool, token: &[u8; 256]) -> (reply: [u8; 256])
    ensures
        reply@ == admission_view(accepted, token@),
{
    if accepted {
        *token
    } else {
        signal_frame(0, 4)
    }
}

/// Whether a console header announces a command (eight one bytes).
pub fn is_command_header(header: &[u8; 8]) -> (command: bool)
    ensures
        command == (header@ == repeated(1, 8)),
{
    let mut i: usize = 0;
    while i < 8
        invariant
            i <= 8,
            header@.len() == 8,
            forall|j: int| 0 <= j < i ==> header@[j] == 1,
        decreases 8 - i,
    {
        if header[i] != 1 {
            assert(repeated(1, 8)[i as int] == 1);
            return false;
        }
        i = i + 1;
    }
    assert(header@ =~= repeated(1, 8));
    true
}

/// Whether a received token is the console token, all 256 bytes of it.
pub fn token_matches(token: &[u8; 256], received: &[u8; 256]) -> (matches: bool)
    ensures
        matches == (token@ == received@),
{
    let mut i: usize = 0;
    while i < 256
        invariant
            i <= 256,
            token@.len() == 256,
            received@.len() == 256,
            forall|j: int| 0 <= j < i ==> token@[j] == received@[j],
        decreases 256 - i,
    {
        if token[i] != received[i] {
            return false;
        }
        i = i + 1;
    }
    assert(token@ =~= received@);
    true
}

/// What the console does with one command request.
pub enum ConsoleStep {
    /// The header announces no command: end the session.
    Stop,
    /// The token is not the console token: refuse and end the session.
    Refuse,
    /// The token is right but the instruction is not UTF-8: do nothing.
    Skip,
    /// The token is right: run this instruction.
    Run(String),
}

/// The mathematical content of a console step.
pub enum ConsoleStepView {
    Stop,
    Refuse,
    Skip,
    Run(Seq<char>),
}

impl View for ConsoleStep {
    type V = ConsoleStepView;

    open spec fn view(&self) -> ConsoleStepView {
        match self {
            ConsoleStep::Stop => ConsoleStepView::Stop,
            ConsoleStep::Refuse => ConsoleStepView::Refuse,
            ConsoleStep::Skip => ConsoleStepView::Skip,
            ConsoleStep::Run(t) => ConsoleStepView::Run(t@),
        }
    }
}

/// What the console decides for a request: a command header, the token
/// that came with it, and the instruction frame.
pub open spec fn console_decision(
    console_token: Seq<u8>,
    header: Seq<u8>,
    token: Seq<u8>,
    instruction: Seq<u8>,
) -> ConsoleStepView {
    if header != repeated(1, 8) {
        ConsoleStepView::Stop
    } else if token != console_token {
        ConsoleStepView::Refuse
    } else if valid_utf8(payload_of(instruction)) {
        ConsoleStepView::Run(decode_utf8(payload_of(instruction)))
    } else {
        ConsoleStepView::Skip
    }
}

/// Only a request that carries the console token, after a command header,
/// runs an instruction.
pub proof fn lemma_console_access_control(
    console_token: Seq<u8>,
    header: Seq<u8>,
    token: Seq<u8>,
    instruction: Seq<u8>,
)
    ensures
        console_decision(console_token, header, token, instruction) is Run ==> token
            == console_token && header == repeated(1, 8),
{
}

/// An operator's console session: the one-time password shown on the
/// server and the command token handed out for it.
pub struct ConsoleSession {
    pub token: [u8; 256],
    pub password: String,
}

impl ConsoleSession {
    /// A session with a fresh token and a fresh password of
    /// `password_length` digits.
    pub fn new(password_length: u8) -> (session: ConsoleSession)
        ensures
            session.token@[0] == 1,
            forall|i: int| 0 <= i < 256 ==> session.token@[i] < 255,
            session.password@.len() == password_length,
            forall|i: int|
                0 <= i < session.password@.len() ==> is_password_digit(
                    #[trigger] session.password@[i],
                ),
    {
        let token = admin_token();
        let password = admin_password(password_length);
        ConsoleSession { token, password }
    }

    /// Checks the received password frame: whether it was right, and the
    /// answer to send (the token, or the refusal).
    pub fn check_password(&self, frame: &[u8; 256]) -> (answer: (bool, [u8; 256]))
        ensures
            answer.0 == (received_password(frame@) == self.password@),
            answer.1@ == admission_view(answer.0, self.token@),
    {
        let accepted = password_accepted(&self.password, frame);
        (accepted, admission_reply(accepted, &self.token))
    }

    /// Decides one command request.
    pub fn step(&self, header: &[u8; 8], token: &[u8; 256], instruction: &[u8; 256]) -> (step:
        ConsoleStep)
        ensures
            step@ == console_decision(self.token@, header@, token@, instruction@),
    {
        if !is_command_header(header) {
            return ConsoleStep::Stop;
        }
        if !token_matches(&self.token, token) {
            return ConsoleStep::Refuse;
        }
        match crate::text::decode_text(crate::frame::frame_payload(instruction).as_slice()) {
            Some(text) => ConsoleStep::Run(text),
            None => ConsoleStep::Skip,
        }
    }
}

/// A console command.
pub enum Command {
    /// The empty command: nothing happens.
    Nothing,
    /// `clear`: clear the server's screen.
    Clear,
    /// `exit`: shut the server down.
    Exit,
    /// `save`: store accounts and message boxes.
    Save,
    /// `print::users`: list the account ids.
    PrintUsers,
    /// `users::delete::<id>`.
    DeleteUser(String),
    /// `users::create::<name>::<password>::<id>`.
    CreateUser(String, String, String),
    /// `users::write::<id>::<message>`: a message from the console.
    Write(String, String),
    /// `echo::<text>`: show the text on the server.
    Echo(String),
    /// A known command with missing or unknown arguments.
    Invalid,
    /// An unknown command.
    Unknown,
}

/// The mathematical content of a console command.
pub enum CommandView {
    Nothing,
    Clear,
    Exit,
    Save,
    PrintUsers,
    DeleteUser(Seq<char>),
    CreateUser(Seq<char>, Seq<char>, Seq<char>),
    Write(Seq<char>, Seq<char>),
    Echo(Seq<char>),
    Invalid,
    Unknown,
}

impl View for Command {
    type V = CommandView;

    open spec fn view(&self) -> CommandView {
        match self {
            Command::Nothing => CommandView::Nothing,
            Command::Clear => CommandView::Clear,
            Command::Exit => CommandView::Exit,
            Command::Save => CommandView::Save,
            Command::PrintUsers => CommandView::PrintUsers,
            Command::DeleteUser(id) => CommandView::DeleteUser(id@),
            Command::CreateUser(name, password, id) => CommandView::CreateUser(
                name@,
                password@,
                id@,
            ),
            Command::Write(id, message) => CommandView::Write(id@, message@),
            Command::Echo(text) => CommandView::Echo(text@),
            Command::Invalid => CommandView::Invalid,
            Command::Unknown => CommandView::Unknown,
        }
    }
}

/// Whether the pieces of an instruction name a command that can be read:
/// there is a first piece, and `print` and `users` come with a second one.
pub open spec fn command_defined(parts: Seq<Seq<char>>) -> bool {
    parts.len() >= 1 && !(parts.len() < 2 && (parts[0] == "print"@ || parts[0] == "users"@))
}

/// The command that the pieces of an instruction name.
pub open spec fn command_of(parts: Seq<Seq<char>>) -> CommandView {
    let head = parts[0];
    if head == ""@ {
        CommandView::Nothing
    } else if head == "clear"@ {
        CommandView::Clear
    } else if head == "exit"@ {
        CommandView::Exit
    } else if head == "save"@ {
        CommandView::Save
    } else if head == "print"@ {
        if parts[1] == "users"@ {
            CommandView::PrintUsers
        } else {
            CommandView::Invalid
        }
    } else if head == "users"@ {
        if parts[1] == "delete"@ {
            if parts.len() > 2 {
                CommandView::DeleteUser(parts[2])
            } else {
                CommandView::Invalid
            }
        } else if parts[1] == "create"@ {
            if parts.len() > 4 {
                CommandView::CreateUser(parts[2], parts[3], parts[4])
            } else {
                CommandView::Invalid
            }
        } else if parts[1] == "write"@ {
            if parts.len() > 3 {
                CommandView::Write(parts[2], parts[3])
            } else {
                CommandView::Invalid
            }
        } else {
            CommandView::Invalid
        }
    } else if head == "echo"@ {
        if parts.len() > 1 {
            CommandView::Echo(parts[1])
        } else {
            CommandView::Invalid
        }
    } else {
        CommandView::Unknown
    }
}

/// Whether the pieces of an instruction name a command that can be read.
pub fn is_command_defined(parts: &Vec<String>) -> (defined: bool)
    ensures
        defined == command_defined(views(parts@)),
        parts@.len() >= 1 && parts@[0]@ != "print"@ && parts@[0]@ != "users"@ ==> defined,
        parts@.len() >= 2 ==> defined,
        defined ==> parts@.len() >= 1,
{
    proof {
        if parts@.len() >= 1 {
            assert(views(parts@)[0] == parts@[0]@);
        }
    }
    if parts.len() == 0 {
        return false;
    }
    let head = parts[0].as_str();
    if parts.len() < 2 && (text_eq(head, "print") || text_eq(head, "users")) {
        return false;
    }
    true
}

/// The command that the pieces of an instruction name.
pub fn console_command(parts: &Vec<String>) -> (command: Command)
    requires
        command_defined(views(parts@)),
    ensures
        command@ == command_of(views(parts@)),
{
    let ghost p = views(parts@);
    assert(p[0] == parts@[0]@);
    let head = parts[0].as_str();
    if text_eq(head, "") {
        Command::Nothing
    } else if text_eq(head, "clear") {
        Command::Clear
    } else if text_eq(head, "exit") {
        Command::Exit
    } else if text_eq(head, "save") {
        Command::Save
    } else if text_eq(head, "print") {
        assert(p[1] == parts@[1]@);
        if text_eq(parts[1].as_str(), "users") {
            Command::PrintUsers
        } else {
            Command::Invalid
        }
    } else if text_eq(head, "users") {
        assert(p[1] == parts@[1]@);
        let action = parts[1].as_str();
        if text_eq(action, "delete") {
            if parts.len() > 2 {
                assert(p[2] == parts@[2]@);
                Command::DeleteUser(parts[2].clone())
            } else {
                Command::Invalid
            }
        } else if text_eq(action, "create") {
            if parts.len() > 4 {
                assert(p[2] == parts@[2]@);
                assert(p[3] == parts@[3]@);
                assert(p[4] == parts@[4]@);
                Command::CreateUser(parts[2].clone(), parts[3].clone(), parts[4].clone())
            } else {
                Command::Invalid
            }
        } else if text_eq(action, "write") {
            if parts.len() > 3 {
                assert(p[2] == parts@[2]@);
                assert(p[3] == parts@[3]@);
                Command::Write(parts[2].clone(), parts[3].clone())
            } else {
                Command::Invalid
            }
        } else {
            Command::Invalid
        }
    } else if text_eq(head, "echo") {
        if parts.len() > 1 {
            assert(p[1] == parts@[1]@);
            Command::Echo(parts[1].clone())
        } else {
            Command::Invalid
        }
    } else {
        Command::Unknown
    }
}

proof fn lemma_keywords_separable()
    ensures
        separable("users"@),
        separable("write"@),
        separable("create"@),
        separable("delete"@),
        "users"@ != ""@,
        "users"@ != "clear"@,
        "users"@ != "exit"@,
        "users"@ != "save"@,
        "users"@ != "print"@,
        "write"@ != "delete"@,
        "write"@ != "create"@,
        "create"@ != "delete"@,
{
    reveal_strlit("users");
    reveal_strlit("write");
    reveal_strlit("create");
    reveal_strlit("delete");
    reveal_strlit("");
    reveal_strlit("clear");
    reveal_strlit("exit");
    reveal_strlit("save");
    reveal_strlit("print");
    assert("users"@[0] != "clear"@[0]);
    assert("users"@.len() != "exit"@.len());
    assert("users"@.len() != "save"@.len());
    assert("users"@[0] != "print"@[0]);
    assert("write"@.len() != "delete"@.len());
    assert("write"@.len() != "create"@.len());
    assert("create"@[0] != "delete"@[0]);
}

/// Only a bare `print` or `users` cannot be read as a command: every other
/// instruction can, in particular any whose first piece is neither `print`
/// nor `users` (`save`, `exit`, `clear`, `echo`, ...), whatever follows it,
/// and any with two pieces or more. An instruction whose first piece is
/// `save`, `exit` or `clear` is read as that command.
pub proof fn lemma_instructions_read_as_commands(instruction: Seq<char>)
    ensures
        instruction != "print"@ && instruction != "users"@ ==> command_defined(
            split_parts(instruction),
        ),
        split_parts(instruction)[0] != "print"@ && split_parts(instruction)[0] != "users"@
            ==> command_defined(split_parts(instruction)),
        split_parts(instruction).len() >= 2 ==> command_defined(split_parts(instruction)),
        split_parts(instruction)[0] == "save"@ ==> command_of(split_parts(instruction))
            == CommandView::Save,
        split_parts(instruction)[0] == "exit"@ ==> command_of(split_parts(instruction))
            == CommandView::Exit,
        split_parts(instruction)[0] == "clear"@ ==> command_of(split_parts(instruction))
            == CommandView::Clear,
{
    let parts = split_parts(instruction);
    crate::text::lemma_split_nonempty(instruction);
    crate::text::lemma_join_split(instruction);
    if parts.len() == 1 {
        assert(join_parts(parts) == parts[0]);
    }
    reveal_strlit("");
    reveal_strlit("save");
    reveal_strlit("exit");
    reveal_strlit("clear");
    assert("save"@.len() != ""@.len() && "exit"@.len() != ""@.len() && "clear"@.len() != ""@.len());
    assert("save"@[0] != "clear"@[0] && "exit"@[0] != "clear"@[0]);
    assert("save"@[0] != "exit"@[0]);
}

/// A console instruction written as `users::write::<id>::<message>` is read
/// as that command, where the id and the message hold no separator and the
/// id does not end with a colon.
pub proof fn lemma_write_instruction_round_trip(id: Seq<char>, message: Seq<char>)
    requires
        separable(id),
        !has_sep(message),
    ensures
        command_of(split_parts(join_parts(seq!["users"@, "write"@, id, message])))
            == CommandView::Write(id, message),
{
    lemma_keywords_separable();
    let parts = seq!["users"@, "write"@, id, message];
    lemma_split_join(parts);
}

/// A console instruction written as
/// `users::create::<name>::<password>::<id>` is read as that command, where
/// no argument holds a separator and only the id may end with a colon.
pub proof fn lemma_create_instruction_round_trip(
    name: Seq<char>,
    password: Seq<char>,
    id: Seq<char>,
)
    requires
        separable(name),
        separable(password),
        !has_sep(id),
    ensures
        command_of(split_parts(join_parts(seq!["users"@, "create"@, name, password, id])))
            == CommandView::CreateUser(name, password, id),
{
    lemma_keywords_separable();
    let parts = seq!["users"@, "create"@, name, password, id];
    lemma_split_join(parts);
}

/// A console instruction written as `users::delete::<id>` is read as that
/// command, where the id holds no separator.
pub proof fn lemma_delete_instruction_round_trip(id: Seq<char>)
    requires
        !has_sep(id),
    ensures
        command_of(split_parts(join_parts(seq!["users"@, "delete"@, id])))
            == CommandView::DeleteUser(id),
{
    lemma_keywords_separable();
    let parts = seq!["users"@, "delete"@, id];
    lemma_split_join(parts);
}

/// Views of a list of lines.
pub open spec fn line_views(lines: Seq<String>) -> Seq<Seq<char>> {
    views(lines)
}

impl Command {
    /// The lines the console answers at once; `None` for the commands that
    /// answer nothing (`Nothing`, `Clear`) or whose answer depends on the
    /// queue (`PrintUsers`, `CreateUser`).
    pub fn reply(&self) -> (lines: Option<Vec<String>>)
        ensures
            match self@ {
                CommandView::Nothing | CommandView::Clear | CommandView::PrintUsers
                | CommandView::CreateUser(..) => lines is None,
                CommandView::Exit => lines matches Some(l) && views(l@) == seq!["EXIT"@],
                CommandView::Invalid => lines matches Some(l) && views(l@) == seq![
                    "INVALID_PARAMETER"@,
                ],
                CommandView::Unknown => lines matches Some(l) && views(l@) == seq![
                    "COMMAND_NOT_FOUND"@,
                ],
                _ => lines matches Some(l) && views(l@) == seq!["OK"@],
            },
    {
        let text = match self {
            Command::Nothing | Command::Clear | Command::PrintUsers | Command::CreateUser(..) => {
                return None;
            },
            Command::Exit => "EXIT",
            Command::Invalid => "INVALID_PARAMETER",
            Command::Unknown => "COMMAND_NOT_FOUND",
            _ => "OK",
        };
        let mut lines: Vec<String> = Vec::new();
        lines.push(owned(text));
        assert(views(lines@) =~= seq![text@]);
        Some(lines)
    }

    /// The whole answer the console writes for the command: nothing for
    /// `Nothing` and `Clear`; the user listing of `accounts` for
    /// `PrintUsers`; for `CreateUser`, `OK` where the user was `created`
    /// and the refusal otherwise; else the immediate reply.
    pub fn answer(&self, accounts: &Vec<Account>, created: bool) -> (lines: Option<Vec<String>>)
        ensures
            match self@ {
                CommandView::Nothing | CommandView::Clear => lines is None,
                CommandView::PrintUsers => lines matches Some(l) && views(l@) == seq![
                    "print::users"@,
                ] + accounts@.map_values(|a: Account| a.id@) + seq!["OK"@],
                CommandView::CreateUser(..) => lines matches Some(l) && views(l@) == seq![
                    if created {
                        "OK"@
                    } else {
                        "ACCOUNT_DOES_NOT_MEET_REQUIREMENTS"@
                    },
                ],
                CommandView::Exit => lines matches Some(l) && views(l@) == seq!["EXIT"@],
                CommandView::Invalid => lines matches Some(l) && views(l@) == seq![
                    "INVALID_PARAMETER"@,
                ],
                CommandView::Unknown => lines matches Some(l) && views(l@) == seq![
                    "COMMAND_NOT_FOUND"@,
                ],
                _ => lines matches Some(l) && views(l@) == seq!["OK"@],
            },
    {
        match self {
            Command::PrintUsers => Some(users_listing(accounts)),
            Command::CreateUser(..) => {
                let mut lines: Vec<String> = Vec::new();
                let line = creation_reply(created);
                let ghost lv = line@;
                lines.push(line);
                assert(views(lines@) =~= seq![lv]);
                Some(lines)
            },
            _ => self.reply(),
        }
    }

    /// The events the command hands to the queue.
    pub fn events(&self) -> (events: Vec<Event>)
        ensures
            match self@ {
                CommandView::Exit => events@.len() == 1 && events@[0] is ServerShutdown,
                CommandView::Save => events@.len() == 2 && events@[0] is SaveAuthData
                    && events@[1] is SaveUserData,
                CommandView::DeleteUser(id) => events@.len() == 1 && (events@[0] matches Event::DeleteUser(
                    u,
                ) && u@ == id),
                CommandView::CreateUser(name, password, id) => events@.len() == 1
                    && (events@[0] matches Event::CreateUser(n, p, i) && n@ == name && p@
                    == password && i@ == id),
                CommandView::Write(id, message) => events@.len() == 1
                    && (events@[0] matches Event::SendMessage(to, text, from) && to@ == id && text@
                    == message && from@ == "[CONSOLE]"@),
                _ => events@.len() == 0,
            },
    {
        let mut events: Vec<Event> = Vec::new();
        match self {
            Command::Exit => events.push(Event::ServerShutdown),
            Command::Save => {
                events.push(Event::SaveAuthData);
                events.push(Event::SaveUserData);
            },
            Command::DeleteUser(id) => events.push(Event::DeleteUser(id.clone())),
            Command::CreateUser(name, password, id) => events.push(
                Event::CreateUser(name.clone(), password.clone(), id.clone()),
            ),
            Command::Write(id, message) => events.push(
                Event::SendMessage(id.clone(), message.clone(), owned("[CONSOLE]")),
            ),
            _ => {},
        }
        events
    }
}

/// The answer to `print::users`: `print::users`, every account id, then
/// `OK`.
pub fn users_listing(accounts: &Vec<Account>) -> (lines: Vec<String>)
    ensures
        views(lines@) == seq!["print::users"@] + accounts@.map_values(|a: Account| a.id@) + seq![
            "OK"@,
        ],
{
    let mut lines: Vec<String> = Vec::new();
    lines.push(owned("print::users"));
    let ids = account_ids(accounts);
    let mut i: usize = 0;
    while i < ids.len()
        invariant
            i <= ids@.len(),
            ids@.len() == accounts@.len(),
            forall|j: int| 0 <= j < ids@.len() ==> #[trigger] ids@[j]@ == accounts@[j].id@,
            views(lines@) == seq!["print::users"@] + accounts@.take(i as int).map_values(
                |a: Account| a.id@,
            ),
        decreases ids@.len() - i,
    {
        let ghost prev = lines@;
        lines.push(ids[i].clone());
        proof {
            assert(accounts@.take(i + 1) =~= accounts@.take(i as int).push(accounts@[i as int]));
            assert(views(lines@) =~= views(prev).push(ids@[i as int]@));
            assert(views(lines@) =~= seq!["print::users"@] + accounts@.take(i + 1).map_values(
                |a: Account| a.id@,
            ));
        }
        i = i + 1;
    }
    let ghost prev = lines@;
    lines.push(owned("OK"));
    proof {
        assert(accounts@.take(i as int) =~= accounts@);
        assert(views(lines@) =~= views(prev).push("OK"@));
    }
    lines
}

/// The answer to `users::create`, given whether the queue registered the
/// user.
pub fn creation_reply(created: bool) -> (line: String)
    ensures
        line@ == (if created {
            "OK"@
        } else {
            "ACCOUNT_DOES_NOT_MEET_REQUIREMENTS"@
        }),
{
    if created {
        owned("OK")
    } else {
        owned("ACCOUNT_DOES_NOT_MEET_REQUIREMENTS")
    }
}

/// The answer to a command with a wrong token: `INVALID_TOKEN`.
pub fn token_refusal() -> (lines: Vec<String>)
    ensures
        views(lines@) == seq!["INVALID_TOKEN"@],
{
    let mut lines: Vec<String> = Vec::new();
    lines.push(owned("INVALID_TOKEN"));
    assert(views(lines@) =~= seq!["INVALID_TOKEN"@]);
    lines
}

/// Whether every line fits in a frame.
pub open spec fn lines_fit(lines: Seq<Seq<char>>) -> bool {
    forall|i: int| 0 <= i < lines.len() ==> text_fits(#[trigger] lines[i])
}

/// The frames of a console answer: one per line, then the empty frame that
/// ends the answer. `None` where a line does not fit in a frame.
pub fn console_frames(lines: &Vec<String>) -> (frames: Option<Vec<[u8; 256]>>)
    ensures
        match frames {
            Some(f) => lines_fit(views(lines@)) && frame_views(f@) == views(lines@).map_values(
                |l: Seq<char>| frame_of(text_bytes(l)),
            ) + seq![frame_of(seq![])],
            None => !lines_fit(views(lines@)),
        },
{
    let ghost ls = views(lines@);
    let mut frames: Vec<[u8; 256]> = Vec::new();
    let mut i: usize = 0;
    while i < lines.len()
        invariant
            ls == views(lines@),
            i <= lines@.len(),
            lines_fit(ls.take(i as int)),
            frame_views(frames@) == ls.take(i as int).map_values(
                |l: Seq<char>| frame_of(text_bytes(l)),
            ),
        decreases lines@.len() - i,
    {
        assert(ls[i as int] == lines@[i as int]@);
        if !fits_frame(&lines[i]) {
            assert(!text_fits(ls[i as int]));
            return None;
        }
        let ghost prev = frames@;
        frames.push(string_to_buffer(lines[i].clone()));
        proof {
            let next = ls.take(i + 1);
            assert(next =~= ls.take(i as int).push(ls[i as int]));
            assert(frame_views(frames@) =~= frame_views(prev).push(frame_of(text_bytes(ls[i as int]))));
            assert(frame_views(frames@) =~= next.map_values(|l: Seq<char>| frame_of(text_bytes(l))));
            assert forall|k: int| 0 <= k < next.len() implies text_fits(#[trigger] next[k]) by {
                if k < i {
                    assert(next[k] == ls.take(i as int)[k]);
                }
            }
        }
        i = i + 1;
    }
    let ghost prev = frames@;
    let empty: Vec<u8> = Vec::new();
    frames.push(crate::frame::vec_to_buffer(&empty));
    proof {
        assert(ls.take(i as int) =~= ls);
        assert(empty@ =~= seq![]);
        assert(frame_views(frames@) =~= frame_views(prev).push(frame_of(seq![])));
    }
    Some(frames)
}

} // verus!
