//! The server's side of a client connection: which request a header
//! announces, and what the server answers to each request, as frames.

use vstd::prelude::*;
use vstd::utf8::{decode_utf8, valid_utf8};
use crate::account::{
    check_login, check_token, credentials_at, first_with_credentials, first_with_token, has_id,
    search_by_id, sha512_digest, Account,
};
use crate::frame::{
    frame_of, frame_payload, payload_of, string_to_buffer, text_bytes, vec_to_buffer, MAX_PAYLOAD,
};
use crate::queue::Event;
use crate::text::{decode_text, decode_text_or};
use crate::user::{message_views, MessageView, UserData};

verus! {

/// What a client asks for in the 8-byte header of a request.
pub enum Request {
    Login,
    Signup,
    PushMessage,
    PullMessages,
}

/// The header that announces request number `kind`: the number, then seven
/// zero bytes.
pub open spec fn header_of(kind: u8) -> Seq<u8> {
    seq![kind, 0u8, 0u8, 0u8, 0u8, 0u8, 0u8, 0u8]
}

/// The request a header announces; `None` (ending the connection) for the
/// all-zero header and for any header that announces no known request.
pub fn parse_request(header: &[u8; 8]) -> (request: Option<Request>)
    ensures
        match request {
            Some(Request::Login) => header@ == header_of(1),
            Some(Request::Signup) => header@ == header_of(2),
            Some(Request::PushMessage) => header@ == header_of(3),
            Some(Request::PullMessages) => header@ == header_of(4),
            None => forall|k: u8| 1 <= k <= 4 ==> header@ != header_of(k),
        },
{
    let mut i: usize = 1;
    while i < 8
        invariant
            1 <= i <= 8,
            header@.len() == 8,
            forall|j: int| 1 <= j < i ==> header@[j] == 0,
        decreases 8 - i,
    {
        if header[i] != 0 {
            proof {
                assert forall|k: u8| 1 <= k <= 4 implies header@ != header_of(k) by {
                    assert(header_of(k)[i as int] == 0);
                }
            }
            return None;
        }
        i = i + 1;
    }
    let kind = header[0];
    proof {
        assert forall|k: u8| k == kind implies header@ =~= header_of(k) by {}
        assert forall|k: u8| k != kind implies header@ != header_of(k) by {
            assert(header_of(k)[0] == k);
        }
    }
    if kind == 1 {
        Some(Request::Login)
    } else if kind == 2 {
        Some(Request::Signup)
    } else if kind == 3 {
        Some(Request::PushMessage)
    } else if kind == 4 {
        Some(Request::PullMessages)
    } else {
        None
    }
}

impl Request {
    /// How many frames follow the header of the request: the name and the
    /// password of a login; the name, the password and the id of a signup;
    /// the token, the text and the recipient of a push; the token of a pull.
    pub fn frame_count(&self) -> (n: usize)
        ensures
            n == match self {
                Request::Login => 2usize,
                Request::Signup => 3usize,
                Request::PushMessage => 3usize,
                Request::PullMessages => 1usize,
            },
    {
        match self {
            Request::Login => 2,
            Request::Signup => 3,
            Request::PushMessage => 3,
            Request::PullMessages => 1,
        }
    }
}

/// The frames that a list of frames holds, as byte sequences.
pub open spec fn frame_views(frames: Seq<[u8; 256]>) -> Seq<Seq<u8>> {
    frames.map_values(|f: [u8; 256]| f@)
}

/// A payload of `n` copies of the byte `b`.
pub open spec fn repeated(b: u8, n: nat) -> Seq<u8> {
    Seq::new(n, |i: int| b)
}

fn repeated_bytes(b: u8, n: usize) -> (bytes: Vec<u8>)
    ensures
        bytes@ == repeated(b, n as nat),
{
    let mut bytes: Vec<u8> = Vec::new();
    let mut i: usize = 0;
    while i < n
        invariant
            i <= n,
            bytes@ == repeated(b, i as nat),
        decreases n - i,
    {
        bytes.push(b);
        i = i + 1;
        assert(bytes@ =~= repeated(b, i as nat));
    }
    bytes
}

/// The frame of `n` copies of the byte `b`: the signals of the protocol
/// (refused login, refused signup, end of messages, refused pull).
pub fn signal_frame(b: u8, n: usize) -> (frame: [u8; 256])
    requires
        n <= MAX_PAYLOAD,
    ensures
        frame@ == frame_of(repeated(b, n as nat)),
{
    vec_to_buffer(&repeated_bytes(b, n))
}

/// Whether a text fits in one frame.
pub open spec fn text_fits(text: Seq<char>) -> bool {
    text_bytes(text).len() <= MAX_PAYLOAD
}

/// Whether a string fits in one frame.
pub fn fits_frame(text: &String) -> (fits: bool)
    ensures
        fits == text_fits(text@),
{
    text.as_str().as_bytes().len() <= MAX_PAYLOAD
}

/// Some frames as byte sequences, if there are any.
pub open spec fn optional_frames(frames: Option<Vec<[u8; 256]>>) -> Option<Seq<Seq<u8>>> {
    match frames {
        Some(f) => Some(frame_views(f@)),
        None => None,
    }
}

/// The answer to a login: the token and the id of the first account whose
/// hashes are those of the received name and password, or the frame of eight
/// zero bytes where there is none; `None` where that account's token or id
/// does not fit in a frame.
pub open spec fn login_outcome(
    accounts: Seq<Account>,
    name_frame: Seq<u8>,
    passwd_frame: Seq<u8>,
    reply: Option<Seq<Seq<u8>>>,
) -> bool {
    let hashed_name = sha512_digest(payload_of(name_frame));
    let hashed_password = sha512_digest(payload_of(passwd_frame));
    &&& (forall|j: int|
        0 <= j < accounts.len() ==> !credentials_at(accounts, hashed_name, hashed_password, j))
        ==> reply == Some(seq![frame_of(repeated(0, 8))])
    &&& forall|i: int|
        first_with_credentials(accounts, hashed_name, hashed_password, i) ==> if accounts[i].token@.len()
            <= MAX_PAYLOAD && text_fits(accounts[i].id@) {
            reply == Some(seq![frame_of(accounts[i].token@), frame_of(text_bytes(accounts[i].id@))])
        } else {
            reply is None
        }
}

/// The answer to a login: the token and the id of the first account whose
/// hashes are those of the received name and password, or the frame of eight
/// zero bytes where there is none. `None` where that account's token or id
/// does not fit in a frame.
pub fn login_reply(accounts: &Vec<Account>, name_frame: &[u8; 256], passwd_frame: &[u8; 256]) -> (reply:
    Option<Vec<[u8; 256]>>)
    ensures
        login_outcome(accounts@, name_frame@, passwd_frame@, optional_frames(reply)),
{
    let name = frame_payload(name_frame);
    let passwd = frame_payload(passwd_frame);
    let mut frames: Vec<[u8; 256]> = Vec::new();
    match check_login(accounts, name.as_slice(), passwd.as_slice()) {
        Ok(i) => {
            let account = &accounts[i];
            if account.token.len() > MAX_PAYLOAD || !fits_frame(&account.id) {
                return None;
            }
            frames.push(vec_to_buffer(&account.token));
            frames.push(string_to_buffer(account.id.clone()));
            assert(frame_views(frames@) =~= seq![
                frame_of(accounts@[i as int].token@),
                frame_of(text_bytes(accounts@[i as int].id@)),
            ]);
        },
        Err(_) => {
            frames.push(signal_frame(0, 8));
            assert(frame_views(frames@) =~= seq![frame_of(repeated(0, 8))]);
        },
    }
    Some(frames)
}

/// The registration that a signup asks for: the name, the password and the
/// id it sends; `None` where one of them is not UTF-8.
pub open spec fn signup_outcome(
    name_frame: Seq<u8>,
    passwd_frame: Seq<u8>,
    id_frame: Seq<u8>,
    event: Option<Event>,
) -> bool {
    &&& event is Some <==> valid_utf8(payload_of(name_frame)) && valid_utf8(
        payload_of(passwd_frame),
    ) && valid_utf8(payload_of(id_frame))
    &&& event matches Some(e) ==> e matches Event::CreateUser(name, password, id) && name@
        == decode_utf8(payload_of(name_frame)) && password@ == decode_utf8(payload_of(passwd_frame))
        && id@ == decode_utf8(payload_of(id_frame))
}

/// The registration that a signup asks for: the name, the password and the
/// id it sends. `None` where one of them is not UTF-8.
pub fn signup_request(name_frame: &[u8; 256], passwd_frame: &[u8; 256], id_frame: &[u8; 256]) -> (event:
    Option<Event>)
    ensures
        signup_outcome(name_frame@, passwd_frame@, id_frame@, event),
{
    let name = decode_text(frame_payload(name_frame).as_slice());
    let passwd = decode_text(frame_payload(passwd_frame).as_slice());
    let id = decode_text(frame_payload(id_frame).as_slice());
    match (name, passwd, id) {
        (Some(name), Some(passwd), Some(id)) => Some(Event::CreateUser(name, passwd, id)),
        _ => None,
    }
}

/// The answer to a signup: the new token, or the frame of four one bytes
/// where registration failed.
pub fn signup_reply(result: &Result<Vec<u8>, String>) -> (frame: [u8; 256])
    requires
        result matches Ok(token) ==> token@.len() <= MAX_PAYLOAD,
    ensures
        match result {
            Ok(token) => frame@ == frame_of(token@),
            Err(_) => frame@ == frame_of(repeated(1, 4)),
        },
{
    match result {
        Ok(token) => vec_to_buffer(token),
        Err(_) => signal_frame(1, 4),
    }
}

/// What becomes of a message a client pushes.
pub enum Push {
    /// Hand this event to the queue.
    Forward(Event),
    /// Do nothing: the token or the recipient is unknown.
    Ignore,
    /// The token is valid but the recipient id is not UTF-8.
    Malformed,
}

/// What a message push amounts to. The sender is the first account with the
/// received token; the text is the received one, or `[INVALID]` where it is
/// not UTF-8; the recipient must be an account.
pub open spec fn push_outcome(
    accounts: Seq<Account>,
    token_frame: Seq<u8>,
    message_frame: Seq<u8>,
    id_frame: Seq<u8>,
    push: Push,
) -> bool {
    let token = payload_of(token_frame);
    let text = payload_of(message_frame);
    let recipient = payload_of(id_frame);
    &&& (forall|j: int| 0 <= j < accounts.len() ==> accounts[j].token@ != token) ==> push is Ignore
    &&& forall|i: int|
        first_with_token(accounts, token, i) ==> if !valid_utf8(recipient) {
            push is Malformed
        } else if !has_id(accounts, decode_utf8(recipient)) {
            push is Ignore
        } else {
            push matches Push::Forward(Event::SendMessage(to, value, from)) && {
                &&& to@ == decode_utf8(recipient)
                &&& value@ == (if valid_utf8(text) {
                    decode_utf8(text)
                } else {
                    "[INVALID]"@
                })
                &&& from@ == accounts[i].id@
            }
        }
}

/// What a message push amounts to. The sender is the first account with the
/// received token; the text is the received one, or `[INVALID]` where it is
/// not UTF-8; the recipient must be an account.
pub fn push_message(
    accounts: &Vec<Account>,
    token_frame: &[u8; 256],
    message_frame: &[u8; 256],
    id_frame: &[u8; 256],
) -> (push: Push)
    ensures
        push_outcome(accounts@, token_frame@, message_frame@, id_frame@, push),
{
    let token = frame_payload(token_frame);
    let message = decode_text_or(frame_payload(message_frame).as_slice(), "[INVALID]");
    let id = frame_payload(id_frame);
    match check_token(accounts, token.as_slice()) {
        Ok(sender) => {
            match decode_text(id.as_slice()) {
                Some(string_id) => {
                    match search_by_id(accounts, string_id.clone()) {
                        Ok(_) => Push::Forward(
                            Event::SendMessage(string_id, message, accounts[sender].id.clone()),
                        ),
                        Err(_) => Push::Ignore,
                    }
                },
                None => Push::Malformed,
            }
        },
        Err(_) => Push::Ignore,
    }
}

/// Whose messages a pull asks for: the id of the first account with the
/// received token; `None` where no account holds it.
pub open spec fn pull_outcome(accounts: Seq<Account>, token_frame: Seq<u8>, id: Option<String>) -> bool {
    match id {
        Some(id) => exists|i: int|
            first_with_token(accounts, payload_of(token_frame), i) && id@ == accounts[i].id@,
        None => forall|j: int|
            0 <= j < accounts.len() ==> accounts[j].token@ != payload_of(token_frame),
    }
}

/// Whose messages a pull asks for: the id of the first account with the
/// received token.
pub fn pull_target(accounts: &Vec<Account>, token_frame: &[u8; 256]) -> (id: Option<String>)
    ensures
        pull_outcome(accounts@, token_frame@, id),
{
    let token = frame_payload(token_frame);
    match check_token(accounts, token.as_slice()) {
        Ok(i) => Some(accounts[i].id.clone()),
        Err(_) => None,
    }
}

/// The frames that carry some messages: for each, its text and then its
/// sender's id.
pub open spec fn message_frames(messages: Seq<MessageView>) -> Seq<Seq<u8>>
    decreases messages.len(),
{
    if messages.len() == 0 {
        seq![]
    } else {
        message_frames(messages.drop_last()) + seq![
            frame_of(text_bytes(messages.last().value)),
            frame_of(text_bytes(messages.last().id)),
        ]
    }
}

/// Whether every text and sender id of the messages fits in a frame.
pub open spec fn messages_fit(messages: Seq<MessageView>) -> bool {
    forall|i: int|
        0 <= i < messages.len() ==> text_fits(#[trigger] messages[i].value) && text_fits(
            messages[i].id,
        )
}

/// The frame that refuses a pull: eight one bytes.
pub fn pull_refused() -> (frame: [u8; 256])
    ensures
        frame@ == frame_of(repeated(1, 8)),
{
    signal_frame(1, 8)
}

/// The answer to a pull, given the box the queue found: its messages, then
/// the frame of eight two bytes; or the refusal where there is no box.
/// `None` where a message does not fit in a frame.
pub fn pull_reply(found: &Option<UserData>) -> (reply: Option<Vec<[u8; 256]>>)
    ensures
        match found {
            None => reply matches Some(frames) && frame_views(frames@) == seq![
                frame_of(repeated(1, 8)),
            ],
            Some(u) => if messages_fit(message_views(u.messages@)) {
                reply matches Some(frames) && frame_views(frames@) == message_frames(
                    message_views(u.messages@),
                ) + seq![frame_of(repeated(2, 8))]
            } else {
                reply is None
            },
        },
{
    match found {
        None => {
            let mut frames: Vec<[u8; 256]> = Vec::new();
            frames.push(pull_refused());
            assert(frame_views(frames@) =~= seq![frame_of(repeated(1, 8))]);
            Some(frames)
        },
        Some(u) => {
            let ghost ms = message_views(u.messages@);
            let mut frames: Vec<[u8; 256]> = Vec::new();
            let mut i: usize = 0;
            while i < u.messages.len()
                invariant
                    *found == Some(*u),
                    ms == message_views(u.messages@),
                    i <= u.messages@.len(),
                    messages_fit(ms.take(i as int)),
                    frame_views(frames@) == message_frames(ms.take(i as int)),
                decreases u.messages@.len() - i,
            {
                let m = &u.messages[i];
                if !fits_frame(&m.value) || !fits_frame(&m.id) {
                    proof {
                        assert(ms.len() == u.messages@.len());
                        assert(ms[i as int] == m@);
                        assert(!text_fits(m.value@) || !text_fits(m.id@));
                        assert(ms[i as int].value == m.value@);
                        assert(!text_fits(ms[i as int].value) || !text_fits(ms[i as int].id));
                        assert(!messages_fit(ms));
                    }
                    return None;
                }
                let ghost prev = frames@;
                frames.push(string_to_buffer(m.value.clone()));
                frames.push(string_to_buffer(m.id.clone()));
                proof {
                    let next = ms.take(i + 1);
                    assert(next.drop_last() =~= ms.take(i as int));
                    assert(next.last() == m@);
                    assert(frame_views(frames@) =~= frame_views(prev) + seq![
                        frame_of(text_bytes(m.value@)),
                        frame_of(text_bytes(m.id@)),
                    ]);
                    assert forall|k: int| 0 <= k < next.len() implies text_fits(
                        #[trigger] next[k].value,
                    ) && text_fits(next[k].id) by {
                        if k < i {
                            assert(next[k] == ms.take(i as int)[k]);
                        }
                    }
                }
                i = i + 1;
            }
            let ghost prev = frames@;
            frames.push(signal_frame(2, 8));
            proof {
                assert(ms.take(i as int) =~= ms);
                assert(frame_views(frames@) =~= frame_views(prev) + seq![frame_of(repeated(2, 8))]);
            }
            Some(frames)
        },
    }
}

/// What the connection does next with one request.
pub enum SessionStep {
    /// Write these frames.
    Reply(Vec<[u8; 256]>),
    /// Hand this registration to the queue, then write `signup_reply` of its
    /// answer.
    Register(Event),
    /// Hand this message to the queue; nothing is written.
    Forward(Event),
    /// Nothing to do.
    Ignore,
    /// Ask the queue for the box of this id, then write `pull_reply` of it.
    Pull(String),
    /// The request cannot be answered (a field that must be UTF-8 is not,
    /// or an answer would not fit in a frame).
    Malformed,
}

/// How many frames follow the header of a request.
pub open spec fn frames_needed(request: Request) -> nat {
    match request {
        Request::Login => 2,
        Request::Signup => 3,
        Request::PushMessage => 3,
        Request::PullMessages => 1,
    }
}

/// Serves one request of a connection, given the frames that followed its
/// header. The account list is only read: it is the same afterwards.
pub fn serve(accounts: &mut Vec<Account>, request: &Request, frames: &Vec<[u8; 256]>) -> (step:
    SessionStep)
    requires
        frames@.len() == frames_needed(*request),
    ensures
        *final(accounts) == *old(accounts),
        match *request {
            Request::Login => match step {
                SessionStep::Reply(f) => login_outcome(
                    old(accounts)@,
                    frames@[0]@,
                    frames@[1]@,
                    Some(frame_views(f@)),
                ),
                SessionStep::Malformed => login_outcome(
                    old(accounts)@,
                    frames@[0]@,
                    frames@[1]@,
                    None,
                ),
                _ => false,
            },
            Request::Signup => match step {
                SessionStep::Register(e) => signup_outcome(
                    frames@[0]@,
                    frames@[1]@,
                    frames@[2]@,
                    Some(e),
                ),
                SessionStep::Malformed => signup_outcome(
                    frames@[0]@,
                    frames@[1]@,
                    frames@[2]@,
                    None,
                ),
                _ => false,
            },
            Request::PushMessage => match step {
                SessionStep::Forward(e) => push_outcome(
                    old(accounts)@,
                    frames@[0]@,
                    frames@[1]@,
                    frames@[2]@,
                    Push::Forward(e),
                ),
                SessionStep::Ignore => push_outcome(
                    old(accounts)@,
                    frames@[0]@,
                    frames@[1]@,
                    frames@[2]@,
                    Push::Ignore,
                ),
                SessionStep::Malformed => push_outcome(
                    old(accounts)@,
                    frames@[0]@,
                    frames@[1]@,
                    frames@[2]@,
                    Push::Malformed,
                ),
                _ => false,
            },
            Request::PullMessages => match step {
                SessionStep::Pull(id) => pull_outcome(old(accounts)@, frames@[0]@, Some(id)),
                SessionStep::Reply(f) => pull_outcome(old(accounts)@, frames@[0]@, None)
                    && frame_views(f@) == seq![frame_of(repeated(1, 8))],
                _ => false,
            },
        },
{
    let shared: &Vec<Account> = accounts;
    match request {
        Request::Login => match login_reply(shared, &frames[0], &frames[1]) {
            Some(reply) => SessionStep::Reply(reply),
            None => SessionStep::Malformed,
        },
        Request::Signup => match signup_request(&frames[0], &frames[1], &frames[2]) {
            Some(event) => SessionStep::Register(event),
            None => SessionStep::Malformed,
        },
        Request::PushMessage => match push_message(shared, &frames[0], &frames[1], &frames[2]) {
            Push::Forward(event) => SessionStep::Forward(event),
            Push::Ignore => SessionStep::Ignore,
            Push::Malformed => SessionStep::Malformed,
        },
        Request::PullMessages => match pull_target(shared, &frames[0]) {
            Some(id) => SessionStep::Pull(id),
            None => {
                let mut reply: Vec<[u8; 256]> = Vec::new();
                reply.push(pull_refused());
                assert(frame_views(reply@) =~= seq![frame_of(repeated(1, 8))]);
                SessionStep::Reply(reply)
            },
        },
    }
}

} // verus!
