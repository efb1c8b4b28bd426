//! The state of the graphical chat client and how its window events change
//! it. Talking to the server is left to the caller: `update` says which
//! request to send, and `login_finished` takes the answer.

use vstd::prelude::*;
use crate::text::owned;

verus! {

/// Which screen the client shows.
pub enum Status {
    Login,
    InvalidLogin,
    Chat,
    Signup,
}

/// What the user did in the window.
pub enum ChatMessage {
    NameChanged(String),
    PasswdChanged(String),
    LoginButtonPressed,
    ChatMessageChanged(String),
    ChatMessageIDChanged(String),
    ChatMessageSent,
}

/// What the client has to send to the server after an event.
pub enum ChatRequest {
    /// Nothing.
    Nothing,
    /// Log in with this name and password, then call `login_finished`.
    Login(String, String),
    /// Push this message to this id with this token.
    Send(String, String, Vec<u8>),
}

/// The client's state: the screen, the session token and the input fields.
pub struct ChatModel {
    pub status: Status,
    pub token: Vec<u8>,
    pub input_name: String,
    pub input_passwd: String,
    pub chat_input: String,
    pub chat_input_id: String,
}

impl ChatModel {
    /// The state at start: the login screen, no token, empty fields.
    pub fn new() -> (model: ChatModel)
        ensures
            model.status is Login,
            model.token@ == Seq::<u8>::empty(),
            model.input_name@ == Seq::<char>::empty(),
            model.input_passwd@ == Seq::<char>::empty(),
            model.chat_input@ == Seq::<char>::empty(),
            model.chat_input_id@ == Seq::<char>::empty(),
    {
        ChatModel {
            status: Status::Login,
            token: Vec::new(),
            input_name: String::new(),
            input_passwd: String::new(),
            chat_input: String::new(),
            chat_input_id: String::new(),
        }
    }

    /// The note under the login form: nothing on the login screen,
    /// `invalid login` after a refused login.
    pub fn login_notice(&self) -> (text: &'static str)
        ensures
            text@ == (match self.status {
                Status::Login => ""@,
                Status::InvalidLogin => "invalid login"@,
                _ => "bad"@,
            }),
    {
        match self.status {
            Status::Login => "",
            Status::InvalidLogin => "invalid login",
            _ => "bad",
        }
    }

    /// The window title.
    pub fn title(&self) -> (title: String)
        ensures
            title@ == "Chata"@,
    {
        owned("Chata")
    }

    /// Takes a window event: edits go into their field; the login button
    /// asks for a login with the name and password fields; sending asks for
    /// a push of the message field to the id field with the token, and
    /// empties the message field.
    pub fn update(&mut self, message: ChatMessage) -> (request: ChatRequest)
        ensures
            match message {
                ChatMessage::NameChanged(v) => final(self).input_name == v && request is Nothing
                    && final(self).status == old(self).status && final(self).input_passwd == old(
                    self,
                ).input_passwd && final(self).chat_input == old(self).chat_input
                    && final(self).chat_input_id == old(self).chat_input_id && final(self).token
                    == old(self).token,
                ChatMessage::PasswdChanged(v) => final(self).input_passwd == v && request is Nothing
                    && final(self).status == old(self).status && final(self).input_name == old(
                    self,
                ).input_name && final(self).chat_input == old(self).chat_input
                    && final(self).chat_input_id == old(self).chat_input_id && final(self).token
                    == old(self).token,
                ChatMessage::ChatMessageChanged(v) => final(self).chat_input == v && request is Nothing
                    && final(self).status == old(self).status && final(self).input_name == old(
                    self,
                ).input_name && final(self).input_passwd == old(self).input_passwd
                    && final(self).chat_input_id == old(self).chat_input_id && final(self).token
                    == old(self).token,
                ChatMessage::ChatMessageIDChanged(v) => final(self).chat_input_id == v
                    && request is Nothing && final(self).status == old(self).status
                    && final(self).input_name == old(self).input_name && final(self).input_passwd
                    == old(self).input_passwd && final(self).chat_input == old(self).chat_input
                    && final(self).token == old(self).token,
                ChatMessage::LoginButtonPressed => *final(self) == *old(self) && (
                request matches ChatRequest::Login(name, password) && name@ == old(self).input_name@
                    && password@ == old(self).input_passwd@),
                ChatMessage::ChatMessageSent => (request matches ChatRequest::Send(text, id, token)
                    && text@ == old(self).chat_input@ && id@ == old(self).chat_input_id@ && token@
                    == old(self).token@) && final(self).chat_input@ == Seq::<char>::empty()
                    && final(self).status == old(self).status && final(self).input_name == old(
                    self,
                ).input_name && final(self).input_passwd == old(self).input_passwd
                    && final(self).chat_input_id == old(self).chat_input_id && final(self).token
                    == old(self).token,
            },
    {
        match message {
            ChatMessage::NameChanged(value) => {
                self.input_name = value;
                ChatRequest::Nothing
            },
            ChatMessage::PasswdChanged(value) => {
                self.input_passwd = value;
                ChatRequest::Nothing
            },
            ChatMessage::ChatMessageChanged(value) => {
                self.chat_input = value;
                ChatRequest::Nothing
            },
            ChatMessage::ChatMessageIDChanged(value) => {
                self.chat_input_id = value;
                ChatRequest::Nothing
            },
            ChatMessage::LoginButtonPressed => ChatRequest::Login(
                self.input_name.clone(),
                self.input_passwd.clone(),
            ),
            ChatMessage::ChatMessageSent => {
                let request = ChatRequest::Send(
                    self.chat_input.clone(),
                    self.chat_input_id.clone(),
                    self.token.clone(),
                );
                self.chat_input = String::new();
                request
            },
        }
    }

    /// Takes the answer to a login: with a token the chat screen opens; on a
    /// refusal the login screen says so and the token becomes a single zero.
    pub fn login_finished(&mut self, result: Result<Vec<u8>, String>)
        ensures
            match result {
                Ok(token) => final(self).status is Chat && final(self).token == token,
                Err(_) => final(self).status is InvalidLogin && final(self).token@ == seq![0u8],
            },
            final(self).input_name == old(self).input_name,
            final(self).input_passwd == old(self).input_passwd,
            final(self).chat_input == old(self).chat_input,
            final(self).chat_input_id == old(self).chat_input_id,
    {
        match result {
            Ok(token) => {
                self.status = Status::Chat;
                self.token = token;
            },
            Err(_) => {
                self.status = Status::InvalidLogin;
                let mut zero: Vec<u8> = Vec::new();
                zero.push(0);
                assert(zero@ =~= seq![0u8]);
                self.token = zero;
            },
        }
    }
}

} // verus!
