//! The server's event queue: every change to accounts and message boxes
//! arrives as an event, and `Server::apply` decides what it does and what
//! the caller has to carry out (store data, answer a request, log a line).

use vstd::prelude::*;
use crate::account::{account_views, Account};
use crate::text::owned;
use crate::user::{
    create_user, delete_user, deletion, delivery, find_user_data, first_user_with_id, has_user,
    prepare_user, registration, write_message, Message, UserData, UserDataView,
};

verus! {

/// A line for the server console, with its weight.
pub enum State {
    Information(String),
    ImportantInformation(String),
    Error(String),
    CriticalError(String),
}

/// What the server's threads ask of the event queue.
pub enum Event {
    /// Remove the account with this id.
    DeleteUser(String),
    /// Register a login name, a password and an id.
    CreateUser(String, String, String),
    /// Deliver a message: recipient id, text, sender id.
    SendMessage(String, String, String),
    /// Store everything and stop.
    ServerShutdown,
    /// Answer with the list of accounts.
    RequestAccountData,
    /// Store the accounts.
    SaveAuthData,
    /// Store the changed message boxes.
    SaveUserData,
    /// Answer with the message box of this id.
    RequestUserData(String),
}

/// What the caller of `Server::apply` has to carry out.
pub enum Reaction {
    /// Write this line to the console.
    Log(State),
    /// Answer the request with a copy of these accounts.
    Accounts(Vec<Account>),
    /// Answer the request with this box, or with a failure.
    UserData(Option<UserData>),
    /// Store the server's accounts.
    SaveAccounts,
    /// Store the server's changed message boxes.
    SaveUsers,
    /// The account is gone: remove the stored box of this id, then report
    /// with `deletion_report`.
    RemoveUserFile(String),
    /// Creation was refused: answer the request with this error and log it.
    CreationRefused(String),
    /// Store an empty box for the prepared account, then call
    /// `Server::register` with it (or answer with the storage error).
    StoreNewUser(Account),
    /// Store everything and stop.
    Shutdown,
}

/// `prefix`, then `detail`, then a closing bracket.
pub fn bracketed(prefix: &str, detail: &str) -> (line: String)
    ensures
        line@ == prefix@ + detail@ + "]"@,
{
    let mut line = owned(prefix);
    line.append(detail);
    line.append("]");
    line
}

/// The accounts and message boxes that the event queue owns.
pub struct Server {
    pub accounts: Vec<Account>,
    pub userdata: Vec<UserData>,
}

impl Server {
    /// A server with the stored accounts and boxes.
    pub fn new(accounts: Vec<Account>, userdata: Vec<UserData>) -> (server: Server)
        ensures
            server.accounts == accounts,
            server.userdata == userdata,
    {
        Server { accounts, userdata }
    }

    /// Carries out one event on the accounts and boxes, and says what the
    /// caller has to do next.
    pub fn apply(&mut self, event: Event) -> (reaction: Reaction)
        ensures
            match event {
                Event::SendMessage(id, text, sender) => {
                    let message = Message { value: text, id: sender };
                    let ok = has_user(old(self).userdata@, id@);
                    &&& delivery(old(self).userdata@, final(self).userdata@, id@, message, ok)
                    &&& final(self).accounts == old(self).accounts
                    &&& if ok {
                        reaction matches Reaction::Log(State::Information(t)) && t@
                            == "executed message send event"@
                    } else {
                        reaction matches Reaction::Log(State::Error(t)) && t@
                            == "failed to execute message send event ["@ + "could not find user"@
                            + "]"@
                    }
                },
                Event::DeleteUser(user) => {
                    let ok = crate::account::has_id(old(self).accounts@, user@);
                    &&& deletion(old(self).accounts@, final(self).accounts@, user@, ok)
                    &&& final(self).userdata == old(self).userdata
                    &&& if ok {
                        reaction matches Reaction::RemoveUserFile(id) && id@ == user@
                    } else {
                        reaction matches Reaction::Log(State::Error(t)) && t@
                            == "failed to delete user ["@ + "could not find user"@ + "]"@
                    }
                },
                Event::CreateUser(name, password, id) => {
                    &&& *final(self) == *old(self)
                    &&& if crate::text::has_sep(name@) || crate::text::has_sep(id@) {
                        reaction matches Reaction::CreationRefused(e) && e@ == "invalid username"@
                    } else {
                        reaction matches Reaction::StoreNewUser(account) && {
                            &&& account.name@ == crate::account::sha512_digest(
                                crate::frame::text_bytes(name@),
                            )
                            &&& account.password@ == crate::account::sha512_digest(
                                crate::frame::text_bytes(password@),
                            )
                            &&& crate::account::well_formed_token(account.token@)
                            &&& account.id@ == id@
                        }
                    }
                },
                Event::RequestAccountData => {
                    &&& *final(self) == *old(self)
                    &&& reaction matches Reaction::Accounts(copy) && account_views(copy@)
                        == account_views(old(self).accounts@)
                },
                Event::RequestUserData(id) => {
                    &&& *final(self) == *old(self)
                    &&& reaction matches Reaction::UserData(found) && match found {
                        Some(u) => exists|i: int|
                            first_user_with_id(old(self).userdata@, id@, i) && u@ == old(
                                self,
                            ).userdata@[i]@,
                        None => !has_user(old(self).userdata@, id@),
                    }
                },
                Event::SaveAuthData => *final(self) == *old(self) && reaction is SaveAccounts,
                Event::SaveUserData => *final(self) == *old(self) && reaction is SaveUsers,
                Event::ServerShutdown => *final(self) == *old(self) && reaction is Shutdown,
            },
    {
        match event {
            Event::SendMessage(id, text, sender) => {
                match write_message(id, text, sender, &mut self.userdata) {
                    Ok(_) => Reaction::Log(State::Information(owned("executed message send event"))),
                    Err(e) => Reaction::Log(
                        State::Error(bracketed("failed to execute message send event [", e.as_str())),
                    ),
                }
            },
            Event::DeleteUser(user) => {
                let id = user.clone();
                match delete_user(&mut self.accounts, user) {
                    Ok(_) => Reaction::RemoveUserFile(id),
                    Err(e) => Reaction::Log(
                        State::Error(bracketed("failed to delete user [", e.as_str())),
                    ),
                }
            },
            Event::CreateUser(name, password, id) => {
                match prepare_user(name, password, id) {
                    Ok(account) => Reaction::StoreNewUser(account),
                    Err(e) => Reaction::CreationRefused(e),
                }
            },
            Event::RequestAccountData => {
                let copy = copy_accounts(&self.accounts);
                Reaction::Accounts(copy)
            },
            Event::RequestUserData(id) => Reaction::UserData(find_user_data(&self.userdata, &id)),
            Event::SaveAuthData => Reaction::SaveAccounts,
            Event::SaveUserData => Reaction::SaveUsers,
            Event::ServerShutdown => Reaction::Shutdown,
        }
    }

    /// Registers an account whose empty box has been stored; the result is
    /// the answer to the creation request.
    pub fn register(&mut self, account: Account) -> (result: Result<Vec<u8>, String>)
        ensures
            registration(old(self).accounts@, final(self).accounts@, account@, result is Ok),
            final(self).userdata@.drop_last() == old(self).userdata@,
            final(self).userdata@.len() == old(self).userdata@.len() + 1,
            final(self).userdata@.last()@ == (UserDataView {
                id: account.id@,
                messages: seq![],
                changed: true,
            }),
            result matches Ok(token) ==> token@ == account.token@,
            result matches Err(e) ==> e@ == "user already exist"@,
    {
        create_user(&mut self.accounts, &mut self.userdata, account)
    }
}

/// A copy of a list of accounts.
pub fn copy_accounts(accounts: &Vec<Account>) -> (copy: Vec<Account>)
    ensures
        account_views(copy@) == account_views(accounts@),
{
    let mut copy: Vec<Account> = Vec::new();
    let mut i: usize = 0;
    while i < accounts.len()
        invariant
            i <= accounts@.len(),
            account_views(copy@) == account_views(accounts@.take(i as int)),
        decreases accounts@.len() - i,
    {
        let a = accounts[i].clone();
        let ghost prev = copy@;
        copy.push(a);
        proof {
            assert(copy@ == prev.push(a));
            assert(account_views(copy@) =~= account_views(prev).push(a@));
            assert(accounts@.take(i + 1) =~= accounts@.take(i as int).push(accounts@[i as int]));
            assert(account_views(copy@) =~= account_views(accounts@.take(i + 1)));
        }
        i = i + 1;
    }
    assert(accounts@.take(accounts@.len() as int) =~= accounts@);
    copy
}

/// The console line for the end of a creation request.
pub fn creation_report(result: &Result<Vec<u8>, String>) -> (state: State)
    ensures
        match result {
            Ok(_) => state matches State::Information(t) && t@ == "executed user creation event"@,
            Err(e) => state matches State::Error(t) && t@ == "failed to create user ["@ + e@ + "]"@,
        },
{
    match result {
        Ok(_) => State::Information(owned("executed user creation event")),
        Err(e) => State::Error(bracketed("failed to create user [", e.as_str())),
    }
}

/// The console line for the end of a removal, given how removing the stored
/// box of `id` went.
pub fn deletion_report(id: &String, removal: &Result<(), String>) -> (state: State)
    ensures
        match removal {
            Ok(_) => state matches State::Information(t) && t@ == "executed user deletion event"@,
            Err(e) => state matches State::Error(t) && t@ == "failed to delete user ["@ + (
            "could not delete userdata for user "@ + id@ + " ["@ + e@ + "]"@) + "]"@,
        },
{
    match removal {
        Ok(_) => State::Information(owned("executed user deletion event")),
        Err(e) => {
            let mut detail = owned("could not delete userdata for user ");
            detail.append(id.as_str());
            detail.append(" [");
            detail.append(e.as_str());
            detail.append("]");
            State::Error(bracketed("failed to delete user [", detail.as_str()))
        },
    }
}

} // verus!
