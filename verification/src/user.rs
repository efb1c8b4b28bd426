//! Users' message boxes and the operations on accounts and message boxes
//! that the server's event queue performs.

use vstd::prelude::*;
use crate::account::{
    account_views, create_account, does_user_already_exist, first_with_id, has_id, search_by_id,
    sha512_digest, well_formed_token, Account, AccountView,
};
use crate::text::{contains_separator, has_sep, owned};

verus! {

/// A message in a user's box: its text and the id of its sender.
pub struct Message {
    pub value: String,
    pub id: String,
}

/// The mathematical content of a message.
pub struct MessageView {
    pub value: Seq<char>,
    pub id: Seq<char>,
}

impl View for Message {
    type V = MessageView;

    open spec fn view(&self) -> MessageView {
        MessageView { value: self.value@, id: self.id@ }
    }
}

impl Clone for Message {
    fn clone(&self) -> (copy: Self)
        ensures
            copy@ == self@,
    {
        Message { value: self.value.clone(), id: self.id.clone() }
    }
}

/// The views of a list of messages.
pub open spec fn message_views(messages: Seq<Message>) -> Seq<MessageView> {
    messages.map_values(|m: Message| m@)
}

/// A user's message box; `changed` says whether it differs from what was
/// last stored.
pub struct UserData {
    pub id: String,
    pub messages: Vec<Message>,
    pub changed: bool,
}

/// The mathematical content of a message box.
pub struct UserDataView {
    pub id: Seq<char>,
    pub messages: Seq<MessageView>,
    pub changed: bool,
}

impl View for UserData {
    type V = UserDataView;

    open spec fn view(&self) -> UserDataView {
        UserDataView { id: self.id@, messages: message_views(self.messages@), changed: self.changed }
    }
}

impl Clone for UserData {
    fn clone(&self) -> (copy: Self)
        ensures
            copy@ == self@,
    {
        let messages = self.messages.clone();
        proof {
            assert(message_views(messages@) =~= message_views(self.messages@)) by {
                assert forall|i: int| 0 <= i < messages@.len() implies messages@[i]@
                    == self.messages@[i]@ by {
                    assert(cloned::<Message>(self.messages@[i], messages@[i]));
                }
            }
        }
        UserData { id: self.id.clone(), messages, changed: self.changed }
    }
}

/// The views of a list of message boxes.
pub open spec fn userdata_views(users: Seq<UserData>) -> Seq<UserDataView> {
    users.map_values(|u: UserData| u@)
}

/// `i` is the first position of `users` whose box has the id.
pub open spec fn first_user_with_id(users: Seq<UserData>, id: Seq<char>, i: int) -> bool {
    &&& 0 <= i < users.len()
    &&& users[i].id@ == id
    &&& forall|j: int| 0 <= j < i ==> users[j].id@ != id
}

/// Whether some box has the id.
pub open spec fn has_user(users: Seq<UserData>, id: Seq<char>) -> bool {
    exists|i: int| 0 <= i < users.len() && users[i].id@ == id
}

/// The position of the first box with this id.
pub fn find_user(users: &Vec<UserData>, id: &String) -> (found: Option<usize>)
    ensures
        match found {
            Some(i) => first_user_with_id(users@, id@, i as int),
            None => !has_user(users@, id@),
        },
{
    let mut i: usize = 0;
    while i < users.len()
        invariant
            i <= users@.len(),
            forall|j: int| 0 <= j < i ==> users@[j].id@ != id@,
        decreases users@.len() - i,
    {
        if users[i].id == *id {
            return Some(i);
        }
        i = i + 1;
    }
    None
}

/// What delivering `message` to the box of `id` does: the first box with
/// that id gets the message at its end and is marked changed, the others stay
/// as they were; where no box has the id, nothing changes and delivery fails.
pub open spec fn delivery(
    before: Seq<UserData>,
    after: Seq<UserData>,
    id: Seq<char>,
    message: Message,
    ok: bool,
) -> bool {
    if has_user(before, id) {
        &&& ok
        &&& exists|i: int|
            {
                &&& first_user_with_id(before, id, i)
                &&& after.len() == before.len()
                &&& forall|j: int| 0 <= j < before.len() && j != i ==> #[trigger] after[j] == before[j]
                &&& after[i].id == before[i].id
                &&& after[i].changed
                &&& after[i].messages@ == before[i].messages@.push(message)
            }
    } else {
        !ok && after == before
    }
}

/// Puts a message from `sender_id` into the box of `string_id`, and marks
/// the box as changed. Fails where no box has that id.
pub fn write_message(string_id: String, message: String, sender_id: String, userdata: &mut Vec<
    UserData,
>) -> (result: Result<(), String>)
    ensures
        delivery(
            old(userdata)@,
            final(userdata)@,
            string_id@,
            Message { value: message, id: sender_id },
            result is Ok,
        ),
        result matches Err(e) ==> e@ == "could not find user"@,
{
    match find_user(userdata, &string_id) {
        Some(i) => {
            let ghost before = userdata@;
            let mut user = userdata.remove(i);
            user.changed = true;
            user.messages.push(Message { value: message, id: sender_id });
            userdata.insert(i, user);
            assert(has_user(before, string_id@));
            Ok(())
        },
        None => Err(owned("could not find user")),
    }
}

/// What removing the user `id` does: the first account with that id
/// leaves the list; where no account has the id, nothing changes and the
/// removal fails.
pub open spec fn deletion(before: Seq<Account>, after: Seq<Account>, id: Seq<char>, ok: bool) -> bool {
    if has_id(before, id) {
        ok && exists|i: int| first_with_id(before, id, i) && after == before.remove(i)
    } else {
        !ok && after == before
    }
}

/// Removes the first account with id `user`. Fails where there is none.
pub fn delete_user(accounts: &mut Vec<Account>, user: String) -> (result: Result<(), String>)
    ensures
        deletion(old(accounts)@, final(accounts)@, user@, result is Ok),
        result matches Err(e) ==> e@ == "could not find user"@,
{
    match search_by_id(accounts, user) {
        Ok(i) => {
            accounts.remove(i);
            Ok(())
        },
        Err(_) => Err(owned("could not find user")),
    }
}

/// Checks a requested login name and id, and makes the account for them.
/// Names and ids may not hold the separator `::` of the console language.
pub fn prepare_user(name: String, password: String, id: String) -> (result: Result<Account, String>)
    ensures
        match result {
            Ok(account) => {
                &&& !has_sep(name@)
                &&& !has_sep(id@)
                &&& account.name@ == sha512_digest(crate::frame::text_bytes(name@))
                &&& account.password@ == sha512_digest(crate::frame::text_bytes(password@))
                &&& well_formed_token(account.token@)
                &&& account.id@ == id@
            },
            Err(e) => (has_sep(name@) || has_sep(id@)) && e@ == "invalid username"@,
        },
{
    if contains_separator(name.as_str()) || contains_separator(id.as_str()) {
        return Err(owned("invalid username"));
    }
    Ok(create_account(name, password, id))
}

/// What registering `account` does to the accounts: where no account has
/// its id it is added at the end, else nothing changes and registration
/// fails.
pub open spec fn registration(
    before: Seq<Account>,
    after: Seq<Account>,
    account: AccountView,
    ok: bool,
) -> bool {
    if has_id(before, account.id) {
        !ok && after == before
    } else {
        ok && account_views(after) == account_views(before).push(account)
    }
}

/// Registers a prepared account: gives it an empty, changed message box and,
/// unless an account with its id exists already, adds it to the accounts.
/// Returns the new account's token. The account comes from `prepare_user`,
/// which checks the name and the id for `::` and makes the hashes and the
/// token; the stored empty box is written between the two steps.
pub fn create_user(accounts: &mut Vec<Account>, userdata: &mut Vec<UserData>, account: Account) -> (result:
    Result<Vec<u8>, String>)
    ensures
        final(userdata)@.len() == old(userdata)@.len() + 1,
        final(userdata)@.drop_last() == old(userdata)@,
        final(userdata)@.last()@ == (UserDataView { id: account.id@, messages: seq![], changed: true }),
        registration(old(accounts)@, final(accounts)@, account@, result is Ok),
        result matches Ok(token) ==> token@ == account.token@,
        result matches Err(e) ==> e@ == "user already exist"@,
{
    let ghost old_users = userdata@;
    userdata.push(UserData { id: account.id.clone(), messages: Vec::new(), changed: true });
    proof {
        assert(userdata@.drop_last() =~= old_users);
        assert(message_views(userdata@.last().messages@) =~= seq![]);
    }
    if !does_user_already_exist(accounts, &account) {
        let token = account.token.clone();
        let ghost old_accounts = accounts@;
        let ghost added = account@;
        accounts.push(account);
        proof {
            assert(account_views(accounts@) =~= account_views(old_accounts).push(added));
        }
        Ok(token)
    } else {
        Err(owned("user already exist"))
    }
}

/// A copy of the first box with this id, if any.
pub fn find_user_data(userdata: &Vec<UserData>, id: &String) -> (found: Option<UserData>)
    ensures
        match found {
            Some(u) => exists|i: int|
                first_user_with_id(userdata@, id@, i) && u@ == userdata@[i]@,
            None => !has_user(userdata@, id@),
        },
{
    match find_user(userdata, id) {
        Some(i) => Some(userdata[i].clone()),
        None => None,
    }
}

/// The box that stands for a stored box that could not be read.
pub fn unreadable_user() -> (user: UserData)
    ensures
        user@ == (UserDataView { id: "[ERROR]"@, messages: seq![], changed: true }),
{
    let user = UserData { id: owned("[ERROR]"), messages: Vec::new(), changed: true };
    assert(message_views(user.messages@) =~= seq![]);
    user
}

/// A decoded stored box, or the stand-in where decoding failed.
pub fn userdata_or_placeholder(decoded: Option<UserData>) -> (user: UserData)
    ensures
        match decoded {
            Some(u) => user == u,
            None => user@ == (UserDataView { id: "[ERROR]"@, messages: seq![], changed: true }),
        },
{
    match decoded {
        Some(u) => u,
        None => unreadable_user(),
    }
}

/// The position of the first changed box at or after `from`.
pub fn next_unsaved(users: &Vec<UserData>, from: usize) -> (next: Option<usize>)
    ensures
        match next {
            Some(i) => from <= i < users@.len() && users@[i as int].changed && forall|j: int|
                from <= j < i ==> !users@[j].changed,
            None => forall|j: int| from <= j < users@.len() ==> !users@[j].changed,
        },
{
    let mut i: usize = from;
    while i < users.len()
        invariant
            from <= i,
            forall|j: int| from <= j < i ==> !users@[j].changed,
        decreases users@.len() - i,
    {
        if users[i].changed {
            return Some(i);
        }
        i = i + 1;
    }
    None
}

/// Marks the box at `i` as stored.
pub fn mark_saved(users: &mut Vec<UserData>, i: usize)
    requires
        i < old(users)@.len(),
    ensures
        final(users)@.len() == old(users)@.len(),
        forall|j: int|
            0 <= j < old(users)@.len() && j != i ==> #[trigger] final(users)@[j] == old(users)@[j],
        final(users)@[i as int].id == old(users)@[i as int].id,
        final(users)@[i as int].messages == old(users)@[i as int].messages,
        !final(users)@[i as int].changed,
{
    let mut user = users.remove(i);
    user.changed = false;
    users.insert(i, user);
}

/// Saves the next box: finds the first changed box at or after `from`,
/// marks it saved, and gives its position; `None`, changing nothing, where
/// no box from `from` on is changed.
pub fn save_next(users: &mut Vec<UserData>, from: usize) -> (saved: Option<usize>)
    ensures
        final(users)@.len() == old(users)@.len(),
        match saved {
            Some(i) => {
                &&& from <= i < old(users)@.len()
                &&& old(users)@[i as int].changed
                &&& forall|j: int| from <= j < i ==> !old(users)@[j].changed
                &&& forall|j: int|
                    0 <= j < old(users)@.len() && j != i ==> #[trigger] final(users)@[j] == old(
                        users,
                    )@[j]
                &&& final(users)@[i as int].id == old(users)@[i as int].id
                &&& final(users)@[i as int].messages == old(users)@[i as int].messages
                &&& !final(users)@[i as int].changed
            },
            None => {
                &&& forall|j: int| from <= j < old(users)@.len() ==> !old(users)@[j].changed
                &&& final(users)@ == old(users)@
            },
        },
{
    match next_unsaved(users, from) {
        Some(i) => {
            mark_saved(users, i);
            Some(i)
        },
        None => None,
    }
}

/// Marks every changed box saved. The result holds the positions of exactly
/// the boxes that were changed, in increasing order, so its length is their
/// number; afterwards no box is changed, and ids and messages stay.
pub fn mark_all_saved(users: &mut Vec<UserData>) -> (saved: Vec<usize>)
    ensures
        final(users)@.len() == old(users)@.len(),
        forall|j: int|
            0 <= j < old(users)@.len() ==> {
                &&& !(#[trigger] final(users)@[j]).changed
                &&& final(users)@[j].id == old(users)@[j].id
                &&& final(users)@[j].messages == old(users)@[j].messages
            },
        forall|k: int| 0 <= k < saved@.len() ==> (#[trigger] saved@[k]) < old(users)@.len(),
        forall|k: int, l: int| 0 <= k < l < saved@.len() ==> saved@[k] < saved@[l],
        forall|j: int|
            0 <= j < old(users)@.len() ==> (old(users)@[j].changed <==> saved@.contains(
                j as usize,
            )),
{
    let ghost before = users@;
    let n: usize = users.len();
    let mut saved: Vec<usize> = Vec::new();
    let mut from: usize = 0;
    loop
        invariant
            before == old(users)@,
            n == before.len(),
            users@.len() == before.len(),
            from <= users@.len(),
            forall|j: int|
                0 <= j < before.len() ==> {
                    &&& (#[trigger] users@[j]).id == before[j].id
                    &&& users@[j].messages == before[j].messages
                    &&& j < from ==> !users@[j].changed
                    &&& from <= j ==> users@[j].changed == before[j].changed
                },
            forall|k: int| 0 <= k < saved@.len() ==> (#[trigger] saved@[k]) < from,
            forall|k: int, l: int| 0 <= k < l < saved@.len() ==> saved@[k] < saved@[l],
            forall|j: int| 0 <= j < from ==> (before[j].changed <==> saved@.contains(j as usize)),
        decreases users@.len() - from,
    {
        let ghost prev_users = users@;
        let ghost prev_saved = saved@;
        match save_next(users, from) {
            Some(i) => {
                saved.push(i);
                proof {
                    assert forall|j: int| 0 <= j < i + 1 implies (before[j].changed
                        <==> saved@.contains(j as usize)) by {
                        if j < from {
                            if prev_saved.contains(j as usize) {
                                let k = choose|k: int|
                                    0 <= k < prev_saved.len() && prev_saved[k] == j as usize;
                                assert(saved@[k] == j as usize);
                            }
                            if saved@.contains(j as usize) {
                                let k = choose|k: int|
                                    0 <= k < saved@.len() && saved@[k] == j as usize;
                                if k == prev_saved.len() {
                                    assert(j == i);
                                } else {
                                    assert(prev_saved[k] == j as usize);
                                }
                            }
                        } else if j < i {
                            assert(!prev_users[j].changed);
                            if saved@.contains(j as usize) {
                                let k = choose|k: int|
                                    0 <= k < saved@.len() && saved@[k] == j as usize;
                                if k < prev_saved.len() {
                                    assert(prev_saved[k] < from);
                                }
                            }
                        } else {
                            assert(saved@[prev_saved.len() as int] == i);
                        }
                    }
                    assert forall|j: int| 0 <= j < before.len() implies {
                        &&& (#[trigger] users@[j]).id == before[j].id
                        &&& users@[j].messages == before[j].messages
                        &&& j < i + 1 ==> !users@[j].changed
                        &&& i + 1 <= j ==> users@[j].changed == before[j].changed
                    } by {
                        if j != i {
                            assert(users@[j] == prev_users[j]);
                        }
                    }
                }
                from = i + 1;
            },
            None => {
                proof {
                    assert forall|j: int| 0 <= j < before.len() implies (before[j].changed
                        <==> saved@.contains(j as usize)) by {
                        if j >= from {
                            assert(!prev_users[j].changed);
                            if saved@.contains(j as usize) {
                                let k = choose|k: int|
                                    0 <= k < saved@.len() && saved@[k] == j as usize;
                                assert(saved@[k] < from);
                            }
                        }
                    }
                }
                return saved;
            },
        }
    }
}

/// The ids of the accounts, in order.
pub fn account_ids(accounts: &Vec<Account>) -> (ids: Vec<String>)
    ensures
        ids@.len() == accounts@.len(),
        forall|i: int| 0 <= i < ids@.len() ==> #[trigger] ids@[i]@ == accounts@[i].id@,
{
    let mut ids: Vec<String> = Vec::new();
    let mut i: usize = 0;
    while i < accounts.len()
        invariant
            i <= accounts@.len(),
            ids@.len() == i,
            forall|j: int| 0 <= j < i ==> #[trigger] ids@[j]@ == accounts@[j].id@,
        decreases accounts@.len() - i,
    {
        ids.push(accounts[i].id.clone());
        i = i + 1;
    }
    ids
}

} // verus!
