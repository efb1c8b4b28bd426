use chata::queue::{Event, Reaction, Server};
use chata::account::{check_login, check_token, create_account, search_by_id, Account};
use chata::user::{
    account_ids, create_user, delete_user, find_user_data, mark_saved, next_unsaved,
    prepare_user, userdata_or_placeholder, write_message, Message, UserData,
};

fn boxed(id: &str) -> UserData {
    UserData { id: String::from(id), messages: Vec::new(), changed: false }
}

fn account(id: &str) -> Account {
    Account { name: vec![], password: vec![], token: vec![0], id: String::from(id) }
}

#[test]
fn write_message_appends_and_marks_changed() {
    let mut users = vec![boxed("a"), boxed("b")];
    let r = write_message(String::from("b"), String::from("hi"), String::from("a"), &mut users);
    assert_eq!(r, Ok(()));
    assert!(users[1].changed);
    assert!(!users[0].changed);
    assert_eq!(users[1].messages.len(), 1);
    assert_eq!(users[1].messages[0].value, "hi");
    assert_eq!(users[1].messages[0].id, "a");
}

#[test]
fn write_message_to_unknown_user_fails() {
    let mut users = vec![boxed("a")];
    let r = write_message(String::from("z"), String::from("hi"), String::from("a"), &mut users);
    assert_eq!(r, Err(String::from("could not find user")));
    assert!(users[0].messages.is_empty());
}

#[test]
fn delete_user_removes_first_match() {
    let mut accounts = vec![account("a"), account("b"), account("c")];
    assert_eq!(delete_user(&mut accounts, String::from("b")), Ok(()));
    assert_eq!(accounts.len(), 2);
    assert_eq!(accounts[0].id, "a");
    assert_eq!(accounts[1].id, "c");
}

#[test]
fn delete_unknown_user_fails() {
    let mut accounts = vec![account("a")];
    assert_eq!(delete_user(&mut accounts, String::from("x")), Err(String::from("could not find user")));
    assert_eq!(accounts.len(), 1);
}

#[test]
fn deleted_user_is_gone() {
    let mut accounts = vec![account("a"), account("b")];
    delete_user(&mut accounts, String::from("a")).unwrap();
    assert_eq!(search_by_id(&accounts, String::from("a")), Err(()));
}

#[test]
fn prepare_user_refuses_separator() {
    let r = prepare_user(String::from("a::b"), String::from("pw"), String::from("id"));
    assert_eq!(r.err(), Some(String::from("invalid username")));
    let r = prepare_user(String::from("ab"), String::from("pw"), String::from("i::d"));
    assert_eq!(r.err(), Some(String::from("invalid username")));
}

#[test]
fn prepare_user_allows_separator_in_password() {
    let r = prepare_user(String::from("ab"), String::from("p::w"), String::from("id"));
    assert!(r.is_ok());
}

#[test]
fn registered_user_can_log_in_and_authenticate() {
    let mut accounts: Vec<Account> = Vec::new();
    let mut users: Vec<UserData> = Vec::new();
    let account = prepare_user(String::from("alice"), String::from("pw"), String::from("al")).unwrap();
    let token = create_user(&mut accounts, &mut users, account).unwrap();
    assert_eq!(token.len(), 255);
    assert_eq!(check_token(&accounts, &token), Ok(0));
    assert_eq!(check_login(&accounts, b"alice", b"pw"), Ok(0));
    assert_eq!(users.len(), 1);
    assert_eq!(users[0].id, "al");
    assert!(users[0].changed);
}

#[test]
fn create_user_refuses_existing_id_but_adds_box() {
    let mut accounts = vec![account("al")];
    let mut users: Vec<UserData> = Vec::new();
    let again = create_account(String::from("x"), String::from("y"), String::from("al"));
    let r = create_user(&mut accounts, &mut users, again);
    assert_eq!(r, Err(String::from("user already exist")));
    assert_eq!(accounts.len(), 1);
    assert_eq!(users.len(), 1);
}

#[test]
fn delivered_message_is_read_back() {
    let mut users = vec![boxed("a"), boxed("b"), boxed("b")];
    write_message(String::from("b"), String::from("one"), String::from("a"), &mut users).unwrap();
    write_message(String::from("b"), String::from("two"), String::from("c"), &mut users).unwrap();
    let found = find_user_data(&users, &String::from("b")).unwrap();
    assert_eq!(found.messages.len(), 2);
    assert_eq!(found.messages[1].value, "two");
    assert_eq!(found.messages[1].id, "c");
    assert!(users[2].messages.is_empty());
}

#[test]
fn find_user_data_of_unknown_id_is_none() {
    let users = vec![boxed("a")];
    assert!(find_user_data(&users, &String::from("q")).is_none());
}

#[test]
fn unreadable_box_becomes_placeholder() {
    let u = userdata_or_placeholder(None);
    assert_eq!(u.id, "[ERROR]");
    assert!(u.messages.is_empty());
    assert!(u.changed);
    let v = userdata_or_placeholder(Some(boxed("k")));
    assert_eq!(v.id, "k");
}

#[test]
fn saving_visits_changed_boxes_in_order() {
    let mut users = vec![boxed("a"), boxed("b"), boxed("c")];
    users[0].changed = true;
    users[2].changed = true;
    assert_eq!(next_unsaved(&users, 0), Some(0));
    mark_saved(&mut users, 0);
    assert_eq!(next_unsaved(&users, 1), Some(2));
    mark_saved(&mut users, 2);
    assert_eq!(next_unsaved(&users, 0), None);
    assert_eq!(next_unsaved(&users, 7), None);
    assert_eq!(users[2].id, "c");
}

#[test]
fn account_ids_in_order() {
    let accounts = vec![account("x"), account("y")];
    assert_eq!(account_ids(&accounts), vec![String::from("x"), String::from("y")]);
}

#[test]
fn userdata_clone_copies_messages() {
    let mut u = boxed("a");
    u.messages.push(Message { value: String::from("v"), id: String::from("s") });
    let c = u.clone();
    assert_eq!(c.messages.len(), 1);
    assert_eq!(c.messages[0].value, "v");
}

#[test]
fn mark_all_saved_clears_every_flag() {
    let mut users = vec![boxed("a"), boxed("b"), boxed("c"), boxed("d")];
    users[1].changed = true;
    users[3].changed = true;
    let saved = chata::user::mark_all_saved(&mut users);
    assert_eq!(saved, vec![1, 3]);
    assert!(users.iter().all(|u| !u.changed));
    assert_eq!(users[3].id, "d");
}

#[test]
fn save_next_marks_one_box() {
    let mut users = vec![boxed("a"), boxed("b")];
    users[1].changed = true;
    assert_eq!(chata::user::save_next(&mut users, 0), Some(1));
    assert!(!users[1].changed);
    assert_eq!(chata::user::save_next(&mut users, 0), None);
}

#[test]
fn send_then_pull_through_queue() {
    let mut s = Server::new(Vec::new(), vec![boxed("to")]);
    s.apply(Event::SendMessage(String::from("to"), String::from("m"), String::from("from")));
    match s.apply(Event::RequestUserData(String::from("to"))) {
        Reaction::UserData(Some(u)) => {
            assert_eq!(u.id, "to");
            assert!(u.changed);
            let last = u.messages.last().unwrap();
            assert_eq!((last.value.as_str(), last.id.as_str()), ("m", "from"));
        }
        _ => panic!(),
    }
}

#[test]
fn send_then_pull_with_events_between() {
    let mut s = Server::new(Vec::new(), vec![boxed("x"), boxed("to")]);
    s.apply(Event::SendMessage(String::from("to"), String::from("m"), String::from("from")));
    s.apply(Event::SendMessage(String::from("x"), String::from("other"), String::from("y")));
    s.apply(Event::RequestAccountData);
    let account = match s.apply(Event::CreateUser(String::from("n"), String::from("p"), String::from("new"))) {
        Reaction::StoreNewUser(a) => a,
        _ => panic!(),
    };
    s.register(account).unwrap();
    match s.apply(Event::RequestUserData(String::from("to"))) {
        Reaction::UserData(Some(u)) => {
            assert!(u.changed);
            let last = u.messages.last().unwrap();
            assert_eq!((last.value.as_str(), last.id.as_str()), ("m", "from"));
        }
        _ => panic!(),
    }
}
