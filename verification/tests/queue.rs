use chata::account::Account;
use chata::queue::{creation_report, deletion_report, Event, Reaction, Server, State};
use chata::user::UserData;

fn server() -> Server {
    let accounts = vec![Account { name: vec![], password: vec![], token: vec![7], id: String::from("a") }];
    let users = vec![UserData { id: String::from("a"), messages: Vec::new(), changed: false }];
    Server::new(accounts, users)
}

fn line(state: &State) -> (&'static str, String) {
    match state {
        State::Information(t) => ("info", t.clone()),
        State::ImportantInformation(t) => ("important", t.clone()),
        State::Error(t) => ("error", t.clone()),
        State::CriticalError(t) => ("critical", t.clone()),
    }
}

#[test]
fn send_message_event_delivers() {
    let mut s = server();
    let r = s.apply(Event::SendMessage(String::from("a"), String::from("hey"), String::from("b")));
    match r {
        Reaction::Log(state) => assert_eq!(line(&state), ("info", String::from("executed message send event"))),
        _ => panic!("expected a log line"),
    }
    assert_eq!(s.userdata[0].messages[0].value, "hey");
    assert!(s.userdata[0].changed);
}

#[test]
fn send_message_event_to_unknown_user_logs_error() {
    let mut s = server();
    let r = s.apply(Event::SendMessage(String::from("q"), String::from("hey"), String::from("b")));
    match r {
        Reaction::Log(state) => assert_eq!(
            line(&state),
            ("error", String::from("failed to execute message send event [could not find user]"))
        ),
        _ => panic!("expected a log line"),
    }
}

#[test]
fn delete_event_asks_to_remove_file() {
    let mut s = server();
    match s.apply(Event::DeleteUser(String::from("a"))) {
        Reaction::RemoveUserFile(id) => assert_eq!(id, "a"),
        _ => panic!("expected file removal"),
    }
    assert!(s.accounts.is_empty());
    match s.apply(Event::DeleteUser(String::from("a"))) {
        Reaction::Log(state) => assert_eq!(line(&state), ("error", String::from("failed to delete user [could not find user]"))),
        _ => panic!("expected a log line"),
    }
}

#[test]
fn create_event_prepares_then_registers() {
    let mut s = server();
    let account = match s.apply(Event::CreateUser(String::from("n"), String::from("p"), String::from("new"))) {
        Reaction::StoreNewUser(account) => account,
        _ => panic!("expected a prepared account"),
    };
    assert_eq!(s.accounts.len(), 1);
    let token = s.register(account).unwrap();
    assert_eq!(token.len(), 255);
    assert_eq!(s.accounts.len(), 2);
    assert_eq!(s.userdata.len(), 2);
    assert_eq!(line(&creation_report(&Ok(token))), ("info", String::from("executed user creation event")));
}

#[test]
fn create_event_with_bad_name_is_refused() {
    let mut s = server();
    match s.apply(Event::CreateUser(String::from("n::x"), String::from("p"), String::from("new"))) {
        Reaction::CreationRefused(e) => {
            assert_eq!(e, "invalid username");
            assert_eq!(line(&creation_report(&Err(e))), ("error", String::from("failed to create user [invalid username]")));
        }
        _ => panic!("expected a refusal"),
    }
}

#[test]
fn request_events_answer_copies() {
    let mut s = server();
    match s.apply(Event::RequestAccountData) {
        Reaction::Accounts(a) => {
            assert_eq!(a.len(), 1);
            assert_eq!(a[0].token, vec![7]);
        }
        _ => panic!("expected accounts"),
    }
    match s.apply(Event::RequestUserData(String::from("a"))) {
        Reaction::UserData(Some(u)) => assert_eq!(u.id, "a"),
        _ => panic!("expected a box"),
    }
    match s.apply(Event::RequestUserData(String::from("zz"))) {
        Reaction::UserData(None) => {}
        _ => panic!("expected no box"),
    }
}

#[test]
fn storage_events_pass_through() {
    let mut s = server();
    assert!(matches!(s.apply(Event::SaveAuthData), Reaction::SaveAccounts));
    assert!(matches!(s.apply(Event::SaveUserData), Reaction::SaveUsers));
    assert!(matches!(s.apply(Event::ServerShutdown), Reaction::Shutdown));
}

#[test]
fn deletion_report_texts() {
    let id = String::from("bob");
    assert_eq!(line(&deletion_report(&id, &Ok(()))), ("info", String::from("executed user deletion event")));
    assert_eq!(
        line(&deletion_report(&id, &Err(String::from("No such file")))),
        ("error", String::from("failed to delete user [could not delete userdata for user bob [No such file]]"))
    );
}
