use chata::account::Account;
use chata::chat::{ChatMessage, ChatModel, ChatRequest, Status};
use chata::layout::{body_lines, header_lines, users_table};

#[test]
fn header_centres_title() {
    let lines = header_lines(&String::from("ab"), 6).unwrap();
    assert_eq!(lines, vec![
        String::from("┌──────┐"),
        String::from("│  ab  │"),
        String::from("├──────┤"),
    ]);
    let lines = header_lines(&String::from("abc"), 6).unwrap();
    assert_eq!(lines[1], "│  abc │");
}

#[test]
fn header_too_wide_title_is_none() {
    assert!(header_lines(&String::from("abcdefgh"), 4).is_none());
    assert!(header_lines(&String::from("abc"), 2).is_none());
}

#[test]
fn body_cuts_and_pads() {
    let lines = body_lines(&vec![String::from("hi"), String::from("toolong")], 4);
    assert_eq!(lines, vec![
        String::from("│hi  │"),
        String::from("│tool│"),
        String::from("└────┘"),
    ]);
}

#[test]
fn table_of_users() {
    let accounts = vec![Account { name: vec![], password: vec![], token: vec![], id: String::from("u1") }];
    let lines = users_table(&accounts, 40).unwrap();
    assert_eq!(lines.len(), 5);
    assert_eq!(lines[1].chars().count(), 42);
    assert!(lines[1].contains("List of all accounts"));
    assert!(lines[3].starts_with("│u1 "));
    assert!(users_table(&accounts, 10).is_none());
}

#[test]
fn chat_login_flow() {
    let mut m = ChatModel::new();
    assert_eq!(m.title(), "Chata");
    assert!(matches!(m.update(ChatMessage::NameChanged(String::from("al"))), ChatRequest::Nothing));
    assert!(matches!(m.update(ChatMessage::PasswdChanged(String::from("pw"))), ChatRequest::Nothing));
    match m.update(ChatMessage::LoginButtonPressed) {
        ChatRequest::Login(n, p) => assert_eq!((n.as_str(), p.as_str()), ("al", "pw")),
        _ => panic!(),
    }
    m.login_finished(Err(String::from("invalid login")));
    assert!(matches!(m.status, Status::InvalidLogin));
    assert_eq!(m.token, vec![0]);
    m.login_finished(Ok(vec![4, 4]));
    assert!(matches!(m.status, Status::Chat));
    assert_eq!(m.token, vec![4, 4]);
}

#[test]
fn chat_send_clears_input() {
    let mut m = ChatModel::new();
    m.login_finished(Ok(vec![1]));
    m.update(ChatMessage::ChatMessageChanged(String::from("hello")));
    m.update(ChatMessage::ChatMessageIDChanged(String::from("bob")));
    match m.update(ChatMessage::ChatMessageSent) {
        ChatRequest::Send(text, id, token) => {
            assert_eq!(text, "hello");
            assert_eq!(id, "bob");
            assert_eq!(token, vec![1]);
        }
        _ => panic!(),
    }
    assert_eq!(m.chat_input, "");
    assert_eq!(m.chat_input_id, "bob");
}

#[test]
fn chat_login_notice() {
    let mut m = ChatModel::new();
    assert_eq!(m.login_notice(), "");
    m.login_finished(Err(String::from("x")));
    assert_eq!(m.login_notice(), "invalid login");
    m.login_finished(Ok(vec![1]));
    assert_eq!(m.login_notice(), "bad");
}
