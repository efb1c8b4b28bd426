use chata::console::{ConsoleSession, ConsoleStep};
use chata::account::Account;
use chata::console::{
    admin_password, admin_token, admission_reply, console_command, console_frames,
    creation_reply, is_command_defined, is_command_header, password_accepted, token_matches,
    token_refusal, users_listing, Command,
};
use chata::frame::{frame_payload, string_to_buffer, vec_to_buffer};
use chata::queue::Event;
use chata::text::{contains_separator, decode_text, decode_text_or, split_instruction, text_eq};

fn parts(s: &str) -> Vec<String> {
    split_instruction(s)
}

#[test]
fn split_matches_std_split() {
    for s in ["users::write::bob::hi", "", "::", "a:::b", "a::::b", "abc", ":", "x::", "::y"] {
        let expected: Vec<String> = s.split("::").map(String::from).collect();
        assert_eq!(parts(s), expected, "splitting {:?}", s);
    }
}

#[test]
fn split_then_join_gives_back_text() {
    for s in ["users::write::bob::hi", "a:::b", "::", "plain"] {
        assert_eq!(parts(s).join("::"), s);
    }
}

#[test]
fn separator_detection() {
    assert!(contains_separator("a::b"));
    assert!(!contains_separator("a:b:c"));
    assert!(!contains_separator(""));
}

#[test]
fn text_helpers() {
    assert!(text_eq("abc", "abc"));
    assert!(!text_eq("abc", "abd"));
    assert_eq!(decode_text(&[0xff]), None);
    assert_eq!(decode_text("ok".as_bytes()), Some(String::from("ok")));
    assert_eq!(decode_text_or(&[0xff], "fallback"), "fallback");
}

#[test]
fn commands_are_read() {
    assert!(matches!(console_command(&parts("")), Command::Nothing));
    assert!(matches!(console_command(&parts("clear")), Command::Clear));
    assert!(matches!(console_command(&parts("exit")), Command::Exit));
    assert!(matches!(console_command(&parts("save")), Command::Save));
    assert!(matches!(console_command(&parts("print::users")), Command::PrintUsers));
    assert!(matches!(console_command(&parts("print::other")), Command::Invalid));
    assert!(matches!(console_command(&parts("users::delete")), Command::Invalid));
    assert!(matches!(console_command(&parts("users::create::a::b")), Command::Invalid));
    assert!(matches!(console_command(&parts("users::write::a")), Command::Invalid));
    assert!(matches!(console_command(&parts("users::other")), Command::Invalid));
    assert!(matches!(console_command(&parts("echo")), Command::Invalid));
    assert!(matches!(console_command(&parts("launch")), Command::Unknown));
}

#[test]
fn commands_with_arguments() {
    match console_command(&parts("users::delete::bob")) {
        Command::DeleteUser(id) => assert_eq!(id, "bob"),
        _ => panic!(),
    }
    match console_command(&parts("users::create::n::p::i")) {
        Command::CreateUser(n, p, i) => assert_eq!((n.as_str(), p.as_str(), i.as_str()), ("n", "p", "i")),
        _ => panic!(),
    }
    match console_command(&parts("users::write::bob::hello there")) {
        Command::Write(id, m) => assert_eq!((id.as_str(), m.as_str()), ("bob", "hello there")),
        _ => panic!(),
    }
    match console_command(&parts("echo::hi")) {
        Command::Echo(t) => assert_eq!(t, "hi"),
        _ => panic!(),
    }
}

#[test]
fn incomplete_commands_are_detected() {
    assert!(!is_command_defined(&parts("print")));
    assert!(!is_command_defined(&parts("users")));
    assert!(!is_command_defined(&Vec::new()));
    assert!(is_command_defined(&parts("echo")));
    assert!(is_command_defined(&parts("print::x")));
}

#[test]
fn command_replies() {
    assert_eq!(Command::Exit.reply(), Some(vec![String::from("EXIT")]));
    assert_eq!(Command::Save.reply(), Some(vec![String::from("OK")]));
    assert_eq!(Command::Echo(String::from("x")).reply(), Some(vec![String::from("OK")]));
    assert_eq!(Command::Invalid.reply(), Some(vec![String::from("INVALID_PARAMETER")]));
    assert_eq!(Command::Unknown.reply(), Some(vec![String::from("COMMAND_NOT_FOUND")]));
    assert_eq!(Command::Nothing.reply(), None);
    assert_eq!(Command::Clear.reply(), None);
    assert_eq!(Command::PrintUsers.reply(), None);
}

#[test]
fn command_events() {
    let e = Command::Write(String::from("bob"), String::from("hi")).events();
    assert_eq!(e.len(), 1);
    match &e[0] {
        Event::SendMessage(to, text, from) => assert_eq!((to.as_str(), text.as_str(), from.as_str()), ("bob", "hi", "[CONSOLE]")),
        _ => panic!(),
    }
    let e = Command::Save.events();
    assert!(matches!(e[0], Event::SaveAuthData) && matches!(e[1], Event::SaveUserData));
    assert!(matches!(Command::Exit.events()[0], Event::ServerShutdown));
    assert!(Command::Echo(String::from("x")).events().is_empty());
    match &Command::DeleteUser(String::from("z")).events()[0] {
        Event::DeleteUser(u) => assert_eq!(u, "z"),
        _ => panic!(),
    }
}

#[test]
fn listing_and_creation_replies() {
    let accounts = vec![
        Account { name: vec![], password: vec![], token: vec![], id: String::from("a") },
        Account { name: vec![], password: vec![], token: vec![], id: String::from("b") },
    ];
    assert_eq!(
        users_listing(&accounts),
        vec![String::from("print::users"), String::from("a"), String::from("b"), String::from("OK")]
    );
    assert_eq!(creation_reply(true), "OK");
    assert_eq!(creation_reply(false), "ACCOUNT_DOES_NOT_MEET_REQUIREMENTS");
    assert_eq!(token_refusal(), vec![String::from("INVALID_TOKEN")]);
}

#[test]
fn console_frames_end_with_empty_frame() {
    let frames = console_frames(&vec![String::from("OK")]).unwrap();
    assert_eq!(frames.len(), 2);
    assert_eq!(frame_payload(&frames[0]), b"OK".to_vec());
    assert!(frames[1].iter().all(|b| *b == 0));
    assert!(console_frames(&vec!["z".repeat(300)]).is_none());
}

#[test]
fn admin_password_is_digits() {
    let p = admin_password(6);
    assert_eq!(p.chars().count(), 6);
    assert!(p.chars().all(|c| ('0'..='8').contains(&c)));
    assert_eq!(admin_password(0), "");
}

#[test]
fn admin_token_starts_with_one() {
    let t = admin_token();
    assert_eq!(t[0], 1);
    assert!(t.iter().all(|b| *b < 255));
}

#[test]
fn password_check() {
    let p = String::from("1234");
    assert!(password_accepted(&p, &string_to_buffer(String::from("1234"))));
    assert!(!password_accepted(&p, &string_to_buffer(String::from("1235"))));
    assert!(!password_accepted(&p, &vec_to_buffer(&vec![0xff])));
    let odd = String::from("[INVALID UTF8 ENCODING]");
    assert!(password_accepted(&odd, &vec_to_buffer(&vec![0xff])));
}

#[test]
fn admission_replies() {
    let t = admin_token();
    assert_eq!(admission_reply(true, &t), t);
    assert_eq!(frame_payload(&admission_reply(false, &t)), vec![0, 0, 0, 0]);
}

#[test]
fn command_header_and_token() {
    assert!(is_command_header(&[1; 8]));
    assert!(!is_command_header(&[1, 1, 1, 1, 1, 1, 1, 0]));
    let t = admin_token();
    let mut other = t;
    assert!(token_matches(&t, &other));
    other[255] = other[255].wrapping_add(1);
    assert!(!token_matches(&t, &other));
}

#[test]
fn console_session_runs_only_with_token() {
    let session = ConsoleSession::new(4);
    assert_eq!(session.password.chars().count(), 4);
    let (ok, answer) = session.check_password(&string_to_buffer(session.password.clone()));
    assert!(ok);
    assert_eq!(answer, session.token);
    let (ok, answer) = session.check_password(&string_to_buffer(String::from("x")));
    assert!(!ok);
    assert_eq!(frame_payload(&answer), vec![0, 0, 0, 0]);
    let instruction = string_to_buffer(String::from("save"));
    match session.step(&[1; 8], &session.token, &instruction) {
        ConsoleStep::Run(t) => assert_eq!(t, "save"),
        _ => panic!(),
    }
    let mut wrong = session.token;
    wrong[5] = wrong[5].wrapping_add(1);
    assert!(matches!(session.step(&[1; 8], &wrong, &instruction), ConsoleStep::Refuse));
    assert!(matches!(session.step(&[0; 8], &session.token, &instruction), ConsoleStep::Stop));
    assert!(matches!(session.step(&[1; 8], &session.token, &vec_to_buffer(&vec![0xff])), ConsoleStep::Skip));
}

#[test]
fn command_answers() {
    let accounts = vec![Account { name: vec![], password: vec![], token: vec![], id: String::from("a") }];
    assert_eq!(
        Command::PrintUsers.answer(&accounts, false),
        Some(vec![String::from("print::users"), String::from("a"), String::from("OK")])
    );
    let create = Command::CreateUser(String::from("n"), String::from("p"), String::from("i"));
    assert_eq!(create.answer(&accounts, true), Some(vec![String::from("OK")]));
    assert_eq!(create.answer(&accounts, false), Some(vec![String::from("ACCOUNT_DOES_NOT_MEET_REQUIREMENTS")]));
    assert_eq!(Command::Exit.answer(&accounts, false), Some(vec![String::from("EXIT")]));
    assert_eq!(Command::Clear.answer(&accounts, false), None);
}
