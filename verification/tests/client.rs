use chata::client::{
    admitted, console_answer, console_request, console_line, convert_messages, login_answer, login_identity,
    login_request, message_request, pull_request, signup_answer, signup_request, AnswerEnd,
    MessageReader,
};
use chata::frame::{frame_payload, string_to_buffer, vec_to_buffer};
use chata::session::pull_reply;
use chata::user::{Message, UserData};

fn msg(value: &str, id: &str) -> Message {
    Message { value: String::from(value), id: String::from(id) }
}

#[test]
fn requests_are_framed() {
    let r = login_request(String::from("n"), String::from("p")).unwrap();
    assert_eq!(r.header, [1, 0, 0, 0, 0, 0, 0, 0]);
    assert_eq!(frame_payload(&r.frames[0]), b"n".to_vec());
    assert_eq!(frame_payload(&r.frames[1]), b"p".to_vec());
    let r = signup_request(String::from("n"), String::from("p"), String::from("i")).unwrap();
    assert_eq!(r.header[0], 2);
    assert_eq!(r.frames.len(), 3);
    let r = pull_request(&vec![3, 4]);
    assert_eq!(r.header[0], 4);
    assert_eq!(frame_payload(&r.frames[0]), vec![3, 4]);
    assert!(login_request("n".repeat(256), String::from("p")).is_none());
}

#[test]
fn message_request_checks_length() {
    let r = message_request(String::from("hi"), String::from("bob"), &vec![1]).unwrap();
    assert_eq!(r.header[0], 3);
    assert_eq!(frame_payload(&r.frames[0]), vec![1]);
    assert_eq!(frame_payload(&r.frames[1]), b"hi".to_vec());
    assert_eq!(frame_payload(&r.frames[2]), b"bob".to_vec());
    let e = message_request("m".repeat(256), String::from("bob"), &vec![1]);
    assert_eq!(e.err(), Some(String::from("message cant be longer than 255 bytes")));
    assert!(message_request("m".repeat(255), String::from("bob"), &vec![1]).is_ok());
}

#[test]
fn login_answers() {
    assert_eq!(login_answer(&vec_to_buffer(&vec![0; 8])), Err(String::from("invalid login")));
    assert_eq!(login_answer(&vec_to_buffer(&vec![0; 7])), Ok(vec![0; 7]));
    assert_eq!(login_answer(&vec_to_buffer(&vec![4, 2])), Ok(vec![4, 2]));
    assert_eq!(login_identity(&string_to_buffer(String::from("al"))), "al");
    assert_eq!(login_identity(&vec_to_buffer(&vec![b'a', 0xff])), "a\u{FFFD}");
}

#[test]
fn signup_answers() {
    assert_eq!(signup_answer(&vec_to_buffer(&vec![1; 4])), Err(String::from("could not create user")));
    assert_eq!(signup_answer(&vec_to_buffer(&vec![7; 4])), Ok(vec![7; 4]));
}

#[test]
fn pull_round_trip() {
    let u = UserData { id: String::from("me"), messages: vec![msg("a", "x"), msg("b", "y")], changed: true };
    let frames = pull_reply(&Some(u)).unwrap();
    let mut reader = MessageReader::new();
    let mut fed = 0;
    for f in frames.iter() {
        fed += 1;
        if !reader.feed(f) {
            break;
        }
    }
    assert_eq!(fed, frames.len());
    let got = reader.into_messages();
    assert_eq!(got.len(), 2);
    assert_eq!((got[0].value.as_str(), got[0].id.as_str()), ("a", "x"));
    assert_eq!((got[1].value.as_str(), got[1].id.as_str()), ("b", "y"));
}

#[test]
fn reader_marks_invalid_text() {
    let mut reader = MessageReader::new();
    assert!(reader.feed(&vec_to_buffer(&vec![0xff])));
    assert!(reader.feed(&string_to_buffer(String::from("s"))));
    assert!(!reader.feed(&vec_to_buffer(&vec![2; 8])));
    let got = reader.into_messages();
    assert_eq!(got[0].value, "[INVALID]");
    assert_eq!(got[0].id, "s");
}

#[test]
fn convert_groups_by_sender() {
    let converted = convert_messages(vec![msg("1", "b"), msg("2", "a"), msg("3", "b"), msg("4", "c")]);
    assert_eq!(
        converted,
        vec![
            vec![String::from("b"), String::from("1"), String::from("3")],
            vec![String::from("a"), String::from("2")],
            vec![String::from("c"), String::from("4")],
        ]
    );
    assert!(convert_messages(Vec::new()).is_empty());
}

#[test]
fn console_lines_and_answers() {
    assert_eq!(console_line(&string_to_buffer(String::from("OK"))), Some(String::from("OK")));
    assert_eq!(console_line(&[0; 256]), None);
    assert_eq!(console_line(&vec_to_buffer(&vec![0xff])), Some(String::from("[UTF-8 ERROR]")));
    let lines = vec![String::from("print::users"), String::from("a"), String::from("b"), String::from("OK")];
    let (users, end) = console_answer(&lines);
    assert_eq!(users, Some(vec![String::from("a"), String::from("b")]));
    assert!(matches!(end, AnswerEnd::Show(ref t) if t == "OK"));
    let (users, end) = console_answer(&vec![String::from("EXIT")]);
    assert!(users.is_none());
    assert!(matches!(end, AnswerEnd::Shutdown));
    let (_, end) = console_answer(&vec![String::from("INVALID_TOKEN")]);
    assert!(matches!(end, AnswerEnd::InvalidToken));
}

#[test]
fn admission_is_read_from_first_byte() {
    let mut t = [9u8; 256];
    t[0] = 1;
    assert!(admitted(&t));
    assert!(!admitted(&vec_to_buffer(&vec![0, 0, 0, 0])));
}

#[test]
fn console_request_sends_token_then_command() {
    let mut token = [3u8; 256];
    token[0] = 1;
    let r = console_request(&token, String::from("save")).unwrap();
    assert_eq!(r.header, [1; 8]);
    assert_eq!(r.frames[0], token);
    assert_eq!(frame_payload(&r.frames[1]), b"save".to_vec());
    assert!(console_request(&token, "s".repeat(256)).is_none());
}
