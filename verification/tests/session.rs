use chata::session::{serve, SessionStep};
use chata::account::{create_account, Account};
use chata::frame::{frame_payload, string_to_buffer, vec_to_buffer};
use chata::queue::Event;
use chata::session::{
    login_reply, parse_request, pull_refused, pull_reply, pull_target, push_message,
    signup_reply, signup_request, Push, Request,
};
use chata::user::{Message, UserData};

fn accounts() -> Vec<Account> {
    let mut a = create_account(String::from("alice"), String::from("pw"), String::from("al"));
    a.token = vec![5, 5, 5];
    let mut b = create_account(String::from("bob"), String::from("pw2"), String::from("bo"));
    b.token = vec![6];
    vec![a, b]
}

#[test]
fn parse_request_headers() {
    assert!(matches!(parse_request(&[1, 0, 0, 0, 0, 0, 0, 0]), Some(Request::Login)));
    assert!(matches!(parse_request(&[2, 0, 0, 0, 0, 0, 0, 0]), Some(Request::Signup)));
    assert!(matches!(parse_request(&[3, 0, 0, 0, 0, 0, 0, 0]), Some(Request::PushMessage)));
    assert!(matches!(parse_request(&[4, 0, 0, 0, 0, 0, 0, 0]), Some(Request::PullMessages)));
    assert!(parse_request(&[0; 8]).is_none());
    assert!(parse_request(&[5, 0, 0, 0, 0, 0, 0, 0]).is_none());
    assert!(parse_request(&[1, 0, 0, 0, 0, 0, 0, 1]).is_none());
}

#[test]
fn request_frame_counts() {
    assert_eq!(Request::Login.frame_count(), 2);
    assert_eq!(Request::Signup.frame_count(), 3);
    assert_eq!(Request::PushMessage.frame_count(), 3);
    assert_eq!(Request::PullMessages.frame_count(), 1);
}

#[test]
fn login_reply_grants_token_and_id() {
    let reply = login_reply(
        &accounts(),
        &string_to_buffer(String::from("bob")),
        &string_to_buffer(String::from("pw2")),
    )
    .unwrap();
    assert_eq!(reply.len(), 2);
    assert_eq!(frame_payload(&reply[0]), vec![6]);
    assert_eq!(frame_payload(&reply[1]), b"bo".to_vec());
}

#[test]
fn login_reply_refuses_with_zeros() {
    let reply = login_reply(
        &accounts(),
        &string_to_buffer(String::from("bob")),
        &string_to_buffer(String::from("pw")),
    )
    .unwrap();
    assert_eq!(reply.len(), 1);
    assert_eq!(frame_payload(&reply[0]), vec![0; 8]);
}

#[test]
fn login_reply_with_oversized_id_is_none() {
    let mut a = accounts();
    a[0].id = "x".repeat(300);
    let reply = login_reply(&a, &string_to_buffer(String::from("alice")), &string_to_buffer(String::from("pw")));
    assert!(reply.is_none());
}

#[test]
fn signup_request_reads_three_texts() {
    let e = signup_request(
        &string_to_buffer(String::from("n")),
        &string_to_buffer(String::from("p")),
        &string_to_buffer(String::from("i")),
    );
    match e {
        Some(Event::CreateUser(n, p, i)) => {
            assert_eq!(n, "n");
            assert_eq!(p, "p");
            assert_eq!(i, "i");
        }
        _ => panic!("expected a creation"),
    }
}

#[test]
fn signup_request_with_bad_utf8_is_none() {
    let e = signup_request(
        &string_to_buffer(String::from("n")),
        &vec_to_buffer(&vec![0xff, 0xfe]),
        &string_to_buffer(String::from("i")),
    );
    assert!(e.is_none());
}

#[test]
fn signup_reply_token_or_refusal() {
    assert_eq!(frame_payload(&signup_reply(&Ok(vec![9, 9]))), vec![9, 9]);
    assert_eq!(frame_payload(&signup_reply(&Err(String::from("x")))), vec![1, 1, 1, 1]);
}

#[test]
fn push_message_forwards_to_known_recipient() {
    let p = push_message(
        &accounts(),
        &vec_to_buffer(&vec![6]),
        &string_to_buffer(String::from("hello")),
        &string_to_buffer(String::from("al")),
    );
    match p {
        Push::Forward(Event::SendMessage(to, text, from)) => {
            assert_eq!(to, "al");
            assert_eq!(text, "hello");
            assert_eq!(from, "bo");
        }
        _ => panic!("expected a forwarded message"),
    }
}

#[test]
fn push_message_marks_invalid_text() {
    let p = push_message(
        &accounts(),
        &vec_to_buffer(&vec![6]),
        &vec_to_buffer(&vec![0xc3]),
        &string_to_buffer(String::from("al")),
    );
    match p {
        Push::Forward(Event::SendMessage(_, text, _)) => assert_eq!(text, "[INVALID]"),
        _ => panic!("expected a forwarded message"),
    }
}

#[test]
fn push_message_ignores_bad_token_or_recipient() {
    let a = accounts();
    let p = push_message(&a, &vec_to_buffer(&vec![1]), &string_to_buffer(String::from("x")), &string_to_buffer(String::from("al")));
    assert!(matches!(p, Push::Ignore));
    let p = push_message(&a, &vec_to_buffer(&vec![6]), &string_to_buffer(String::from("x")), &string_to_buffer(String::from("nobody")));
    assert!(matches!(p, Push::Ignore));
    let p = push_message(&a, &vec_to_buffer(&vec![6]), &string_to_buffer(String::from("x")), &vec_to_buffer(&vec![0xff]));
    assert!(matches!(p, Push::Malformed));
}

#[test]
fn pull_target_by_token() {
    let a = accounts();
    assert_eq!(pull_target(&a, &vec_to_buffer(&vec![5, 5, 5])), Some(String::from("al")));
    assert_eq!(pull_target(&a, &vec_to_buffer(&vec![5])), None);
}

#[test]
fn pull_reply_sends_messages_then_end() {
    let u = UserData {
        id: String::from("al"),
        messages: vec![
            Message { value: String::from("m1"), id: String::from("bo") },
            Message { value: String::from("m2"), id: String::from("cy") },
        ],
        changed: false,
    };
    let frames = pull_reply(&Some(u)).unwrap();
    let payloads: Vec<Vec<u8>> = frames.iter().map(frame_payload).collect();
    assert_eq!(
        payloads,
        vec![b"m1".to_vec(), b"bo".to_vec(), b"m2".to_vec(), b"cy".to_vec(), vec![2; 8]]
    );
}

#[test]
fn pull_reply_without_box_refuses() {
    let frames = pull_reply(&None).unwrap();
    assert_eq!(frames.len(), 1);
    assert_eq!(frame_payload(&frames[0]), vec![1; 8]);
    assert_eq!(frame_payload(&pull_refused()), vec![1; 8]);
}

#[test]
fn pull_reply_with_oversized_message_is_none() {
    let u = UserData {
        id: String::from("al"),
        messages: vec![Message { value: "y".repeat(256), id: String::from("bo") }],
        changed: false,
    };
    assert!(pull_reply(&Some(u)).is_none());
}

#[test]
fn serve_answers_each_request_and_keeps_accounts() {
    let mut a = accounts();
    let login = vec![string_to_buffer(String::from("bob")), string_to_buffer(String::from("pw2"))];
    match serve(&mut a, &Request::Login, &login) {
        SessionStep::Reply(f) => assert_eq!(frame_payload(&f[0]), vec![6]),
        _ => panic!(),
    }
    let push = vec![vec_to_buffer(&vec![6]), string_to_buffer(String::from("hi")), string_to_buffer(String::from("al"))];
    assert!(matches!(serve(&mut a, &Request::PushMessage, &push), SessionStep::Forward(_)));
    let signup = vec![string_to_buffer(String::from("n")), vec_to_buffer(&vec![0xff]), string_to_buffer(String::from("i"))];
    assert!(matches!(serve(&mut a, &Request::Signup, &signup), SessionStep::Malformed));
    match serve(&mut a, &Request::PullMessages, &vec![vec_to_buffer(&vec![6])]) {
        SessionStep::Pull(id) => assert_eq!(id, "bo"),
        _ => panic!(),
    }
    match serve(&mut a, &Request::PullMessages, &vec![vec_to_buffer(&vec![9])]) {
        SessionStep::Reply(f) => assert_eq!(frame_payload(&f[0]), vec![1; 8]),
        _ => panic!(),
    }
    assert_eq!(a.len(), 2);
    assert_eq!(a[0].id, "al");
    assert_eq!(a[1].token, vec![6]);
}
