use chata::account::{
    bytes_eq, check_login, check_token, create_account, does_user_already_exist,
    generate_token, refresh_tokens, search_by_id, Account,
};

fn account(id: &str, token: Vec<u8>) -> Account {
    Account { name: vec![1], password: vec![2], token, id: String::from(id) }
}

fn hex(bytes: &[u8]) -> String {
    bytes.iter().map(|b| format!("{:02x}", b)).collect()
}

#[test]
fn check_token_finds_first_holder() {
    let accounts = vec![account("a", vec![1, 2]), account("b", vec![3]), account("c", vec![3])];
    assert_eq!(check_token(&accounts, &[3]), Ok(1));
    assert_eq!(check_token(&accounts, &[1, 2]), Ok(0));
}

#[test]
fn check_token_refuses_unknown_token() {
    let accounts = vec![account("a", vec![1, 2])];
    assert_eq!(check_token(&accounts, &[1]), Err(()));
    assert_eq!(check_token(&Vec::new(), &[]), Err(()));
}

#[test]
fn create_account_hashes_with_sha512() {
    let a = create_account(String::from("abc"), String::from(""), String::from("id"));
    assert_eq!(
        hex(&a.name),
        "ddaf35a193617abacc417349ae20413112e6fa4e89a97ea20a9eeee64b55d39a\
         2192992a274fc1a836ba3c23a3feebbd454d4423643ce80e2a9ac94fa54ca49f"
    );
    assert_eq!(
        hex(&a.password),
        "cf83e1357eefb8bdf1542850d66d8007d620e4050b5715dc83f4a921d36ce9ce\
         47d0d13c5d85f2b0ff8318d2877eec2f63b931bd47417a81a538327af927da3e"
    );
    assert_eq!(a.token.len(), 255);
    assert!(a.token.iter().all(|b| *b < 255));
    assert_eq!(a.id, "id");
}

#[test]
fn check_login_accepts_right_credentials() {
    let accounts = vec![
        create_account(String::from("bob"), String::from("pw1"), String::from("b")),
        create_account(String::from("alice"), String::from("secret"), String::from("a")),
    ];
    assert_eq!(check_login(&accounts, b"alice", b"secret"), Ok(1));
    assert_eq!(check_login(&accounts, b"bob", b"pw1"), Ok(0));
}

#[test]
fn check_login_refuses_wrong_password() {
    let accounts = vec![create_account(String::from("alice"), String::from("secret"), String::from("a"))];
    assert_eq!(check_login(&accounts, b"alice", b"Secret"), Err(()));
    assert_eq!(check_login(&accounts, b"secret", b"alice"), Err(()));
}

#[test]
fn search_by_id_finds_first() {
    let accounts = vec![account("x", vec![]), account("y", vec![]), account("y", vec![1])];
    assert_eq!(search_by_id(&accounts, String::from("y")), Ok(1));
    assert_eq!(search_by_id(&accounts, String::from("z")), Err(()));
}

#[test]
fn does_user_already_exist_compares_ids() {
    let accounts = vec![account("x", vec![])];
    assert!(does_user_already_exist(&accounts, &account("x", vec![5])));
    assert!(!does_user_already_exist(&accounts, &account("y", vec![])));
}

#[test]
fn generated_tokens_have_fixed_shape() {
    let t = generate_token();
    assert_eq!(t.len(), 255);
    assert!(t.iter().all(|b| *b < 255));
}

#[test]
fn refresh_tokens_keeps_identity() {
    let mut accounts = vec![account("x", vec![1]), account("y", vec![2])];
    refresh_tokens(&mut accounts);
    assert_eq!(accounts[0].id, "x");
    assert_eq!(accounts[1].id, "y");
    assert_eq!(accounts[0].name, vec![1]);
    assert_eq!(accounts[1].password, vec![2]);
    assert_eq!(accounts[0].token.len(), 255);
    assert_eq!(accounts[1].token.len(), 255);
}

#[test]
fn bytes_eq_compares_contents() {
    assert!(bytes_eq(&[1, 2], &[1, 2]));
    assert!(!bytes_eq(&[1, 2], &[1]));
    assert!(!bytes_eq(&[1, 2], &[1, 3]));
}

#[test]
fn account_clone_keeps_fields() {
    let a = account("x", vec![4, 5]);
    let b = a.clone();
    assert_eq!(b.id, "x");
    assert_eq!(b.token, vec![4, 5]);
}
