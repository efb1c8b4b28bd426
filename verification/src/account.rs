//! Accounts: the hashed credentials and session token of each user, and the
//! lookups that authenticate requests.

use sha2::Digest;
use vstd::prelude::*;

verus! {

/// What SHA-512 makes of some bytes.
pub uninterp spec fn sha512_digest(data: Seq<u8>) -> Seq<u8>;

/// `sha2::Sha512::digest`: the SHA-512 hash of the bytes. Claimed: the result
/// depends on the bytes alone, and is 64 bytes long (the output size of
/// `Sha512`).
#[verifier::external_body]
fn sha512(data: &[u8]) -> (digest: Vec<u8>)
    ensures
        digest@ == sha512_digest(data@),
        digest@.len() == 64,
{
    sha2::Sha512::digest(data).to_vec()
}

/// `rand::Rng::gen_range(&mut rand::thread_rng(), 0..bound)`: a random number
/// below `bound`. Claimed: only that it is below `bound`; which one comes is
/// chance. `gen_range` panics on an empty range, hence the `requires`.
#[verifier::external_body]
pub(crate) fn random_below(bound: u8) -> (value: u8)
    requires
        bound > 0,
    ensures
        value < bound,
{
    rand::Rng::gen_range(&mut rand::thread_rng(), 0..bound)
}

/// Length of a session token.
pub const TOKEN_LEN: usize = 255;

/// A user account as the server keeps it: the SHA-512 hashes of the login
/// name and the password, the session token, and the public user id.
pub struct Account {
    pub name: Vec<u8>,
    pub password: Vec<u8>,
    pub token: Vec<u8>,
    pub id: String,
}

/// The mathematical content of an account.
pub struct AccountView {
    pub name: Seq<u8>,
    pub password: Seq<u8>,
    pub token: Seq<u8>,
    pub id: Seq<char>,
}

impl View for Account {
    type V = AccountView;

    open spec fn view(&self) -> AccountView {
        AccountView { name: self.name@, password: self.password@, token: self.token@, id: self.id@ }
    }
}

impl Clone for Account {
    fn clone(&self) -> (copy: Self)
        ensures
            copy@ == self@,
    {
        Account {
            name: self.name.clone(),
            password: self.password.clone(),
            token: self.token.clone(),
            id: self.id.clone(),
        }
    }
}

/// The views of a list of accounts.
pub open spec fn account_views(accounts: Seq<Account>) -> Seq<AccountView> {
    accounts.map_values(|a: Account| a@)
}

/// Whether two byte strings are equal.
pub fn bytes_eq(a: &[u8], b: &[u8]) -> (same: bool)
    ensures
        same == (a@ == b@),
{
    if a.len() != b.len() {
        return false;
    }
    let mut i: usize = 0;
    while i < a.len()
        invariant
            a@.len() == b@.len(),
            i <= a@.len(),
            forall|j: int| 0 <= j < i ==> a@[j] == b@[j],
        decreases a@.len() - i,
    {
        if a[i] != b[i] {
            return false;
        }
        i = i + 1;
    }
    assert(a@ =~= b@);
    true
}

/// `i` is the first position of `accounts` whose account has the token.
pub open spec fn first_with_token(accounts: Seq<Account>, token: Seq<u8>, i: int) -> bool {
    &&& 0 <= i < accounts.len()
    &&& accounts[i].token@ == token
    &&& forall|j: int| 0 <= j < i ==> accounts[j].token@ != token
}

/// `i` is the first position of `accounts` whose account has the id.
pub open spec fn first_with_id(accounts: Seq<Account>, id: Seq<char>, i: int) -> bool {
    &&& 0 <= i < accounts.len()
    &&& accounts[i].id@ == id
    &&& forall|j: int| 0 <= j < i ==> accounts[j].id@ != id
}

/// Whether some account has the id.
pub open spec fn has_id(accounts: Seq<Account>, id: Seq<char>) -> bool {
    exists|i: int| 0 <= i < accounts.len() && accounts[i].id@ == id
}

/// Whether the account at `i` has these hashed credentials.
pub open spec fn credentials_at(
    accounts: Seq<Account>,
    hashed_name: Seq<u8>,
    hashed_password: Seq<u8>,
    i: int,
) -> bool {
    accounts[i].name@ == hashed_name && accounts[i].password@ == hashed_password
}

/// `i` is the first position whose account has these hashed credentials.
pub open spec fn first_with_credentials(
    accounts: Seq<Account>,
    hashed_name: Seq<u8>,
    hashed_password: Seq<u8>,
    i: int,
) -> bool {
    &&& 0 <= i < accounts.len()
    &&& credentials_at(accounts, hashed_name, hashed_password, i)
    &&& forall|j: int| 0 <= j < i ==> !credentials_at(accounts, hashed_name, hashed_password, j)
}

/// The position of the first account that holds `token`.
pub fn check_token(accounts: &Vec<Account>, token: &[u8]) -> (found: Result<usize, ()>)
    ensures
        match found {
            Ok(i) => first_with_token(accounts@, token@, i as int),
            Err(_) => forall|j: int| 0 <= j < accounts@.len() ==> accounts@[j].token@ != token@,
        },
{
    let mut i: usize = 0;
    while i < accounts.len()
        invariant
            i <= accounts@.len(),
            forall|j: int| 0 <= j < i ==> accounts@[j].token@ != token@,
        decreases accounts@.len() - i,
    {
        if bytes_eq(accounts[i].token.as_slice(), token) {
            return Ok(i);
        }
        i = i + 1;
    }
    Err(())
}

/// Where no two accounts share a token, a token names one account: looking
/// up an account's own token finds that account and no other.
pub proof fn lemma_distinct_tokens_find_owner(accounts: Seq<Account>, k: int)
    requires
        0 <= k < accounts.len(),
        forall|i: int, j: int|
            0 <= i < accounts.len() && 0 <= j < accounts.len() && i != j ==> #[trigger] accounts[i].token@
                != #[trigger] accounts[j].token@,
    ensures
        first_with_token(accounts, accounts[k].token@, k),
        forall|i: int| #[trigger] first_with_token(accounts, accounts[k].token@, i) ==> i == k,
{
}

/// The position of the first account whose stored hashes are these.
pub fn find_login(accounts: &Vec<Account>, hashed_name: &[u8], hashed_password: &[u8]) -> (found:
    Result<usize, ()>)
    ensures
        match found {
            Ok(i) => first_with_credentials(accounts@, hashed_name@, hashed_password@, i as int),
            Err(_) => forall|j: int|
                0 <= j < accounts@.len() ==> !credentials_at(
                    accounts@,
                    hashed_name@,
                    hashed_password@,
                    j,
                ),
        },
{
    let mut i: usize = 0;
    while i < accounts.len()
        invariant
            i <= accounts@.len(),
            forall|j: int|
                0 <= j < i ==> !credentials_at(accounts@, hashed_name@, hashed_password@, j),
        decreases accounts@.len() - i,
    {
        if bytes_eq(accounts[i].name.as_slice(), hashed_name) && bytes_eq(
            accounts[i].password.as_slice(),
            hashed_password,
        ) {
            return Ok(i);
        }
        i = i + 1;
    }
    Err(())
}

/// The position of the first account whose hashes are those of this login
/// name and password.
pub fn check_login(accounts: &Vec<Account>, name: &[u8], passwd: &[u8]) -> (found: Result<usize, ()>)
    ensures
        match found {
            Ok(i) => first_with_credentials(
                accounts@,
                sha512_digest(name@),
                sha512_digest(passwd@),
                i as int,
            ),
            Err(_) => forall|j: int|
                0 <= j < accounts@.len() ==> !credentials_at(
                    accounts@,
                    sha512_digest(name@),
                    sha512_digest(passwd@),
                    j,
                ),
        },
{
    let hashed_name = sha512(name);
    let hashed_password = sha512(passwd);
    find_login(accounts, hashed_name.as_slice(), hashed_password.as_slice())
}

/// The position of the first account with this id.
pub fn search_by_id(accounts: &Vec<Account>, id: String) -> (found: Result<usize, ()>)
    ensures
        match found {
            Ok(i) => first_with_id(accounts@, id@, i as int),
            Err(_) => !has_id(accounts@, id@),
        },
{
    let mut i: usize = 0;
    while i < accounts.len()
        invariant
            i <= accounts@.len(),
            forall|j: int| 0 <= j < i ==> accounts@[j].id@ != id@,
        decreases accounts@.len() - i,
    {
        if id == accounts[i].id {
            return Ok(i);
        }
        i = i + 1;
    }
    Err(())
}

/// Whether an account with the same id as `account` exists.
pub fn does_user_already_exist(accounts: &Vec<Account>, account: &Account) -> (exists: bool)
    ensures
        exists == has_id(accounts@, account.id@),
{
    match search_by_id(accounts, account.id.clone()) {
        Ok(_) => true,
        Err(_) => false,
    }
}

/// A fresh session token: `TOKEN_LEN` random bytes, each below 255.
pub fn generate_token() -> (token: Vec<u8>)
    ensures
        token@.len() == TOKEN_LEN,
        forall|i: int| 0 <= i < token@.len() ==> token@[i] < 255,
{
    let mut token: Vec<u8> = Vec::new();
    let mut i: usize = 0;
    while i < TOKEN_LEN
        invariant
            i <= TOKEN_LEN,
            token@.len() == i,
            forall|j: int| 0 <= j < token@.len() ==> token@[j] < 255,
        decreases TOKEN_LEN - i,
    {
        token.push(random_below(255));
        i = i + 1;
    }
    token
}

/// Whether a token has the shape `generate_token` gives.
pub open spec fn well_formed_token(token: Seq<u8>) -> bool {
    token.len() == TOKEN_LEN && forall|i: int| 0 <= i < token.len() ==> token[i] < 255
}

/// The account for a login name, a password and a user id: the hashes of
/// the name and the password, a fresh token, and the id.
pub fn create_account(name: String, password: String, id: String) -> (account: Account)
    ensures
        account.name@ == sha512_digest(crate::frame::text_bytes(name@)),
        account.password@ == sha512_digest(crate::frame::text_bytes(password@)),
        well_formed_token(account.token@),
        account.id@ == id@,
{
    let hashed_name = sha512(name.as_str().as_bytes());
    let hashed_password = sha512(password.as_str().as_bytes());
    let token = generate_token();
    Account { name: hashed_name, password: hashed_password, token, id }
}

/// Gives every account a fresh token, keeping its hashes and id.
pub fn refresh_tokens(accounts: &mut Vec<Account>)
    ensures
        final(accounts)@.len() == old(accounts)@.len(),
        forall|i: int|
            0 <= i < final(accounts)@.len() ==> {
                &&& (#[trigger] final(accounts)@[i]).name@ == old(accounts)@[i].name@
                &&& final(accounts)@[i].password@ == old(accounts)@[i].password@
                &&& final(accounts)@[i].id@ == old(accounts)@[i].id@
                &&& well_formed_token(final(accounts)@[i].token@)
            },
{
    let ghost before = accounts@;
    let mut i: usize = 0;
    while i < accounts.len()
        invariant
            i <= accounts@.len(),
            accounts@.len() == before.len(),
            forall|j: int|
                0 <= j < accounts@.len() ==> {
                    &&& (#[trigger] accounts@[j]).name@ == before[j].name@
                    &&& accounts@[j].password@ == before[j].password@
                    &&& accounts@[j].id@ == before[j].id@
                    &&& j < i ==> well_formed_token(accounts@[j].token@)
                },
        decreases accounts@.len() - i,
    {
        let token = generate_token();
        let mut account = accounts.remove(i);
        account.token = token;
        accounts.insert(i, account);
        i = i + 1;
    }
}

} // verus!
