//! Properties that span several operations on accounts and message boxes.

use vstd::prelude::*;
use crate::account::{
    account_views, credentials_at, first_with_credentials, first_with_id, first_with_token,
    has_id, sha512_digest, Account,
};
use crate::frame::text_bytes;
use crate::user::{
    deletion, delivery, first_user_with_id, has_user, registration, Message, UserData,
};

verus! {

/// No two accounts share an id.
pub open spec fn unique_ids(accounts: Seq<Account>) -> bool {
    forall|i: int, j: int|
        0 <= i < accounts.len() && 0 <= j < accounts.len() && i != j ==> accounts[i].id@
            != accounts[j].id@
}

proof fn lemma_first_token_exists(accounts: Seq<Account>, token: Seq<u8>, k: int)
    requires
        0 <= k < accounts.len(),
        accounts[k].token@ == token,
    ensures
        exists|i: int| first_with_token(accounts, token, i),
    decreases k,
{
    if exists|j: int| 0 <= j < k && accounts[j].token@ == token {
        let j = choose|j: int| 0 <= j < k && accounts[j].token@ == token;
        lemma_first_token_exists(accounts, token, j);
    } else {
        assert(first_with_token(accounts, token, k));
    }
}

proof fn lemma_first_credentials_exist(
    accounts: Seq<Account>,
    hashed_name: Seq<u8>,
    hashed_password: Seq<u8>,
    k: int,
)
    requires
        0 <= k < accounts.len(),
        credentials_at(accounts, hashed_name, hashed_password, k),
    ensures
        exists|i: int| first_with_credentials(accounts, hashed_name, hashed_password, i),
    decreases k,
{
    if exists|j: int| 0 <= j < k && credentials_at(accounts, hashed_name, hashed_password, j) {
        let j = choose|j: int|
            0 <= j < k && credentials_at(accounts, hashed_name, hashed_password, j);
        lemma_first_credentials_exist(accounts, hashed_name, hashed_password, j);
    } else {
        assert(first_with_credentials(accounts, hashed_name, hashed_password, k));
    }
}

/// Registration keeps the ids of the accounts unique.
pub proof fn lemma_registration_keeps_ids_unique(
    before: Seq<Account>,
    after: Seq<Account>,
    account: Account,
    ok: bool,
)
    requires
        unique_ids(before),
        registration(before, after, account@, ok),
    ensures
        unique_ids(after),
{
    if ok {
        let n = before.len() as int;
        assert(account_views(after).len() == n + 1);
        assert forall|i: int, j: int|
            0 <= i < after.len() && 0 <= j < after.len() && i != j implies after[i].id@
            != after[j].id@ by {
            assert(account_views(after)[i] == after[i]@);
            assert(account_views(after)[j] == after[j]@);
            if i < n && j < n {
                assert(account_views(before)[i] == before[i]@);
                assert(account_views(before)[j] == before[j]@);
            } else if i == n {
                assert(account_views(before)[j] == before[j]@);
            } else {
                assert(account_views(before)[i] == before[i]@);
            }
        }
    }
}

/// Removing a user keeps the ids of the accounts unique.
pub proof fn lemma_deletion_keeps_ids_unique(
    before: Seq<Account>,
    after: Seq<Account>,
    id: Seq<char>,
    ok: bool,
)
    requires
        unique_ids(before),
        deletion(before, after, id, ok),
    ensures
        unique_ids(after),
{
    if ok {
        let k = choose|k: int| first_with_id(before, id, k) && after == before.remove(k);
        assert forall|i: int, j: int|
            0 <= i < after.len() && 0 <= j < after.len() && i != j implies after[i].id@
            != after[j].id@ by {
            let bi = if i < k { i } else { i + 1 };
            let bj = if j < k { j } else { j + 1 };
            assert(after[i] == before[bi]);
            assert(after[j] == before[bj]);
        }
    }
}

/// Where ids are unique, a removed user is gone: no account has its id any
/// more.
pub proof fn lemma_deleted_user_is_gone(before: Seq<Account>, after: Seq<Account>, id: Seq<char>)
    requires
        unique_ids(before),
        deletion(before, after, id, true),
    ensures
        !has_id(after, id),
{
    let k = choose|k: int| first_with_id(before, id, k) && after == before.remove(k);
    assert forall|i: int| 0 <= i < after.len() implies after[i].id@ != id by {
        let bi = if i < k { i } else { i + 1 };
        assert(after[i] == before[bi]);
    }
}

/// A user that registration has added can log in with the name and the
/// password it registered with, and is found by the token registration
/// returned.
pub proof fn lemma_registered_user_authenticates(
    before: Seq<Account>,
    after: Seq<Account>,
    account: Account,
    name: Seq<char>,
    password: Seq<char>,
)
    requires
        registration(before, after, account@, true),
        account.name@ == sha512_digest(text_bytes(name)),
        account.password@ == sha512_digest(text_bytes(password)),
    ensures
        exists|i: int|
            first_with_credentials(
                after,
                sha512_digest(text_bytes(name)),
                sha512_digest(text_bytes(password)),
                i,
            ),
        exists|i: int| first_with_token(after, account.token@, i),
{
    let k = before.len() as int;
    assert(account_views(after) == account_views(before).push(account@));
    assert(account_views(after).len() == after.len());
    assert(account_views(before).len() == before.len());
    assert(account_views(after)[k] == after[k]@);
    lemma_first_token_exists(after, account.token@, k);
    lemma_first_credentials_exist(
        after,
        sha512_digest(text_bytes(name)),
        sha512_digest(text_bytes(password)),
        k,
    );
}

/// A delivered message is what the recipient's box ends with: the first box
/// with the recipient's id holds the message last.
pub proof fn lemma_delivered_message_is_read(
    before: Seq<UserData>,
    after: Seq<UserData>,
    id: Seq<char>,
    message: Message,
)
    requires
        delivery(before, after, id, message, true),
    ensures
        exists|i: int|
            first_user_with_id(after, id, i) && after[i].messages@.last() == message
                && after[i].messages@.len() >= 1,
{
    let i = choose|i: int|
        {
            &&& first_user_with_id(before, id, i)
            &&& after.len() == before.len()
            &&& forall|j: int| 0 <= j < before.len() && j != i ==> #[trigger] after[j] == before[j]
            &&& after[i].id == before[i].id
            &&& after[i].changed
            &&& after[i].messages@ == before[i].messages@.push(message)
        };
    assert forall|j: int| 0 <= j < i implies after[j].id@ != id by {
        assert(after[j] == before[j]);
    }
    assert(first_user_with_id(after, id, i));
}

/// Sending then pulling: after the queue delivers a message to `id`, a
/// request for the box of `id` finds a box, and the box it answers with has
/// that id, is marked changed, and ends with the message.
pub proof fn lemma_send_then_pull(
    before: Seq<UserData>,
    after: Seq<UserData>,
    id: Seq<char>,
    message: Message,
    answer: UserData,
)
    requires
        delivery(before, after, id, message, true),
        exists|i: int| first_user_with_id(after, id, i) && answer@ == after[i]@,
    ensures
        has_user(after, id),
        answer.id@ == id,
        answer.changed,
        answer@.messages.len() >= 1,
        answer@.messages.last() == message@,
{
    lemma_delivered_message_is_read(before, after, id, message);
    let i = choose|i: int|
        first_user_with_id(after, id, i) && after[i].messages@.last() == message
            && after[i].messages@.len() >= 1;
    let k = choose|k: int| first_user_with_id(after, id, k) && answer@ == after[k]@;
    assert(k == i) by {
        if k < i {
            assert(after[k].id@ != id);
        } else if i < k {
            assert(after[i].id@ != id);
        }
    }
    let j = choose|j: int|
        {
            &&& first_user_with_id(before, id, j)
            &&& after.len() == before.len()
            &&& forall|l: int| 0 <= l < before.len() && l != j ==> #[trigger] after[l] == before[l]
            &&& after[j].id == before[j].id
            &&& after[j].changed
            &&& after[j].messages@ == before[j].messages@.push(message)
        };
    assert(j == i) by {
        if j != i {
            assert(after[i] == before[i]);
            if i < j {
                assert(before[i].id@ != id);
            } else {
                assert(after[j].id@ != id);
            }
        }
    }
    let ms = after[i].messages@;
    assert(answer@.messages == crate::user::message_views(ms));
    assert(crate::user::message_views(ms).last() == ms.last()@);
}

/// Whether the first box with `id` keeps its place and its content across
/// a step of the queue.
pub open spec fn box_kept(before: Seq<UserData>, after: Seq<UserData>, id: Seq<char>) -> bool {
    forall|i: int|
        first_user_with_id(before, id, i) ==> first_user_with_id(after, id, i) && after[i]@
            == before[i]@
}

/// A step that changes no box keeps every box.
pub proof fn lemma_unchanged_keeps_box(users: Seq<UserData>, id: Seq<char>)
    ensures
        box_kept(users, users, id),
{
}

/// Delivering a message to another id keeps the box of `id`.
pub proof fn lemma_other_delivery_keeps_box(
    before: Seq<UserData>,
    after: Seq<UserData>,
    other: Seq<char>,
    message: Message,
    ok: bool,
    id: Seq<char>,
)
    requires
        delivery(before, after, other, message, ok),
        other != id,
    ensures
        box_kept(before, after, id),
{
    if has_user(before, other) {
        let k = choose|k: int|
            {
                &&& first_user_with_id(before, other, k)
                &&& after.len() == before.len()
                &&& forall|j: int|
                    0 <= j < before.len() && j != k ==> #[trigger] after[j] == before[j]
                &&& after[k].id == before[k].id
                &&& after[k].changed
                &&& after[k].messages@ == before[k].messages@.push(message)
            };
        assert forall|i: int| first_user_with_id(before, id, i) implies first_user_with_id(
            after,
            id,
            i,
        ) && after[i]@ == before[i]@ by {
            assert(i != k);
            assert(after[i] == before[i]);
            assert forall|j: int| 0 <= j < i implies after[j].id@ != id by {
                if j != k {
                    assert(after[j] == before[j]);
                }
            }
        }
    }
}

/// Adding a box at the end (a registration) keeps the boxes there were.
pub proof fn lemma_append_keeps_box(before: Seq<UserData>, after: Seq<UserData>, id: Seq<char>)
    requires
        after.len() == before.len() + 1,
        after.drop_last() == before,
    ensures
        box_kept(before, after, id),
{
    assert forall|i: int| first_user_with_id(before, id, i) implies first_user_with_id(
        after,
        id,
        i,
    ) && after[i]@ == before[i]@ by {
        assert(after[i] == after.drop_last()[i]);
        assert forall|j: int| 0 <= j < i implies after[j].id@ != id by {
            assert(after[j] == after.drop_last()[j]);
        }
    }
}

proof fn lemma_kept_along(trace: Seq<Seq<UserData>>, id: Seq<char>, i: int)
    requires
        trace.len() >= 1,
        forall|k: int| 0 <= k < trace.len() - 1 ==> box_kept(#[trigger] trace[k], trace[k + 1], id),
        first_user_with_id(trace[0], id, i),
    ensures
        first_user_with_id(trace.last(), id, i),
        trace.last()[i]@ == trace[0][i]@,
    decreases trace.len(),
{
    if trace.len() > 1 {
        let shorter = trace.drop_last();
        assert forall|k: int| 0 <= k < shorter.len() - 1 implies box_kept(
            #[trigger] shorter[k],
            shorter[k + 1],
            id,
        ) by {
            assert(shorter[k] == trace[k]);
            assert(shorter[k + 1] == trace[k + 1]);
        }
        assert(shorter[0] == trace[0]);
        lemma_kept_along(shorter, id, i);
        let n = trace.len() - 2;
        assert(shorter.last() == trace[n]);
        assert(box_kept(trace[n], trace[n + 1], id));
    }
}

/// Sending then pulling, with other events in between: after the queue
/// delivers a message to `id`, and then goes through steps that each keep the
/// box of `id` (deliveries to other ids, registrations, requests, account
/// changes), a request for the box of `id` finds a box, and the box it
/// answers with has that id, is marked changed, and ends with the message.
pub proof fn lemma_send_then_pull_after_steps(
    before: Seq<UserData>,
    trace: Seq<Seq<UserData>>,
    id: Seq<char>,
    message: Message,
    answer: UserData,
)
    requires
        trace.len() >= 1,
        delivery(before, trace[0], id, message, true),
        forall|k: int| 0 <= k < trace.len() - 1 ==> box_kept(#[trigger] trace[k], trace[k + 1], id),
        exists|i: int| first_user_with_id(trace.last(), id, i) && answer@ == trace.last()[i]@,
    ensures
        has_user(trace.last(), id),
        answer.id@ == id,
        answer.changed,
        answer@.messages.len() >= 1,
        answer@.messages.last() == message@,
{
    let k = choose|k: int| first_user_with_id(trace.last(), id, k) && answer@ == trace.last()[k]@;
    let after = trace[0];
    let j = choose|j: int|
        {
            &&& first_user_with_id(before, id, j)
            &&& after.len() == before.len()
            &&& forall|l: int| 0 <= l < before.len() && l != j ==> #[trigger] after[l] == before[l]
            &&& after[j].id == before[j].id
            &&& after[j].changed
            &&& after[j].messages@ == before[j].messages@.push(message)
        };
    assert forall|l: int| 0 <= l < j implies after[l].id@ != id by {
        assert(after[l] == before[l]);
    }
    assert(first_user_with_id(after, id, j));
    lemma_kept_along(trace, id, j);
    assert(k == j) by {
        if k < j {
            assert(trace.last()[k].id@ != id);
        } else if j < k {
            assert(trace.last()[j].id@ != id);
        }
    }
    let ms = after[j].messages@;
    assert(answer@ == after[j]@);
    assert(answer@.messages == crate::user::message_views(ms));
    assert(crate::user::message_views(ms).last() == ms.last()@);
}

} // verus!
