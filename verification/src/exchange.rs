//! Properties of whole exchanges between a client and the server: what one
//! side writes, the other side reads back.

use vstd::prelude::*;
use crate::account::{first_with_credentials, sha512_digest, well_formed_token, Account};
use crate::client::{
    admission_granted, read_frames, read_line, reader_step, received_text, ReaderView,
};
use crate::console::admission_view;
use crate::frame::{frame_of, lemma_frame_round_trip, payload_of, text_bytes};
use crate::laws::lemma_registered_user_authenticates;
use crate::session::{message_frames, messages_fit, repeated, text_fits};
use crate::user::{registration, MessageView};

verus! {

/// A text sent in a frame reads back as the same text.
pub proof fn lemma_text_frame_reads_back(text: Seq<char>)
    requires
        text_fits(text),
    ensures
        payload_of(frame_of(text_bytes(text))) == text_bytes(text),
        received_text(frame_of(text_bytes(text))) == text,
{
    lemma_frame_round_trip(text_bytes(text));
    vstd::utf8::encode_utf8_valid_utf8(text);
    vstd::utf8::encode_utf8_decode_utf8(text);
}

/// A token that the server hands out is read by the client as a token, not
/// as a refusal: its frame carries it unchanged, and it differs from the
/// refusals of login (eight zero bytes) and of signup (four one bytes).
pub proof fn lemma_token_reply_accepted(token: Seq<u8>)
    requires
        well_formed_token(token),
    ensures
        payload_of(frame_of(token)) == token,
        token != repeated(0, 8),
        token != repeated(1, 4),
{
    lemma_frame_round_trip(token);
}

/// The refusals read back as refusals.
pub proof fn lemma_refusals_read_back()
    ensures
        payload_of(frame_of(repeated(0, 8))) == repeated(0, 8),
        payload_of(frame_of(repeated(1, 4))) == repeated(1, 4),
        payload_of(frame_of(repeated(1, 8))) == repeated(1, 8),
        payload_of(frame_of(repeated(2, 8))) == repeated(2, 8),
{
    lemma_frame_round_trip(repeated(0, 8));
    lemma_frame_round_trip(repeated(1, 4));
    lemma_frame_round_trip(repeated(1, 8));
    lemma_frame_round_trip(repeated(2, 8));
}

/// A user who signed up can log in: the frames that carry the name and the
/// password they signed up with make the server find an account with those
/// credentials.
pub proof fn lemma_signed_up_user_logs_in(
    before: Seq<Account>,
    after: Seq<Account>,
    account: Account,
    name: Seq<char>,
    password: Seq<char>,
)
    requires
        registration(before, after, account@, true),
        account.name@ == sha512_digest(text_bytes(name)),
        account.password@ == sha512_digest(text_bytes(password)),
        text_fits(name),
        text_fits(password),
    ensures
        exists|i: int|
            first_with_credentials(
                after,
                sha512_digest(payload_of(frame_of(text_bytes(name)))),
                sha512_digest(payload_of(frame_of(text_bytes(password)))),
                i,
            ),
{
    lemma_frame_round_trip(text_bytes(name));
    lemma_frame_round_trip(text_bytes(password));
    lemma_registered_user_authenticates(before, after, account, name, password);
}

/// Reading two runs of frames one after the other is reading the first,
/// then going on with the second where the reader still wants more.
pub proof fn lemma_read_frames_concat(reader: ReaderView, a: Seq<Seq<u8>>, b: Seq<Seq<u8>>)
    requires
        read_frames(reader, a).1,
    ensures
        read_frames(reader, a + b) == read_frames(read_frames(reader, a).0, b),
    decreases a.len(),
{
    if a.len() == 0 {
        assert(a + b =~= b);
    } else {
        let (next, more) = reader_step(reader, a[0]);
        assert((a + b)[0] == a[0]);
        assert((a + b).skip(1) =~= a.skip(1) + b);
        lemma_read_frames_concat(next, a.skip(1), b);
    }
}

/// Whether a text's frame differs from the end frame of a pull answer.
pub open spec fn not_end_signal(text: Seq<char>) -> bool {
    text_bytes(text) != repeated(2, 8)
}

proof fn lemma_message_frames_read(messages: Seq<MessageView>)
    requires
        messages_fit(messages),
        forall|i: int|
            0 <= i < messages.len() ==> not_end_signal(#[trigger] messages[i].value)
                && not_end_signal(messages[i].id),
    ensures
        read_frames(ReaderView { messages: seq![], pending: None }, message_frames(messages))
            == (ReaderView { messages: messages, pending: None }, true),
    decreases messages.len(),
{
    let empty = ReaderView { messages: seq![], pending: None };
    if messages.len() == 0 {
        assert(message_frames(messages) =~= seq![]);
        assert(messages =~= seq![]);
    } else {
        let rest = messages.drop_last();
        let m = messages.last();
        assert(m == messages[messages.len() - 1]);
        assert forall|i: int| 0 <= i < rest.len() implies text_fits(#[trigger] rest[i].value)
            && text_fits(rest[i].id) by {
            assert(rest[i] == messages[i]);
        }
        assert forall|i: int| 0 <= i < rest.len() implies not_end_signal(#[trigger] rest[i].value)
            && not_end_signal(rest[i].id) by {
            assert(rest[i] == messages[i]);
        }
        lemma_message_frames_read(rest);
        let fv = frame_of(text_bytes(m.value));
        let fi = frame_of(text_bytes(m.id));
        lemma_text_frame_reads_back(m.value);
        lemma_text_frame_reads_back(m.id);
        lemma_read_frames_concat(empty, message_frames(rest), seq![fv, fi]);
        let mid = ReaderView { messages: rest, pending: None };
        let after_text = ReaderView { messages: rest, pending: Some(m.value) };
        assert(reader_step(mid, fv) == (after_text, true));
        assert(seq![fv, fi].skip(1) =~= seq![fi]);
        assert(seq![fi].skip(1) =~= Seq::<Seq<u8>>::empty());
        assert(rest.push(MessageView { value: m.value, id: m.id }) =~= messages);
        let full = ReaderView { messages: messages, pending: None };
        assert(reader_step(after_text, fi) == (full, true));
        assert(message_frames(messages) == message_frames(rest) + seq![fv, fi]);
        assert(read_frames(full, Seq::<Seq<u8>>::empty()) == (full, true));
        assert(read_frames(after_text, seq![fi]) == (full, true));
        assert(read_frames(mid, seq![fv, fi]) == (full, true));
    }
}

/// What the client reads of the server's answer to a pull is exactly the
/// messages of the box: every text with its sender, in order, and the
/// reading stops at the end frame. This holds where every text and id fits
/// in a frame and none is sent as the end frame itself.
pub proof fn lemma_pull_round_trip(messages: Seq<MessageView>)
    requires
        messages_fit(messages),
        forall|i: int|
            0 <= i < messages.len() ==> not_end_signal(#[trigger] messages[i].value)
                && not_end_signal(messages[i].id),
    ensures
        read_frames(
            ReaderView { messages: seq![], pending: None },
            message_frames(messages) + seq![frame_of(repeated(2, 8))],
        ) == (ReaderView { messages: messages, pending: None }, false),
{
    let empty = ReaderView { messages: seq![], pending: None };
    lemma_message_frames_read(messages);
    lemma_read_frames_concat(empty, message_frames(messages), seq![frame_of(repeated(2, 8))]);
    lemma_frame_round_trip(repeated(2, 8));
}

/// The console client reads the server's console answer back line by line:
/// each frame of a non-empty line that fits reads as that line, and the
/// closing empty frame ends the answer. (An empty line would read as the
/// end.)
pub proof fn lemma_console_answer_read_back(lines: Seq<Seq<char>>)
    requires
        forall|i: int|
            0 <= i < lines.len() ==> text_fits(#[trigger] lines[i]) && lines[i].len() > 0,
    ensures
        forall|i: int|
            0 <= i < lines.len() ==> read_line(frame_of(text_bytes(#[trigger] lines[i])))
                == Some(lines[i]),
        read_line(frame_of(seq![])) is None,
{
    assert forall|i: int| 0 <= i < lines.len() implies read_line(
        frame_of(text_bytes(#[trigger] lines[i])),
    ) == Some(lines[i]) by {
        let l = lines[i];
        lemma_text_frame_reads_back(l);
        vstd::utf8::encode_utf8_first_scalar(l);
        assert(text_bytes(l).len() > 0);
        assert(frame_of(text_bytes(l))[0] == text_bytes(l).len() as u8);
        assert(frame_of(text_bytes(l))[0] != 0);
        vstd::utf8::encode_utf8_valid_utf8(l);
        vstd::utf8::encode_utf8_decode_utf8(l);
        assert(vstd::utf8::valid_utf8(payload_of(frame_of(text_bytes(l)))));
    }
}

/// The console client takes the console's answer to a right password (the
/// command token, whose first byte is one) as admission, and its answer to a
/// wrong one (four zero bytes in a frame) as a refusal.
pub proof fn lemma_admission_read_back(token: Seq<u8>)
    requires
        token.len() == 256,
        token[0] == 1,
    ensures
        admission_granted(admission_view(true, token)),
        !admission_granted(admission_view(false, token)),
{
}

/// The frames of a console answer of non-empty lines that fit have the shape
/// the console client reads: at least two frames of 256 bytes, every frame
/// but the last with a non-zero length byte, and the last all zero.
pub proof fn lemma_console_reply_shape(lines: Seq<Seq<char>>)
    requires
        lines.len() >= 1,
        forall|i: int|
            0 <= i < lines.len() ==> text_fits(#[trigger] lines[i]) && lines[i].len() > 0,
    ensures
        ({
            let frames = lines.map_values(|l: Seq<char>| frame_of(text_bytes(l))) + seq![
                frame_of(seq![]),
            ];
            &&& frames.len() >= 2
            &&& forall|k: int| 0 <= k < frames.len() ==> (#[trigger] frames[k]).len() == 256
            &&& forall|k: int| 0 <= k < frames.len() - 1 ==> (#[trigger] frames[k])[0] != 0
            &&& forall|j: int| 0 <= j < 256 ==> frames.last()[j] == 0
        }),
{
    let frames = lines.map_values(|l: Seq<char>| frame_of(text_bytes(l))) + seq![
        frame_of(seq![]),
    ];
    assert forall|k: int| 0 <= k < frames.len() - 1 implies (#[trigger] frames[k])[0] != 0 by {
        let l = lines[k];
        assert(frames[k] == frame_of(text_bytes(l)));
        vstd::utf8::encode_utf8_first_scalar(l);
        assert(text_bytes(l).len() > 0);
        assert(frame_of(text_bytes(l))[0] == text_bytes(l).len() as u8);
    }
    assert(frames.last() == frame_of(seq![]));
}

} // verus!
