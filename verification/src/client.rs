//! The client's side of the protocol: the requests it sends, how it reads
//! the server's answers, and how it sorts received messages by sender.

use vstd::prelude::*;
use vstd::utf8::{decode_utf8, valid_utf8};
use crate::frame::{
    frame_of, frame_payload, payload_of, string_to_buffer, text_bytes, vec_to_buffer, MAX_PAYLOAD,
};
use crate::session::{fits_frame, frame_views, header_of, repeated, text_fits};
use crate::text::{decode_text_or, lossy_text, owned, text_eq, utf8_lossy, views};
use crate::user::{message_views, Message, MessageView};

verus! {

/// A request as it goes on the wire: an 8-byte header, then frames.
pub struct Outgoing {
    pub header: [u8; 8],
    pub frames: Vec<[u8; 256]>,
}

fn header(kind: u8) -> (h: [u8; 8])
    ensures
        h@ == header_of(kind),
{
    let mut h: [u8; 8] = [0u8; 8];
    h[0] = kind;
    assert(h@ =~= header_of(kind));
    h
}

/// The login request: header 1, the name, the password. `None` where the
/// name or the password does not fit in a frame.
pub fn login_request(name: String, password: String) -> (request: Option<Outgoing>)
    ensures
        match request {
            Some(r) => text_fits(name@) && text_fits(password@) && r.header@ == header_of(1)
                && frame_views(r.frames@) == seq![
                frame_of(text_bytes(name@)),
                frame_of(text_bytes(password@)),
            ],
            None => !text_fits(name@) || !text_fits(password@),
        },
{
    if !fits_frame(&name) || !fits_frame(&password) {
        return None;
    }
    let mut frames: Vec<[u8; 256]> = Vec::new();
    frames.push(string_to_buffer(name));
    frames.push(string_to_buffer(password));
    assert(frame_views(frames@) =~= seq![
        frame_of(text_bytes(name@)),
        frame_of(text_bytes(password@)),
    ]);
    Some(Outgoing { header: header(1), frames })
}

/// The signup request: header 2, the name, the password, the id. `None`
/// where one of them does not fit in a frame.
pub fn signup_request(name: String, password: String, id: String) -> (request: Option<Outgoing>)
    ensures
        match request {
            Some(r) => text_fits(name@) && text_fits(password@) && text_fits(id@) && r.header@
                == header_of(2) && frame_views(r.frames@) == seq![
                frame_of(text_bytes(name@)),
                frame_of(text_bytes(password@)),
                frame_of(text_bytes(id@)),
            ],
            None => !text_fits(name@) || !text_fits(password@) || !text_fits(id@),
        },
{
    if !fits_frame(&name) || !fits_frame(&password) || !fits_frame(&id) {
        return None;
    }
    let mut frames: Vec<[u8; 256]> = Vec::new();
    frames.push(string_to_buffer(name));
    frames.push(string_to_buffer(password));
    frames.push(string_to_buffer(id));
    assert(frame_views(frames@) =~= seq![
        frame_of(text_bytes(name@)),
        frame_of(text_bytes(password@)),
        frame_of(text_bytes(id@)),
    ]);
    Some(Outgoing { header: header(2), frames })
}

/// The request that pushes a message: header 3, the token, the text, the
/// recipient id. Refused where the text or the id is longer than a frame
/// holds.
pub fn message_request(message: String, id: String, token: &Vec<u8>) -> (request: Result<
    Outgoing,
    String,
>)
    requires
        token@.len() <= MAX_PAYLOAD,
    ensures
        match request {
            Ok(r) => text_fits(message@) && text_fits(id@) && r.header@ == header_of(3)
                && frame_views(r.frames@) == seq![
                frame_of(token@),
                frame_of(text_bytes(message@)),
                frame_of(text_bytes(id@)),
            ],
            Err(e) => (!text_fits(message@) || !text_fits(id@)) && e@
                == "message cant be longer than 255 bytes"@,
        },
{
    if !fits_frame(&message) || !fits_frame(&id) {
        return Err(owned("message cant be longer than 255 bytes"));
    }
    let mut frames: Vec<[u8; 256]> = Vec::new();
    frames.push(vec_to_buffer(token));
    frames.push(string_to_buffer(message));
    frames.push(string_to_buffer(id));
    assert(frame_views(frames@) =~= seq![
        frame_of(token@),
        frame_of(text_bytes(message@)),
        frame_of(text_bytes(id@)),
    ]);
    Ok(Outgoing { header: header(3), frames })
}

/// The request that pulls one's messages: header 4, the token.
pub fn pull_request(token: &Vec<u8>) -> (request: Outgoing)
    requires
        token@.len() <= MAX_PAYLOAD,
    ensures
        request.header@ == header_of(4),
        frame_views(request.frames@) == seq![frame_of(token@)],
{
    let mut frames: Vec<[u8; 256]> = Vec::new();
    frames.push(vec_to_buffer(token));
    assert(frame_views(frames@) =~= seq![frame_of(token@)]);
    Outgoing { header: header(4), frames }
}

fn is_signal(payload: &Vec<u8>, b: u8, n: usize) -> (same: bool)
    ensures
        same == (payload@ == repeated(b, n as nat)),
{
    if payload.len() != n {
        return false;
    }
    let mut i: usize = 0;
    while i < n
        invariant
            payload@.len() == n,
            i <= n,
            forall|j: int| 0 <= j < i ==> payload@[j] == b,
        decreases n - i,
    {
        if payload[i] != b {
            return false;
        }
        i = i + 1;
    }
    assert(payload@ =~= repeated(b, n as nat));
    true
}

/// The first answer to a login: the token, or a refusal where the server
/// sent eight zero bytes.
pub fn login_answer(frame: &[u8; 256]) -> (answer: Result<Vec<u8>, String>)
    ensures
        if payload_of(frame@) == repeated(0, 8) {
            answer matches Err(e) && e@ == "invalid login"@
        } else {
            answer matches Ok(token) && token@ == payload_of(frame@)
        },
{
    let data = frame_payload(frame);
    if is_signal(&data, 0, 8) {
        Err(owned("invalid login"))
    } else {
        Ok(data)
    }
}

/// The second answer to a successful login: the account's id, read with
/// invalid UTF-8 replaced.
pub fn login_identity(frame: &[u8; 256]) -> (id: String)
    ensures
        id@ == lossy_text(payload_of(frame@)),
        valid_utf8(payload_of(frame@)) ==> id@ == decode_utf8(payload_of(frame@)),
{
    let data = frame_payload(frame);
    utf8_lossy(data.as_slice())
}

/// The answer to a signup: the new token, or a refusal where the server sent
/// four one bytes.
pub fn signup_answer(frame: &[u8; 256]) -> (answer: Result<Vec<u8>, String>)
    ensures
        if payload_of(frame@) == repeated(1, 4) {
            answer matches Err(e) && e@ == "could not create user"@
        } else {
            answer matches Ok(token) && token@ == payload_of(frame@)
        },
{
    let data = frame_payload(frame);
    if is_signal(&data, 1, 4) {
        Err(owned("could not create user"))
    } else {
        Ok(data)
    }
}

/// What a received text frame reads as: its text, or `[INVALID]` where it
/// is not UTF-8.
pub open spec fn received_text(frame: Seq<u8>) -> Seq<char> {
    if valid_utf8(payload_of(frame)) {
        decode_utf8(payload_of(frame))
    } else {
        "[INVALID]"@
    }
}

/// What a message reader has read: the complete messages, and the text of a
/// message whose sender id has not come yet.
pub struct ReaderView {
    pub messages: Seq<MessageView>,
    pub pending: Option<Seq<char>>,
}

/// One step of reading the answer to a pull: the end frame (eight two bytes)
/// stops the reading; any other frame is a message text, or, after a text,
/// the id of its sender, which completes the message.
pub open spec fn reader_step(reader: ReaderView, frame: Seq<u8>) -> (ReaderView, bool) {
    if payload_of(frame) == repeated(2, 8) {
        (reader, false)
    } else {
        match reader.pending {
            None => (ReaderView { messages: reader.messages, pending: Some(received_text(frame)) }, true),
            Some(text) => (
                ReaderView {
                    messages: reader.messages.push(
                        MessageView { value: text, id: received_text(frame) },
                    ),
                    pending: None,
                },
                true,
            ),
        }
    }
}

/// Reading a sequence of frames: the reader after them, and whether it
/// still wants more (it stops at the end frame and ignores what follows).
pub open spec fn read_frames(reader: ReaderView, frames: Seq<Seq<u8>>) -> (ReaderView, bool)
    decreases frames.len(),
{
    if frames.len() == 0 {
        (reader, true)
    } else {
        let (next, more) = reader_step(reader, frames[0]);
        if more {
            read_frames(next, frames.skip(1))
        } else {
            (next, false)
        }
    }
}

/// Reads the answer to a pull frame by frame: a text, then its sender's id,
/// again and again, until the frame of eight two bytes.
pub struct MessageReader {
    pub messages: Vec<Message>,
    pub pending: Option<String>,
}

impl MessageReader {
    /// What the reader has read.
    pub open spec fn state(&self) -> ReaderView {
        ReaderView {
            messages: message_views(self.messages@),
            pending: match self.pending {
                Some(t) => Some(t@),
                None => None,
            },
        }
    }

    /// A reader that has read nothing.
    pub fn new() -> (reader: MessageReader)
        ensures
            reader.state() == (ReaderView { messages: seq![], pending: None }),
    {
        let reader = MessageReader { messages: Vec::new(), pending: None };
        assert(message_views(reader.messages@) =~= seq![]);
        reader
    }

    /// Takes the next frame; `false` once the end frame has come.
    pub fn feed(&mut self, frame: &[u8; 256]) -> (more: bool)
        ensures
            (final(self).state(), more) == reader_step(old(self).state(), frame@),
    {
        let data = frame_payload(frame);
        if is_signal(&data, 2, 8) {
            return false;
        }
        let text = decode_text_or(data.as_slice(), "[INVALID]");
        match self.pending.take() {
            None => {
                self.pending = Some(text);
            },
            Some(value) => {
                let ghost prev = self.messages@;
                let message = Message { value, id: text };
                let ghost added = message@;
                self.messages.push(message);
                assert(message_views(self.messages@) =~= message_views(prev).push(added));
            },
        }
        true
    }

    /// The messages read so far.
    pub fn into_messages(self) -> (messages: Vec<Message>)
        ensures
            message_views(messages@) == self.state().messages,
    {
        self.messages
    }
}

/// The ids in the order of their first occurrence, each once.
pub open spec fn first_occurrences(ids: Seq<Seq<char>>) -> Seq<Seq<char>>
    decreases ids.len(),
{
    if ids.len() == 0 {
        seq![]
    } else {
        let rest = first_occurrences(ids.drop_last());
        if rest.contains(ids.last()) {
            rest
        } else {
            rest.push(ids.last())
        }
    }
}

/// The texts of the messages sent by `id`, in order.
pub open spec fn values_from(messages: Seq<MessageView>, id: Seq<char>) -> Seq<Seq<char>>
    decreases messages.len(),
{
    if messages.len() == 0 {
        seq![]
    } else {
        let rest = values_from(messages.drop_last(), id);
        if messages.last().id == id {
            rest.push(messages.last().value)
        } else {
            rest
        }
    }
}

/// The sender ids of some messages.
pub open spec fn sender_ids(messages: Seq<MessageView>) -> Seq<Seq<char>> {
    messages.map_values(|m: MessageView| m.id)
}

/// Messages sorted by sender: for each sender, in the order in which they
/// first appear, the sender's id followed by the texts they sent.
pub open spec fn conversations(messages: Seq<MessageView>) -> Seq<Seq<Seq<char>>> {
    first_occurrences(sender_ids(messages)).map_values(
        |id: Seq<char>| seq![id] + values_from(messages, id),
    )
}

fn contains_text(list: &Vec<String>, text: &String) -> (found: bool)
    ensures
        found == views(list@).contains(text@),
{
    let mut i: usize = 0;
    while i < list.len()
        invariant
            i <= list@.len(),
            forall|j: int| 0 <= j < i ==> list@[j]@ != text@,
        decreases list@.len() - i,
    {
        if text_eq(list[i].as_str(), text.as_str()) {
            assert(views(list@)[i as int] == text@);
            return true;
        }
        i = i + 1;
    }
    assert forall|j: int| 0 <= j < views(list@).len() implies views(list@)[j] != text@ by {
        assert(views(list@)[j] == list@[j]@);
    }
    false
}

/// Sorts messages by sender: one list per sender, in the order of their first
/// message, holding the sender's id and then the texts of their messages.
pub fn convert_messages(messages: Vec<Message>) -> (converted: Vec<Vec<String>>)
    ensures
        converted@.map_values(|group: Vec<String>| views(group@)) == conversations(
            message_views(messages@),
        ),
        forall|g: int| 0 <= g < converted@.len() ==> #[trigger] converted@[g]@.len() >= 1,
        forall|g: int|
            0 <= g < converted@.len() ==> #[trigger] views(converted@[g]@).skip(1) == texts_from(
                message_views(messages@),
                views(converted@[g]@)[0],
            ),
        text_count(converted@.map_values(|group: Vec<String>| views(group@)))
            == messages@.len(),
{
    let ghost ms = message_views(messages@);
    let mut unique_ids: Vec<String> = Vec::new();
    let mut k: usize = 0;
    while k < messages.len()
        invariant
            ms == message_views(messages@),
            k <= messages@.len(),
            views(unique_ids@) == first_occurrences(sender_ids(ms.take(k as int))),
        decreases messages@.len() - k,
    {
        let id = &messages[k].id;
        proof {
            assert(sender_ids(ms.take(k + 1)).drop_last() =~= sender_ids(ms.take(k as int)));
            assert(sender_ids(ms.take(k + 1)).last() == id@);
        }
        if !contains_text(&unique_ids, id) {
            let ghost prev = unique_ids@;
            unique_ids.push(id.clone());
            assert(views(unique_ids@) =~= views(prev).push(id@));
        }
        k = k + 1;
    }
    assert(ms.take(messages@.len() as int) =~= ms);
    let mut converted: Vec<Vec<String>> = Vec::new();
    let mut g: usize = 0;
    while g < unique_ids.len()
        invariant
            ms == message_views(messages@),
            views(unique_ids@) == first_occurrences(sender_ids(ms)),
            g <= unique_ids@.len(),
            converted@.map_values(|group: Vec<String>| views(group@)) == views(
                unique_ids@,
            ).take(g as int).map_values(|id: Seq<char>| seq![id] + values_from(ms, id)),
        decreases unique_ids@.len() - g,
    {
        let id = &unique_ids[g];
        let mut group: Vec<String> = Vec::new();
        group.push(id.clone());
        let mut j: usize = 0;
        while j < messages.len()
            invariant
                ms == message_views(messages@),
                j <= messages@.len(),
                views(group@) == seq![id@] + values_from(ms.take(j as int), id@),
            decreases messages@.len() - j,
        {
            let ghost prev = group@;
            proof {
                assert(ms.take(j + 1).drop_last() =~= ms.take(j as int));
                assert(ms.take(j + 1).last() == messages@[j as int]@);
            }
            if text_eq(messages[j].id.as_str(), id.as_str()) {
                group.push(messages[j].value.clone());
                assert(views(group@) =~= views(prev).push(messages@[j as int].value@));
            }
            j = j + 1;
        }
        assert(ms.take(messages@.len() as int) =~= ms);
        let ghost before = converted@;
        let ghost gv = views(group@);
        converted.push(group);
        proof {
            assert(views(unique_ids@).take(g + 1) =~= views(unique_ids@).take(g as int).push(id@));
            assert(converted@.map_values(|group: Vec<String>| views(group@)) =~= before.map_values(
                |group: Vec<String>| views(group@),
            ).push(gv));
        }
        g = g + 1;
    }
    assert(views(unique_ids@).take(unique_ids@.len() as int) =~= views(unique_ids@));
    proof {
        lemma_conversations_keep_every_text(ms);
        let c = converted@.map_values(|group: Vec<String>| views(group@));
        assert forall|g: int| 0 <= g < converted@.len() implies #[trigger] converted@[g]@.len() >= 1
            && views(converted@[g]@).skip(1) == texts_from(
            message_views(messages@),
            views(converted@[g]@)[0],
        ) by {
            assert(c == conversations(ms));
            assert(c[g] == views(converted@[g]@));
            assert(c[g] == seq![views(unique_ids@)[g]] + values_from(ms, views(unique_ids@)[g]));
            assert(conversations(ms)[g].skip(1) == texts_from(ms, conversations(ms)[g][0]));
        }
    }
    converted
}

proof fn lemma_first_occurrences(ids: Seq<Seq<char>>)
    ensures
        first_occurrences(ids).no_duplicates(),
        forall|i: int| 0 <= i < ids.len() ==> first_occurrences(ids).contains(#[trigger] ids[i]),
        forall|x: Seq<char>| first_occurrences(ids).contains(x) ==> ids.contains(x),
    decreases ids.len(),
{
    if ids.len() > 0 {
        let prefix = ids.drop_last();
        lemma_first_occurrences(prefix);
        let rest = first_occurrences(prefix);
        assert forall|i: int| 0 <= i < ids.len() implies first_occurrences(ids).contains(
            #[trigger] ids[i],
        ) by {
            if i < ids.len() - 1 {
                assert(prefix[i] == ids[i]);
                assert(rest.contains(ids[i]));
                if !rest.contains(ids.last()) {
                    let k = choose|k: int| 0 <= k < rest.len() && rest[k] == ids[i];
                    assert(rest.push(ids.last())[k] == ids[i]);
                }
            } else if !rest.contains(ids.last()) {
                assert(rest.push(ids.last())[rest.len() as int] == ids.last());
            }
        }
        assert forall|x: Seq<char>| first_occurrences(ids).contains(x) implies ids.contains(x) by {
            if rest.contains(x) {
                assert(prefix.contains(x));
                let k = choose|k: int| 0 <= k < prefix.len() && prefix[k] == x;
                assert(ids[k] == x);
            } else {
                assert(!rest.contains(ids.last()));
                let k = choose|k: int|
                    0 <= k < rest.push(ids.last()).len() && rest.push(ids.last())[k] == x;
                if k < rest.len() {
                    assert(rest[k] == x);
                }
                assert(x == ids.last());
                assert(ids[ids.len() - 1] == x);
            }
        }
    }
}

proof fn lemma_values_from_contains(messages: Seq<MessageView>, k: int)
    requires
        0 <= k < messages.len(),
    ensures
        values_from(messages, messages[k].id).contains(messages[k].value),
    decreases messages.len(),
{
    let id = messages[k].id;
    if k == messages.len() - 1 {
        let rest = values_from(messages.drop_last(), id);
        assert(rest.push(messages.last().value)[rest.len() as int] == messages[k].value);
    } else {
        let prefix = messages.drop_last();
        assert(prefix[k] == messages[k]);
        lemma_values_from_contains(prefix, k);
        let rest = values_from(prefix, id);
        let j = choose|j: int| 0 <= j < rest.len() && rest[j] == messages[k].value;
        if messages.last().id == id {
            assert(rest.push(messages.last().value)[j] == messages[k].value);
        }
    }
}

/// Whether some conversation belongs to the message's sender and holds its
/// text.
pub open spec fn in_some_conversation(conversations: Seq<Seq<Seq<char>>>, message: MessageView) -> bool {
    exists|g: int|
        0 <= g < conversations.len() && #[trigger] conversations[g][0] == message.id
            && conversations[g].skip(1).contains(message.value)
}

/// Sorting by sender gives one conversation per sender, never two for the
/// same sender; every message's text stands in the conversation of its
/// sender; and every conversation belongs to a sender of some message.
pub proof fn lemma_conversations(messages: Seq<MessageView>)
    ensures
        forall|i: int, j: int|
            0 <= i < conversations(messages).len() && 0 <= j < conversations(messages).len() && i
                != j ==> #[trigger] conversations(messages)[i][0] != #[trigger] conversations(
                messages,
            )[j][0],
        forall|k: int|
            0 <= k < messages.len() ==> in_some_conversation(
                conversations(messages),
                #[trigger] messages[k],
            ),
        forall|g: int|
            0 <= g < conversations(messages).len() ==> sender_ids(messages).contains(
                #[trigger] conversations(messages)[g][0],
            ),
{
    let ids = sender_ids(messages);
    let firsts = first_occurrences(ids);
    lemma_first_occurrences(ids);
    let c = conversations(messages);
    assert forall|g: int| 0 <= g < c.len() implies #[trigger] c[g][0] == firsts[g] && c[g].skip(1)
        == values_from(messages, firsts[g]) by {
        assert((seq![firsts[g]] + values_from(messages, firsts[g])).skip(1) =~= values_from(
            messages,
            firsts[g],
        ));
    }
    assert forall|k: int| 0 <= k < messages.len() implies in_some_conversation(
        c,
        #[trigger] messages[k],
    ) by {
        assert(ids[k] == messages[k].id);
        assert(firsts.contains(ids[k]));
        let g = choose|g: int| 0 <= g < firsts.len() && firsts[g] == ids[k];
        lemma_values_from_contains(messages, k);
        assert(c[g][0] == messages[k].id);
        assert(c[g].skip(1).contains(messages[k].value));
    }
    assert forall|g: int| 0 <= g < c.len() implies ids.contains(#[trigger] c[g][0]) by {
        assert(firsts.contains(firsts[g]));
    }
}

/// Whether a message was sent by `id`.
pub open spec fn sent_by(id: Seq<char>) -> spec_fn(MessageView) -> bool {
    |m: MessageView| m.id == id
}

/// The texts of all messages sent by `id`, in the order they came,
/// repetitions kept.
pub open spec fn texts_from(messages: Seq<MessageView>, id: Seq<char>) -> Seq<Seq<char>> {
    messages.filter(sent_by(id)).map_values(|m: MessageView| m.value)
}

/// The number of texts in some conversations: each holds its sender's id and
/// then the texts.
pub open spec fn text_count(conversations: Seq<Seq<Seq<char>>>) -> int
    decreases conversations.len(),
{
    if conversations.len() == 0 {
        0
    } else {
        text_count(conversations.drop_last()) + conversations.last().len() - 1
    }
}

/// How many texts the senders `ids` sent among `messages`.
spec fn count_from(ids: Seq<Seq<char>>, messages: Seq<MessageView>) -> int
    decreases ids.len(),
{
    if ids.len() == 0 {
        0
    } else {
        count_from(ids.drop_last(), messages) + values_from(messages, ids.last()).len()
    }
}

proof fn lemma_values_from_filter(messages: Seq<MessageView>, id: Seq<char>)
    ensures
        values_from(messages, id) == texts_from(messages, id),
    decreases messages.len(),
{
    reveal(Seq::filter);
    if messages.len() > 0 {
        let prefix = messages.drop_last();
        lemma_values_from_filter(prefix, id);
        let kept = prefix.filter(sent_by(id));
        if messages.last().id == id {
            assert(kept.push(messages.last()).map_values(|m: MessageView| m.value)
                =~= kept.map_values(|m: MessageView| m.value).push(messages.last().value));
        }
    } else {
        assert(texts_from(messages, id) =~= seq![]);
    }
}

proof fn lemma_values_from_absent(messages: Seq<MessageView>, id: Seq<char>)
    requires
        forall|k: int| 0 <= k < messages.len() ==> #[trigger] messages[k].id != id,
    ensures
        values_from(messages, id).len() == 0,
    decreases messages.len(),
{
    if messages.len() > 0 {
        let prefix = messages.drop_last();
        assert forall|k: int| 0 <= k < prefix.len() implies #[trigger] prefix[k].id != id by {
            assert(prefix[k] == messages[k]);
        }
        lemma_values_from_absent(prefix, id);
        assert(messages[messages.len() - 1].id != id);
    }
}

proof fn lemma_count_from_push(ids: Seq<Seq<char>>, prefix: Seq<MessageView>, m: MessageView)
    requires
        ids.no_duplicates(),
    ensures
        count_from(ids, prefix.push(m)) == count_from(ids, prefix) + if ids.contains(m.id) {
            1int
        } else {
            0int
        },
    decreases ids.len(),
{
    if ids.len() > 0 {
        let rest = ids.drop_last();
        let x = ids.last();
        assert(rest.no_duplicates()) by {
            assert forall|i: int, j: int|
                0 <= i < rest.len() && 0 <= j < rest.len() && i != j implies rest[i]
                != rest[j] by {
                assert(rest[i] == ids[i] && rest[j] == ids[j]);
            }
        }
        lemma_count_from_push(rest, prefix, m);
        assert(prefix.push(m).drop_last() =~= prefix);
        if ids.contains(m.id) {
            let k = choose|k: int| 0 <= k < ids.len() && ids[k] == m.id;
            if k < ids.len() - 1 {
                assert(rest[k] == m.id);
                assert(x != m.id) by {
                    assert(ids[ids.len() - 1] == x);
                }
            } else {
                assert(!rest.contains(m.id)) by {
                    if rest.contains(m.id) {
                        let j = choose|j: int| 0 <= j < rest.len() && rest[j] == m.id;
                        assert(ids[j] == ids[k]);
                    }
                }
            }
        } else {
            assert(x != m.id) by {
                assert(ids[ids.len() - 1] == x);
            }
            assert(!rest.contains(m.id)) by {
                if rest.contains(m.id) {
                    let j = choose|j: int| 0 <= j < rest.len() && rest[j] == m.id;
                    assert(ids[j] == m.id);
                }
            }
        }
    }
}

proof fn lemma_count_from_all(messages: Seq<MessageView>)
    ensures
        count_from(first_occurrences(sender_ids(messages)), messages) == messages.len(),
    decreases messages.len(),
{
    if messages.len() == 0 {
        assert(sender_ids(messages) =~= seq![]);
    } else {
        let prefix = messages.drop_last();
        let m = messages.last();
        lemma_count_from_all(prefix);
        assert(prefix.push(m) =~= messages);
        assert(sender_ids(messages).drop_last() =~= sender_ids(prefix));
        assert(sender_ids(messages).last() == m.id);
        let ids = first_occurrences(sender_ids(prefix));
        lemma_first_occurrences(sender_ids(prefix));
        lemma_count_from_push(ids, prefix, m);
        if !ids.contains(m.id) {
            assert(ids.push(m.id).drop_last() =~= ids);
            assert forall|k: int| 0 <= k < prefix.len() implies #[trigger] prefix[k].id != m.id by {
                assert(sender_ids(prefix)[k] == prefix[k].id);
            }
            lemma_values_from_absent(prefix, m.id);
            assert(messages.drop_last() == prefix);
        }
    }
}

proof fn lemma_text_count_groups(
    groups: Seq<Seq<Seq<char>>>,
    ids: Seq<Seq<char>>,
    messages: Seq<MessageView>,
)
    requires
        groups.len() == ids.len(),
        forall|g: int|
            0 <= g < groups.len() ==> #[trigger] groups[g].len() == values_from(
                messages,
                ids[g],
            ).len() + 1,
    ensures
        text_count(groups) == count_from(ids, messages),
    decreases groups.len(),
{
    if groups.len() > 0 {
        let gs = groups.drop_last();
        let is = ids.drop_last();
        assert forall|g: int| 0 <= g < gs.len() implies #[trigger] gs[g].len() == values_from(
            messages,
            is[g],
        ).len() + 1 by {
            assert(gs[g] == groups[g] && is[g] == ids[g]);
        }
        lemma_text_count_groups(gs, is, messages);
        assert(groups.last() == groups[groups.len() - 1]);
    }
}

/// Sorting by sender drops no text and invents none: after each sender's id
/// stand exactly the texts of all the messages of that sender, in the order
/// in which they came, repeated texts included; so the conversations hold as
/// many texts as there were messages.
pub proof fn lemma_conversations_keep_every_text(messages: Seq<MessageView>)
    ensures
        forall|g: int|
            0 <= g < conversations(messages).len() ==> #[trigger] conversations(messages)[g].skip(1)
                == texts_from(messages, conversations(messages)[g][0]),
        text_count(conversations(messages)) == messages.len(),
{
    let ids = first_occurrences(sender_ids(messages));
    let c = conversations(messages);
    assert forall|g: int| 0 <= g < c.len() implies #[trigger] c[g].skip(1) == texts_from(
        messages,
        c[g][0],
    ) by {
        assert(c[g] == seq![ids[g]] + values_from(messages, ids[g]));
        assert(c[g].skip(1) =~= values_from(messages, ids[g]));
        lemma_values_from_filter(messages, ids[g]);
    }
    assert forall|g: int| 0 <= g < c.len() implies #[trigger] c[g].len() == values_from(
        messages,
        ids[g],
    ).len() + 1 by {
        assert(c[g] == seq![ids[g]] + values_from(messages, ids[g]));
    }
    lemma_text_count_groups(c, ids, messages);
    lemma_count_from_all(messages);
}

/// What the console client does once an answer has been read in full.
pub enum AnswerEnd {
    /// The token was refused: stop.
    InvalidToken,
    /// The server shuts down: stop.
    Shutdown,
    /// Show the last line and go on.
    Show(String),
}

/// What the console client reads from one frame of an answer: nothing for a
/// frame whose length byte is zero (the end of the answer), else its text,
/// or `[UTF-8 ERROR]` where that is not UTF-8.
pub open spec fn read_line(frame: Seq<u8>) -> Option<Seq<char>> {
    if frame[0] == 0 {
        None
    } else if valid_utf8(payload_of(frame)) {
        Some(decode_utf8(payload_of(frame)))
    } else {
        Some("[UTF-8 ERROR]"@)
    }
}

/// One line of a console answer; `None` for the empty frame that ends it.
pub fn console_line(frame: &[u8; 256]) -> (line: Option<String>)
    ensures
        match line {
            None => read_line(frame@) is None,
            Some(l) => read_line(frame@) == Some(l@),
        },
{
    if frame[0] == 0 {
        None
    } else {
        Some(decode_text_or(frame_payload(frame).as_slice(), "[UTF-8 ERROR]"))
    }
}

/// Whether a console answer can be read: it has a line, and a user listing
/// has its closing line.
pub open spec fn answer_readable(lines: Seq<Seq<char>>) -> bool {
    lines.len() >= 1 && (lines[0] == "print::users"@ ==> lines.len() >= 2)
}

/// Whether a console answer can be read.
pub fn answer_readable_lines(lines: &Vec<String>) -> (readable: bool)
    ensures
        readable == answer_readable(views(lines@)),
{
    if lines.len() == 0 {
        return false;
    }
    assert(views(lines@)[0] == lines@[0]@);
    if text_eq(lines[0].as_str(), "print::users") {
        lines.len() >= 2
    } else {
        true
    }
}

/// Reads a whole console answer: the user ids where it is a listing, and
/// what to do after its last line.
pub fn console_answer(lines: &Vec<String>) -> (answer: (Option<Vec<String>>, AnswerEnd))
    requires
        answer_readable(views(lines@)),
    ensures
        ({
            let l = views(lines@);
            &&& match answer.0 {
                Some(users) => l[0] == "print::users"@ && views(users@) == l.subrange(
                    1,
                    l.len() - 1,
                ),
                None => l[0] != "print::users"@,
            }
            &&& if l.last() == "INVALID_TOKEN"@ {
                answer.1 is InvalidToken
            } else if l.last() == "EXIT"@ {
                answer.1 is Shutdown
            } else {
                answer.1 matches AnswerEnd::Show(t) && t@ == l.last()
            }
        }),
{
    let ghost l = views(lines@);
    let n = lines.len();
    assert(l[0] == lines@[0]@);
    assert(l.last() == lines@[n - 1]@);
    let users = if text_eq(lines[0].as_str(), "print::users") {
        let mut users: Vec<String> = Vec::new();
        let mut i: usize = 1;
        while i + 1 < n
            invariant
                n == lines@.len(),
                n >= 2,
                1 <= i <= n - 1,
                l == views(lines@),
                views(users@) == l.subrange(1, i as int),
            decreases n - i,
        {
            let ghost prev = users@;
            users.push(lines[i].clone());
            assert(views(users@) =~= views(prev).push(lines@[i as int]@));
            assert(l[i as int] == lines@[i as int]@);
            assert(views(users@) =~= l.subrange(1, i + 1));
            i = i + 1;
        }
        Some(users)
    } else {
        None
    };
    let last = lines[n - 1].as_str();
    let end = if text_eq(last, "INVALID_TOKEN") {
        AnswerEnd::InvalidToken
    } else if text_eq(last, "EXIT") {
        AnswerEnd::Shutdown
    } else {
        AnswerEnd::Show(lines[n - 1].clone())
    };
    (users, end)
}

/// A console command as the console client sends it: eight one bytes, the
/// command token as it was received, then the command text in a frame.
/// `None` where the text does not fit in a frame.
pub fn console_request(token: &[u8; 256], command: String) -> (request: Option<Outgoing>)
    ensures
        match request {
            Some(r) => text_fits(command@) && r.header@ == repeated(1, 8) && frame_views(r.frames@)
                == seq![token@, frame_of(text_bytes(command@))],
            None => !text_fits(command@),
        },
{
    if !fits_frame(&command) {
        return None;
    }
    let h: [u8; 8] = [1u8; 8];
    let mut frames: Vec<[u8; 256]> = Vec::new();
    frames.push(*token);
    frames.push(string_to_buffer(command));
    assert(h@ =~= repeated(1, 8));
    assert(frame_views(frames@) =~= seq![token@, frame_of(text_bytes(command@))]);
    Some(Outgoing { header: h, frames })
}

/// Whether an answer to the password admits the operator: it starts with a
/// one byte.
pub open spec fn admission_granted(reply: Seq<u8>) -> bool {
    reply[0] == 1
}

/// Whether the console admitted the operator: the answer to the password
/// starts with a one byte.
pub fn admitted(reply: &[u8; 256]) -> (ok: bool)
    ensures
        ok == admission_granted(reply@),
{
    reply[0] == 1
}

} // verus!
