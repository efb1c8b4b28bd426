//! Text helpers: UTF-8 decoding of received bytes, comparison of texts, and
//! the `::` separator of the console command language.

use vstd::prelude::*;
use vstd::utf8::{decode_utf8, valid_utf8};

verus! {

/// `std::str::from_utf8`: the bytes read as a text, if they are valid UTF-8.
/// Claimed: the result is `Some` exactly when the bytes are valid UTF-8, and
/// then its characters are the UTF-8 decoding of the bytes.
#[verifier::external_body]
fn utf8_str(bytes: &[u8]) -> (text: Option<&str>)
    ensures
        text is Some <==> valid_utf8(bytes@),
        text matches Some(s) ==> s@ == decode_utf8(bytes@),
{
    std::str::from_utf8(bytes).ok()
}

/// The bytes as an owned text, if they are valid UTF-8.
pub fn decode_text(bytes: &[u8]) -> (text: Option<String>)
    ensures
        text is Some <==> valid_utf8(bytes@),
        text matches Some(s) ==> s@ == decode_utf8(bytes@),
{
    match utf8_str(bytes) {
        Some(s) => Some(s.to_owned()),
        None => None,
    }
}

/// The bytes as a text, or `fallback` where they are not valid UTF-8.
pub fn decode_text_or(bytes: &[u8], fallback: &str) -> (text: String)
    ensures
        text@ == (if valid_utf8(bytes@) { decode_utf8(bytes@) } else { fallback@ }),
{
    match utf8_str(bytes) {
        Some(s) => s.to_owned(),
        None => fallback.to_owned(),
    }
}

/// What `String::from_utf8_lossy` makes of some bytes.
pub uninterp spec fn lossy_text(bytes: Seq<u8>) -> Seq<char>;

/// `String::from_utf8_lossy`: the bytes as a text, each invalid sequence
/// replaced by U+FFFD. Claimed: the result depends on the bytes alone, and on
/// valid UTF-8 it is the plain decoding. What it is on other bytes is left
/// unsaid.
#[verifier::external_body]
pub(crate) fn utf8_lossy(bytes: &[u8]) -> (text: String)
    ensures
        text@ == lossy_text(bytes@),
        valid_utf8(bytes@) ==> text@ == decode_utf8(bytes@),
{
    String::from_utf8_lossy(bytes).into_owned()
}

/// An owned copy of a text.
pub fn owned(s: &str) -> (text: String)
    ensures
        text@ == s@,
{
    s.to_owned()
}

/// Whether two texts hold the same characters.
pub fn text_eq(a: &str, b: &str) -> (same: bool)
    ensures
        same == (a@ == b@),
{
    let n: usize = a.unicode_len();
    let m: usize = b.unicode_len();
    if n != m {
        return false;
    }
    let mut i: usize = 0;
    while i < n
        invariant
            n == a@.len(),
            m == b@.len(),
            n == m,
            i <= n,
            forall|j: int| 0 <= j < i ==> a@[j] == b@[j],
        decreases n - i,
    {
        if a.get_char(i) != b.get_char(i) {
            return false;
        }
        i = i + 1;
    }
    assert(a@ =~= b@);
    true
}

/// Whether the text starts a `::` at position `i`.
pub open spec fn sep_at(s: Seq<char>, i: int) -> bool {
    0 <= i && i + 1 < s.len() && s[i] == ':' && s[i + 1] == ':'
}

/// Whether the text holds `::` anywhere.
pub open spec fn has_sep(s: Seq<char>) -> bool {
    exists|i: int| sep_at(s, i)
}

/// Whether a text holds the separator `::`.
pub fn contains_separator(s: &str) -> (found: bool)
    ensures
        found == has_sep(s@),
{
    let n: usize = s.unicode_len();
    let mut i: usize = 0;
    while i < n
        invariant
            n == s@.len(),
            i <= n,
            forall|j: int| 0 <= j < i ==> !sep_at(s@, j),
        decreases n - i,
    {
        if i + 1 < n && s.get_char(i) == ':' && s.get_char(i + 1) == ':' {
            assert(sep_at(s@, i as int));
            return true;
        }
        i = i + 1;
    }
    assert forall|j: int| !sep_at(s@, j) by {
        if 0 <= j && j + 1 < n {
            assert(j < i);
        }
    }
    false
}

/// The pieces of a text between its `::` separators, read from the left as
/// `str::split("::")` reads them: a text without separator is one piece.
pub open spec fn split_parts(s: Seq<char>) -> Seq<Seq<char>>
    decreases s.len(),
{
    if s.len() < 2 {
        seq![s]
    } else if s[0] == ':' && s[1] == ':' {
        seq![Seq::<char>::empty()] + split_parts(s.skip(2))
    } else {
        prepend_first(seq![s[0]], split_parts(s.skip(1)))
    }
}

/// The pieces with `prefix` put in front of the first one.
pub open spec fn prepend_first(prefix: Seq<char>, parts: Seq<Seq<char>>) -> Seq<Seq<char>> {
    parts.update(0, prefix + parts[0])
}

/// The pieces put back together with `::` between them.
pub open spec fn join_parts(parts: Seq<Seq<char>>) -> Seq<char>
    decreases parts.len(),
{
    if parts.len() <= 1 {
        if parts.len() == 1 {
            parts[0]
        } else {
            Seq::empty()
        }
    } else {
        parts[0] + seq![':', ':'] + join_parts(parts.skip(1))
    }
}

/// The views of some owned texts.
pub open spec fn views(parts: Seq<String>) -> Seq<Seq<char>> {
    parts.map_values(|p: String| p@)
}

/// Splitting always gives at least one piece.
pub proof fn lemma_split_nonempty(s: Seq<char>)
    ensures
        split_parts(s).len() >= 1,
    decreases s.len(),
{
    if s.len() >= 2 {
        if s[0] == ':' && s[1] == ':' {
            lemma_split_nonempty(s.skip(2));
        } else {
            lemma_split_nonempty(s.skip(1));
        }
    }
}

/// A piece never holds the separator.
pub proof fn lemma_split_parts_have_no_sep(s: Seq<char>)
    ensures
        forall|k: int| 0 <= k < split_parts(s).len() ==> !has_sep(#[trigger] split_parts(s)[k]),
    decreases s.len(),
{
    if s.len() < 2 {
        assert forall|k: int| 0 <= k < split_parts(s).len() implies !has_sep(
            #[trigger] split_parts(s)[k],
        ) by {
            assert forall|i: int| !sep_at(s, i) by {}
        }
    } else if s[0] == ':' && s[1] == ':' {
        lemma_split_parts_have_no_sep(s.skip(2));
        assert forall|k: int| 0 <= k < split_parts(s).len() implies !has_sep(
            #[trigger] split_parts(s)[k],
        ) by {
            if k > 0 {
                assert(split_parts(s)[k] == split_parts(s.skip(2))[k - 1]);
            } else {
                assert forall|i: int| !sep_at(Seq::<char>::empty(), i) by {}
            }
        }
    } else {
        let rest = split_parts(s.skip(1));
        lemma_split_parts_have_no_sep(s.skip(1));
        lemma_split_nonempty(s.skip(1));
        assert forall|k: int| 0 <= k < split_parts(s).len() implies !has_sep(
            #[trigger] split_parts(s)[k],
        ) by {
            if k > 0 {
                assert(split_parts(s)[k] == rest[k]);
            } else {
                let first = seq![s[0]] + rest[0];
                assert(!has_sep(rest[0]));
                assert forall|i: int| !sep_at(first, i) by {
                    if sep_at(first, i) {
                        if i == 0 {
                            assert(first[1] == rest[0][0]);
                            if rest[0].len() >= 1 {
                                // the first piece of the rest starts right after s[0]
                                lemma_first_piece_start(s.skip(1));
                                assert(s.skip(1)[0] == rest[0][0]);
                                assert(s[1] == ':');
                                assert(false);
                            }
                        } else {
                            assert(first[i] == rest[0][i - 1]);
                            assert(first[i + 1] == rest[0][i]);
                            assert(sep_at(rest[0], i - 1));
                        }
                    }
                }
            }
        }
    }
}

/// A non-empty first piece starts with the text's first character.
pub proof fn lemma_first_piece_start(s: Seq<char>)
    ensures
        split_parts(s)[0].len() >= 1 ==> s.len() >= 1 && split_parts(s)[0][0] == s[0],
    decreases s.len(),
{
    if s.len() >= 2 && !(s[0] == ':' && s[1] == ':') {
        lemma_split_nonempty(s.skip(1));
    }
}

/// Joining the pieces with `::` gives back the text.
pub proof fn lemma_join_split(s: Seq<char>)
    ensures
        join_parts(split_parts(s)) == s,
    decreases s.len(),
{
    if s.len() < 2 {
    } else if s[0] == ':' && s[1] == ':' {
        let rest = split_parts(s.skip(2));
        lemma_split_nonempty(s.skip(2));
        lemma_join_split(s.skip(2));
        let parts = seq![Seq::<char>::empty()] + rest;
        assert(parts.skip(1) =~= rest);
        assert(s =~= Seq::<char>::empty() + seq![':', ':'] + s.skip(2));
    } else {
        let rest = split_parts(s.skip(1));
        lemma_split_nonempty(s.skip(1));
        lemma_join_split(s.skip(1));
        let parts = prepend_first(seq![s[0]], rest);
        if rest.len() == 1 {
            assert(s =~= seq![s[0]] + s.skip(1));
        } else {
            assert(parts.skip(1) =~= rest.skip(1));
            assert(s =~= seq![s[0]] + s.skip(1));
            assert(join_parts(rest) == rest[0] + seq![':', ':'] + join_parts(rest.skip(1)));
            assert(join_parts(parts) =~= seq![s[0]] + join_parts(rest));
        }
    }
}

/// Whether a piece can stand before a separator without merging into it:
/// it holds no separator and does not end with a colon.
pub open spec fn separable(piece: Seq<char>) -> bool {
    !has_sep(piece) && (piece.len() == 0 || piece.last() != ':')
}

proof fn lemma_split_piece_then_rest(piece: Seq<char>, rest: Seq<char>)
    requires
        separable(piece),
    ensures
        split_parts(piece + seq![':', ':'] + rest) == seq![piece] + split_parts(rest),
    decreases piece.len(),
{
    let s = piece + seq![':', ':'] + rest;
    if piece.len() == 0 {
        assert(s =~= seq![':', ':'] + rest);
        assert(s.skip(2) =~= rest);
        assert(piece =~= Seq::<char>::empty());
        assert(split_parts(s) == seq![Seq::<char>::empty()] + split_parts(s.skip(2)));
    } else {
        if piece.len() >= 2 {
            assert(!sep_at(piece, 0));
        }
        assert(s[0] == piece[0]);
        assert(!(s[0] == ':' && s[1] == ':'));
        let tail = piece.skip(1);
        assert forall|i: int| !sep_at(tail, i) by {
            if sep_at(tail, i) {
                assert(sep_at(piece, i + 1));
            }
        }
        if tail.len() > 0 {
            assert(tail.last() == piece.last());
        }
        lemma_split_piece_then_rest(tail, rest);
        assert(s.skip(1) =~= tail + seq![':', ':'] + rest);
        lemma_split_nonempty(rest);
        assert(seq![piece[0]] + tail =~= piece);
        let inner = seq![tail] + split_parts(rest);
        assert(inner[0] == tail);
        assert(prepend_first(seq![piece[0]], inner) =~= seq![piece] + split_parts(rest));
        assert(split_parts(s) == prepend_first(seq![s[0]], split_parts(s.skip(1))));
    }
}

proof fn lemma_split_single(piece: Seq<char>)
    requires
        !has_sep(piece),
    ensures
        split_parts(piece) == seq![piece],
    decreases piece.len(),
{
    if piece.len() >= 2 {
        assert(!sep_at(piece, 0));
        let tail = piece.skip(1);
        assert forall|i: int| !sep_at(tail, i) by {
            if sep_at(tail, i) {
                assert(sep_at(piece, i + 1));
            }
        }
        lemma_split_single(tail);
        assert(seq![piece[0]] + tail =~= piece);
        assert(prepend_first(seq![piece[0]], seq![tail]) =~= seq![piece]);
    }
}

/// Splitting undoes joining: pieces that hold no separator, and of which
/// none but the last ends with a colon, come back from their joined text.
pub proof fn lemma_split_join(parts: Seq<Seq<char>>)
    requires
        parts.len() >= 1,
        forall|k: int| 0 <= k < parts.len() ==> !has_sep(#[trigger] parts[k]),
        forall|k: int| 0 <= k < parts.len() - 1 ==> separable(#[trigger] parts[k]),
    ensures
        split_parts(join_parts(parts)) == parts,
    decreases parts.len(),
{
    if parts.len() == 1 {
        lemma_split_single(parts[0]);
        assert(seq![parts[0]] =~= parts);
    } else {
        let rest = parts.skip(1);
        assert forall|k: int| 0 <= k < rest.len() implies !has_sep(#[trigger] rest[k]) by {
            assert(rest[k] == parts[k + 1]);
        }
        assert forall|k: int| 0 <= k < rest.len() - 1 implies separable(#[trigger] rest[k]) by {
            assert(rest[k] == parts[k + 1]);
        }
        lemma_split_join(rest);
        assert(separable(parts[0]));
        lemma_split_piece_then_rest(parts[0], join_parts(rest));
        assert(seq![parts[0]] + rest =~= parts);
    }
}

proof fn lemma_split_step(s: Seq<char>, i: int)
    requires
        0 <= i < s.len(),
        !sep_at(s, i),
    ensures
        split_parts(s.skip(i)) == prepend_first(seq![s[i]], split_parts(s.skip(i + 1))),
{
    let t = s.skip(i);
    assert(t.skip(1) =~= s.skip(i + 1));
    if t.len() < 2 {
        assert(s.skip(i + 1) =~= Seq::<char>::empty());
        assert(t =~= seq![s[i]]);
        assert(prepend_first(seq![s[i]], split_parts(s.skip(i + 1))) =~= seq![t]);
    } else {
        assert(!(t[0] == ':' && t[1] == ':'));
    }
}

/// Splits a text at each `::`, as `str::split("::")` does.
pub fn split_instruction(s: &str) -> (parts: Vec<String>)
    ensures
        views(parts@) == split_parts(s@),
{
    let n: usize = s.unicode_len();
    let mut parts: Vec<String> = Vec::new();
    let mut start: usize = 0;
    let mut i: usize = 0;
    proof {
        lemma_split_nonempty(s@);
        assert(s@.skip(0) =~= s@);
        assert(s@.subrange(0, 0) =~= Seq::<char>::empty());
        assert(prepend_first(Seq::<char>::empty(), split_parts(s@)) =~= split_parts(s@));
        assert(views(parts@) =~= Seq::<Seq<char>>::empty());
        assert(views(parts@) + split_parts(s@) =~= split_parts(s@));
    }
    while i < n
        invariant
            n == s@.len(),
            start <= i <= n,
            views(parts@) + prepend_first(s@.subrange(start as int, i as int), split_parts(s@.skip(i as int)))
                == split_parts(s@),
        decreases n - i,
    {
        let ghost before = views(parts@);
        let ghost pre = s@.subrange(start as int, i as int);
        if i + 1 < n && s.get_char(i) == ':' && s.get_char(i + 1) == ':' {
            let piece = s.substring_char(start, i);
            parts.push(piece.to_owned());
            proof {
                let t = s@.skip(i as int);
                assert(t.skip(2) =~= s@.skip(i + 2));
                let rest = split_parts(s@.skip(i + 2));
                lemma_split_nonempty(s@.skip(i + 2));
                assert(split_parts(t) == seq![Seq::<char>::empty()] + rest);
                assert(prepend_first(pre, split_parts(t)) =~= seq![pre] + rest);
                assert(views(parts@) =~= before.push(pre));
                assert(s@.subrange(i + 2, i + 2) =~= Seq::<char>::empty());
                assert(prepend_first(Seq::<char>::empty(), rest) =~= rest);
                assert(views(parts@) + rest =~= before + (seq![pre] + rest));
            }
            i = i + 2;
            start = i;
        } else {
            proof {
                assert(!sep_at(s@, i as int));
                lemma_split_step(s@, i as int);
                lemma_split_nonempty(s@.skip(i + 1));
                let rest = split_parts(s@.skip(i + 1));
                assert(s@.subrange(start as int, i + 1) =~= pre + seq![s@[i as int]]);
                let inner = prepend_first(seq![s@[i as int]], rest);
                assert(inner[0] == seq![s@[i as int]] + rest[0]);
                assert(pre + (seq![s@[i as int]] + rest[0]) =~= (pre + seq![s@[i as int]]) + rest[0]);
                assert(prepend_first(pre, prepend_first(seq![s@[i as int]], rest))
                    =~= prepend_first(s@.subrange(start as int, i + 1), rest));
            }
            i = i + 1;
        }
    }
    let piece = s.substring_char(start, n);
    let ghost before = views(parts@);
    parts.push(piece.to_owned());
    proof {
        assert(s@.skip(n as int) =~= Seq::<char>::empty());
        let pre = s@.subrange(start as int, n as int);
        assert(prepend_first(pre, split_parts(s@.skip(n as int))) =~= seq![pre]);
        assert(views(parts@) =~= before.push(pre));
    }
    parts
}

} // verus!
