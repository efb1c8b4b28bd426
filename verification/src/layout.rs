//! Text tables for terminals: a boxed header with a centred title, and a
//! boxed body of rows cut or padded to the table's width.

use vstd::prelude::*;
use crate::account::Account;
use crate::frame::text_bytes;
use crate::text::{owned, views};
use crate::user::account_ids;

verus! {

/// `n` copies of a text, one after the other.
pub open spec fn repeat_text(t: Seq<char>, n: nat) -> Seq<char>
    decreases n,
{
    if n == 0 {
        seq![]
    } else {
        repeat_text(t, (n - 1) as nat) + t
    }
}

fn append_repeated(line: &mut String, t: &str, n: usize)
    ensures
        final(line)@ == old(line)@ + repeat_text(t@, n as nat),
{
    let mut i: usize = 0;
    while i < n
        invariant
            i <= n,
            line@ == old(line)@ + repeat_text(t@, i as nat),
        decreases n - i,
    {
        let ghost prev = line@;
        line.append(t);
        i = i + 1;
        assert(line@ =~= old(line)@ + repeat_text(t@, i as nat));
    }
}

/// The spaces left of a centred title.
pub open spec fn left_padding(title_len: int, width: int) -> int {
    width / 2 - title_len / 2
}

/// Whether a title of this byte length can be centred in this width.
pub open spec fn title_fits(title_len: int, width: int) -> bool {
    title_len / 2 <= width / 2 && left_padding(title_len, width) + title_len <= width
}

/// A title can be centred exactly when it is no longer than the width; the
/// paddings then fill the width and differ by at most one space.
pub proof fn lemma_title_fits_within_width(title_len: int, width: int)
    requires
        0 <= title_len,
        0 <= width,
    ensures
        title_fits(title_len, width) <==> title_len <= width,
        title_fits(title_len, width) ==> ({
            let left = left_padding(title_len, width);
            let right = width - (left + title_len);
            &&& 0 <= left
            &&& 0 <= right
            &&& left + title_len + right == width
            &&& -1 <= right - left <= 1
        }),
{
}

/// The lines of a table header for a title that can be centred.
pub open spec fn header_view(title: Seq<char>, width: nat) -> Seq<Seq<char>> {
    let len = text_bytes(title).len() as int;
    seq![
        "┌"@ + repeat_text("─"@, width) + "┐"@,
        "│"@ + repeat_text(" "@, left_padding(len, width as int) as nat) + title + repeat_text(
            " "@,
            (width - (left_padding(len, width as int) + len)) as nat,
        ) + "│"@,
        "├"@ + repeat_text("─"@, width) + "┤"@,
    ]
}

/// The lines of a table body.
pub open spec fn body_view(rows: Seq<Seq<char>>, width: nat) -> Seq<Seq<char>> {
    rows.map_values(|s: Seq<char>| body_row(s, width)) + seq![
        "└"@ + repeat_text("─"@, width) + "┘"@,
    ]
}

/// The three lines of a table header: the top border, the title centred by
/// its byte length between two bars, and the rule below. `None` where the
/// title is too long to centre.
pub fn header_lines(title: &String, width: usize) -> (lines: Option<Vec<String>>)
    ensures
        ({
            let len = text_bytes(title@).len() as int;
            match lines {
                Some(l) => title_fits(len, width as int) && views(l@) == header_view(
                    title@,
                    width as nat,
                ),
                None => !title_fits(len, width as int),
            }
        }),
        lines is Some <==> text_bytes(title@).len() <= width,
{
    proof {
        lemma_title_fits_within_width(text_bytes(title@).len() as int, width as int);
    }
    let len = title.as_str().as_bytes().len();
    if len / 2 > width / 2 {
        return None;
    }
    let left = width / 2 - len / 2;
    if left > width || len > width - left {
        return None;
    }
    let right = width - (left + len);
    let mut top = owned("┌");
    append_repeated(&mut top, "─", width);
    top.append("┐");
    let mut middle = owned("│");
    append_repeated(&mut middle, " ", left);
    middle.append(title.as_str());
    append_repeated(&mut middle, " ", right);
    middle.append("│");
    let mut rule = owned("├");
    append_repeated(&mut rule, "─", width);
    rule.append("┤");
    let mut lines: Vec<String> = Vec::new();
    lines.push(top);
    lines.push(middle);
    lines.push(rule);
    assert(views(lines@) =~= seq![
        "┌"@ + repeat_text("─"@, width as nat) + "┐"@,
        "│"@ + repeat_text(" "@, left as nat) + title@ + repeat_text(" "@, right as nat) + "│"@,
        "├"@ + repeat_text("─"@, width as nat) + "┤"@,
    ]);
    Some(lines)
}

/// A text cut to at most `width` characters.
pub open spec fn cut(text: Seq<char>, width: nat) -> Seq<char> {
    if text.len() <= width {
        text
    } else {
        text.take(width as int)
    }
}

/// A body row: the text cut to the width, padded with spaces, between bars.
pub open spec fn body_row(text: Seq<char>, width: nat) -> Seq<char> {
    "│"@ + cut(text, width) + repeat_text(" "@, (width - cut(text, width).len()) as nat) + "│"@
}

/// The lines of a table body: one row per text, then the bottom border.
pub fn body_lines(strings: &Vec<String>, width: usize) -> (lines: Vec<String>)
    ensures
        views(lines@) == body_view(views(strings@), width as nat),
{
    let ghost ss = views(strings@);
    let mut lines: Vec<String> = Vec::new();
    let mut i: usize = 0;
    while i < strings.len()
        invariant
            ss == views(strings@),
            i <= strings@.len(),
            views(lines@) == ss.take(i as int).map_values(|s: Seq<char>| body_row(s, width as nat)),
        decreases strings@.len() - i,
    {
        let text = strings[i].as_str();
        let count = text.unicode_len();
        let row_text = if count <= width {
            text
        } else {
            text.substring_char(0, width)
        };
        let row_len = if count <= width {
            count
        } else {
            width
        };
        let mut row = owned("│");
        row.append(row_text);
        append_repeated(&mut row, " ", width - row_len);
        row.append("│");
        let ghost prev = lines@;
        lines.push(row);
        proof {
            assert(ss[i as int] == text@);
            assert(row_text@ == cut(text@, width as nat));
            assert(ss.take(i + 1) =~= ss.take(i as int).push(ss[i as int]));
            assert(views(lines@) =~= views(prev).push(body_row(ss[i as int], width as nat)));
            assert(views(lines@) =~= ss.take(i + 1).map_values(
                |s: Seq<char>| body_row(s, width as nat),
            ));
        }
        i = i + 1;
    }
    let mut bottom = owned("└");
    append_repeated(&mut bottom, "─", width);
    bottom.append("┘");
    let ghost prev = lines@;
    lines.push(bottom);
    proof {
        assert(ss.take(i as int) =~= ss);
        assert(views(lines@) =~= views(prev).push("└"@ + repeat_text("─"@, width as nat) + "┘"@));
    }
    lines
}

/// The table of all account ids that the server shows at start: the header
/// `List of all accounts`, then one row per account. `None` where the width
/// is too small for the title.
pub fn users_table(accounts: &Vec<Account>, width: usize) -> (lines: Option<Vec<String>>)
    ensures
        ({
            let title = "List of all accounts"@;
            let ids = accounts@.map_values(|a: Account| a.id@);
            match lines {
                Some(l) => title_fits(text_bytes(title).len() as int, width as int) && views(l@)
                    == header_view(title, width as nat) + body_view(ids, width as nat),
                None => !title_fits(text_bytes(title).len() as int, width as int),
            }
        }),
{
    let title = owned("List of all accounts");
    match header_lines(&title, width) {
        None => None,
        Some(mut lines) => {
            let ids = account_ids(accounts);
            let body = body_lines(&ids, width);
            let ghost head = views(lines@);
            let mut i: usize = 0;
            while i < body.len()
                invariant
                    i <= body@.len(),
                    head.len() == 3,
                    views(lines@) == head + views(body@).take(i as int),
                decreases body@.len() - i,
            {
                let ghost prev = lines@;
                lines.push(body[i].clone());
                proof {
                    assert(views(body@).take(i + 1) =~= views(body@).take(i as int).push(
                        body@[i as int]@,
                    ));
                    assert(views(lines@) =~= views(prev).push(body@[i as int]@));
                }
                i = i + 1;
            }
            proof {
                assert(views(body@).take(body@.len() as int) =~= views(body@));
                assert(views(ids@) =~= accounts@.map_values(|a: Account| a.id@));
            }
            Some(lines)
        },
    }
}

} // verus!
