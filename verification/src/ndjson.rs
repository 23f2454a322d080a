//! Newline-delimited JSON: a body is a run of lines, each of which holds one message.
use vstd::prelude::*;
use vstd::utf8::*;
use crate::text;

verus! {

/// The byte that ends a line.
pub const LINE_FEED: u8 = 10;

/// The byte that may stand before the line feed and then belongs to the line's end.
pub const CARRIAGE_RETURN: u8 = 13;

/// `line` without the carriage return that it may end with.
pub open spec fn without_carriage_return(line: Seq<u8>) -> Seq<u8> {
    if line.len() > 0 && line.last() == CARRIAGE_RETURN {
        line.drop_last()
    } else {
        line
    }
}

/// How many bytes stand before the first line feed of `body`; all of them where it has none.
pub open spec fn first_line_len(body: Seq<u8>) -> nat
    decreases body.len(),
{
    if body.len() == 0 || body[0] == LINE_FEED {
        0
    } else {
        1 + first_line_len(body.drop_first())
    }
}

/// The lines of `body`, without the bytes that end them. What stands after the last line feed
/// is a line too, unless it is empty, and keeps its carriage return.
pub open spec fn lines_of(body: Seq<u8>) -> Seq<Seq<u8>>
    decreases body.len(),
{
    if body.len() == 0 {
        Seq::empty()
    } else {
        let n = first_line_len(body) as int;
        if n < body.len() {
            seq![without_carriage_return(body.take(n))] + lines_of(body.skip(n + 1))
        } else {
            seq![body]
        }
    }
}

proof fn lemma_first_line_len(body: Seq<u8>)
    ensures
        first_line_len(body) <= body.len(),
        forall|i: int| 0 <= i < first_line_len(body) ==> body[i] != LINE_FEED,
        first_line_len(body) < body.len() ==> body[first_line_len(body) as int] == LINE_FEED,
    decreases body.len(),
{
    if body.len() > 0 && body[0] != LINE_FEED {
        let rest = body.drop_first();
        lemma_first_line_len(rest);
        assert forall|i: int| 0 <= i < first_line_len(body) implies body[i] != LINE_FEED by {
            if i > 0 {
                assert(body[i] == rest[i - 1]);
            }
        }
    }
}

/// The number of bytes without a line feed at the front, where the next byte is one or is
/// missing, is the length of the first line.
proof fn lemma_first_line_len_is(body: Seq<u8>, n: int)
    requires
        0 <= n <= body.len(),
        forall|i: int| 0 <= i < n ==> body[i] != LINE_FEED,
        n < body.len() ==> body[n] == LINE_FEED,
    ensures
        first_line_len(body) == n,
{
    lemma_first_line_len(body);
}

/// Splits `body` into its lines.
pub fn split_lines(body: &[u8]) -> (res: Vec<Vec<u8>>)
    ensures
        res@.map_values(|line: Vec<u8>| line@) == lines_of(body@),
        res@.len() == lines_of(body@).len(),
        forall|i: int| 0 <= i < res@.len() ==> (#[trigger] res@[i])@ == lines_of(body@)[i],
{
    let mut res: Vec<Vec<u8>> = Vec::new();
    let ghost views = |line: Vec<u8>| line@;
    let mut start: usize = 0;
    let mut pos: usize = 0;
    let mut line: Vec<u8> = Vec::new();
    assert(body@.skip(0) =~= body@);
    assert(res@.map_values(views) + lines_of(body@) =~= lines_of(body@));
    while pos < body.len()
        invariant
            start <= pos <= body@.len(),
            views == (|line: Vec<u8>| line@),
            line@ == body@.subrange(start as int, pos as int),
            forall|i: int| start <= i < pos ==> body@[i] != LINE_FEED,
            res@.map_values(views) + lines_of(body@.skip(start as int)) == lines_of(body@),
        decreases body@.len() - pos,
    {
        if body[pos] == LINE_FEED {
            let ghost rest = body@.skip(start as int);
            let ghost n = pos - start;
            proof {
                lemma_first_line_len_is(rest, n);
                assert(rest.take(n) =~= line@);
                assert(rest.skip(n + 1) =~= body@.skip(pos + 1));
            }
            let len: usize = line.len();
            if len > 0 && line[len - 1] == CARRIAGE_RETURN {
                line.truncate(len - 1);
                assert(line@ =~= without_carriage_return(rest.take(n)));
            }
            let ghost before = res@.map_values(views);
            let ghost done = line@;
            res.push(line);
            line = Vec::new();
            start = pos + 1;
            assert(res@.map_values(views) =~= before + seq![done]);
            assert(res@.map_values(views) + lines_of(body@.skip(start as int)) =~= before
                + lines_of(rest));
        } else {
            line.push(body[pos]);
        }
        pos = pos + 1;
        assert(line@ =~= body@.subrange(start as int, pos as int));
    }
    let ghost rest = body@.skip(start as int);
    if start < pos {
        proof {
            lemma_first_line_len_is(rest, rest.len() as int);
            assert(line@ =~= rest);
        }
        let ghost before = res@.map_values(views);
        res.push(line);
        assert(res@.map_values(views) =~= before + seq![rest]);
    } else {
        assert(rest =~= Seq::<u8>::empty());
        assert(res@.map_values(views) =~= lines_of(body@));
    }
    assert forall|i: int| 0 <= i < res@.len() implies (#[trigger] res@[i])@ == lines_of(
        body@,
    )[i] by {
        assert(res@.map_values(views)[i] == res@[i]@);
    }
    res
}

/// `lines`, each with a line feed behind it.
pub open spec fn framed(lines: Seq<Seq<u8>>) -> Seq<u8>
    decreases lines.len(),
{
    if lines.len() == 0 {
        Seq::empty()
    } else {
        lines[0].push(LINE_FEED) + framed(lines.drop_first())
    }
}

/// `line` can be told from its end: it holds no line feed and does not end with a carriage
/// return.
pub open spec fn is_plain_line(line: Seq<u8>) -> bool {
    &&& forall|i: int| 0 <= i < line.len() ==> line[i] != LINE_FEED
    &&& line.len() > 0 ==> line.last() != CARRIAGE_RETURN
}

/// No line holds a line feed.
pub proof fn law_lines_hold_no_line_feed(body: Seq<u8>)
    ensures
        forall|i: int, j: int|
            0 <= i < lines_of(body).len() && 0 <= j < lines_of(body)[i].len() ==> #[trigger] lines_of(
                body,
            )[i][j] != LINE_FEED,
    decreases body.len(),
{
    if body.len() > 0 {
        lemma_first_line_len(body);
        let n = first_line_len(body) as int;
        if n < body.len() {
            let rest = lines_of(body.skip(n + 1));
            law_lines_hold_no_line_feed(body.skip(n + 1));
            assert forall|i: int, j: int|
                0 <= i < lines_of(body).len() && 0 <= j < lines_of(body)[i].len() implies #[trigger] lines_of(
                body,
            )[i][j] != LINE_FEED by {
                if i > 0 {
                    assert(lines_of(body)[i] == rest[i - 1]);
                    assert(rest[i - 1][j] != LINE_FEED);
                } else {
                    assert(lines_of(body)[0] == without_carriage_return(body.take(n)));
                }
            }
        }
    }
}

/// What follows the last line feed is read as one more line, where it is not empty.
pub proof fn law_last_line_needs_no_end(lines: Seq<Seq<u8>>, last: Seq<u8>)
    requires
        forall|i: int| 0 <= i < lines.len() ==> is_plain_line(#[trigger] lines[i]),
        forall|i: int| 0 <= i < last.len() ==> last[i] != LINE_FEED,
    ensures
        lines_of(framed(lines) + last) == (if last.len() == 0 {
            lines
        } else {
            lines.push(last)
        }),
    decreases lines.len(),
{
    let body = framed(lines) + last;
    if lines.len() == 0 {
        assert(body =~= last);
        if last.len() > 0 {
            lemma_first_line_len_is(last, last.len() as int);
            assert(lines_of(last) =~= lines.push(last));
        } else {
            assert(lines_of(last) =~= lines);
        }
    } else {
        let line = lines[0];
        let rest = lines.drop_first();
        assert forall|i: int| 0 <= i < rest.len() implies is_plain_line(#[trigger] rest[i]) by {
            assert(rest[i] == lines[i + 1]);
        }
        law_last_line_needs_no_end(rest, last);
        assert(is_plain_line(line));
        assert(forall|i: int| 0 <= i < line.len() ==> body[i] == line[i]);
        assert(body[line.len() as int] == LINE_FEED);
        lemma_first_line_len_is(body, line.len() as int);
        assert(body.take(line.len() as int) =~= line);
        assert(body.skip(line.len() as int + 1) =~= framed(rest) + last);
        assert(lines_of(body) =~= seq![line] + lines_of(framed(rest) + last));
        assert(seq![line] + rest =~= lines);
        assert(seq![line] + rest.push(last) =~= lines.push(last));
    }
}

/// Lines that were written one after the other, each with a line feed behind it, read back as
/// they are.
pub proof fn law_framed_lines_read_back(lines: Seq<Seq<u8>>)
    requires
        forall|i: int| 0 <= i < lines.len() ==> is_plain_line(#[trigger] lines[i]),
    ensures
        lines_of(framed(lines)) == lines,
{
    law_last_line_needs_no_end(lines, Seq::empty());
    assert(framed(lines) + Seq::<u8>::empty() =~= framed(lines));
}

/// Decodes UTF-8.
///
/// Calls `String::from_utf8`, which succeeds on exactly the byte sequences that are valid UTF-8
/// and then holds the characters that they encode.
#[verifier::external_body]
fn text_from_utf8(bytes: Vec<u8>) -> (res: Option<String>)
    ensures
        res matches Some(s) ==> valid_utf8(bytes@) && s@ == decode_utf8(bytes@),
        res is None ==> !valid_utf8(bytes@),
{
    String::from_utf8(bytes).ok()
}

/// How many lines stand before the first that is not valid UTF-8; all of them where none is
/// invalid.
pub open spec fn readable_len(lines: Seq<Seq<u8>>) -> nat
    decreases lines.len(),
{
    if lines.len() == 0 || !valid_utf8(lines[0]) {
        0
    } else {
        1 + readable_len(lines.drop_first())
    }
}

/// The texts of `lines`, without those that are blank.
pub open spec fn message_texts(lines: Seq<Seq<u8>>) -> Seq<Seq<char>> {
    lines.map_values(|line: Seq<u8>| decode_utf8(line)).filter(|t: Seq<char>| !text::is_blank(t))
}

proof fn lemma_readable_len(lines: Seq<Seq<u8>>)
    ensures
        readable_len(lines) <= lines.len(),
        forall|i: int| 0 <= i < readable_len(lines) ==> valid_utf8(#[trigger] lines[i]),
        readable_len(lines) < lines.len() ==> !valid_utf8(lines[readable_len(lines) as int]),
    decreases lines.len(),
{
    if lines.len() > 0 && valid_utf8(lines[0]) {
        let rest = lines.drop_first();
        lemma_readable_len(rest);
        assert forall|i: int| 0 <= i < readable_len(lines) implies valid_utf8(
            #[trigger] lines[i],
        ) by {
            if i > 0 {
                assert(lines[i] == rest[i - 1]);
            }
        }
    }
}

proof fn lemma_message_texts_push(lines: Seq<Seq<u8>>, line: Seq<u8>)
    ensures
        message_texts(lines.push(line)) == (if text::is_blank(decode_utf8(line)) {
            message_texts(lines)
        } else {
            message_texts(lines).push(decode_utf8(line))
        }),
{
    let f = |line: Seq<u8>| decode_utf8(line);
    assert(lines.push(line).map_values(f) =~= lines.map_values(f).push(decode_utf8(line)));
    assert(lines.push(line).map_values(f).drop_last() =~= lines.map_values(f));
    reveal(Seq::filter);
}

proof fn lemma_readable_len_is(lines: Seq<Seq<u8>>, n: int)
    requires
        0 <= n <= lines.len(),
        forall|i: int| 0 <= i < n ==> valid_utf8(#[trigger] lines[i]),
        n < lines.len() ==> !valid_utf8(lines[n]),
    ensures
        readable_len(lines) == n,
{
    lemma_readable_len(lines);
}

proof fn lemma_message_texts_all(lines: Seq<Seq<u8>>)
    requires
        forall|i: int|
            0 <= i < lines.len() ==> !text::is_blank(decode_utf8(#[trigger] lines[i])),
    ensures
        message_texts(lines) == lines.map_values(|line: Seq<u8>| decode_utf8(line)),
    decreases lines.len(),
{
    let f = |line: Seq<u8>| decode_utf8(line);
    reveal(Seq::filter);
    if lines.len() == 0 {
        assert(message_texts(lines) =~= lines.map_values(f));
    } else {
        let init = lines.drop_last();
        assert forall|i: int| 0 <= i < init.len() implies !text::is_blank(
            decode_utf8(#[trigger] init[i]),
        ) by {
            assert(init[i] == lines[i]);
        }
        lemma_message_texts_all(init);
        lemma_message_texts_push(init, lines.last());
        assert(init.push(lines.last()) =~= lines);
        assert(!text::is_blank(decode_utf8(lines[lines.len() - 1])));
        assert(init.map_values(f).push(decode_utf8(lines.last())) =~= lines.map_values(f));
    }
}

/// The texts of a body that hold messages, up to the first line that is not valid UTF-8.
pub open spec fn readable_texts(body: Seq<u8>) -> Seq<Seq<char>> {
    message_texts(lines_of(body).take(readable_len(lines_of(body)) as int))
}

/// Every line of a body is valid UTF-8.
pub open spec fn is_readable(body: Seq<u8>) -> bool {
    readable_len(lines_of(body)) == lines_of(body).len()
}

/// Messages that were written one on a line read back one for one, in their order, where none
/// of them is blank.
pub proof fn law_messages_read_back(lines: Seq<Seq<u8>>)
    requires
        forall|i: int|
            0 <= i < lines.len() ==> is_plain_line(#[trigger] lines[i]) && valid_utf8(lines[i])
                && !text::is_blank(decode_utf8(lines[i])),
    ensures
        is_readable(framed(lines)),
        readable_texts(framed(lines)) == lines.map_values(|line: Seq<u8>| decode_utf8(line)),
{
    law_framed_lines_read_back(lines);
    lemma_readable_len_is(lines, lines.len() as int);
    lemma_message_texts_all(lines);
    assert(lines.take(lines.len() as int) =~= lines);
}

/// `body` is empty or its last line has an end.
pub open spec fn ends_line(body: Seq<u8>) -> bool {
    body.len() > 0 ==> body.last() == LINE_FEED
}

/// `line` holds no line feed and is text that is blank, its carriage return included.
pub open spec fn is_blank_end(line: Seq<u8>) -> bool {
    &&& forall|i: int| 0 <= i < line.len() ==> line[i] != LINE_FEED
    &&& valid_utf8(line)
    &&& text::is_blank(decode_utf8(line))
}

/// `line` holds no line feed and, without the carriage return that it may end with, is text
/// that is blank.
pub open spec fn is_blank_line(line: Seq<u8>) -> bool {
    &&& forall|i: int| 0 <= i < line.len() ==> line[i] != LINE_FEED
    &&& valid_utf8(without_carriage_return(line))
    &&& text::is_blank(decode_utf8(without_carriage_return(line)))
}

/// Behind the end of a line, another body adds its own lines.
proof fn lemma_lines_of_concat(a: Seq<u8>, b: Seq<u8>)
    requires
        ends_line(a),
    ensures
        lines_of(a + b) == lines_of(a) + lines_of(b),
    decreases a.len(),
{
    if a.len() == 0 {
        assert(a + b =~= b);
        assert(lines_of(a) + lines_of(b) =~= lines_of(b));
    } else {
        lemma_first_line_len(a);
        let n = first_line_len(a) as int;
        assert(a[a.len() - 1] == LINE_FEED);
        let rest = a.skip(n + 1);
        lemma_lines_of_concat(rest, b);
        assert(forall|i: int| 0 <= i < a.len() ==> (a + b)[i] == a[i]);
        lemma_first_line_len_is(a + b, n);
        assert((a + b).take(n) =~= a.take(n));
        assert((a + b).skip(n + 1) =~= rest + b);
        assert(lines_of(a + b) =~= lines_of(a) + lines_of(b));
    }
}

/// A line and its end are one line.
proof fn lemma_lines_of_one(line: Seq<u8>)
    requires
        forall|i: int| 0 <= i < line.len() ==> line[i] != LINE_FEED,
    ensures
        lines_of(line.push(LINE_FEED)) == seq![without_carriage_return(line)],
{
    let body = line.push(LINE_FEED);
    lemma_first_line_len_is(body, line.len() as int);
    assert(body.take(line.len() as int) =~= line);
    assert(body.skip(line.len() as int + 1) =~= Seq::<u8>::empty());
    assert(lines_of(Seq::<u8>::empty()) =~= Seq::<Seq<u8>>::empty());
    assert(lines_of(body) =~= seq![without_carriage_return(line)]);
}

/// The end of the last line may be left out.
proof fn lemma_lines_of_ended(body: Seq<u8>)
    requires
        body.len() > 0,
        body.last() != LINE_FEED,
        body.last() != CARRIAGE_RETURN,
    ensures
        lines_of(body.push(LINE_FEED)) == lines_of(body),
    decreases body.len(),
{
    lemma_first_line_len(body);
    let n = first_line_len(body) as int;
    if n < body.len() {
        let rest = body.skip(n + 1);
        assert(rest.last() == body.last());
        lemma_lines_of_ended(rest);
        lemma_first_line_len_is(body.push(LINE_FEED), n);
        assert(body.push(LINE_FEED).take(n) =~= body.take(n));
        assert(body.push(LINE_FEED).skip(n + 1) =~= rest.push(LINE_FEED));
    } else {
        lemma_lines_of_one(body);
    }
}

/// Where all of `a` can be read, what follows it is read too; else nothing behind it is.
proof fn lemma_readable_len_concat(a: Seq<Seq<u8>>, b: Seq<Seq<u8>>)
    ensures
        readable_len(a + b) == (if readable_len(a) == a.len() {
            a.len() + readable_len(b)
        } else {
            readable_len(a)
        }),
{
    lemma_readable_len(a);
    lemma_readable_len(b);
    let n = if readable_len(a) == a.len() {
        a.len() + readable_len(b)
    } else {
        readable_len(a)
    };
    assert forall|i: int| 0 <= i < n implies valid_utf8(#[trigger] (a + b)[i]) by {
        if i < a.len() {
            assert((a + b)[i] == a[i]);
        } else {
            assert((a + b)[i] == b[i - a.len()]);
        }
    }
    lemma_readable_len_is(a + b, n as int);
}

proof fn lemma_message_texts_concat(a: Seq<Seq<u8>>, b: Seq<Seq<u8>>)
    ensures
        message_texts(a + b) == message_texts(a) + message_texts(b),
    decreases b.len(),
{
    if b.len() == 0 {
        reveal(Seq::filter);
        assert(a + b =~= a);
        assert(message_texts(b) =~= Seq::<Seq<char>>::empty());
        assert(message_texts(a) + message_texts(b) =~= message_texts(a));
    } else {
        let init = b.drop_last();
        lemma_message_texts_concat(a, init);
        lemma_message_texts_push(a + init, b.last());
        lemma_message_texts_push(init, b.last());
        assert((a + init).push(b.last()) =~= a + b);
        assert(init.push(b.last()) =~= b);
        assert(message_texts(a + b) =~= message_texts(a) + message_texts(b));
    }
}

/// Behind the end of a line, another body adds its own messages, where all before it can be
/// read; else nothing of it is read.
pub proof fn law_following_body_is_read_after(a: Seq<u8>, b: Seq<u8>)
    requires
        ends_line(a),
    ensures
        is_readable(a + b) == (is_readable(a) && is_readable(b)),
        readable_texts(a + b) == (if is_readable(a) {
            readable_texts(a) + readable_texts(b)
        } else {
            readable_texts(a)
        }),
{
    let la = lines_of(a);
    let lb = lines_of(b);
    lemma_lines_of_concat(a, b);
    lemma_readable_len(la);
    lemma_readable_len(lb);
    lemma_readable_len_concat(la, lb);
    if is_readable(a) {
        let n = readable_len(lb) as int;
        assert((la + lb).take(la.len() + n) =~= la + lb.take(n));
        assert(la.take(la.len() as int) =~= la);
        lemma_message_texts_concat(la, lb.take(n));
    } else {
        let n = readable_len(la) as int;
        assert((la + lb).take(n) =~= la.take(n));
    }
}

/// A body of one blank line can be read and holds no message.
proof fn lemma_blank_line(body: Seq<u8>, one: Seq<u8>)
    requires
        lines_of(body) == seq![one],
        valid_utf8(one),
        text::is_blank(decode_utf8(one)),
    ensures
        is_readable(body),
        readable_texts(body) == Seq::<Seq<char>>::empty(),
{
    lemma_readable_len_is(seq![one], 1);
    assert(seq![one].take(1) =~= seq![one]);
    lemma_message_texts_push(Seq::empty(), one);
    assert(Seq::<Seq<u8>>::empty().push(one) =~= seq![one]);
    reveal(Seq::filter);
    assert(message_texts(Seq::empty()) =~= Seq::<Seq<char>>::empty());
}

/// A blank line more or less, wherever it stands, changes nothing in what is read of a body.
pub proof fn law_blank_line_changes_nothing(a: Seq<u8>, line: Seq<u8>, b: Seq<u8>)
    requires
        ends_line(a),
        is_blank_line(line),
    ensures
        readable_texts(a + line.push(LINE_FEED) + b) == readable_texts(a + b),
        is_readable(a + line.push(LINE_FEED) + b) == is_readable(a + b),
{
    let blank = line.push(LINE_FEED);
    assert(a + blank + b =~= a + (blank + b));
    lemma_lines_of_one(line);
    lemma_blank_line(blank, without_carriage_return(line));
    law_following_body_is_read_after(blank, b);
    assert(Seq::<Seq<char>>::empty() + readable_texts(b) =~= readable_texts(b));
    law_following_body_is_read_after(a, blank + b);
    law_following_body_is_read_after(a, b);
}

/// White space behind the end of the last line changes nothing in what is read of a body.
pub proof fn law_blank_end_changes_nothing(a: Seq<u8>, line: Seq<u8>)
    requires
        ends_line(a),
        is_blank_end(line),
    ensures
        readable_texts(a + line) == readable_texts(a),
        is_readable(a + line) == is_readable(a),
{
    if line.len() > 0 {
        lemma_first_line_len_is(line, line.len() as int);
        lemma_blank_line(line, line);
        law_following_body_is_read_after(a, line);
        assert(readable_texts(a) + Seq::<Seq<char>>::empty() =~= readable_texts(a));
    } else {
        assert(a + line =~= a);
    }
}

/// A line feed at the end changes nothing in what is read of a body, whether it ends the last
/// line or adds an empty one. A carriage return before it would become part of the line's end.
pub proof fn law_last_line_feed_changes_nothing(a: Seq<u8>)
    requires
        a.len() > 0 ==> a.last() != CARRIAGE_RETURN,
    ensures
        readable_texts(a.push(LINE_FEED)) == readable_texts(a),
        is_readable(a.push(LINE_FEED)) == is_readable(a),
{
    if ends_line(a) {
        let none = Seq::<u8>::empty();
        assert(decode_utf8(none) =~= Seq::<char>::empty());
        law_blank_line_changes_nothing(a, none, none);
        assert(a + none.push(LINE_FEED) + none =~= a.push(LINE_FEED));
        assert(a + none =~= a);
    } else {
        lemma_lines_of_ended(a);
    }
}

/// Two bodies that are joined by a line feed hold the messages of the one and then those of the
/// other, where all of the first can be read. The first must not end with a carriage return,
/// which would become part of its last line's end.
pub proof fn law_joined_bodies_hold_both(a: Seq<u8>, b: Seq<u8>)
    requires
        is_readable(a),
        a.len() > 0 ==> a.last() != CARRIAGE_RETURN,
    ensures
        readable_texts(a.push(LINE_FEED) + b) == readable_texts(a) + readable_texts(b),
        is_readable(a.push(LINE_FEED) + b) == is_readable(b),
{
    law_last_line_feed_changes_nothing(a);
    law_following_body_is_read_after(a.push(LINE_FEED), b);
}

/// The same texts, but that one of `a` may have a carriage return behind it that the one of `b`
/// has not.
pub open spec fn same_but_for_carriage_return(a: Seq<Seq<char>>, b: Seq<Seq<char>>) -> bool {
    &&& a.len() == b.len()
    &&& forall|i: int| 0 <= i < a.len() ==> #[trigger] a[i] == b[i] || a[i] == b[i].push('\r')
}

/// A carriage return behind bytes is one behind their text.
proof fn lemma_carriage_return(line: Seq<u8>)
    ensures
        valid_utf8(line.push(CARRIAGE_RETURN)) == valid_utf8(line),
        valid_utf8(line) ==> decode_utf8(line.push(CARRIAGE_RETURN)) == decode_utf8(line).push(
            '\r',
        ),
{
    let cr = seq![CARRIAGE_RETURN];
    let both = line.push(CARRIAGE_RETURN);
    let n = line.len() as int;
    assert(both =~= line + cr);
    assert(both.subrange(0, n) =~= line);
    assert(both.subrange(n, both.len() as int) =~= cr);
    assert(is_ascii_chars(seq!['\r']));
    is_ascii_chars_encode_utf8(seq!['\r']);
    assert(encode_utf8(seq!['\r']) =~= cr);
    encode_utf8_valid_utf8(seq!['\r']);
    encode_utf8_decode_utf8(seq!['\r']);
    if valid_utf8(line) {
        valid_utf8_concat(line, cr);
    }
    if valid_utf8(both) {
        assert(!is_continuation_byte(both[n]));
        is_char_boundary_iff_not_is_continuation_byte(both, n);
        valid_utf8_split(both, n);
        decode_utf8_split(both, n);
        assert(decode_utf8(line) + seq!['\r'] =~= decode_utf8(line).push('\r'));
    }
}

proof fn lemma_blank_carriage_return(t: Seq<char>)
    ensures
        text::is_blank(t.push('\r')) == text::is_blank(t),
{
    if text::is_blank(t.push('\r')) {
        assert forall|i: int| 0 <= i < t.len() implies text::is_white_space(#[trigger] t[i]) by {
            assert(t[i] == t.push('\r')[i]);
        }
    }
}

/// A line feed behind a carriage return takes that from the last line.
proof fn lemma_lines_of_carriage_return(body: Seq<u8>)
    requires
        body.len() > 0,
        body.last() == CARRIAGE_RETURN,
    ensures
        lines_of(body).len() > 0,
        lines_of(body.push(LINE_FEED)).len() == lines_of(body).len(),
        lines_of(body.push(LINE_FEED)).drop_last() == lines_of(body).drop_last(),
        lines_of(body).last() == lines_of(body.push(LINE_FEED)).last().push(CARRIAGE_RETURN),
    decreases body.len(),
{
    let ended = body.push(LINE_FEED);
    lemma_first_line_len(body);
    let n = first_line_len(body) as int;
    if n < body.len() {
        let rest = body.skip(n + 1);
        let line = seq![without_carriage_return(body.take(n))];
        assert(rest.last() == body.last());
        lemma_lines_of_carriage_return(rest);
        lemma_first_line_len_is(ended, n);
        assert(ended.take(n) =~= body.take(n));
        assert(ended.skip(n + 1) =~= rest.push(LINE_FEED));
        assert(lines_of(body).drop_last() =~= line + lines_of(rest).drop_last());
        assert(lines_of(ended).drop_last() =~= line + lines_of(rest.push(LINE_FEED)).drop_last());
    } else {
        lemma_lines_of_one(body);
        assert(lines_of(body).drop_last() =~= lines_of(ended).drop_last());
        assert(body.drop_last().push(CARRIAGE_RETURN) =~= body);
    }
}

/// A line feed at the end of any body changes nothing in what is read of it, but that it takes a
/// carriage return from the end of the last text.
pub proof fn law_last_line_feed_takes_only_a_carriage_return(a: Seq<u8>)
    ensures
        same_but_for_carriage_return(
            readable_texts(a),
            readable_texts(a.push(LINE_FEED)),
        ),
        is_readable(a.push(LINE_FEED)) == is_readable(a),
{
    if a.len() > 0 && a.last() == CARRIAGE_RETURN {
        let kept = lines_of(a);
        let cut = lines_of(a.push(LINE_FEED));
        lemma_lines_of_carriage_return(a);
        let front = kept.drop_last();
        let line = cut.last();
        assert(kept =~= front + seq![kept.last()]);
        assert(cut =~= front + seq![line]);
        lemma_carriage_return(line);
        lemma_blank_carriage_return(decode_utf8(line));
        lemma_readable_len(front);
        lemma_readable_len_concat(front, seq![kept.last()]);
        lemma_readable_len_concat(front, seq![line]);
        let n = readable_len(front) as int;
        if n == front.len() {
            if valid_utf8(line) {
                lemma_readable_len_is(seq![kept.last()], 1);
                lemma_readable_len_is(seq![line], 1);
                lemma_message_texts_push(front, kept.last());
                lemma_message_texts_push(front, line);
                assert(kept.take(n + 1) =~= front.push(kept.last()));
                assert(cut.take(n + 1) =~= front.push(line));
            } else {
                lemma_readable_len_is(seq![kept.last()], 0);
                lemma_readable_len_is(seq![line], 0);
                assert(kept.take(n) =~= front);
                assert(cut.take(n) =~= front);
            }
        } else {
            assert(kept.take(n) =~= front.take(n));
            assert(cut.take(n) =~= front.take(n));
        }
    } else {
        law_last_line_feed_changes_nothing(a);
    }
}

/// The messages of a body, one text each.
pub struct MessageLines {
    /// The lines that are not blank, in order, up to the first that is not valid UTF-8.
    pub lines: Vec<String>,
    /// Whether every line of the body is valid UTF-8.
    pub complete: bool,
}

impl MessageLines {
    /// The texts that were read.
    pub open spec fn texts(self) -> Seq<Seq<char>> {
        self.lines@.map_values(|line: String| line@)
    }
}

/// Reads the messages of `body`: every line that is not blank is one. Reading stops at a line
/// that is not valid UTF-8.
pub fn message_lines(body: &[u8]) -> (res: MessageLines)
    ensures
        res.texts() == readable_texts(body@),
        res.lines@.len() == readable_texts(body@).len(),
        forall|i: int|
            0 <= i < res.lines@.len() ==> (#[trigger] res.lines@[i])@ == readable_texts(body@)[i],
        res.complete == is_readable(body@),
{
    let split = split_lines(body);
    let ghost lines = lines_of(body@);
    let ghost views = |line: Vec<u8>| line@;
    let mut res = MessageLines { lines: Vec::new(), complete: true };
    proof {
        lemma_readable_len(lines);
        assert(lines.take(0) =~= Seq::<Seq<u8>>::empty());
        reveal(Seq::filter);
        assert(res.texts() =~= message_texts(lines.take(0)));
    }
    for line in it: split
        invariant
            it.seq() == split@,
            lines == lines_of(body@),
            lines == split@.map_values(views),
            views == (|line: Vec<u8>| line@),
            res.complete,
            readable_len(lines) <= lines.len(),
            forall|i: int| 0 <= i < readable_len(lines) ==> valid_utf8(#[trigger] lines[i]),
            readable_len(lines) < lines.len() ==> !valid_utf8(lines[readable_len(lines) as int]),
            it.index() <= readable_len(lines),
            res.texts() == message_texts(lines.take(it.index())),
    {
        let ghost i = it.index();
        assert(lines[i] == line@);
        match text_from_utf8(line) {
            Some(text) => {
                let ghost before = res.texts();
                proof {
                    lemma_message_texts_push(lines.take(i), lines[i]);
                    assert(lines.take(i + 1) =~= lines.take(i).push(lines[i]));
                }
                if !text::blank(text.as_str()) {
                    let ghost pushed = text@;
                    res.lines.push(text);
                    assert(res.texts() =~= before.push(pushed));
                }
            },
            None => {
                res.complete = false;
                return res;
            },
        }
    }
    assert(lines.take(lines.len() as int) =~= lines);
    res
}

/// A body is cut at its line feeds: what stands before the first is one line, without the carriage
/// return that it may end with, and the lines of the rest follow. What stands behind the last is a
/// line as it is.
pub proof fn law_lines_are_cut_at_line_feeds(line: Seq<u8>, rest: Seq<u8>)
    requires
        forall|i: int| 0 <= i < line.len() ==> line[i] != 10,
    ensures
        lines_of(Seq::empty()) == Seq::<Seq<u8>>::empty(),
        line.len() > 0 ==> lines_of(line) == seq![line],
        line.len() > 0 && line.last() == 13 ==> lines_of(line + seq![10u8] + rest)
            == seq![line.drop_last()] + lines_of(rest),
        !(line.len() > 0 && line.last() == 13) ==> lines_of(line + seq![10u8] + rest)
            == seq![line] + lines_of(rest),
{
    assert(lines_of(Seq::<u8>::empty()) =~= Seq::<Seq<u8>>::empty());
    if line.len() > 0 {
        lemma_first_line_len_is(line, line.len() as int);
    }
    lemma_lines_of_one(line);
    lemma_lines_of_concat(line.push(LINE_FEED), rest);
    assert(line + seq![10u8] =~= line.push(LINE_FEED));
}

/// What is read of a body whose first line is `one`, where the lines of `rest` follow it.
proof fn lemma_texts_by_lines(body: Seq<u8>, one: Seq<u8>, rest: Seq<u8>)
    requires
        lines_of(body) == seq![one] + lines_of(rest),
    ensures
        is_readable(body) == (valid_utf8(one) && is_readable(rest)),
        readable_texts(body) == (if !valid_utf8(one) {
            Seq::empty()
        } else if text::is_blank(decode_utf8(one)) {
            readable_texts(rest)
        } else {
            seq![decode_utf8(one)] + readable_texts(rest)
        }),
{
    let lines = lines_of(rest);
    let n = readable_len(lines) as int;
    lemma_readable_len(lines);
    lemma_readable_len_concat(seq![one], lines);
    reveal(Seq::filter);
    assert(message_texts(Seq::empty()) =~= Seq::<Seq<char>>::empty());
    if valid_utf8(one) {
        lemma_readable_len_is(seq![one], 1);
        assert((seq![one] + lines).take(1 + n) =~= seq![one] + lines.take(n));
        lemma_message_texts_concat(seq![one], lines.take(n));
        lemma_message_texts_push(Seq::empty(), one);
        assert(Seq::<Seq<u8>>::empty().push(one) =~= seq![one]);
        assert(Seq::<Seq<char>>::empty().push(decode_utf8(one)) =~= seq![decode_utf8(one)]);
        assert(Seq::<Seq<char>>::empty() + readable_texts(rest) =~= readable_texts(rest));
    } else {
        lemma_readable_len_is(seq![one], 0);
        assert((seq![one] + lines).take(0) =~= Seq::<Seq<u8>>::empty());
    }
}

/// A line that holds any character that is not white space is one text of its body, and a line
/// that does not is none; the texts of what follows come behind it. A line that is not valid UTF-8
/// ends the reading.
pub proof fn law_texts_come_line_by_line(line: Seq<u8>, end: Seq<u8>, rest: Seq<u8>)
    requires
        forall|i: int| 0 <= i < line.len() ==> line[i] != 10,
        end == seq![13u8, 10u8] || end == seq![10u8] && (line.len() > 0 ==> line.last() != 13),
    ensures
        is_readable(line + end + rest) == (valid_utf8(line) && is_readable(rest)),
        !valid_utf8(line) ==> readable_texts(line + end + rest) == Seq::<Seq<char>>::empty(),
        valid_utf8(line) && (exists|i: int|
            0 <= i < decode_utf8(line).len() && !text::is_white_space(
                #[trigger] decode_utf8(line)[i],
            )) ==> readable_texts(line + end + rest) == seq![decode_utf8(line)] + readable_texts(
            rest,
        ),
        valid_utf8(line) && (forall|i: int|
            0 <= i < decode_utf8(line).len() ==> text::is_white_space(
                #[trigger] decode_utf8(line)[i],
            )) ==> readable_texts(line + end + rest) == readable_texts(rest),
{
    let body = line + end + rest;
    if end.len() == 2 {
        law_lines_are_cut_at_line_feeds(line.push(13), rest);
        assert(line.push(13).drop_last() =~= line);
        assert(line.push(13) + seq![10u8] + rest =~= body);
    } else {
        law_lines_are_cut_at_line_feeds(line, rest);
    }
    lemma_texts_by_lines(body, line, rest);
}

/// The last line of a body needs no line feed: it is one text where it holds any character that is
/// not white space. A body without bytes has no text.
pub proof fn law_last_text_needs_no_line_feed(line: Seq<u8>)
    requires
        forall|i: int| 0 <= i < line.len() ==> line[i] != 10,
    ensures
        ({
            let t = decode_utf8(line);
            &&& is_readable(line) == valid_utf8(line)
            &&& !valid_utf8(line) ==> readable_texts(line) == Seq::<Seq<char>>::empty()
            &&& valid_utf8(line) && (exists|i: int|
                0 <= i < t.len() && !text::is_white_space(#[trigger] t[i])) ==> readable_texts(line)
                == seq![t]
            &&& valid_utf8(line) && (forall|i: int|
                0 <= i < t.len() ==> text::is_white_space(#[trigger] t[i])) ==> readable_texts(line)
                == Seq::<Seq<char>>::empty()
        }),
{
    let none = Seq::<u8>::empty();
    reveal(Seq::filter);
    assert(lines_of(none) =~= Seq::<Seq<u8>>::empty());
    assert(lines_of(none).take(0) =~= Seq::<Seq<u8>>::empty());
    assert(readable_texts(none) =~= Seq::<Seq<char>>::empty());
    if line.len() > 0 {
        law_lines_are_cut_at_line_feeds(line, none);
        assert(seq![line] + lines_of(none) =~= seq![line]);
        lemma_texts_by_lines(line, line, none);
        assert(seq![decode_utf8(line)] + readable_texts(none) =~= seq![decode_utf8(line)]);
    } else {
        assert(line =~= none);
        assert(decode_utf8(none) =~= Seq::<char>::empty());
    }
}

/// Lines that each hold any character that is not white space give one text each, in their order,
/// however long they are.
pub proof fn law_lines_with_text_read_back(lines: Seq<Seq<u8>>)
    requires
        forall|i: int, j: int|
            0 <= i < lines.len() && 0 <= j < lines[i].len() ==> #[trigger] lines[i][j] != 10,
        forall|i: int|
            0 <= i < lines.len() && (#[trigger] lines[i]).len() > 0 ==> lines[i].last() != 13,
        forall|i: int| 0 <= i < lines.len() ==> valid_utf8(#[trigger] lines[i]),
        forall|i: int|
            0 <= i < lines.len() ==> exists|j: int|
                0 <= j < decode_utf8(#[trigger] lines[i]).len() && !text::is_white_space(
                    #[trigger] decode_utf8(lines[i])[j],
                ),
    ensures
        is_readable(framed(lines)),
        readable_texts(framed(lines)).len() == lines.len(),
        forall|i: int|
            0 <= i < lines.len() ==> #[trigger] readable_texts(framed(lines))[i] == decode_utf8(
                lines[i],
            ),
{
    assert forall|i: int| 0 <= i < lines.len() implies is_plain_line(#[trigger] lines[i])
        && valid_utf8(lines[i]) && !text::is_blank(decode_utf8(lines[i])) by {
        assert forall|j: int| 0 <= j < lines[i].len() implies lines[i][j] != LINE_FEED by {}
        text::law_blank_holds_nothing_else(decode_utf8(lines[i]));
    }
    law_messages_read_back(lines);
}

/// A line that is put in front of others stands in front of them, with a line feed between.
pub proof fn law_framed_line_by_line(line: Seq<u8>, lines: Seq<Seq<u8>>)
    ensures
        framed(Seq::empty()) == Seq::<u8>::empty(),
        framed(seq![line] + lines) == line + seq![10u8] + framed(lines),
{
    assert((seq![line] + lines).drop_first() =~= lines);
    assert(framed(seq![line] + lines) =~= line + seq![10u8] + framed(lines));
}

} // verus!
