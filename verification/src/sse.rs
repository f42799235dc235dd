//! Server-sent events: the data lines in a stream of bytes.

use vstd::prelude::*;
use vstd::string::*;

use crate::text;
use crate::text::{chars_of, cut, reads, trim};

verus! {

/// The text that some bytes stand for in UTF-8, with replacement characters for what is malformed.
pub uninterp spec fn utf8_lossy(bytes: Seq<u8>) -> Seq<char>;

/// `String::from_utf8_lossy`. The text is a function of the bytes, and for valid UTF-8 it is the
/// text that they encode.
#[verifier::external_body]
pub(crate) fn lossy_text(bytes: &[u8]) -> (text: String)
    ensures
        text@ == utf8_lossy(bytes@),
        vstd::utf8::valid_utf8(bytes@) ==> text@ == vstd::utf8::decode_utf8(bytes@),
{
    String::from_utf8_lossy(bytes).into_owned()
}

/// A line without the carriage returns at its end.
pub open spec fn without_returns(line: Seq<char>) -> Seq<char>
    decreases line.len(),
{
    if line.len() > 0 && line.last() == '\r' {
        without_returns(line.drop_last())
    } else {
        line
    }
}

/// The data of a line: what follows `data: ` at its start.
pub open spec fn data_of(line: Seq<char>) -> Option<Seq<char>> {
    if text::starts_with(line, "data: "@) {
        Some(line.skip(6))
    } else {
        None
    }
}

/// The data of the first data line in a text, and what follows that line. Lines that hold no data
/// are passed over; a line that is not complete stays.
pub open spec fn next_data(buffer: Seq<char>) -> (Option<Seq<char>>, Seq<char>)
    decreases buffer.len(),
{
    let end = text::first_at(buffer, '\n');
    if end >= buffer.len() {
        (None, buffer)
    } else {
        let rest = buffer.skip(end as int + 1);
        match data_of(without_returns(buffer.take(end as int))) {
            Some(data) => (Some(data), rest),
            None => next_data(rest),
        }
    }
}

/// Whether data marks the end of a stream.
pub open spec fn is_end_mark(data: Seq<char>) -> bool {
    text::trimmed(data) == "[DONE]"@
}

/// Whether data marks the end of a stream.
pub fn marks_end(data: &str) -> (end: bool)
    ensures
        end == is_end_mark(data@),
{
    reads(trim(data).as_str(), "[DONE]")
}

/// Text that has come in and has not been taken out.
pub struct SseBuffer {
    text: String,
}

impl View for SseBuffer {
    type V = Seq<char>;

    closed spec fn view(&self) -> Seq<char> {
        self.text@
    }
}

impl SseBuffer {
    /// Nothing.
    pub fn new() -> (buffer: Self)
        ensures
            buffer@ == Seq::<char>::empty(),
    {
        SseBuffer { text: String::new() }
    }

    /// Adds the text that some bytes stand for.
    pub fn push_bytes(&mut self, bytes: &[u8])
        ensures
            final(self)@ == old(self)@ + utf8_lossy(bytes@),
            vstd::utf8::valid_utf8(bytes@) ==> final(self)@ == old(self)@
                + vstd::utf8::decode_utf8(bytes@),
    {
        let text: String = lossy_text(bytes);
        self.push_text(text.as_str());
    }

    /// Adds text.
    pub fn push_text(&mut self, text: &str)
        ensures
            final(self)@ == old(self)@ + text@,
    {
        self.text.append(text);
    }

    /// Whether there is nothing.
    pub fn is_empty(&self) -> (empty: bool)
        ensures
            empty == (self@.len() == 0),
    {
        self.text.as_str().is_empty()
    }

    /// Takes out the data of the first data line, with everything before it.
    pub fn take_data(&mut self) -> (data: Option<String>)
        ensures
            final(self)@ == next_data(old(self)@).1,
            match data {
                Some(given) => next_data(old(self)@).0 == Some(given@),
                None => next_data(old(self)@).0 is None,
            },
    {
        let chars: Vec<char> = chars_of(self.text.as_str());
        let len: usize = chars.len();
        let ghost start = chars@;
        let mut from: usize = 0;
        proof {
            assert(start.skip(0) =~= start);
        }
        loop
            invariant
                from <= len,
                len == start.len(),
                start == chars@,
                self.text@ == start,
                old(self)@ == start,
                next_data(start) == next_data(start.skip(from as int)),
            decreases len - from,
        {
            let ghost rest = start.skip(from as int);
            let mut end: usize = from;
            while end < len && chars[end] != '\n'
                invariant
                    from <= end <= len,
                    len == chars@.len(),
                    forall|i: int| from <= i < end ==> chars@[i] != '\n',
                decreases len - end,
            {
                end = end + 1;
            }
            proof {
                text::lemma_first_at_unique(rest, '\n', (end - from) as nat);
            }
            if end == len {
                self.text = cut(self.text.as_str(), from, len);
                assert(self.text@ =~= rest);
                return None;
            }
            let mut to: usize = end;
            proof {
                assert(rest.take(end - from) =~= start.subrange(from as int, to as int));
                assert(rest.skip(end - from + 1) =~= start.skip(end + 1));
            }
            while to > from && chars[to - 1] == '\r'
                invariant
                    from <= to <= end,
                    end < len,
                    len == chars@.len(),
                    start == chars@,
                    without_returns(start.subrange(from as int, end as int)) == without_returns(
                        start.subrange(from as int, to as int),
                    ),
                decreases to,
            {
                proof {
                    let line = start.subrange(from as int, to as int);
                    assert(line.last() == start[to - 1]);
                    assert(line.drop_last() =~= start.subrange(from as int, to - 1));
                }
                to = to - 1;
            }
            let ghost line = start.subrange(from as int, to as int);
            proof {
                if to > from {
                    assert(line.last() == start[to - 1]);
                }
                assert(without_returns(rest.take(end - from)) == line);
            }
            proof {
                reveal_strlit("data: ");
            }
            if to - from >= 6 {
                let head: String = cut(self.text.as_str(), from, from + 6);
                proof {
                    assert(line.take(6) =~= start.subrange(from as int, from + 6));
                }
                if reads(head.as_str(), "data: ") {
                    let data: String = cut(self.text.as_str(), from + 6, to);
                    proof {
                        assert(line.skip(6) =~= start.subrange(from + 6, to as int));
                        assert(start.skip(end + 1) =~= start.subrange(end + 1, len as int));
                    }
                    self.text = cut(self.text.as_str(), end + 1, len);
                    return Some(data);
                }
            }
            from = end + 1;
        }
    }
}

/// A text in which every line is complete is used up when it holds no data.
pub proof fn complete_lines_are_used_up(buffer: Seq<char>)
    requires
        buffer.len() > 0 ==> buffer.last() == '\n',
        next_data(buffer).0 is None,
    ensures
        next_data(buffer).1.len() == 0,
    decreases buffer.len(),
{
    let end = text::first_at(buffer, '\n');
    text::lemma_first_at(buffer, '\n');
    if buffer.len() > 0 {
        if end >= buffer.len() {
            assert(buffer[buffer.len() - 1] != '\n');
        } else {
            let rest = buffer.skip(end as int + 1);
            if rest.len() > 0 {
                assert(rest.last() == buffer.last());
            }
            complete_lines_are_used_up(rest);
        }
    }
}

/// Where a text is broken into pieces makes no difference to the data lines that are found in it:
/// data that is found in the first piece is found in the whole, and if there is none, what is left
/// of the first piece reads on into the second.
pub proof fn pieces_read_as_a_whole(first: Seq<char>, second: Seq<char>)
    ensures
        match next_data(first).0 {
            Some(data) => next_data(first + second) == (Some(data), next_data(first).1 + second),
            None => next_data(first + second) == next_data(next_data(first).1 + second),
        },
    decreases first.len(),
{
    let end = text::first_at(first, '\n');
    text::lemma_first_at(first, '\n');
    if end < first.len() {
        let whole = first + second;
        assert forall|i: int| 0 <= i < end implies whole[i] != '\n' by {
            assert(whole[i] == first[i]);
        }
        text::lemma_first_at_unique(whole, '\n', end);
        let rest = first.skip(end as int + 1);
        assert(whole.take(end as int) =~= first.take(end as int));
        assert(whole.skip(end as int + 1) =~= rest + second);
        if data_of(without_returns(first.take(end as int))) is None {
            pieces_read_as_a_whole(rest, second);
        }
    }
}

proof fn lemma_without_returns(line: Seq<char>, crs: nat)
    requires
        line.len() == 0 || line.last() != '\r',
    ensures
        without_returns(line + Seq::new(crs, |i: int| '\r')) == line,
    decreases crs,
{
    let whole = line + Seq::new(crs, |i: int| '\r');
    if crs > 0 {
        lemma_without_returns(line, (crs - 1) as nat);
        assert(whole.last() == '\r');
        assert(whole.drop_last() =~= line + Seq::new((crs - 1) as nat, |i: int| '\r'));
    } else {
        assert(whole =~= line);
    }
}

/// A complete line that begins with the word for data hands its data out, whatever carriage returns
/// end the line, and what is behind the line is left.
pub proof fn a_line_of_data_is_handed_out(data: Seq<char>, crs: nat, rest: Seq<char>)
    requires
        !data.contains('\n'),
        data.len() == 0 || data.last() != '\r',
    ensures
        next_data(
            ("data: "@ + data + Seq::new(crs, |i: int| '\r')).push('\n') + rest,
        ) == (Some(data), rest),
{
    reveal_strlit("data: ");
    let ends = Seq::new(crs, |i: int| '\r');
    let head = "data: "@ + data;
    let line = head + ends;
    let buffer = line.push('\n') + rest;
    assert(head.last() != '\r') by {
        if data.len() > 0 {
            assert(head.last() == data.last());
        } else {
            assert(head.last() == "data: "@[5]);
        }
    }
    lemma_without_returns(head, crs);
    assert forall|i: int| 0 <= i < line.len() implies buffer[i] != '\n' by {
        assert(buffer[i] == line[i]);
        if i < 6 {
            assert(line[i] == "data: "@[i]);
        } else if i < head.len() {
            assert(line[i] == data[i - 6]);
        } else {
            assert(line[i] == ends[i - head.len()]);
        }
    }
    text::lemma_first_at_unique(buffer, '\n', line.len());
    assert(buffer.take(line.len() as int) =~= line);
    assert(buffer.skip(line.len() as int + 1) =~= rest);
    assert(head.take(6) =~= "data: "@);
    assert(head.skip(6) =~= data);
}

proof fn lemma_without_returns_is_prefix(line: Seq<char>)
    ensures
        without_returns(line).len() <= line.len(),
        without_returns(line) == line.take(without_returns(line).len() as int),
    decreases line.len(),
{
    if line.len() > 0 && line.last() == '\r' {
        lemma_without_returns_is_prefix(line.drop_last());
        let left = without_returns(line);
        assert(line.drop_last().take(left.len() as int) =~= line.take(left.len() as int));
    } else {
        assert(line.take(line.len() as int) =~= line);
    }
}

/// A complete line that does not begin with the word for data is passed over, and a line that is not
/// complete waits for its end.
pub proof fn other_lines_are_passed_over(line: Seq<char>, rest: Seq<char>)
    requires
        !line.contains('\n'),
    ensures
        line.len() < 6 || line.take(6) != "data: "@ ==> next_data(line.push('\n') + rest)
            == next_data(rest),
        next_data(line) == (None::<Seq<char>>, line),
{
    reveal_strlit("data: ");
    let buffer = line.push('\n') + rest;
    assert forall|i: int| 0 <= i < line.len() implies buffer[i] != '\n' by {
        assert(buffer[i] == line[i]);
    }
    text::lemma_first_at_unique(buffer, '\n', line.len());
    text::lemma_first_at_unique(line, '\n', line.len());
    assert(buffer.take(line.len() as int) =~= line);
    assert(buffer.skip(line.len() as int + 1) =~= rest);
    lemma_without_returns_is_prefix(line);
    let left = without_returns(line);
    if text::starts_with(left, "data: "@) {
        assert(left.take(6) =~= line.take(6));
    }
}

/// Data marks the end if and only if it is the word for the end, with white space around it or not.
pub proof fn the_end_may_be_padded(data: Seq<char>, from: int)
    ensures
        text::padded(data, "[DONE]"@, from) ==> is_end_mark(data),
        is_end_mark(data) ==> exists|i: int| #[trigger] text::padded(data, "[DONE]"@, i),
{
    reveal_strlit("[DONE]");
    if text::padded(data, "[DONE]"@, from) {
        text::added_space_is_trimmed(data, "[DONE]"@, from);
    }
    text::trimming_takes_outer_space_away(data);
}

} // verus!
