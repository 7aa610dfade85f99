//! Line framing of JSONL datasets: which lines hold a record, and their line numbers.

use vstd::prelude::*;

use crate::text::{char_slice, is_blank, push_char, push_str, str_is_blank};

verus! {

/// A finished line without the carriage return of a CRLF line ending.
pub open spec fn without_cr(line: Seq<char>) -> Seq<char> {
    if line.len() > 0 && line.last() == '\r' {
        line.drop_last()
    } else {
        line
    }
}

/// The lines of `text` ended by a line feed (without their line ending), together with
/// the unfinished last line.
pub open spec fn line_scan(text: Seq<char>) -> (Seq<char>, Seq<Seq<char>>)
    decreases text.len(),
{
    if text.len() == 0 {
        (Seq::empty(), Seq::empty())
    } else {
        let (current, done) = line_scan(text.drop_last());
        if text.last() == '\n' {
            (Seq::empty(), done.push(without_cr(current)))
        } else {
            (current.push(text.last()), done)
        }
    }
}

/// The lines of a text as a line reader yields them: every line ended by a line feed,
/// then the last line if it is not empty.
pub open spec fn text_lines(text: Seq<char>) -> Seq<Seq<char>> {
    let (current, done) = line_scan(text);
    if current.len() > 0 {
        done.push(current)
    } else {
        done
    }
}

/// The non-blank lines, each with its line number counted from one.
pub open spec fn numbered_entries(lines: Seq<Seq<char>>) -> Seq<(nat, Seq<char>)>
    decreases lines.len(),
{
    if lines.len() == 0 {
        Seq::empty()
    } else {
        let earlier = numbered_entries(lines.drop_last());
        if is_blank(lines.last()) {
            earlier
        } else {
            earlier.push((lines.len(), lines.last()))
        }
    }
}

/// The entries in executable form, viewed as line numbers and texts.
pub open spec fn entries_view(entries: Seq<(usize, String)>) -> Seq<(nat, Seq<char>)> {
    entries.map_values(|e: (usize, String)| (e.0 as nat, e.1@))
}

/// Adds line number `number` to `entries` unless the line is blank.
fn keep_line(entries: &mut Vec<(usize, String)>, number: usize, line: &str)
    ensures
        entries_view(final(entries)@) == if is_blank(line@) {
            entries_view(old(entries)@)
        } else {
            entries_view(old(entries)@).push((number as nat, line@))
        },
{
    if !str_is_blank(line) {
        let mut owned = String::new();
        push_str(&mut owned, line);
        let ghost before = entries@;
        entries.push((number, owned));
        assert(entries_view(entries@) =~= entries_view(before).push((number as nat, line@)));
    }
}

/// Splits a JSONL text into the lines that hold records: the non-blank lines, each with
/// its line number counted from one, line endings (LF or CRLF) removed.
pub fn jsonl_lines(text: &str) -> (entries: Vec<(usize, String)>)
    ensures
        entries_view(entries@) == numbered_entries(text_lines(text@)),
{
    let n = text.unicode_len();
    let mut entries: Vec<(usize, String)> = Vec::new();
    let mut current = String::new();
    let mut finished: usize = 0;
    let ghost mut done: Seq<Seq<char>> = Seq::empty();
    let mut i: usize = 0;
    while i < n
        invariant
            n == text@.len(),
            i <= n,
            finished + current@.len() <= i,
            line_scan(text@.subrange(0, i as int)) == (current@, done),
            done.len() == finished,
            entries_view(entries@) == numbered_entries(done),
        decreases n - i,
    {
        let c = text.get_char(i);
        assert(text@.subrange(0, i + 1).drop_last() =~= text@.subrange(0, i as int));
        if c == '\n' {
            let len = current.unicode_len();
            let whole = current.as_str();
            let line = if len > 0 && whole.get_char(len - 1) == '\r' {
                char_slice(whole, 0, len - 1)
            } else {
                char_slice(whole, 0, len)
            };
            assert(line@ == without_cr(current@)) by {
                if len > 0 && current@.last() == '\r' {
                    assert(current@.subrange(0, len - 1) =~= current@.drop_last());
                } else {
                    assert(current@.subrange(0, len as int) =~= current@);
                }
            }
            proof {
                let next = done.push(without_cr(current@));
                assert(next.drop_last() =~= done);
                done = next;
            }
            keep_line(&mut entries, finished + 1, line);
            finished = finished + 1;
            current = String::new();
        } else {
            push_char(&mut current, c);
        }
        i = i + 1;
    }
    assert(text@.subrange(0, n as int) =~= text@);
    if current.unicode_len() > 0 {
        proof {
            assert(done.push(current@).drop_last() =~= done);
        }
        keep_line(&mut entries, finished + 1, current.as_str());
    }
    entries
}

/// The text a JSONL writer produces: each line followed by a line feed.
pub open spec fn jsonl_text(lines: Seq<Seq<char>>) -> Seq<char>
    decreases lines.len(),
{
    if lines.len() == 0 {
        Seq::empty()
    } else {
        jsonl_text(lines.drop_last()) + lines.last().push('\n')
    }
}

/// A line as a record writer emits it: not blank, without a line feed, and not
/// ending in a carriage return.
pub open spec fn is_record_line(line: Seq<char>) -> bool {
    &&& !is_blank(line)
    &&& forall|i: int| 0 <= i < line.len() ==> #[trigger] line[i] != '\n'
    &&& !(line.len() > 0 && line.last() == '\r')
}

proof fn lemma_scan_through_line(text: Seq<char>, line: Seq<char>)
    requires
        line_scan(text).0.len() == 0,
        forall|i: int| 0 <= i < line.len() ==> #[trigger] line[i] != '\n',
    ensures
        line_scan(text + line) == (line, line_scan(text).1),
    decreases line.len(),
{
    if line.len() == 0 {
        assert(text + line =~= text);
        assert(line_scan(text).0 =~= line);
    } else {
        let shorter = line.drop_last();
        assert forall|i: int| 0 <= i < shorter.len() implies #[trigger] shorter[i] != '\n' by {
            assert(shorter[i] == line[i]);
        }
        lemma_scan_through_line(text, shorter);
        assert((text + line).drop_last() =~= text + shorter);
        assert((text + line).last() == line.last());
        assert(shorter.push(line.last()) =~= line);
    }
}

proof fn lemma_scan_written_lines(lines: Seq<Seq<char>>)
    requires
        forall|i: int| 0 <= i < lines.len() ==> is_record_line(#[trigger] lines[i]),
    ensures
        line_scan(jsonl_text(lines)) == (Seq::<char>::empty(), lines),
    decreases lines.len(),
{
    if lines.len() == 0 {
        assert(line_scan(jsonl_text(lines)).1 =~= lines);
    } else {
        let earlier = lines.drop_last();
        let last = lines.last();
        assert forall|i: int| 0 <= i < earlier.len() implies is_record_line(#[trigger] earlier[i]) by {
            assert(earlier[i] == lines[i]);
        }
        lemma_scan_written_lines(earlier);
        assert(is_record_line(lines[lines.len() - 1]));
        let before = jsonl_text(earlier);
        lemma_scan_through_line(before, last);
        let whole = jsonl_text(lines);
        assert(whole =~= (before + last).push('\n'));
        assert(whole.drop_last() =~= before + last);
        assert(without_cr(last) == last);
        assert(earlier.push(last) =~= lines);
    }
}

proof fn lemma_number_record_lines(lines: Seq<Seq<char>>)
    requires
        forall|i: int| 0 <= i < lines.len() ==> !is_blank(#[trigger] lines[i]),
    ensures
        numbered_entries(lines) == Seq::new(lines.len(), |i: int| ((i + 1) as nat, lines[i])),
    decreases lines.len(),
{
    if lines.len() > 0 {
        let earlier = lines.drop_last();
        assert forall|i: int| 0 <= i < earlier.len() implies !is_blank(#[trigger] earlier[i]) by {
            assert(earlier[i] == lines[i]);
        }
        lemma_number_record_lines(earlier);
        assert(!is_blank(lines[lines.len() - 1]));
        assert(Seq::new(earlier.len(), |i: int| ((i + 1) as nat, earlier[i])).push(
            (lines.len(), lines.last()),
        ) =~= Seq::new(lines.len(), |i: int| ((i + 1) as nat, lines[i])));
    } else {
        assert(numbered_entries(lines) =~= Seq::new(lines.len(), |i: int| ((i + 1) as nat, lines[i])));
    }
}

/// Reading back what a JSONL writer wrote gives every written line, in order, numbered
/// from one, provided each line is a record line (non-blank, one line).
pub proof fn lemma_jsonl_roundtrip(lines: Seq<Seq<char>>)
    requires
        forall|i: int| 0 <= i < lines.len() ==> is_record_line(#[trigger] lines[i]),
    ensures
        numbered_entries(text_lines(jsonl_text(lines))) == Seq::new(
            lines.len(),
            |i: int| ((i + 1) as nat, lines[i]),
        ),
{
    lemma_scan_written_lines(lines);
    assert forall|i: int| 0 <= i < lines.len() implies !is_blank(#[trigger] lines[i]) by {
        assert(is_record_line(lines[i]));
    }
    lemma_number_record_lines(lines);
}

} // verus!
