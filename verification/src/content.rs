//! Extraction of the markup that a flat entry stands for: the lines of its
//! range, joined by line feeds.

use crate::text::{first_position, lemma_first_position_unique, texts_model};
use vstd::prelude::*;
use vstd::string::StringExecFns;

verus! {

/// The lines of a file that the range `(start, end)` stands for: all of them
/// for `(0, 0)`, else those numbered `start` to `end`, both included, as far
/// as the file has them.
pub open spec fn selected_lines(lines: Seq<Seq<char>>, start: nat, end: nat) -> Seq<Seq<char>> {
    if start == 0 && end == 0 {
        lines
    } else if start > end || start >= lines.len() {
        Seq::empty()
    } else if end < lines.len() {
        lines.subrange(start as int, end as int + 1)
    } else {
        lines.subrange(start as int, lines.len() as int)
    }
}

/// `lines` with a line feed between each two neighbours.
pub open spec fn join_lines(lines: Seq<Seq<char>>) -> Seq<char>
    decreases lines.len(),
{
    if lines.len() == 0 {
        Seq::empty()
    } else if lines.len() == 1 {
        lines[0]
    } else {
        lines[0] + seq!['\n'] + join_lines(lines.skip(1))
    }
}

/// The pieces of `text` between its line feeds.
pub open spec fn break_lines(text: Seq<char>) -> Seq<Seq<char>>
    decreases text.len(),
{
    let at = first_position(text, '\n');
    if 0 <= at < text.len() {
        seq![text.take(at)] + break_lines(text.skip(at + 1))
    } else {
        seq![text]
    }
}

/// Joining one more line appends a line feed and that line.
pub proof fn lemma_join_push(lines: Seq<Seq<char>>, last: Seq<char>)
    requires
        lines.len() > 0,
    ensures
        join_lines(lines.push(last)) == join_lines(lines) + seq!['\n'] + last,
    decreases lines.len(),
{
    let all = lines.push(last);
    if lines.len() == 1 {
        assert(all.skip(1) =~= seq![last]);
        assert(join_lines(all.skip(1)) == last);
    } else {
        lemma_join_push(lines.skip(1), last);
        assert(all.skip(1) =~= lines.skip(1).push(last));
        assert(join_lines(all) =~= join_lines(lines) + seq!['\n'] + last);
    }
}

/// Joining lines that hold no line feed and breaking the result again gives
/// the lines back: as many, and the same.
pub proof fn lemma_join_round_trip(lines: Seq<Seq<char>>)
    requires
        lines.len() > 0,
        forall|i: int| 0 <= i < lines.len() ==> !lines[i].contains('\n'),
    ensures
        break_lines(join_lines(lines)) == lines,
        break_lines(join_lines(lines)).len() == lines.len(),
    decreases lines.len(),
{
    let text = join_lines(lines);
    let head = lines[0];
    if lines.len() == 1 {
        assert forall|i: int| 0 <= i < head.len() implies head[i] != '\n' by {
            if head[i] == '\n' {
                assert(head.contains('\n'));
            }
        }
        lemma_first_position_unique(head, '\n', head.len() as int);
        assert(seq![text] =~= lines);
    } else {
        let rest = lines.skip(1);
        assert forall|i: int| 0 <= i < rest.len() implies !rest[i].contains('\n') by {
            assert(rest[i] == lines[i + 1]);
        }
        lemma_join_round_trip(rest);
        assert forall|i: int| 0 <= i < head.len() implies text[i] != '\n' by {
            if head[i] == '\n' {
                assert(head.contains('\n'));
            }
        }
        lemma_first_position_unique(text, '\n', head.len() as int);
        assert(text.take(head.len() as int) =~= head);
        assert(text.skip(head.len() as int + 1) =~= join_lines(rest));
        assert(seq![head] + rest =~= lines);
    }
}

/// The range `(0, 0)` selects every line of the file, so what is extracted
/// has as many lines as the file.
pub proof fn lemma_whole_file_range_selects_every_line(lines: Seq<Seq<char>>)
    ensures
        selected_lines(lines, 0, 0) == lines,
        selected_lines(lines, 0, 0).len() == lines.len(),
{
}

/// The text of the lines that `(start, end)` stands for, joined by line
/// feeds.
pub fn extract_content(lines: &Vec<String>, start: usize, end: usize) -> (content: String)
    ensures
        content@ == join_lines(selected_lines(texts_model(lines@), start as nat, end as nat)),
{
    let ghost all = texts_model(lines@);
    let n = lines.len();
    let from: usize = if start == 0 && end == 0 {
        0
    } else if start > end || start >= n {
        n
    } else {
        start
    };
    let to: usize = if start == 0 && end == 0 {
        n
    } else if start > end || start >= n {
        n
    } else if end < n {
        end + 1
    } else {
        n
    };
    let ghost chosen = all.subrange(from as int, to as int);
    assert(chosen =~= selected_lines(all, start as nat, end as nat));
    let mut content = String::new();
    let mut i: usize = from;
    while i < to
        invariant
            from <= i <= to <= n,
            n == lines.len(),
            all == texts_model(lines@),
            chosen == all.subrange(from as int, to as int),
            content@ == join_lines(chosen.take(i - from)),
        decreases to - i,
    {
        let ghost done = chosen.take(i - from);
        if i > from {
            content.push('\n');
        }
        content.append(lines[i].as_str());
        proof {
            assert(chosen.take(i + 1 - from) =~= done.push(all[i as int]));
            if i > from {
                lemma_join_push(done, all[i as int]);
            } else {
                assert(done.push(all[i as int])[0] == all[i as int]);
            }
        }
        i += 1;
    }
    assert(chosen.take(to - from) =~= chosen);
    content
}

} // verus!
