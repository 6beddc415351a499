//! The text form of a set file read back: lines, their indentation, and the
//! entries that they stand for.
use crate::document::{Document, Entry};
use crate::encoding::{
    encoding, entries_lines, entry_lines, indented, lemma_lines_of_nonempty, lines_of, rendered,
    tabs,
};
use crate::text::joined;
use vstd::prelude::*;

verus! {

/// The lines of a text in which each line ends with a carriage return and a
/// line feed; `None` for any other text.
pub open spec fn unrendered(text: Seq<char>) -> Option<Seq<Seq<char>>> {
    let pieces = lines_of(text);
    if pieces.last().len() == 0 && forall|i: int|
        0 <= i < pieces.len() - 1 ==> (#[trigger] pieces[i]).len() > 0 && pieces[i].last() == '\r' {
        Some(Seq::new((pieces.len() - 1) as nat, |i: int| pieces[i].drop_last()))
    } else {
        None
    }
}

/// The number of tabs that a line begins with.
pub open spec fn indent_of(line: Seq<char>) -> nat
    decreases line.len(),
{
    if line.len() > 0 && line[0] == '\t' {
        1 + indent_of(line.skip(1))
    } else {
        0
    }
}

/// The place of the first colon of a line; its length where it has none.
pub open spec fn colon_at(line: Seq<char>) -> int
    decreases line.len(),
{
    if line.len() == 0 || line[0] == ':' {
        0
    } else {
        1 + colon_at(line.skip(1))
    }
}

/// How many lines at the front are indented deeper than `depth`.
pub open spec fn block_len(lines: Seq<Seq<char>>, depth: nat) -> nat
    decreases lines.len(),
{
    if lines.len() > 0 && indent_of(lines[0]) > depth {
        1 + block_len(lines.skip(1), depth)
    } else {
        0
    }
}

/// Each of the lines without its first `depth` characters.
pub open spec fn outdented(lines: Seq<Seq<char>>, depth: nat) -> Seq<Seq<char>> {
    Seq::new(lines.len(), |i: int| lines[i].skip(depth as int))
}

/// The entry of a line and the block of deeper lines below it. `head` is the
/// line without its indentation, `children` the entries read from the block.
/// A line without a colon is the key of a tree; a line that ends with its
/// first colon is the key of a text whose lines are the block; any other line
/// is a key, a colon, a space and a text.
pub open spec fn entry_read(
    head: Seq<char>,
    block: Seq<Seq<char>>,
    depth: nat,
    children: Seq<(Seq<char>, Entry)>,
) -> (Seq<char>, Entry) {
    let colon = colon_at(head);
    if colon == head.len() {
        (head, Entry::Tree(Document { entries: children, images: Seq::empty() }))
    } else if colon == head.len() - 1 {
        (head.take(colon), Entry::Text(joined(outdented(block, depth + 1), seq!['\n'])))
    } else {
        (head.take(colon), Entry::Text(head.skip(colon + 2)))
    }
}

/// The entries that the lines stand for at the given depth: each entry is a
/// line and the block of deeper lines that follows it.
pub open spec fn entries_read(lines: Seq<Seq<char>>, depth: nat) -> Seq<(Seq<char>, Entry)>
    decreases lines.len(),
    via entries_read_decreases
{
    if lines.len() == 0 {
        Seq::empty()
    } else {
        let size = block_len(lines.skip(1), depth) as int;
        let block = lines.subrange(1, 1 + size);
        let rest = lines.skip(1 + size);
        seq![
            entry_read(lines[0].skip(depth as int), block, depth, entries_read(block, depth + 1)),
        ] + entries_read(rest, depth)
    }
}

#[via_fn]
proof fn entries_read_decreases(lines: Seq<Seq<char>>, depth: nat) {
    if lines.len() > 0 {
        lemma_block_len_bound(lines.skip(1), depth);
    }
}

/// A block is no longer than the lines that it is taken from.
pub proof fn lemma_block_len_bound(lines: Seq<Seq<char>>, depth: nat)
    ensures
        block_len(lines, depth) <= lines.len(),
    decreases lines.len(),
{
    if lines.len() > 0 && indent_of(lines[0]) > depth {
        lemma_block_len_bound(lines.skip(1), depth);
    }
}

/// The entries that a text form stands for; `None` where a line does not end
/// as the lines of a set file do.
pub open spec fn parsed(text: Seq<char>) -> Option<Seq<(Seq<char>, Entry)>> {
    match unrendered(text) {
        Some(lines) => Some(entries_read(lines, 0)),
        None => None,
    }
}

/// Whether a key can be read back: it holds neither a line feed nor a colon
/// and does not begin with a tab.
pub open spec fn readable_key(key: Seq<char>) -> bool {
    &&& !key.contains('\n')
    &&& !key.contains(':')
    &&& (key.len() > 0 ==> key[0] != '\t')
}

/// Whether the entry can be read back from its text form: its key can, and
/// so can the entries of a nested document, which holds no images.
pub open spec fn readable_entry(key: Seq<char>, value: Entry) -> bool
    decreases value,
{
    &&& readable_key(key)
    &&& match value {
        Entry::Text(_) => true,
        Entry::Tree(doc) => doc.images.len() == 0 && readable(doc.entries),
    }
}

/// Whether all the entries can be read back from their text form.
pub open spec fn readable(entries: Seq<(Seq<char>, Entry)>) -> bool
    decreases entries,
{
    forall|i: int|
        0 <= i < entries.len() ==> readable_entry((#[trigger] entries[i]).0, entries[i].1)
}

/// A text without a line feed, added to a text, lengthens its last line.
pub proof fn lemma_lines_of_extended(text: Seq<char>, more: Seq<char>)
    requires
        !more.contains('\n'),
    ensures
        lines_of(text).len() >= 1,
        lines_of(text + more) == lines_of(text).drop_last().push(lines_of(text).last() + more),
    decreases more.len(),
{
    lemma_lines_of_nonempty(text);
    let ls = lines_of(text);
    if more.len() == 0 {
        assert(text + more =~= text);
        assert(ls.last() + more =~= ls.last());
        assert(ls.drop_last().push(ls.last()) =~= ls);
    } else {
        let shorter = more.drop_last();
        assert(!shorter.contains('\n')) by {
            if shorter.contains('\n') {
                let k = choose|k: int| 0 <= k < shorter.len() && shorter[k] == '\n';
                assert(more[k] == '\n');
            }
        }
        lemma_lines_of_extended(text, shorter);
        assert((text + more).drop_last() =~= text + shorter);
        assert((text + more).last() == more.last());
        assert(more.last() != '\n') by {
            assert(more[more.len() - 1] == more.last());
        }
        let mid = lines_of(text + shorter);
        assert(mid.drop_last() =~= ls.drop_last());
        assert(mid.last().push(more.last()) =~= ls.last() + more);
    }
}

/// The lines of a text, with a line feed between each two, are the text.
pub proof fn lemma_lines_of_joined(text: Seq<char>)
    ensures
        joined(lines_of(text), seq!['\n']) == text,
        forall|i: int| 0 <= i < lines_of(text).len() ==> !(#[trigger] lines_of(text)[i]).contains('\n'),
    decreases text.len(),
{
    let sep = seq!['\n'];
    if text.len() == 0 {
        assert(joined(lines_of(text), sep) =~= text);
    } else {
        let shorter = text.drop_last();
        lemma_lines_of_joined(shorter);
        lemma_lines_of_nonempty(shorter);
        let ls = lines_of(shorter);
        let now = lines_of(text);
        assert(text =~= shorter.push(text.last()));
        if text.last() == '\n' {
            assert(now.drop_last() =~= ls);
            assert(joined(now, sep) =~= text);
        } else {
            let c = text.last();
            assert(now.drop_last() =~= ls.drop_last());
            assert(now.last() == ls.last().push(c));
            if ls.len() == 1 {
                assert(joined(now, sep) =~= text);
            } else {
                assert(joined(now, sep) =~= joined(ls.drop_last(), sep) + sep + ls.last().push(c));
                assert(joined(now, sep) =~= text);
            }
            assert forall|i: int| 0 <= i < now.len() implies !(#[trigger] now[i]).contains(
                '\n',
            ) by {
                if i < now.len() - 1 {
                    assert(now[i] == ls[i]);
                } else {
                    let last = ls.last();
                    assert(!last.contains('\n'));
                    if last.push(c).contains('\n') {
                        let k = choose|k: int|
                            0 <= k < last.push(c).len() && last.push(c)[k] == '\n';
                        if k < last.len() {
                            assert(last[k] == '\n');
                        }
                    }
                }
            }
        }
    }
}

/// The pieces of rendered lines: each line with a carriage return at its
/// end, and an empty piece behind the last line feed.
pub open spec fn pieces_of(lines: Seq<Seq<char>>) -> Seq<Seq<char>> {
    Seq::new(
        lines.len() + 1,
        |i: int|
            if i < lines.len() {
                lines[i].push('\r')
            } else {
                Seq::empty()
            },
    )
}

/// Rendered lines fall apart at their line feeds into the lines themselves.
pub proof fn lemma_lines_of_rendered(lines: Seq<Seq<char>>)
    requires
        forall|i: int| 0 <= i < lines.len() ==> !(#[trigger] lines[i]).contains('\n'),
    ensures
        lines_of(rendered(lines)) == pieces_of(lines),
        unrendered(rendered(lines)) == Some(lines),
    decreases lines.len(),
{
    if lines.len() == 0 {
        assert(lines_of(rendered(lines)) =~= pieces_of(lines));
    } else {
        let shorter = lines.drop_last();
        let line = lines.last();
        lemma_lines_of_rendered(shorter);
        let body = line.push('\r');
        assert(!body.contains('\n')) by {
            if body.contains('\n') {
                let k = choose|k: int| 0 <= k < body.len() && body[k] == '\n';
                if k < line.len() {
                    assert(line[k] == '\n');
                }
            }
        }
        lemma_lines_of_extended(rendered(shorter), body);
        let text = rendered(lines);
        assert(text =~= (rendered(shorter) + body).push('\n'));
        assert(text.drop_last() =~= rendered(shorter) + body);
        assert(lines_of(text) == lines_of(rendered(shorter) + body).push(Seq::empty()));
        assert(pieces_of(shorter).last() + body =~= body);
        assert(lines_of(text) =~= pieces_of(lines));
    }
    let pieces = pieces_of(lines);
    assert(pieces.last().len() == 0);
    assert forall|i: int| 0 <= i < pieces.len() - 1 implies (#[trigger] pieces[i]).len() > 0
        && pieces[i].last() == '\r' by {}
    assert(Seq::new((pieces.len() - 1) as nat, |i: int| pieces[i].drop_last()) =~= lines) by {
        assert forall|i: int| 0 <= i < lines.len() implies pieces[i].drop_last() == lines[i] by {
            assert(lines[i].push('\r').drop_last() =~= lines[i]);
        }
    }
}

/// A line behind tabs is indented by that many tabs more.
pub proof fn lemma_indent_of_tabs(depth: nat, line: Seq<char>)
    ensures
        indent_of(tabs(depth) + line) == depth + indent_of(line),
        (tabs(depth) + line).skip(depth as int) == line,
    decreases depth,
{
    assert((tabs(depth) + line).skip(depth as int) =~= line);
    if depth == 0 {
        assert(tabs(depth) + line =~= line);
    } else {
        let whole = tabs(depth) + line;
        assert(whole[0] == '\t');
        assert(whole.skip(1) =~= tabs((depth - 1) as nat) + line);
        lemma_indent_of_tabs((depth - 1) as nat, line);
    }
}

/// The first colon behind a key without colons stands where the rest puts it.
pub proof fn lemma_colon_at_key(key: Seq<char>, rest: Seq<char>)
    requires
        !key.contains(':'),
    ensures
        colon_at(key + rest) == key.len() + colon_at(rest),
    decreases key.len(),
{
    if key.len() == 0 {
        assert(key + rest =~= rest);
    } else {
        let whole = key + rest;
        assert(whole[0] == key[0]);
        assert(key[0] != ':');
        assert(whole.skip(1) =~= key.skip(1) + rest);
        assert(!key.skip(1).contains(':')) by {
            if key.skip(1).contains(':') {
                let k = choose|k: int| 0 <= k < key.skip(1).len() && key.skip(1)[k] == ':';
                assert(key[k + 1] == ':');
            }
        }
        lemma_colon_at_key(key.skip(1), rest);
    }
}

/// Lines that were indented and then outdented are as before.
pub proof fn lemma_outdented_indented(lines: Seq<Seq<char>>, depth: nat)
    ensures
        outdented(indented(lines, depth), depth) == lines,
{
    assert forall|i: int| 0 <= i < lines.len() implies (tabs(depth) + lines[i]).skip(
        depth as int,
    ) == lines[i] by {
        lemma_indent_of_tabs(depth, lines[i]);
    }
    assert(outdented(indented(lines, depth), depth) =~= lines);
}

/// A block of deeper lines ends where the lines are no deeper.
pub proof fn lemma_block_len_exact(block: Seq<Seq<char>>, rest: Seq<Seq<char>>, depth: nat)
    requires
        forall|i: int| 0 <= i < block.len() ==> indent_of(#[trigger] block[i]) > depth,
        rest.len() > 0 ==> indent_of(rest[0]) <= depth,
    ensures
        block_len(block + rest, depth) == block.len(),
    decreases block.len(),
{
    if block.len() == 0 {
        assert(block + rest =~= rest);
    } else {
        let whole = block + rest;
        assert(whole[0] == block[0]);
        assert(whole.skip(1) =~= block.skip(1) + rest);
        assert forall|i: int| 0 <= i < block.skip(1).len() implies indent_of(
            #[trigger] block.skip(1)[i],
        ) > depth by {
            assert(block.skip(1)[i] == block[i + 1]);
        }
        lemma_block_len_exact(block.skip(1), rest, depth);
    }
}

/// The lines of entries are the lines of the first entry and then the lines
/// of the others.
pub proof fn lemma_entries_lines_front(entries: Seq<(Seq<char>, Entry)>, depth: nat)
    requires
        entries.len() > 0,
    ensures
        entries_lines(entries, depth) == entry_lines(entries[0].0, entries[0].1, depth)
            + entries_lines(entries.skip(1), depth),
    decreases entries.len(),
{
    let first = entry_lines(entries[0].0, entries[0].1, depth);
    if entries.len() == 1 {
        assert(entries.drop_last() =~= Seq::empty());
        assert(entries.skip(1) =~= Seq::empty());
        assert(entries_lines(entries, depth) =~= first + entries_lines(entries.skip(1), depth));
    } else {
        lemma_entries_lines_front(entries.drop_last(), depth);
        assert(entries.drop_last().skip(1) =~= entries.skip(1).drop_last());
        assert(entries.skip(1).last() == entries.last());
        assert(entries.drop_last()[0] == entries[0]);
        assert(entries_lines(entries, depth) =~= first + entries_lines(entries.skip(1), depth));
    }
}

/// A character is in two texts in a row where it is in one of them.
pub proof fn lemma_contains_concat(a: Seq<char>, b: Seq<char>, c: char)
    ensures
        (a + b).contains(c) <==> a.contains(c) || b.contains(c),
{
    if (a + b).contains(c) {
        let k = choose|k: int| 0 <= k < (a + b).len() && (a + b)[k] == c;
        if k < a.len() {
            assert(a[k] == c);
        } else {
            assert(b[k - a.len()] == c);
        }
    }
    if a.contains(c) {
        let k = choose|k: int| 0 <= k < a.len() && a[k] == c;
        assert((a + b)[k] == c);
    }
    if b.contains(c) {
        let k = choose|k: int| 0 <= k < b.len() && b[k] == c;
        assert((a + b)[a.len() + k] == c);
    }
}

/// What the lines of a set file are like at a depth: the first stands at
/// that depth, the others deeper, and none holds a line feed.
pub open spec fn block_at(lines: Seq<Seq<char>>, depth: nat) -> bool {
    &&& lines.len() >= 1
    &&& indent_of(lines[0]) == depth
    &&& forall|j: int| 1 <= j < lines.len() ==> indent_of(#[trigger] lines[j]) > depth
    &&& forall|j: int| 0 <= j < lines.len() ==> !(#[trigger] lines[j]).contains('\n')
}

/// The lines of an entry that can be read back begin at its depth and go on
/// deeper.
pub proof fn lemma_entry_lines_shape(key: Seq<char>, value: Entry, depth: nat)
    requires
        readable_entry(key, value),
    ensures
        block_at(entry_lines(key, value, depth), depth),
    decreases value, 0nat,
{
    let ls = entry_lines(key, value, depth);
    let t = tabs(depth);
    assert(!t.contains('\n'));
    match value {
        Entry::Text(text) => {
            if text.contains('\n') {
                let head = key + seq![':'];
                assert(ls[0] == t + key + seq![':']);
                assert(t + key + seq![':'] =~= t + head);
                lemma_indent_of_tabs(depth, head);
                assert(indent_of(head) == 0) by {
                    if key.len() > 0 {
                        assert(head[0] == key[0]);
                    }
                }
                lemma_contains_concat(key, seq![':'], '\n');
                lemma_contains_concat(t, head, '\n');
                let inner = tabs(depth + 1);
                lemma_lines_of_joined(text);
                assert forall|j: int| 1 <= j < ls.len() implies indent_of(#[trigger] ls[j])
                    > depth && !ls[j].contains('\n') by {
                    let line = lines_of(text)[j - 1];
                    assert(ls[j] == inner + line);
                    lemma_indent_of_tabs(depth + 1, line);
                    assert(!inner.contains('\n'));
                    lemma_contains_concat(inner, line, '\n');
                }
            } else {
                let head = key + seq![':', ' '] + text;
                assert(ls[0] == t + key + seq![':', ' '] + text);
                assert(t + key + seq![':', ' '] + text =~= t + head);
                lemma_indent_of_tabs(depth, head);
                assert(indent_of(head) == 0) by {
                    if key.len() > 0 {
                        assert(head[0] == key[0]);
                    } else {
                        assert(head[0] == ':');
                    }
                }
                lemma_contains_concat(key, seq![':', ' '], '\n');
                lemma_contains_concat(key + seq![':', ' '], text, '\n');
                lemma_contains_concat(t, head, '\n');
            }
        },
        Entry::Tree(doc) => {
            assert(ls[0] == t + key);
            lemma_indent_of_tabs(depth, key);
            lemma_contains_concat(t, key, '\n');
            lemma_entries_lines_shape(doc.entries, depth + 1);
            let below = entries_lines(doc.entries, depth + 1);
            assert forall|j: int| 1 <= j < ls.len() implies indent_of(#[trigger] ls[j]) > depth
                && !ls[j].contains('\n') by {
                assert(ls[j] == below[j - 1]);
            }
        },
    }
}

/// The lines of entries that can be read back stand at their depth or
/// deeper, the first of them at the depth itself.
pub proof fn lemma_entries_lines_shape(entries: Seq<(Seq<char>, Entry)>, depth: nat)
    requires
        readable(entries),
    ensures
        entries.len() > 0 ==> entries_lines(entries, depth).len() > 0 && indent_of(
            entries_lines(entries, depth)[0],
        ) == depth,
        forall|j: int|
            0 <= j < entries_lines(entries, depth).len() ==> indent_of(
                #[trigger] entries_lines(entries, depth)[j],
            ) >= depth && !entries_lines(entries, depth)[j].contains('\n'),
    decreases entries, 1nat,
{
    if entries.len() > 0 {
        let first = entry_lines(entries[0].0, entries[0].1, depth);
        let others = entries_lines(entries.skip(1), depth);
        lemma_entries_lines_front(entries, depth);
        lemma_entry_lines_shape(entries[0].0, entries[0].1, depth);
        assert forall|i: int| 0 <= i < entries.skip(1).len() implies readable_entry(
            (#[trigger] entries.skip(1)[i]).0,
            entries.skip(1)[i].1,
        ) by {
            assert(entries.skip(1)[i] == entries[i + 1]);
        }
        lemma_entries_lines_shape(entries.skip(1), depth);
        let all = entries_lines(entries, depth);
        assert forall|j: int| 0 <= j < all.len() implies indent_of(#[trigger] all[j]) >= depth
            && !all[j].contains('\n') by {
            if j < first.len() {
                assert(all[j] == first[j]);
            } else {
                assert(all[j] == others[j - first.len()]);
            }
        }
    }
}

/// Reading the lines of entries gives the entries back, where they can be
/// read back at all.
pub proof fn lemma_entries_read_back(entries: Seq<(Seq<char>, Entry)>, depth: nat)
    requires
        readable(entries),
    ensures
        entries_read(entries_lines(entries, depth), depth) == entries,
    decreases entries,
{
    if entries.len() == 0 {
    } else {
        let key = entries[0].0;
        let value = entries[0].1;
        let first = entry_lines(key, value, depth);
        let others = entries_lines(entries.skip(1), depth);
        let lines = entries_lines(entries, depth);
        lemma_entries_lines_front(entries, depth);
        assert(readable_entry(key, value));
        lemma_entry_lines_shape(key, value, depth);
        assert forall|i: int| 0 <= i < entries.skip(1).len() implies readable_entry(
            (#[trigger] entries.skip(1)[i]).0,
            entries.skip(1)[i].1,
        ) by {
            assert(entries.skip(1)[i] == entries[i + 1]);
        }
        lemma_entries_lines_shape(entries.skip(1), depth);
        assert(lines.skip(1) =~= first.skip(1) + others);
        assert forall|i: int| 0 <= i < first.skip(1).len() implies indent_of(
            #[trigger] first.skip(1)[i],
        ) > depth by {
            assert(first.skip(1)[i] == first[i + 1]);
        }
        lemma_block_len_exact(first.skip(1), others, depth);
        let size = block_len(lines.skip(1), depth) as int;
        assert(size == first.len() - 1);
        let block = lines.subrange(1, 1 + size);
        assert(block =~= first.skip(1));
        assert(lines.skip(1 + size) =~= others);
        let head = lines[0].skip(depth as int);
        let children = entries_read(block, depth + 1);
        let t = tabs(depth);
        match value {
            Entry::Text(text) => {
                if text.contains('\n') {
                    assert(lines[0] =~= t + (key + seq![':']));
                    lemma_indent_of_tabs(depth, key + seq![':']);
                    assert(head == key + seq![':']);
                    lemma_colon_at_key(key, seq![':']);
                    assert(colon_at(seq![':']) == 0);
                    assert(head.take(key.len() as int) =~= key);
                    assert(block =~= indented(lines_of(text), depth + 1));
                    lemma_outdented_indented(lines_of(text), depth + 1);
                    lemma_lines_of_joined(text);
                } else {
                    let tail = seq![':', ' '] + text;
                    assert(lines[0] =~= t + (key + tail));
                    lemma_indent_of_tabs(depth, key + tail);
                    assert(head == key + tail);
                    lemma_colon_at_key(key, tail);
                    assert(colon_at(tail) == 0);
                    assert(head.take(key.len() as int) =~= key);
                    assert(head.skip(key.len() as int + 2) =~= text);
                }
            },
            Entry::Tree(doc) => {
                assert(lines[0] =~= t + key);
                lemma_indent_of_tabs(depth, key);
                assert(head == key);
                lemma_colon_at_key(key, Seq::empty());
                assert(key + Seq::<char>::empty() =~= key);
                assert(colon_at(Seq::<char>::empty()) == 0);
                assert(block =~= entries_lines(doc.entries, depth + 1));
                lemma_entries_read_back(doc.entries, depth + 1);
                assert(doc.images =~= Seq::empty());
            },
        }
        assert(entry_read(head, block, depth, children) == entries[0]);
        lemma_entries_read_back(entries.skip(1), depth);
        assert(seq![entries[0]] + entries.skip(1) =~= entries);
    }
}

/// Reading the text form of a document gives its entries back, keys, values
/// and nesting, where each key and each nested document can be read back.
pub proof fn lemma_round_trip(doc: Document)
    requires
        readable(doc.entries),
    ensures
        parsed(encoding(doc, 0)) == Some(doc.entries),
{
    lemma_entries_lines_shape(doc.entries, 0);
    lemma_lines_of_rendered(entries_lines(doc.entries, 0));
    lemma_entries_read_back(doc.entries, 0);
}

} // verus!
