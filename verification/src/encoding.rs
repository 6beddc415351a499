//! The text form of a set file: one line per entry, indented by tabs, each
//! line ended by a carriage return and a line feed.
use crate::document::{Data, DataFile, Document, Entry, entries_of, entry_of, lemma_entries_of_push};
use vstd::prelude::*;
use vstd::string::StringExecFns;

verus! {

/// `n` tab characters.
pub open spec fn tabs(n: nat) -> Seq<char> {
    Seq::new(n, |i: int| '\t')
}

/// The pieces of `text` between its line feeds, in order. A text without a
/// line feed is its own single piece.
pub open spec fn lines_of(text: Seq<char>) -> Seq<Seq<char>>
    decreases text.len(),
{
    if text.len() == 0 {
        seq![Seq::empty()]
    } else {
        let before = lines_of(text.drop_last());
        if text.last() == '\n' {
            before.push(Seq::empty())
        } else {
            before.drop_last().push(before.last().push(text.last()))
        }
    }
}

/// Each of the lines behind `depth` tabs.
pub open spec fn indented(lines: Seq<Seq<char>>, depth: nat) -> Seq<Seq<char>> {
    Seq::new(lines.len(), |i: int| tabs(depth) + lines[i])
}

/// The lines of one entry at the given depth: `key: text` for a text of one
/// line; `key:` and the lines of the text one level deeper for a text of
/// several lines; `key` and the lines of the nested document one level deeper
/// for a tree.
pub open spec fn entry_lines(key: Seq<char>, value: Entry, depth: nat) -> Seq<Seq<char>>
    decreases value,
{
    match value {
        Entry::Text(text) => if text.contains('\n') {
            seq![tabs(depth) + key + seq![':']] + indented(lines_of(text), depth + 1)
        } else {
            seq![tabs(depth) + key + seq![':', ' '] + text]
        },
        Entry::Tree(doc) => seq![tabs(depth) + key] + entries_lines(doc.entries, depth + 1),
    }
}

/// The lines of the entries at the given depth, entry after entry.
pub open spec fn entries_lines(entries: Seq<(Seq<char>, Entry)>, depth: nat) -> Seq<Seq<char>>
    decreases entries,
{
    if entries.len() == 0 {
        Seq::empty()
    } else {
        entries_lines(entries.drop_last(), depth) + entry_lines(
            entries.last().0,
            entries.last().1,
            depth,
        )
    }
}

/// The lines one after the other, each ended by a carriage return and a line feed.
pub open spec fn rendered(lines: Seq<Seq<char>>) -> Seq<char>
    decreases lines.len(),
{
    if lines.len() == 0 {
        Seq::empty()
    } else {
        rendered(lines.drop_last()) + lines.last() + seq!['\r', '\n']
    }
}

/// The text form of a document whose entries stand at the given depth.
pub open spec fn encoding(doc: Document, depth: nat) -> Seq<char> {
    rendered(entries_lines(doc.entries, depth))
}

/// Rendering goes line by line.
pub proof fn lemma_rendered_concat(a: Seq<Seq<char>>, b: Seq<Seq<char>>)
    ensures
        rendered(a + b) == rendered(a) + rendered(b),
    decreases b.len(),
{
    if b.len() == 0 {
        assert(a + b =~= a);
        assert(rendered(a) + rendered(b) =~= rendered(a));
    } else {
        lemma_rendered_concat(a, b.drop_last());
        assert((a + b).drop_last() =~= a + b.drop_last());
        assert(rendered(a + b) =~= rendered(a) + rendered(b));
    }
}

/// One line is rendered as itself and its ending.
pub proof fn lemma_rendered_one(line: Seq<char>)
    ensures
        rendered(seq![line]) == line + seq!['\r', '\n'],
{
    reveal_with_fuel(rendered, 2);
    assert(seq![line].drop_last() =~= Seq::<Seq<char>>::empty());
    assert(rendered(seq![line]) =~= line + seq!['\r', '\n']);
}

/// Whether the string holds a line feed.
fn has_line_feed(text: &str) -> (res: bool)
    ensures
        res == text@.contains('\n'),
{
    let mut found = false;
    for c in it: text.chars()
        invariant
            it.seq() == text@,
            found == it.seq().take(it.index() as int).contains('\n'),
    {
        proof {
            let seen = it.seq().take(it.index() as int);
            let next = it.seq().take(it.index() + 1);
            assert(next =~= seen.push(c));
            if seen.contains('\n') {
                let k = choose|k: int| 0 <= k < seen.len() && seen[k] == '\n';
                assert(next[k] == '\n');
            }
            if c == '\n' {
                assert(next[it.index() as int] == '\n');
            }
        }
        if c == '\n' {
            found = true;
        }
    }
    assert(text@.take(text@.len() as int) =~= text@);
    found
}

/// A text has at least one line.
pub proof fn lemma_lines_of_nonempty(text: Seq<char>)
    ensures
        lines_of(text).len() >= 1,
    decreases text.len(),
{
    if text.len() > 0 {
        lemma_lines_of_nonempty(text.drop_last());
    }
}

/// A string of `n` tabs.
fn tab_string(n: usize) -> (res: String)
    ensures
        res@ == tabs(n as nat),
{
    let mut out = String::new();
    let mut i: usize = 0;
    proof {
        reveal_strlit("\t");
    }
    while i < n
        invariant
            i <= n,
            out@ == tabs(i as nat),
            "\t"@ == seq!['\t'],
        decreases n - i,
    {
        out.append("\t");
        i += 1;
        assert(out@ =~= tabs(i as nat));
    }
    out
}

/// Appends the lines of `text`, each behind `prefix` and ended by a carriage
/// return and a line feed.
fn write_text_lines(text: &str, buf: &mut String, prefix: &str, Ghost(depth): Ghost<nat>)
    requires
        prefix@ == tabs(depth),
    ensures
        final(buf)@ == old(buf)@ + rendered(indented(lines_of(text@), depth)),
{
    let ghost base = buf@;
    proof {
        reveal_strlit("\r\n");
        assert(indented(lines_of(Seq::<char>::empty()), depth).drop_last() =~= Seq::<
            Seq<char>,
        >::empty());
        assert(text@.take(0) =~= Seq::<char>::empty());
    }
    buf.append(prefix);
    assert(buf@ =~= base + rendered(indented(lines_of(text@.take(0)).drop_last(), depth)) + tabs(
        depth,
    ) + lines_of(text@.take(0)).last());
    for c in it: text.chars()
        invariant
            it.seq() == text@,
            prefix@ == tabs(depth),
            "\r\n"@ == seq!['\r', '\n'],
            buf@ == base + rendered(
                indented(lines_of(text@.take(it.index() as int)).drop_last(), depth),
            ) + tabs(depth) + lines_of(text@.take(it.index() as int)).last(),
    {
        let ghost seen = text@.take(it.index() as int);
        let ghost next = text@.take(it.index() + 1);
        let ghost ls = lines_of(seen);
        proof {
            lemma_lines_of_nonempty(seen);
            assert(next.drop_last() =~= seen);
            assert(next.last() == c);
        }
        if c == '\n' {
            buf.append("\r\n");
            buf.append(prefix);
            proof {
                assert(lines_of(next) == ls.push(Seq::empty()));
                assert(lines_of(next).drop_last() =~= ls);
                assert(indented(ls, depth).drop_last() =~= indented(ls.drop_last(), depth));
                assert(indented(ls, depth).last() == tabs(depth) + ls.last());
                assert(buf@ =~= base + rendered(indented(lines_of(next).drop_last(), depth)) + tabs(
                    depth,
                ) + lines_of(next).last());
            }
        } else {
            buf.push(c);
            proof {
                assert(lines_of(next) == ls.drop_last().push(ls.last().push(c)));
                assert(lines_of(next).drop_last() =~= ls.drop_last());
                assert(buf@ =~= base + rendered(indented(lines_of(next).drop_last(), depth)) + tabs(
                    depth,
                ) + lines_of(next).last());
            }
        }
    }
    buf.append("\r\n");
    proof {
        assert(text@.take(text@.len() as int) =~= text@);
        let ls = lines_of(text@);
        lemma_lines_of_nonempty(text@);
        assert(indented(ls, depth).drop_last() =~= indented(ls.drop_last(), depth));
        assert(indented(ls, depth).last() == tabs(depth) + ls.last());
        assert(buf@ =~= base + rendered(indented(ls, depth)));
    }
}

impl DataFile {
    /// Appends the text form of this file to `buf`, its entries behind `prefix`.
    fn write_at(&self, buf: &mut String, prefix: &str, Ghost(depth): Ghost<nat>)
        requires
            prefix@ == tabs(depth),
        ensures
            final(buf)@ == old(buf)@ + encoding(self@, depth),
        decreases self,
    {
        let ghost base = buf@;
        let mut inner = prefix.to_owned();
        inner.append("\t");
        proof {
            reveal_strlit("\t");
            reveal_strlit("\r\n");
            reveal_strlit(":\r\n");
            reveal_strlit(": ");
            assert(inner@ =~= tabs(depth + 1));
            assert(self.items@.take(0) =~= Seq::<(String, Data)>::empty());
            assert(buf@ =~= base + rendered(entries_lines(entries_of(self.items@.take(0)), depth)));
        }
        let mut i: usize = 0;
        while i < self.items.len()
            invariant
                i <= self.items.len(),
                prefix@ == tabs(depth),
                inner@ == tabs(depth + 1),
                "\r\n"@ == seq!['\r', '\n'],
                ":\r\n"@ == seq![':', '\r', '\n'],
                ": "@ == seq![':', ' '],
                buf@ == base + rendered(
                    entries_lines(entries_of(self.items@.take(i as int)), depth),
                ),
            decreases self.items.len() - i,
        {
            let ghost before = buf@;
            let ghost key = self.items@[i as int].0@;
            let ghost value = entry_of(self.items@[i as int].1);
            proof {
                assert(self.items@.take(i + 1) =~= self.items@.take(i as int).push(
                    self.items@[i as int],
                ));
                lemma_entries_of_push(self.items@.take(i as int), self.items@[i as int]);
                let done = entries_of(self.items@.take(i as int));
                assert(done.push((key, value)).drop_last() =~= done);
                lemma_rendered_concat(entries_lines(done, depth), entry_lines(key, value, depth));
            }
            buf.append(prefix);
            buf.append(self.items[i].0.as_str());
            match &self.items[i].1 {
                Data::Flat(text) => {
                    if has_line_feed(text.as_str()) {
                        buf.append(":\r\n");
                        let ghost head = seq![tabs(depth) + key + seq![':']];
                        assert(buf@ =~= before + rendered(head)) by {
                            lemma_rendered_one(tabs(depth) + key + seq![':']);
                        }
                        write_text_lines(text.as_str(), buf, inner.as_str(), Ghost(depth + 1));
                        proof {
                            lemma_rendered_concat(
                                head,
                                indented(lines_of(text@), (depth + 1) as nat),
                            );
                        }
                    } else {
                        buf.append(": ");
                        buf.append(text.as_str());
                        buf.append("\r\n");
                        let ghost line = seq![tabs(depth) + key + seq![':', ' '] + text@];
                        assert(buf@ =~= before + rendered(line)) by {
                            lemma_rendered_one(tabs(depth) + key + seq![':', ' '] + text@);
                        }
                    }
                },
                Data::Subfile(file) => {
                    buf.append("\r\n");
                    let ghost head = seq![tabs(depth) + key];
                    assert(buf@ =~= before + rendered(head)) by {
                        lemma_rendered_one(tabs(depth) + key);
                    }
                    file.write_at(buf, inner.as_str(), Ghost(depth + 1));
                    proof {
                        lemma_rendered_concat(
                            head,
                            entries_lines(file@.entries, (depth + 1) as nat),
                        );
                    }
                },
            }
            assert(buf@ =~= before + rendered(entry_lines(key, value, depth)));
            i += 1;
        }
        assert(self.items@.take(i as int) =~= self.items@);
    }

    /// Appends the text form of this file to `buf`, its entries indented by
    /// `indent` tabs.
    pub fn write_inner(&self, buf: &mut String, indent: usize)
        ensures
            final(buf)@ == old(buf)@ + encoding(self@, indent as nat),
    {
        let prefix = tab_string(indent);
        self.write_at(buf, prefix.as_str(), Ghost(indent as nat));
    }
}

} // verus!
