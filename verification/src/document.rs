//! The ordered key/value tree that a set file is made of.
use vstd::prelude::*;

verus! {

/// One value of a set file: flat text, or a nested file.
#[derive(Debug)]
pub enum Data {
    Flat(String),
    Subfile(DataFile),
}

/// An ordered list of keyed values, with the images that go with it.
#[derive(Debug)]
pub struct DataFile {
    pub images: Vec<Vec<u8>>,
    pub items: Vec<(String, Data)>,
}

/// What a `Data` stands for.
pub enum Entry {
    Text(Seq<char>),
    Tree(Document),
}

/// What a `DataFile` stands for: its entries and its images, both in order.
pub struct Document {
    pub entries: Seq<(Seq<char>, Entry)>,
    pub images: Seq<Seq<u8>>,
}

/// The entry that a value stands for.
pub open spec fn entry_of(value: Data) -> Entry
    decreases value,
{
    match value {
        Data::Flat(text) => Entry::Text(text@),
        Data::Subfile(file) => Entry::Tree(
            Document { entries: entries_of(file.items@), images: images_of(file.images@) },
        ),
    }
}

/// The entries that a list of items stands for.
pub open spec fn entries_of(items: Seq<(String, Data)>) -> Seq<(Seq<char>, Entry)>
    decreases items,
{
    if items.len() == 0 {
        Seq::empty()
    } else {
        entries_of(items.drop_last()).push((items.last().0@, entry_of(items.last().1)))
    }
}

/// The byte strings that a list of images holds.
pub open spec fn images_of(images: Seq<Vec<u8>>) -> Seq<Seq<u8>> {
    Seq::new(images.len(), |i: int| images[i]@)
}

impl View for DataFile {
    type V = Document;

    open spec fn view(&self) -> Document {
        Document { entries: entries_of(self.items@), images: images_of(self.images@) }
    }
}

impl View for Data {
    type V = Entry;

    open spec fn view(&self) -> Entry {
        entry_of(*self)
    }
}

impl Document {
    /// The document without entries or images.
    pub open spec fn empty() -> Document {
        Document { entries: Seq::empty(), images: Seq::empty() }
    }

    /// This document with one more entry at the end.
    pub open spec fn push(self, key: Seq<char>, value: Entry) -> Document {
        Document { entries: self.entries.push((key, value)), images: self.images }
    }

    /// The entries and images of `self`, each followed by those of `other`.
    pub open spec fn merge(self, other: Document) -> Document {
        Document { entries: self.entries + other.entries, images: self.images + other.images }
    }
}

/// The entries of a list of items are those of its parts, one after the other.
pub proof fn lemma_entries_of_concat(a: Seq<(String, Data)>, b: Seq<(String, Data)>)
    ensures
        entries_of(a + b) == entries_of(a) + entries_of(b),
    decreases b.len(),
{
    if b.len() == 0 {
        assert(a + b =~= a);
        assert(entries_of(a) + entries_of(b) =~= entries_of(a));
    } else {
        lemma_entries_of_concat(a, b.drop_last());
        assert((a + b).drop_last() =~= a + b.drop_last());
        assert((a + b).last() == b.last());
        assert(entries_of(a + b) =~= entries_of(a) + entries_of(b));
    }
}

/// The entries of a list with one more item.
pub proof fn lemma_entries_of_push(items: Seq<(String, Data)>, item: (String, Data))
    ensures
        entries_of(items.push(item)) == entries_of(items).push((item.0@, entry_of(item.1))),
{
    assert(items.push(item).drop_last() =~= items);
}

/// Each item stands for one entry, at the same place.
pub proof fn lemma_entries_of_index(items: Seq<(String, Data)>, i: int)
    requires
        0 <= i < items.len(),
    ensures
        entries_of(items).len() == items.len(),
        entries_of(items)[i] == (items[i].0@, entry_of(items[i].1)),
    decreases items.len(),
{
    lemma_entries_of_len(items);
    if i < items.len() - 1 {
        lemma_entries_of_len(items.drop_last());
        lemma_entries_of_index(items.drop_last(), i);
    }
}

/// There are as many entries as items.
pub proof fn lemma_entries_of_len(items: Seq<(String, Data)>)
    ensures
        entries_of(items).len() == items.len(),
    decreases items.len(),
{
    if items.len() > 0 {
        lemma_entries_of_len(items.drop_last());
    }
}

impl DataFile {
    /// A file without entries or images.
    pub fn empty() -> (res: DataFile)
        ensures
            res@ == Document::empty(),
    {
        let res = DataFile { images: Vec::new(), items: Vec::new() };
        assert(res@.images =~= Seq::empty());
        res
    }

    /// A file of the given items, in their order, without images.
    pub fn from_iter(items: Vec<(String, Data)>) -> (res: DataFile)
        ensures
            res@.entries == entries_of(items@),
            res@.images == Seq::<Seq<u8>>::empty(),
    {
        let res = DataFile { images: Vec::new(), items };
        assert(res@.images =~= Seq::empty());
        res
    }

    /// Appends one entry.
    pub fn push(&mut self, key: &str, value: Data)
        ensures
            final(self)@ == old(self)@.push(key@, value@),
    {
        let key = key.to_owned();
        proof {
            lemma_entries_of_push(self.items@, (key, value));
        }
        self.items.push((key, value));
    }

    /// Appends the entries and the images of `other`, keeping the order of both.
    pub fn merge(&mut self, other: DataFile)
        ensures
            final(self)@ == old(self)@.merge(other@),
    {
        let DataFile { mut images, mut items } = other;
        proof {
            lemma_entries_of_concat(self.items@, items@);
            assert(images_of(self.images@ + images@) =~= images_of(self.images@) + images_of(
                images@,
            ));
        }
        self.images.append(&mut images);
        self.items.append(&mut items);
    }
}

impl Data {
    /// A nested file of the given items, in their order, without images.
    pub fn from_iter(items: Vec<(String, Data)>) -> (res: Data)
        ensures
            res@ == Entry::Tree(Document { entries: entries_of(items@), images: Seq::empty() }),
    {
        Data::Subfile(DataFile::from_iter(items))
    }
}

impl From<String> for Data {
    fn from(text: String) -> (res: Data) {
        Data::Flat(text)
    }
}

impl vstd::std_specs::convert::FromSpecImpl<String> for Data {
    open spec fn obeys_from_spec() -> bool {
        true
    }

    open spec fn from_spec(text: String) -> Data {
        Data::Flat(text)
    }
}

impl From<DataFile> for Data {
    fn from(data_file: DataFile) -> (res: Data) {
        Data::Subfile(data_file)
    }
}

impl vstd::std_specs::convert::FromSpecImpl<DataFile> for Data {
    open spec fn obeys_from_spec() -> bool {
        true
    }

    open spec fn from_spec(data_file: DataFile) -> Data {
        Data::Subfile(data_file)
    }
}

impl Default for DataFile {
    fn default() -> (res: DataFile)
        ensures
            res@ == Document::empty(),
    {
        DataFile::empty()
    }
}

/// Merging is associative.
pub proof fn lemma_merge_associative(a: Document, b: Document, c: Document)
    ensures
        a.merge(b).merge(c) == a.merge(b.merge(c)),
{
    assert((a.entries + b.entries) + c.entries =~= a.entries + (b.entries + c.entries));
    assert((a.images + b.images) + c.images =~= a.images + (b.images + c.images));
}

/// The empty document is a left and a right identity of merging.
pub proof fn lemma_merge_identity(a: Document)
    ensures
        Document::empty().merge(a) == a,
        a.merge(Document::empty()) == a,
{
    assert(Seq::<(Seq<char>, Entry)>::empty() + a.entries =~= a.entries);
    assert(a.entries + Seq::<(Seq<char>, Entry)>::empty() =~= a.entries);
    assert(Seq::<Seq<u8>>::empty() + a.images =~= a.images);
    assert(a.images + Seq::<Seq<u8>>::empty() =~= a.images);
}

/// After a merge the entries of the left document come first, in their order,
/// then those of the right one; likewise the images.
pub proof fn lemma_merge_order(a: Document, b: Document, i: int)
    ensures
        a.merge(b).entries.len() == a.entries.len() + b.entries.len(),
        a.merge(b).images.len() == a.images.len() + b.images.len(),
        0 <= i < a.entries.len() ==> a.merge(b).entries[i] == a.entries[i],
        0 <= i < b.entries.len() ==> a.merge(b).entries[a.entries.len() + i] == b.entries[i],
        0 <= i < a.images.len() ==> a.merge(b).images[i] == a.images[i],
        0 <= i < b.images.len() ==> a.merge(b).images[a.images.len() + i] == b.images[i],
{
}

} // verus!
