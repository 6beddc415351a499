//! The named streams that a set file is stored as.
use crate::document::{DataFile, Document};
use crate::encoding::encoding;
use crate::reading::{lemma_round_trip, parsed, readable};
use crate::text::{decimal, decimal_string};
use vstd::prelude::*;
use vstd::string::StrSliceExecFns;
use vstd::string::StringExecFns;
use vstd::utf8::{decode_utf8, encode_utf8, encode_utf8_decode_utf8};

verus! {

/// A container of named byte streams, in the order in which they were written.
#[derive(Debug)]
pub struct Archive {
    pub streams: Vec<(String, Vec<u8>)>,
}

impl View for Archive {
    type V = Seq<(Seq<char>, Seq<u8>)>;

    open spec fn view(&self) -> Seq<(Seq<char>, Seq<u8>)> {
        Seq::new(self.streams@.len(), |i: int| (self.streams@[i].0@, self.streams@[i].1@))
    }
}

/// The name of the stream of the image at position `index`, counted from 0:
/// `image1` for the first image.
pub open spec fn image_name(index: nat) -> Seq<char> {
    "image"@ + decimal(index + 1)
}

/// The streams of a document: `set` with the UTF-8 bytes of its text form,
/// then one stream for each image, in the order of the images.
pub open spec fn streams_of(doc: Document) -> Seq<(Seq<char>, Seq<u8>)> {
    seq![("set"@, encode_utf8(encoding(doc, 0)))] + Seq::new(
        doc.images.len(),
        |i: int| (image_name(i as nat), doc.images[i]),
    )
}

impl Archive {
    /// An archive without streams.
    pub fn new() -> (res: Archive)
        ensures
            res@ == Seq::<(Seq<char>, Seq<u8>)>::empty(),
    {
        let res = Archive { streams: Vec::new() };
        assert(res@ =~= Seq::empty());
        res
    }

    /// Adds a stream behind those that are there.
    pub fn start_file(&mut self, name: String, bytes: Vec<u8>)
        ensures
            final(self)@ == old(self)@.push((name@, bytes@)),
    {
        self.streams.push((name, bytes));
        assert(self@ =~= old(self)@.push((name@, bytes@)));
    }
}

impl DataFile {
    /// Writes this file to the archive: its text form as the stream `set`,
    /// then each image as a stream of its own.
    pub fn write_to(self, archive: &mut Archive)
        ensures
            final(archive)@ == old(archive)@ + streams_of(self@),
    {
        let ghost doc = self@;
        let ghost base = archive@;
        let mut text = String::new();
        self.write_inner(&mut text, 0);
        assert(text@ =~= encoding(doc, 0));
        archive.start_file("set".to_owned(), text.as_str().as_bytes_vec());
        let images = self.images;
        let mut i: usize = 0;
        assert(archive@ =~= base + streams_of(doc).take(1));
        while i < images.len()
            invariant
                i <= images.len(),
                images@.len() == doc.images.len(),
                forall|k: int| 0 <= k < images@.len() ==> (#[trigger] images@[k])@ == doc.images[k],
                archive@ == base + streams_of(doc).take(i + 1),
            decreases images.len() - i,
        {
            let mut name = "image".to_owned();
            let number = decimal_string((i + 1) as u64);
            name.append(number.as_str());
            let bytes = images[i].clone();
            assert(bytes@ == images@[i as int]@);
            archive.start_file(name, bytes);
            i += 1;
            assert(archive@ =~= base + streams_of(doc).take(i + 1));
        }
        assert(streams_of(doc).take(i + 1) =~= streams_of(doc));
    }
}

/// The first stream of a document is `set`, and its bytes, decoded and read
/// back, give the entries of the document, where they can be read back at all.
pub proof fn lemma_set_stream_read_back(doc: Document)
    requires
        readable(doc.entries),
    ensures
        streams_of(doc).len() == 1 + doc.images.len(),
        streams_of(doc)[0].0 == "set"@,
        parsed(decode_utf8(streams_of(doc)[0].1)) == Some(doc.entries),
{
    encode_utf8_decode_utf8(encoding(doc, 0));
    lemma_round_trip(doc);
}

/// Each image of a document has a stream of its own, behind the stream
/// `set`, in the order of the images and named by its place counted from 1.
pub proof fn lemma_image_streams(doc: Document, i: int)
    requires
        0 <= i < doc.images.len(),
    ensures
        streams_of(doc)[1 + i] == (image_name(i as nat), doc.images[i]),
{
}

} // verus!
