//! Format adapters: native console show files in, [`Show`] out.
//!
//! Adding a console means adding one module that implements [`ShowAdapter`].
//! Nothing else changes — the reports, the XML and the command line all work
//! from the model alone.
//!
//! # Why the input is a bundle
//!
//! [`ShowInput`] carries a *list* of files, not one file, because show files
//! are not consistently single files. A Behringer `.scn` is one text file, but
//! an Allen & Heath SQ show is a folder of `SHOW.DAT` + `NVDATA.DAT`, and
//! DiGiCo sessions are directory trees.

pub mod ah;
pub mod registry;
pub mod x32;
pub mod yamaha;

pub use self::registry::{adapters, detect, parse_auto, Format};

use vstd::prelude::*;

use crate::model::Show;
use crate::text::{
    chars_of, first_match, last_index_of_char, lemma_first_match_at, lemma_first_match_none,
    lossy_utf8, lower_seq, rfind_char, slice_vec, string_of, utf8_lossy,
};
use crate::lex::lower_vec;

verus! {

/// Why an adapter could not produce a show.
#[derive(Debug)]
pub enum AdapterError {
    /// No adapter recognised this show file.
    Unrecognised,
    /// The adapter recognised the file but could not read it.
    Parse { adapter: &'static str, message: String },
    /// A file the format needs is not in the bundle.
    MissingFile(String),
}

pub enum AdapterErrorView {
    Unrecognised,
    Parse { adapter: Seq<char>, message: Seq<char> },
    MissingFile(Seq<char>),
}

impl View for AdapterError {
    type V = AdapterErrorView;

    open spec fn view(&self) -> AdapterErrorView {
        match self {
            AdapterError::Unrecognised => AdapterErrorView::Unrecognised,
            AdapterError::Parse { adapter, message } => AdapterErrorView::Parse {
                adapter: adapter@,
                message: message@,
            },
            AdapterError::MissingFile(f) => AdapterErrorView::MissingFile(f@),
        }
    }
}

pub open spec fn adapter_error_text(e: AdapterErrorView) -> Seq<char> {
    match e {
        AdapterErrorView::Unrecognised => "no adapter recognised this show file"@,
        AdapterErrorView::Parse { adapter, message } => adapter + ": "@ + message,
        AdapterErrorView::MissingFile(f) => "expected file "@ + f
            + " not present in the show bundle"@,
    }
}

impl AdapterError {
    /// The sentence shown to the user.
    pub fn message(&self) -> (r: String)
        ensures
            r@ == adapter_error_text(self@),
    {
        match self {
            AdapterError::Unrecognised => String::from_str("no adapter recognised this show file"),
            AdapterError::Parse { adapter, message } => {
                let mut s = String::from_str(*adapter);
                crate::text::push_str(&mut s, ": ");
                crate::text::push_str(&mut s, message.as_str());
                s
            },
            AdapterError::MissingFile(f) => {
                let mut s = String::from_str("expected file ");
                crate::text::push_str(&mut s, f.as_str());
                crate::text::push_str(&mut s, " not present in the show bundle");
                s
            },
        }
    }
}

/// One file within a show bundle.
#[derive(Debug, Clone)]
pub struct ShowFile {
    /// Path relative to the bundle root, e.g. `SHOW.DAT` or `mix.scn`.
    pub path: String,
    pub bytes: Vec<u8>,
}

/// The part of a path after its last `/`.
pub open spec fn file_name_spec(path: Seq<char>) -> Seq<char> {
    match last_index_of_char(path, '/') {
        Some(i) => path.skip(i + 1),
        None => path,
    }
}

/// The lower-cased text after the last `.`, or nothing.
pub open spec fn extension_spec(path: Seq<char>) -> Seq<char> {
    match last_index_of_char(path, '.') {
        Some(i) => lower_seq(path.skip(i + 1)),
        None => Seq::empty(),
    }
}

impl ShowFile {
    pub fn new(path: &str, bytes: Vec<u8>) -> (r: ShowFile)
        ensures
            r.path@ == path@,
            r.bytes@ == bytes@,
    {
        ShowFile { path: path.to_owned(), bytes }
    }

    /// Lossy UTF-8 view. Console show files are frequently not clean UTF-8
    /// (latin-1 channel names are common), and refusing to parse the whole
    /// show because one channel is called "Café" would be useless behaviour.
    pub fn text(&self) -> (r: String)
        ensures
            r@ == lossy_utf8(self.bytes@),
    {
        utf8_lossy(self.bytes.as_slice())
    }

    /// Lower-cased extension, without the dot.
    pub fn extension(&self) -> (r: String)
        ensures
            r@ == extension_spec(self.path@),
    {
        let cs = chars_of(self.path.as_str());
        let n = cs.len();
        match rfind_char(cs.as_slice(), '.') {
            Some(i) => {
                assert(i < n);
                let tail = slice_vec(cs.as_slice(), i + 1, n);
                let l = lower_vec(tail.as_slice());
                proof {
                    assert(tail@ =~= self.path@.skip(i + 1));
                }
                string_of(l.as_slice())
            },
            None => String::new(),
        }
    }

    /// Base name: the part of the path after its last `/`.
    pub fn file_name(&self) -> (r: String)
        ensures
            r@ == file_name_spec(self.path@),
    {
        let cs = chars_of(self.path.as_str());
        let n = cs.len();
        match rfind_char(cs.as_slice(), '/') {
            Some(i) => {
                assert(i < n);
                let tail = slice_vec(cs.as_slice(), i + 1, n);
                proof {
                    assert(tail@ =~= self.path@.skip(i + 1));
                }
                string_of(tail.as_slice())
            },
            None => self.path.clone(),
        }
    }
}

/// A show as presented to the adapters.
#[derive(Debug, Clone)]
pub struct ShowInput {
    /// Display name — the uploaded file or folder name.
    pub name: String,
    pub files: Vec<ShowFile>,
}

/// Case-insensitive (ASCII) equality of base names, as `eq_ignore_ascii_case`.
pub open spec fn same_file_name(f: ShowFile, name: Seq<char>) -> bool {
    lower_seq(file_name_spec(f.path@)) == lower_seq(name)
}

impl ShowInput {
    /// A single-file show.
    pub fn single(name: &str, bytes: Vec<u8>) -> (r: ShowInput)
        ensures
            r.name@ == name@,
            r.files@.len() == 1,
            r.files@[0].path@ == name@,
            r.files@[0].bytes@ == bytes@,
    {
        ShowInput { name: name.to_owned(), files: vec![ShowFile::new(name, bytes)] }
    }

    pub fn bundle(name: &str, files: Vec<ShowFile>) -> (r: ShowInput)
        ensures
            r.name@ == name@,
            r.files@ == files@,
    {
        ShowInput { name: name.to_owned(), files }
    }

    /// Find a file by case-insensitive base name.
    pub fn find(&self, file_name: &str) -> (r: Option<&ShowFile>)
        ensures
            match first_match(self.files@, |f: ShowFile| same_file_name(f, file_name@)) {
                Some(i) => r == Some(&self.files@[i]),
                None => r is None,
            },
    {
        let want = lower_vec(chars_of(file_name).as_slice());
        let mut i: usize = 0;
        while i < self.files.len()
            invariant
                i <= self.files@.len(),
                want@ == lower_seq(file_name@),
                forall|j: int| 0 <= j < i ==> !same_file_name(#[trigger] self.files@[j], file_name@),
            decreases self.files@.len() - i,
        {
            let n = self.files[i].file_name();
            let l = lower_vec(chars_of(n.as_str()).as_slice());
            if crate::text::eq_chars(l.as_slice(), want.as_slice()) {
                proof {
                    lemma_first_match_at(
                        self.files@,
                        |f: ShowFile| same_file_name(f, file_name@),
                        i as int,
                    );
                }
                return Some(&self.files[i]);
            }
            i = i + 1;
        }
        proof {
            lemma_first_match_none(self.files@, |f: ShowFile| same_file_name(f, file_name@));
        }
        None
    }

    /// The first file, which is the whole show for single-file formats.
    pub fn primary(&self) -> (r: Option<&ShowFile>)
        ensures
            self.files@.len() == 0 ==> r is None,
            self.files@.len() > 0 ==> r == Some(&self.files@[0]),
    {
        if self.files.len() > 0 {
            Some(&self.files[0])
        } else {
            None
        }
    }
}

/// How sure an adapter is that it can read an input.
#[derive(Debug, Clone, Copy, PartialEq, Eq, Structural)]
pub enum Confidence {
    /// Definitely not this format.
    No,
    /// Extension or name matches, but the content was not checked or is odd.
    Weak,
    /// Content carries this format's signature.
    Strong,
}

pub open spec fn confidence_rank(c: Confidence) -> u8 {
    match c {
        Confidence::No => 0,
        Confidence::Weak => 1,
        Confidence::Strong => 2,
    }
}

impl Confidence {
    /// Position in the order `No < Weak < Strong`.
    pub fn rank(self) -> (r: u8)
        ensures
            r == confidence_rank(self),
    {
        match self {
            Confidence::No => 0,
            Confidence::Weak => 1,
            Confidence::Strong => 2,
        }
    }
}

/// A console show file format.
pub trait ShowAdapter {
    /// Stable slug, used as `source-format` in the exchange file and on the
    /// command line.
    fn id(&self) -> &'static str;

    /// Human name for the user interface.
    fn display_name(&self) -> &'static str;

    /// Extensions this adapter claims, lowercase and without the dot.
    fn extensions(&self) -> &'static [&'static str];

    /// Cheap content check, total on arbitrary bytes.
    fn sniff(&self, input: &ShowInput) -> Confidence;

    fn parse(&self, input: &ShowInput) -> Result<Show, AdapterError>;
}

} // verus!
