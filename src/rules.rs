//! The rule collection, and the loaders that fill it from documents, files,
//! directories and mixed lists of sources.
use crate::yaml::{document_rules, is_problem_of, parse_rules_document, ParseProblem};
use vstd::prelude::*;

verus! {

/// One rule record: an opaque YAML value, left for the matching engine to read.
pub type Rule = serde_yaml::Value;

/// An ordered collection of rule records.
pub struct Rules {
    pub rules: Vec<Rule>,
}

impl View for Rules {
    type V = Seq<Rule>;

    open spec fn view(&self) -> Seq<Rule> {
        self.rules@
    }
}

/// A failure of the filesystem that an outside reader reported.
pub struct IoFailure {
    pub path: String,
    pub message: String,
}

/// Why a load failed.
pub enum LoadError {
    /// A document is not a `{ rules: [...] }` YAML document.
    Parse { path: String, problem: ParseProblem },
    /// A file or directory could not be read.
    Io { path: String, message: String },
    /// An input path is neither a file nor a directory.
    InvalidInput { path: String },
}

/// A rule file, with what reading it gave.
pub struct FileContents {
    pub path: String,
    pub contents: Result<Vec<u8>, String>,
}

/// A rule directory, with its rule files in load order, or the failure of its walk.
pub struct DirectoryListing {
    pub path: String,
    pub files: Result<Vec<FileContents>, IoFailure>,
}

/// One input path, as the filesystem resolved it.
pub enum Source {
    File(FileContents),
    Directory(DirectoryListing),
    /// A path that is neither a file nor a directory.
    Other { path: String },
}

/// The rules that a file yields, if it loads.
pub open spec fn file_rules(f: FileContents) -> Option<Seq<Rule>> {
    match f.contents {
        Ok(bytes) => document_rules(bytes@),
        Err(_) => None,
    }
}

/// Whether `e` is the error that loading file `f` gives.
pub open spec fn file_error(f: FileContents, e: LoadError) -> bool {
    match f.contents {
        Ok(bytes) => match e {
            LoadError::Parse { path, problem } => path@ == f.path@ && is_problem_of(bytes@, problem),
            _ => false,
        },
        Err(message) => match e {
            LoadError::Io { path, message: m } => path@ == f.path@ && m@ == message@,
            _ => false,
        },
    }
}

/// The rules of a list of files, merged in order, if every one loads.
pub open spec fn files_rules(fs: Seq<FileContents>) -> Option<Seq<Rule>>
    decreases fs.len(),
{
    if fs.len() == 0 {
        Some(Seq::empty())
    } else {
        match (files_rules(fs.drop_last()), file_rules(fs.last())) {
            (Some(a), Some(b)) => Some(a + b),
            _ => None,
        }
    }
}

/// Whether `e` is the error of the first file in `fs` that does not load.
pub open spec fn files_error(fs: Seq<FileContents>, e: LoadError) -> bool {
    exists|i: int|
        0 <= i < fs.len() && #[trigger] files_rules(fs.take(i)) is Some && file_error(fs[i], e)
}

/// The rules of a directory, if its walk and every file in it load.
pub open spec fn directory_rules(d: DirectoryListing) -> Option<Seq<Rule>> {
    match d.files {
        Ok(fs) => files_rules(fs@),
        Err(_) => None,
    }
}

/// Whether `e` is the error that loading directory `d` gives.
pub open spec fn directory_error(d: DirectoryListing, e: LoadError) -> bool {
    match d.files {
        Ok(fs) => files_error(fs@, e),
        Err(w) => match e {
            LoadError::Io { path, message } => path@ == w.path@ && message@ == w.message@,
            _ => false,
        },
    }
}

/// The rules that a source yields, if it loads.
pub open spec fn source_rules(s: Source) -> Option<Seq<Rule>> {
    match s {
        Source::File(f) => file_rules(f),
        Source::Directory(d) => directory_rules(d),
        Source::Other { .. } => None,
    }
}

/// Whether `e` is the error that loading source `s` gives.
pub open spec fn source_error(s: Source, e: LoadError) -> bool {
    match s {
        Source::File(f) => file_error(f, e),
        Source::Directory(d) => directory_error(d, e),
        Source::Other { path } => match e {
            LoadError::InvalidInput { path: p } => p@ == path@,
            _ => false,
        },
    }
}

/// The rules of a list of sources, merged in order, if every one loads.
pub open spec fn sources_rules(ss: Seq<Source>) -> Option<Seq<Rule>>
    decreases ss.len(),
{
    if ss.len() == 0 {
        Some(Seq::empty())
    } else {
        match (sources_rules(ss.drop_last()), source_rules(ss.last())) {
            (Some(a), Some(b)) => Some(a + b),
            _ => None,
        }
    }
}

/// Whether `e` is the error of the first source in `ss` that does not load.
pub open spec fn sources_error(ss: Seq<Source>, e: LoadError) -> bool {
    exists|i: int|
        0 <= i < ss.len() && #[trigger] sources_rules(ss.take(i)) is Some && source_error(ss[i], e)
}

/// A labelled in-memory buffer, seen as a file that was read.
pub open spec fn buffer_file(item: (String, Vec<u8>)) -> FileContents {
    FileContents { path: item.0, contents: Ok(item.1) }
}

impl Rules {
    /// Create an empty collection of rules.
    pub fn new() -> (r: Self)
        ensures
            r@ == Seq::<Rule>::empty(),
    {
        Rules { rules: Vec::new() }
    }

    /// How many rules are in this collection?
    pub fn len(&self) -> (r: usize)
        ensures
            r == self@.len(),
    {
        self.rules.len()
    }

    /// Is this collection of rules empty?
    pub fn is_empty(&self) -> (r: bool)
        ensures
            r == (self@.len() == 0),
    {
        self.rules.len() == 0
    }

    /// Appends the rules of `other`, in their order, after those already here.
    pub fn extend(&mut self, other: Rules)
        ensures
            final(self)@ == old(self)@ + other@,
    {
        let mut other = other;
        self.rules.append(&mut other.rules);
    }

    /// Load rules from one labelled buffer.
    fn from_buffer(path: &String, bytes: &[u8]) -> (r: Result<Self, LoadError>)
        ensures
            r is Ok <==> document_rules(bytes@) is Some,
            r is Ok ==> document_rules(bytes@) == Some(r->Ok_0@),
            r is Err ==> r->Err_0 is Parse && r->Err_0->Parse_path@ == path@ && is_problem_of(
                bytes@,
                r->Err_0->Parse_problem,
            ),
    {
        match parse_rules_document(bytes) {
            Ok(rules) => Ok(Rules { rules }),
            Err(problem) => Err(LoadError::Parse { path: path.clone(), problem }),
        }
    }

    /// Load rules from the given YAML file.
    pub fn from_yaml_file(file: &FileContents) -> (r: Result<Self, LoadError>)
        ensures
            r is Ok <==> file_rules(*file) is Some,
            r is Ok ==> file_rules(*file) == Some(r->Ok_0@),
            r is Err ==> file_error(*file, r->Err_0),
    {
        match &file.contents {
            Ok(bytes) => Self::from_buffer(&file.path, bytes.as_slice()),
            Err(message) => Err(LoadError::Io { path: file.path.clone(), message: message.clone() }),
        }
    }

    /// Load rules from the given YAML files, merged in the order given.
    pub fn from_yaml_files(files: &[FileContents]) -> (r: Result<Self, LoadError>)
        ensures
            r is Ok <==> files_rules(files@) is Some,
            r is Ok ==> files_rules(files@) == Some(r->Ok_0@),
            r is Err ==> files_error(files@, r->Err_0),
    {
        let mut rules = Rules::new();
        let mut i: usize = 0;
        assert(files@.take(0) =~= Seq::<FileContents>::empty());
        while i < files.len()
            invariant
                i <= files@.len(),
                files_rules(files@.take(i as int)) == Some(rules@),
            decreases files.len() - i,
        {
            assert(files@.take(i + 1).drop_last() =~= files@.take(i as int));
            match Self::from_yaml_file(&files[i]) {
                Ok(rs) => rules.extend(rs),
                Err(e) => {
                    assert(files_rules(files@.take(i as int)) is Some && file_error(files@[i as int], e));
                    proof { lemma_files_prefix_fails(files@, i as int); }
                    return Err(e);
                },
            }
            i = i + 1;
        }
        assert(files@.take(i as int) =~= files@);
        Ok(rules)
    }

    /// Load rules from labelled in-memory buffers, merged in the order given.
    /// Errors name the label of the buffer that failed.
    pub fn from_paths_and_contents(items: &[(String, Vec<u8>)]) -> (r: Result<Self, LoadError>)
        ensures
            r is Ok <==> files_rules(items@.map_values(|it: (String, Vec<u8>)| buffer_file(it))) is Some,
            r is Ok ==> files_rules(items@.map_values(|it: (String, Vec<u8>)| buffer_file(it)))
                == Some(r->Ok_0@),
            r is Err ==> files_error(
                items@.map_values(|it: (String, Vec<u8>)| buffer_file(it)),
                r->Err_0,
            ),
    {
        let ghost fs = items@.map_values(|it: (String, Vec<u8>)| buffer_file(it));
        let mut rules = Rules::new();
        let mut i: usize = 0;
        assert(fs.take(0) =~= Seq::<FileContents>::empty());
        while i < items.len()
            invariant
                i <= items@.len(),
                fs == items@.map_values(|it: (String, Vec<u8>)| buffer_file(it)),
                files_rules(fs.take(i as int)) == Some(rules@),
            decreases items.len() - i,
        {
            assert(fs.take(i + 1).drop_last() =~= fs.take(i as int));
            assert(fs[i as int] == buffer_file(items@[i as int]));
            let (path, bytes) = &items[i];
            match Self::from_buffer(path, bytes.as_slice()) {
                Ok(rs) => rules.extend(rs),
                Err(e) => {
                    assert(files_rules(fs.take(i as int)) is Some && file_error(fs[i as int], e));
                    proof {
                        lemma_files_prefix_fails(fs, i as int);
                    }
                    return Err(e);
                },
            }
            i = i + 1;
        }
        assert(fs.take(i as int) =~= fs);
        Ok(rules)
    }

    /// Load rules from the rule files found within a directory, in the order listed.
    pub fn from_directory(dir: &DirectoryListing) -> (r: Result<Self, LoadError>)
        ensures
            r is Ok <==> directory_rules(*dir) is Some,
            r is Ok ==> directory_rules(*dir) == Some(r->Ok_0@),
            r is Err ==> directory_error(*dir, r->Err_0),
    {
        match &dir.files {
            Ok(files) => Self::from_yaml_files(files.as_slice()),
            Err(w) => Err(LoadError::Io { path: w.path.clone(), message: w.message.clone() }),
        }
    }

    /// Load rules from the given sources, each a file or a directory, merged in
    /// the order given. The first source that fails ends the load with its error.
    pub fn from_paths(sources: &[Source]) -> (r: Result<Self, LoadError>)
        ensures
            r is Ok <==> sources_rules(sources@) is Some,
            r is Ok ==> sources_rules(sources@) == Some(r->Ok_0@),
            r is Err ==> sources_error(sources@, r->Err_0),
    {
        let mut rules = Rules::new();
        let mut i: usize = 0;
        assert(sources@.take(0) =~= Seq::<Source>::empty());
        while i < sources.len()
            invariant
                i <= sources@.len(),
                sources_rules(sources@.take(i as int)) == Some(rules@),
            decreases sources.len() - i,
        {
            assert(sources@.take(i + 1).drop_last() =~= sources@.take(i as int));
            let loaded = match &sources[i] {
                Source::File(f) => Self::from_yaml_file(f),
                Source::Directory(d) => Self::from_directory(d),
                Source::Other { path } => Err(LoadError::InvalidInput { path: path.clone() }),
            };
            match loaded {
                Ok(rs) => rules.extend(rs),
                Err(e) => {
                    assert(sources_rules(sources@.take(i as int)) is Some && source_error(
                        sources@[i as int],
                        e,
                    ));
                    proof {
                        lemma_sources_prefix_fails(sources@, i as int);
                    }
                    return Err(e);
                },
            }
            i = i + 1;
        }
        assert(sources@.take(i as int) =~= sources@);
        Ok(rules)
    }

    /// The rules of this collection, in order.
    pub fn iter(&self) -> (r: std::slice::Iter<'_, Rule>)
        ensures
            vstd::std_specs::iter::IteratorSpec::remaining(&r) == self@.as_ref(),
    {
        broadcast use vstd::std_specs::slice::axiom_spec_slice_iter;

        self.rules.as_slice().iter()
    }
}

/// Creates an empty collection of rules.
impl Default for Rules {
    fn default() -> (r: Self)
        ensures
            r@ == Seq::<Rule>::empty(),
    {
        Self::new()
    }
}

/// Hands out the rules of the collection, in order.
impl IntoIterator for Rules {
    type Item = Rule;
    type IntoIter = std::vec::IntoIter<Rule>;

    fn into_iter(self) -> Self::IntoIter {
        self.rules.into_iter()
    }
}

/// Once a source fails to load, no longer list that holds it loads.
proof fn lemma_sources_prefix_fails(ss: Seq<Source>, i: int)
    requires
        0 <= i < ss.len(),
        source_rules(ss[i]) is None,
    ensures
        sources_rules(ss) is None,
    decreases ss.len(),
{
    if i < ss.len() - 1 {
        lemma_sources_prefix_fails(ss.drop_last(), i);
    }
}

/// Once a file fails to load, no longer list that holds it loads.
pub(crate) proof fn lemma_files_prefix_fails(fs: Seq<FileContents>, i: int)
    requires
        0 <= i < fs.len(),
        file_rules(fs[i]) is None,
    ensures
        files_rules(fs) is None,
    decreases fs.len(),
{
    if i < fs.len() - 1 {
        lemma_files_prefix_fails(fs.drop_last(), i);
    }
}

} // verus!
