//! Index entries, and the rules by which a sweep of the filesystem turns
//! what it walks past into entries.

use crate::text::{same_text, to_chars};
use vstd::prelude::*;
use vstd::string::StrSliceExecFns;

verus! {

/// How deep below the root a sweep descends.
pub const MAX_DEPTH: usize = 5;

/// The directory whose direct children are swept for applications.
pub const APPLICATIONS_DIRECTORY: &'static str = "/Applications/";

/// What an index entry stands for.
#[derive(Debug, Clone, Copy, PartialEq, Eq, Structural)]
pub enum EntryKind {
    File,
    Directory,
    Symlink,
    Application,
}

impl EntryKind {
    /// The word under which the store keeps this kind.
    pub open spec fn name(self) -> Seq<char> {
        match self {
            EntryKind::File => "file"@,
            EntryKind::Directory => "directory"@,
            EntryKind::Symlink => "symlink"@,
            EntryKind::Application => "application"@,
        }
    }

    /// The kind that the store keeps under `word`.
    pub open spec fn named(word: Seq<char>) -> Option<EntryKind> {
        if word == "file"@ {
            Some(EntryKind::File)
        } else if word == "directory"@ {
            Some(EntryKind::Directory)
        } else if word == "symlink"@ {
            Some(EntryKind::Symlink)
        } else if word == "application"@ {
            Some(EntryKind::Application)
        } else {
            None
        }
    }

    /// The word for this kind.
    pub fn as_str(&self) -> (word: &'static str)
        ensures
            word@ == self.name(),
    {
        match self {
            EntryKind::File => "file",
            EntryKind::Directory => "directory",
            EntryKind::Symlink => "symlink",
            EntryKind::Application => "application",
        }
    }

    /// Reads a kind from its word; any other text names no kind.
    pub fn from_name(value: &str) -> (kind: Option<EntryKind>)
        ensures
            kind == EntryKind::named(value@),
    {
        if same_text(value, "file") {
            Some(EntryKind::File)
        } else if same_text(value, "directory") {
            Some(EntryKind::Directory)
        } else if same_text(value, "symlink") {
            Some(EntryKind::Symlink)
        } else if same_text(value, "application") {
            Some(EntryKind::Application)
        } else {
            None
        }
    }

    /// Every kind is read back from its own word.
    pub proof fn lemma_word_names_kind(kind: EntryKind)
        ensures
            EntryKind::named(kind.name()) == Some(kind),
    {
        reveal_strlit("file");
        reveal_strlit("directory");
        reveal_strlit("symlink");
        reveal_strlit("application");
        assert("file"@.len() == 4);
        assert("directory"@.len() == 9);
        assert("symlink"@.len() == 7);
        assert("application"@.len() == 11);
    }
}

/// One row of the index: a file, directory, symlink or application with its
/// timestamps in seconds. The path identifies the row.
#[derive(Debug)]
pub struct Entry {
    pub name: String,
    pub path: String,
    pub kind: EntryKind,
    pub ctime: i64,
    pub mtime: i64,
    pub atime: i64,
}

/// An index entry as plain values.
pub struct EntryView {
    pub name: Seq<char>,
    pub path: Seq<char>,
    pub kind: EntryKind,
    pub ctime: i64,
    pub mtime: i64,
    pub atime: i64,
}

impl View for Entry {
    type V = EntryView;

    open spec fn view(&self) -> EntryView {
        EntryView {
            name: self.name@,
            path: self.path@,
            kind: self.kind,
            ctime: self.ctime,
            mtime: self.mtime,
            atime: self.atime,
        }
    }
}

impl DeepView for Entry {
    type V = EntryView;

    open spec fn deep_view(&self) -> EntryView {
        self@
    }
}

impl Entry {
    /// A copy of this entry.
    pub fn duplicate(&self) -> (copy: Entry)
        ensures
            copy == *self,
    {
        Entry {
            name: self.name.clone(),
            path: self.path.clone(),
            kind: self.kind,
            ctime: self.ctime,
            mtime: self.mtime,
            atime: self.atime,
        }
    }
}

/// What a walk reports of one directory entry: its name, where that is
/// valid text, its path, how many levels below the root of the walk it
/// lies, what following links finds there, and its timestamps.
#[derive(Debug)]
pub struct Walked {
    pub file_name: Option<String>,
    pub path: String,
    pub depth: usize,
    pub is_file: bool,
    pub is_dir: bool,
    pub ctime: i64,
    pub mtime: i64,
    pub atime: i64,
}

/// A walked directory entry as plain values.
pub struct WalkedView {
    pub file_name: Option<Seq<char>>,
    pub path: Seq<char>,
    pub depth: usize,
    pub is_file: bool,
    pub is_dir: bool,
    pub ctime: i64,
    pub mtime: i64,
    pub atime: i64,
}

impl View for Walked {
    type V = WalkedView;

    open spec fn view(&self) -> WalkedView {
        WalkedView {
            file_name: match self.file_name {
                Some(name) => Some(name@),
                None => None,
            },
            path: self.path@,
            depth: self.depth,
            is_file: self.is_file,
            is_dir: self.is_dir,
            ctime: self.ctime,
            mtime: self.mtime,
            atime: self.atime,
        }
    }
}

impl DeepView for Walked {
    type V = WalkedView;

    open spec fn deep_view(&self) -> WalkedView {
        self@
    }
}

/// The rules of a sweep.
pub struct Fs {}

impl Fs {
    /// Whether a walk passes over the entry called `file_name`, and with it
    /// over all that lies below it: names that begin with a dot, and names
    /// that are no valid text.
    pub open spec fn hidden(file_name: Option<Seq<char>>) -> bool {
        match file_name {
            Some(name) => name.len() > 0 && name[0] == '.',
            None => true,
        }
    }

    /// Whether `name` is that of an application bundle: `app` occurs in what
    /// follows its last dot, or anywhere in a name without a dot.
    pub open spec fn application_name(name: Seq<char>) -> bool {
        exists|i: int|
            0 <= i && i + 3 <= name.len() && #[trigger] name[i] == 'a' && name[i + 1] == 'p'
                && name[i + 2] == 'p' && forall|j: int| i + 3 <= j < name.len() ==> name[j] != '.'
    }

    /// The kind of a walked entry: a file, else a directory, else a link
    /// that leads to neither.
    pub open spec fn kind_of(is_file: bool, is_dir: bool) -> EntryKind {
        if is_file {
            EntryKind::File
        } else if is_dir {
            EntryKind::Directory
        } else {
            EntryKind::Symlink
        }
    }

    /// The name under which a walked entry is indexed.
    pub open spec fn shown_name(walked: WalkedView) -> Seq<char> {
        match walked.file_name {
            Some(name) => name,
            None => Seq::empty(),
        }
    }

    /// The entry for something found below the root.
    pub open spec fn file_entry(walked: WalkedView) -> EntryView {
        EntryView {
            name: Fs::shown_name(walked),
            path: walked.path,
            kind: Fs::kind_of(walked.is_file, walked.is_dir),
            ctime: walked.ctime,
            mtime: walked.mtime,
            atime: walked.atime,
        }
    }

    /// The entry for something found in the applications directory.
    pub open spec fn application_entry(walked: WalkedView) -> EntryView {
        EntryView { kind: EntryKind::Application, ..Fs::file_entry(walked) }
    }

    /// Whether a walked entry below the root is indexed: it is not hidden
    /// and lies at least one and at most `MAX_DEPTH` levels below the root.
    pub open spec fn keeps_file() -> spec_fn(WalkedView) -> bool {
        |walked: WalkedView|
            !Fs::hidden(walked.file_name) && 1 <= walked.depth <= MAX_DEPTH
    }

    /// Whether a walked entry of the applications directory is indexed: it
    /// lies directly in that directory and has the name of a bundle.
    pub open spec fn keeps_application() -> spec_fn(WalkedView) -> bool {
        |walked: WalkedView|
            walked.depth == 1 && walked.file_name is Some && Fs::application_name(
                walked.file_name->Some_0,
            )
    }

    /// The entries of one sweep: first what was found below the root, hidden
    /// names left out, then the application bundles; each part in the order
    /// of the walk.
    pub open spec fn indexed(files: Seq<WalkedView>, applications: Seq<WalkedView>) -> Seq<
        EntryView,
    > {
        files.filter(Fs::keeps_file()).map_values(Fs::as_file()) + applications.filter(
            Fs::keeps_application(),
        ).map_values(Fs::as_application())
    }

    /// `file_entry` as a mapping.
    pub open spec fn as_file() -> spec_fn(WalkedView) -> EntryView {
        |walked: WalkedView| Fs::file_entry(walked)
    }

    /// `application_entry` as a mapping.
    pub open spec fn as_application() -> spec_fn(WalkedView) -> EntryView {
        |walked: WalkedView| Fs::application_entry(walked)
    }

    /// Tests whether a walk passes over `file_name`.
    pub fn is_hidden(file_name: Option<&str>) -> (hidden: bool)
        ensures
            hidden == Fs::hidden(
                match file_name {
                    Some(name) => Some(name@),
                    None => None,
                },
            ),
    {
        match file_name {
            Some(name) => !name.is_empty() && name.get_char(0) == '.',
            None => true,
        }
    }

    /// Tests whether `file_name` is that of an application bundle.
    pub fn is_application(file_name: &str) -> (application: bool)
        ensures
            application == Fs::application_name(file_name@),
    {
        let chars = to_chars(file_name);
        let n = chars.len();
        if n < 3 {
            return false;
        }
        let mut i: usize = n - 3;
        loop
            invariant
                chars@ == file_name@,
                n == chars.len(),
                i + 3 <= n,
                forall|j: int| i + 3 <= j < n ==> chars[j] != '.',
                forall|k: int|
                    i < k && k + 3 <= n ==> !(#[trigger] chars[k] == 'a' && chars[k + 1] == 'p'
                        && chars[k + 2] == 'p' && forall|j: int|
                        k + 3 <= j < n ==> chars[j] != '.'),
            decreases i,
        {
            if chars[i] == 'a' && chars[i + 1] == 'p' && chars[i + 2] == 'p' {
                return true;
            }
            if chars[i + 2] == '.' || i == 0 {
                assert forall|k: int|
                    0 <= k && k + 3 <= n implies !(#[trigger] chars[k] == 'a' && chars[k + 1]
                    == 'p' && chars[k + 2] == 'p' && forall|j: int|
                    k + 3 <= j < n ==> chars[j] != '.') by {
                    if k < i {
                        assert(chars[i + 2] == '.');
                    }
                }
                return false;
            }
            i -= 1;
        }
    }

    /// Classifies a walked entry.
    pub fn classify(is_file: bool, is_dir: bool) -> (kind: EntryKind)
        ensures
            kind == Fs::kind_of(is_file, is_dir),
    {
        if is_file {
            EntryKind::File
        } else if is_dir {
            EntryKind::Directory
        } else {
            EntryKind::Symlink
        }
    }

    fn entry(walked: Walked, application: bool) -> (entry: Entry)
        ensures
            entry@ == (if application {
                Fs::application_entry(walked@)
            } else {
                Fs::file_entry(walked@)
            }),
    {
        let kind = if application {
            EntryKind::Application
        } else {
            Fs::classify(walked.is_file, walked.is_dir)
        };
        let name = match walked.file_name {
            Some(name) => name,
            None => String::new(),
        };
        Entry {
            name,
            path: walked.path,
            kind,
            ctime: walked.ctime,
            mtime: walked.mtime,
            atime: walked.atime,
        }
    }

    /// Turns what one sweep walked past into index entries: `files` is the
    /// walk below the root, `applications` that of the applications
    /// directory.
    pub fn index_file_system(files: Vec<Walked>, applications: Vec<Walked>) -> (entries: Vec<Entry>)
        ensures
            entries.deep_view() == Fs::indexed(files.deep_view(), applications.deep_view()),
    {
        let mut entries: Vec<Entry> = Vec::new();
        let ghost below = files.deep_view();
        let ghost found = files@;
        assert(below.take(0).filter(Fs::keeps_file()) =~= Seq::empty()) by {
            reveal(Seq::filter);
        }
        for walked in it: files
            invariant
                it.seq() == found,
                below == Seq::new(found.len(), |i: int| found[i]@),
                entries.deep_view() =~= below.take(it.index() as int).filter(
                    Fs::keeps_file(),
                ).map_values(Fs::as_file()),
        {
            proof {
                let i = it.index() as int;
                assert(below.take(i + 1) =~= below.take(i).push(below[i]));
                below.take(i).lemma_filter_push(below[i], Fs::keeps_file());
                below.take(i).filter(Fs::keeps_file()).lemma_push_map_commute(Fs::as_file(), below[i]);
                assert(below[i] == walked@);
            }
            let hidden = walked.depth < 1 || walked.depth > MAX_DEPTH || match &walked.file_name {
                Some(name) => Fs::is_hidden(Some(name.as_str())),
                None => true,
            };
            let ghost listed = entries.deep_view();
            let ghost seen = below.take(it.index() as int);
            let ghost this = below[it.index() as int];
            assert(hidden == !Fs::keeps_file()(this));
            if !hidden {
                let entry = Fs::entry(walked, false);
                assert(entry@ == Fs::as_file()(this));
                entries.push(entry);
                assert(entries.deep_view() =~= listed.push(Fs::as_file()(this)));
                assert(entries.deep_view() =~= seen.push(this).filter(Fs::keeps_file()).map_values(Fs::as_file()));
            } else {
                assert(entries.deep_view() =~= seen.push(this).filter(Fs::keeps_file()).map_values(Fs::as_file()));
            }
        }
        assert(below.take(below.len() as int) =~= below);
        let ghost first = entries.deep_view();
        let ghost bundles = applications.deep_view();
        let ghost given = applications@;
        assert(bundles.take(0).filter(Fs::keeps_application()) =~= Seq::empty()) by {
            reveal(Seq::filter);
        }
        for walked in it: applications
            invariant
                it.seq() == given,
                bundles == Seq::new(given.len(), |i: int| given[i]@),
                entries.deep_view() =~= first + bundles.take(it.index() as int).filter(
                    Fs::keeps_application(),
                ).map_values(Fs::as_application()),
        {
            proof {
                let i = it.index() as int;
                assert(bundles.take(i + 1) =~= bundles.take(i).push(bundles[i]));
                bundles.take(i).lemma_filter_push(bundles[i], Fs::keeps_application());
                bundles.take(i).filter(Fs::keeps_application()).lemma_push_map_commute(
                    Fs::as_application(),
                    bundles[i],
                );
                assert(bundles[i] == walked@);
            }
            let keep = walked.depth == 1 && match &walked.file_name {
                Some(name) => Fs::is_application(name.as_str()),
                None => false,
            };
            let ghost listed = entries.deep_view();
            let ghost seen = bundles.take(it.index() as int);
            let ghost this = bundles[it.index() as int];
            assert(keep == Fs::keeps_application()(this));
            if keep {
                let entry = Fs::entry(walked, true);
                assert(entry@ == Fs::as_application()(this));
                entries.push(entry);
                assert(entries.deep_view() =~= listed.push(Fs::as_application()(this)));
                assert(entries.deep_view() =~= first + seen.push(this).filter(
                    Fs::keeps_application(),
                ).map_values(Fs::as_application()));
            } else {
                assert(entries.deep_view() =~= first + seen.push(this).filter(
                    Fs::keeps_application(),
                ).map_values(Fs::as_application()));
            }
        }
        assert(bundles.take(bundles.len() as int) =~= bundles);
        entries
    }
}

} // verus!
