use vstd::prelude::*;
use vstd::string::*;
use crate::errors::NoteError;
use crate::timestamp::Timestamp;
use crate::timestamp::path_of;

verus! {

/// One stored note: its path and its current content.
struct NoteFile {
    path: String,
    content: String,
}

/// No two stored notes share a path.
spec fn paths_unique(s: Seq<NoteFile>) -> bool {
    forall|i: int, j: int| 0 <= i < j < s.len() ==> s[i].path@ != s[j].path@
}

/// Some stored note has path `k`.
spec fn has_path(s: Seq<NoteFile>, k: Seq<char>) -> bool {
    exists|i: int| 0 <= i < s.len() && #[trigger] s[i].path@ == k
}

/// The notes as a map from path to content.
spec fn map_of(s: Seq<NoteFile>) -> Map<Seq<char>, Seq<char>> {
    Map::new(
        |k: Seq<char>| has_path(s, k),
        |k: Seq<char>|
            {
                let i = choose|i: int| 0 <= i < s.len() && #[trigger] s[i].path@ == k;
                s[i].content@
            },
    )
}

proof fn lemma_map_at(s: Seq<NoteFile>, i: int)
    requires
        paths_unique(s),
        0 <= i < s.len(),
    ensures
        map_of(s).contains_key(s[i].path@),
        map_of(s)[s[i].path@] == s[i].content@,
{
    let k = s[i].path@;
    assert(has_path(s, k));
    let j = choose|j: int| 0 <= j < s.len() && #[trigger] s[j].path@ == k;
    assert(j == i);
}

proof fn lemma_push_map(s: Seq<NoteFile>, f: NoteFile)
    requires
        paths_unique(s),
        !has_path(s, f.path@),
    ensures
        paths_unique(s.push(f)),
        map_of(s.push(f)) =~= map_of(s).insert(f.path@, f.content@),
{
    let s2 = s.push(f);
    let m2 = map_of(s2);
    let mi = map_of(s).insert(f.path@, f.content@);
    assert forall|i: int, j: int| 0 <= i < j < s2.len() implies s2[i].path@ != s2[j].path@ by {
        if j < s.len() {
        } else {
            assert(s2[i] == s[i]);
        }
    }
    assert forall|k: Seq<char>| m2.contains_key(k) implies mi.contains_key(k) && m2[k] == mi[k] by {
        let i = choose|i: int| 0 <= i < s2.len() && #[trigger] s2[i].path@ == k;
        if k == f.path@ {
            if i < s.len() {
                assert(s[i].path@ == f.path@);
                assert(false);
            }
            assert(m2[k] == f.content@);
        } else {
            assert(i < s.len());
            assert(s[i].path@ == k);
            assert(has_path(s, k));
            let j = choose|j: int| 0 <= j < s.len() && #[trigger] s[j].path@ == k;
            assert(j == i);
            assert(m2[k] == s2[i].content@);
            assert(mi[k] == s[j].content@);
        }
    }
    assert forall|k: Seq<char>| mi.contains_key(k) implies m2.contains_key(k) by {
        if k == f.path@ {
            assert(s2[s.len() as int].path@ == k);
            assert(has_path(s2, k));
        } else {
            let j = choose|j: int| 0 <= j < s.len() && #[trigger] s[j].path@ == k;
            assert(s2[j].path@ == k);
            assert(has_path(s2, k));
        }
    }
}

proof fn lemma_remove_map(s: Seq<NoteFile>, r: int)
    requires
        paths_unique(s),
        0 <= r < s.len(),
    ensures
        paths_unique(s.remove(r)),
        !has_path(s.remove(r), s[r].path@),
        map_of(s.remove(r)) =~= map_of(s).remove(s[r].path@),
{
    let s3 = s.remove(r);
    s.remove_ensures(r);
    let m3 = map_of(s3);
    let mr = map_of(s).remove(s[r].path@);
    assert forall|i: int, j: int| 0 <= i < j < s3.len() implies s3[i].path@ != s3[j].path@ by {
        let oi: int = if i < r { i } else { i + 1 };
        let oj: int = if j < r { j } else { j + 1 };
        assert(s3[i] == s[oi]);
        assert(s3[j] == s[oj]);
    }
    assert forall|i: int| 0 <= i < s3.len() implies s3[i].path@ != s[r].path@ by {
        let oi: int = if i < r { i } else { i + 1 };
        assert(s3[i] == s[oi]);
        assert(oi != r);
    }
    assert forall|k: Seq<char>| m3.contains_key(k) implies mr.contains_key(k) && m3[k] == mr[k] by {
        let i = choose|i: int| 0 <= i < s3.len() && #[trigger] s3[i].path@ == k;
        let oi: int = if i < r { i } else { i + 1 };
        assert(s3[i] == s[oi]);
        assert(s[oi].path@ == k);
        assert(has_path(s, k));
        assert(k != s[r].path@);
        let j = choose|j: int| 0 <= j < s.len() && #[trigger] s[j].path@ == k;
        assert(j == oi);
        assert(m3[k] == s3[i].content@);
        assert(mr[k] == s[j].content@);
    }
    assert forall|k: Seq<char>| mr.contains_key(k) implies m3.contains_key(k) by {
        let j = choose|j: int| 0 <= j < s.len() && #[trigger] s[j].path@ == k;
        assert(j != r);
        let i: int = if j < r { j } else { j - 1 };
        assert(s3[i] == s[j]);
        assert(s3[i].path@ == k);
        assert(has_path(s3, k));
    }
}

/// The Note Store, modelled as a map from storage path to file content. The
/// command boundary mirrors each operation onto the real directory tree.
pub struct NoteStore {
    files: Vec<NoteFile>,
}

impl View for NoteStore {
    type V = Map<Seq<char>, Seq<char>>;

    closed spec fn view(&self) -> Map<Seq<char>, Seq<char>> {
        map_of(self.files@)
    }
}

impl NoteStore {
    /// No two stored notes share a path.
    pub closed spec fn wf(self) -> bool {
        paths_unique(self.files@)
    }

    /// An empty store.
    pub fn new() -> (r: NoteStore)
        ensures
            r.wf(),
            r@ == Map::<Seq<char>, Seq<char>>::empty(),
    {
        let r = NoteStore { files: Vec::new() };
        proof {
            assert(r@ =~= Map::<Seq<char>, Seq<char>>::empty());
        }
        r
    }

    /// The index of the note at `path`, if any.
    fn index_of(&self, path: &String) -> (r: Option<usize>)
        requires
            self.wf(),
        ensures
            match r {
                Some(i) => i < self.files@.len() && self.files@[i as int].path@ == path@,
                None => !self@.contains_key(path@),
            },
    {
        let mut i: usize = 0;
        while i < self.files.len()
            invariant
                i <= self.files@.len(),
                forall|j: int| 0 <= j < i ==> #[trigger] self.files@[j].path@ != path@,
            decreases self.files@.len() - i,
        {
            if self.files[i].path == *path {
                return Some(i);
            }
            i += 1;
        }
        proof {
            assert(!has_path(self.files@, path@));
        }
        None
    }

    /// Whether a note occupies `path`.
    pub fn contains(&self, path: &String) -> (r: bool)
        requires
            self.wf(),
        ensures
            r == self@.contains_key(path@),
    {
        let idx = self.index_of(path);
        proof {
            if let Some(i) = idx {
                lemma_map_at(self.files@, i as int);
            }
        }
        idx.is_some()
    }

    /// The content of the note at `path`, if one exists.
    pub fn read(&self, path: &String) -> (r: Option<String>)
        requires
            self.wf(),
        ensures
            match r {
                Some(c) => self@.contains_key(path@) && c@ == self@[path@],
                None => !self@.contains_key(path@),
            },
    {
        match self.index_of(path) {
            Some(i) => {
                proof {
                    lemma_map_at(self.files@, i as int);
                }
                Some(self.files[i].content.clone())
            },
            None => None,
        }
    }

    /// Create an empty note at `path`. Fails with `AlreadyExists`, leaving
    /// every stored note unchanged, when a note already occupies `path`.
    pub fn create(&mut self, path: &String) -> (r: Result<(), NoteError>)
        requires
            old(self).wf(),
        ensures
            final(self).wf(),
            old(self)@.contains_key(path@) ==> r == Err::<(), NoteError>(NoteError::AlreadyExists)
                && final(self)@ == old(self)@,
            !old(self)@.contains_key(path@) ==> r == Ok::<(), NoteError>(()) && final(self)@
                == old(self)@.insert(path@, Seq::<char>::empty()),
    {
        if self.contains(path) {
            return Err(NoteError::AlreadyExists);
        }
        let f = NoteFile { path: path.clone(), content: String::new() };
        proof {
            lemma_push_map(self.files@, f);
        }
        self.files.push(f);
        Ok(())
    }

    /// Append a rendered title/body to the note at `path`. Fails with
    /// `NotFound`, leaving every stored note unchanged, when no note
    /// occupies `path`.
    pub fn write_note(&mut self, path: &String, title: Option<&String>, body: Option<&String>) -> (r:
        Result<(), NoteError>)
        requires
            old(self).wf(),
        ensures
            final(self).wf(),
            old(self)@.contains_key(path@) ==> r == Ok::<(), NoteError>(()) && final(self)@
                == old(self)@.insert(
                path@,
                old(self)@[path@] + render(opt_view(title), opt_view(body)),
            ),
            !old(self)@.contains_key(path@) ==> r == Err::<(), NoteError>(NoteError::NotFound)
                && final(self)@ == old(self)@,
    {
        let i = match self.index_of(path) {
            Some(i) => i,
            None => {
                return Err(NoteError::NotFound);
            },
        };
        proof {
            lemma_map_at(self.files@, i as int);
            lemma_remove_map(self.files@, i as int);
        }
        let ghost pre = self.files@;
        let f = self.files.remove(i);
        let addition = render_note(title, body);
        let mut content = f.content;
        content.append(addition.as_str());
        let f2 = NoteFile { path: f.path, content };
        proof {
            assert(f2.path@ == path@);
            lemma_push_map(self.files@, f2);
            assert(map_of(self.files@.push(f2)) =~= map_of(pre).insert(path@, f2.content@));
        }
        self.files.push(f2);
        Ok(())
    }

    /// Delete the note at `path`. Fails with `NotFound`, leaving every
    /// stored note unchanged, when no note occupies `path`.
    pub fn delete(&mut self, path: &String) -> (r: Result<(), NoteError>)
        requires
            old(self).wf(),
        ensures
            final(self).wf(),
            old(self)@.contains_key(path@) ==> r == Ok::<(), NoteError>(()) && final(self)@
                == old(self)@.remove(path@),
            !old(self)@.contains_key(path@) ==> r == Err::<(), NoteError>(NoteError::NotFound)
                && final(self)@ == old(self)@,
    {
        let i = match self.index_of(path) {
            Some(i) => i,
            None => {
                return Err(NoteError::NotFound);
            },
        };
        proof {
            lemma_map_at(self.files@, i as int);
            lemma_remove_map(self.files@, i as int);
        }
        let _ = self.files.remove(i);
        Ok(())
    }
}

/// The view of an optional borrowed string.
pub open spec fn opt_view(o: Option<&String>) -> Option<Seq<char>> {
    match o {
        Some(s) => Some(s@),
        None => None,
    }
}

/// The file content written for a note: a Markdown heading line when a title
/// is given, then the body on its own line when both are given. A body
/// without a title is dropped — a deliberate quirk of the format, kept as
/// such.
pub open spec fn render(title: Option<Seq<char>>, body: Option<Seq<char>>) -> Seq<char> {
    match title {
        Some(t) => "# "@ + t + "\n"@ + match body {
            Some(b) => b + "\n"@,
            None => Seq::<char>::empty(),
        },
        None => Seq::<char>::empty(),
    }
}

/// Render the content written for a note with the given title and body.
pub fn render_note(title: Option<&String>, body: Option<&String>) -> (r: String)
    ensures
        r@ == render(opt_view(title), opt_view(body)),
{
    let mut s = String::new();
    match title {
        Some(t) => {
            s.append("# ");
            s.append(t.as_str());
            s.append("\n");
            match body {
                Some(b) => {
                    s.append(b.as_str());
                    s.append("\n");
                },
                None => {},
            }
        },
        None => {},
    }
    proof {
        assert(s@ =~= render(opt_view(title), opt_view(body)));
    }
    s
}

/// Create a new note for the instant `time`: derive the storage path and
/// create an empty note there. Returns the derived path; fails with
/// `AlreadyExists`, leaving every stored note unchanged, when the same
/// minute already has a note.
pub fn new_note(store: &mut NoteStore, time: Timestamp) -> (r: Result<String, NoteError>)
    requires
        time.valid(),
        old(store).wf(),
    ensures
        final(store).wf(),
        old(store)@.contains_key(path_of(time)) ==> r == Err::<String, NoteError>(
            NoteError::AlreadyExists,
        ) && final(store)@ == old(store)@,
        !old(store)@.contains_key(path_of(time)) ==> (r matches Ok(p) && p@ == path_of(time))
            && final(store)@ == old(store)@.insert(path_of(time), Seq::<char>::empty()),
{
    let path = time.derive_path();
    match store.create(&path) {
        Ok(_) => Ok(path),
        Err(e) => Err(e),
    }
}

/// Delete the note at `loc`. Fails with `NotFound`, leaving every stored
/// note unchanged, when no note occupies `loc`.
pub fn rm_note(store: &mut NoteStore, loc: &String) -> (r: Result<(), NoteError>)
    requires
        old(store).wf(),
    ensures
        final(store).wf(),
        old(store)@.contains_key(loc@) ==> r == Ok::<(), NoteError>(())
            && final(store)@ == old(store)@.remove(loc@),
        !old(store)@.contains_key(loc@) ==> r == Err::<(), NoteError>(NoteError::NotFound)
            && final(store)@ == old(store)@,
{
    store.delete(loc)
}

/// The create decision on an observed slot: a note may be created only in
/// a free slot; an occupied one reports `AlreadyExists`, so the existing
/// note is never truncated.
pub fn create_decision(occupied: bool) -> (r: Result<(), NoteError>)
    ensures
        occupied ==> r == Err::<(), NoteError>(NoteError::AlreadyExists),
        !occupied ==> r == Ok::<(), NoteError>(()),
{
    if occupied {
        Err(NoteError::AlreadyExists)
    } else {
        Ok(())
    }
}

/// The delete decision on an observed path: only an existing note may be
/// removed; a missing one reports `NotFound`.
pub fn delete_decision(present: bool) -> (r: Result<(), NoteError>)
    ensures
        present ==> r == Ok::<(), NoteError>(()),
        !present ==> r == Err::<(), NoteError>(NoteError::NotFound),
{
    if present {
        Ok(())
    } else {
        Err(NoteError::NotFound)
    }
}

/// Body-without-title is never written: with no title the rendered content
/// is empty, whatever the body.
pub proof fn lemma_body_without_title_dropped(body: Option<Seq<char>>)
    ensures
        render(None, body) == Seq::<char>::empty(),
{
}

} // verus!
