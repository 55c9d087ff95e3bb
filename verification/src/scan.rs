//! A one-shot cache of a directory's immediate entries, and detection
//! requests evaluated against it.
//!
//! The cache is built once from a plain listing (file names and folder
//! names); every query afterwards is pure. A detection request accumulates
//! three match-sets — exact file names, file extensions, folder names — and
//! matches when any configured set shares an element with the cache.

use vstd::prelude::*;

verus! {

/// The index of the last `.` in `name`, or `-1` if there is none.
pub open spec fn last_dot(name: Seq<char>) -> int
    decreases name.len(),
{
    if name.len() == 0 {
        -1
    } else if name[name.len() - 1] == '.' {
        name.len() - 1
    } else {
        last_dot(name.drop_last())
    }
}

/// The extension of a file name: the text after the last `.`, provided that
/// dot is neither the first nor the last character. So `index.js` has
/// extension `js`, while `.nvmrc` and `trailing.` have none.
pub open spec fn ext_of(name: Seq<char>) -> Option<Seq<char>> {
    let j = last_dot(name);
    if 1 <= j && j < name.len() - 1 {
        Some(name.subrange(j + 1, name.len() as int))
    } else {
        None
    }
}

/// The extensions of a list of file names, in order, names without an
/// extension contributing nothing.
pub open spec fn exts_of(names: Seq<Seq<char>>) -> Seq<Seq<char>>
    decreases names.len(),
{
    if names.len() == 0 {
        Seq::empty()
    } else {
        exts_of(names.drop_last()) + match ext_of(names.last()) {
            Some(e) => seq![e],
            None => Seq::empty(),
        }
    }
}

/// Do the two name lists share at least one element?
pub open spec fn intersects(a: Seq<Seq<char>>, b: Seq<Seq<char>>) -> bool {
    exists|i: int| 0 <= i < a.len() && b.contains(a[i])
}

/// The views of a list of strings.
pub open spec fn names_view(v: Seq<String>) -> Seq<Seq<char>> {
    v.map_values(|s: String| s@)
}

/// A point-in-time enumeration of one directory, read-only once built.
pub struct ScanCache {
    files: Vec<String>,
    folders: Vec<String>,
    extensions: Vec<String>,
}

impl ScanCache {
    /// The file names the cache holds.
    pub closed spec fn files_view(self) -> Seq<Seq<char>> {
        names_view(self.files@)
    }

    /// The folder names the cache holds.
    pub closed spec fn folders_view(self) -> Seq<Seq<char>> {
        names_view(self.folders@)
    }

    /// The extensions of the cached file names.
    pub closed spec fn extensions_view(self) -> Seq<Seq<char>> {
        names_view(self.extensions@)
    }

    /// Every cache holds exactly the extensions of its file names.
    pub open spec fn wf(self) -> bool {
        self.extensions_view() == exts_of(self.files_view())
    }

    /// Builds the cache from a directory listing: the names of the plain
    /// files and the names of the folders among its immediate entries.
    /// The extension index is computed here, once.
    pub fn new(files: Vec<String>, folders: Vec<String>) -> (r: ScanCache)
        ensures
            r.wf(),
            r.files_view() == names_view(files@),
            r.folders_view() == names_view(folders@),
    {
        let mut extensions: Vec<String> = Vec::new();
        let mut i: usize = 0;
        while i < files.len()
            invariant
                i <= files.len(),
                names_view(extensions@) == exts_of(names_view(files@).subrange(0, i as int)),
            decreases files.len() - i,
        {
            let ghost prefix = names_view(files@).subrange(0, i as int);
            match extension_of(&files[i]) {
                Some(e) => {
                    extensions.push(e);
                },
                None => {},
            }
            proof {
                let longer = names_view(files@).subrange(0, i + 1);
                assert(longer.drop_last() =~= prefix);
                assert(longer.last() == files@[i as int]@);
                assert(names_view(extensions@) =~= exts_of(longer));
            }
            i += 1;
        }
        proof {
            assert(names_view(files@).subrange(0, files@.len() as int) =~= names_view(files@));
        }
        ScanCache { files, folders, extensions }
    }

    /// Answers a detection request from the cache alone: true exactly when
    /// one of the request's sets shares a name with the matching index.
    pub fn query(&self, request: &DetectionRequest) -> (r: bool)
        ensures
            r == request.matches(*self),
    {
        let a = any_common(&request.files, &self.files);
        let b = any_common(&request.extensions, &self.extensions);
        let c = any_common(&request.folders, &self.folders);
        a || b || c
    }
}

/// A description of which filesystem markers make a module applicable:
/// match if any listed file name, extension or folder name is present.
/// A request with nothing configured matches nothing.
pub struct DetectionRequest {
    files: Vec<String>,
    extensions: Vec<String>,
    folders: Vec<String>,
}

impl DetectionRequest {
    /// The file names the request looks for.
    pub closed spec fn files_view(self) -> Seq<Seq<char>> {
        names_view(self.files@)
    }

    /// The extensions the request looks for.
    pub closed spec fn extensions_view(self) -> Seq<Seq<char>> {
        names_view(self.extensions@)
    }

    /// The folder names the request looks for.
    pub closed spec fn folders_view(self) -> Seq<Seq<char>> {
        names_view(self.folders@)
    }

    /// What it means for the request to match a cache: some configured
    /// name is present in the corresponding index — a logical OR across
    /// and within the three categories.
    pub open spec fn matches(self, cache: ScanCache) -> bool {
        ||| intersects(self.files_view(), cache.files_view())
        ||| intersects(self.extensions_view(), cache.extensions_view())
        ||| intersects(self.folders_view(), cache.folders_view())
    }

    /// An empty request; it matches no directory.
    pub fn new() -> (r: DetectionRequest)
        ensures
            r.files_view() == Seq::<Seq<char>>::empty(),
            r.extensions_view() == Seq::<Seq<char>>::empty(),
            r.folders_view() == Seq::<Seq<char>>::empty(),
    {
        proof {
            assert(names_view(Seq::<String>::empty()) =~= Seq::<Seq<char>>::empty());
        }
        DetectionRequest { files: Vec::new(), extensions: Vec::new(), folders: Vec::new() }
    }

    /// Adds file names to look for.
    pub fn with_files(self, names: Vec<String>) -> (r: DetectionRequest)
        ensures
            r.files_view() == self.files_view() + names_view(names@),
            r.extensions_view() == self.extensions_view(),
            r.folders_view() == self.folders_view(),
    {
        let mut files = self.files;
        append_all(&mut files, &names);
        DetectionRequest { files, extensions: self.extensions, folders: self.folders }
    }

    /// Adds extensions to look for.
    pub fn with_extensions(self, names: Vec<String>) -> (r: DetectionRequest)
        ensures
            r.extensions_view() == self.extensions_view() + names_view(names@),
            r.files_view() == self.files_view(),
            r.folders_view() == self.folders_view(),
    {
        let mut extensions = self.extensions;
        append_all(&mut extensions, &names);
        DetectionRequest { files: self.files, extensions, folders: self.folders }
    }

    /// Adds folder names to look for.
    pub fn with_folders(self, names: Vec<String>) -> (r: DetectionRequest)
        ensures
            r.folders_view() == self.folders_view() + names_view(names@),
            r.files_view() == self.files_view(),
            r.extensions_view() == self.extensions_view(),
    {
        let mut folders = self.folders;
        append_all(&mut folders, &names);
        DetectionRequest { files: self.files, extensions: self.extensions, folders }
    }

    /// Delegates to the cache's query.
    pub fn is_match(&self, cache: &ScanCache) -> (r: bool)
        ensures
            r == self.matches(*cache),
    {
        cache.query(self)
    }
}

/// Appending one string to a list appends its view to the list's views.
proof fn lemma_names_view_push(s: Seq<String>, x: String)
    ensures
        names_view(s.push(x)) =~= names_view(s).push(x@),
{
}

/// Copies every element of `extra` onto the end of `v`.
fn append_all(v: &mut Vec<String>, extra: &Vec<String>)
    ensures
        names_view(final(v)@) == names_view(old(v)@) + names_view(extra@),
{
    let ghost orig = old(v)@;
    let n = extra.len();
    let mut i: usize = 0;
    while i < n
        invariant
            n == extra@.len(),
            i <= n,
            names_view(v@) == names_view(orig) + names_view(extra@.subrange(0, i as int)),
        decreases n - i,
    {
        let ghost vb = v@;
        let c = extra[i].clone();
        let ghost cv = c@;
        v.push(c);
        proof {
            assert(v@ == vb.push(v@.last()));
            assert(v@.last()@ == cv);
            lemma_names_view_push(vb, v@.last());
            assert(extra@.subrange(0, i + 1) =~= extra@.subrange(0, i as int).push(
                extra@[i as int],
            ));
            lemma_names_view_push(extra@.subrange(0, i as int), extra@[i as int]);
            assert(names_view(v@) =~= names_view(orig) + names_view(extra@.subrange(0, i + 1)));
        }
        i += 1;
    }
    proof {
        assert(extra@.subrange(0, n as int) =~= extra@);
    }
}

/// A copy of a name list, name for name.
pub fn clone_names(v: &Vec<String>) -> (r: Vec<String>)
    ensures
        names_view(r@) == names_view(v@),
{
    let mut out: Vec<String> = Vec::new();
    append_all(&mut out, v);
    proof {
        assert(names_view(Seq::<String>::empty()) =~= Seq::<Seq<char>>::empty());
        assert(names_view(out@) =~= names_view(v@));
    }
    out
}

/// True exactly when some string of `needles` occurs in `hay`.
fn any_common(needles: &Vec<String>, hay: &Vec<String>) -> (r: bool)
    ensures
        r == intersects(names_view(needles@), names_view(hay@)),
{
    let mut i: usize = 0;
    while i < needles.len()
        invariant
            i <= needles.len(),
            forall|k: int|
                0 <= k < i ==> !names_view(hay@).contains(names_view(needles@)[k]),
        decreases needles.len() - i,
    {
        if contains_string(hay, &needles[i]) {
            proof {
                assert(names_view(needles@)[i as int] == needles@[i as int]@);
            }
            return true;
        }
        i += 1;
    }
    false
}

/// True exactly when `needle` occurs in `hay`.
fn contains_string(hay: &Vec<String>, needle: &String) -> (r: bool)
    ensures
        r == names_view(hay@).contains(needle@),
{
    let mut i: usize = 0;
    while i < hay.len()
        invariant
            i <= hay.len(),
            forall|k: int| 0 <= k < i ==> names_view(hay@)[k] != needle@,
        decreases hay.len() - i,
    {
        if hay[i].eq(needle) {
            proof {
                assert(names_view(hay@)[i as int] == needle@);
            }
            return true;
        }
        i += 1;
    }
    false
}

/// The extension of `name`, as [`ext_of`] gives it.
pub fn extension_of(name: &String) -> (r: Option<String>)
    ensures
        match r {
            Some(e) => ext_of(name@) == Some(e@),
            None => ext_of(name@) is None,
        },
{
    let s = name.as_str();
    let n = s.unicode_len();
    let mut j: usize = n;
    while j > 0 && s.get_char(j - 1) != '.'
        invariant
            j <= n,
            n == s@.len(),
            last_dot(s@.subrange(0, n as int)) == last_dot(s@.subrange(0, j as int)),
        decreases j,
    {
        proof {
            assert(s@.subrange(0, j as int).drop_last() =~= s@.subrange(0, j - 1));
        }
        j -= 1;
    }
    proof {
        assert(s@.subrange(0, n as int) =~= s@);
        if j == 0 {
            assert(s@.subrange(0, 0) =~= Seq::<char>::empty());
        }
    }
    if j >= 2 && j < n {
        let e = s.substring_char(j, n).to_owned();
        proof {
            assert(last_dot(s@) == j - 1);
        }
        Some(e)
    } else {
        proof {
            if j == 0 {
                assert(last_dot(s@) == -1);
            } else {
                assert(last_dot(s@) == j - 1);
            }
        }
        None
    }
}

} // verus!
