//! Include paths: directories to look for files in.
//!
//! Known directories are searched directly; unknown ones are directory names
//! to be discovered on disk. Paths are strings; whether a file exists is read
//! by the caller and handed in.

use vstd::prelude::*;

verus! {

/// `file` joined to `dir` as `Path::join` does on Unix: an absolute `file`
/// replaces `dir`; otherwise a `/` is put between them where `dir` is not
/// empty and does not already end with one.
pub open spec fn path_join(dir: Seq<char>, file: Seq<char>) -> Seq<char> {
    if file.len() > 0 && file[0] == '/' {
        file
    } else if dir.len() > 0 && dir.last() != '/' {
        dir + seq!['/'] + file
    } else {
        dir + file
    }
}

/// Relies on `std::path::Path::join` (Unix): see `path_join`.
#[verifier::external_body]
fn join(dir: &str, file: &str) -> (r: String)
    ensures
        r@ == path_join(dir@, file@),
{
    std::path::Path::new(dir).join(file).to_string_lossy().into_owned()
}

/// The directories to search.
#[derive(Debug, Clone)]
pub struct IncludePaths {
    known_paths: Vec<String>,
    unknown_paths: Vec<String>,
}

/// Builds `IncludePaths` one directory at a time.
pub struct IncludePathsBuilder {
    paths: IncludePaths,
}

/// The views of a sequence of strings.
pub open spec fn strings_view(s: Seq<String>) -> Seq<Seq<char>> {
    s.map_values(|x: String| x@)
}

/// What a search in the known directories leads to.
#[derive(Debug, Clone)]
pub enum SeekStep {
    /// The file is at this path.
    Found(String),
    /// Not in a known directory: the unknown ones are to be searched next.
    SearchUnknown,
}

impl IncludePaths {
    /// The known directories, in order.
    pub closed spec fn known(&self) -> Seq<Seq<char>> {
        strings_view(self.known_paths@)
    }

    /// The names of unknown directories, in order.
    pub closed spec fn unknown(&self) -> Seq<Seq<char>> {
        strings_view(self.unknown_paths@)
    }

    pub fn known_paths(&self) -> (r: &Vec<String>)
        ensures
            strings_view(r@) == self.known(),
    {
        &self.known_paths
    }

    pub fn unknown_paths(&self) -> (r: &Vec<String>)
        ensures
            strings_view(r@) == self.unknown(),
    {
        &self.unknown_paths
    }

    /// The path of `file` in each known directory, in order.
    pub fn known_candidates(&self, file: &str) -> (r: Vec<String>)
        ensures
            strings_view(r@) == self.known().map_values(|d: Seq<char>| path_join(d, file@)),
    {
        let ghost k = self.known();
        let mut out: Vec<String> = Vec::new();
        let mut i: usize = 0;
        while i < self.known_paths.len()
            invariant
                k == self.known(),
                k.len() == self.known_paths@.len(),
                i <= k.len(),
                strings_view(out@) == k.subrange(0, i as int).map_values(
                    |d: Seq<char>| path_join(d, file@),
                ),
            decreases k.len() - i,
        {
            let p = join(self.known_paths[i].as_str(), file);
            let ghost before = strings_view(out@);
            out.push(p);
            assert(strings_view(out@) =~= before.push(p@));
            i = i + 1;
            assert(k.subrange(0, i as int).map_values(|d: Seq<char>| path_join(d, file@))
                =~= k.subrange(0, i - 1).map_values(|d: Seq<char>| path_join(d, file@)).push(
                path_join(k[i - 1], file@),
            ));
        }
        assert(k.subrange(0, k.len() as int) =~= k);
        out
    }

    /// The first known-directory path of `file` that exists; `exists[i]` says
    /// whether the path in the `i`-th known directory does.
    pub fn seek_in_known(&self, file: &str, exists: &Vec<bool>) -> (r: Option<String>)
        requires
            exists@.len() == self.known().len(),
        ensures
            match r {
                Some(p) => exists|i: int|
                    0 <= i < exists@.len() && exists@[i] && (forall|j: int|
                        0 <= j < i ==> !#[trigger] exists@[j]) && p@ == path_join(
                        self.known()[i],
                        file@,
                    ),
                None => forall|i: int| 0 <= i < exists@.len() ==> !#[trigger] exists@[i],
            },
    {
        let ghost k = self.known();
        let mut i: usize = 0;
        while i < exists.len()
            invariant
                k == self.known(),
                k.len() == self.known_paths@.len(),
                exists@.len() == k.len(),
                i <= k.len(),
                forall|j: int| 0 <= j < i ==> !#[trigger] exists@[j],
            decreases k.len() - i,
        {
            if exists[i] {
                let p = join(self.known_paths[i].as_str(), file);
                return Some(p);
            }
            i = i + 1;
        }
        None
    }

    /// Searches the known directories first: the found path, or the step to
    /// search the unknown ones.
    pub fn seek(&self, file: &str, exists: &Vec<bool>) -> (r: SeekStep)
        requires
            exists@.len() == self.known().len(),
        ensures
            match r {
                SeekStep::Found(p) => exists|i: int|
                    0 <= i < exists@.len() && exists@[i] && (forall|j: int|
                        0 <= j < i ==> !#[trigger] exists@[j]) && p@ == path_join(
                        self.known()[i],
                        file@,
                    ),
                SeekStep::SearchUnknown => forall|i: int|
                    0 <= i < exists@.len() ==> !#[trigger] exists@[i],
            },
    {
        match self.seek_in_known(file, exists) {
            Some(p) => SeekStep::Found(p),
            None => SeekStep::SearchUnknown,
        }
    }

    /// The glob pattern that matches `pattern` at any depth under each known
    /// directory: `dir/**/pattern`.
    pub fn glob_patterns(&self, pattern: &str) -> (r: Vec<String>)
        ensures
            strings_view(r@) == self.known().map_values(
                |d: Seq<char>| path_join(path_join(d, seq!['*', '*', '/']), pattern@),
            ),
    {
        let ghost k = self.known();
        let ghost f = |d: Seq<char>| path_join(path_join(d, seq!['*', '*', '/']), pattern@);
        let mut out: Vec<String> = Vec::new();
        let mut i: usize = 0;
        while i < self.known_paths.len()
            invariant
                k == self.known(),
                f == (|d: Seq<char>| path_join(path_join(d, seq!['*', '*', '/']), pattern@)),
                k.len() == self.known_paths@.len(),
                i <= k.len(),
                strings_view(out@) == k.subrange(0, i as int).map_values(f),
            decreases k.len() - i,
        {
            let deep = String::from_str("**/");
            proof {
                reveal_strlit("**/");
                assert(deep@ =~= seq!['*', '*', '/']);
            }
            let d = join(self.known_paths[i].as_str(), deep.as_str());
            let p = join(d.as_str(), pattern);
            let ghost before = strings_view(out@);
            out.push(p);
            assert(strings_view(out@) =~= before.push(p@));
            i = i + 1;
            assert(k.subrange(0, i as int).map_values(f) =~= k.subrange(0, i - 1).map_values(
                f,
            ).push(f(k[i - 1])));
        }
        assert(k.subrange(0, k.len() as int) =~= k);
        out
    }

    /// The files found under the known directories, where there are any;
    /// `None` says that the unknown directories are to be searched instead.
    pub fn search_glob(&self, known_matches: Vec<String>) -> (r: Option<Vec<String>>)
        ensures
            known_matches@.len() > 0 ==> r == Some(known_matches),
            known_matches@.len() == 0 ==> r is None,
    {
        if known_matches.len() > 0 {
            Some(known_matches)
        } else {
            None
        }
    }
}

impl Default for IncludePathsBuilder {
    fn default() -> (r: IncludePathsBuilder)
        ensures
            r.known().len() == 0,
            r.unknown().len() == 0,
    {
        IncludePathsBuilder::new()
    }
}

impl IncludePathsBuilder {
    pub closed spec fn known(&self) -> Seq<Seq<char>> {
        self.paths.known()
    }

    pub closed spec fn unknown(&self) -> Seq<Seq<char>> {
        self.paths.unknown()
    }

    /// A builder with no directories.
    pub fn new() -> (r: IncludePathsBuilder)
        ensures
            r.known().len() == 0,
            r.unknown().len() == 0,
    {
        let r = IncludePathsBuilder {
            paths: IncludePaths { known_paths: Vec::new(), unknown_paths: Vec::new() },
        };
        assert(r.known() =~= Seq::<Seq<char>>::empty());
        assert(r.unknown() =~= Seq::<Seq<char>>::empty());
        r
    }

    /// Adds a directory whose path is known (absolute where it starts with
    /// `/`, else relative to the working directory).
    pub fn include_known(&mut self, path: &str) -> (r: &mut IncludePathsBuilder)
        ensures
            r.known() == old(self).known().push(path@),
            r.unknown() == old(self).unknown(),
            *final(self) == *final(r),
    {
        let ghost k = self.known();
        self.paths.known_paths.push(String::from_str(path));
        assert(self.known() =~= k.push(path@));
        self
    }

    /// Adds the name of a directory to be discovered on disk.
    pub fn include_unknown(&mut self, path: &str) -> (r: &mut IncludePathsBuilder)
        ensures
            r.known() == old(self).known(),
            r.unknown() == old(self).unknown().push(path@),
            *final(self) == *final(r),
    {
        let ghost u = self.unknown();
        self.paths.unknown_paths.push(String::from_str(path));
        assert(self.unknown() =~= u.push(path@));
        self
    }

    /// The include paths built so far.
    pub fn build(&mut self) -> (r: IncludePaths)
        ensures
            r.known() == old(self).known(),
            r.unknown() == old(self).unknown(),
            *final(self) == *old(self),
    {
        IncludePaths {
            known_paths: clone_strings(&self.paths.known_paths),
            unknown_paths: clone_strings(&self.paths.unknown_paths),
        }
    }
}

fn clone_strings(v: &Vec<String>) -> (r: Vec<String>)
    ensures
        strings_view(r@) == strings_view(v@),
{
    let mut out: Vec<String> = Vec::new();
    let mut i: usize = 0;
    while i < v.len()
        invariant
            i <= v@.len(),
            strings_view(out@) == strings_view(v@).subrange(0, i as int),
        decreases v@.len() - i,
    {
        let ghost before = strings_view(out@);
        out.push(v[i].clone());
        assert(strings_view(out@) =~= before.push(v@[i as int]@));
        i = i + 1;
        assert(strings_view(v@).subrange(0, i as int) =~= strings_view(v@).subrange(0, i - 1).push(
            v@[i - 1]@,
        ));
    }
    assert(strings_view(v@).subrange(0, v@.len() as int) =~= strings_view(v@));
    out
}

/// A directory entry name that does not start with a dot.
pub fn is_not_hidden(name: &str) -> (r: bool)
    ensures
        r == !(name@.len() > 0 && name@[0] == '.'),
{
    if name.unicode_len() == 0 {
        true
    } else {
        name.get_char(0) != '.'
    }
}

} // verus!
