//! The module registry: classification of candidate module files found on a
//! filesystem path.  A candidate is a regular file (symbolic links already
//! resolved by the caller); a `.jar` target is a JVM archive, anything else a
//! native binary.  Entries are deduplicated by resolved path.  A missing or
//! unreadable directory simply yields no entries.

use vstd::prelude::*;

use crate::strutil::string_chars;

verus! {

/// How an external module is invoked: directly as a native executable, or
/// through a JVM as a `.jar` archive.
#[derive(Clone, Copy, PartialEq, Eq, Structural, Debug, Hash)]
pub enum ExternalModuleType {
    StaticBinary,
    JarFile,
}

/// What the caller saw of one directory entry: the entry's own path, whether
/// it is a regular file (after following links), and the link target when
/// the entry is a symbolic link.
pub struct FileSystemEntry {
    pub path: String,
    pub is_file: bool,
    pub link_target: Option<String>,
}

/// The path a directory entry resolves to: its link target if it is a
/// symbolic link, else its own path.
pub open spec fn resolved_path(e: FileSystemEntry) -> Seq<char> {
    match e.link_target {
        Some(t) => t@,
        None => e.path@,
    }
}

/// An identification module discovered on disk: where the run lives, the
/// resolved path of its executable, and how to invoke it.
pub struct ExternalIdentificationModule {
    pub run_path_: String,
    pub command_path_: String,
    pub module_type: ExternalModuleType,
}

/// An exploration module discovered on disk: where the run lives, the
/// resolved path of its executable, and how to invoke it.
pub struct ExternalExplorationModule {
    pub run_path_: String,
    pub command_path_: String,
    pub module_type: ExternalModuleType,
}

impl ExternalIdentificationModule {
    /// The module's stable identifier: its resolved executable path.
    pub fn unique_identifier(&self) -> (r: String)
        ensures
            r@ == self.command_path_@,
    {
        self.command_path_.clone()
    }

    /// The run directory this module was registered for.
    pub fn run_path(&self) -> (r: &String)
        ensures
            r@ == self.run_path_@,
    {
        &self.run_path_
    }
}

impl ExternalExplorationModule {
    /// The module's stable identifier: its resolved executable path.
    pub fn unique_identifier(&self) -> (r: String)
        ensures
            r@ == self.command_path_@,
    {
        self.command_path_.clone()
    }

    /// The run directory this module was registered for.
    pub fn run_path(&self) -> (r: &String)
        ensures
            r@ == self.run_path_@,
    {
        &self.run_path_
    }
}

// ---------------------------------------------------------------------------
// Classification by file name extension.
// ---------------------------------------------------------------------------

/// The part of a path after its last separator.
pub open spec fn file_name_of(p: Seq<char>) -> Seq<char>
    decreases p.len(),
{
    if p.len() == 0 {
        p
    } else if p.last() == '/' {
        Seq::empty()
    } else {
        file_name_of(p.drop_last()).push(p.last())
    }
}

/// Whether the file name of `p` has the extension `jar`: the name ends in
/// `.jar` and has a nonempty stem before the dot.
pub open spec fn has_jar_extension(p: Seq<char>) -> bool {
    let n = file_name_of(p);
    n.len() >= 5 && n.subrange(n.len() - 4, n.len() as int) == seq!['.', 'j', 'a', 'r']
}

/// The file name of `p` is its suffix from any position `k` that sits right
/// after a separator and has no separator after it.
proof fn lemma_file_name_is_suffix(p: Seq<char>, k: int)
    requires
        0 <= k <= p.len(),
        k == 0 || p[k - 1] == '/',
        forall|j: int| k <= j < p.len() ==> p[j] != '/',
    ensures
        file_name_of(p) == p.subrange(k, p.len() as int),
    decreases p.len(),
{
    if k == p.len() {
        if p.len() == 0 {
            assert(file_name_of(p) =~= p.subrange(k, p.len() as int));
        } else {
            assert(p.last() == '/');
            assert(file_name_of(p) =~= p.subrange(k, p.len() as int));
        }
    } else {
        assert(p.last() != '/');
        lemma_file_name_is_suffix(p.drop_last(), k);
        assert(p.drop_last().subrange(k, p.drop_last().len() as int).push(p.last()) =~= p.subrange(
            k,
            p.len() as int,
        ));
    }
}

/// Whether the path held by `p` names a `.jar` file.
pub fn chars_have_jar_extension(p: &Vec<char>) -> (r: bool)
    ensures
        r == has_jar_extension(p@),
{
    let len = p.len();
    let mut k: usize = 0;
    let mut i: usize = 0;
    while i < len
        invariant
            0 <= k <= i <= len,
            len == p@.len(),
            k == 0 || p@[k - 1] == '/',
            forall|j: int| k <= j < i ==> p@[j] != '/',
        decreases len - i,
    {
        if p[i] == '/' {
            k = i + 1;
        }
        i += 1;
    }
    proof {
        lemma_file_name_is_suffix(p@, k as int);
    }
    let ghost name = file_name_of(p@);
    if len < 5 || len - k < 5 {
        assert(name.len() < 5);
        return false;
    }
    let r = p[len - 4] == '.' && p[len - 3] == 'j' && p[len - 2] == 'a' && p[len - 1] == 'r';
    proof {
        assert(name.len() >= 5);
        if r {
            assert(name.subrange(name.len() - 4, name.len() as int) =~= seq!['.', 'j', 'a', 'r']);
        } else {
            if name.subrange(name.len() - 4, name.len() as int) == seq!['.', 'j', 'a', 'r'] {
                assert(name[name.len() - 4] == '.' && name[name.len() - 3] == 'j' && name[name.len()
                    - 2] == 'a' && name[name.len() - 1] == 'r');
                assert(false);
            }
        }
    }
    r
}

// ---------------------------------------------------------------------------
// Registry construction.
// ---------------------------------------------------------------------------

/// One classified module candidate: a resolved executable path and its
/// invocation kind.
pub struct ClassifiedModule {
    pub command_path: String,
    pub module_type: ExternalModuleType,
}

/// Whether `v` already holds a module with the given resolved path.
fn contains_command_path(v: &Vec<ClassifiedModule>, p: &String) -> (r: bool)
    ensures
        r == (exists|k: int| 0 <= k < v@.len() && (#[trigger] v@[k]).command_path@ == p@),
{
    let mut i: usize = 0;
    while i < v.len()
        invariant
            i <= v.len(),
            forall|k: int| 0 <= k < i ==> (#[trigger] v@[k]).command_path@ != p@,
        decreases v.len() - i,
    {
        if v[i].command_path.eq(p) {
            return true;
        }
        i += 1;
    }
    false
}

/// Classify the regular files among the given directory entries as module
/// candidates: resolve each entry, tag `.jar` targets as JVM archives and
/// everything else as native binaries, and keep one candidate per resolved
/// path.
pub fn classify_module_entries(entries: &Vec<FileSystemEntry>) -> (r: Vec<ClassifiedModule>)
    ensures
        forall|k: int|
            0 <= k < r@.len() ==> ((#[trigger] r@[k]).module_type == ExternalModuleType::JarFile)
                == has_jar_extension(r@[k].command_path@),
        forall|k: int|
            0 <= k < r@.len() ==> exists|i: int|
                0 <= i < entries@.len() && (#[trigger] entries@[i]).is_file && resolved_path(
                    entries@[i],
                ) == (#[trigger] r@[k]).command_path@,
        forall|i: int|
            0 <= i < entries@.len() && (#[trigger] entries@[i]).is_file ==> exists|k: int|
                0 <= k < r@.len() && (#[trigger] r@[k]).command_path@ == resolved_path(
                    entries@[i],
                ),
        forall|k: int, l: int|
            0 <= k < l < r@.len() ==> (#[trigger] r@[k]).command_path@ != (
            #[trigger] r@[l]).command_path@,
{
    let mut r: Vec<ClassifiedModule> = Vec::new();
    let mut i: usize = 0;
    while i < entries.len()
        invariant
            i <= entries.len(),
            forall|k: int|
                0 <= k < r@.len() ==> ((#[trigger] r@[k]).module_type
                    == ExternalModuleType::JarFile) == has_jar_extension(r@[k].command_path@),
            forall|k: int|
                0 <= k < r@.len() ==> exists|j: int|
                    0 <= j < i && (#[trigger] entries@[j]).is_file && resolved_path(entries@[j])
                        == (#[trigger] r@[k]).command_path@,
            forall|j: int|
                0 <= j < i && (#[trigger] entries@[j]).is_file ==> exists|k: int|
                    0 <= k < r@.len() && (#[trigger] r@[k]).command_path@ == resolved_path(
                        entries@[j],
                    ),
            forall|k: int, l: int|
                0 <= k < l < r@.len() ==> (#[trigger] r@[k]).command_path@ != (
                #[trigger] r@[l]).command_path@,
        decreases entries.len() - i,
    {
        if entries[i].is_file {
            let resolved: String = match &entries[i].link_target {
                Some(t) => t.clone(),
                None => entries[i].path.clone(),
            };
            assert(resolved@ == resolved_path(entries@[i as int]));
            let present = contains_command_path(&r, &resolved);
            if !present {
                let chars = string_chars(&resolved);
                let is_jar = chars_have_jar_extension(&chars);
                let module_type = if is_jar {
                    ExternalModuleType::JarFile
                } else {
                    ExternalModuleType::StaticBinary
                };
                let ghost r_before = r@;
                r.push(ClassifiedModule { command_path: resolved, module_type });
                proof {
                    let n = r@.len() - 1;
                    assert(r@[n].command_path@ == resolved_path(entries@[i as int]));
                    assert forall|j: int|
                        0 <= j < i + 1 && (#[trigger] entries@[j]).is_file implies exists|k: int|
                        0 <= k < r@.len() && (#[trigger] r@[k]).command_path@ == resolved_path(
                            entries@[j],
                        ) by {
                        if j < i {
                            let k = choose|k: int|
                                0 <= k < r_before.len() && (#[trigger] r_before[k]).command_path@
                                    == resolved_path(entries@[j]);
                            assert(r@[k].command_path@ == resolved_path(entries@[j]));
                        } else {
                            assert(r@[n].command_path@ == resolved_path(entries@[j]));
                        }
                    }
                }
            } else {
                proof {
                    assert forall|j: int|
                        0 <= j < i + 1 && (#[trigger] entries@[j]).is_file implies exists|k: int|
                        0 <= k < r@.len() && (#[trigger] r@[k]).command_path@ == resolved_path(
                            entries@[j],
                        ) by {
                        if j == i {
                            let k = choose|k: int|
                                0 <= k < r@.len() && (#[trigger] r@[k]).command_path@ == resolved@;
                            assert(r@[k].command_path@ == resolved_path(entries@[j]));
                        }
                    }
                }
            }
        }
        i += 1;
    }
    r
}

/// Build the identification module registry for a run: one entry per
/// distinct resolved executable among the regular files handed in.
pub fn find_identification_modules(entries: &Vec<FileSystemEntry>, run_path: &String) -> (r: Vec<
    ExternalIdentificationModule,
>)
    ensures
        forall|k: int| 0 <= k < r@.len() ==> (#[trigger] r@[k]).run_path_@ == run_path@,
        forall|k: int|
            0 <= k < r@.len() ==> ((#[trigger] r@[k]).module_type == ExternalModuleType::JarFile)
                == has_jar_extension(r@[k].command_path_@),
        forall|k: int|
            0 <= k < r@.len() ==> exists|i: int|
                0 <= i < entries@.len() && (#[trigger] entries@[i]).is_file && resolved_path(
                    entries@[i],
                ) == (#[trigger] r@[k]).command_path_@,
        forall|i: int|
            0 <= i < entries@.len() && (#[trigger] entries@[i]).is_file ==> exists|k: int|
                0 <= k < r@.len() && (#[trigger] r@[k]).command_path_@ == resolved_path(
                    entries@[i],
                ),
        forall|k: int, l: int|
            0 <= k < l < r@.len() ==> (#[trigger] r@[k]).command_path_@ != (
            #[trigger] r@[l]).command_path_@,
{
    let classified = classify_module_entries(entries);
    let mut r: Vec<ExternalIdentificationModule> = Vec::new();
    let mut i: usize = 0;
    while i < classified.len()
        invariant
            i <= classified.len(),
            r@.len() == i,
            forall|k: int|
                0 <= k < i ==> (#[trigger] r@[k]).command_path_@ == classified@[k].command_path@
                    && r@[k].module_type == classified@[k].module_type && r@[k].run_path_@
                    == run_path@,
        decreases classified.len() - i,
    {
        r.push(
            ExternalIdentificationModule {
                run_path_: run_path.clone(),
                command_path_: classified[i].command_path.clone(),
                module_type: classified[i].module_type,
            },
        );
        i += 1;
    }
    proof {
        assert forall|j: int|
            0 <= j < entries@.len() && (#[trigger] entries@[j]).is_file implies exists|k: int|
            0 <= k < r@.len() && (#[trigger] r@[k]).command_path_@ == resolved_path(
                entries@[j],
            ) by {
            let k = choose|k: int|
                0 <= k < classified@.len() && (#[trigger] classified@[k]).command_path@
                    == resolved_path(entries@[j]);
            assert(r@[k].command_path_@ == resolved_path(entries@[j]));
        }
    }
    r
}

/// Build the exploration module registry for a run: one entry per distinct
/// resolved executable among the regular files handed in.
pub fn find_exploration_modules(entries: &Vec<FileSystemEntry>, run_path: &String) -> (r: Vec<
    ExternalExplorationModule,
>)
    ensures
        forall|k: int| 0 <= k < r@.len() ==> (#[trigger] r@[k]).run_path_@ == run_path@,
        forall|k: int|
            0 <= k < r@.len() ==> ((#[trigger] r@[k]).module_type == ExternalModuleType::JarFile)
                == has_jar_extension(r@[k].command_path_@),
        forall|k: int|
            0 <= k < r@.len() ==> exists|i: int|
                0 <= i < entries@.len() && (#[trigger] entries@[i]).is_file && resolved_path(
                    entries@[i],
                ) == (#[trigger] r@[k]).command_path_@,
        forall|i: int|
            0 <= i < entries@.len() && (#[trigger] entries@[i]).is_file ==> exists|k: int|
                0 <= k < r@.len() && (#[trigger] r@[k]).command_path_@ == resolved_path(
                    entries@[i],
                ),
        forall|k: int, l: int|
            0 <= k < l < r@.len() ==> (#[trigger] r@[k]).command_path_@ != (
            #[trigger] r@[l]).command_path_@,
{
    let classified = classify_module_entries(entries);
    let mut r: Vec<ExternalExplorationModule> = Vec::new();
    let mut i: usize = 0;
    while i < classified.len()
        invariant
            i <= classified.len(),
            r@.len() == i,
            forall|k: int|
                0 <= k < i ==> (#[trigger] r@[k]).command_path_@ == classified@[k].command_path@
                    && r@[k].module_type == classified@[k].module_type && r@[k].run_path_@
                    == run_path@,
        decreases classified.len() - i,
    {
        r.push(
            ExternalExplorationModule {
                run_path_: run_path.clone(),
                command_path_: classified[i].command_path.clone(),
                module_type: classified[i].module_type,
            },
        );
        i += 1;
    }
    proof {
        assert forall|j: int|
            0 <= j < entries@.len() && (#[trigger] entries@[j]).is_file implies exists|k: int|
            0 <= k < r@.len() && (#[trigger] r@[k]).command_path_@ == resolved_path(
                entries@[j],
            ) by {
            let k = choose|k: int|
                0 <= k < classified@.len() && (#[trigger] classified@[k]).command_path@
                    == resolved_path(entries@[j]);
            assert(r@[k].command_path_@ == resolved_path(entries@[j]));
        }
    }
    r
}

} // verus!
