//! The decisions behind syncing the vendored protocol definitions: where the API
//! checkout comes from, which locked modules are exported and where, and which
//! files are copied.
use vstd::prelude::*;
use crate::text::{chars_equal, chars_of, push_all, push_char, str_equal};

verus! {

/// A path separator that must not appear in a directory name: `/` or `\`.
pub open spec fn is_path_separator(c: char) -> bool {
    c == '/' || c == '\\'
}

/// `c`, with a path separator turned into `_`.
pub open spec fn sanitized_char(c: char) -> char {
    if is_path_separator(c) {
        '_'
    } else {
        c
    }
}

/// `s` with every path separator turned into `_`.
pub open spec fn sanitized(s: Seq<char>) -> Seq<char> {
    s.map_values(|c: char| sanitized_char(c))
}

/// Turns a module name into a single directory name: every `/` and `\` becomes `_`.
pub fn sanitize_for_path(input: &str) -> (r: String)
    ensures
        r@ == sanitized(input@),
{
    let s = chars_of(input);
    let mut r = String::new();
    let mut i: usize = 0;
    while i < s.len()
        invariant
            i <= s.len(),
            r@ == sanitized(s@.take(i as int)),
        decreases s.len() - i,
    {
        let c = s[i];
        let d = if c == '/' || c == '\\' {
            '_'
        } else {
            c
        };
        push_char(&mut r, d);
        proof {
            assert(sanitized(s@.take(i + 1)) =~= sanitized(s@.take(i as int)).push(d));
        }
        i = i + 1;
    }
    proof {
        assert(s@.take(s.len() as int) =~= s@);
    }
    r
}

/// Whether a POSIX path is absolute: it starts at the root `/`.
pub open spec fn is_absolute_path(p: Seq<char>) -> bool {
    p.len() > 0 && p[0] == '/'
}

/// `Path::join` on POSIX paths: an absolute `p` replaces `root`; otherwise `p` is
/// appended, with a `/` between unless `root` is empty or already ends with one.
pub open spec fn join_path(root: Seq<char>, p: Seq<char>) -> Seq<char> {
    if is_absolute_path(p) {
        p
    } else if root.len() == 0 || root.last() == '/' {
        root + p
    } else {
        root + seq!['/'] + p
    }
}

/// `path` resolved against `root`: as it is when absolute, joined to `root`
/// otherwise.
pub fn absolute_path(root: &str, path: &str) -> (r: String)
    ensures
        r@ == (if is_absolute_path(path@) {
            path@
        } else {
            join_path(root@, path@)
        }),
{
    let p = chars_of(path);
    let mut r = String::new();
    if p.len() > 0 && p[0] == '/' {
        push_all(&mut r, &p);
        return r;
    }
    let rc = chars_of(root);
    push_all(&mut r, &rc);
    if rc.len() > 0 && rc[rc.len() - 1] != '/' {
        push_char(&mut r, '/');
    }
    push_all(&mut r, &p);
    r
}

/// A module pinned in the API's `buf.lock`.
#[derive(Debug, Clone)]
pub struct BufDependency {
    pub name: String,
    pub commit: String,
}

impl View for BufDependency {
    type V = (Seq<char>, Seq<char>);

    open spec fn view(&self) -> (Seq<char>, Seq<char>) {
        (self.name@, self.commit@)
    }
}

/// The modules pinned in a `buf.lock`, in the order the file lists them.
#[derive(Debug)]
pub struct BufLock {
    pub deps: Vec<BufDependency>,
}

impl View for BufLock {
    type V = Seq<(Seq<char>, Seq<char>)>;

    open spec fn view(&self) -> Seq<(Seq<char>, Seq<char>)> {
        self.deps@.map_values(|d: BufDependency| d@)
    }
}

/// The entry for `name` when `deps` are read into a map keyed by name: the last
/// entry with that name, since a later one replaces an earlier one.
pub open spec fn locked(deps: Seq<(Seq<char>, Seq<char>)>, name: Seq<char>) -> Option<(Seq<char>, Seq<char>)>
    decreases deps.len(),
{
    if deps.len() == 0 {
        None
    } else if deps.last().0 == name {
        Some(deps.last())
    } else {
        locked(deps.drop_last(), name)
    }
}

impl BufLock {
    /// The pinned entry for the module `name`; where several entries have that
    /// name, the last one.
    pub fn get(&self, name: &str) -> (r: Option<&BufDependency>)
        ensures
            match r {
                Some(d) => locked(self@, name@) == Some(d@),
                None => locked(self@, name@) is None,
            },
    {
        let mut i = self.deps.len();
        proof {
            assert(self@.take(i as int) =~= self@);
        }
        while i > 0
            invariant
                i <= self.deps.len(),
                locked(self@, name@) == locked(self@.take(i as int), name@),
            decreases i,
        {
            let d = &self.deps[i - 1];
            proof {
                assert(self@.take(i as int).last() == d@);
                assert(self@.take(i as int).drop_last() =~= self@.take(i - 1));
            }
            if str_equal(d.name.as_str(), name) {
                return Some(d);
            }
            i = i - 1;
        }
        None
    }
}

/// A module that the vendored definitions need, and the directories of it that
/// are copied.
#[derive(Debug, Clone)]
pub struct RequiredDep {
    pub module: String,
    pub paths: Vec<String>,
}

/// The views of a list of strings.
pub open spec fn views(v: Seq<String>) -> Seq<Seq<char>> {
    v.map_values(|s: String| s@)
}

impl View for RequiredDep {
    type V = (Seq<char>, Seq<Seq<char>>);

    open spec fn view(&self) -> (Seq<char>, Seq<Seq<char>>) {
        (self.module@, views(self.paths@))
    }
}

/// The modules that the vendored definitions need, with the directories copied
/// from each.
pub open spec fn required_modules() -> Seq<(Seq<char>, Seq<Seq<char>>)> {
    seq![
        ("buf.build/googleapis/googleapis"@, seq!["google/api"@, "google/rpc"@]),
        ("buf.build/bufbuild/protovalidate"@, seq!["buf/validate"@]),
        ("buf.build/envoyproxy/protoc-gen-validate"@, seq!["validate"@]),
        ("buf.build/grpc-ecosystem/grpc-gateway"@, seq!["protoc-gen-openapiv2/options"@]),
    ]
}

/// The modules that the vendored definitions need, in the order they are exported.
pub fn required_deps() -> (r: Vec<RequiredDep>)
    ensures
        r@.map_values(|d: RequiredDep| d@) == required_modules(),
{
    let mut r: Vec<RequiredDep> = Vec::new();
    let mut p0: Vec<String> = Vec::new();
    p0.push(String::from_str("google/api"));
    p0.push(String::from_str("google/rpc"));
    r.push(RequiredDep { module: String::from_str("buf.build/googleapis/googleapis"), paths: p0 });
    let mut p1: Vec<String> = Vec::new();
    p1.push(String::from_str("buf/validate"));
    r.push(RequiredDep { module: String::from_str("buf.build/bufbuild/protovalidate"), paths: p1 });
    let mut p2: Vec<String> = Vec::new();
    p2.push(String::from_str("validate"));
    r.push(
        RequiredDep { module: String::from_str("buf.build/envoyproxy/protoc-gen-validate"), paths: p2 },
    );
    let mut p3: Vec<String> = Vec::new();
    p3.push(String::from_str("protoc-gen-openapiv2/options"));
    r.push(
        RequiredDep { module: String::from_str("buf.build/grpc-ecosystem/grpc-gateway"), paths: p3 },
    );
    proof {
        assert(views(r@[0].paths@) =~= seq!["google/api"@, "google/rpc"@]);
        assert(views(r@[1].paths@) =~= seq!["buf/validate"@]);
        assert(views(r@[2].paths@) =~= seq!["validate"@]);
        assert(views(r@[3].paths@) =~= seq!["protoc-gen-openapiv2/options"@]);
        assert(r@.map_values(|d: RequiredDep| d@) =~= required_modules());
    }
    r
}

/// What is exported for one required module: the locked reference handed to
/// `buf export`, the directory name it is exported into, and the directories
/// copied from it.
#[derive(Debug)]
pub struct ModuleExport {
    pub module_ref: String,
    pub output_dir: String,
    pub paths: Vec<String>,
}

impl View for ModuleExport {
    type V = (Seq<char>, Seq<char>, Seq<Seq<char>>);

    open spec fn view(&self) -> (Seq<char>, Seq<char>, Seq<Seq<char>>) {
        (self.module_ref@, self.output_dir@, views(self.paths@))
    }
}

/// Why a sync cannot proceed.
#[derive(Debug, PartialEq, Eq)]
pub enum SyncError {
    /// A required module is not pinned in the lock file.
    DependencyNotFound { module: String },
    /// The API checkout has no `buf.lock`.
    MissingLockfile,
    /// The API checkout has no `authzed` directory of definitions.
    MissingAuthzedProtoDir,
}

/// Whether a sync may go on with an API checkout, before anything is removed or
/// written: the lock file must exist, and then the `authzed` definitions; a
/// missing lock file is reported first.
pub fn check_api_checkout(has_lockfile: bool, has_authzed_protos: bool) -> (r: Result<(), SyncError>)
    ensures
        !has_lockfile ==> r == Err::<(), SyncError>(SyncError::MissingLockfile),
        has_lockfile && !has_authzed_protos ==> r == Err::<(), SyncError>(
            SyncError::MissingAuthzedProtoDir,
        ),
        has_lockfile && has_authzed_protos ==> r is Ok,
{
    if !has_lockfile {
        Err(SyncError::MissingLockfile)
    } else if !has_authzed_protos {
        Err(SyncError::MissingAuthzedProtoDir)
    } else {
        Ok(())
    }
}

/// The export of a required module, as pinned in the lock: `<name>:<commit>`,
/// exported into the directory named after the module with separators
/// replaced; fails when the lock does not pin the module.
pub open spec fn module_export(lock: Seq<(Seq<char>, Seq<char>)>, required: (Seq<char>, Seq<Seq<char>>)) -> Option<(Seq<char>, Seq<char>, Seq<Seq<char>>)> {
    match locked(lock, required.0) {
        Some((name, commit)) => Some((name + seq![':'] + commit, sanitized(name), required.1)),
        None => None,
    }
}

/// Plans the export of a required module from the lock.
pub fn plan_module_export(lock: &BufLock, required: &RequiredDep) -> (r: Result<ModuleExport, SyncError>)
    ensures
        match module_export(lock@, required@) {
            Some(x) => r matches Ok(e) && e@ == x,
            None => r matches Err(SyncError::DependencyNotFound { module }) && module@ == required@.0,
        },
{
    let dep = match lock.get(required.module.as_str()) {
        Some(d) => d,
        None => {
            return Err(SyncError::DependencyNotFound { module: required.module.clone() });
        },
    };
    let mut module_ref = String::new();
    let name = chars_of(dep.name.as_str());
    let commit = chars_of(dep.commit.as_str());
    push_all(&mut module_ref, &name);
    push_char(&mut module_ref, ':');
    push_all(&mut module_ref, &commit);
    let output_dir = sanitize_for_path(dep.name.as_str());
    let mut paths: Vec<String> = Vec::new();
    let mut i: usize = 0;
    while i < required.paths.len()
        invariant
            i <= required.paths.len(),
            views(paths@) == views(required.paths@).take(i as int),
        decreases required.paths.len() - i,
    {
        let ghost before = paths@;
        let c = required.paths[i].clone();
        paths.push(c);
        proof {
            assert(paths@ == before.push(required.paths@[i as int]));
            assert(views(paths@) =~= views(before).push(required.paths@[i as int]@));
            assert(views(paths@) =~= views(required.paths@).take(i + 1));
        }
        i = i + 1;
    }
    proof {
        assert(views(required.paths@).take(i as int) =~= views(required.paths@));
        assert(module_ref@ =~= dep.name@ + seq![':'] + dep.commit@);
    }
    Ok(ModuleExport { module_ref, output_dir, paths })
}

/// Where the API definitions come from: a local checkout, or a clone of a
/// repository at a reference.
#[derive(Debug, Clone, PartialEq, Eq)]
pub enum ApiSource<P> {
    Local(P),
    Clone { repo: String, git_ref: String },
}

/// The source of the API definitions: the local checkout when one is given,
/// otherwise a clone of `repo` at `git_ref`.
pub open spec fn api_source<P>(api_dir: Option<P>, repo: String, git_ref: String) -> ApiSource<P> {
    match api_dir {
        Some(d) => ApiSource::Local(d),
        None => ApiSource::Clone { repo, git_ref },
    }
}

/// The source of the API definitions: the local checkout when one is given,
/// in which case the repository and reference are ignored; otherwise a clone
/// of `repo` at `git_ref`.
pub fn choose_api_source<P>(api_dir: Option<P>, repo: String, git_ref: String) -> (r: ApiSource<P>)
    ensures
        r == api_source(api_dir, repo, git_ref),
{
    match api_dir {
        Some(d) => ApiSource::Local(d),
        None => ApiSource::Clone { repo, git_ref },
    }
}

/// The extension of the files that are copied: `proto`.
pub open spec fn proto_extension() -> Seq<char> {
    seq!['p', 'r', 'o', 't', 'o']
}

/// Whether a directory entry is copied: it is a file with the extension `proto`.
pub fn is_proto_file(is_file: bool, extension: Option<&str>) -> (r: bool)
    ensures
        r == (is_file && (extension matches Some(e) && e@ == proto_extension())),
{
    if !is_file {
        return false;
    }
    match extension {
        Some(e) => {
            let ec = chars_of(e);
            let proto: Vec<char> = vec!['p', 'r', 'o', 't', 'o'];
            chars_equal(&ec, &proto)
        },
        None => false,
    }
}

/// A sanitized name holds no path separator, has as many characters as the
/// name, and sanitizing it again changes nothing.
pub proof fn law_sanitized_is_a_single_name(s: Seq<char>)
    ensures
        forall|i: int| 0 <= i < sanitized(s).len() ==> !is_path_separator(#[trigger] sanitized(s)[i]),
        sanitized(s).len() == s.len(),
        sanitized(sanitized(s)) == sanitized(s),
{
    assert(sanitized(sanitized(s)) =~= sanitized(s));
}

/// Reading the lock entries into a map keyed by name: an entry listed later
/// replaces an earlier one with the same name and leaves the other names alone.
pub proof fn law_later_entry_wins(deps: Seq<(Seq<char>, Seq<char>)>, entry: (Seq<char>, Seq<char>), name: Seq<char>)
    ensures
        locked(deps.push(entry), entry.0) == Some(entry),
        name != entry.0 ==> locked(deps.push(entry), name) == locked(deps, name),
{
    assert(deps.push(entry).drop_last() =~= deps);
}

/// Resolving a path against the root is `Path::join`: an absolute path is kept
/// as it is, and a relative one is joined to the root.
pub proof fn law_absolute_path_is_join(root: Seq<char>, path: Seq<char>)
    ensures
        (if is_absolute_path(path) {
            path
        } else {
            join_path(root, path)
        }) == join_path(root, path),
        is_absolute_path(path) ==> join_path(root, path) == path,
{
}

/// A given local checkout is used whatever repository and reference are given
/// with it; only without one are they cloned.
pub proof fn law_local_checkout_ignores_repo<P>(dir: P, repo: String, git_ref: String, other_repo: String, other_ref: String)
    ensures
        api_source(Some(dir), repo, git_ref) == api_source(Some(dir), other_repo, other_ref),
        api_source(Some(dir), repo, git_ref) == ApiSource::<P>::Local(dir),
        api_source(None::<P>, repo, git_ref) == (ApiSource::<P>::Clone { repo, git_ref }),
{
}


/// The export of a module pinned last as `(name, commit)` refers to it by the
/// name, `:` and the whole commit: the reference starts with the name, has `:`
/// after it, and ends with the commit as the lock holds it.
pub proof fn law_export_refers_to_locked_commit(
    deps: Seq<(Seq<char>, Seq<char>)>,
    name: Seq<char>,
    commit: Seq<char>,
    paths: Seq<Seq<char>>,
)
    ensures
        module_export(deps.push((name, commit)), (name, paths)) is Some,
        ({
            let x = module_export(deps.push((name, commit)), (name, paths))->0;
            &&& x.0.len() == name.len() + 1 + commit.len()
            &&& x.0.take(name.len() as int) == name
            &&& x.0[name.len() as int] == ':'
            &&& x.0.skip(name.len() as int + 1) == commit
            &&& x.1 == sanitized(name)
            &&& x.2 == paths
        }),
{
    law_later_entry_wins(deps, (name, commit), name);
    let r = name + seq![':'] + commit;
    assert(r.take(name.len() as int) =~= name);
    assert(r.skip(name.len() as int + 1) =~= commit);
}

/// A relative path is joined to a non-empty root that does not end in `/` with
/// one `/` between, whatever the path starts with; the result always ends with
/// the path.
pub proof fn law_relative_path_gets_separator(root: Seq<char>, path: Seq<char>)
    ensures
        (!is_absolute_path(path) && root.len() > 0 && root.last() != '/') ==> join_path(root, path)
            == root + seq!['/'] + path,
        join_path(root, path).len() >= path.len(),
        join_path(root, path).skip(join_path(root, path).len() - path.len()) == path,
{
    let j = join_path(root, path);
    assert(j.skip(j.len() - path.len()) =~= path);
}

} // verus!
