//! Per-issue workspace paths and their containment under the configured
//! root, checked lexically (no filesystem access).
//!
//! Paths are Unix paths held as strings; their parsing into components and
//! the joining of paths are done by `camino`.
use vstd::prelude::*;

use crate::capabilities::IoErrorKind;
use crate::domain::{is_key_char, lemma_workspace_key_is_safe, spec_workspace_key, workspace_key};
use crate::text::{chars_of, starts_with, starts_with_exec};
use crate::wasm_host::HostError;

verus! {

#[derive(Debug)]
pub enum WorkspaceError {
    RootNotAbsolute(String),
    Traversal { candidate: String },
    AbsoluteSegment { segment: String },
    OutsideRoot { root: String, candidate: String },
    Canonicalize { path: String, kind: IoErrorKind, message: String },
}

/// A path component.
#[derive(Debug, Clone, PartialEq, Eq)]
pub enum PathComponent {
    Prefix(String),
    RootDir,
    CurDir,
    ParentDir,
    Normal(String),
}

/// A path component, its text taken by characters.
pub enum ComponentModel {
    Prefix(Seq<char>),
    RootDir,
    CurDir,
    ParentDir,
    Normal(Seq<char>),
}

impl View for PathComponent {
    type V = ComponentModel;

    open spec fn view(&self) -> ComponentModel {
        match self {
            PathComponent::Prefix(s) => ComponentModel::Prefix(s@),
            PathComponent::RootDir => ComponentModel::RootDir,
            PathComponent::CurDir => ComponentModel::CurDir,
            PathComponent::ParentDir => ComponentModel::ParentDir,
            PathComponent::Normal(s) => ComponentModel::Normal(s@),
        }
    }
}

pub open spec fn component_views(v: Seq<PathComponent>) -> Seq<ComponentModel> {
    v.map_values(|c: PathComponent| c@)
}

/// What `Utf8Path::components` yields for a path.
pub uninterp spec fn camino_components(path: Seq<char>) -> Seq<ComponentModel>;

/// What `Utf8Path::join` gives for a base path and a segment.
pub uninterp spec fn camino_join(base: Seq<char>, segment: Seq<char>) -> Seq<char>;

/// What `Utf8Path::starts_with` says of a path and a base: the base's
/// components are the first components of the path.
pub open spec fn camino_starts_with(path: Seq<char>, base: Seq<char>) -> bool {
    camino_components(base).is_prefix_of(camino_components(path))
}

/// `Utf8Path::new(path).components()`, each component converted to a
/// `PathComponent`: the path's components after camino's normalisation
/// (repeated separators and interior `.` dropped). A function of the path
/// alone; the parsing rules are not restated here.
#[verifier::external_body]
fn path_components(path: &str) -> (v: Vec<PathComponent>)
    ensures
        component_views(v@) == camino_components(path@),
{
    camino::Utf8Path::new(path).components().map(|c| match c {
        camino::Utf8Component::Prefix(p) => PathComponent::Prefix(p.as_str().to_owned()),
        camino::Utf8Component::RootDir => PathComponent::RootDir,
        camino::Utf8Component::CurDir => PathComponent::CurDir,
        camino::Utf8Component::ParentDir => PathComponent::ParentDir,
        camino::Utf8Component::Normal(s) => PathComponent::Normal(s.to_owned()),
    }).collect()
}

/// The component a single path segment (no `/`, not `.`) is read as.
pub open spec fn segment_component(segment: Seq<char>) -> ComponentModel {
    if segment == ".."@ {
        ComponentModel::ParentDir
    } else {
        ComponentModel::Normal(segment)
    }
}

/// A single path segment that adds one component: non-empty, without `/`,
/// and not `.` (which component parsing drops after the start).
pub open spec fn single_segment(segment: Seq<char>) -> bool {
    &&& segment.len() > 0
    &&& forall|i: int| 0 <= i < segment.len() ==> #[trigger] segment[i] != '/'
    &&& segment != "."@
}

/// `Utf8Path::new(base).join(segment)` as a string: `segment` adjoined to
/// `base` (an absolute segment replaces it). A function of both strings;
/// the separator rules are not restated. What is stated: on Unix, adjoining
/// a single segment adds exactly that one component after the base's
/// components (`Path::components` drops repeated and trailing separators).
#[verifier::external_body]
fn join_path(base: &str, segment: &str) -> (r: String)
    ensures
        r@ == camino_join(base@, segment@),
        single_segment(segment@) ==> camino_components(r@) == camino_components(base@).push(
            segment_component(segment@),
        ),
{
    camino::Utf8Path::new(base).join(segment).into_string()
}

/// `Utf8Path::new(path).starts_with(base)`: whether `base` is a prefix of
/// `path` in whole components, the components being those that
/// `Utf8Path::components` yields (`camino_components`).
#[verifier::external_body]
fn path_starts_with(path: &str, base: &str) -> (b: bool)
    ensures
        b == camino_starts_with(path@, base@),
{
    camino::Utf8Path::new(path).starts_with(base)
}

/// `Utf8Path::is_absolute` on Unix: the path starts with the root `/`.
fn path_is_absolute(path: &str) -> (b: bool)
    ensures
        b == starts_with(path@, "/"@),
{
    let cs = chars_of(path);
    let root = chars_of("/");
    starts_with_exec(cs.as_slice(), root.as_slice())
}

/// The components with `.` dropped and each `..` popping the previous
/// component, which must exist and be neither the root nor empty; `None`
/// when a `..` cannot pop.
pub open spec fn normalize_upto(comps: Seq<ComponentModel>, n: int) -> Option<Seq<Seq<char>>>
    decreases n,
{
    if n <= 0 || n > comps.len() {
        Some(Seq::empty())
    } else {
        match normalize_upto(comps, n - 1) {
            None => None,
            Some(out) => match comps[n - 1] {
                ComponentModel::Prefix(p) => Some(out.push(p)),
                ComponentModel::RootDir => Some(out.push("/"@)),
                ComponentModel::CurDir => Some(out),
                ComponentModel::ParentDir => if out.len() > 0 && out.last() != "/"@ && out.last().len()
                    > 0 {
                    Some(out.drop_last())
                } else {
                    None
                },
                ComponentModel::Normal(x) => Some(out.push(x)),
            },
        }
    }
}

/// The lexically normalised components of `path`, or `None` when a `..`
/// escapes.
pub open spec fn normalized(path: Seq<char>) -> Option<Seq<Seq<char>>> {
    normalize_upto(camino_components(path), camino_components(path).len() as int)
}

proof fn lemma_normalize_none_sticks(comps: Seq<ComponentModel>, n: int)
    requires
        0 < n <= comps.len(),
        normalize_upto(comps, n) is None,
    ensures
        normalize_upto(comps, comps.len() as int) is None,
    decreases comps.len() - n,
{
    if n < comps.len() {
        lemma_normalize_none_sticks(comps, n + 1);
    }
}

/// Normalising a prefix of the components does not look past it.
proof fn lemma_normalize_push(s: Seq<ComponentModel>, x: ComponentModel, n: int)
    requires
        0 <= n <= s.len(),
    ensures
        normalize_upto(s.push(x), n) == normalize_upto(s, n),
    decreases n,
{
    if n > 0 {
        lemma_normalize_push(s, x, n - 1);
        assert(s.push(x)[n - 1] == s[n - 1]);
    }
}

fn normalize_components(path: &str) -> (r: Result<Vec<String>, WorkspaceError>)
    ensures
        match normalized(path@) {
            Some(out) => r matches Ok(v) && crate::strmap::string_views(v@) == out,
            None => r matches Err(WorkspaceError::Traversal { candidate }) && candidate@ == path@,
        },
{
    let comps = path_components(path);
    let ghost cv = component_views(comps@);
    let mut out: Vec<String> = Vec::new();
    let mut i: usize = 0;
    while i < comps.len()
        invariant
            i <= comps@.len(),
            cv == component_views(comps@),
            cv == camino_components(path@),
            normalize_upto(cv, i as int) == Some(crate::strmap::string_views(out@)),
        decreases comps.len() - i,
    {
        let ghost before = crate::strmap::string_views(out@);
        assert(cv[i as int] == comps@[i as int]@);
        match &comps[i] {
            PathComponent::Prefix(p) => {
                out.push(p.clone());
                assert(crate::strmap::string_views(out@) =~= before.push(p@));
            },
            PathComponent::RootDir => {
                out.push("/".to_owned());
                assert(crate::strmap::string_views(out@) =~= before.push("/"@));
            },
            PathComponent::CurDir => {},
            PathComponent::ParentDir => {
                let popable = out.len() > 0 && !crate::strmap::str_eq(out[out.len() - 1].as_str(), "/")
                    && !out[out.len() - 1].as_str().is_empty();
                if popable {
                    proof {
                        assert(before.last() == out@[out@.len() - 1]@);
                    }
                    out.pop();
                    assert(crate::strmap::string_views(out@) =~= before.drop_last());
                } else {
                    proof {
                        if out@.len() > 0 {
                            assert(before.last() == out@[out@.len() - 1]@);
                        }
                        lemma_normalize_none_sticks(cv, i as int + 1);
                    }
                    return Err(WorkspaceError::Traversal { candidate: path.to_owned() });
                }
            },
            PathComponent::Normal(x) => {
                out.push(x.clone());
                assert(crate::strmap::string_views(out@) =~= before.push(x@));
            },
        }
        i = i + 1;
    }
    Ok(out)
}

/// The containment verdict for `candidate` under `root`.
pub open spec fn containment(root: Seq<char>, candidate: Seq<char>) -> Result<(), WorkspaceErrorModel> {
    if !starts_with(root, "/"@) {
        Err(WorkspaceErrorModel::RootNotAbsolute(root))
    } else {
        match normalized(root) {
            None => Err(WorkspaceErrorModel::Traversal(root)),
            Some(rc) => match normalized(candidate) {
                None => Err(WorkspaceErrorModel::Traversal(candidate)),
                Some(cc) => if cc.len() < rc.len() || cc.take(rc.len() as int) != rc {
                    Err(WorkspaceErrorModel::OutsideRoot(root, candidate))
                } else {
                    Ok(())
                },
            },
        }
    }
}

/// A `WorkspaceError`, strings taken by characters.
pub enum WorkspaceErrorModel {
    RootNotAbsolute(Seq<char>),
    Traversal(Seq<char>),
    AbsoluteSegment(Seq<char>),
    OutsideRoot(Seq<char>, Seq<char>),
    Canonicalize(Seq<char>),
}

/// `e` is the error `m` describes.
pub open spec fn error_is(e: WorkspaceError, m: WorkspaceErrorModel) -> bool {
    match (e, m) {
        (WorkspaceError::RootNotAbsolute(a), WorkspaceErrorModel::RootNotAbsolute(b)) => a@ == b,
        (WorkspaceError::Traversal { candidate }, WorkspaceErrorModel::Traversal(b)) => candidate@
            == b,
        (WorkspaceError::AbsoluteSegment { segment }, WorkspaceErrorModel::AbsoluteSegment(b)) =>
            segment@ == b,
        (WorkspaceError::OutsideRoot { root, candidate }, WorkspaceErrorModel::OutsideRoot(a, b)) =>
            root@ == a && candidate@ == b,
        (WorkspaceError::Canonicalize { path, .. }, WorkspaceErrorModel::Canonicalize(b)) => path@
            == b,
        _ => false,
    }
}

pub open spec fn outcome_is(r: Result<(), WorkspaceError>, m: Result<(), WorkspaceErrorModel>) -> bool {
    match (r, m) {
        (Ok(()), Ok(())) => true,
        (Err(e), Err(x)) => error_is(e, x),
        _ => false,
    }
}

fn components_prefix(rc: &Vec<String>, cc: &Vec<String>) -> (b: bool)
    ensures
        b == (cc@.len() >= rc@.len() && crate::strmap::string_views(cc@).take(rc@.len() as int)
            == crate::strmap::string_views(rc@)),
{
    if cc.len() < rc.len() {
        return false;
    }
    let ghost rv = crate::strmap::string_views(rc@);
    let ghost cvv = crate::strmap::string_views(cc@);
    let mut i: usize = 0;
    while i < rc.len()
        invariant
            i <= rc@.len() <= cc@.len(),
            rv == crate::strmap::string_views(rc@),
            cvv == crate::strmap::string_views(cc@),
            forall|k: int| 0 <= k < i ==> cvv[k] == rv[k],
        decreases rc.len() - i,
    {
        if !crate::strmap::str_eq(rc[i].as_str(), cc[i].as_str()) {
            assert(cvv.take(rc@.len() as int)[i as int] != rv[i as int]);
            return false;
        }
        i = i + 1;
    }
    assert(cvv.take(rc@.len() as int) =~= rv);
    true
}

/// Lexical containment: `root` must be absolute, neither path may escape
/// through `..`, and the normalised `candidate` must have the normalised
/// `root` as a whole-component prefix.
pub fn assert_inside_workspace_root(root: &str, candidate: &str) -> (r: Result<(), WorkspaceError>)
    ensures
        outcome_is(r, containment(root@, candidate@)),
{
    if !path_is_absolute(root) {
        return Err(WorkspaceError::RootNotAbsolute(root.to_owned()));
    }
    let rc = match normalize_components(root) {
        Ok(v) => v,
        Err(e) => {
            return Err(e);
        },
    };
    let cc = match normalize_components(candidate) {
        Ok(v) => v,
        Err(e) => {
            return Err(e);
        },
    };
    if !components_prefix(&rc, &cc) {
        return Err(
            WorkspaceError::OutsideRoot { root: root.to_owned(), candidate: candidate.to_owned() },
        );
    }
    Ok(())
}

/// The per-issue workspace path: the sanitised key of `issue_identifier`
/// joined under `root`, checked to stay inside it. The result is a direct
/// child of `root` named by the key, so the key `.` (which names `root`
/// itself) is refused as not inside the root, as `..` is.
pub fn workspace_for_issue(root: &str, issue_identifier: &str) -> (r: Result<String, WorkspaceError>)
    ensures
        !starts_with(root@, "/"@) ==> (r matches Err(WorkspaceError::RootNotAbsolute(x)) && x@
            == root@),
        starts_with(root@, "/"@) ==> ({
            let candidate = camino_join(root@, spec_workspace_key(issue_identifier@));
            if spec_workspace_key(issue_identifier@) == "."@ {
                r matches Err(e) && error_is(e, WorkspaceErrorModel::OutsideRoot(root@, candidate))
            } else {
                match containment(root@, candidate) {
                    Ok(()) => r matches Ok(p) && p@ == candidate,
                    Err(m) => r matches Err(e) && error_is(e, m),
                }
            }
        }),
        starts_with(root@, "/"@) && normalized(root@) is Some && spec_workspace_key(
            issue_identifier@,
        ) != "."@ && spec_workspace_key(issue_identifier@) != ".."@ ==> (r matches Ok(p)
            && camino_components(p@) == camino_components(root@).push(
            ComponentModel::Normal(spec_workspace_key(issue_identifier@)),
        )),
{
    if !path_is_absolute(root) {
        return Err(WorkspaceError::RootNotAbsolute(root.to_owned()));
    }
    let key = workspace_key(issue_identifier);
    let candidate = join_path(root, key.as_str());
    proof {
        lemma_workspace_key_is_safe(issue_identifier@);
        assert forall|i: int| 0 <= i < key@.len() implies #[trigger] key@[i] != '/' by {
            assert(is_key_char(key@[i]));
        }
        if normalized(root@) is Some && key@ != "."@ && key@ != ".."@ {
            let rc = camino_components(root@);
            let cc = camino_components(candidate@);
            assert(cc == rc.push(ComponentModel::Normal(key@)));
            let rn = normalize_upto(rc, rc.len() as int);
            assert(normalize_upto(cc, rc.len() as int) == rn) by {
                lemma_normalize_push(rc, ComponentModel::Normal(key@), rc.len() as int);
            }
            assert(normalize_upto(cc, cc.len() as int) == Some(rn->0.push(key@)));
            assert(rn->0.push(key@).take(rn->0.len() as int) =~= rn->0);
        }
    }
    if crate::strmap::str_eq(key.as_str(), ".") {
        return Err(WorkspaceError::OutsideRoot { root: root.to_owned(), candidate });
    }
    match assert_inside_workspace_root(root, candidate.as_str()) {
        Ok(()) => Ok(candidate),
        Err(e) => Err(e),
    }
}

/// Alias of `workspace_for_issue`.
pub fn workspace_path(root: &str, issue_identifier: &str) -> (r: Result<String, WorkspaceError>)
    ensures
        !starts_with(root@, "/"@) ==> (r matches Err(WorkspaceError::RootNotAbsolute(x)) && x@
            == root@),
        starts_with(root@, "/"@) ==> ({
            let candidate = camino_join(root@, spec_workspace_key(issue_identifier@));
            if spec_workspace_key(issue_identifier@) == "."@ {
                r matches Err(e) && error_is(e, WorkspaceErrorModel::OutsideRoot(root@, candidate))
            } else {
                match containment(root@, candidate) {
                    Ok(()) => r matches Ok(p) && p@ == candidate,
                    Err(m) => r matches Err(e) && error_is(e, m),
                }
            }
        }),
        starts_with(root@, "/"@) && normalized(root@) is Some && spec_workspace_key(
            issue_identifier@,
        ) != "."@ && spec_workspace_key(issue_identifier@) != ".."@ ==> (r matches Ok(p)
            && camino_components(p@) == camino_components(root@).push(
            ComponentModel::Normal(spec_workspace_key(issue_identifier@)),
        )),
{
    workspace_for_issue(root, issue_identifier)
}

/// The path built by adjoining the first `n` components, in order, to the
/// empty path.
pub open spec fn reassembled(comps: Seq<Seq<char>>, n: int) -> Seq<char>
    decreases n,
{
    if n <= 0 || n > comps.len() {
        Seq::empty()
    } else {
        camino_join(reassembled(comps, n - 1), comps[n - 1])
    }
}

fn reassemble(components: &Vec<String>) -> (p: String)
    ensures
        p@ == reassembled(
            crate::strmap::string_views(components@),
            components@.len() as int,
        ),
{
    let mut out = String::new();
    let mut i: usize = 0;
    while i < components.len()
        invariant
            i <= components@.len(),
            out@ == reassembled(crate::strmap::string_views(components@), i as int),
        decreases components.len() - i,
    {
        assert(crate::strmap::string_views(components@)[i as int] == components@[i as int]@);
        out = join_path(out.as_str(), components[i].as_str());
        i = i + 1;
    }
    out
}

/// Adjoin `segment` to `root` lexically and check the normalised result
/// stays inside `root`. Absolute segments are refused; `..` is allowed only
/// while it does not escape.
pub fn safe_join(root: &str, segment: &str) -> (r: Result<String, WorkspaceError>)
    ensures
        starts_with(segment@, "/"@) ==> (r matches Err(WorkspaceError::AbsoluteSegment { segment: s })
            && s@ == segment@),
        !starts_with(segment@, "/"@) ==> ({
            let joined = camino_join(root@, segment@);
            match normalized(joined) {
                None => r matches Err(WorkspaceError::Traversal { candidate }) && candidate@
                    == joined,
                Some(comps) => {
                    let path = reassembled(comps, comps.len() as int);
                    match containment(root@, path) {
                        Ok(()) => r matches Ok(p) && p@ == path,
                        Err(m) => r matches Err(e) && error_is(e, m),
                    }
                },
            }
        }),
{
    if path_is_absolute(segment) {
        return Err(WorkspaceError::AbsoluteSegment { segment: segment.to_owned() });
    }
    let joined = join_path(root, segment);
    let comps = match normalize_components(joined.as_str()) {
        Ok(v) => v,
        Err(e) => {
            return Err(e);
        },
    };
    let normalized_path = reassemble(&comps);
    match assert_inside_workspace_root(root, normalized_path.as_str()) {
        Ok(()) => Ok(normalized_path),
        Err(e) => Err(e),
    }
}

/// The canonical-path check: `candidate_real` (already resolved) must lie
/// under `root_real` (already resolved) in whole components.
pub fn check_resolved_inside(root_real: &str, candidate_real: &str) -> (r: Result<
    (),
    WorkspaceError,
>)
    ensures
        camino_starts_with(candidate_real@, root_real@) ==> r is Ok,
        !camino_starts_with(candidate_real@, root_real@) ==> (r matches Err(
            WorkspaceError::OutsideRoot { root, candidate },
        ) && root@ == root_real@ && candidate@ == candidate_real@),
{
    if !path_starts_with(candidate_real, root_real) {
        return Err(
            WorkspaceError::OutsideRoot {
                root: root_real.to_owned(),
                candidate: candidate_real.to_owned(),
            },
        );
    }
    Ok(())
}

/// A workspace error as the guest sees it: escapes collapse to
/// `outside-root`, and the absolute host path is never echoed.
pub fn map_workspace_error(err: WorkspaceError) -> (e: HostError)
    ensures
        match err {
            WorkspaceError::OutsideRoot { .. } | WorkspaceError::Traversal { .. } => e
                == HostError::OutsideRoot,
            WorkspaceError::AbsoluteSegment { .. } => e matches HostError::InvalidArgument(m) && m@
                == "absolute paths are not permitted; use a workspace-relative path"@,
            WorkspaceError::RootNotAbsolute(_) => e matches HostError::Internal(m) && m@
                == "workspace root is not absolute"@,
            WorkspaceError::Canonicalize { kind, message, .. } => match kind {
                IoErrorKind::NotFound => e matches HostError::NotFound(m) && m@
                    == "path not found in workspace"@,
                IoErrorKind::PermissionDenied => e matches HostError::Denied(m) && m@
                    == "permission denied"@,
                IoErrorKind::Other => e == HostError::Io(message),
            },
        },
{
    match err {
        WorkspaceError::OutsideRoot { .. } | WorkspaceError::Traversal { .. } => {
            HostError::OutsideRoot
        },
        WorkspaceError::AbsoluteSegment { .. } => HostError::InvalidArgument(
            "absolute paths are not permitted; use a workspace-relative path".to_owned(),
        ),
        WorkspaceError::RootNotAbsolute(_) => HostError::Internal(
            "workspace root is not absolute".to_owned(),
        ),
        WorkspaceError::Canonicalize { kind, message, .. } => crate::capabilities::map_io_error(
            kind,
            message,
        ),
    }
}

} // verus!
