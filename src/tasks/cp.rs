//! The cp task: reconciles a destination tree with a source tree.
use vstd::prelude::*;
use vstd::string::StringExecFns;
use crate::ast::{hash_get, lookup, members_allowed, str_eq, verify_hash, Value};
use crate::tasks::{has_str, load_failed, required_str, str_of, unrecognized};
use crate::{Error, TaskContext, TaskEntity};
use crate::template::{bytes_eq, RenderError, TemplateVar, Templates, Vars};
use crate::TaskError;

verus! {

/// The kind of an entry of a file tree.
#[derive(Clone, Copy, PartialEq, Eq, Structural, Debug)]
pub enum NodeKind {
    File,
    Dir,
    Symlink,
    Other,
}

/// An entry of a file tree, by its path relative to the tree's root (the
/// root itself has the empty path). `content` holds a file's bytes.
pub struct Node {
    pub path: String,
    pub kind: NodeKind,
    pub content: Vec<u8>,
}

/// Classification of a path in one tree, with the full path it has (or
/// would have) there.
pub enum FileType {
    Symlink(String),
    File(String),
    Other(String),
    Nothing(String),
    Dir(String),
}

/// A mutation of the destination tree.
pub enum Op {
    /// Remove a directory (not recursively).
    RemoveDir,
    /// Remove a file, a symlink or another entry.
    RemoveFile,
    /// Overwrite an existing file with these bytes.
    Overwrite(Vec<u8>),
    /// Remove the directory there, then write these bytes.
    ReplaceDir(Vec<u8>),
    /// Remove the entry there, then write these bytes.
    ReplaceOther(Vec<u8>),
    /// Create the parent directories, then write these bytes.
    Create(Vec<u8>),
}

/// A mutation of the destination tree at a path (relative to its root);
/// `target` is the full destination path.
pub struct Action {
    pub path: String,
    pub target: String,
    pub op: Op,
}

/// What reconciling one path amounts to.
pub enum Step {
    Keep,
    RemoveDir,
    RemoveFile,
    Overwrite(Seq<u8>),
    ReplaceDir(Seq<u8>),
    ReplaceOther(Seq<u8>),
    Create(Seq<u8>),
    /// A failure: `true` for a well-known one, with its message.
    Fail(bool, Seq<char>),
}

/// Outcome of reconciling one path.
pub enum SyncStatus {
    Changed(Op),
    UnChanged,
    Failed(TaskError),
}

/// A cp task: reconcile `dest` with `src`, without removing what only the
/// destination has when `merge` holds, rendering the files that
/// `templates` binds.
pub struct CpTask {
    pub src: String,
    pub dest: String,
    pub merge: bool,
    pub templates: Templates,
}

/// Settings of one cp run.
pub struct CpContext {
    pub base: String,
    pub dryrun: bool,
    pub merge: bool,
    pub templates: Templates,
}

/// What the mutations of a cp run are, and how it ended. When it failed,
/// `actions` holds the mutations that came before the failure.
pub struct CpPlan {
    pub actions: Vec<Action>,
    pub result: Result<bool, TaskError>,
}

pub open spec fn op_step(op: Op) -> Step {
    match op {
        Op::RemoveDir => Step::RemoveDir,
        Op::RemoveFile => Step::RemoveFile,
        Op::Overwrite(b) => Step::Overwrite(b@),
        Op::ReplaceDir(b) => Step::ReplaceDir(b@),
        Op::ReplaceOther(b) => Step::ReplaceOther(b@),
        Op::Create(b) => Step::Create(b@),
    }
}

pub open spec fn status_step(s: SyncStatus) -> Step {
    match s {
        SyncStatus::Changed(op) => op_step(op),
        SyncStatus::UnChanged => Step::Keep,
        SyncStatus::Failed(e) => Step::Fail(e is WellKnown, message(e)),
    }
}

/// The message of a task error.
pub open spec fn message(e: TaskError) -> Seq<char> {
    match e {
        TaskError::WellKnown(m) => m@,
        TaskError::Unknown(m) => m@,
    }
}

/// What a source file's content becomes at the destination, as prepared
/// (rendered, or read as it is): the bytes, or the failure with its kind
/// and message.
pub open spec fn outcome(c: Result<Vec<u8>, TaskError>) -> Result<Seq<u8>, (bool, Seq<char>)> {
    match c {
        Ok(b) => Ok(b@),
        Err(e) => Err((e is WellKnown, message(e))),
    }
}

pub open spec fn is_change(s: Step) -> bool {
    !(s is Keep) && !(s is Fail)
}

pub open spec fn distinct_paths(nodes: Seq<Node>) -> bool {
    forall|i: int, j: int|
        0 <= i < nodes.len() && 0 <= j < nodes.len() && i != j ==> nodes[i].path@ != nodes[j].path@
}

pub open spec fn has_path(nodes: Seq<Node>, p: Seq<char>) -> bool {
    exists|i: int| 0 <= i < nodes.len() && #[trigger] nodes[i].path@ == p
}

/// The index of the entry at path `p` of a tree (meaningful when it has one).
pub open spec fn index_of(nodes: Seq<Node>, p: Seq<char>) -> int {
    choose|i: int| 0 <= i < nodes.len() && #[trigger] nodes[i].path@ == p
}

/// The entry at path `p` of a tree.
pub open spec fn node_at(nodes: Seq<Node>, p: Seq<char>) -> Option<Node> {
    if has_path(nodes, p) {
        Some(nodes[index_of(nodes, p)])
    } else {
        None
    }
}

/// The prepared content of the source entry at path `p` (`contents` is
/// aligned with `src`); empty bytes where the source has no entry.
pub open spec fn expected_at(src: Seq<Node>, contents: Seq<Result<Vec<u8>, TaskError>>, p: Seq<char>) -> Result<
    Seq<u8>,
    (bool, Seq<char>),
> {
    if has_path(src, p) {
        outcome(contents[index_of(src, p)])
    } else {
        Ok(seq![])
    }
}

pub proof fn lemma_node_at(nodes: Seq<Node>, i: int)
    requires
        distinct_paths(nodes),
        0 <= i < nodes.len(),
    ensures
        node_at(nodes, nodes[i].path@) == Some(nodes[i]),
        index_of(nodes, nodes[i].path@) == i,
{
    let p = nodes[i].path@;
    assert(has_path(nodes, p));
    let j = choose|j: int| 0 <= j < nodes.len() && #[trigger] nodes[j].path@ == p;
    assert(i == j);
}

/// `rel` appended to `root` as a path.
pub open spec fn joined(root: Seq<char>, rel: Seq<char>) -> Seq<char> {
    if rel.len() == 0 {
        root
    } else if root.len() == 0 {
        rel
    } else if root.last() == '/' {
        root + rel
    } else {
        root + seq!['/'] + rel
    }
}

/// Whether `ft` classifies an entry of kind `kind` (`None`: no entry) at
/// full path `full`.
pub open spec fn classifies(ft: FileType, kind: Option<NodeKind>, full: Seq<char>) -> bool {
    match (kind, ft) {
        (None, FileType::Nothing(p)) => p@ == full,
        (Some(NodeKind::File), FileType::File(p)) => p@ == full,
        (Some(NodeKind::Dir), FileType::Dir(p)) => p@ == full,
        (Some(NodeKind::Symlink), FileType::Symlink(p)) => p@ == full,
        (Some(NodeKind::Other), FileType::Other(p)) => p@ == full,
        _ => false,
    }
}

pub open spec fn path_of(ft: FileType) -> Seq<char> {
    match ft {
        FileType::Symlink(p) => p@,
        FileType::File(p) => p@,
        FileType::Other(p) => p@,
        FileType::Nothing(p) => p@,
        FileType::Dir(p) => p@,
    }
}

/// The variables of the first binding that lists `rel` among its paths.
pub open spec fn binding_for(templates: Seq<(Vec<String>, Vars)>, rel: Seq<char>) -> Option<
    Seq<(String, TemplateVar)>,
>
    decreases templates.len(),
{
    if templates.len() == 0 {
        None
    } else if exists|j: int|
        0 <= j < templates[0].0@.len() && #[trigger] templates[0].0@[j]@ == rel {
        Some(templates[0].1@)
    } else {
        binding_for(templates.drop_first(), rel)
    }
}

/// What rendering reported for one source entry: `None` when it was not
/// rendered.
pub open spec fn render_outcome(r: Option<Result<Vec<u8>, RenderError>>) -> Option<
    Result<Seq<u8>, Option<Seq<char>>>,
> {
    match r {
        None => None,
        Some(Ok(b)) => Some(Ok(b@)),
        Some(Err(RenderError::Parse)) => Some(Err(None)),
        Some(Err(RenderError::Render(m))) => Some(Err(Some(m@))),
    }
}

/// How a source entry is prepared, given what rendering reported for it
/// (`rendered`): a file that a template binding applies to (by its path
/// relative to the source root) becomes its rendering, or fails (a
/// well-known failure naming the file when the template does not parse);
/// another file is taken as it is; anything else is empty.
pub open spec fn prepared(
    templates: Seq<(Vec<String>, Vars)>,
    src_root: Seq<char>,
    n: Node,
    rendered: Option<Result<Vec<u8>, RenderError>>,
    c: Result<Vec<u8>, TaskError>,
) -> bool {
    if !(n.kind is File) {
        c is Ok && c->Ok_0@.len() == 0
    } else {
        match binding_for(templates, n.path@) {
            None => c is Ok && c->Ok_0@ == n.content@,
            Some(_) => match render_outcome(rendered) {
                Some(Ok(b)) => c is Ok && c->Ok_0@ == b,
                Some(Err(None)) => c is Err && c->Err_0 is WellKnown && message(c->Err_0) == parse_failure(
                    joined(src_root, n.path@),
                ),
                Some(Err(Some(m))) => c is Err && c->Err_0 is Unknown && message(c->Err_0) == m,
                None => c is Err && c->Err_0 is Unknown && message(c->Err_0) == not_rendered(
                    joined(src_root, n.path@),
                ),
            },
        }
    }
}

/// The message for a bound file that nothing rendered.
pub open spec fn not_rendered(full: Seq<char>) -> Seq<char> {
    "template was not rendered: "@ + full
}

/// The message for a template that does not parse.
pub open spec fn parse_failure(full: Seq<char>) -> Seq<char> {
    "cannot parse template \""@ + full + "\""@
}

pub open spec fn symlink_failure() -> Seq<char> {
    "symlink is unsupported."@
}

pub open spec fn unknown_failure() -> Seq<char> {
    "unknown file type"@
}

/// The transition rule: what reconciling a path comes to, given its source
/// entry `s`, its destination entry `d`, and what the source file's content
/// becomes (`expected`).
pub open spec fn step(
    s: Option<Node>,
    d: Option<Node>,
    merge: bool,
    expected: Result<Seq<u8>, (bool, Seq<char>)>,
) -> Step {
    match s {
        None => match d {
            None => Step::Keep,
            Some(dn) => if merge {
                Step::Keep
            } else if dn.kind is Dir {
                Step::RemoveDir
            } else {
                Step::RemoveFile
            },
        },
        Some(sn) => match sn.kind {
            NodeKind::Dir => Step::Keep,
            NodeKind::Other => Step::Fail(true, unknown_failure()),
            NodeKind::Symlink => Step::Fail(true, symlink_failure()),
            NodeKind::File => if d is Some && d->0.kind is Symlink {
                Step::Fail(true, symlink_failure())
            } else {
                match expected {
                    Err((wk, m)) => Step::Fail(wk, m),
                    Ok(b) => match d {
                        None => Step::Create(b),
                        Some(dn) => match dn.kind {
                            NodeKind::Dir => Step::ReplaceDir(b),
                            NodeKind::File => if b != dn.content@ {
                                Step::Overwrite(b)
                            } else {
                                Step::Keep
                            },
                            _ => Step::ReplaceOther(b),
                        },
                    },
                }
            },
        },
    }
}

/// The step at path `p` when reconciling `dest` with `src`, whose prepared
/// contents are `contents`.
pub open spec fn step_at(
    ctx: CpContext,
    src: Seq<Node>,
    dest: Seq<Node>,
    contents: Seq<Result<Vec<u8>, TaskError>>,
    p: Seq<char>,
) -> Step {
    step(node_at(src, p), node_at(dest, p), ctx.merge, expected_at(src, contents, p))
}

pub open spec fn in_trees(src: Seq<Node>, dest: Seq<Node>, p: Seq<char>) -> bool {
    has_path(src, p) || has_path(dest, p)
}

pub open spec fn kind_of(n: Option<Node>) -> Option<NodeKind> {
    match n {
        Some(n) => Some(n.kind),
        None => None,
    }
}

pub open spec fn node_of(nodes: Seq<Node>, at: Option<usize>) -> Option<Node> {
    match at {
        Some(i) => Some(nodes[i as int]),
        None => None,
    }
}

/// `at` locates path `p` in a tree (`None`: the tree has no such path).
pub open spec fn locates(nodes: Seq<Node>, at: Option<usize>, p: Seq<char>) -> bool {
    match at {
        Some(i) => i < nodes.len() && nodes[i as int].path@ == p,
        None => !has_path(nodes, p),
    }
}

/// One row of the reconciliation table: a path, its classification on
/// either side, and where its entries are.
pub struct Row {
    pub path: String,
    pub src: FileType,
    pub dest: FileType,
    pub src_at: Option<usize>,
    pub dest_at: Option<usize>,
}

pub open spec fn row_ok(
    r: Row,
    src_root: Seq<char>,
    dest_root: Seq<char>,
    src: Seq<Node>,
    dest: Seq<Node>,
) -> bool {
    &&& locates(src, r.src_at, r.path@)
    &&& locates(dest, r.dest_at, r.path@)
    &&& (r.src_at is Some || r.dest_at is Some)
    &&& classifies(r.src, kind_of(node_of(src, r.src_at)), joined(src_root, r.path@))
    &&& classifies(r.dest, kind_of(node_of(dest, r.dest_at)), joined(dest_root, r.path@))
}

/// The reconciliation table of two trees: one row for each path of either.
pub open spec fn table_ok(
    rows: Seq<Row>,
    src_root: Seq<char>,
    dest_root: Seq<char>,
    src: Seq<Node>,
    dest: Seq<Node>,
) -> bool {
    &&& forall|k: int| 0 <= k < rows.len() ==> row_ok(#[trigger] rows[k], src_root, dest_root, src, dest)
    &&& forall|k1: int, k2: int|
        0 <= k1 < rows.len() && 0 <= k2 < rows.len() && k1 != k2 ==> rows[k1].path@ != rows[k2].path@
    &&& forall|p: Seq<char>|
        #[trigger] in_trees(src, dest, p) ==> exists|k: int| 0 <= k < rows.len() && rows[k].path@ == p
}

/// The rows come in order: those of the source's paths first, in the
/// source's order, then those of the paths only the destination has, in the
/// destination's order.
pub open spec fn table_ordered(rows: Seq<Row>, src: Seq<Node>) -> bool {
    &&& rows.len() >= src.len()
    &&& forall|k: int| 0 <= k < src.len() ==> (#[trigger] rows[k]).src_at is Some && rows[k].src_at->0 as int == k
    &&& forall|k: int|
        src.len() <= k < rows.len() ==> (#[trigger] rows[k]).src_at is None && rows[k].dest_at is Some
    &&& forall|k1: int, k2: int|
        src.len() <= k1 < k2 < rows.len() ==> rows[k1].dest_at->0 < rows[k2].dest_at->0
}

/// Where path `p` stands in the order of a reconciliation: by its index in
/// the source, or, for a path only the destination has, after all source
/// paths, by its index in the destination.
pub open spec fn order_key(src: Seq<Node>, dest: Seq<Node>, p: Seq<char>) -> int {
    if has_path(src, p) {
        index_of(src, p)
    } else {
        src.len() + index_of(dest, p)
    }
}

/// The rows of an ordered table come in strictly increasing order of
/// their paths' keys.
proof fn lemma_row_keys(
    rows: Seq<Row>,
    src_root: Seq<char>,
    dest_root: Seq<char>,
    src: Seq<Node>,
    dest: Seq<Node>,
)
    requires
        distinct_paths(src),
        distinct_paths(dest),
        table_ok(rows, src_root, dest_root, src, dest),
        table_ordered(rows, src),
    ensures
        forall|k1: int, k2: int|
            0 <= k1 < k2 < rows.len() ==> order_key(src, dest, rows[k1].path@) < order_key(
                src,
                dest,
                rows[k2].path@,
            ),
{
    assert forall|k: int| 0 <= k < rows.len() implies order_key(src, dest, (#[trigger] rows[k]).path@) == if k
        < src.len() {
        k
    } else {
        src.len() + rows[k].dest_at->0
    } by {
        assert(row_ok(rows[k], src_root, dest_root, src, dest));
        if k < src.len() {
            assert(src[k].path@ == rows[k].path@);
            lemma_node_at(src, k);
            assert(has_path(src, rows[k].path@));
        } else {
            assert(rows[k].src_at is None);
            assert(!has_path(src, rows[k].path@));
            let d = rows[k].dest_at->0 as int;
            assert(dest[d].path@ == rows[k].path@);
            lemma_node_at(dest, d);
        }
    }
    assert forall|k1: int, k2: int| 0 <= k1 < k2 < rows.len() implies order_key(
        src,
        dest,
        rows[k1].path@,
    ) < order_key(src, dest, rows[k2].path@) by {
        assert(order_key(src, dest, rows[k1].path@) == if k1 < src.len() {
            k1
        } else {
            src.len() + rows[k1].dest_at->0
        });
        assert(order_key(src, dest, rows[k2].path@) == if k2 < src.len() {
            k2
        } else {
            src.len() + rows[k2].dest_at->0
        });
    }
}

/// `rel` appended to `root` as a path.
pub fn join_path(root: &str, rel: &str) -> (r: String)
    ensures
        r@ == joined(root@, rel@),
{
    let n = root.unicode_len();
    if rel.unicode_len() == 0 {
        root.to_owned()
    } else if n == 0 {
        rel.to_owned()
    } else if root.get_char(n - 1) == '/' {
        root.to_owned().concat(rel)
    } else {
        proof {
            reveal_strlit("/");
        }
        root.to_owned().concat("/").concat(rel)
    }
}

fn file_type(kind: Option<NodeKind>, full: String) -> (r: FileType)
    ensures
        classifies(r, kind, full@),
{
    match kind {
        None => FileType::Nothing(full),
        Some(k) => match k {
            NodeKind::File => FileType::File(full),
            NodeKind::Dir => FileType::Dir(full),
            NodeKind::Symlink => FileType::Symlink(full),
            NodeKind::Other => FileType::Other(full),
        },
    }
}

/// Where path `p` is in a tree.
pub fn find_node(nodes: &Vec<Node>, p: &str) -> (r: Option<usize>)
    ensures
        locates(nodes@, r, p@),
{
    let mut i: usize = 0;
    while i < nodes.len()
        invariant
            i <= nodes@.len(),
            forall|k: int| 0 <= k < i ==> #[trigger] nodes@[k].path@ != p@,
        decreases nodes.len() - i,
    {
        if str_eq(nodes[i].path.as_str(), p) {
            return Some(i);
        }
        i += 1;
    }
    None
}

/// Builds the reconciliation table: the rows of the source's paths in the
/// source's order, then those of the paths only the destination has.
pub fn file_table(src_root: &str, dest_root: &str, src: &Vec<Node>, dest: &Vec<Node>) -> (rows: Vec<Row>)
    requires
        distinct_paths(src@),
        distinct_paths(dest@),
    ensures
        table_ok(rows@, src_root@, dest_root@, src@, dest@),
        table_ordered(rows@, src@),
{
    let mut rows: Vec<Row> = Vec::new();
    let mut i: usize = 0;
    while i < src.len()
        invariant
            i <= src@.len(),
            rows@.len() == i,
            forall|k: int|
                0 <= k < i ==> row_ok(#[trigger] rows@[k], src_root@, dest_root@, src@, dest@)
                    && rows@[k].src_at == Some(k as usize),
        decreases src.len() - i,
    {
        let path = src[i].path.clone();
        let dest_at = find_node(dest, path.as_str());
        let sft = file_type(Some(src[i].kind), join_path(src_root, path.as_str()));
        let dft = match dest_at {
            Some(j) => file_type(Some(dest[j].kind), join_path(dest_root, path.as_str())),
            None => file_type(None, join_path(dest_root, path.as_str())),
        };
        rows.push(Row { path, src: sft, dest: dft, src_at: Some(i), dest_at });
        i += 1;
    }
    let n = rows.len();
    let mut j: usize = 0;
    while j < dest.len()
        invariant
            distinct_paths(src@),
            distinct_paths(dest@),
            n == src@.len(),
            j <= dest@.len(),
            rows@.len() >= n,
            forall|k: int|
                0 <= k < rows@.len() ==> row_ok(#[trigger] rows@[k], src_root@, dest_root@, src@, dest@),
            forall|k: int| 0 <= k < n ==> (#[trigger] rows@[k]).src_at == Some(k as usize),
            forall|k: int|
                n <= k < rows@.len() ==> (#[trigger] rows@[k]).src_at is None && rows@[k].dest_at is Some
                    && rows@[k].dest_at->0 < j,
            forall|k1: int, k2: int|
                n <= k1 < k2 < rows@.len() ==> rows@[k1].dest_at->0 < rows@[k2].dest_at->0,
            forall|k1: int, k2: int|
                0 <= k1 < rows@.len() && 0 <= k2 < rows@.len() && k1 != k2 ==> rows@[k1].path@
                    != rows@[k2].path@,
            forall|j2: int|
                0 <= j2 < j ==> exists|k: int| 0 <= k < rows@.len() && rows@[k].path@ == (#[trigger] dest@[j2]).path@,
        decreases dest.len() - j,
    {
        let path = dest[j].path.clone();
        match find_node(src, path.as_str()) {
            Some(i0) => {
                assert(rows@[i0 as int].path@ == dest@[j as int].path@);
                assert forall|j2: int| 0 <= j2 < j + 1 implies exists|k: int|
                    0 <= k < rows@.len() && rows@[k].path@ == (#[trigger] dest@[j2]).path@ by {
                    if j2 == j {
                        assert(rows@[i0 as int].path@ == dest@[j2].path@);
                    }
                }
            },
            None => {
                let sft = file_type(None, join_path(src_root, path.as_str()));
                let dft = file_type(Some(dest[j].kind), join_path(dest_root, path.as_str()));
                let ghost old_rows = rows@;
                rows.push(Row { path, src: sft, dest: dft, src_at: None, dest_at: Some(j) });
                assert forall|k: int| 0 <= k < old_rows.len() implies rows@[k].path@ != dest@[j as int].path@ by {
                    assert(rows@[k] == old_rows[k]);
                    if k >= n {
                        let j2 = rows@[k].dest_at->0;
                        assert(dest@[j2 as int].path@ == rows@[k].path@);
                    } else {
                        assert(src@[k].path@ == rows@[k].path@);
                    }
                }
                assert(rows@[old_rows.len() as int].path@ == dest@[j as int].path@);
                assert forall|j2: int| 0 <= j2 < j + 1 implies exists|k: int|
                    0 <= k < rows@.len() && rows@[k].path@ == (#[trigger] dest@[j2]).path@ by {
                    if j2 < j {
                        let k = choose|k: int|
                            0 <= k < old_rows.len() && old_rows[k].path@ == dest@[j2].path@;
                        assert(rows@[k] == old_rows[k]);
                    } else {
                        assert(rows@[old_rows.len() as int].path@ == dest@[j2].path@);
                    }
                }
            },
        }
        j += 1;
    }
    assert forall|p: Seq<char>| #[trigger] in_trees(src@, dest@, p) implies exists|k: int|
        0 <= k < rows@.len() && rows@[k].path@ == p by {
        if has_path(src@, p) {
            let i1 = choose|i1: int| 0 <= i1 < src@.len() && #[trigger] src@[i1].path@ == p;
            assert(rows@[i1].path@ == p);
        } else {
            let j1 = choose|j1: int| 0 <= j1 < dest@.len() && #[trigger] dest@[j1].path@ == p;
            assert(exists|k: int| 0 <= k < rows@.len() && rows@[k].path@ == dest@[j1].path@);
        }
    }
    rows
}

/// Whether `rel` is one of `patterns`.
fn lists_path(patterns: &Vec<String>, rel: &str) -> (r: bool)
    ensures
        r == exists|j: int| 0 <= j < patterns@.len() && #[trigger] patterns@[j]@ == rel@,
{
    let mut j: usize = 0;
    while j < patterns.len()
        invariant
            j <= patterns@.len(),
            forall|k: int| 0 <= k < j ==> #[trigger] patterns@[k]@ != rel@,
        decreases patterns.len() - j,
    {
        if str_eq(patterns[j].as_str(), rel) {
            return true;
        }
        j += 1;
    }
    false
}

/// The variables of the first binding whose paths include `rel` (a path
/// relative to the source root), if any.
pub fn match_template_target<'a>(templates: &'a Templates, rel: &str) -> (r: Option<&'a Vars>)
    ensures
        match r {
            Some(v) => binding_for(templates@, rel@) == Some(v@),
            None => binding_for(templates@, rel@) is None,
        },
{
    let mut t: usize = 0;
    assert(templates@.subrange(0, templates@.len() as int) == templates@);
    while t < templates.len()
        invariant
            t <= templates@.len(),
            binding_for(templates@, rel@) == binding_for(
                templates@.subrange(t as int, templates@.len() as int),
                rel@,
            ),
        decreases templates.len() - t,
    {
        let ghost rest = templates@.subrange(t as int, templates@.len() as int);
        assert(rest.drop_first() == templates@.subrange(t + 1, templates@.len() as int));
        assert(rest[0] == templates@[t as int]);
        if lists_path(&templates[t].0, rel) {
            return Some(&templates[t].1);
        }
        t += 1;
    }
    None
}

pub(crate) fn copy_bytes(b: &[u8]) -> (r: Vec<u8>)
    ensures
        r@ == b@,
{
    let mut r: Vec<u8> = Vec::new();
    let mut i: usize = 0;
    while i < b.len()
        invariant
            i <= b@.len(),
            r@ == b@.subrange(0, i as int),
        decreases b.len() - i,
    {
        r.push(b[i]);
        i += 1;
        assert(r@ == b@.subrange(0, i as int));
    }
    assert(b@.subrange(0, b@.len() as int) == b@);
    r
}

/// What each source entry must be rendered with: the variables of the
/// first binding that applies to it, for a file; nothing otherwise.
pub fn render_requests<'a>(ctx: &'a CpContext, src: &Vec<Node>) -> (r: Vec<Option<&'a Vars>>)
    ensures
        r@.len() == src@.len(),
        forall|i: int|
            0 <= i < src@.len() ==> match (#[trigger] src@[i]).kind {
                NodeKind::File => match binding_for(ctx.templates@, src@[i].path@) {
                    Some(v) => r@[i] is Some && r@[i]->0@ == v,
                    None => r@[i] is None,
                },
                _ => r@[i] is None,
            },
{
    let mut r: Vec<Option<&'a Vars>> = Vec::new();
    let mut i: usize = 0;
    while i < src.len()
        invariant
            i <= src@.len(),
            r@.len() == i,
            forall|k: int|
                0 <= k < i ==> match (#[trigger] src@[k]).kind {
                    NodeKind::File => match binding_for(ctx.templates@, src@[k].path@) {
                        Some(v) => r@[k] is Some && r@[k]->0@ == v,
                        None => r@[k] is None,
                    },
                    _ => r@[k] is None,
                },
        decreases src.len() - i,
    {
        let req = if src[i].kind == NodeKind::File {
            match_template_target(&ctx.templates, src[i].path.as_str())
        } else {
            None
        };
        r.push(req);
        i += 1;
    }
    r
}

/// Prepares the content of each source entry from what rendering reported
/// for it (`rendered`, aligned with `src`; see `render_requests`).
pub fn prepare_contents(
    ctx: &CpContext,
    src_root: &str,
    src: &Vec<Node>,
    rendered: &Vec<Option<Result<Vec<u8>, RenderError>>>,
) -> (r: Vec<Result<Vec<u8>, TaskError>>)
    requires
        rendered@.len() == src@.len(),
    ensures
        r@.len() == src@.len(),
        forall|i: int|
            0 <= i < src@.len() ==> prepared(ctx.templates@, src_root@, src@[i], rendered@[i], #[trigger] r@[i]),
{
    let mut r: Vec<Result<Vec<u8>, TaskError>> = Vec::new();
    let mut i: usize = 0;
    while i < src.len()
        invariant
            rendered@.len() == src@.len(),
            i <= src@.len(),
            r@.len() == i,
            forall|k: int|
                0 <= k < i ==> prepared(ctx.templates@, src_root@, src@[k], rendered@[k], #[trigger] r@[k]),
        decreases src.len() - i,
    {
        let c = if src[i].kind != NodeKind::File {
            Ok(Vec::new())
        } else {
            match match_template_target(&ctx.templates, src[i].path.as_str()) {
                None => Ok(copy_bytes(src[i].content.as_slice())),
                Some(_) => match &rendered[i] {
                    Some(Ok(b)) => Ok(copy_bytes(b.as_slice())),
                    Some(Err(RenderError::Parse)) => {
                        let full = join_path(src_root, src[i].path.as_str());
                        Err(
                            TaskError::WellKnown(
                                "cannot parse template \"".to_owned().concat(full.as_str()).concat("\""),
                            ),
                        )
                    },
                    Some(Err(RenderError::Render(msg))) => Err(TaskError::Unknown(msg.clone())),
                    None => {
                        let full = join_path(src_root, src[i].path.as_str());
                        Err(TaskError::Unknown("template was not rendered: ".to_owned().concat(full.as_str())))
                    },
                },
            }
        };
        let ghost old_r = r@;
        r.push(c);
        assert forall|k: int| 0 <= k < i + 1 implies prepared(
            ctx.templates@,
            src_root@,
            src@[k],
            rendered@[k],
            #[trigger] r@[k],
        ) by {
            if k < i {
                assert(r@[k] == old_r[k]);
            }
        }
        i += 1;
    }
    r
}

fn copy_error(e: &TaskError) -> (r: TaskError)
    ensures
        (r is WellKnown) == (e is WellKnown),
        message(r) == message(*e),
{
    match e {
        TaskError::WellKnown(m) => TaskError::WellKnown(m.clone()),
        TaskError::Unknown(m) => TaskError::Unknown(m.clone()),
    }
}

/// Reconciles one path: `src_at` and `dest_at` locate its entries, if any,
/// and `expected` is what the source file's content becomes.
pub fn sync_file(
    ctx: &CpContext,
    src: &Vec<Node>,
    src_at: Option<usize>,
    dest: &Vec<Node>,
    dest_at: Option<usize>,
    expected: &Result<Vec<u8>, TaskError>,
) -> (r: SyncStatus)
    requires
        src_at is Some ==> src_at->0 < src@.len(),
        dest_at is Some ==> dest_at->0 < dest@.len(),
    ensures
        status_step(r) == step(node_of(src@, src_at), node_of(dest@, dest_at), ctx.merge, outcome(*expected)),
{
    match src_at {
        None => match dest_at {
            None => SyncStatus::UnChanged,
            Some(j) => if ctx.merge {
                SyncStatus::UnChanged
            } else {
                match dest[j].kind {
                    NodeKind::Dir => SyncStatus::Changed(Op::RemoveDir),
                    _ => SyncStatus::Changed(Op::RemoveFile),
                }
            },
        },
        Some(i) => match src[i].kind {
            NodeKind::Dir => SyncStatus::UnChanged,
            NodeKind::Other => SyncStatus::Failed(TaskError::WellKnown("unknown file type".to_owned())),
            NodeKind::Symlink => SyncStatus::Failed(
                TaskError::WellKnown("symlink is unsupported.".to_owned()),
            ),
            NodeKind::File => {
                if let Some(j) = dest_at {
                    if dest[j].kind == NodeKind::Symlink {
                        return SyncStatus::Failed(
                            TaskError::WellKnown("symlink is unsupported.".to_owned()),
                        );
                    }
                }
                let content = match expected {
                    Ok(b) => copy_bytes(b.as_slice()),
                    Err(e) => {
                        return SyncStatus::Failed(copy_error(e));
                    },
                };
                match dest_at {
                    None => SyncStatus::Changed(Op::Create(content)),
                    Some(j) => match dest[j].kind {
                        NodeKind::Dir => SyncStatus::Changed(Op::ReplaceDir(content)),
                        NodeKind::File => {
                            if !bytes_eq(content.as_slice(), dest[j].content.as_slice()) {
                                SyncStatus::Changed(Op::Overwrite(content))
                            } else {
                                SyncStatus::UnChanged
                            }
                        },
                        _ => SyncStatus::Changed(Op::ReplaceOther(content)),
                    },
                }
            },
        },
    }
}

proof fn lemma_locates_node_at(nodes: Seq<Node>, at: Option<usize>, p: Seq<char>)
    requires
        distinct_paths(nodes),
        locates(nodes, at, p),
    ensures
        node_of(nodes, at) == node_at(nodes, p),
{
    if at is Some {
        lemma_node_at(nodes, at->0 as int);
    }
}

fn full_path(ft: &FileType) -> (r: String)
    ensures
        r@ == path_of(*ft),
{
    match ft {
        FileType::Symlink(p) => p.clone(),
        FileType::File(p) => p.clone(),
        FileType::Other(p) => p.clone(),
        FileType::Nothing(p) => p.clone(),
        FileType::Dir(p) => p.clone(),
    }
}

/// Path `p` is where a failed plan stopped: it fails with the plan's error;
/// every mutation comes before it; and every path before it does not fail
/// and, outside a dry run, has its mutation planned when it changes.
pub open spec fn fails_first(
    ctx: CpContext,
    src: Seq<Node>,
    dest: Seq<Node>,
    contents: Seq<Result<Vec<u8>, TaskError>>,
    plan: CpPlan,
    p: Seq<char>,
) -> bool {
    &&& in_trees(src, dest, p)
    &&& step_at(ctx, src, dest, contents, p) == Step::Fail(
        plan.result->Err_0 is WellKnown,
        message(plan.result->Err_0),
    )
    &&& forall|m: int|
        0 <= m < plan.actions@.len() ==> order_key(src, dest, (#[trigger] plan.actions@[m]).path@)
            < order_key(src, dest, p)
    &&& forall|q: Seq<char>|
        #![trigger in_trees(src, dest, q)]
        in_trees(src, dest, q) && order_key(src, dest, q) < order_key(src, dest, p) ==> {
            &&& !(step_at(ctx, src, dest, contents, q) is Fail)
            &&& !ctx.dryrun && is_change(step_at(ctx, src, dest, contents, q)) ==> exists|m: int|
                0 <= m < plan.actions@.len() && plan.actions@[m].path@ == q
        }
}

/// What a plan is, given the source files' prepared `contents`: it fails
/// exactly when some path fails, with that path's error; it reports a change
/// exactly when some path changes; and its mutations are those of the
/// changing paths, one for each (none in a dry run, and only those before
/// the failure when it fails).
pub open spec fn reconciles(
    ctx: CpContext,
    src_root: Seq<char>,
    dest_root: Seq<char>,
    src: Seq<Node>,
    dest: Seq<Node>,
    contents: Seq<Result<Vec<u8>, TaskError>>,
    plan: CpPlan,
) -> bool {
    &&& (plan.result is Err <==> exists|p: Seq<char>|
            in_trees(src, dest, p) && #[trigger] step_at(ctx, src, dest, contents, p) is Fail)
    &&& (plan.result is Err ==> exists|p: Seq<char>| #[trigger] fails_first(ctx, src, dest, contents, plan, p))
    &&& (forall|m1: int, m2: int|
            0 <= m1 < m2 < plan.actions@.len() ==> order_key(src, dest, plan.actions@[m1].path@) < order_key(
                src,
                dest,
                plan.actions@[m2].path@,
            ))
    &&& (plan.result is Ok ==> (plan.result->Ok_0 <==> exists|p: Seq<char>|
            in_trees(src, dest, p) && is_change(#[trigger] step_at(ctx, src, dest, contents, p))))
    &&& (ctx.dryrun ==> plan.actions@.len() == 0)
    &&& (forall|m: int|
            0 <= m < plan.actions@.len() ==> {
                let a = #[trigger] plan.actions@[m];
                &&& in_trees(src, dest, a.path@)
                &&& op_step(a.op) == step_at(ctx, src, dest, contents, a.path@)
                &&& a.target@ == joined(dest_root, a.path@)
            })
    &&& (forall|m1: int, m2: int|
            0 <= m1 < plan.actions@.len() && 0 <= m2 < plan.actions@.len() && m1 != m2
                ==> plan.actions@[m1].path@ != plan.actions@[m2].path@)
    &&& (!ctx.dryrun && plan.result is Ok ==> forall|p: Seq<char>|
            in_trees(src, dest, p) && is_change(#[trigger] step_at(ctx, src, dest, contents, p))
                ==> exists|m: int| 0 <= m < plan.actions@.len() && plan.actions@[m].path@ == p)
}

/// Reconciles the destination tree `dest` (rooted at `dest_root`) with the
/// source tree `src` (rooted at `src_root`), whose files' prepared contents
/// are `contents` (aligned with `src`): the mutations to make, in order, and
/// whether anything changes. The first failing path ends the run; the
/// mutations planned before it stay. A dry run plans no mutation and
/// classifies every path as a real run does.
pub fn reconcile_prepared(
    ctx: &CpContext,
    src_root: &str,
    dest_root: &str,
    src: &Vec<Node>,
    dest: &Vec<Node>,
    contents: &Vec<Result<Vec<u8>, TaskError>>,
) -> (plan: CpPlan)
    requires
        distinct_paths(src@),
        distinct_paths(dest@),
        contents@.len() == src@.len(),
    ensures
        reconciles(*ctx, src_root@, dest_root@, src@, dest@, contents@, plan),
{
    let nothing: Result<Vec<u8>, TaskError> = Ok(Vec::new());
    let rows = file_table(src_root, dest_root, src, dest);
    proof {
        lemma_row_keys(rows@, src_root@, dest_root@, src@, dest@);
    }
    let mut actions: Vec<Action> = Vec::new();
    let mut changed = false;
    let ghost mut idx: Seq<int> = Seq::empty();
    let mut k: usize = 0;
    while k < rows.len()
        invariant
            contents@.len() == src@.len(),
            nothing is Ok && nothing->Ok_0@ == Seq::<u8>::empty(),
            distinct_paths(src@),
            distinct_paths(dest@),
            table_ok(rows@, src_root@, dest_root@, src@, dest@),
            table_ordered(rows@, src@),
            forall|k1: int, k2: int|
                0 <= k1 < k2 < rows@.len() ==> order_key(src@, dest@, rows@[k1].path@) < order_key(
                    src@,
                    dest@,
                    rows@[k2].path@,
                ),
            k <= rows@.len(),
            changed <==> exists|k2: int|
                0 <= k2 < k && is_change(#[trigger] step_at(*ctx, src@, dest@, contents@, rows@[k2].path@)),
            forall|k2: int|
                0 <= k2 < k ==> !(#[trigger] step_at(*ctx, src@, dest@, contents@, rows@[k2].path@) is Fail),
            ctx.dryrun ==> actions@.len() == 0,
            idx.len() == actions@.len(),
            forall|m: int|
                0 <= m < idx.len() ==> {
                    &&& 0 <= #[trigger] idx[m] < k
                    &&& actions@[m].path@ == rows@[idx[m]].path@
                    &&& op_step(actions@[m].op) == step_at(*ctx, src@, dest@, contents@, rows@[idx[m]].path@)
                    &&& actions@[m].target@ == joined(dest_root@, actions@[m].path@)
                },
            forall|m1: int, m2: int| 0 <= m1 < m2 < idx.len() ==> idx[m1] < idx[m2],
            !ctx.dryrun ==> forall|k2: int|
                0 <= k2 < k && is_change(#[trigger] step_at(*ctx, src@, dest@, contents@, rows@[k2].path@))
                    ==> exists|m: int| 0 <= m < idx.len() && idx[m] == k2,
        decreases rows.len() - k,
    {
        let row = &rows[k];
        assert(row_ok(rows@[k as int], src_root@, dest_root@, src@, dest@));
        proof {
            lemma_locates_node_at(src@, row.src_at, row.path@);
            lemma_locates_node_at(dest@, row.dest_at, row.path@);
        }
        let expected = match row.src_at {
            Some(i) => &contents[i],
            None => &nothing,
        };
        proof {
            if row.src_at is Some {
                lemma_node_at(src@, row.src_at->0 as int);
            } else {
                assert(nothing is Ok && nothing->Ok_0@ =~= seq![]);
            }
        }
        assert(expected_at(src@, contents@, row.path@) == outcome(*expected));
        let status = sync_file(ctx, src, row.src_at, dest, row.dest_at, expected);
        let ghost st = step_at(*ctx, src@, dest@, contents@, rows@[k as int].path@);
        assert(status_step(status) == st);
        let ghost old_idx = idx;
        match status {
            SyncStatus::Changed(op) => {
                changed = true;
                assert(is_change(st));
                if !ctx.dryrun {
                    let target = full_path(&row.dest);
                    actions.push(Action { path: row.path.clone(), target, op });
                    proof {
                        idx = idx.push(k as int);
                        assert(idx[idx.len() - 1] == k);
                        assert forall|m: int| 0 <= m < old_idx.len() implies idx[m] == old_idx[m] by {}
                    }
                }
            },
            SyncStatus::UnChanged => {
                assert(!is_change(st));
                assert forall|k2: int|
                    0 <= k2 < k + 1 && is_change(
                        #[trigger] step_at(*ctx, src@, dest@, contents@, rows@[k2].path@),
                    ) implies 0 <= k2 < k by {}
            },
            SyncStatus::Failed(e) => {
                assert(st == Step::Fail(e is WellKnown, message(e)));
                assert(in_trees(src@, dest@, rows@[k as int].path@)) by {
                    if row.src_at is Some {
                        assert(src@[row.src_at->0 as int].path@ == row.path@);
                    } else {
                        assert(dest@[row.dest_at->0 as int].path@ == row.path@);
                    }
                }
                proof {
                    lemma_actions_in_trees(*ctx, src_root@, dest_root@, src@, dest@, rows@, actions@, idx);
                }
                assert forall|m: int| 0 <= m < actions@.len() implies {
                    let a = #[trigger] actions@[m];
                    &&& in_trees(src@, dest@, a.path@)
                    &&& op_step(a.op) == step_at(*ctx, src@, dest@, contents@, a.path@)
                    &&& a.target@ == joined(dest_root@, a.path@)
                } by {
                    assert(actions@[m].path@ == rows@[idx[m]].path@);
                    assert(in_trees(src@, dest@, actions@[m].path@));
                }
                proof {
                    lemma_prefix(*ctx, src_root@, dest_root@, src@, dest@, contents@, rows@, actions@, idx, k as int);
                    lemma_action_order(src@, dest@, rows@, actions@, idx);
                }
                let plan = CpPlan { actions, result: Err(e) };
                assert(fails_first(*ctx, src@, dest@, contents@, plan, rows@[k as int].path@));
                return plan;
            },
        }
        k += 1;
    }
    proof {
        lemma_actions_in_trees(*ctx, src_root@, dest_root@, src@, dest@, rows@, actions@, idx);
    }
    assert forall|p: Seq<char>| in_trees(src@, dest@, p) implies !(#[trigger] step_at(
        *ctx,
        src@,
        dest@,
        contents@,
        p,
    ) is Fail) by {
        let k2 = choose|k2: int| 0 <= k2 < rows@.len() && rows@[k2].path@ == p;
        assert(!(step_at(*ctx, src@, dest@, contents@, rows@[k2].path@) is Fail));
    }
    assert((exists|p: Seq<char>|
        in_trees(src@, dest@, p) && is_change(#[trigger] step_at(*ctx, src@, dest@, contents@, p))) ==> changed)
        by {
        if exists|p: Seq<char>|
            in_trees(src@, dest@, p) && is_change(#[trigger] step_at(*ctx, src@, dest@, contents@, p)) {
            let p = choose|p: Seq<char>|
                in_trees(src@, dest@, p) && is_change(#[trigger] step_at(*ctx, src@, dest@, contents@, p));
            let k2 = choose|k2: int| 0 <= k2 < rows@.len() && rows@[k2].path@ == p;
            assert(is_change(step_at(*ctx, src@, dest@, contents@, rows@[k2].path@)));
        }
    }
    assert forall|m: int| 0 <= m < actions@.len() implies op_step(
        (#[trigger] actions@[m]).op,
    ) == step_at(*ctx, src@, dest@, contents@, actions@[m].path@) by {
        assert(actions@[m].path@ == rows@[idx[m]].path@);
    }
    if !ctx.dryrun {
        assert forall|p: Seq<char>|
            in_trees(src@, dest@, p) && is_change(#[trigger] step_at(*ctx, src@, dest@, contents@, p)) implies exists|
            m: int,
        | 0 <= m < actions@.len() && actions@[m].path@ == p by {
            let k2 = choose|k2: int| 0 <= k2 < rows@.len() && rows@[k2].path@ == p;
            assert(is_change(step_at(*ctx, src@, dest@, contents@, rows@[k2].path@)));
            let m = choose|m: int| 0 <= m < idx.len() && idx[m] == k2;
            assert(actions@[m].path@ == p);
        }
    }
    proof {
        lemma_action_order(src@, dest@, rows@, actions@, idx);
    }
    CpPlan { actions, result: Ok(changed) }
}

proof fn lemma_action_order(src: Seq<Node>, dest: Seq<Node>, rows: Seq<Row>, actions: Seq<Action>, idx: Seq<int>)
    requires
        forall|k1: int, k2: int|
            0 <= k1 < k2 < rows.len() ==> order_key(src, dest, rows[k1].path@) < order_key(src, dest, rows[k2].path@),
        idx.len() == actions.len(),
        forall|m: int|
            0 <= m < idx.len() ==> 0 <= #[trigger] idx[m] < rows.len() && actions[m].path@ == rows[idx[m]].path@,
        forall|m1: int, m2: int| 0 <= m1 < m2 < idx.len() ==> idx[m1] < idx[m2],
    ensures
        forall|m1: int, m2: int|
            0 <= m1 < m2 < actions.len() ==> order_key(src, dest, actions[m1].path@) < order_key(
                src,
                dest,
                actions[m2].path@,
            ),
{
    assert forall|m1: int, m2: int| 0 <= m1 < m2 < actions.len() implies order_key(
        src,
        dest,
        actions[m1].path@,
    ) < order_key(src, dest, actions[m2].path@) by {
        assert(idx[m1] < idx[m2]);
        assert(actions[m1].path@ == rows[idx[m1]].path@);
        assert(actions[m2].path@ == rows[idx[m2]].path@);
    }
}

proof fn lemma_prefix(
    ctx: CpContext,
    src_root: Seq<char>,
    dest_root: Seq<char>,
    src: Seq<Node>,
    dest: Seq<Node>,
    contents: Seq<Result<Vec<u8>, TaskError>>,
    rows: Seq<Row>,
    actions: Seq<Action>,
    idx: Seq<int>,
    k: int,
)
    requires
        table_ok(rows, src_root, dest_root, src, dest),
        forall|k1: int, k2: int|
            0 <= k1 < k2 < rows.len() ==> order_key(src, dest, rows[k1].path@) < order_key(src, dest, rows[k2].path@),
        0 <= k < rows.len(),
        idx.len() == actions.len(),
        forall|m: int| 0 <= m < idx.len() ==> 0 <= #[trigger] idx[m] < k && actions[m].path@ == rows[idx[m]].path@,
        forall|k2: int| 0 <= k2 < k ==> !(#[trigger] step_at(ctx, src, dest, contents, rows[k2].path@) is Fail),
        !ctx.dryrun ==> forall|k2: int|
            0 <= k2 < k && is_change(#[trigger] step_at(ctx, src, dest, contents, rows[k2].path@))
                ==> exists|m: int| 0 <= m < idx.len() && idx[m] == k2,
    ensures
        forall|m: int|
            0 <= m < actions.len() ==> order_key(src, dest, (#[trigger] actions[m]).path@) < order_key(
                src,
                dest,
                rows[k].path@,
            ),
        forall|q: Seq<char>|
            #![trigger in_trees(src, dest, q)]
            in_trees(src, dest, q) && order_key(src, dest, q) < order_key(src, dest, rows[k].path@) ==> {
                &&& !(step_at(ctx, src, dest, contents, q) is Fail)
                &&& !ctx.dryrun && is_change(step_at(ctx, src, dest, contents, q)) ==> exists|m: int|
                    0 <= m < actions.len() && actions[m].path@ == q
            },
{
    assert forall|m: int| 0 <= m < actions.len() implies order_key(src, dest, (#[trigger] actions[m]).path@)
        < order_key(src, dest, rows[k].path@) by {
        assert(idx[m] < k);
        assert(actions[m].path@ == rows[idx[m]].path@);
    }
    assert forall|q: Seq<char>|
        #![trigger in_trees(src, dest, q)]
        in_trees(src, dest, q) && order_key(src, dest, q) < order_key(src, dest, rows[k].path@) implies {
            &&& !(step_at(ctx, src, dest, contents, q) is Fail)
            &&& !ctx.dryrun && is_change(step_at(ctx, src, dest, contents, q)) ==> exists|m: int|
                0 <= m < actions.len() && actions[m].path@ == q
        } by {
        let k2 = choose|k2: int| 0 <= k2 < rows.len() && rows[k2].path@ == q;
        if k2 >= k {
            if k2 > k {
                assert(order_key(src, dest, rows[k].path@) < order_key(src, dest, rows[k2].path@));
            }
            assert(false);
        }
        assert(!(step_at(ctx, src, dest, contents, rows[k2].path@) is Fail));
        if !ctx.dryrun && is_change(step_at(ctx, src, dest, contents, q)) {
            assert(is_change(step_at(ctx, src, dest, contents, rows[k2].path@)));
            let m = choose|m: int| 0 <= m < idx.len() && idx[m] == k2;
            assert(actions[m].path@ == q);
        }
    }
}

/// Every entry of `contents` is how the source entry beside it is prepared,
/// given what rendering reported (`rendered`).
pub open spec fn all_prepared(
    templates: Seq<(Vec<String>, Vars)>,
    src_root: Seq<char>,
    src: Seq<Node>,
    rendered: Seq<Option<Result<Vec<u8>, RenderError>>>,
    contents: Seq<Result<Vec<u8>, TaskError>>,
) -> bool {
    &&& contents.len() == src.len()
    &&& rendered.len() == src.len()
    &&& forall|i: int|
        0 <= i < src.len() ==> prepared(templates, src_root, src[i], rendered[i], #[trigger] contents[i])
}

/// Reconciles the destination tree `dest` with the source tree `src`:
/// prepares the source files' contents from what rendering reported
/// (`rendered`, aligned with `src`; see `render_requests`), then plans as
/// `reconcile_prepared` does with them.
pub fn execute_cp(
    ctx: &CpContext,
    src_root: &str,
    dest_root: &str,
    src: &Vec<Node>,
    dest: &Vec<Node>,
    rendered: &Vec<Option<Result<Vec<u8>, RenderError>>>,
) -> (plan: CpPlan)
    requires
        distinct_paths(src@),
        distinct_paths(dest@),
        rendered@.len() == src@.len(),
    ensures
        exists|contents: Seq<Result<Vec<u8>, TaskError>>|
            all_prepared(ctx.templates@, src_root@, src@, rendered@, contents) && reconciles(
                *ctx,
                src_root@,
                dest_root@,
                src@,
                dest@,
                contents,
                plan,
            ),
{
    let contents = prepare_contents(ctx, src_root, src, rendered);
    let plan = reconcile_prepared(ctx, src_root, dest_root, src, dest, &contents);
    assert(all_prepared(ctx.templates@, src_root@, src@, rendered@, contents@));
    plan
}

proof fn lemma_actions_in_trees(
    ctx: CpContext,
    src_root: Seq<char>,
    dest_root: Seq<char>,
    src: Seq<Node>,
    dest: Seq<Node>,
    rows: Seq<Row>,
    actions: Seq<Action>,
    idx: Seq<int>,
)
    requires
        table_ok(rows, src_root, dest_root, src, dest),
        idx.len() == actions.len(),
        forall|m: int|
            0 <= m < idx.len() ==> {
                &&& 0 <= #[trigger] idx[m] < rows.len()
                &&& actions[m].path@ == rows[idx[m]].path@
            },
        forall|m1: int, m2: int| 0 <= m1 < m2 < idx.len() ==> idx[m1] < idx[m2],
    ensures
        forall|m: int| 0 <= m < actions.len() ==> in_trees(src, dest, #[trigger] actions[m].path@),
        forall|m1: int, m2: int|
            0 <= m1 < actions.len() && 0 <= m2 < actions.len() && m1 != m2 ==> actions[m1].path@
                != actions[m2].path@,
{
    assert forall|m: int| 0 <= m < actions.len() implies in_trees(src, dest, #[trigger] actions[m].path@) by {
        let r = rows[idx[m]];
        assert(row_ok(r, src_root, dest_root, src, dest));
        if r.src_at is Some {
            assert(src[r.src_at->0 as int].path@ == r.path@);
        } else {
            assert(dest[r.dest_at->0 as int].path@ == r.path@);
        }
    }
    assert forall|m1: int, m2: int|
        0 <= m1 < actions.len() && 0 <= m2 < actions.len() && m1 != m2 implies actions[m1].path@
        != actions[m2].path@ by {
        assert(idx[m1] != idx[m2]) by {
            if m1 < m2 {
                assert(idx[m1] < idx[m2]);
            } else {
                assert(idx[m2] < idx[m1]);
            }
        }
    }
}

/// The bytes that a step writes, if it writes.
pub open spec fn written(s: Step) -> Option<Seq<u8>> {
    match s {
        Step::Overwrite(b) => Some(b),
        Step::ReplaceDir(b) => Some(b),
        Step::ReplaceOther(b) => Some(b),
        Step::Create(b) => Some(b),
        _ => None,
    }
}

/// The file contents of a destination, by relative path, after `actions`
/// are applied in order to the contents `files`: a removal drops the path,
/// a write sets its bytes.
pub open spec fn applied(files: Map<Seq<char>, Seq<u8>>, actions: Seq<Action>) -> Map<
    Seq<char>,
    Seq<u8>,
>
    decreases actions.len(),
{
    if actions.len() == 0 {
        files
    } else {
        let prev = applied(files, actions.drop_last());
        let a = actions.last();
        match written(op_step(a.op)) {
            Some(b) => prev.insert(a.path@, b),
            None => prev.remove(a.path@),
        }
    }
}

proof fn lemma_applied_at(files: Map<Seq<char>, Seq<u8>>, actions: Seq<Action>, m: int)
    requires
        0 <= m < actions.len(),
        forall|m1: int, m2: int|
            0 <= m1 < actions.len() && 0 <= m2 < actions.len() && m1 != m2 ==> actions[m1].path@
                != actions[m2].path@,
        written(op_step(actions[m].op)) is Some,
    ensures
        applied(files, actions).contains_key(actions[m].path@),
        applied(files, actions)[actions[m].path@] == written(op_step(actions[m].op))->0,
    decreases actions.len(),
{
    if m < actions.len() - 1 {
        let rest = actions.drop_last();
        assert forall|m1: int, m2: int|
            0 <= m1 < rest.len() && 0 <= m2 < rest.len() && m1 != m2 implies rest[m1].path@
            != rest[m2].path@ by {
            assert(rest[m1] == actions[m1] && rest[m2] == actions[m2]);
        }
        assert(rest[m] == actions[m]);
        lemma_applied_at(files, rest, m);
        assert(actions.last().path@ != actions[m].path@);
    }
}

/// A file that only the source has is, after a successful real run without
/// merging, at the destination with the source's prepared content: the
/// bytes as they are when no template binding applies to it, the rendering
/// otherwise.
pub proof fn law_source_only_file_written(
    ctx: CpContext,
    src_root: Seq<char>,
    dest_root: Seq<char>,
    src: Seq<Node>,
    dest: Seq<Node>,
    contents: Seq<Result<Vec<u8>, TaskError>>,
    plan: CpPlan,
    p: Seq<char>,
    files: Map<Seq<char>, Seq<u8>>,
)
    requires
        reconciles(ctx, src_root, dest_root, src, dest, contents, plan),
        !ctx.dryrun,
        !ctx.merge,
        plan.result is Ok,
        node_at(src, p) is Some,
        node_at(src, p)->0.kind is File,
        !has_path(dest, p),
    ensures
        expected_at(src, contents, p) is Ok,
        applied(files, plan.actions@).contains_key(p),
        applied(files, plan.actions@)[p] == expected_at(src, contents, p)->Ok_0,
        forall|rendered: Seq<Option<Result<Vec<u8>, RenderError>>>|
            all_prepared(ctx.templates@, src_root, src, rendered, contents) && binding_for(
                ctx.templates@,
                p,
            ) is None ==> applied(files, plan.actions@)[p] == node_at(src, p)->0.content@,
{
    assert forall|rendered: Seq<Option<Result<Vec<u8>, RenderError>>>|
        all_prepared(ctx.templates@, src_root, src, rendered, contents) && binding_for(
            ctx.templates@,
            p,
        ) is None implies expected_at(src, contents, p) == Ok::<Seq<u8>, (bool, Seq<char>)>(
        node_at(src, p)->0.content@,
    ) by {
        assert(prepared(
            ctx.templates@,
            src_root,
            src[index_of(src, p)],
            rendered[index_of(src, p)],
            contents[index_of(src, p)],
        ));
    }
    assert(in_trees(src, dest, p));
    let st = step_at(ctx, src, dest, contents, p);
    assert(!(st is Fail));
    assert(is_change(st));
    let m = choose|m: int| 0 <= m < plan.actions@.len() && plan.actions@[m].path@ == p;
    assert(op_step(plan.actions@[m].op) == st);
    lemma_applied_at(files, plan.actions@, m);
}

/// A destination is in step with a source: every source entry is a file or a
/// directory, each source file is at the destination as a file with its
/// rendered-or-raw content, and without merging the destination has no
/// path that the source lacks.
pub open spec fn synced(
    ctx: CpContext,
    src: Seq<Node>,
    dest: Seq<Node>,
    contents: Seq<Result<Vec<u8>, TaskError>>,
) -> bool {
    &&& forall|i: int| 0 <= i < src.len() ==> (#[trigger] src[i]).kind is File || src[i].kind is Dir
    &&& forall|i: int|
        0 <= i < src.len() && (#[trigger] src[i]).kind is File ==> {
            &&& node_at(dest, src[i].path@) is Some
            &&& node_at(dest, src[i].path@)->0.kind is File
            &&& outcome(contents[i]) == Ok::<Seq<u8>, (bool, Seq<char>)>(node_at(dest, src[i].path@)->0.content@)
        }
    &&& !ctx.merge ==> forall|j: int| 0 <= j < dest.len() ==> has_path(src, (#[trigger] dest[j]).path@)
}

/// Reconciling a destination that is already in step with the source
/// reports no change and plans no mutation.
pub proof fn law_synced_is_unchanged(
    ctx: CpContext,
    src_root: Seq<char>,
    dest_root: Seq<char>,
    src: Seq<Node>,
    dest: Seq<Node>,
    contents: Seq<Result<Vec<u8>, TaskError>>,
    plan: CpPlan,
)
    requires
        distinct_paths(src),
        distinct_paths(dest),
        reconciles(ctx, src_root, dest_root, src, dest, contents, plan),
        synced(ctx, src, dest, contents),
        contents.len() == src.len(),
    ensures
        plan.result == Ok::<bool, TaskError>(false),
        plan.actions@.len() == 0,
{
    assert forall|p: Seq<char>| in_trees(src, dest, p) implies #[trigger] step_at(ctx, src, dest, contents, p)
        is Keep by {
        if has_path(src, p) {
            let i = choose|i: int| 0 <= i < src.len() && #[trigger] src[i].path@ == p;
            lemma_node_at(src, i);
            assert(src[i].kind is File || src[i].kind is Dir);
        } else {
            assert(node_at(src, p) is None);
            if !ctx.merge {
                let j = choose|j: int| 0 <= j < dest.len() && #[trigger] dest[j].path@ == p;
                assert(has_path(src, dest[j].path@));
            }
        }
    }
    if plan.actions@.len() > 0 {
        let a = plan.actions@[0];
        assert(op_step(a.op) == step_at(ctx, src, dest, contents, a.path@));
    }
}

/// With merging, every path that a run mutates is a source path: no path
/// that only the destination has is removed, whatever its kind.
pub proof fn law_merge_keeps_destination_only(
    ctx: CpContext,
    src_root: Seq<char>,
    dest_root: Seq<char>,
    src: Seq<Node>,
    dest: Seq<Node>,
    contents: Seq<Result<Vec<u8>, TaskError>>,
    plan: CpPlan,
)
    requires
        reconciles(ctx, src_root, dest_root, src, dest, contents, plan),
        ctx.merge,
    ensures
        forall|m: int| 0 <= m < plan.actions@.len() ==> has_path(src, (#[trigger] plan.actions@[m]).path@),
{
    assert forall|m: int| 0 <= m < plan.actions@.len() implies has_path(
        src,
        (#[trigger] plan.actions@[m]).path@,
    ) by {
        let a = plan.actions@[m];
        assert(op_step(a.op) == step_at(ctx, src, dest, contents, a.path@));
    }
}

/// Whether `after` is what a run's mutations leave of `dest`: every path of
/// it was in one of the trees; a written path holds the written bytes, a
/// removed one is gone, and a kept one is as it was (a kept source
/// directory may have appeared, made for the files in it).
pub open spec fn left_by_run(
    ctx: CpContext,
    src: Seq<Node>,
    dest: Seq<Node>,
    contents: Seq<Result<Vec<u8>, TaskError>>,
    after: Seq<Node>,
) -> bool {
    &&& forall|p: Seq<char>| #[trigger] has_path(after, p) ==> in_trees(src, dest, p)
    &&& forall|p: Seq<char>|
        #[trigger] in_trees(src, dest, p) ==> match step_at(ctx, src, dest, contents, p) {
            Step::Keep => (node_at(src, p) is Some && node_at(src, p)->0.kind is Dir) || node_at(after, p)
                == node_at(dest, p),
            Step::RemoveDir => !has_path(after, p),
            Step::RemoveFile => !has_path(after, p),
            Step::Fail(_, _) => true,
            _ => node_at(after, p) is Some && node_at(after, p)->0.kind is File && node_at(
                after,
                p,
            )->0.content@ == written(step_at(ctx, src, dest, contents, p))->0,
        }
}

/// Reconciling again, with the same settings and an unchanged source, the
/// tree that a successful run left reports no change and plans no mutation.
pub proof fn law_second_run_unchanged(
    ctx: CpContext,
    ctx2: CpContext,
    src_root: Seq<char>,
    dest_root: Seq<char>,
    src: Seq<Node>,
    dest: Seq<Node>,
    contents: Seq<Result<Vec<u8>, TaskError>>,
    after: Seq<Node>,
    first: CpPlan,
    second: CpPlan,
)
    requires
        distinct_paths(src),
        distinct_paths(dest),
        distinct_paths(after),
        ctx2.merge == ctx.merge,
        reconciles(ctx, src_root, dest_root, src, dest, contents, first),
        first.result is Ok,
        left_by_run(ctx, src, dest, contents, after),
        reconciles(ctx2, src_root, dest_root, src, after, contents, second),
    ensures
        second.result == Ok::<bool, TaskError>(false),
        second.actions@.len() == 0,
{
    assert forall|p: Seq<char>| in_trees(src, after, p) implies #[trigger] step_at(ctx2, src, after, contents, p)
        is Keep by {
        assert(in_trees(src, dest, p)) by {
            if !has_path(src, p) {
                assert(has_path(after, p));
            }
        }
        let st = step_at(ctx, src, dest, contents, p);
        assert(!(st is Fail));
        assert(step_at(ctx2, src, after, contents, p) == step(
            node_at(src, p),
            node_at(after, p),
            ctx.merge,
            expected_at(src, contents, p),
        ));
        if has_path(after, p) {
            let j = choose|j: int| 0 <= j < after.len() && #[trigger] after[j].path@ == p;
            lemma_node_at(after, j);
        } else {
            assert(node_at(after, p) is None);
        }
        if has_path(dest, p) {
            let j = choose|j: int| 0 <= j < dest.len() && #[trigger] dest[j].path@ == p;
            lemma_node_at(dest, j);
        } else {
            assert(node_at(dest, p) is None);
        }
        if has_path(src, p) {
            let i = choose|i: int| 0 <= i < src.len() && #[trigger] src[i].path@ == p;
            lemma_node_at(src, i);
        } else {
            assert(node_at(src, p) is None);
        }
    }
    if second.actions@.len() > 0 {
        let a = second.actions@[0];
        assert(op_step(a.op) == step_at(ctx2, src, after, contents, a.path@));
    }
}

/// A template-bound source file whose rendering (its prepared content)
/// equals the destination file's bytes is unchanged, and nothing is
/// written there.
pub proof fn law_identical_render_unchanged(
    ctx: CpContext,
    src_root: Seq<char>,
    dest_root: Seq<char>,
    src: Seq<Node>,
    dest: Seq<Node>,
    contents: Seq<Result<Vec<u8>, TaskError>>,
    plan: CpPlan,
    p: Seq<char>,
)
    requires
        reconciles(ctx, src_root, dest_root, src, dest, contents, plan),
        node_at(src, p) is Some,
        node_at(src, p)->0.kind is File,
        node_at(dest, p) is Some,
        node_at(dest, p)->0.kind is File,
        binding_for(ctx.templates@, p) is Some,
        expected_at(src, contents, p) == Ok::<Seq<u8>, (bool, Seq<char>)>(node_at(dest, p)->0.content@),
    ensures
        step_at(ctx, src, dest, contents, p) is Keep,
        forall|m: int| 0 <= m < plan.actions@.len() ==> (#[trigger] plan.actions@[m]).path@ != p,
{
    assert forall|m: int| 0 <= m < plan.actions@.len() implies (#[trigger] plan.actions@[m]).path@
        != p by {
        let a = plan.actions@[m];
        assert(op_step(a.op) == step_at(ctx, src, dest, contents, a.path@));
    }
}

/// A dry run plans no mutation and reports what a real run with the same
/// settings and the same prepared contents reports: failure or success, and
/// whether anything changes.
pub proof fn law_dry_run_classifies_alike(
    dry_ctx: CpContext,
    real_ctx: CpContext,
    src_root: Seq<char>,
    dest_root: Seq<char>,
    src: Seq<Node>,
    dest: Seq<Node>,
    contents: Seq<Result<Vec<u8>, TaskError>>,
    dry: CpPlan,
    wet: CpPlan,
)
    requires
        dry_ctx.dryrun,
        !real_ctx.dryrun,
        dry_ctx.merge == real_ctx.merge,
        reconciles(dry_ctx, src_root, dest_root, src, dest, contents, dry),
        reconciles(real_ctx, src_root, dest_root, src, dest, contents, wet),
    ensures
        dry.actions@.len() == 0,
        dry.result is Ok <==> wet.result is Ok,
        dry.result is Ok ==> dry.result->Ok_0 == wet.result->Ok_0,
{
    assert forall|p: Seq<char>| #[trigger]
        step_at(dry_ctx, src, dest, contents, p) == step_at(real_ctx, src, dest, contents, p) by {}
    if dry.result is Err {
        let p = choose|p: Seq<char>|
            in_trees(src, dest, p) && #[trigger] step_at(dry_ctx, src, dest, contents, p) is Fail;
        assert(step_at(real_ctx, src, dest, contents, p) is Fail);
    }
    if wet.result is Err {
        let p = choose|p: Seq<char>|
            in_trees(src, dest, p) && #[trigger] step_at(real_ctx, src, dest, contents, p) is Fail;
        assert(step_at(dry_ctx, src, dest, contents, p) is Fail);
    }
    if dry.result is Ok && wet.result is Ok {
        if dry.result->Ok_0 {
            let p = choose|p: Seq<char>|
                in_trees(src, dest, p) && is_change(#[trigger] step_at(dry_ctx, src, dest, contents, p));
            assert(is_change(step_at(real_ctx, src, dest, contents, p)));
        }
        if wet.result->Ok_0 {
            let p = choose|p: Seq<char>|
                in_trees(src, dest, p) && is_change(#[trigger] step_at(real_ctx, src, dest, contents, p));
            assert(is_change(step_at(dry_ctx, src, dest, contents, p)));
        }
    }
}

/// Whether template variable `t` is what the configuration value `v` gives.
pub open spec fn var_from(v: Value, t: TemplateVar) -> bool {
    match (v, t) {
        (Value::Str(a), TemplateVar::Str(b)) => a@ == b@,
        (Value::Int(a), TemplateVar::Int(b)) => a == b,
        (Value::Real(a), TemplateVar::Real(b)) => a@ == b@,
        _ => false,
    }
}

/// Whether the configuration value `v` can be a template variable.
pub open spec fn var_value(v: Value) -> bool {
    v is Str || v is Int || v is Real
}

/// Whether a `target` member is a path or an array of paths.
pub open spec fn valid_target(v: Value) -> bool {
    match v {
        Value::Str(_) => true,
        Value::Array(a) => forall|i: int| 0 <= i < a@.len() ==> (#[trigger] a@[i]) is Str,
        _ => false,
    }
}

/// Whether `targets` are the paths that the `target` member `v` gives.
pub open spec fn targets_from(v: Value, targets: Seq<String>) -> bool {
    match v {
        Value::Str(s) => targets.len() == 1 && targets[0]@ == s@,
        Value::Array(a) => targets.len() == a@.len() && forall|i: int|
            0 <= i < a@.len() ==> (#[trigger] targets[i])@ == a@[i]->Str_0@,
        _ => false,
    }
}

/// Whether a configuration value describes a template binding: a hash with
/// only `type`, `vars` (a hash of strings, integers and reals) and
/// `target`.
pub open spec fn valid_binding(v: Value) -> bool {
    &&& v is Hash
    &&& members_allowed(v->Hash_0@, seq!["type", "vars", "target"])
    &&& lookup(v->Hash_0@, "target"@) is Some && valid_target(lookup(v->Hash_0@, "target"@)->0)
    &&& lookup(v->Hash_0@, "vars"@) is Some && lookup(v->Hash_0@, "vars"@)->0 is Hash
    &&& forall|i: int|
        0 <= i < lookup(v->Hash_0@, "vars"@)->0->Hash_0@.len() ==> var_value(
            (#[trigger] lookup(v->Hash_0@, "vars"@)->0->Hash_0@[i]).1,
        )
}

/// Whether binding `b` is what the configuration value `v` describes; each
/// variable is bound under its own name.
pub open spec fn binding_from(v: Value, b: (Vec<String>, Vars)) -> bool {
    let vars = lookup(v->Hash_0@, "vars"@)->0->Hash_0@;
    &&& targets_from(lookup(v->Hash_0@, "target"@)->0, b.0@)
    &&& b.1@.len() == vars.len()
    &&& forall|i: int|
        0 <= i < vars.len() ==> (#[trigger] b.1@[i]).0@ == vars[i].0@ && var_from(vars[i].1, b.1@[i].1)
}

fn parse_targets(v: &Value) -> (r: Result<Vec<String>, Error>)
    ensures
        r is Ok <==> valid_target(*v),
        r is Ok ==> targets_from(*v, r->Ok_0@),
        r is Err ==> r->Err_0 is InvalidPlaybook,
{
    match v {
        Value::Str(s) => {
            let mut t: Vec<String> = Vec::new();
            t.push(s.clone());
            Ok(t)
        },
        Value::Array(a) => {
            let mut t: Vec<String> = Vec::new();
            let mut i: usize = 0;
            while i < a.len()
                invariant
                    *v == Value::Array(*a),
                    i <= a@.len(),
                    t@.len() == i,
                    forall|k: int| 0 <= k < i ==> (#[trigger] a@[k]) is Str && t@[k]@ == a@[k]->Str_0@,
                decreases a.len() - i,
            {
                match a[i].as_str() {
                    Some(s) => t.push(s.to_owned()),
                    None => {
                        return Err(
                            Error::InvalidPlaybook(
                                "cp.target must be string of array of string".to_owned(),
                                a[i].duplicate(),
                            ),
                        );
                    },
                }
                i += 1;
            }
            Ok(t)
        },
        _ => Err(Error::InvalidPlaybook("cp.target must be string of array of string".to_owned(), v.duplicate())),
    }
}

/// Reads one template binding of a cp task.
pub fn parse_cp_templates(yaml: &Value) -> (r: Result<(Vec<String>, Vars), Error>)
    ensures
        r is Ok <==> valid_binding(*yaml),
        r is Ok ==> binding_from(*yaml, r->Ok_0),
        yaml is Hash && !members_allowed(yaml->Hash_0@, seq!["type", "vars", "target"]) ==> r is Err && unrecognized(
            r->Err_0,
            "tasks.cp.templates"@,
            yaml->Hash_0@,
            seq!["type", "vars", "target"],
        ),
        r is Err ==> r->Err_0 is InvalidPlaybook || unrecognized(
            r->Err_0,
            "tasks.cp.templates"@,
            yaml->Hash_0@,
            seq!["type", "vars", "target"],
        ),
{
    let hash = match yaml.as_hash() {
        Some(h) => h,
        None => {
            return Err(Error::InvalidPlaybook("cp.templates must be hash".to_owned(), yaml.duplicate()));
        },
    };
    let allowed: [&str; 3] = ["type", "vars", "target"];
    assert(allowed@ == seq!["type", "vars", "target"]);
    if let Err(e) = verify_hash(hash, &allowed, Some("tasks.cp.templates")) {
        return Err(e);
    }
    let target = match hash_get(hash, "target") {
        Some(t) => match parse_targets(t) {
            Ok(t) => t,
            Err(e) => {
                return Err(e);
            },
        },
        None => {
            return Err(
                Error::InvalidPlaybook("cp.templates must have \"target\"".to_owned(), yaml.duplicate()),
            );
        },
    };
    let vars = match hash_get(hash, "vars") {
        None => {
            return Err(Error::InvalidPlaybook("cp.template must have vars".to_owned(), yaml.duplicate()));
        },
        Some(v) => match v.as_hash() {
            Some(h) => h,
            None => {
                return Err(
                    Error::InvalidPlaybook("cp.templates.vars must be hash".to_owned(), yaml.duplicate()),
                );
            },
        },
    };
    let mut context: Vars = Vec::new();
    let mut i: usize = 0;
    while i < vars.len()
        invariant
            members_allowed(hash@, seq!["type", "vars", "target"]),
            lookup(hash@, "vars"@) == Some(Value::Hash(*vars)),
            *yaml == Value::Hash(*hash),
            i <= vars@.len(),
            context@.len() == i,
            forall|k: int|
                0 <= k < i ==> (#[trigger] context@[k]).0@ == vars@[k].0@ && var_value(vars@[k].1)
                    && var_from(vars@[k].1, context@[k].1),
        decreases vars.len() - i,
    {
        let var = match &vars[i].1 {
            Value::Str(s) => TemplateVar::Str(s.clone()),
            Value::Int(n) => TemplateVar::Int(*n),
            Value::Real(t) => TemplateVar::Real(t.clone()),
            other => {
                assert(!var_value(lookup(yaml->Hash_0@, "vars"@)->0->Hash_0@[i as int].1));
                return Err(
                    Error::InvalidPlaybook(
                        "children of cp.templates.vars must be string: <string|int|float>".to_owned(),
                        other.duplicate(),
                    ),
                );
            },
        };
        context.push((vars[i].0.clone(), var));
        i += 1;
    }
    assert forall|k: int| 0 <= k < vars@.len() implies var_value((#[trigger] vars@[k]).1) by {
        assert(context@[k].0@ == vars@[k].0@);
    }
    Ok((target, context))
}

/// Whether the cp task's `templates` member is absent or an array of
/// template bindings.
pub open spec fn valid_templates(obj: Seq<(String, Value)>) -> bool {
    lookup(obj, "templates"@) is None || {
        &&& lookup(obj, "templates"@)->0 is Array
        &&& forall|i: int|
            0 <= i < lookup(obj, "templates"@)->0->Array_0@.len() ==> valid_binding(
                #[trigger] lookup(obj, "templates"@)->0->Array_0@[i],
            )
    }
}

/// Reads a cp task from its configuration. `merge` is on unless the
/// configuration turns it off.
pub fn parse(obj: &Vec<(String, Value)>) -> (r: Result<TaskEntity, Error>)
    ensures
        r is Ok <==> {
            &&& members_allowed(obj@, seq!["type", "src", "dest", "merge", "templates"])
            &&& has_str(obj@, "src"@)
            &&& has_str(obj@, "dest"@)
            &&& (lookup(obj@, "merge"@) is None || lookup(obj@, "merge"@)->0 is Bool)
            &&& valid_templates(obj@)
        },
        !members_allowed(obj@, seq!["type", "src", "dest", "merge", "templates"]) ==> r is Err && unrecognized(
            r->Err_0,
            "tasks.cp"@,
            obj@,
            seq!["type", "src", "dest", "merge", "templates"],
        ),
        members_allowed(obj@, seq!["type", "src", "dest", "merge", "templates"]) && lookup(obj@, "src"@)
            is None ==> r is Err && load_failed(r->Err_0, "cp must have \"src\""@),
        r is Ok ==> r->Ok_0 is Cp && {
            let t = r->Ok_0->Cp_0;
            &&& t.src@ == str_of(obj@, "src"@)
            &&& t.dest@ == str_of(obj@, "dest"@)
            &&& t.merge == match lookup(obj@, "merge"@) {
                Some(v) => v->Bool_0,
                None => true,
            }
            &&& match lookup(obj@, "templates"@) {
                None => t.templates@.len() == 0,
                Some(v) => t.templates@.len() == v->Array_0@.len() && forall|i: int|
                    0 <= i < v->Array_0@.len() ==> binding_from(v->Array_0@[i], #[trigger] t.templates@[i]),
            }
        },
{
    let allowed: [&str; 5] = ["type", "src", "dest", "merge", "templates"];
    assert(allowed@ == seq!["type", "src", "dest", "merge", "templates"]);
    if let Err(e) = verify_hash(obj, &allowed, Some("tasks.cp")) {
        return Err(e);
    }
    let src = match required_str(obj, "src", "cp must have \"src\"", "cp.src must be string") {
        Ok(v) => v,
        Err(e) => {
            return Err(e);
        },
    };
    let dest = match required_str(obj, "dest", "cp must have \"dest\"", "cp.dest must be string") {
        Ok(v) => v,
        Err(e) => {
            return Err(e);
        },
    };
    let merge = match hash_get(obj, "merge") {
        None => true,
        Some(v) => match v.as_bool() {
            Some(b) => b,
            None => {
                return Err(Error::InvalidPlaybook("cp.merge must be boolean".to_owned(), v.duplicate()));
            },
        },
    };
    let mut templates: Templates = Vec::new();
    match hash_get(obj, "templates") {
        None => {},
        Some(v) => {
            let items = match v.as_array() {
                Some(a) => a,
                None => {
                    return Err(Error::InvalidPlaybook("cp.templates must be array".to_owned(), v.duplicate()));
                },
            };
            let mut i: usize = 0;
            while i < items.len()
                invariant
                    members_allowed(obj@, seq!["type", "src", "dest", "merge", "templates"]),
                    lookup(obj@, "src"@) is Some,
                    lookup(obj@, "templates"@) == Some(Value::Array(*items)),
                    i <= items@.len(),
                    templates@.len() == i,
                    forall|k: int| 0 <= k < i ==> valid_binding(#[trigger] items@[k]),
                    forall|k: int| 0 <= k < i ==> binding_from(items@[k], #[trigger] templates@[k]),
                decreases items.len() - i,
            {
                let b = match parse_cp_templates(&items[i]) {
                    Ok(b) => b,
                    Err(e) => {
                        assert(!valid_binding(lookup(obj@, "templates"@)->0->Array_0@[i as int]));
                        return Err(e);
                    },
                };
                let ghost old_t = templates@;
                templates.push(b);
                assert forall|k: int| 0 <= k < i + 1 implies binding_from(
                    items@[k],
                    #[trigger] templates@[k],
                ) by {
                    if k < i {
                        assert(templates@[k] == old_t[k]);
                    }
                }
                i += 1;
            }
        },
    }
    Ok(TaskEntity::Cp(CpTask { src, dest, merge, templates }))
}

/// Whether `vars` binds `name`.
pub open spec fn binds(vars: Seq<(String, TemplateVar)>, name: Seq<char>) -> bool {
    exists|i: int| 0 <= i < vars.len() && (#[trigger] vars[i]).0@ == name
}

fn binds_exec(vars: &Vars, name: &str) -> (r: bool)
    ensures
        r == binds(vars@, name@),
{
    let mut i: usize = 0;
    while i < vars.len()
        invariant
            i <= vars@.len(),
            forall|k: int| 0 <= k < i ==> (#[trigger] vars@[k]).0@ != name@,
        decreases vars.len() - i,
    {
        if str_eq(vars[i].0.as_str(), name) {
            return true;
        }
        i += 1;
    }
    false
}

impl CpContext {
    /// The settings of a cp run in `ctx`: every binding also binds
    /// `_scenario` to the scenario's name, unless it binds it itself.
    pub fn extend(ctx: &TaskContext, merge: bool, templates: Templates) -> (r: CpContext)
        ensures
            r.base@ == ctx.base@,
            r.dryrun == ctx.dryrun,
            r.merge == merge,
            r.templates@.len() == templates@.len(),
            forall|i: int|
                0 <= i < templates@.len() ==> {
                    let (t, v) = #[trigger] r.templates@[i];
                    &&& t == templates@[i].0
                    &&& if binds(templates@[i].1@, "_scenario"@) {
                        v@ == templates@[i].1@
                    } else {
                        &&& v@.len() == templates@[i].1@.len() + 1
                        &&& v@.subrange(0, templates@[i].1@.len() as int) == templates@[i].1@
                        &&& v@.last().0@ == "_scenario"@
                        &&& v@.last().1 matches TemplateVar::Str(s) && s@ == ctx.scenario@
                    }
                },
    {
        let mut out: Templates = Vec::new();
        let mut templates = templates;
        let ghost orig = templates@;
        while templates.len() > 0
            invariant
                orig.len() == out@.len() + templates@.len(),
                templates@ == orig.subrange(out@.len() as int, orig.len() as int),
                forall|i: int|
                    0 <= i < out@.len() ==> {
                        let (t, v) = #[trigger] out@[i];
                        &&& t == orig[i].0
                        &&& if binds(orig[i].1@, "_scenario"@) {
                            v@ == orig[i].1@
                        } else {
                            &&& v@.len() == orig[i].1@.len() + 1
                            &&& v@.subrange(0, orig[i].1@.len() as int) == orig[i].1@
                            &&& v@.last().0@ == "_scenario"@
                            &&& v@.last().1 matches TemplateVar::Str(s) && s@ == ctx.scenario@
                        }
                    },
            decreases templates.len(),
        {
            let (target, mut vars) = templates.remove(0);
            let ghost k = out@.len() as int;
            assert(orig[k] == (target, vars));
            if !binds_exec(&vars, "_scenario") {
                vars.push(("_scenario".to_owned(), TemplateVar::Str(ctx.scenario.clone())));
            }
            out.push((target, vars));
        }
        CpContext { merge, templates: out, base: ctx.base.clone(), dryrun: ctx.dryrun }
    }
}

/// A human-readable identity of a task.
pub open spec fn task_name(t: CpTask) -> Seq<char> {
    "cp "@ + t.src@ + " => "@ + t.dest@
}

impl CpTask {
    /// A human-readable identity of the task.
    pub fn name(&self) -> (r: String)
        ensures
            r@ == task_name(*self),
    {
        "cp ".to_owned().concat(self.src.as_str()).concat(" => ").concat(self.dest.as_str())
    }
}

} // verus!
