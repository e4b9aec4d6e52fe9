//! Flow resolve sidecars: where they live next to a flow, how a read of one is
//! interpreted, and which flow nodes still lack a resolve entry.

use vstd::prelude::*;
use vstd::string::*;
use crate::text::{has_prefix, has_suffix, texts};

verus! {

/// A flow declared by the pack configuration: its id and its file, relative to the
/// pack directory or absolute.
#[derive(Clone, Debug, PartialEq, Eq)]
pub struct FlowConfig {
    pub id: String,
    pub file: String,
}

/// A resolve document (a sidecar or its summary) as far as the rules read it.
#[derive(Clone, Debug, PartialEq, Eq)]
pub struct ResolveDocument {
    pub schema_version: u32,
    /// The flow file the document belongs to.
    pub flow: String,
    /// The nodes that have a resolve entry.
    pub node_ids: Vec<String>,
}

/// A compiled flow as far as the rules read it: its node ids in flow order.
#[derive(Clone, Debug, PartialEq, Eq)]
pub struct CompiledFlow {
    pub node_ids: Vec<String>,
}

/// Where a flow and its resolve files are.
#[derive(Clone, Debug, PartialEq, Eq)]
pub struct FlowLocations {
    pub flow_path: String,
    pub sidecar_path: String,
    pub summary_path: String,
}

/// What reading a sidecar gave.
#[derive(Clone, Debug, PartialEq, Eq)]
pub enum SidecarRead {
    /// The sidecar was read and is valid.
    Loaded(ResolveDocument),
    /// There is no sidecar; the text describes the failed read.
    NotFound(String),
    /// The sidecar could not be read or is invalid; the text describes why.
    Failed(String),
}

/// A discovered sidecar of a configured flow.
#[derive(Clone, Debug, PartialEq, Eq)]
pub struct FlowResolveSidecar {
    pub flow_id: String,
    pub flow_path: String,
    pub sidecar_path: String,
    pub document: Option<ResolveDocument>,
    pub warning: Option<String>,
}

/// Why a flow's resolve data is refused.
#[derive(Clone, Debug, PartialEq, Eq)]
pub enum FlowResolveError {
    /// The sidecar exists but could not be read.
    SidecarReadFailed { flow_id: String, detail: String },
    /// The sidecar, which is required, could not be read.
    SidecarRequired { flow_id: String, sidecar_path: String, detail: String },
    /// Nodes of the flow have no resolve entry in the sidecar.
    MissingResolveEntries { flow_id: String, missing: Vec<String>, sidecar_path: String },
    /// The sidecar, which a summary is generated from, could not be read.
    SummarySidecarRequired { flow_id: String, sidecar_path: String, detail: String },
    /// The summary could not be read.
    SummaryReadFailed { flow_id: String, detail: String },
    /// Nodes of the flow have no entry in the summary.
    MissingSummaryEntries { flow_id: String, missing: Vec<String>, summary_path: String },
}

/// What to do after reading the sidecar of a flow that must have one.
#[derive(Clone, Debug, PartialEq, Eq)]
pub enum SidecarStep {
    /// Use the sidecar that was read.
    Use(ResolveDocument),
    /// Write this new, empty sidecar and use it.
    Create(ResolveDocument),
    /// Stop with this error.
    Fail(FlowResolveError),
}

/// What to do to obtain the resolve summary of a flow.
#[derive(Clone, Copy, Debug, PartialEq, Eq)]
pub enum SummaryStep {
    /// Read the summary that exists.
    Read,
    /// Generate the summary from the sidecar, then read it.
    GenerateThenRead,
}

/// A summary that does not exist is generated from the sidecar before it is read.
pub fn summary_step(summary_exists: bool) -> (r: SummaryStep)
    ensures
        r == (if summary_exists {
            SummaryStep::Read
        } else {
            SummaryStep::GenerateThenRead
        }),
{
    if summary_exists {
        SummaryStep::Read
    } else {
        SummaryStep::GenerateThenRead
    }
}

/// A path that starts at the root.
pub open spec fn is_absolute_path(p: Seq<char>) -> bool {
    p.len() > 0 && p[0] == '/'
}

/// `path` taken relative to `base`, as `Path::join` does: an absolute path stands as it
/// is; otherwise a separator is put between the two unless `base` is empty or ends
/// with one.
pub open spec fn join_path(base: Seq<char>, path: Seq<char>) -> Seq<char> {
    if is_absolute_path(path) {
        path
    } else if base.len() == 0 || base.last() == '/' {
        base + path
    } else {
        base + seq!['/'] + path
    }
}

/// A flow file that does not start with `/` lies under the pack directory: the joined
/// path starts with the directory and ends with the file, with one `/` between them
/// exactly when the directory is not empty and does not already end with one. Only a file
/// that starts with `/` is kept as it is.
pub proof fn law_relative_file_lies_under_base(base: Seq<char>, file: Seq<char>)
    ensures
        file.len() > 0 && file[0] == '/' ==> join_path(base, file) == file,
        !(file.len() > 0 && file[0] == '/') ==> {
            let r = join_path(base, file);
            &&& has_prefix(r, base)
            &&& has_suffix(r, file)
            &&& (base.len() == 0 || base.last() == '/') ==> r.len() == base.len() + file.len()
            &&& (base.len() > 0 && base.last() != '/') ==> {
                &&& r.len() == base.len() + 1 + file.len()
                &&& r[base.len() as int] == '/'
            }
        },
{
    let r = join_path(base, file);
    if !(file.len() > 0 && file[0] == '/') {
        if base.len() == 0 || base.last() == '/' {
            assert(r.subrange(0, base.len() as int) =~= base);
            assert(r.subrange(r.len() - file.len(), r.len() as int) =~= file);
        } else {
            assert(r.subrange(0, base.len() as int) =~= base);
            assert(r.subrange(r.len() - file.len(), r.len() as int) =~= file);
        }
    }
}

/// The flow nodes, in flow order, that have no entry among `covered`.
pub open spec fn missing_nodes(nodes: Seq<Seq<char>>, covered: Seq<Seq<char>>) -> Seq<Seq<char>> {
    nodes.filter(|id: Seq<char>| !covered.contains(id))
}

/// `items` separated by `sep`.
pub open spec fn joined(items: Seq<Seq<char>>, sep: Seq<char>) -> Seq<char>
    decreases items.len(),
{
    if items.len() == 0 {
        Seq::empty()
    } else if items.len() == 1 {
        items[0]
    } else {
        joined(items.drop_last(), sep) + sep + items.last()
    }
}

/// The flow file's path: the file as it is when absolute, else under the pack directory.
pub fn resolve_flow_path(pack_dir: &str, flow: &FlowConfig) -> (r: String)
    ensures
        r@ == join_path(pack_dir@, flow.file@),
        flow.file@.len() > 0 && flow.file@[0] == '/' ==> r@ == flow.file@,
        !(flow.file@.len() > 0 && flow.file@[0] == '/') ==> {
            ||| (pack_dir@.len() == 0 || pack_dir@.last() == '/') && r@ == pack_dir@ + flow.file@
            ||| pack_dir@.len() > 0 && pack_dir@.last() != '/' && r@ == pack_dir@ + seq!['/']
                + flow.file@
        },
{
    let file = flow.file.as_str();
    if file.unicode_len() > 0 && file.get_char(0) == '/' {
        return file.to_owned();
    }
    let n = pack_dir.unicode_len();
    let mut r = pack_dir.to_owned();
    if n > 0 && pack_dir.get_char(n - 1) != '/' {
        r.append("/");
        proof {
            reveal_strlit("/");
            assert("/"@ =~= seq!['/']);
        }
    }
    r.append(file);
    r
}

/// An ASCII letter.
pub open spec fn is_ascii_letter(c: char) -> bool {
    let n = c as int;
    (0x41 <= n && n <= 0x5a) || (0x61 <= n && n <= 0x7a)
}

/// A path that starts with a drive such as `C:`, which Windows reads as a prefix.
pub open spec fn has_drive_prefix(p: Seq<char>) -> bool {
    p.len() >= 2 && is_ascii_letter(p[0]) && p[1] == ':'
}

/// A path that is a bare file name on every platform: not empty, not `.` or `..`,
/// without `/` or `\`, and not starting with a drive such as `C:`.
pub open spec fn is_bare_file_name(p: Seq<char>) -> bool {
    &&& p.len() > 0
    &&& p != seq!['.']
    &&& p != seq!['.', '.']
    &&& !p.contains('/')
    &&& !p.contains('\\')
    &&& !has_drive_prefix(p)
}

/// Index of the last `/` in `p`, or -1 when there is none.
pub open spec fn last_slash(p: Seq<char>) -> int
    decreases p.len(),
{
    if p.len() == 0 {
        -1
    } else if p.last() == '/' {
        p.len() - 1
    } else {
        last_slash(p.drop_last())
    }
}

/// The text of `p` after its last `/` (all of `p` when it has none).
pub open spec fn path_tail(p: Seq<char>) -> Seq<char> {
    p.skip(last_slash(p) + 1)
}

/// The text of `p` before its last `/` (empty when it has none).
pub open spec fn path_head(p: Seq<char>) -> Seq<char> {
    if last_slash(p) < 0 {
        Seq::empty()
    } else {
        p.take(last_slash(p))
    }
}

/// A path whose last `/`-separated part is its file name on every platform: no `\`, no
/// drive such as `C:` at the start, no leading `//`, and a bare file name after the last `/`.
pub open spec fn has_plain_file_name(p: Seq<char>) -> bool {
    &&& !p.contains('\\')
    &&& !has_drive_prefix(p)
    &&& !(p.len() >= 2 && p[0] == '/' && p[1] == '/')
    &&& is_bare_file_name(path_tail(p))
}

/// A path with a plain file name whose directory `Path::parent` gives back as the text
/// before its last `/`: that text neither ends with `/` nor with a `/.` part, which the
/// parent would drop. `.` parts and doubled `/` elsewhere are kept as written.
pub open spec fn is_plain_path(p: Seq<char>) -> bool {
    let h = path_head(p);
    &&& has_plain_file_name(p)
    &&& !(h.len() > 0 && h.last() == '/')
    &&& !(h.len() >= 2 && h.last() == '.' && h[h.len() - 2] == '/')
}

proof fn lemma_last_slash(p: Seq<char>)
    ensures
        -1 <= last_slash(p) < p.len(),
        last_slash(p) >= 0 ==> p[last_slash(p)] == '/',
        forall|j: int| last_slash(p) < j < p.len() ==> p[j] != '/',
    decreases p.len(),
{
    if p.len() > 0 && p.last() != '/' {
        lemma_last_slash(p.drop_last());
        assert forall|j: int| last_slash(p) < j < p.len() implies p[j] != '/' by {
            if j < p.len() - 1 {
                assert(p[j] == p.drop_last()[j]);
            }
        }
        if last_slash(p) >= 0 {
            assert(p[last_slash(p)] == p.drop_last()[last_slash(p)]);
        }
    }
}

/// `r` is `p` followed by `suffix`, the separator before the file name written as the
/// platform writes it: exactly `p + suffix`, or that with the last `/` of `p` written `\`.
pub open spec fn extends_path(p: Seq<char>, suffix: Seq<char>, r: Seq<char>) -> bool {
    ||| r == p + suffix
    ||| last_slash(p) >= 0 && r == p.update(last_slash(p), '\\') + suffix
}

/// The file beside a plain path is that path followed by the suffix: it is as long as
/// both, ends with the suffix, and agrees with the path at every place but the last
/// separator, which stays a separator.
pub proof fn law_file_beside_extends_path(p: Seq<char>, suffix: Seq<char>, r: Seq<char>)
    requires
        is_plain_path(p),
        file_beside(p, suffix, r),
    ensures
        r.len() == p.len() + suffix.len(),
        r.subrange(p.len() as int, r.len() as int) == suffix,
        forall|i: int| 0 <= i < p.len() && i != last_slash(p) ==> #[trigger] r[i] == p[i],
        last_slash(p) >= 0 ==> r[last_slash(p)] == '/' || r[last_slash(p)] == '\\',
        extends_path(p, suffix, r),
{
    lemma_last_slash(p);
    let k = last_slash(p);
    if k >= 0 {
        assert(p =~= path_head(p) + seq!['/'] + path_tail(p));
        if r == path_head(p) + seq!['/'] + path_tail(p) + suffix {
            assert(r =~= p + suffix);
        } else {
            assert(r =~= p.update(k, '\\') + suffix);
        }
    } else {
        assert(r == p + suffix);
    }
    assert(r.subrange(p.len() as int, r.len() as int) =~= suffix);
}

/// `r` is the file named like the file of `p` followed by `suffix`, in the directory of
/// `p`: it ends with `suffix`; for a plain path it is the text before the last `/`, a
/// separator (`/`, or `\` where that is the platform's), the file name and `suffix`.
pub open spec fn file_beside(p: Seq<char>, suffix: Seq<char>, r: Seq<char>) -> bool {
    &&& has_suffix(r, suffix)
    &&& is_plain_path(p) && last_slash(p) < 0 ==> r == p + suffix
    &&& is_plain_path(p) && last_slash(p) >= 0 ==> {
        ||| r == path_head(p) + seq!['/'] + path_tail(p) + suffix
        ||| r == path_head(p) + seq!['\\'] + path_tail(p) + suffix
    }
}

/// Calls `greentic_types::flow_resolve::sidecar_path_for_flow`, which replaces the file
/// name of the flow path by that name followed by `.resolve.json` (`Path::with_file_name`).
/// Stated: the result ends with `.resolve.json` and, for a plain path, is the flow's
/// directory, one separator, the file name and the suffix. Not stated: the result for
/// other paths, which follows the platform's path syntax.
#[verifier::external_body]
fn sidecar_path_for_flow(flow_path: &str) -> (r: String)
    ensures
        file_beside(flow_path@, ".resolve.json"@, r@),
{
    greentic_types::flow_resolve::sidecar_path_for_flow(std::path::Path::new(flow_path))
        .to_string_lossy()
        .into_owned()
}

/// Calls `greentic_types::flow_resolve_summary::resolve_summary_path_for_flow`, which
/// replaces the file name of the flow path by that name followed by
/// `.resolve.summary.json` (`Path::with_file_name`). Stated: the result ends with
/// `.resolve.summary.json` and, for a plain path, is the flow's directory, one separator,
/// the file name and the suffix. Not stated: the result for other paths, which follows the
/// platform's path syntax.
#[verifier::external_body]
fn resolve_summary_path_for_flow(flow_path: &str) -> (r: String)
    ensures
        file_beside(flow_path@, ".resolve.summary.json"@, r@),
{
    greentic_types::flow_resolve_summary::resolve_summary_path_for_flow(
        std::path::Path::new(flow_path),
    ).to_string_lossy().into_owned()
}

/// Where a configured flow and its sidecar and summary are.
pub fn flow_locations(pack_dir: &str, flow: &FlowConfig) -> (r: FlowLocations)
    ensures
        r.flow_path@ == join_path(pack_dir@, flow.file@),
        file_beside(r.flow_path@, ".resolve.json"@, r.sidecar_path@),
        file_beside(r.flow_path@, ".resolve.summary.json"@, r.summary_path@),
        is_plain_path(r.flow_path@) ==> extends_path(r.flow_path@, ".resolve.json"@, r.sidecar_path@),
        is_plain_path(r.flow_path@) ==> extends_path(
            r.flow_path@,
            ".resolve.summary.json"@,
            r.summary_path@,
        ),
{
    let flow_path = resolve_flow_path(pack_dir, flow);
    let sidecar_path = sidecar_path_for_flow(flow_path.as_str());
    let summary_path = resolve_summary_path_for_flow(flow_path.as_str());
    proof {
        if is_plain_path(flow_path@) {
            law_file_beside_extends_path(flow_path@, ".resolve.json"@, sidecar_path@);
            law_file_beside_extends_path(flow_path@, ".resolve.summary.json"@, summary_path@);
        }
    }
    FlowLocations { flow_path, sidecar_path, summary_path }
}

/// Whether `ids` holds a string equal to `id`.
fn holds(ids: &Vec<String>, id: &String) -> (b: bool)
    ensures
        b == texts(ids@).contains(id@),
{
    let mut i: usize = 0;
    while i < ids.len()
        invariant
            i <= ids@.len(),
            forall|k: int| 0 <= k < i ==> ids@[k]@ != id@,
        decreases ids@.len() - i,
    {
        if ids[i] == *id {
            assert(texts(ids@)[i as int] == id@);
            return true;
        }
        i = i + 1;
    }
    assert(!texts(ids@).contains(id@)) by {
        if texts(ids@).contains(id@) {
            let k = choose|k: int| 0 <= k < texts(ids@).len() && texts(ids@)[k] == id@;
            assert(ids@[k]@ == id@);
        }
    }
    false
}

/// The nodes of `nodes`, in order, that `covered` has no entry for.
fn nodes_without_entry(nodes: &Vec<String>, covered: &Vec<String>) -> (r: Vec<String>)
    ensures
        texts(r@) == missing_nodes(texts(nodes@), texts(covered@)),
{
    let ghost pred = |id: Seq<char>| !texts(covered@).contains(id);
    let mut r: Vec<String> = Vec::new();
    let mut i: usize = 0;
    assert(texts(nodes@).take(0) =~= Seq::<Seq<char>>::empty());
    assert(texts(r@) =~= Seq::<Seq<char>>::empty());
    proof {
        reveal(Seq::filter);
    }
    while i < nodes.len()
        invariant
            i <= nodes@.len(),
            texts(r@) == texts(nodes@).take(i as int).filter(pred),
            pred == (|id: Seq<char>| !texts(covered@).contains(id)),
        decreases nodes@.len() - i,
    {
        let ghost before = texts(nodes@).take(i as int);
        let ghost after = texts(nodes@).take(i + 1);
        assert(after.drop_last() =~= before);
        assert(after.last() == nodes@[i as int]@);
        proof {
            reveal(Seq::filter);
        }
        if !holds(covered, &nodes[i]) {
            r.push(nodes[i].clone());
            assert(texts(r@) =~= texts(r@).drop_last().push(nodes@[i as int]@));
            assert(texts(r@).drop_last() =~= before.filter(pred));
        }
        i = i + 1;
    }
    assert(texts(nodes@).take(nodes@.len() as int) =~= texts(nodes@));
    r
}

/// Compute which nodes in a flow lack resolve entries.
pub fn missing_node_mappings(flow: &CompiledFlow, doc: &ResolveDocument) -> (r: Vec<String>)
    ensures
        texts(r@) == missing_nodes(texts(flow.node_ids@), texts(doc.node_ids@)),
        flow.well_formed() ==> texts(r@).no_duplicates(),
{
    let r = nodes_without_entry(&flow.node_ids, &doc.node_ids);
    proof {
        if flow.well_formed() {
            law_missing_nodes_distinct(texts(flow.node_ids@), texts(doc.node_ids@));
        }
    }
    r
}

/// Compute which nodes in a flow lack resolve summary entries.
pub fn missing_summary_node_mappings(flow: &CompiledFlow, doc: &ResolveDocument) -> (r: Vec<
    String,
>)
    ensures
        texts(r@) == missing_nodes(texts(flow.node_ids@), texts(doc.node_ids@)),
        flow.well_formed() ==> texts(r@).no_duplicates(),
{
    let r = nodes_without_entry(&flow.node_ids, &doc.node_ids);
    proof {
        if flow.well_formed() {
            law_missing_nodes_distinct(texts(flow.node_ids@), texts(doc.node_ids@));
        }
    }
    r
}

impl CompiledFlow {
    /// The node ids are distinct, as the keys of the flow's node map are.
    pub open spec fn well_formed(self) -> bool {
        texts(self.node_ids@).no_duplicates()
    }
}

/// A flow with distinct node ids gets distinct missing ids.
pub proof fn law_missing_nodes_distinct(nodes: Seq<Seq<char>>, covered: Seq<Seq<char>>)
    requires
        nodes.no_duplicates(),
    ensures
        missing_nodes(nodes, covered).no_duplicates(),
    decreases nodes.len(),
{
    reveal(Seq::filter);
    if nodes.len() > 0 {
        let rest = nodes.drop_last();
        let last = nodes.last();
        assert(rest.no_duplicates()) by {
            assert forall|i: int, j: int|
                0 <= i < rest.len() && 0 <= j < rest.len() && i != j implies rest[i] != rest[j] by {
                assert(rest[i] == nodes[i] && rest[j] == nodes[j]);
            }
        }
        law_missing_nodes_distinct(rest, covered);
        let m = missing_nodes(rest, covered);
        if !covered.contains(last) {
            law_missing_nodes_are_uncovered(rest, covered, last);
            assert(!rest.contains(last)) by {
                if rest.contains(last) {
                    let k = choose|k: int| 0 <= k < rest.len() && rest[k] == last;
                    assert(nodes[k] == nodes[nodes.len() - 1]);
                }
            }
            let mp = m.push(last);
            assert forall|i: int, j: int|
                0 <= i < mp.len() && 0 <= j < mp.len() && i != j implies mp[i] != mp[j] by {
                if i < m.len() && j < m.len() {
                    assert(mp[i] == m[i] && mp[j] == m[j]);
                } else if i < m.len() {
                    assert(m.contains(mp[i]));
                } else {
                    assert(m.contains(mp[j]));
                }
            }
        }
    }
}

/// More resolve entries never add a missing node.
pub proof fn law_more_entries_fewer_missing(
    nodes: Seq<Seq<char>>,
    covered: Seq<Seq<char>>,
    more: Seq<Seq<char>>,
)
    requires
        forall|x: Seq<char>| covered.contains(x) ==> more.contains(x),
    ensures
        forall|x: Seq<char>|
            missing_nodes(nodes, more).contains(x) ==> missing_nodes(nodes, covered).contains(x),
{
    assert forall|x: Seq<char>| missing_nodes(nodes, more).contains(x) implies missing_nodes(
        nodes,
        covered,
    ).contains(x) by {
        law_missing_nodes_are_uncovered(nodes, more, x);
        law_missing_nodes_are_uncovered(nodes, covered, x);
    }
}

/// More resolve entries leave, in order, exactly those of the nodes missing before that
/// the new entries do not cover: the missing nodes shrink to a subsequence.
pub proof fn law_more_entries_missing_subsequence(
    nodes: Seq<Seq<char>>,
    covered: Seq<Seq<char>>,
    more: Seq<Seq<char>>,
)
    requires
        forall|x: Seq<char>| covered.contains(x) ==> more.contains(x),
    ensures
        missing_nodes(nodes, more) == missing_nodes(nodes, covered).filter(
            |x: Seq<char>| !more.contains(x),
        ),
    decreases nodes.len(),
{
    reveal(Seq::filter);
    if nodes.len() > 0 {
        law_more_entries_missing_subsequence(nodes.drop_last(), covered, more);
        let last = nodes.last();
        let before = missing_nodes(nodes.drop_last(), covered);
        if !covered.contains(last) {
            assert(missing_nodes(nodes, covered) == before.push(last));
            assert(before.push(last).drop_last() =~= before);
        }
    }
}

/// Entries for ids that are not nodes of the flow change nothing: two documents that agree
/// on the flow's nodes report the same missing nodes.
pub proof fn law_entries_for_other_ids_irrelevant(
    nodes: Seq<Seq<char>>,
    covered: Seq<Seq<char>>,
    other: Seq<Seq<char>>,
)
    requires
        forall|i: int|
            0 <= i < nodes.len() ==> covered.contains(#[trigger] nodes[i]) == other.contains(
                nodes[i],
            ),
    ensures
        missing_nodes(nodes, covered) == missing_nodes(nodes, other),
    decreases nodes.len(),
{
    reveal(Seq::filter);
    if nodes.len() > 0 {
        let rest = nodes.drop_last();
        assert forall|i: int| 0 <= i < rest.len() implies covered.contains(#[trigger] rest[i])
            == other.contains(rest[i]) by {
            assert(rest[i] == nodes[i]);
        }
        law_entries_for_other_ids_irrelevant(rest, covered, other);
        assert(nodes.last() == nodes[nodes.len() - 1]);
    }
}

/// A node is reported missing exactly when the flow has it and the document has no
/// entry for it.
pub proof fn law_missing_nodes_are_uncovered(
    nodes: Seq<Seq<char>>,
    covered: Seq<Seq<char>>,
    id: Seq<char>,
)
    ensures
        missing_nodes(nodes, covered).contains(id) == (nodes.contains(id) && !covered.contains(id)),
{
    broadcast use vstd::seq_lib::group_filter_ensures;

    let pred = |x: Seq<char>| !covered.contains(x);
    let m = nodes.filter(pred);
    if m.contains(id) {
        nodes.lemma_filter_contains_rev(pred, id);
        let k = choose|k: int| 0 <= k < m.len() && m[k] == id;
        assert(pred(m[k]));
    }
    if nodes.contains(id) && !covered.contains(id) {
        let k = choose|k: int| 0 <= k < nodes.len() && nodes[k] == id;
        assert(pred(nodes[k]));
    }
}

/// No node is reported missing exactly when the document has an entry for every node
/// of the flow.
pub proof fn law_no_missing_nodes_iff_covered(nodes: Seq<Seq<char>>, covered: Seq<Seq<char>>)
    ensures
        (missing_nodes(nodes, covered).len() == 0) == (forall|i: int|
            0 <= i < nodes.len() ==> covered.contains(#[trigger] nodes[i])),
{
    let m = missing_nodes(nodes, covered);
    if m.len() > 0 {
        law_missing_nodes_are_uncovered(nodes, covered, m[0]);
        assert(m.contains(m[0]));
        let k = choose|k: int| 0 <= k < nodes.len() && nodes[k] == m[0];
        assert(!covered.contains(nodes[k]));
    } else {
        assert forall|i: int| 0 <= i < nodes.len() implies covered.contains(#[trigger] nodes[i]) by {
            law_missing_nodes_are_uncovered(nodes, covered, nodes[i]);
            assert(nodes.contains(nodes[i]));
        }
    }
}

/// Against a document with no entries (such as a newly created sidecar) every node
/// of the flow is reported missing, in flow order.
pub proof fn law_empty_document_misses_every_node(nodes: Seq<Seq<char>>)
    ensures
        missing_nodes(nodes, Seq::empty()) == nodes,
    decreases nodes.len(),
{
    reveal(Seq::filter);
    if nodes.len() > 0 {
        law_empty_document_misses_every_node(nodes.drop_last());
        assert(nodes.drop_last().push(nodes.last()) =~= nodes);
    }
}

/// `items` joined by `sep`.
pub fn join_texts(items: &Vec<String>, sep: &str) -> (r: String)
    ensures
        r@ == joined(texts(items@), sep@),
{
    let mut r = String::new();
    let mut i: usize = 0;
    assert(texts(items@).take(0) =~= Seq::<Seq<char>>::empty());
    while i < items.len()
        invariant
            i <= items@.len(),
            r@ == joined(texts(items@).take(i as int), sep@),
        decreases items@.len() - i,
    {
        let ghost t = texts(items@).take(i + 1);
        assert(t.drop_last() =~= texts(items@).take(i as int));
        assert(t.last() == items@[i as int]@);
        if i > 0 {
            r.append(sep);
        } else {
            assert(t =~= seq![items@[0]@]);
        }
        r.append(items[i].as_str());
        i = i + 1;
    }
    assert(texts(items@).take(items@.len() as int) =~= texts(items@));
    r
}

/// The separator of node lists in messages.
pub open spec fn list_separator() -> Seq<char> {
    ", "@
}

/// The warning printed when the sidecar of a flow lacks entries and that is tolerated.
pub open spec fn coverage_warning_text(
    flow_id: Seq<char>,
    missing: Seq<Seq<char>>,
    sidecar_path: Seq<char>,
) -> Seq<char> {
    "warning: flow "@ + flow_id + " has no resolve entries for nodes "@ + joined(
        missing,
        list_separator(),
    ) + " ("@ + sidecar_path
        + "); add mappings to the sidecar and rerun `greentic-pack resolve`"@
}

/// The warning of a discovered sidecar that does not exist.
pub open spec fn missing_sidecar_text(flow_id: Seq<char>, sidecar_path: Seq<char>) -> Seq<char> {
    "flow resolve sidecar missing for "@ + flow_id + " ("@ + sidecar_path + ")"@
}

/// The warning of a discovered sidecar that could not be read.
pub open spec fn unreadable_sidecar_text(flow_id: Seq<char>, detail: Seq<char>) -> Seq<char> {
    "failed to read flow resolve sidecar for "@ + flow_id + ": "@ + detail
}

impl FlowResolveError {
    /// The text of the error.
    pub open spec fn text(self) -> Seq<char> {
        match self {
            FlowResolveError::SidecarReadFailed { flow_id, detail } => unreadable_sidecar_text(
                flow_id@,
                detail@,
            ),
            FlowResolveError::SidecarRequired { flow_id, sidecar_path, detail } => "flow "@
                + flow_id@ + " requires a resolve sidecar; expected "@ + sidecar_path@ + ": "@
                + detail@,
            FlowResolveError::MissingResolveEntries { flow_id, missing, sidecar_path } => "flow "@
                + flow_id@ + " is missing resolve entries for nodes "@ + joined(
                texts(missing@),
                list_separator(),
            ) + " (sidecar "@ + sidecar_path@
                + "). Add mappings to the sidecar, then rerun `greentic-pack resolve` followed by `greentic-pack build`."@,
            FlowResolveError::SummarySidecarRequired { flow_id, sidecar_path, detail } => "flow "@
                + flow_id@ + " requires a resolve sidecar to generate summary; expected "@
                + sidecar_path@ + ": "@ + detail@,
            FlowResolveError::SummaryReadFailed { flow_id, detail } =>
                "failed to read flow resolve summary for "@ + flow_id@ + ": "@ + detail@,
            FlowResolveError::MissingSummaryEntries { flow_id, missing, summary_path } => "flow "@
                + flow_id@ + " is missing resolve summary entries for nodes "@ + joined(
                texts(missing@),
                list_separator(),
            ) + " (summary "@ + summary_path@
                + "). Regenerate the summary and rerun build."@,
        }
    }

    /// The message shown for the error.
    pub fn message(&self) -> (m: String)
        ensures
            m@ == self.text(),
    {
        match self {
            FlowResolveError::SidecarReadFailed { flow_id, detail } => {
                let mut m = "failed to read flow resolve sidecar for ".to_owned();
                m.append(flow_id.as_str());
                m.append(": ");
                m.append(detail.as_str());
                m
            },
            FlowResolveError::SidecarRequired { flow_id, sidecar_path, detail } => {
                let mut m = "flow ".to_owned();
                m.append(flow_id.as_str());
                m.append(" requires a resolve sidecar; expected ");
                m.append(sidecar_path.as_str());
                m.append(": ");
                m.append(detail.as_str());
                m
            },
            FlowResolveError::MissingResolveEntries { flow_id, missing, sidecar_path } => {
                let mut m = "flow ".to_owned();
                m.append(flow_id.as_str());
                m.append(" is missing resolve entries for nodes ");
                let list = join_texts(missing, ", ");
                m.append(list.as_str());
                m.append(" (sidecar ");
                m.append(sidecar_path.as_str());
                m.append(
                    "). Add mappings to the sidecar, then rerun `greentic-pack resolve` followed by `greentic-pack build`.",
                );
                m
            },
            FlowResolveError::SummarySidecarRequired { flow_id, sidecar_path, detail } => {
                let mut m = "flow ".to_owned();
                m.append(flow_id.as_str());
                m.append(" requires a resolve sidecar to generate summary; expected ");
                m.append(sidecar_path.as_str());
                m.append(": ");
                m.append(detail.as_str());
                m
            },
            FlowResolveError::SummaryReadFailed { flow_id, detail } => {
                let mut m = "failed to read flow resolve summary for ".to_owned();
                m.append(flow_id.as_str());
                m.append(": ");
                m.append(detail.as_str());
                m
            },
            FlowResolveError::MissingSummaryEntries { flow_id, missing, summary_path } => {
                let mut m = "flow ".to_owned();
                m.append(flow_id.as_str());
                m.append(" is missing resolve summary entries for nodes ");
                let list = join_texts(missing, ", ");
                m.append(list.as_str());
                m.append(" (summary ");
                m.append(summary_path.as_str());
                m.append("). Regenerate the summary and rerun build.");
                m
            },
        }
    }
}

/// The sidecar record of a configured flow, from what reading its sidecar gave:
/// missing or unreadable sidecars produce warnings but do not fail.
pub fn discovered_sidecar(flow: &FlowConfig, locations: FlowLocations, read: SidecarRead) -> (r:
    FlowResolveSidecar)
    ensures
        r.flow_id == flow.id,
        r.flow_path == locations.flow_path,
        r.sidecar_path == locations.sidecar_path,
        match read {
            SidecarRead::Loaded(doc) => r.document == Some(doc) && r.warning is None,
            SidecarRead::NotFound(_) => r.document is None && r.warning is Some
                && r.warning.unwrap()@ == missing_sidecar_text(flow.id@, locations.sidecar_path@),
            SidecarRead::Failed(detail) => r.document is None && r.warning is Some
                && r.warning.unwrap()@ == unreadable_sidecar_text(flow.id@, detail@),
        },
{
    let (document, warning) = match read {
        SidecarRead::Loaded(doc) => (Some(doc), None),
        SidecarRead::NotFound(_) => {
            let mut w = "flow resolve sidecar missing for ".to_owned();
            w.append(flow.id.as_str());
            w.append(" (");
            w.append(locations.sidecar_path.as_str());
            w.append(")");
            (None, Some(w))
        },
        SidecarRead::Failed(detail) => {
            let mut w = "failed to read flow resolve sidecar for ".to_owned();
            w.append(flow.id.as_str());
            w.append(": ");
            w.append(detail.as_str());
            (None, Some(w))
        },
    };
    FlowResolveSidecar {
        flow_id: flow.id.clone(),
        flow_path: locations.flow_path,
        sidecar_path: locations.sidecar_path,
        document,
        warning,
    }
}

/// What to do once the sidecar of a flow that must have one has been read: use it, create
/// an empty one for the flow file when there is none, or fail.
pub fn ensure_sidecar_step(flow: &FlowConfig, read: SidecarRead) -> (r: SidecarStep)
    ensures
        match read {
            SidecarRead::Loaded(doc) => r == SidecarStep::Use(doc),
            SidecarRead::NotFound(_) => match r {
                SidecarStep::Create(doc) => doc.schema_version == 1 && doc.flow == flow.file
                    && doc.node_ids@.len() == 0,
                _ => false,
            },
            SidecarRead::Failed(detail) => r == SidecarStep::Fail(
                FlowResolveError::SidecarReadFailed { flow_id: flow.id, detail },
            ),
        },
{
    match read {
        SidecarRead::Loaded(doc) => SidecarStep::Use(doc),
        SidecarRead::NotFound(_) => SidecarStep::Create(
            ResolveDocument { schema_version: 1, flow: flow.file.clone(), node_ids: Vec::new() },
        ),
        SidecarRead::Failed(detail) => SidecarStep::Fail(
            FlowResolveError::SidecarReadFailed { flow_id: flow.id.clone(), detail },
        ),
    }
}

/// The refusal of a flow whose sidecar lacks entries for `missing`.
pub open spec fn is_missing_entries_error(
    e: FlowResolveError,
    flow: FlowConfig,
    missing: Seq<Seq<char>>,
    sidecar_path: String,
) -> bool {
    match e {
        FlowResolveError::MissingResolveEntries { flow_id, missing: m, sidecar_path: p } => {
            &&& flow_id == flow.id
            &&& texts(m@) == missing
            &&& p == sidecar_path
        },
        _ => false,
    }
}

/// Checks that the sidecar covers every node of the compiled flow: missing node mappings
/// give a warning to print, or an error when `strict` is set.
pub fn ensure_sidecar_coverage(
    flow: &FlowConfig,
    compiled: &CompiledFlow,
    doc: &ResolveDocument,
    strict: bool,
    sidecar_path: &String,
) -> (r: Result<Option<String>, FlowResolveError>)
    ensures
        ({
            let missing = missing_nodes(texts(compiled.node_ids@), texts(doc.node_ids@));
            &&& missing.len() == 0 ==> r == Ok::<Option<String>, FlowResolveError>(None)
            &&& missing.len() > 0 && strict ==> r is Err && is_missing_entries_error(
                r->Err_0,
                *flow,
                missing,
                *sidecar_path,
            )
            &&& missing.len() > 0 && !strict ==> r is Ok && r->Ok_0 is Some && r->Ok_0->Some_0@
                == coverage_warning_text(flow.id@, missing, sidecar_path@)
        }),
{
    let missing = missing_node_mappings(compiled, doc);
    if missing.len() == 0 {
        return Ok(None);
    }
    if strict {
        return Err(
            FlowResolveError::MissingResolveEntries {
                flow_id: flow.id.clone(),
                missing,
                sidecar_path: sidecar_path.clone(),
            },
        );
    }
    let mut w = "warning: flow ".to_owned();
    w.append(flow.id.as_str());
    w.append(" has no resolve entries for nodes ");
    let list = join_texts(&missing, ", ");
    w.append(list.as_str());
    w.append(" (");
    w.append(sidecar_path.as_str());
    w.append("); add mappings to the sidecar and rerun `greentic-pack resolve`");
    Ok(Some(w))
}

/// Require that a resolve sidecar exists and covers every node in the compiled flow, from
/// what reading the sidecar at `sidecar_path` gave.
pub fn enforce_sidecar_mappings(
    flow: &FlowConfig,
    compiled: &CompiledFlow,
    sidecar_path: &String,
    read: SidecarRead,
) -> (r: Result<(), FlowResolveError>)
    ensures
        match read {
            SidecarRead::Loaded(doc) => {
                let missing = missing_nodes(texts(compiled.node_ids@), texts(doc.node_ids@));
                &&& missing.len() == 0 ==> r is Ok
                &&& missing.len() > 0 ==> r is Err && is_missing_entries_error(
                    r->Err_0,
                    *flow,
                    missing,
                    *sidecar_path,
                )
            },
            SidecarRead::NotFound(detail) => r == Err::<(), FlowResolveError>(
                FlowResolveError::SidecarRequired {
                    flow_id: flow.id,
                    sidecar_path: *sidecar_path,
                    detail,
                },
            ),
            SidecarRead::Failed(detail) => r == Err::<(), FlowResolveError>(
                FlowResolveError::SidecarRequired {
                    flow_id: flow.id,
                    sidecar_path: *sidecar_path,
                    detail,
                },
            ),
        },
{
    match read {
        SidecarRead::Loaded(doc) => match ensure_sidecar_coverage(
            flow,
            compiled,
            &doc,
            true,
            sidecar_path,
        ) {
            Ok(_) => Ok(()),
            Err(e) => Err(e),
        },
        SidecarRead::NotFound(detail) => Err(
            FlowResolveError::SidecarRequired {
                flow_id: flow.id.clone(),
                sidecar_path: sidecar_path.clone(),
                detail,
            },
        ),
        SidecarRead::Failed(detail) => Err(
            FlowResolveError::SidecarRequired {
                flow_id: flow.id.clone(),
                sidecar_path: sidecar_path.clone(),
                detail,
            },
        ),
    }
}

/// Requires that the summary covers every node of the compiled flow; the summary path
/// named in the error is the one that belongs to `flow_path`.
pub fn enforce_summary_mappings(
    flow: &FlowConfig,
    compiled: &CompiledFlow,
    summary: &ResolveDocument,
    flow_path: &str,
) -> (r: Result<(), FlowResolveError>)
    ensures
        ({
            let missing = missing_nodes(texts(compiled.node_ids@), texts(summary.node_ids@));
            &&& missing.len() == 0 ==> r is Ok
            &&& missing.len() > 0 ==> match r {
                Err(FlowResolveError::MissingSummaryEntries { flow_id, missing: m, summary_path }) => {
                    &&& flow_id == flow.id
                    &&& texts(m@) == missing
                    &&& file_beside(flow_path@, ".resolve.summary.json"@, summary_path@)
                    &&& is_plain_path(flow_path@) ==> extends_path(
                        flow_path@,
                        ".resolve.summary.json"@,
                        summary_path@,
                    )
                },
                _ => false,
            }
        }),
{
    let missing = missing_summary_node_mappings(compiled, summary);
    if missing.len() == 0 {
        return Ok(());
    }
    let summary_path = resolve_summary_path_for_flow(flow_path);
    proof {
        if is_plain_path(flow_path@) {
            law_file_beside_extends_path(flow_path@, ".resolve.summary.json"@, summary_path@);
        }
    }
    Err(
        FlowResolveError::MissingSummaryEntries {
            flow_id: flow.id.clone(),
            missing,
            summary_path,
        },
    )
}

} // verus!
