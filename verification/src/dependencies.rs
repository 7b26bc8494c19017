//! The dependency and outline scanner. Starting from a root path it reads
//! each file from the store, collects its heading outline, parses its
//! dependency-introducing commands, and recurses into every referenced path
//! not seen before; a path seen twice is emitted as a childless leaf, so the
//! scan terminates even on cyclic include graphs, and a missing file is a
//! leaf rather than an error.

use vstd::prelude::*;
use crate::vfs::Vfs;
use crate::text::is_match_at;
use crate::text::match_at;
use crate::text::spec_find;
use crate::text::find_from;
use crate::text::lemma_find_props;
use crate::text::spec_trim;
use crate::text::trim_str;
use crate::text::spec_ensure_suffix;
use crate::text::ensure_suffix;
use crate::text::spec_split_on;
use crate::text::split_on;
use crate::text::spec_lines;
use crate::text::split_lines;
use crate::text::spec_scan_cmds;
use crate::text::scan_cmds;
use crate::text::name_views;
use crate::text::all_names_ok;
use crate::text::str_eq;
use crate::text::lossy_of;
use crate::text::decode_lossy;
use vstd::set_lib::lemma_len_subset;

verus! {

/// One heading: its title, its level (part 0, chapter 1, section 2,
/// subsection 3), the file it stands in and its 1-based source line.
pub struct OutlineItem {
    pub title: String,
    pub level: usize,
    pub file_name: String,
    pub line: usize,
}

/// The mathematical image of an outline item.
pub struct OutlineModel {
    pub title: Seq<char>,
    pub level: int,
    pub file_name: Seq<char>,
    pub line: int,
}

impl View for OutlineItem {
    type V = OutlineModel;

    open spec fn view(&self) -> OutlineModel {
        OutlineModel {
            title: self.title@,
            level: self.level as int,
            file_name: self.file_name@,
            line: self.line as int,
        }
    }
}

/// One node of the dependency tree: a file, its children in reference
/// order, and its outline.
pub struct DependencyNode {
    pub name: String,
    pub children: Vec<DependencyNode>,
    pub outline: Vec<OutlineItem>,
}

/// The mathematical image of a dependency node.
pub struct NodeModel {
    pub name: Seq<char>,
    pub children: Seq<NodeModel>,
    pub outline: Seq<OutlineModel>,
}

pub open spec fn outline_models(os: Seq<OutlineItem>) -> Seq<OutlineModel> {
    os.map_values(|o: OutlineItem| o@)
}

pub open spec fn node_model(n: DependencyNode) -> NodeModel
    decreases n,
{
    NodeModel {
        name: n.name@,
        children: children_models(n.children@),
        outline: outline_models(n.outline@),
    }
}

pub open spec fn children_models(cs: Seq<DependencyNode>) -> Seq<NodeModel>
    decreases cs,
{
    if cs.len() == 0 {
        Seq::empty()
    } else {
        seq![node_model(cs[0])] + children_models(cs.drop_first())
    }
}

proof fn lemma_children_models_push(cs: Seq<DependencyNode>, n: DependencyNode)
    ensures
        children_models(cs.push(n)) =~= children_models(cs) + seq![node_model(n)],
    decreases cs.len(),
{
    if cs.len() == 0 {
        assert(cs.push(n)[0] == n);
        assert(cs.push(n).drop_first() =~= Seq::<DependencyNode>::empty());
        assert(children_models(cs.push(n)) == seq![node_model(n)] + children_models(
            Seq::<DependencyNode>::empty(),
        ));
    } else {
        assert(cs.push(n).drop_first() =~= cs.drop_first().push(n));
        lemma_children_models_push(cs.drop_first(), n);
        assert(cs.push(n)[0] == cs[0]);
        assert(children_models(cs.push(n)) == seq![node_model(cs[0])] + children_models(
            cs.drop_first().push(n),
        ));
        assert(children_models(cs) == seq![node_model(cs[0])] + children_models(cs.drop_first()));
    }
}

/// A childless node for `name`, as emitted for missing or revisited files.
pub open spec fn leaf_model(name: Seq<char>) -> NodeModel {
    NodeModel { name, children: Seq::empty(), outline: Seq::empty() }
}

// --- dependency-introducing commands ---

/// The commands that introduce dependency edges, in matching order.
pub open spec fn dep_names() -> Seq<Seq<char>> {
    seq!["\\input{"@, "\\include{"@, "\\bibliography{"@, "\\usepackage{"@]
}

/// The extension appended to an argument of the command at index `k` when
/// the argument does not already carry it.
pub open spec fn ext_of(k: int) -> Seq<char> {
    if k == 2 {
        ".bib"@
    } else if k == 3 {
        ".sty"@
    } else {
        ".tex"@
    }
}

fn dep_cmd_names() -> (r: Vec<&'static str>)
    ensures
        name_views(r@) == dep_names(),
        all_names_ok(dep_names()),
{
    let mut r: Vec<&'static str> = Vec::new();
    r.push("\\input{");
    r.push("\\include{");
    r.push("\\bibliography{");
    r.push("\\usepackage{");
    proof {
        reveal_strlit("\\input{");
        reveal_strlit("\\include{");
        reveal_strlit("\\bibliography{");
        reveal_strlit("\\usepackage{");
        assert(name_views(r@) =~= dep_names());
        assert(all_names_ok(dep_names())) by {
            assert(dep_names()[0].len() >= 1);
            assert(dep_names()[1].len() >= 1);
            assert(dep_names()[2].len() >= 1);
            assert(dep_names()[3].len() >= 1);
        }
    }
    r
}

fn ext_str(k: usize) -> (r: &'static str)
    ensures
        r@ == ext_of(k as int),
{
    if k == 2 {
        ".bib"
    } else if k == 3 {
        ".sty"
    } else {
        ".tex"
    }
}

/// The paths contributed by the comma-separated pieces of one argument from
/// position `i` on: each piece trimmed, empty pieces skipped, the command's
/// extension appended where absent.
pub open spec fn spec_paths_of_parts(parts: Seq<Seq<char>>, i: int, ext: Seq<char>) -> Seq<
    Seq<char>,
>
    decreases parts.len() - i,
    when 0 <= i
{
    if i >= parts.len() {
        Seq::empty()
    } else {
        let t = spec_trim(parts[i]);
        if t.len() > 0 {
            seq![spec_ensure_suffix(t, ext)] + spec_paths_of_parts(parts, i + 1, ext)
        } else {
            spec_paths_of_parts(parts, i + 1, ext)
        }
    }
}

pub open spec fn spec_paths_of_cmd(k: int, arg: Seq<char>) -> Seq<Seq<char>> {
    spec_paths_of_parts(spec_split_on(arg, ','), 0, ext_of(k))
}

pub open spec fn spec_child_paths_from(cmds: Seq<(int, Seq<char>)>, i: int) -> Seq<Seq<char>>
    decreases cmds.len() - i,
    when 0 <= i
{
    if i >= cmds.len() {
        Seq::empty()
    } else {
        spec_paths_of_cmd(cmds[i].0, cmds[i].1) + spec_child_paths_from(cmds, i + 1)
    }
}

/// The referenced paths of a file's text, in reference order.
pub open spec fn spec_child_paths(content: Seq<char>) -> Seq<Seq<char>> {
    spec_child_paths_from(spec_scan_cmds(content, dep_names(), 0), 0)
}

/// The views of a path list.
pub open spec fn path_views(v: Seq<String>) -> Seq<Seq<char>> {
    v.map_values(|p: String| p@)
}

proof fn lemma_path_views_last(v: Seq<String>)
    requires
        v.len() > 0,
    ensures
        path_views(v) =~= path_views(v.drop_last()) + seq![v.last()@],
{
}

/// Appends the paths contributed by one command's argument.
fn push_paths_of_cmd(k: usize, arg: &str, out: &mut Vec<String>)
    ensures
        path_views(final(out)@) =~= path_views(old(out)@) + spec_paths_of_cmd(k as int, arg@),
{
    let ext = ext_str(k);
    let parts = split_on(arg, ',');
    let ghost partsv = spec_split_on(arg@, ',');
    assert(parts@.map_values(|p: String| p@) == partsv);
    let mut j: usize = 0;
    while j < parts.len()
        invariant
            0 <= j <= parts@.len(),
            parts@.map_values(|p: String| p@) == partsv,
            ext@ == ext_of(k as int),
            path_views(out@) + spec_paths_of_parts(partsv, j as int, ext@) =~= path_views(
                old(out)@,
            ) + spec_paths_of_cmd(k as int, arg@),
        decreases parts@.len() - j,
    {
        assert(partsv[j as int] == parts@[j as int]@);
        let t = trim_str(parts[j].as_str());
        if t.as_str().unicode_len() > 0 {
            let ghost before = out@;
            let p = ensure_suffix(t.as_str(), ext);
            out.push(p);
            proof {
                lemma_path_views_last(out@);
                assert(out@.drop_last() =~= before);
            }
        }
        j += 1;
    }
}

/// The referenced paths of `content`, in order.
pub fn child_paths(content: &str) -> (r: Vec<String>)
    ensures
        path_views(r@) == spec_child_paths(content@),
{
    let names = dep_cmd_names();
    let cmds = scan_cmds(content, &names, 0);
    let ghost cmdsv = spec_scan_cmds(content@, dep_names(), 0);
    assert(cmds@.map_values(|p: (usize, String)| (p.0 as int, p.1@)) == cmdsv);
    let mut r: Vec<String> = Vec::new();
    proof {
        assert(path_views(r@) =~= Seq::<Seq<char>>::empty());
    }
    let mut i: usize = 0;
    while i < cmds.len()
        invariant
            0 <= i <= cmds@.len(),
            cmds@.map_values(|p: (usize, String)| (p.0 as int, p.1@)) == cmdsv,
            path_views(r@) + spec_child_paths_from(cmdsv, i as int) =~= spec_child_paths(content@),
        decreases cmds@.len() - i,
    {
        assert(cmdsv[i as int] == (cmds@[i as int].0 as int, cmds@[i as int].1@));
        let k = cmds[i].0;
        let arg = cmds[i].1.as_str();
        push_paths_of_cmd(k, arg, &mut r);
        i += 1;
    }
    r
}

// --- outline ---

/// The heading carried by a trimmed line starting with `marker`, if the
/// title's closing brace is present: the characters between the marker and
/// the first closing brace.
pub open spec fn spec_heading_with(
    t: Seq<char>,
    mlen: int,
    level: int,
    file: Seq<char>,
    lineno: int,
) -> Option<OutlineModel> {
    match spec_find(t, seq!['}'], mlen) {
        Some(close) => Some(
            OutlineModel { title: t.subrange(mlen, close), level, file_name: file, line: lineno },
        ),
        None => None,
    }
}

/// The heading of one source line, if its trimmed text starts with a part,
/// chapter, section or subsection marker.
pub open spec fn spec_heading(line: Seq<char>, file: Seq<char>, lineno: int) -> Option<
    OutlineModel,
> {
    let t = spec_trim(line);
    if is_match_at(t, "\\part{"@, 0) {
        spec_heading_with(t, "\\part{"@.len() as int, 0, file, lineno)
    } else if is_match_at(t, "\\chapter{"@, 0) {
        spec_heading_with(t, "\\chapter{"@.len() as int, 1, file, lineno)
    } else if is_match_at(t, "\\section{"@, 0) {
        spec_heading_with(t, "\\section{"@.len() as int, 2, file, lineno)
    } else if is_match_at(t, "\\subsection{"@, 0) {
        spec_heading_with(t, "\\subsection{"@.len() as int, 3, file, lineno)
    } else {
        None
    }
}

pub open spec fn spec_outline_from(lines: Seq<Seq<char>>, file: Seq<char>, i: int) -> Seq<
    OutlineModel,
>
    decreases lines.len() - i,
    when 0 <= i
{
    if i >= lines.len() {
        Seq::empty()
    } else {
        match spec_heading(lines[i], file, i + 1) {
            Some(o) => seq![o] + spec_outline_from(lines, file, i + 1),
            None => spec_outline_from(lines, file, i + 1),
        }
    }
}

/// The outline of a file's text: its headings with 1-based line numbers.
pub open spec fn spec_outline(content: Seq<char>, file: Seq<char>) -> Seq<OutlineModel> {
    spec_outline_from(spec_lines(content), file, 0)
}

/// The heading of one line, with `lineno` its 1-based number.
fn heading_of_line(line: &str, file: &str, lineno: usize) -> (r: Option<OutlineItem>)
    ensures
        match r {
            Some(o) => spec_heading(line@, file@, lineno as int) == Some(o@),
            None => spec_heading(line@, file@, lineno as int) is None,
        },
{
    proof {
        reveal_strlit("}");
        assert("}"@ =~= seq!['}']);
    }
    let t = trim_str(line);
    let ts = t.as_str();
    let marker: &str;
    let level: usize;
    if match_at(ts, "\\part{", 0) {
        marker = "\\part{";
        level = 0;
    } else if match_at(ts, "\\chapter{", 0) {
        marker = "\\chapter{";
        level = 1;
    } else if match_at(ts, "\\section{", 0) {
        marker = "\\section{";
        level = 2;
    } else if match_at(ts, "\\subsection{", 0) {
        marker = "\\subsection{";
        level = 3;
    } else {
        return None;
    }
    let mlen = marker.unicode_len();
    assert(mlen <= ts@.len());
    proof {
        lemma_find_props(ts@, seq!['}'], mlen as int);
    }
    match find_from(ts, "}", mlen) {
        Some(close) => {
            let title = ts.substring_char(mlen, close);
            Some(
                OutlineItem {
                    title: title.to_owned(),
                    level,
                    file_name: file.to_owned(),
                    line: lineno,
                },
            )
        },
        None => None,
    }
}

/// The outline of `content`, attributed to `file_name`.
pub fn scan_outline(content: &str, file_name: &str) -> (r: Vec<OutlineItem>)
    ensures
        outline_models(r@) == spec_outline(content@, file_name@),
{
    let lines = split_lines(content);
    let ghost linesv = spec_lines(content@);
    assert(lines@.map_values(|p: String| p@) == linesv);
    let mut r: Vec<OutlineItem> = Vec::new();
    proof {
        assert(outline_models(r@) =~= Seq::<OutlineModel>::empty());
    }
    let mut i: usize = 0;
    while i < lines.len()
        invariant
            0 <= i <= lines@.len(),
            lines@.map_values(|p: String| p@) == linesv,
            outline_models(r@) + spec_outline_from(linesv, file_name@, i as int) =~= spec_outline(
                content@,
                file_name@,
            ),
        decreases lines@.len() - i,
    {
        assert(linesv[i as int] == lines@[i as int]@);
        match heading_of_line(lines[i].as_str(), file_name, i + 1) {
            Some(o) => {
                let ghost before = r@;
                r.push(o);
                proof {
                    assert(outline_models(r@) =~= outline_models(before) + seq![r@.last()@]);
                }
            },
            None => {},
        }
        i += 1;
    }
    r
}

// --- the scan itself ---

/// The set of paths a visited list holds.
pub open spec fn visited_set(v: Seq<String>) -> Set<Seq<char>> {
    Set::new(|k: Seq<char>| exists|i: int| 0 <= i < v.len() && v[i]@ == k)
}

pub proof fn lemma_visited_push(v: Seq<String>, s: String)
    ensures
        visited_set(v.push(s)) =~= visited_set(v).insert(s@),
{
    let w = v.push(s);
    assert forall|k: Seq<char>| visited_set(w).contains(k) implies visited_set(v).insert(
        s@,
    ).contains(k) by {
        let i = choose|i: int| 0 <= i < w.len() && w[i]@ == k;
        if i < v.len() {
            assert(v[i]@ == k);
        } else {
            assert(k == s@);
        }
    }
    assert forall|k: Seq<char>| visited_set(v).insert(s@).contains(k) implies visited_set(
        w,
    ).contains(k) by {
        if k == s@ {
            assert(w[v.len() as int]@ == k);
        } else {
            let i = choose|i: int| 0 <= i < v.len() && v[i]@ == k;
            assert(w[i]@ == k);
        }
    }
}

/// Whether `s` stands in the visited list.
pub fn contains_string(v: &Vec<String>, s: &str) -> (r: bool)
    ensures
        r == visited_set(v@).contains(s@),
{
    let mut i: usize = 0;
    while i < v.len()
        invariant
            0 <= i <= v@.len(),
            forall|j: int| 0 <= j < i ==> v@[j]@ != s@,
        decreases v@.len() - i,
    {
        if str_eq(v[i].as_str(), s) {
            assert(visited_set(v@).contains(s@));
            return true;
        }
        i += 1;
    }
    assert(!visited_set(v@).contains(s@));
    false
}

/// What a scan of `path` yields under `visited`: the materialized node, and
/// the set of paths the scan added to the visited set. A visited path is a
/// childless leaf; so is a path absent from the store; otherwise the node
/// carries the file's outline and one child per referenced path, scanned in
/// order under the growing visited set.
pub open spec fn spec_scan(
    files: Map<Seq<char>, Seq<u8>>,
    path: Seq<char>,
    visited: Set<Seq<char>>,
) -> (NodeModel, Set<Seq<char>>)
    decreases files.dom().difference(visited).len(), 0int,
    when files.dom().finite()
{
    if visited.contains(path) {
        (leaf_model(path), Set::empty())
    } else if !files.dom().contains(path) {
        (leaf_model(path), Set::empty().insert(path))
    } else {
        let content = lossy_of(files[path]);
        proof {
            files.dom().lemma_set_insert_diff_decreases(visited, path);
        }

        let r = spec_scan_list(files, spec_child_paths(content), 0, visited.insert(path));
        (
            NodeModel { name: path, children: r.0, outline: spec_outline(content, path) },
            r.1.insert(path),
        )
    }
}

/// The nodes and added-visited set of scanning `deps[i..]` in order.
pub open spec fn spec_scan_list(
    files: Map<Seq<char>, Seq<u8>>,
    deps: Seq<Seq<char>>,
    i: int,
    visited: Set<Seq<char>>,
) -> (Seq<NodeModel>, Set<Seq<char>>)
    decreases files.dom().difference(visited).len(), deps.len() - i + 1,
    when files.dom().finite() && 0 <= i
{
    if i >= deps.len() {
        (Seq::empty(), Set::empty())
    } else {
        let r0 = spec_scan(files, deps[i], visited);
        proof {
            lemma_diff_union_mono(files.dom(), visited, r0.1);
        }
        let rs = spec_scan_list(files, deps, i + 1, visited.union(r0.1));
        (seq![r0.0] + rs.0, r0.1.union(rs.1))
    }
}

/// Growing the excluded set cannot grow the difference.
pub proof fn lemma_diff_union_mono(dom: Set<Seq<char>>, visited: Set<Seq<char>>, added: Set<Seq<char>>)
    requires
        dom.finite(),
    ensures
        dom.difference(visited.union(added)).len() <= dom.difference(visited).len(),
{
    assert(dom.difference(visited.union(added)) <= dom.difference(visited));
    assert(dom.difference(visited) <= dom);
    lemma_len_subset(dom.difference(visited), dom);
    lemma_len_subset(dom.difference(visited.union(added)), dom.difference(visited));
}

pub struct DependencyScanner;

impl DependencyScanner {
    /// Scans the project rooted at `root_file`.
    pub fn scan(root_file: &str, vfs: &Vfs) -> (r: DependencyNode)
        requires
            vfs.wf(),
        ensures
            node_model(r) == spec_scan(vfs@, root_file@, Set::empty()).0,
    {
        let visited: Vec<String> = Vec::new();
        proof {
            assert(visited_set(visited@) =~= Set::<Seq<char>>::empty());
        }
        let (node, _visited) = Self::scan_recursive(root_file, vfs, visited);
        node
    }

    /// One step of the scan, threading the visited list through.
    #[verifier::loop_isolation(false)]
    fn scan_recursive(file_name: &str, vfs: &Vfs, visited: Vec<String>) -> (r: (
        DependencyNode,
        Vec<String>,
    ))
        requires
            vfs.wf(),
        ensures
            ({
                let s = spec_scan(vfs@, file_name@, visited_set(visited@));
                node_model(r.0) == s.0 && visited_set(r.1@) == visited_set(visited@).union(s.1)
            }),
        decreases vfs@.dom().difference(visited_set(visited@)).len(),
    {
        let ghost vis0 = visited_set(visited@);
        if contains_string(&visited, file_name) {
            let node = leaf_node(file_name);
            proof {
                assert(visited_set(visited@) =~= vis0.union(Set::empty()));
            }
            return (node, visited);
        }
        let mut vis_list = visited;
        let ghost vpre = vis_list@;
        vis_list.push(file_name.to_owned());
        proof {
            assert(vis_list@.drop_last() =~= vpre);
            lemma_visited_push(vpre, vis_list@.last());
            assert(vis_list@ == vpre.push(vis_list@.last()));
            assert(visited_set(vis_list@) == vis0.insert(file_name@));
        }
        let node_or = vfs.read_file(file_name);
        match node_or {
            None => {
                let node = leaf_node(file_name);
                proof {
                    assert(visited_set(vis_list@) =~= vis0.union(Set::empty().insert(file_name@)));
                }
                (node, vis_list)
            },
            Some(content_bytes) => {
                let content = decode_lossy(&content_bytes);
                let ghost contentv = lossy_of(vfs@[file_name@]);
                assert(content@ == contentv);
                let outline = scan_outline(content.as_str(), file_name);
                let deps = child_paths(content.as_str());
                let ghost depsv = spec_child_paths(contentv);
                let ghost base = vis0.insert(file_name@);
                assert(visited_set(vis_list@) == base);
                let ghost full = spec_scan_list(vfs@, depsv, 0, base);
                let mut children: Vec<DependencyNode> = Vec::new();
                let ghost mut added: Set<Seq<char>> = Set::empty();
                let mut i: usize = 0;
                proof {
                    assert(children_models(children@) =~= Seq::<NodeModel>::empty());
                    assert(visited_set(vis_list@) =~= base.union(added));
                }
                while i < deps.len()
                    invariant
                        0 <= i <= deps@.len(),
                        vfs.wf(),
                        path_views(deps@) == depsv,
                        visited_set(vis_list@) == base.union(added),
                        vis0.insert(file_name@) == base,
                        vfs@.dom().contains(file_name@),
                        !vis0.contains(file_name@),
                        full == spec_scan_list(vfs@, depsv, 0, base),
                        full.0 == children_models(children@) + spec_scan_list(
                            vfs@,
                            depsv,
                            i as int,
                            visited_set(vis_list@),
                        ).0,
                        full.1 == added.union(
                            spec_scan_list(vfs@, depsv, i as int, visited_set(vis_list@)).1,
                        ),
                    decreases deps@.len() - i,
                {
                    assert(depsv[i as int] == deps@[i as int]@);
                    let ghost cur = visited_set(vis_list@);
                    proof {
                        assert(vis0 <= cur && cur.contains(file_name@));
                        lemma_scan_call_measure(vfs@, vis0, file_name@, cur);
                    }
                    let (child, v2) = Self::scan_recursive(deps[i].as_str(), vfs, vis_list);
                    let ghost s_i = spec_scan(vfs@, depsv[i as int], cur);
                    let ghost rest_i = spec_scan_list(vfs@, depsv, i as int, cur);
                    proof {
                        assert(cur.union(s_i.1) =~= visited_set(v2@));
                    }
                    let ghost rest_n = spec_scan_list(vfs@, depsv, i + 1, visited_set(v2@));
                    proof {
                        assert(rest_i.0 == seq![s_i.0] + rest_n.0 && rest_i.1 == s_i.1.union(
                            rest_n.1,
                        ));
                    }
                    let ghost before_children = children@;
                    children.push(child);
                    vis_list = v2;
                    proof {
                        lemma_children_models_push(before_children, children@.last());
                        assert(children@.drop_last() =~= before_children);
                        assert(node_model(children@.last()) == s_i.0);
                        added = added.union(s_i.1);
                        assert(visited_set(vis_list@) =~= base.union(added));
                        assert(full.1 =~= added.union(rest_n.1));
                        assert(full.0 =~= children_models(children@) + rest_n.0);
                    }
                    i += 1;
                }
                proof {
                    let rest = spec_scan_list(vfs@, depsv, i as int, visited_set(vis_list@));
                    assert(rest.0 =~= Seq::<NodeModel>::empty() && rest.1 =~= Set::<
                        Seq<char>,
                    >::empty());
                    assert(full.0 =~= children_models(children@));
                    assert(full.1 =~= added);
                }
                let node = DependencyNode { name: file_name.to_owned(), children, outline };
                proof {
                    let s = spec_scan(vfs@, file_name@, vis0);
                    assert(s.0 == (NodeModel {
                        name: file_name@,
                        children: full.0,
                        outline: spec_outline(contentv, file_name@),
                    }) && s.1 == full.1.insert(file_name@));
                    assert(node_model(node) == s.0);
                    assert(visited_set(vis_list@) =~= vis0.union(s.1));
                }
                (node, vis_list)
            },
        }
    }
}

// --- how the tree relates to the set of files reached ---

/// How many nodes a tree holds.
pub open spec fn node_count(n: NodeModel) -> nat
    decreases n,
{
    1 + nodes_count(n.children)
}

pub open spec fn nodes_count(cs: Seq<NodeModel>) -> nat
    decreases cs,
{
    if cs.len() == 0 {
        0
    } else {
        node_count(cs[0]) + nodes_count(cs.drop_first())
    }
}

/// A scan from `path` under `visited` is clean when it never meets a path
/// twice and never references a missing file: the materialized tree then
/// has no duplicate leaves.
pub open spec fn spec_scan_clean(
    files: Map<Seq<char>, Seq<u8>>,
    path: Seq<char>,
    visited: Set<Seq<char>>,
) -> bool
    decreases files.dom().difference(visited).len(), 0int,
    when files.dom().finite()
{
    if visited.contains(path) {
        false
    } else if !files.dom().contains(path) {
        false
    } else {
        let content = lossy_of(files[path]);
        proof {
            files.dom().lemma_set_insert_diff_decreases(visited, path);
        }
        spec_scan_list_clean(files, spec_child_paths(content), 0, visited.insert(path))
    }
}

pub open spec fn spec_scan_list_clean(
    files: Map<Seq<char>, Seq<u8>>,
    deps: Seq<Seq<char>>,
    i: int,
    visited: Set<Seq<char>>,
) -> bool
    decreases files.dom().difference(visited).len(), deps.len() - i + 1,
    when files.dom().finite() && 0 <= i
{
    if i >= deps.len() {
        true
    } else {
        let r0 = spec_scan(files, deps[i], visited);
        proof {
            lemma_diff_union_mono(files.dom(), visited, r0.1);
        }
        spec_scan_clean(files, deps[i], visited) && spec_scan_list_clean(
            files,
            deps,
            i + 1,
            visited.union(r0.1),
        )
    }
}

/// Two disjoint finite sets contribute their sizes to the union.
proof fn lemma_len_disjoint_union(s1: Set<Seq<char>>, s2: Set<Seq<char>>)
    requires
        s1.finite(),
        s2.finite(),
        s1.disjoint(s2),
    ensures
        s1.union(s2).len() == s1.len() + s2.len(),
    decreases s1.len(),
{
    if s1.len() == 0 {
        assert(s1 =~= Set::<Seq<char>>::empty()) by {
            if exists|x: Seq<char>| s1.contains(x) {
                let x = choose|x: Seq<char>| s1.contains(x);
                vstd::set::axiom_set_remove_len(s1, x);
            }
        }
        assert(s1.union(s2) =~= s2);
    } else {
        let a = s1.choose();
        assert(s1.contains(a)) by {
            vstd::set::axiom_set_choose_len(s1);
        }
        assert(s1.union(s2).remove(a) =~= s1.remove(a).union(s2));
        vstd::set::axiom_set_remove_len(s1, a);
        vstd::set::axiom_set_remove_len(s1.union(s2), a);
        lemma_len_disjoint_union(s1.remove(a), s2);
        assert(s1.union(s2).finite()) by {
            vstd::set::axiom_set_union_finite(s1, s2);
        }
        assert(s1.union(s2).contains(a));
    }
}

/// What a scan adds to the visited set: finitely many paths, none of them
/// already visited.
proof fn lemma_scan_added(files: Map<Seq<char>, Seq<u8>>, path: Seq<char>, visited: Set<Seq<char>>)
    requires
        files.dom().finite(),
    ensures
        spec_scan(files, path, visited).1.finite(),
        spec_scan(files, path, visited).1.disjoint(visited),
    decreases files.dom().difference(visited).len(), 0int,
{
    if visited.contains(path) {
    } else if !files.dom().contains(path) {
    } else {
        let content = lossy_of(files[path]);
        files.dom().lemma_set_insert_diff_decreases(visited, path);
        lemma_scan_list_added(files, spec_child_paths(content), 0, visited.insert(path));
        let r = spec_scan_list(files, spec_child_paths(content), 0, visited.insert(path));
        assert(r.1.insert(path).disjoint(visited));
    }
}

proof fn lemma_scan_list_added(
    files: Map<Seq<char>, Seq<u8>>,
    deps: Seq<Seq<char>>,
    i: int,
    visited: Set<Seq<char>>,
)
    requires
        files.dom().finite(),
        0 <= i,
    ensures
        spec_scan_list(files, deps, i, visited).1.finite(),
        spec_scan_list(files, deps, i, visited).1.disjoint(visited),
    decreases files.dom().difference(visited).len(), deps.len() - i + 1,
{
    if i >= deps.len() {
    } else {
        let r0 = spec_scan(files, deps[i], visited);
        lemma_scan_added(files, deps[i], visited);
        lemma_diff_union_mono(files.dom(), visited, r0.1);
        lemma_scan_list_added(files, deps, i + 1, visited.union(r0.1));
        let rs = spec_scan_list(files, deps, i + 1, visited.union(r0.1));
        assert(r0.1.union(rs.1).finite()) by {
            vstd::set::axiom_set_union_finite(r0.1, rs.1);
        }
        assert(r0.1.union(rs.1).disjoint(visited));
    }
}

/// A clean scan materializes exactly one node per path it adds to the
/// visited set.
proof fn lemma_scan_count(files: Map<Seq<char>, Seq<u8>>, path: Seq<char>, visited: Set<Seq<char>>)
    requires
        files.dom().finite(),
        spec_scan_clean(files, path, visited),
    ensures
        node_count(spec_scan(files, path, visited).0) == spec_scan(files, path, visited).1.len(),
    decreases files.dom().difference(visited).len(), 0int,
{
    let content = lossy_of(files[path]);
    files.dom().lemma_set_insert_diff_decreases(visited, path);
    let v1 = visited.insert(path);
    let deps = spec_child_paths(content);
    lemma_scan_list_count(files, deps, 0, v1);
    let r = spec_scan_list(files, deps, 0, v1);
    lemma_scan_list_added(files, deps, 0, v1);
    assert(!r.1.contains(path));
    vstd::set::axiom_set_insert_len(r.1, path);
    assert(spec_scan(files, path, visited).0.children == r.0);
}

proof fn lemma_scan_list_count(
    files: Map<Seq<char>, Seq<u8>>,
    deps: Seq<Seq<char>>,
    i: int,
    visited: Set<Seq<char>>,
)
    requires
        files.dom().finite(),
        0 <= i,
        spec_scan_list_clean(files, deps, i, visited),
    ensures
        nodes_count(spec_scan_list(files, deps, i, visited).0) == spec_scan_list(
            files,
            deps,
            i,
            visited,
        ).1.len(),
    decreases files.dom().difference(visited).len(), deps.len() - i + 1,
{
    if i >= deps.len() {
        assert(Set::<Seq<char>>::empty().len() == 0);
    } else {
        let r0 = spec_scan(files, deps[i], visited);
        lemma_scan_count(files, deps[i], visited);
        lemma_scan_added(files, deps[i], visited);
        lemma_diff_union_mono(files.dom(), visited, r0.1);
        lemma_scan_list_count(files, deps, i + 1, visited.union(r0.1));
        lemma_scan_list_added(files, deps, i + 1, visited.union(r0.1));
        let rs = spec_scan_list(files, deps, i + 1, visited.union(r0.1));
        assert(r0.1.disjoint(rs.1)) by {
            assert(rs.1.disjoint(visited.union(r0.1)));
        }
        lemma_len_disjoint_union(r0.1, rs.1);
        let whole = seq![r0.0] + rs.0;
        assert(whole[0] == r0.0);
        assert(whole.drop_first() =~= rs.0);
        assert(nodes_count(whole) == node_count(r0.0) + nodes_count(rs.0));
    }
}

/// For any root whose include graph the scan walks cleanly — no path met
/// twice, no missing file — the tree's node count equals the number of
/// distinct files reached, namely the scan's visited set. A cyclic graph is
/// never clean at the revisited path, yet the scan is a total function, so
/// it still terminates and yields a finite tree.
pub proof fn lemma_scan_node_count(files: Map<Seq<char>, Seq<u8>>, root: Seq<char>)
    requires
        files.dom().finite(),
        spec_scan_clean(files, root, Set::empty()),
    ensures
        node_count(spec_scan(files, root, Set::empty()).0) == spec_scan(
            files,
            root,
            Set::empty(),
        ).1.len(),
{
    lemma_scan_count(files, root, Set::empty());
}

/// The measure shrinks at each recursive call inside the children loop.
pub proof fn lemma_scan_call_measure(
    files: Map<Seq<char>, Seq<u8>>,
    vis0: Set<Seq<char>>,
    path: Seq<char>,
    cur: Set<Seq<char>>,
)
    requires
        files.dom().finite(),
        files.dom().contains(path),
        !vis0.contains(path),
        cur.contains(path),
        vis0 <= cur,
    ensures
        files.dom().difference(cur).len() < files.dom().difference(vis0).len(),
{
    let dom = files.dom();
    assert(dom.difference(cur) <= dom.difference(vis0.insert(path)));
    assert(dom.difference(vis0.insert(path)) <= dom);
    lemma_len_subset(dom.difference(vis0.insert(path)), dom);
    lemma_len_subset(dom.difference(cur), dom.difference(vis0.insert(path)));
    dom.lemma_set_insert_diff_decreases(vis0, path);
}

/// A childless node for `name`.
fn leaf_node(name: &str) -> (r: DependencyNode)
    ensures
        node_model(r) == leaf_model(name@),
{
    let r = DependencyNode { name: name.to_owned(), children: Vec::new(), outline: Vec::new() };
    proof {
        assert(children_models(r.children@) =~= Seq::<NodeModel>::empty());
        assert(outline_models(r.outline@) =~= Seq::<OutlineModel>::empty());
    }
    r
}

} // verus!
