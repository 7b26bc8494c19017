//! The compile pipeline: the per-path content hash table driven by
//! `observe`, the transitive dependency collector, the include-scope
//! optimizer with its draft-mode rewriting, the in-process backend, and the
//! memoizing cache keyed by rewritten source and backend identity.

use vstd::prelude::*;
use crate::vfs::Vfs;
use crate::config::CompileBackend;
use crate::config::spec_backend_tag;
use crate::config::backend_tag;
use crate::hashing::spec_content_hash;
use crate::hashing::content_hash;
use crate::hashing::spec_source_key;
use crate::hashing::source_key;
use crate::concurrent::HashTable;
use crate::concurrent::CacheMap;
use crate::concurrent::hash_map_view;
use crate::concurrent::hash_map_new;
use crate::concurrent::hash_map_get;
use crate::concurrent::hash_map_insert;
use crate::concurrent::cache_map_view;
use crate::concurrent::cache_map_new;
use crate::concurrent::cache_map_get;
use crate::concurrent::cache_map_insert;
use crate::concurrent::random_state_new;
use crate::dependencies::path_views;
use crate::dependencies::visited_set;
use crate::text::spec_ensure_suffix;
use crate::text::ensure_suffix;
use crate::text::spec_scan_cmds;
use crate::text::scan_cmds;
use crate::text::name_views;
use crate::text::all_names_ok;
use crate::text::spec_lines;
use crate::text::split_lines;
use crate::text::spec_join_on;
use crate::text::join_with;
use crate::text::spec_dec;
use crate::text::dec_str;
use crate::text::lossy_of;
use crate::text::decode_lossy;
use crate::text::utf8_of;
use crate::text::encode_utf8;
use crate::text::str_eq;
use crate::text::is_match_at;
use crate::text::match_at;
use crate::text::spec_find;
use crate::text::find_from;
use crate::text::lemma_find_props;
use crate::text::lemma_find_exact;
use crate::text::lemma_find_contains;
use crate::text::spec_contains;
use crate::text::contains_str;
use crate::text::spec_ends_with;
use crate::text::ends_with_str;
use crate::text::spec_trim;
use crate::text::trim_str;
use crate::text::spec_split_on;
use crate::text::split_on;

verus! {

/// A build problem reported to the caller, with the source line it points
/// at where one is known (0 otherwise).
#[derive(Debug)]
pub struct CompileError {
    pub line: usize,
    pub message: String,
}

/// One observed content change: the path, the hash previously on record (0
/// on first observation), the new hash, and the content's size in bytes.
#[derive(Debug, Clone)]
pub struct FileDelta {
    pub path: String,
    pub old_hash: u64,
    pub new_hash: u64,
    pub content_size: usize,
}

/// The mathematical image of a delta.
pub struct DeltaModel {
    pub path: Seq<char>,
    pub old_hash: u64,
    pub new_hash: u64,
    pub content_size: int,
}

impl View for FileDelta {
    type V = DeltaModel;

    open spec fn view(&self) -> DeltaModel {
        DeltaModel {
            path: self.path@,
            old_hash: self.old_hash,
            new_hash: self.new_hash,
            content_size: self.content_size as int,
        }
    }
}

pub open spec fn delta_views(ds: Seq<FileDelta>) -> Seq<DeltaModel> {
    ds.map_values(|d: FileDelta| d@)
}

/// The view of an optional path.
pub open spec fn opt_view(a: Option<String>) -> Option<Seq<char>> {
    match a {
        Some(s) => Some(s@),
        None => None,
    }
}

/// What one observation does to the hash table: the table afterwards, the
/// hash previously on record (0 if none) and whether the content changed.
pub open spec fn spec_observe(m: Map<Seq<char>, u64>, path: Seq<char>, content: Seq<u8>) -> (
    Map<Seq<char>, u64>,
    u64,
    bool,
) {
    let h = spec_content_hash(content);
    if m.dom().contains(path) {
        if m[path] != h {
            (m.insert(path, h), m[path], true)
        } else {
            (m, m[path], false)
        }
    } else {
        (m.insert(path, h), 0, true)
    }
}

/// Re-observing unchanged content always reports no change and leaves the
/// stored hash exactly as it was.
pub proof fn lemma_observe_idempotent(m: Map<Seq<char>, u64>, path: Seq<char>, content: Seq<u8>)
    ensures
        ({
            let once = spec_observe(m, path, content);
            let twice = spec_observe(once.0, path, content);
            twice.2 == false && twice.0 == once.0 && twice.1 == spec_content_hash(content)
        }),
{
}

// --- transitive dependency collection ---

/// The commands whose arguments are rebuild-relevant dependency edges.
pub open spec fn ii_names() -> Seq<Seq<char>> {
    seq!["\\include{"@, "\\input{"@]
}

fn ii_cmd_names() -> (r: Vec<&'static str>)
    ensures
        name_views(r@) == ii_names(),
        all_names_ok(ii_names()),
{
    let mut r: Vec<&'static str> = Vec::new();
    r.push("\\include{");
    r.push("\\input{");
    proof {
        reveal_strlit("\\include{");
        reveal_strlit("\\input{");
        assert(name_views(r@) =~= ii_names());
        assert(all_names_ok(ii_names())) by {
            assert(ii_names()[0].len() >= 1);
            assert(ii_names()[1].len() >= 1);
        }
    }
    r
}

pub open spec fn spec_ii_paths_from(cmds: Seq<(int, Seq<char>)>, i: int) -> Seq<Seq<char>>
    decreases cmds.len() - i,
    when 0 <= i
{
    if i >= cmds.len() {
        Seq::empty()
    } else {
        seq![spec_ensure_suffix(cmds[i].1, ".tex"@)] + spec_ii_paths_from(cmds, i + 1)
    }
}

/// The direct rebuild-relevant dependencies of a file's text, in order,
/// each with the source extension ensured.
pub open spec fn spec_ii_paths(content: Seq<char>) -> Seq<Seq<char>> {
    spec_ii_paths_from(spec_scan_cmds(content, ii_names(), 1), 0)
}

fn ii_paths(content: &str) -> (r: Vec<String>)
    ensures
        path_views(r@) == spec_ii_paths(content@),
{
    let names = ii_cmd_names();
    let cmds = scan_cmds(content, &names, 1);
    let ghost cmdsv = spec_scan_cmds(content@, ii_names(), 1);
    assert(cmds@.map_values(|p: (usize, String)| (p.0 as int, p.1@)) == cmdsv);
    let mut r: Vec<String> = Vec::new();
    proof {
        assert(path_views(r@) =~= Seq::<Seq<char>>::empty());
    }
    let mut i: usize = 0;
    while i < cmds.len()
        invariant
            0 <= i <= cmds@.len(),
            cmds@.map_values(|p: (usize, String)| (p.0 as int, p.1@)) == cmdsv,
            path_views(r@) + spec_ii_paths_from(cmdsv, i as int) =~= spec_ii_paths(content@),
        decreases cmds@.len() - i,
    {
        assert(cmdsv[i as int] == (cmds@[i as int].0 as int, cmds@[i as int].1@));
        let ghost before = r@;
        let p = ensure_suffix(cmds[i].1.as_str(), ".tex");
        r.push(p);
        proof {
            assert(path_views(r@) =~= path_views(before) + seq![r@.last()@]);
        }
        i += 1;
    }
    r
}

/// What collecting from `path` under `visited` yields: the dependency paths
/// listed in encounter order (a path reached along two routes is listed
/// twice), and the set of paths the walk added to the visited set.
pub open spec fn spec_collect(
    files: Map<Seq<char>, Seq<u8>>,
    path: Seq<char>,
    visited: Set<Seq<char>>,
) -> (Seq<Seq<char>>, Set<Seq<char>>)
    decreases files.dom().difference(visited).len(), 0int,
    when files.dom().finite()
{
    if visited.contains(path) {
        (Seq::empty(), Set::empty())
    } else if !files.dom().contains(path) {
        (Seq::empty(), Set::empty().insert(path))
    } else {
        let deps = spec_ii_paths(lossy_of(files[path]));
        proof {
            files.dom().lemma_set_insert_diff_decreases(visited, path);
        }
        let r = spec_collect_list(files, deps, 0, visited.insert(path));
        (r.0, r.1.insert(path))
    }
}

pub open spec fn spec_collect_list(
    files: Map<Seq<char>, Seq<u8>>,
    deps: Seq<Seq<char>>,
    i: int,
    visited: Set<Seq<char>>,
) -> (Seq<Seq<char>>, Set<Seq<char>>)
    decreases files.dom().difference(visited).len(), deps.len() - i + 1,
    when files.dom().finite() && 0 <= i
{
    if i >= deps.len() {
        (Seq::empty(), Set::empty())
    } else {
        let r0 = spec_collect(files, deps[i], visited);
        proof {
            crate::dependencies::lemma_diff_union_mono(files.dom(), visited, r0.1);
        }
        let rs = spec_collect_list(files, deps, i + 1, visited.union(r0.1));
        (seq![deps[i]] + r0.0 + rs.0, r0.1.union(rs.1))
    }
}

/// Every dependency path reachable from `path`, in encounter order; a path
/// reached along two routes appears once per route, but is walked only once.
pub fn collect_all_dependencies(path: &str, vfs: &Vfs) -> (r: Vec<String>)
    requires
        vfs.wf(),
    ensures
        path_views(r@) == spec_collect(vfs@, path@, Set::empty()).0,
{
    let out: Vec<String> = Vec::new();
    let visited: Vec<String> = Vec::new();
    proof {
        assert(visited_set(visited@) =~= Set::<Seq<char>>::empty());
        assert(path_views(out@) =~= Seq::<Seq<char>>::empty());
    }
    let (r, _visited) = collect_rec(path, vfs, out, visited);
    proof {
        assert(path_views(r@) =~= Seq::<Seq<char>>::empty() + spec_collect(
            vfs@,
            path@,
            Set::empty(),
        ).0);
    }
    r
}

/// One step of the collection, threading the output and visited lists.
#[verifier::loop_isolation(false)]
fn collect_rec(path: &str, vfs: &Vfs, out: Vec<String>, visited: Vec<String>) -> (r: (
    Vec<String>,
    Vec<String>,
))
    requires
        vfs.wf(),
    ensures
        ({
            let s = spec_collect(vfs@, path@, visited_set(visited@));
            path_views(r.0@) == path_views(out@) + s.0 && visited_set(r.1@) == visited_set(
                visited@,
            ).union(s.1)
        }),
    decreases vfs@.dom().difference(visited_set(visited@)).len(),
{
    let ghost vis0 = visited_set(visited@);
    if crate::dependencies::contains_string(&visited, path) {
        proof {
            assert(path_views(out@) =~= path_views(out@) + Seq::<Seq<char>>::empty());
            assert(visited_set(visited@) =~= vis0.union(Set::empty()));
        }
        return (out, visited);
    }
    let mut vis_list = visited;
    let ghost vpre = vis_list@;
    vis_list.push(path.to_owned());
    proof {
        assert(vis_list@.drop_last() =~= vpre);
        crate::dependencies::lemma_visited_push(vpre, vis_list@.last());
        assert(visited_set(vis_list@) == vis0.insert(path@));
    }
    match vfs.read_file(path) {
        None => {
            proof {
                assert(path_views(out@) =~= path_views(out@) + Seq::<Seq<char>>::empty());
                assert(visited_set(vis_list@) =~= vis0.union(Set::empty().insert(path@)));
            }
            (out, vis_list)
        },
        Some(content_bytes) => {
            let content = decode_lossy(&content_bytes);
            let ghost contentv = lossy_of(vfs@[path@]);
            assert(content@ == contentv);
            let deps = ii_paths(content.as_str());
            let ghost depsv = spec_ii_paths(contentv);
            let ghost base = vis0.insert(path@);
            let ghost full = spec_collect_list(vfs@, depsv, 0, base);
            let mut out = out;
            let ghost out0 = out@;
            let ghost mut added: Set<Seq<char>> = Set::empty();
            let mut i: usize = 0;
            proof {
                assert(visited_set(vis_list@) =~= base.union(added));
                assert(path_views(out@) =~= path_views(out0) + Seq::<Seq<char>>::empty());
            }
            while i < deps.len()
                invariant
                    0 <= i <= deps@.len(),
                    vfs.wf(),
                    path_views(deps@) == depsv,
                    visited_set(vis_list@) == base.union(added),
                    vis0.insert(path@) == base,
                    vfs@.dom().contains(path@),
                    !vis0.contains(path@),
                    full == spec_collect_list(vfs@, depsv, 0, base),
                    path_views(out@) + spec_collect_list(
                        vfs@,
                        depsv,
                        i as int,
                        visited_set(vis_list@),
                    ).0 == path_views(out0) + full.0,
                    full.1 == added.union(
                        spec_collect_list(vfs@, depsv, i as int, visited_set(vis_list@)).1,
                    ),
                decreases deps@.len() - i,
            {
                assert(depsv[i as int] == deps@[i as int]@);
                let ghost cur = visited_set(vis_list@);
                proof {
                    assert(vis0 <= cur && cur.contains(path@));
                    crate::dependencies::lemma_scan_call_measure(vfs@, vis0, path@, cur);
                }
                let ghost out_before = out@;
                let dpath = path_at(&deps, i);
                let ghost rest_i = spec_collect_list(vfs@, depsv, i as int, cur);
                out.push(dpath.clone());
                proof {
                    assert(path_views(out@) =~= path_views(out_before) + seq![out@.last()@]);
                }
                let (out2, v2) = collect_rec(dpath.as_str(), vfs, out, vis_list);
                out = out2;
                vis_list = v2;
                let ghost s_i = spec_collect(vfs@, depsv[i as int], cur);
                proof {
                    assert(cur.union(s_i.1) =~= visited_set(vis_list@));
                }
                let ghost rest_n = spec_collect_list(vfs@, depsv, i + 1, visited_set(vis_list@));
                proof {
                    assert(rest_i.0 == seq![depsv[i as int]] + s_i.0 + rest_n.0 && rest_i.1 == s_i
                        .1.union(rest_n.1));
                    added = added.union(s_i.1);
                    assert(visited_set(vis_list@) =~= base.union(added));
                    assert(full.1 =~= added.union(rest_n.1));
                    assert(path_views(out@) + rest_n.0 =~= path_views(out0) + full.0);
                }
                i += 1;
            }
            proof {
                let rest = spec_collect_list(vfs@, depsv, i as int, visited_set(vis_list@));
                assert(rest.0 =~= Seq::<Seq<char>>::empty() && rest.1 =~= Set::<
                    Seq<char>,
                >::empty());
                assert(path_views(out@) =~= path_views(out0) + full.0);
                assert(full.1 =~= added);
                let s = spec_collect(vfs@, path@, vis0);
                assert(s.0 == full.0 && s.1 == full.1.insert(path@));
                assert(visited_set(vis_list@) =~= vis0.union(s.1));
            }
            (out, vis_list)
        },
    }
}

/// A clone of the path at `i`.
fn path_at(deps: &Vec<String>, i: usize) -> (r: String)
    requires
        i < deps@.len(),
    ensures
        r@ == deps@[i as int]@,
{
    deps[i].clone()
}

// --- the in-process backend ---

/// A line with parentheses escaped for embedding in the output stream.
pub open spec fn spec_escape_from(l: Seq<char>, i: int) -> Seq<char>
    decreases l.len() - i,
    when 0 <= i
{
    if i >= l.len() {
        Seq::empty()
    } else {
        (if l[i] == '(' {
            seq!['\\', '(']
        } else if l[i] == ')' {
            seq!['\\', ')']
        } else {
            seq![l[i]]
        }) + spec_escape_from(l, i + 1)
    }
}

pub open spec fn spec_escape(l: Seq<char>) -> Seq<char> {
    spec_escape_from(l, 0)
}

fn escape_parens(l: &str) -> (r: String)
    ensures
        r@ == spec_escape(l@),
{
    let l_len = l.unicode_len();
    let mut r = String::new();
    let mut i: usize = 0;
    proof {
        reveal_strlit("\\(");
        reveal_strlit("\\)");
    }
    while i < l_len
        invariant
            0 <= i <= l_len,
            l_len == l@.len(),
            spec_escape(l@) =~= r@ + spec_escape_from(l@, i as int),
        decreases l_len - i,
    {
        let c = l.get_char(i);
        if c == '(' {
            r.append("\\(");
            proof {
                reveal_strlit("\\(");
                assert("\\("@ =~= seq!['\\', '(']);
            }
        } else if c == ')' {
            r.append("\\)");
            proof {
                reveal_strlit("\\)");
                assert("\\)"@ =~= seq!['\\', ')']);
            }
        } else {
            let piece = l.substring_char(i, i + 1);
            assert(piece@ =~= seq![l@[i as int]]);
            r.append(piece);
        }
        i += 1;
    }
    r
}

/// One line of the output stream.
pub open spec fn spec_line_render(l: Seq<char>) -> Seq<char> {
    "BT /F1 10 Td ("@ + spec_escape(l) + ") Tj ET"@
}

fn render_line(l: &str) -> (r: String)
    ensures
        r@ == spec_line_render(l@),
{
    let mut r = String::new();
    r.append("BT /F1 10 Td (");
    let esc = escape_parens(l);
    r.append(esc.as_str());
    r.append(") Tj ET");
    r
}

/// How many leading lines the in-process backend embeds.
pub open spec fn spec_stream_lines(lines: Seq<Seq<char>>) -> Seq<Seq<char>> {
    if lines.len() <= 60 {
        lines
    } else {
        lines.take(60)
    }
}

/// The body stream the in-process backend builds: the leading lines, each
/// rendered, joined by newlines.
pub open spec fn spec_stream(latex: Seq<char>) -> Seq<char> {
    spec_join_on(
        spec_stream_lines(spec_lines(latex)).map_values(|l: Seq<char>| spec_line_render(l)),
        '\n',
    )
}

/// The fixed leading part of the output document.
pub open spec fn pdf_head() -> Seq<char> {
    "%PDF-1.4\n1 0 obj <</Type /Catalog /Pages 2 0 R>> endobj\n2 0 obj <</Type /Pages /Kids [3 0 R] /Count 1>> endobj\n3 0 obj <</Type /Page /Parent 2 0 R /Resources 4 0 R /MediaBox [0 0 595 842] /Contents 5 0 R>> endobj\n4 0 obj <</Font <</F1 <</Type /Font /Subtype /Type1 /BaseFont /Helvetica>>>> >> endobj\n5 0 obj <</Length "@
}

pub open spec fn pdf_mid() -> Seq<char> {
    ">> stream\n"@
}

pub open spec fn pdf_tail() -> Seq<char> {
    "\nendstream endobj\nxref\n0 6\n0000000000 65535 f\ntrailer <</Size 6 /Root 1 0 R>> startxref 0 %%EOF"@
}

/// The full output text of the in-process backend for a rewritten source.
pub open spec fn spec_internal_pdf(latex: Seq<char>) -> Seq<char> {
    let stream = spec_stream(latex);
    pdf_head() + spec_dec(stream.len()) + pdf_mid() + stream + pdf_tail()
}

/// The output bytes of the in-process backend.
pub open spec fn spec_internal_output(latex: Seq<char>) -> Seq<u8> {
    utf8_of(spec_internal_pdf(latex))
}

/// The in-process backend: a minimal valid output document embedding a
/// bounded number of the source's leading lines. It always succeeds.
pub fn compile_internal(latex: &str) -> (r: Vec<u8>)
    ensures
        r@ == spec_internal_output(latex@),
{
    let lines = split_lines(latex);
    let ghost linesv = spec_lines(latex@);
    assert(lines@.map_values(|p: String| p@) == linesv);
    let n = if lines.len() <= 60 {
        lines.len()
    } else {
        60
    };
    let ghost keptv = spec_stream_lines(linesv);
    let mut rendered: Vec<String> = Vec::new();
    proof {
        if linesv.len() <= 60 {
            assert(keptv =~= linesv.take(linesv.len() as int));
        }
        assert(keptv.len() == n as int);
        assert(forall|k: int| 0 <= k < n ==> keptv[k] == linesv[k]);
        assert(rendered@.map_values(|p: String| p@) =~= Seq::<Seq<char>>::empty());
    }
    let mut i: usize = 0;
    while i < n
        invariant
            0 <= i <= n,
            n <= lines@.len(),
            lines@.map_values(|p: String| p@) == linesv,
            keptv.len() == n as int,
            forall|k: int| 0 <= k < n ==> keptv[k] == linesv[k],
            rendered@.map_values(|p: String| p@) =~= keptv.take(i as int).map_values(
                |l: Seq<char>| spec_line_render(l),
            ),
        decreases n - i,
    {
        let ghost before = rendered@;
        let line = render_line(lines[i].as_str());
        rendered.push(line);
        proof {
            assert(rendered@.map_values(|p: String| p@) =~= before.map_values(|p: String| p@)
                + seq![rendered@.last()@]);
            assert(keptv.take(i + 1).map_values(|l: Seq<char>| spec_line_render(l)) =~= keptv.take(
                i as int,
            ).map_values(|l: Seq<char>| spec_line_render(l)) + seq![spec_line_render(
                keptv[i as int],
            )]);
        }
        i += 1;
    }
    proof {
        assert(keptv.take(n as int) =~= keptv);
    }
    proof {
        reveal_strlit("\n");
        assert("\n"@ =~= seq!['\n']);
    }
    let stream = join_with(&rendered, "\n");
    proof {
        assert(stream@ == spec_stream(latex@));
    }
    let mut pdf = String::new();
    pdf.append(
        "%PDF-1.4\n1 0 obj <</Type /Catalog /Pages 2 0 R>> endobj\n2 0 obj <</Type /Pages /Kids [3 0 R] /Count 1>> endobj\n3 0 obj <</Type /Page /Parent 2 0 R /Resources 4 0 R /MediaBox [0 0 595 842] /Contents 5 0 R>> endobj\n4 0 obj <</Font <</F1 <</Type /Font /Subtype /Type1 /BaseFont /Helvetica>>>> >> endobj\n5 0 obj <</Length ",
    );
    let len_str = dec_str(stream.as_str().unicode_len());
    pdf.append(len_str.as_str());
    pdf.append(">> stream\n");
    pdf.append(stream.as_str());
    pdf.append(
        "\nendstream endobj\nxref\n0 6\n0000000000 65535 f\ntrailer <</Size 6 /Root 1 0 R>> startxref 0 %%EOF",
    );
    assert(pdf@ == spec_internal_pdf(latex@));
    encode_utf8(pdf)
}

// --- draft-mode rewriting ---

/// A parsed document-class declaration: where it starts and ends, its
/// bracketed option list if present, and its class name.
pub struct DocClassModel {
    pub start: int,
    pub end: int,
    pub opts: Option<Seq<char>>,
    pub class: Seq<char>,
}

/// The declaration matched at position `i`, if any: the literal command
/// name, then an optional nonempty-free bracketed option list (required when
/// `need_brackets`), then a braced nonempty class name.
pub open spec fn spec_docclass_at(s: Seq<char>, i: int, need_brackets: bool) -> Option<
    DocClassModel,
> {
    let name = "\\documentclass"@;
    if !is_match_at(s, name, i) {
        None
    } else {
        let p = i + name.len();
        if p < s.len() && s[p] == '[' {
            match spec_find(s, seq![']'], p + 1) {
                Some(cb) => {
                    if cb + 1 < s.len() && s[cb + 1] == '{' {
                        match spec_find(s, seq!['}'], cb + 2) {
                            Some(ce) => if ce > cb + 2 {
                                Some(
                                    DocClassModel {
                                        start: i,
                                        end: ce + 1,
                                        opts: Some(s.subrange(p + 1, cb)),
                                        class: s.subrange(cb + 2, ce),
                                    },
                                )
                            } else {
                                None
                            },
                            None => None,
                        }
                    } else {
                        None
                    }
                },
                None => None,
            }
        } else if !need_brackets && p < s.len() && s[p] == '{' {
            match spec_find(s, seq!['}'], p + 1) {
                Some(ce) => if ce > p + 1 {
                    Some(
                        DocClassModel {
                            start: i,
                            end: ce + 1,
                            opts: None,
                            class: s.subrange(p + 1, ce),
                        },
                    )
                } else {
                    None
                },
                None => None,
            }
        } else {
            None
        }
    }
}

/// The first document-class declaration at or after `i`.
pub open spec fn spec_find_docclass(s: Seq<char>, i: int, need_brackets: bool) -> Option<
    DocClassModel,
>
    decreases s.len() - i,
    when 0 <= i
{
    if i >= s.len() {
        None
    } else {
        match spec_docclass_at(s, i, need_brackets) {
            Some(d) => Some(d),
            None => spec_find_docclass(s, i + 1, need_brackets),
        }
    }
}

pub proof fn lemma_docclass_at_bounds(s: Seq<char>, i: int, nb: bool)
    requires
        0 <= i,
    ensures
        match spec_docclass_at(s, i, nb) {
            Some(d) => d.start == i && i < d.end <= s.len(),
            None => true,
        },
{
    let name = "\\documentclass"@;
    if is_match_at(s, name, i) {
        let p = i + name.len();
        if p < s.len() && s[p] == '[' {
            lemma_find_props(s, seq![']'], p + 1);
            match spec_find(s, seq![']'], p + 1) {
                Some(cb) => {
                    if cb + 1 < s.len() && s[cb + 1] == '{' {
                        lemma_find_props(s, seq!['}'], cb + 2);
                    }
                },
                None => {},
            }
        } else if !nb && p < s.len() && s[p] == '{' {
            lemma_find_props(s, seq!['}'], p + 1);
        }
    }
}

pub proof fn lemma_find_docclass_bounds(s: Seq<char>, i: int, nb: bool)
    requires
        0 <= i,
    ensures
        match spec_find_docclass(s, i, nb) {
            Some(d) => i <= d.start && d.start < d.end <= s.len(),
            None => true,
        },
    decreases s.len() - i,
{
    if i < s.len() {
        lemma_docclass_at_bounds(s, i, nb);
        if spec_docclass_at(s, i, nb) is None {
            lemma_find_docclass_bounds(s, i + 1, nb);
        }
    }
}

/// The parsed declaration as the rewriter holds it.
pub struct DocClassSpan {
    pub start: usize,
    pub end: usize,
    pub opts: Option<String>,
    pub class: String,
}

impl View for DocClassSpan {
    type V = DocClassModel;

    open spec fn view(&self) -> DocClassModel {
        DocClassModel {
            start: self.start as int,
            end: self.end as int,
            opts: match self.opts {
                Some(o) => Some(o@),
                None => None,
            },
            class: self.class@,
        }
    }
}

/// The declaration matched at `i`, if any.
fn docclass_at(s: &str, i: usize, need_brackets: bool) -> (r: Option<DocClassSpan>)
    requires
        i <= s@.len(),
    ensures
        match r {
            Some(d) => spec_docclass_at(s@, i as int, need_brackets) == Some(d@) && i == d.start
                && i < d.end <= s@.len(),
            None => spec_docclass_at(s@, i as int, need_brackets) is None,
        },
{
    proof {
        reveal_strlit("[");
        reveal_strlit("]");
        reveal_strlit("{");
        reveal_strlit("}");
        assert("]"@ =~= seq![']']);
        assert("}"@ =~= seq!['}']);
        lemma_docclass_at_bounds(s@, i as int, need_brackets);
    }
    let name = "\\documentclass";
    if !match_at(s, name, i) {
        return None;
    }
    let s_len = s.unicode_len();
    let p = i + name.unicode_len();
    assert(p <= s_len);
    if p < s_len && s.get_char(p) == '[' {
        proof {
            lemma_find_props(s@, seq![']'], p + 1);
        }
        match find_from(s, "]", p + 1) {
            Some(cb) => {
                if cb + 1 < s_len && s.get_char(cb + 1) == '{' {
                    proof {
                        lemma_find_props(s@, seq!['}'], cb + 2);
                    }
                    match find_from(s, "}", cb + 2) {
                        Some(ce) => {
                            if ce > cb + 2 {
                                let opts = s.substring_char(p + 1, cb);
                                let class = s.substring_char(cb + 2, ce);
                                Some(
                                    DocClassSpan {
                                        start: i,
                                        end: ce + 1,
                                        opts: Some(opts.to_owned()),
                                        class: class.to_owned(),
                                    },
                                )
                            } else {
                                None
                            }
                        },
                        None => None,
                    }
                } else {
                    None
                }
            },
            None => None,
        }
    } else if !need_brackets && p < s_len && s.get_char(p) == '{' {
        proof {
            lemma_find_props(s@, seq!['}'], p + 1);
        }
        match find_from(s, "}", p + 1) {
            Some(ce) => {
                if ce > p + 1 {
                    let class = s.substring_char(p + 1, ce);
                    Some(
                        DocClassSpan {
                            start: i,
                            end: ce + 1,
                            opts: None,
                            class: class.to_owned(),
                        },
                    )
                } else {
                    None
                }
            },
            None => None,
        }
    } else {
        None
    }
}

/// The first document-class declaration of `s`.
fn find_docclass(s: &str, need_brackets: bool) -> (r: Option<DocClassSpan>)
    ensures
        match r {
            Some(d) => spec_find_docclass(s@, 0, need_brackets) == Some(d@) && d.start < d.end
                <= s@.len(),
            None => spec_find_docclass(s@, 0, need_brackets) is None,
        },
{
    let s_len = s.unicode_len();
    let mut i: usize = 0;
    while i < s_len
        invariant
            0 <= i <= s_len,
            s_len == s@.len(),
            spec_find_docclass(s@, 0, need_brackets) == spec_find_docclass(
                s@,
                i as int,
                need_brackets,
            ),
        decreases s_len - i,
    {
        match docclass_at(s, i, need_brackets) {
            Some(d) => {
                return Some(d);
            },
            None => {},
        }
        i += 1;
    }
    None
}

/// Replaces `s[a..b]` with `mid`.
fn splice(s: &str, a: usize, b: usize, mid: &str) -> (r: String)
    requires
        a <= b <= s@.len(),
    ensures
        r@ == s@.subrange(0, a as int) + mid@ + s@.subrange(b as int, s@.len() as int),
{
    let s_len = s.unicode_len();
    let mut r = s.substring_char(0, a).to_owned();
    r.append(mid);
    r.append(s.substring_char(b, s_len));
    r
}

/// The visible marker inserted after the document-body start in draft mode.
pub open spec fn marker() -> Seq<char> {
    "\n\\textbf{--- DRAFT MODE ACTIVE ---}\n"@
}

/// The class-declaration stage of switching draft on: a draft option is
/// ensured in the first document-class declaration, added in front of any
/// options unless some option text already mentions it.
pub open spec fn spec_draft_on_class(s: Seq<char>) -> Seq<char> {
    match spec_find_docclass(s, 0, false) {
        None => s,
        Some(dc) => {
            let opts = match dc.opts {
                Some(o) => o,
                None => Seq::empty(),
            };
            if spec_contains(opts, "draft"@) {
                s
            } else {
                let newopts = if opts.len() == 0 {
                    "draft"@
                } else {
                    "draft,"@ + opts
                };
                s.subrange(0, dc.start) + "\\documentclass["@ + newopts + "]{"@ + dc.class + "}"@
                    + s.subrange(dc.end, s.len() as int)
            }
        },
    }
}

/// The marker stage of switching draft on: the visible marker is inserted
/// right after the first document-body start unless already present.
pub open spec fn spec_mark(s1: Seq<char>) -> Seq<char> {
    match spec_find(s1, "\\begin{document}"@, 0) {
        None => s1,
        Some(p) => if spec_contains(s1, marker()) {
            s1
        } else {
            let q = p + "\\begin{document}"@.len();
            s1.subrange(0, q) + marker() + s1.subrange(q, s1.len() as int)
        },
    }
}

/// Draft switched on: the draft option ensured, then the marker inserted.
pub open spec fn spec_draft_on(s: Seq<char>) -> Seq<char> {
    spec_mark(spec_draft_on_class(s))
}

/// The option pieces kept when draft is removed: each piece trimmed, pieces
/// equal to the draft option dropped.
pub open spec fn spec_off_parts(parts: Seq<Seq<char>>, i: int) -> Seq<Seq<char>>
    decreases parts.len() - i,
    when 0 <= i
{
    if i >= parts.len() {
        Seq::empty()
    } else {
        let t = spec_trim(parts[i]);
        (if t == "draft"@ {
            Seq::empty()
        } else {
            seq![t]
        }) + spec_off_parts(parts, i + 1)
    }
}

/// The class-declaration stage of switching draft off: if the first
/// bracketed document-class declaration mentions draft among its options,
/// the draft option is dropped; the brackets disappear when nothing remains.
pub open spec fn spec_draft_off_class(s: Seq<char>) -> Seq<char> {
    match spec_find_docclass(s, 0, true) {
        None => s,
        Some(dc) => {
            let opts = match dc.opts {
                Some(o) => o,
                None => Seq::empty(),
            };
            if !spec_contains(opts, "draft"@) {
                s
            } else {
                let kept = spec_off_parts(spec_split_on(opts, ','), 0);
                if kept.len() == 0 {
                    s.subrange(0, dc.start) + "\\documentclass{"@ + dc.class + "}"@ + s.subrange(
                        dc.end,
                        s.len() as int,
                    )
                } else {
                    s.subrange(0, dc.start) + "\\documentclass["@ + spec_join_on(kept, ',')
                        + "]{"@ + dc.class + "}"@ + s.subrange(dc.end, s.len() as int)
                }
            }
        },
    }
}

/// The marker stage of switching draft off: the first occurrence of the
/// visible marker, if any, is removed.
pub open spec fn spec_unmark(s1: Seq<char>) -> Seq<char> {
    match spec_find(s1, marker(), 0) {
        None => s1,
        Some(p) => s1.subrange(0, p) + s1.subrange(p + marker().len(), s1.len() as int),
    }
}

/// Draft switched off: the draft option dropped, then the marker removed.
pub open spec fn spec_draft_off(s: Seq<char>) -> Seq<char> {
    spec_unmark(spec_draft_off_class(s))
}

/// The draft transform for a flag value.
pub open spec fn spec_draft(s: Seq<char>, draft: bool) -> Seq<char> {
    if draft {
        spec_draft_on(s)
    } else {
        spec_draft_off(s)
    }
}

// --- the draft round trip ---

proof fn lemma_marker_facts()
    ensures
        marker().len() == 36,
        marker()[0] == '\n',
        marker()[35] == '\n',
        forall|k: int| 1 <= k < 35 ==> #[trigger] marker()[k] != '\n',
        forall|k: int| 0 <= k < 36 ==> #[trigger] marker()[k] != 'd',
        "\\documentclass"@.len() == 14,
        forall|k: int| 0 <= k < 14 ==> #[trigger] "\\documentclass"@[k] != '\n',
        "\\textbf{--- DRAFT MODE ACTIVE ---}"@.len() == 34,
        forall|k: int|
            0 <= k < 34 ==> #[trigger] "\\textbf{--- DRAFT MODE ACTIVE ---}"@[k] == marker()[k + 1],
{
    reveal_strlit("\n\\textbf{--- DRAFT MODE ACTIVE ---}\n");
    reveal_strlit("\\textbf{--- DRAFT MODE ACTIVE ---}");
    reveal_strlit("\\documentclass");
}

/// Without any occurrence of the document-class command, no declaration is
/// found.
proof fn lemma_docclass_none(s: Seq<char>, i: int, nb: bool)
    requires
        0 <= i,
        forall|j: int| !is_match_at(s, "\\documentclass"@, j),
    ensures
        spec_find_docclass(s, i, nb) is None,
    decreases s.len() - i,
{
    if i < s.len() {
        assert(!is_match_at(s, "\\documentclass"@, i));
        lemma_docclass_none(s, i + 1, nb);
    }
}

/// Inserting the marker at `q` into a source free of the document-class
/// command and of the marker's text creates no document-class occurrence,
/// and the inserted marker is the first marker occurrence.
proof fn lemma_marked_occurrences(s: Seq<char>, q: int)
    requires
        0 <= q <= s.len(),
        !spec_contains(s, "\\documentclass"@),
        !spec_contains(s, "\\textbf{--- DRAFT MODE ACTIVE ---}"@),
    ensures
        ({
            let s2 = s.subrange(0, q) + marker() + s.subrange(q, s.len() as int);
            (forall|i: int| !is_match_at(s2, "\\documentclass"@, i)) && is_match_at(
                s2,
                marker(),
                q,
            ) && (forall|j: int| 0 <= j < q ==> !is_match_at(s2, marker(), j))
        }),
{
    lemma_marker_facts();
    let name = "\\documentclass"@;
    let core = "\\textbf{--- DRAFT MODE ACTIVE ---}"@;
    let m = marker();
    let s2 = s.subrange(0, q) + m + s.subrange(q, s.len() as int);
    assert(s2.len() == s.len() + 36);
    assert(forall|x: int| 0 <= x < q ==> s2[x] == s[x]);
    assert(forall|x: int| 0 <= x < 36 ==> s2[q + x] == m[x]);
    assert(forall|x: int| q + 36 <= x < s2.len() ==> s2[x] == s[x - 36]);
    assert forall|i: int| !is_match_at(s2, name, i) by {
        if is_match_at(s2, name, i) {
            assert(0 <= i && i + 14 <= s2.len());
            assert(forall|k: int| 0 <= k < 14 ==> s2[i + k] == name[k]) by {
                assert(forall|k: int|
                    0 <= k < 14 ==> s2.subrange(i, i + 14)[k] == #[trigger] s2[i + k]);
            }
            if i + 14 <= q {
                assert(is_match_at(s, name, i)) by {
                    assert(s.subrange(i, i + 14) =~= name);
                }
                assert(spec_contains(s, name));
            } else if i >= q + 36 {
                assert(is_match_at(s, name, i - 36)) by {
                    assert(s.subrange(i - 36, i - 36 + 14) =~= name);
                }
                assert(spec_contains(s, name));
            } else if i < q {
                assert(s2[q + 0] == m[0]);
                assert(s2[q] == name[q - i]);
            } else if i + 14 <= q + 36 {
                assert(s2[i + 1] == m[i + 1 - q]);
                assert(s2[i + 1] == name[1]);
                assert(name[1] == 'd') by {
                    reveal_strlit("\\documentclass");
                }
            } else {
                assert(s2[q + 35] == m[35]);
                assert(s2[q + 35] == name[q + 35 - i]);
            }
        }
    }
    assert(is_match_at(s2, m, q)) by {
        assert(s2.subrange(q, q + 36) =~= m);
    }
    assert forall|j: int| 0 <= j < q implies !is_match_at(s2, m, j) by {
        if is_match_at(s2, m, j) {
            assert(forall|k: int| 0 <= k < 36 ==> s2[j + k] == m[k]) by {
                assert(forall|k: int|
                    0 <= k < 36 ==> s2.subrange(j, j + 36)[k] == #[trigger] s2[j + k]);
            }
            if j + 36 <= q {
                assert(is_match_at(s, core, j + 1)) by {
                    assert(forall|k: int| 0 <= k < 34 ==> s[j + 1 + k] == core[k]);
                    assert(s.subrange(j + 1, j + 1 + 34) =~= core);
                }
                assert(spec_contains(s, core));
            } else {
                assert(j < q < j + 36);
                assert(s2[q] == m[q - j]);
                assert(s2[q + 0] == m[0]);
                assert(m[q - j] == '\n');
                assert(q - j == 35);
                assert(is_match_at(s, core, j + 1)) by {
                    assert(forall|k: int| 0 <= k < 34 ==> s[j + 1 + k] == core[k]);
                    assert(s.subrange(j + 1, j + 1 + 34) =~= core);
                }
                assert(spec_contains(s, core));
            }
        }
    }
}

/// The first declaration found is a match preceded by no other match.
proof fn lemma_find_docclass_props(s: Seq<char>, i: int, nb: bool)
    requires
        0 <= i,
    ensures
        match spec_find_docclass(s, i, nb) {
            Some(d) => i <= d.start && spec_docclass_at(s, d.start, nb) == Some(d) && (forall|
                j: int,
            |
                i <= j < d.start ==> spec_docclass_at(s, j, nb) is None),
            None => forall|j: int| i <= j < s.len() ==> spec_docclass_at(s, j, nb) is None,
        },
    decreases s.len() - i,
{
    if i < s.len() {
        lemma_docclass_at_bounds(s, i, nb);
        if spec_docclass_at(s, i, nb) is None {
            lemma_find_docclass_props(s, i + 1, nb);
        }
    }
}

/// A declaration match preceded by no other match is what the search finds.
proof fn lemma_find_docclass_exact(s: Seq<char>, from: int, k: int, nb: bool)
    requires
        0 <= from <= k < s.len(),
        spec_docclass_at(s, k, nb) is Some,
        forall|j: int| from <= j < k ==> spec_docclass_at(s, j, nb) is None,
    ensures
        spec_find_docclass(s, from, nb) == spec_docclass_at(s, k, nb),
    decreases k - from,
{
    if from < k {
        lemma_find_docclass_exact(s, from + 1, k, nb);
    }
}

/// A single-character pattern matches where the character stands.
proof fn lemma_char_match(s: Seq<char>, c: char, t: int)
    ensures
        is_match_at(s, seq![c], t) <==> (0 <= t < s.len() && s[t] == c),
{
    if 0 <= t < s.len() {
        if s[t] == c {
            assert(s.subrange(t, t + 1) =~= seq![c]);
        } else {
            if s.subrange(t, t + 1) == seq![c] {
                assert(s.subrange(t, t + 1)[0] == c);
            }
        }
    }
}

proof fn lemma_class_literals()
    ensures
        "\\documentclass"@.len() == 14,
        "\\documentclass["@.len() == 15,
        forall|k: int|
            0 <= k < 14 ==> #[trigger] "\\documentclass["@[k] == "\\documentclass"@[k],
        "\\documentclass["@[14] == '[',
        "\\documentclass{"@.len() == 15,
        forall|k: int|
            0 <= k < 14 ==> #[trigger] "\\documentclass{"@[k] == "\\documentclass"@[k],
        "\\documentclass{"@[14] == '{',
        forall|k: int| 0 <= k < 14 ==> #[trigger] "\\documentclass"@[k] != '[',
        "draft"@.len() == 5,
        forall|k: int|
            0 <= k < 5 ==> #[trigger] "draft"@[k] != '[' && "draft"@[k] != ']' && "draft"@[k]
                != ',' && !crate::text::is_lws("draft"@[k]),
        "]{"@.len() == 2,
        "]{"@[0] == ']',
        "]{"@[1] == '{',
        "}"@.len() == 1,
        "}"@[0] == '}',
{
    reveal_strlit("\\documentclass[");
    reveal_strlit("\\documentclass{");
    reveal_strlit("\\documentclass");
    reveal_strlit("draft");
    reveal_strlit("]{");
    reveal_strlit("}");
}

/// A bracketless declaration's shape, extracted from a match in a source
/// free of bracket characters.
proof fn lemma_docclass_bracketless(s: Seq<char>, i: int)
    requires
        0 <= i,
        spec_docclass_at(s, i, false) is Some,
        forall|x: int| 0 <= x < s.len() ==> s[x] != '[',
    ensures
        ({
            let d = spec_docclass_at(s, i, false)->Some_0;
            let p = i + 14;
            &&& is_match_at(s, "\\documentclass"@, i)
            &&& p < s.len()
            &&& s[p] == '{'
            &&& spec_find(s, seq!['}'], p + 1) is Some
            &&& ({
                let ce = spec_find(s, seq!['}'], p + 1)->Some_0;
                ce > p + 1 && ce < s.len() && d.start == i && d.end == ce + 1 && d.opts is None
                    && d.class == s.subrange(p + 1, ce) && s[ce] == '}' && (forall|t: int|
                    p + 1 <= t < ce ==> s[t] != '}')
            })
        }),
{
    lemma_class_literals();
    let name = "\\documentclass"@;
    assert(is_match_at(s, name, i));
    let p = i + 14;
    assert(!(p < s.len() && s[p] == '['));
    assert(p < s.len() && s[p] == '{');
    let ce = spec_find(s, seq!['}'], p + 1)->Some_0;
    lemma_find_props(s, seq!['}'], p + 1);
    assert forall|t: int| p + 1 <= t < ce implies s[t] != '}' by {
        lemma_char_match(s, '}', t);
    }
    assert(s[ce] == '}') by {
        lemma_char_match(s, '}', ce);
    }
}

/// The rewritten declaration parses back as the first bracketed
/// declaration, carrying exactly the draft option.
#[verifier::rlimit(60)]
proof fn lemma_on_class_parses_back(s: Seq<char>, st: int, ce: int, s1: Seq<char>)
    requires
        0 <= st,
        st + 14 < s.len(),
        ce > st + 15,
        ce < s.len(),
        is_match_at(s, "\\documentclass"@, st),
        forall|x: int| 0 <= x < s.len() ==> s[x] != '[',
        forall|t: int| st + 15 <= t < ce ==> s[t] != '}',
        s1 == s.subrange(0, st) + "\\documentclass["@ + "draft"@ + "]{"@ + s.subrange(
            st + 15,
            ce,
        ) + "}"@ + s.subrange(ce + 1, s.len() as int),
    ensures
        spec_find_docclass(s1, 0, true) == Some(
            DocClassModel {
                start: st,
                end: st + 23 + (ce - (st + 15)),
                opts: Some("draft"@),
                class: s.subrange(st + 15, ce),
            },
        ),
{
    lemma_class_literals();
    let name = "\\documentclass"@;
    let cls = s.subrange(st + 15, ce);
    let clen = ce - (st + 15);
    let ilen = 23 + clen;
    assert(s1.len() == s.len() - (ce + 1 - st) + ilen);
    assert(forall|x: int| 0 <= x < st ==> s1[x] == s[x]);
    assert(forall|k: int| 0 <= k < 14 ==> s1[st + k] == name[k]);
    assert(s1[st + 14] == '[');
    assert(forall|k: int| 0 <= k < 5 ==> s1[st + 15 + k] == "draft"@[k]);
    assert(s1[st + 20] == ']' && s1[st + 21] == '{');
    assert(forall|k: int| 0 <= k < clen ==> s1[st + 22 + k] == cls[k]);
    assert(s1[st + 22 + clen] == '}');
    assert(forall|x: int| st + ilen <= x < s1.len() ==> s1[x] == s[x - ilen + (ce + 1 - st)]);
    assert(forall|k: int| 0 <= k < clen ==> cls[k] == s[st + 15 + k]);
    let dc1 = DocClassModel { start: st, end: st + ilen, opts: Some("draft"@), class: cls };
    assert(spec_docclass_at(s1, st, true) == Some(dc1)) by {
        assert(is_match_at(s1, name, st)) by {
            assert(s1.subrange(st, st + 14) =~= name);
        }
        assert(spec_find(s1, seq![']'], st + 15) == Some(st + 20)) by {
            assert(is_match_at(s1, seq![']'], st + 20)) by {
                lemma_char_match(s1, ']', st + 20);
            }
            assert forall|t: int| st + 15 <= t < st + 20 implies !is_match_at(
                s1,
                seq![']'],
                t,
            ) by {
                lemma_char_match(s1, ']', t);
                assert(s1[t] == "draft"@[t - (st + 15)]);
            }
            lemma_find_exact(s1, seq![']'], st + 15, st + 20);
        }
        assert(s1[st + 21] == '{');
        assert(spec_find(s1, seq!['}'], st + 22) == Some(st + 22 + clen)) by {
            assert(is_match_at(s1, seq!['}'], st + 22 + clen)) by {
                lemma_char_match(s1, '}', st + 22 + clen);
            }
            assert forall|t: int| st + 22 <= t < st + 22 + clen implies !is_match_at(
                s1,
                seq!['}'],
                t,
            ) by {
                lemma_char_match(s1, '}', t);
                assert(s1[t] == cls[t - (st + 22)]);
                assert(cls[t - (st + 22)] == s[st + 15 + (t - (st + 22))]);
            }
            lemma_find_exact(s1, seq!['}'], st + 22, st + 22 + clen);
        }
        assert(s1.subrange(st + 15, st + 20) =~= "draft"@);
        assert(s1.subrange(st + 22, st + 22 + clen) =~= cls);
    }
    assert forall|j: int| 0 <= j < st implies spec_docclass_at(s1, j, true) is None by {
        if spec_docclass_at(s1, j, true) is Some {
            assert(is_match_at(s1, name, j));
            assert(j + 14 < s1.len() && s1[j + 14] == '[');
            assert forall|x: int| 0 <= x < s1.len() && x != st + 14 implies s1[x] != '[' by {
                if x < st {
                } else if x < st + 14 {
                } else if x < st + 20 {
                } else if x < st + 22 {
                } else if x < st + 22 + clen {
                } else if x < st + ilen {
                } else {
                }
            }
            assert(j + 14 == st + 14);
        }
    }
    lemma_find_docclass_exact(s1, 0, st, true);
}

/// Dropping the draft option pieces leaves nothing to keep.
proof fn lemma_draft_opts_drop()
    ensures
        spec_contains("draft"@, "draft"@),
        spec_split_on("draft"@, ',') == seq!["draft"@],
        spec_off_parts(seq!["draft"@], 0) == Seq::<Seq<char>>::empty(),
{
    lemma_class_literals();
    assert(is_match_at("draft"@, "draft"@, 0)) by {
        assert("draft"@.subrange(0, 5) =~= "draft"@);
    }
    crate::text::lemma_split_no_sep("draft"@, ',');
    assert(spec_trim("draft"@) == "draft"@) by {
        assert(crate::text::spec_trim_start("draft"@, 0) == 0);
        assert(crate::text::spec_trim_end("draft"@, 5) == 5);
        assert("draft"@.subrange(0, 5) =~= "draft"@);
    }
    assert(seq!["draft"@][0] == "draft"@);
    assert(spec_off_parts(seq!["draft"@], 1) =~= Seq::<Seq<char>>::empty());
    assert(spec_off_parts(seq!["draft"@], 0) =~= Seq::<Seq<char>>::empty());
}

/// Rebuilding the bracketless declaration restores the source.
#[verifier::rlimit(60)]
proof fn lemma_off_restores(s: Seq<char>, st: int, ce: int, s1: Seq<char>)
    requires
        0 <= st,
        st + 14 < s.len(),
        ce > st + 15,
        ce < s.len(),
        is_match_at(s, "\\documentclass"@, st),
        s[st + 14] == '{',
        s[ce] == '}',
        s1 == s.subrange(0, st) + "\\documentclass["@ + "draft"@ + "]{"@ + s.subrange(
            st + 15,
            ce,
        ) + "}"@ + s.subrange(ce + 1, s.len() as int),
    ensures
        s1.subrange(0, st) + "\\documentclass{"@ + s.subrange(st + 15, ce) + "}"@ + s1.subrange(
            st + 23 + (ce - (st + 15)),
            s1.len() as int,
        ) == s,
{
    lemma_class_literals();
    let name = "\\documentclass"@;
    let cls = s.subrange(st + 15, ce);
    let clen = ce - (st + 15);
    let ilen = 23 + clen;
    assert(s1.len() == s.len() - (ce + 1 - st) + ilen);
    assert(forall|x: int| 0 <= x < st ==> s1[x] == s[x]);
    assert(forall|x: int| st + ilen <= x < s1.len() ==> s1[x] == s[x - ilen + (ce + 1 - st)]);
    assert(forall|k: int| 0 <= k < 14 ==> s[st + k] == name[k]) by {
        assert(forall|k: int|
            0 <= k < 14 ==> s.subrange(st, st + 14)[k] == #[trigger] s[st + k]);
    }
    let back = s1.subrange(0, st) + "\\documentclass{"@ + cls + "}"@ + s1.subrange(
        st + ilen,
        s1.len() as int,
    );
    assert(back.len() == s.len());
    assert forall|x: int| 0 <= x < s.len() implies back[x] == s[x] by {
        if x < st {
        } else if x < st + 14 {
            assert(back[x] == "\\documentclass{"@[x - st]);
        } else if x == st + 14 {
            assert(back[x] == "\\documentclass{"@[14]);
        } else if x < ce {
            assert(back[x] == cls[x - (st + 15)]);
        } else if x == ce {
            assert(back[x] == "}"@[0]);
        } else {
            let off = x - (ce + 1);
            assert(back[x] == s1.subrange(st + ilen, s1.len() as int)[off]);
            assert(s1[st + ilen + off] == s[x]);
        }
    }
    assert(back =~= s);
}

/// For a source without bracket characters whose first document-class
/// declaration is therefore bracketless, adding the draft option and then
/// removing it restores the source byte for byte.
#[verifier::rlimit(100)]
pub proof fn lemma_draft_option_round_trip(s: Seq<char>)
    requires
        spec_find_docclass(s, 0, false) is Some,
        forall|x: int| 0 <= x < s.len() ==> s[x] != '[',
    ensures
        spec_draft_off_class(spec_draft_on_class(s)) == s,
{
    lemma_class_literals();
    let dc = spec_find_docclass(s, 0, false)->Some_0;
    lemma_find_docclass_props(s, 0, false);
    let st = dc.start;
    lemma_docclass_bracketless(s, st);
    let p0 = st + 14;
    let ce = spec_find(s, seq!['}'], p0 + 1)->Some_0;
    let cls = dc.class;
    let clen = ce - (p0 + 1);
    let ilen = 23 + clen;
    assert(!spec_contains(Seq::<char>::empty(), "draft"@)) by {
        if spec_contains(Seq::<char>::empty(), "draft"@) {
            let i = choose|i: int| is_match_at(Seq::<char>::empty(), "draft"@, i);
            assert(is_match_at(Seq::<char>::empty(), "draft"@, i));
        }
    }
    let s1 = s.subrange(0, st) + "\\documentclass["@ + "draft"@ + "]{"@ + cls + "}"@
        + s.subrange(dc.end, s.len() as int);
    assert(spec_draft_on_class(s) == s1);
    lemma_on_class_parses_back(s, st, ce, s1);
    let dc1 = DocClassModel { start: st, end: st + ilen, opts: Some("draft"@), class: cls };
    assert(spec_find_docclass(s1, 0, true) == Some(dc1));
    lemma_draft_opts_drop();
    let back = s1.subrange(0, st) + "\\documentclass{"@ + cls + "}"@ + s1.subrange(
        st + ilen,
        s1.len() as int,
    );
    assert(spec_draft_off_class(s1) == back);
    lemma_off_restores(s, st, ce, s1);
}

/// Toggling draft on and then off reproduces the source byte for byte, for
/// a source carrying no document-class declaration and no occurrence of the
/// draft marker's text.
pub proof fn lemma_draft_round_trip(s: Seq<char>)
    requires
        !spec_contains(s, "\\documentclass"@),
        !spec_contains(s, "\\textbf{--- DRAFT MODE ACTIVE ---}"@),
    ensures
        spec_draft_off(spec_draft_on(s)) == s,
{
    lemma_marker_facts();
    let name = "\\documentclass"@;
    let core = "\\textbf{--- DRAFT MODE ACTIVE ---}"@;
    let m = marker();
    assert(forall|j: int| !is_match_at(s, name, j)) by {
        if exists|j: int| is_match_at(s, name, j) {
            assert(spec_contains(s, name));
        }
    }
    assert(!spec_contains(s, m)) by {
        if spec_contains(s, m) {
            let j = choose|j: int| is_match_at(s, m, j);
            assert(forall|k: int| 0 <= k < 36 ==> s[j + k] == m[k]) by {
                assert(forall|k: int|
                    0 <= k < 36 ==> s.subrange(j, j + 36)[k] == #[trigger] s[j + k]);
            }
            assert(is_match_at(s, core, j + 1)) by {
                assert(forall|k: int| 0 <= k < 34 ==> s[j + 1 + k] == core[k]);
                assert(s.subrange(j + 1, j + 1 + 34) =~= core);
            }
        }
    }
    lemma_docclass_none(s, 0, false);
    assert(spec_draft_on_class(s) == s);
    lemma_find_props(s, "\\begin{document}"@, 0);
    match spec_find(s, "\\begin{document}"@, 0) {
        None => {
            assert(spec_draft_on(s) == s);
            lemma_docclass_none(s, 0, true);
            assert(spec_draft_off_class(s) == s);
            lemma_find_contains(s, m);
            assert(spec_unmark(s) == s);
        },
        Some(p) => {
            let q = p + "\\begin{document}"@.len();
            assert(0 <= q <= s.len());
            let s2 = s.subrange(0, q) + m + s.subrange(q, s.len() as int);
            assert(spec_draft_on(s) == s2);
            lemma_marked_occurrences(s, q);
            lemma_docclass_none(s2, 0, true);
            assert(spec_draft_off_class(s2) == s2);
            lemma_find_exact(s2, m, 0, q);
            assert(spec_unmark(s2) =~= s) by {
                assert(s2.subrange(0, q) =~= s.subrange(0, q));
                assert(s2.subrange(q + 36, s2.len() as int) =~= s.subrange(q, s.len() as int));
            }
        },
    }
}

// --- the include-scope optimizer ---

/// `x` occurs among `xs`.
pub open spec fn seq_has(xs: Seq<Seq<char>>, x: Seq<char>) -> bool {
    exists|i: int| 0 <= i < xs.len() && xs[i] == x
}

pub open spec fn spec_top_units_from(cmds: Seq<(int, Seq<char>)>, i: int) -> Seq<Seq<char>>
    decreases cmds.len() - i,
    when 0 <= i
{
    if i >= cmds.len() {
        Seq::empty()
    } else {
        seq![cmds[i].1] + spec_top_units_from(cmds, i + 1)
    }
}

/// The commands whose arguments are top-level units.
pub open spec fn unit_names() -> Seq<Seq<char>> {
    seq!["\\include{"@]
}

/// The ordered top-level units of the root text: the raw arguments of its
/// include commands.
pub open spec fn spec_top_units(latex: Seq<char>) -> Seq<Seq<char>> {
    spec_top_units_from(spec_scan_cmds(latex, unit_names(), 1), 0)
}

/// What running the change detector over `paths` in order yields: the
/// deltas of the paths whose stored content changed, and the hash table
/// afterwards. Paths absent from the store are passed over.
pub open spec fn spec_deltas(
    files: Map<Seq<char>, Seq<u8>>,
    hashes: Map<Seq<char>, u64>,
    paths: Seq<Seq<char>>,
    i: int,
) -> (Seq<DeltaModel>, Map<Seq<char>, u64>)
    decreases paths.len() - i,
    when 0 <= i
{
    if i >= paths.len() {
        (Seq::empty(), hashes)
    } else {
        let p = paths[i];
        if files.dom().contains(p) {
            let ob = spec_observe(hashes, p, files[p]);
            let rest = spec_deltas(files, ob.0, paths, i + 1);
            if ob.2 {
                (
                    seq![
                        DeltaModel {
                            path: p,
                            old_hash: ob.1,
                            new_hash: spec_content_hash(files[p]),
                            content_size: files[p].len() as int,
                        },
                    ] + rest.0,
                    rest.1,
                )
            } else {
                rest
            }
        } else {
            spec_deltas(files, hashes, paths, i + 1)
        }
    }
}

/// The set of paths the deltas name.
pub open spec fn delta_path_set(ds: Seq<DeltaModel>) -> Set<Seq<char>> {
    Set::new(|k: Seq<char>| exists|i: int| 0 <= i < ds.len() && ds[i].path == k)
}

/// A top-level unit is affected when its own file changed or any file in
/// its transitive dependency set changed.
pub open spec fn spec_unit_affected(
    files: Map<Seq<char>, Seq<u8>>,
    changed: Set<Seq<char>>,
    unit: Seq<char>,
) -> bool {
    let up = spec_ensure_suffix(unit, ".tex"@);
    let deps = spec_collect(files, up, Set::empty()).0;
    changed.contains(up) || (exists|j: int| 0 <= j < deps.len() && changed.contains(deps[j]))
}

/// The affected units, in unit order.
pub open spec fn spec_affected_from(
    files: Map<Seq<char>, Seq<u8>>,
    changed: Set<Seq<char>>,
    units: Seq<Seq<char>>,
    i: int,
) -> Seq<Seq<char>>
    decreases units.len() - i,
    when 0 <= i
{
    if i >= units.len() {
        Seq::empty()
    } else {
        (if spec_unit_affected(files, changed, units[i]) {
            seq![units[i]]
        } else {
            Seq::empty()
        }) + spec_affected_from(files, changed, units, i + 1)
    }
}

/// The active file's base name: its path without the source extension.
pub open spec fn spec_base_name(active: Seq<char>) -> Seq<char> {
    if spec_ends_with(active, ".tex"@) {
        active.take(active.len() - ".tex"@.len())
    } else {
        active
    }
}

/// The file carries a bibliography-emission command.
pub open spec fn spec_has_bib_cmd(content: Seq<char>) -> bool {
    spec_contains(content, "\\bibliography"@) || spec_contains(content, "\\printbibliography"@)
}

/// Focus mode's bibliography pass: each unit whose stored file carries a
/// bibliography-emission command is appended unless already present.
pub open spec fn spec_focus_bibs(
    files: Map<Seq<char>, Seq<u8>>,
    units: Seq<Seq<char>>,
    i: int,
    acc: Seq<Seq<char>>,
) -> Seq<Seq<char>>
    decreases units.len() - i,
    when 0 <= i
{
    if i >= units.len() {
        acc
    } else {
        let u = units[i];
        let up = spec_ensure_suffix(u, ".tex"@);
        if files.dom().contains(up) && spec_has_bib_cmd(lossy_of(files[up])) && !seq_has(acc, u) {
            spec_focus_bibs(files, units, i + 1, acc.push(u))
        } else {
            spec_focus_bibs(files, units, i + 1, acc)
        }
    }
}

/// How the active file adjusts the affected set: in focus mode it becomes
/// exactly the active unit plus the bibliography-carrying units; otherwise
/// the active unit is ensured in the set. An active file that is no
/// top-level unit changes nothing.
pub open spec fn spec_apply_focus(
    files: Map<Seq<char>, Seq<u8>>,
    affected: Seq<Seq<char>>,
    units: Seq<Seq<char>>,
    active: Option<Seq<char>>,
    focus: bool,
) -> Seq<Seq<char>> {
    match active {
        None => affected,
        Some(a) => {
            let ab = spec_base_name(a);
            if seq_has(units, ab) {
                if focus {
                    spec_focus_bibs(files, units, 0, seq![ab])
                } else if seq_has(affected, ab) {
                    affected
                } else {
                    affected.push(ab)
                }
            } else {
                affected
            }
        },
    }
}

/// The scope-limiting directive for an affected set.
pub open spec fn spec_directive(aff: Seq<Seq<char>>) -> Seq<char> {
    "\\includeonly{"@ + spec_join_on(aff, ',') + "}\n"@
}

/// The injection step: when the affected set is nonempty and a strict
/// subset of the units, the directive is inserted immediately before the
/// first document-body start; otherwise, and when no document-body start
/// exists, the text is unchanged.
pub open spec fn spec_inject(latex: Seq<char>, aff: Seq<Seq<char>>, n_units: int) -> (
    Seq<char>,
    bool,
) {
    if aff.len() > 0 && aff.len() < n_units {
        match spec_find(latex, "\\begin{document}"@, 0) {
            Some(p) => (
                latex.subrange(0, p) + spec_directive(aff) + latex.subrange(
                    p,
                    latex.len() as int,
                ),
                true,
            ),
            None => (latex, false),
        }
    } else {
        (latex, false)
    }
}

/// The root path whose dependency tree drives change detection.
pub open spec fn spec_root_path() -> Seq<char> {
    "main.tex"@
}

/// What the optimizer yields for a root text: the rewritten source, whether
/// a scope-limiting directive was injected, the observed deltas, and the
/// hash table afterwards. With no top-level units only draft handling runs;
/// otherwise the root and its transitive dependencies go through the change
/// detector, the affected units are computed and adjusted for the active
/// file, the directive is injected where the affected set is a strict
/// nonempty subset, and draft handling runs last.
pub open spec fn spec_optimize(
    hashes: Map<Seq<char>, u64>,
    files: Map<Seq<char>, Seq<u8>>,
    latex: Seq<char>,
    draft: bool,
    focus: bool,
    active: Option<Seq<char>>,
) -> (Seq<char>, bool, Seq<DeltaModel>, Map<Seq<char>, u64>) {
    let units = spec_top_units(latex);
    if units.len() == 0 {
        (spec_draft(latex, draft), false, Seq::empty(), hashes)
    } else {
        let all_files = seq![spec_root_path()] + spec_collect(files, spec_root_path(), Set::empty()).0;
        let dr = spec_deltas(files, hashes, all_files, 0);
        let aff0 = spec_affected_from(files, delta_path_set(dr.0), units, 0);
        let aff = spec_apply_focus(files, aff0, units, active, focus);
        let inj = spec_inject(latex, aff, units.len() as int);
        (spec_draft(inj.0, draft), inj.1, dr.0, dr.1)
    }
}

/// Whether `s` stands among the listed paths.
fn has_path(v: &Vec<String>, s: &str) -> (r: bool)
    ensures
        r == seq_has(path_views(v@), s@),
{
    let mut i: usize = 0;
    while i < v.len()
        invariant
            0 <= i <= v@.len(),
            forall|j: int| 0 <= j < i ==> v@[j]@ != s@,
        decreases v@.len() - i,
    {
        if str_eq(v[i].as_str(), s) {
            assert(path_views(v@)[i as int] == s@);
            return true;
        }
        i += 1;
    }
    assert forall|j: int| 0 <= j < path_views(v@).len() implies path_views(v@)[j] != s@ by {
        assert(path_views(v@)[j] == v@[j]@);
    }
    false
}

/// The ordered top-level units of the root text.
pub fn top_units(latex: &str) -> (r: Vec<String>)
    ensures
        path_views(r@) == spec_top_units(latex@),
{
    let mut names: Vec<&'static str> = Vec::new();
    names.push("\\include{");
    proof {
        reveal_strlit("\\include{");
        assert(name_views(names@) =~= unit_names());
        assert(all_names_ok(unit_names())) by {
            assert(unit_names()[0].len() >= 1);
        }
    }
    let cmds = scan_cmds(latex, &names, 1);
    let ghost cmdsv = spec_scan_cmds(latex@, unit_names(), 1);
    assert(cmds@.map_values(|p: (usize, String)| (p.0 as int, p.1@)) == cmdsv);
    let mut r: Vec<String> = Vec::new();
    proof {
        assert(path_views(r@) =~= Seq::<Seq<char>>::empty());
    }
    let mut i: usize = 0;
    while i < cmds.len()
        invariant
            0 <= i <= cmds@.len(),
            cmds@.map_values(|p: (usize, String)| (p.0 as int, p.1@)) == cmdsv,
            path_views(r@) + spec_top_units_from(cmdsv, i as int) =~= spec_top_units(latex@),
        decreases cmds@.len() - i,
    {
        assert(cmdsv[i as int] == (cmds@[i as int].0 as int, cmds@[i as int].1@));
        let ghost before = r@;
        r.push(cmds[i].1.clone());
        proof {
            assert(path_views(r@) =~= path_views(before) + seq![r@.last()@]);
        }
        i += 1;
    }
    r
}

proof fn lemma_delta_paths_push(ds: Seq<DeltaModel>, d: DeltaModel)
    ensures
        delta_path_set(ds.push(d)) =~= delta_path_set(ds).insert(d.path),
{
    let w = ds.push(d);
    assert forall|k: Seq<char>| delta_path_set(w).contains(k) implies delta_path_set(ds).insert(
        d.path,
    ).contains(k) by {
        let i = choose|i: int| 0 <= i < w.len() && w[i].path == k;
        if i < ds.len() {
            assert(ds[i].path == k);
        }
    }
    assert forall|k: Seq<char>| delta_path_set(ds).insert(d.path).contains(k) implies delta_path_set(
        w,
    ).contains(k) by {
        if k == d.path {
            assert(w[ds.len() as int].path == k);
        } else {
            let i = choose|i: int| 0 <= i < ds.len() && ds[i].path == k;
            assert(w[i].path == k);
        }
    }
}

/// Whether a unit's own file or any file in its transitive dependency set
/// stands among the changed paths.
#[verifier::loop_isolation(false)]
fn unit_affected(vfs: &Vfs, changed: &Vec<String>, unit: &str) -> (r: bool)
    requires
        vfs.wf(),
    ensures
        r == spec_unit_affected(vfs@, visited_set(changed@), unit@),
{
    let up = ensure_suffix(unit, ".tex");
    if crate::dependencies::contains_string(changed, up.as_str()) {
        return true;
    }
    let deps = collect_all_dependencies(up.as_str(), vfs);
    let ghost depsv = spec_collect(vfs@, up@, Set::empty()).0;
    assert(path_views(deps@) == depsv);
    let mut j: usize = 0;
    while j < deps.len()
        invariant
            0 <= j <= deps@.len(),
            path_views(deps@) == depsv,
            forall|k: int| 0 <= k < j ==> !visited_set(changed@).contains(depsv[k]),
        decreases deps@.len() - j,
    {
        assert(depsv[j as int] == deps@[j as int]@);
        if crate::dependencies::contains_string(changed, deps[j].as_str()) {
            assert(spec_unit_affected(vfs@, visited_set(changed@), unit@)) by {
                let deps_spec = spec_collect(
                    vfs@,
                    spec_ensure_suffix(unit@, ".tex"@),
                    Set::empty(),
                ).0;
                assert(deps_spec == depsv);
                assert(0 <= j < deps_spec.len() && visited_set(changed@).contains(
                    deps_spec[j as int],
                ));
            }
            return true;
        }
        j += 1;
    }
    false
}

/// The focus-mode affected set: the active unit, then every unit carrying a
/// bibliography-emission command, in unit order.
fn focus_bibs(vfs: &Vfs, units: &Vec<String>, active_base: String) -> (r: Vec<String>)
    requires
        vfs.wf(),
    ensures
        path_views(r@) == spec_focus_bibs(vfs@, path_views(units@), 0, seq![active_base@]),
{
    let mut acc: Vec<String> = Vec::new();
    let ghost ab = active_base@;
    acc.push(active_base);
    proof {
        assert(path_views(acc@) =~= seq![ab]);
    }
    let ghost unitsv = path_views(units@);
    let mut i: usize = 0;
    while i < units.len()
        invariant
            0 <= i <= units@.len(),
            vfs.wf(),
            unitsv == path_views(units@),
            spec_focus_bibs(vfs@, unitsv, 0, seq![ab]) == spec_focus_bibs(
                vfs@,
                unitsv,
                i as int,
                path_views(acc@),
            ),
        decreases units@.len() - i,
    {
        assert(unitsv[i as int] == units@[i as int]@);
        let up = ensure_suffix(units[i].as_str(), ".tex");
        match vfs.read_file(up.as_str()) {
            Some(content_bytes) => {
                let content = decode_lossy(&content_bytes);
                let has_bib = contains_str(content.as_str(), "\\bibliography") || contains_str(
                    content.as_str(),
                    "\\printbibliography",
                );
                if has_bib && !has_path(&acc, units[i].as_str()) {
                    let ghost before = acc@;
                    acc.push(units[i].clone());
                    proof {
                        assert(path_views(acc@) =~= path_views(before) + seq![acc@.last()@]);
                        assert(path_views(acc@) =~= path_views(before).push(unitsv[i as int]));
                    }
                }
            },
            None => {},
        }
        i += 1;
    }
    acc
}

/// Injects the scope-limiting directive where the affected set is a strict
/// nonempty subset of the units.
fn inject_directive(latex: &str, affected: &Vec<String>, n_units: usize) -> (r: (String, bool))
    ensures
        (r.0@, r.1) == spec_inject(latex@, path_views(affected@), n_units as int),
{
    if affected.len() > 0 && affected.len() < n_units {
        proof {
            reveal_strlit(",");
            assert(","@ =~= seq![',']);
        }
        match find_from(latex, "\\begin{document}", 0) {
            Some(p) => {
                let joined = join_with(affected, ",");
                let mut directive = String::new();
                directive.append("\\includeonly{");
                directive.append(joined.as_str());
                directive.append("}\n");
                proof {
                    assert(directive@ =~= spec_directive(path_views(affected@)));
                }
                let out = splice(latex, p, p, directive.as_str());
                proof {
                    assert(out@ =~= spec_inject(
                        latex@,
                        path_views(affected@),
                        n_units as int,
                    ).0);
                }
                (out, true)
            },
            None => (latex.to_owned(), false),
        }
    } else {
        (latex.to_owned(), false)
    }
}

/// With exactly two top-level units of which only the second is affected by
/// the observed deltas, no active file set, and a document-body start
/// present, the optimizer injects a scope-limiting directive naming exactly
/// the second unit.
pub proof fn lemma_only_changed_unit_scoped(
    hashes: Map<Seq<char>, u64>,
    files: Map<Seq<char>, Seq<u8>>,
    latex: Seq<char>,
    a: Seq<char>,
    b: Seq<char>,
    draft: bool,
    focus: bool,
)
    requires
        files.dom().finite(),
        spec_top_units(latex) == seq![a, b],
        ({
            let dr = spec_deltas(
                files,
                hashes,
                seq![spec_root_path()] + spec_collect(files, spec_root_path(), Set::empty()).0,
                0,
            );
            !spec_unit_affected(files, delta_path_set(dr.0), a) && spec_unit_affected(
                files,
                delta_path_set(dr.0),
                b,
            )
        }),
        spec_find(latex, "\\begin{document}"@, 0) is Some,
    ensures
        ({
            let units = spec_top_units(latex);
            let dr = spec_deltas(
                files,
                hashes,
                seq![spec_root_path()] + spec_collect(files, spec_root_path(), Set::empty()).0,
                0,
            );
            let aff = spec_apply_focus(
                files,
                spec_affected_from(files, delta_path_set(dr.0), units, 0),
                units,
                None,
                focus,
            );
            let p = spec_find(latex, "\\begin{document}"@, 0)->Some_0;
            let o = spec_optimize(hashes, files, latex, draft, focus, None);
            aff == seq![b] && o.1 == true && o.0 == spec_draft(
                latex.subrange(0, p) + spec_directive(seq![b]) + latex.subrange(
                    p,
                    latex.len() as int,
                ),
                draft,
            )
        }),
{
    let units = spec_top_units(latex);
    let dr = spec_deltas(
        files,
        hashes,
        seq![spec_root_path()] + spec_collect(files, spec_root_path(), Set::empty()).0,
        0,
    );
    let changed = delta_path_set(dr.0);
    assert(units[0] == a && units[1] == b);
    assert(spec_affected_from(files, changed, units, 2) =~= Seq::<Seq<char>>::empty());
    assert(spec_affected_from(files, changed, units, 1) =~= seq![b]);
    assert(spec_affected_from(files, changed, units, 0) =~= seq![b]);
}

/// Focus mode with active unit `a`, where the stored file of unit `b`
/// carries a bibliography-emission command, yields an affected set of
/// exactly the active unit and the bibliography unit.
pub proof fn lemma_focus_keeps_bibliography(
    files: Map<Seq<char>, Seq<u8>>,
    affected: Seq<Seq<char>>,
    a: Seq<char>,
    b: Seq<char>,
)
    requires
        a != b,
        files.dom().contains(spec_ensure_suffix(b, ".tex"@)),
        spec_has_bib_cmd(lossy_of(files[spec_ensure_suffix(b, ".tex"@)])),
        !files.dom().contains(spec_ensure_suffix(a, ".tex"@)) || !spec_has_bib_cmd(
            lossy_of(files[spec_ensure_suffix(a, ".tex"@)]),
        ),
        spec_base_name(a) == a,
    ensures
        spec_apply_focus(files, affected, seq![a, b], Some(a), true) == seq![a, b],
{
    let units = seq![a, b];
    assert(units[0] == a && units[1] == b);
    assert(seq_has(units, a));
    let acc0 = seq![a];
    assert(seq_has(acc0, a)) by {
        assert(acc0[0] == a);
    }
    assert(!seq_has(acc0, b)) by {
        if seq_has(acc0, b) {
            let i = choose|i: int| 0 <= i < acc0.len() && acc0[i] == b;
            assert(acc0[i] == a);
        }
    }
    assert(spec_focus_bibs(files, units, 2, acc0.push(b)) == acc0.push(b));
    assert(spec_focus_bibs(files, units, 1, acc0) == acc0.push(b));
    assert(spec_focus_bibs(files, units, 0, acc0) == acc0.push(b));
    assert(acc0.push(b) =~= seq![a, b]);
}

// --- the compiler with its cache ---

/// What a cache consultation for the in-process backend does: on a hit the
/// stored bytes come back and the cache is unchanged; on a miss the backend
/// runs once and its output is stored under the key.
pub open spec fn spec_dispatch_internal(cache: Map<u64, Seq<u8>>, optimized: Seq<char>) -> (
    Map<u64, Seq<u8>>,
    Seq<u8>,
) {
    let key = spec_source_key(optimized, spec_backend_tag(CompileBackend::Internal));
    if cache.dom().contains(key) {
        (cache, cache[key])
    } else {
        (cache.insert(key, spec_internal_output(optimized)), spec_internal_output(optimized))
    }
}

/// Dispatching the same rewritten source twice performs the backend
/// invocation only once: the second consultation hits the cache, returns
/// byte-identical output, and leaves the cache exactly as it was.
pub proof fn lemma_dispatch_memoizes(cache: Map<u64, Seq<u8>>, optimized: Seq<char>)
    ensures
        ({
            let once = spec_dispatch_internal(cache, optimized);
            let twice = spec_dispatch_internal(once.0, optimized);
            twice.0 == once.0 && twice.1 == once.1
        }),
{
}

pub struct Compiler {
    cache: CacheMap,
    backend: CompileBackend,
    file_hashes: HashTable,
    pub active_file: Option<String>,
}

impl Compiler {
    /// The memoization cache's contents.
    pub closed spec fn spec_cache(&self) -> Map<u64, Seq<u8>> {
        cache_map_view(self.cache)
    }

    /// The change detector's hash table.
    pub closed spec fn spec_hashes(&self) -> Map<Seq<char>, u64> {
        hash_map_view(self.file_hashes)
    }

    /// The backend selected for dispatch.
    pub closed spec fn spec_backend(&self) -> CompileBackend {
        self.backend
    }

    /// The active file path, if one is set.
    pub closed spec fn spec_active(&self) -> Option<Seq<char>> {
        opt_view(self.active_file)
    }

    /// A compiler with an empty cache, an empty hash table, the in-process
    /// backend selected and no active file.
    pub fn new() -> (r: Self)
        ensures
            r.spec_cache() == Map::<u64, Seq<u8>>::empty(),
            r.spec_hashes() == Map::<Seq<char>, u64>::empty(),
            r.spec_backend() == CompileBackend::Internal,
            r.spec_active() is None,
    {
        Compiler {
            cache: cache_map_new(random_state_new()),
            backend: CompileBackend::Internal,
            file_hashes: hash_map_new(random_state_new()),
            active_file: None,
        }
    }

    /// Selects the backend and changes nothing else.
    pub fn set_backend(&mut self, backend: CompileBackend)
        ensures
            final(self).spec_backend() == backend,
            final(self).spec_cache() == old(self).spec_cache(),
            final(self).spec_hashes() == old(self).spec_hashes(),
            final(self).spec_active() == old(self).spec_active(),
    {
        self.backend = backend;
    }

    /// Sets the active file path and changes nothing else.
    pub fn set_active_file(&mut self, active: Option<String>)
        ensures
            final(self).spec_active() == opt_view(active),
            final(self).spec_cache() == old(self).spec_cache(),
            final(self).spec_hashes() == old(self).spec_hashes(),
            final(self).spec_backend() == old(self).spec_backend(),
    {
        self.active_file = active;
    }

    /// One change-detector observation of `content` under `path`: reports
    /// the hash previously on record and whether the content changed, and
    /// updates the table exactly as the observation model says.
    pub fn observe(&mut self, path: &str, content: &Vec<u8>) -> (r: (u64, bool))
        ensures
            ({
                let ob = spec_observe(old(self).spec_hashes(), path@, content@);
                final(self).spec_hashes() == ob.0 && r.0 == ob.1 && r.1 == ob.2
            }),
            final(self).spec_cache() == old(self).spec_cache(),
            final(self).spec_backend() == old(self).spec_backend(),
            final(self).spec_active() == old(self).spec_active(),
    {
        let h = content_hash(content);
        let owned = path.to_owned();
        match hash_map_get(&self.file_hashes, &owned) {
            Some(old_hash) => {
                if old_hash != h {
                    hash_map_insert(&mut self.file_hashes, owned, h);
                    (old_hash, true)
                } else {
                    (old_hash, false)
                }
            },
            None => {
                hash_map_insert(&mut self.file_hashes, owned, h);
                (0, true)
            },
        }
    }

    /// Consults the cache for the in-process backend and runs it on a miss.
    pub fn run_internal_cached(&mut self, optimized: &String) -> (r: Vec<u8>)
        ensures
            ({
                let d = spec_dispatch_internal(old(self).spec_cache(), optimized@);
                final(self).spec_cache() == d.0 && r@ == d.1
            }),
            final(self).spec_hashes() == old(self).spec_hashes(),
            final(self).spec_backend() == old(self).spec_backend(),
            final(self).spec_active() == old(self).spec_active(),
    {
        let key = source_key(optimized.as_str(), backend_tag(CompileBackend::Internal));
        match cache_map_get(&self.cache, &key) {
            Some(cached) => cached,
            None => {
                let out = compile_internal(optimized.as_str());
                cache_map_insert(&mut self.cache, key, out.clone());
                out
            },
        }
    }

    /// The include-scope optimizer. Rewrites the root text for the current
    /// change state: detects deltas across the root's transitive dependency
    /// set, narrows the build to the affected top-level units where that is
    /// sound, and applies draft handling. Its only side effect is the hash
    /// table update.
    #[verifier::loop_isolation(false)]
    pub fn optimize_latex(&mut self, latex: &str, draft: bool, focus_mode: bool, vfs: &Vfs) -> (r:
        (String, bool, Vec<FileDelta>))
        requires
            vfs.wf(),
        ensures
            ({
                let o = spec_optimize(
                    old(self).spec_hashes(),
                    vfs@,
                    latex@,
                    draft,
                    focus_mode,
                    old(self).spec_active(),
                );
                r.0@ == o.0 && r.1 == o.1 && delta_views(r.2@) == o.2 && final(self).spec_hashes()
                    == o.3
            }),
            final(self).spec_cache() == old(self).spec_cache(),
            final(self).spec_backend() == old(self).spec_backend(),
            final(self).spec_active() == old(self).spec_active(),
    {
        let units = top_units(latex);
        let ghost unitsv = spec_top_units(latex@);
        if units.len() == 0 {
            let out = self.apply_draft_mode(latex, draft);
            let deltas: Vec<FileDelta> = Vec::new();
            proof {
                assert(delta_views(deltas@) =~= Seq::<DeltaModel>::empty());
            }
            return (out, false, deltas);
        }
        let mut all_files: Vec<String> = Vec::new();
        all_files.push("main.tex".to_owned());
        let mut deps = collect_all_dependencies("main.tex", vfs);
        all_files.append(&mut deps);
        let ghost pathsv = seq![spec_root_path()] + spec_collect(
            vfs@,
            spec_root_path(),
            Set::empty(),
        ).0;
        proof {
            assert(path_views(all_files@) =~= pathsv);
        }
        let ghost h0 = self.spec_hashes();
        let mut deltas: Vec<FileDelta> = Vec::new();
        let mut changed_list: Vec<String> = Vec::new();
        proof {
            assert(delta_views(deltas@) =~= Seq::<DeltaModel>::empty());
            assert(visited_set(changed_list@) =~= delta_path_set(delta_views(deltas@)));
        }
        let mut i: usize = 0;
        while i < all_files.len()
            invariant
                0 <= i <= all_files@.len(),
                path_views(all_files@) == pathsv,
                spec_deltas(vfs@, h0, pathsv, 0).0 == delta_views(deltas@) + spec_deltas(
                    vfs@,
                    self.spec_hashes(),
                    pathsv,
                    i as int,
                ).0,
                spec_deltas(vfs@, h0, pathsv, 0).1 == spec_deltas(
                    vfs@,
                    self.spec_hashes(),
                    pathsv,
                    i as int,
                ).1,
                visited_set(changed_list@) == delta_path_set(delta_views(deltas@)),
                self.spec_cache() == old(self).spec_cache(),
                self.spec_backend() == old(self).spec_backend(),
                self.spec_active() == old(self).spec_active(),
            decreases all_files@.len() - i,
        {
            assert(pathsv[i as int] == all_files@[i as int]@);
            let ghost cur_h = self.spec_hashes();
            match vfs.read_file(all_files[i].as_str()) {
                Some(content) => {
                    let (old_hash, is_changed) = self.observe(all_files[i].as_str(), &content);
                    if is_changed {
                        let new_hash = content_hash(&content);
                        let ghost before_d = deltas@;
                        let ghost before_c = changed_list@;
                        deltas.push(
                            FileDelta {
                                path: all_files[i].clone(),
                                old_hash,
                                new_hash,
                                content_size: content.len(),
                            },
                        );
                        changed_list.push(all_files[i].clone());
                        proof {
                            assert(delta_views(deltas@) =~= delta_views(before_d) + seq![
                                deltas@.last()@,
                            ]);
                            assert(delta_views(deltas@) =~= delta_views(before_d).push(
                                deltas@.last()@,
                            ));
                            lemma_delta_paths_push(delta_views(before_d), deltas@.last()@);
                            assert(changed_list@.drop_last() =~= before_c);
                            crate::dependencies::lemma_visited_push(
                                before_c,
                                changed_list@.last(),
                            );
                        }
                    }
                },
                None => {},
            }
            i += 1;
        }
        let ghost dr = spec_deltas(vfs@, h0, pathsv, 0);
        proof {
            assert(delta_views(deltas@) + Seq::<DeltaModel>::empty() =~= delta_views(deltas@));
            assert(dr.0 == delta_views(deltas@));
            assert(dr.1 == self.spec_hashes());
        }
        let ghost chset = delta_path_set(dr.0);
        let mut affected: Vec<String> = Vec::new();
        proof {
            assert(path_views(affected@) =~= Seq::<Seq<char>>::empty());
        }
        let mut i: usize = 0;
        while i < units.len()
            invariant
                0 <= i <= units@.len(),
                path_views(units@) == unitsv,
                visited_set(changed_list@) == chset,
                vfs.wf(),
                path_views(affected@) + spec_affected_from(vfs@, chset, unitsv, i as int)
                    =~= spec_affected_from(vfs@, chset, unitsv, 0),
                self.spec_cache() == old(self).spec_cache(),
                self.spec_backend() == old(self).spec_backend(),
                self.spec_active() == old(self).spec_active(),
                self.spec_hashes() == dr.1,
            decreases units@.len() - i,
        {
            assert(unitsv[i as int] == units@[i as int]@);
            if unit_affected(vfs, &changed_list, units[i].as_str()) {
                let ghost before = affected@;
                affected.push(units[i].clone());
                proof {
                    assert(path_views(affected@) =~= path_views(before) + seq![affected@.last()@]);
                }
            }
            i += 1;
        }
        let ghost aff0 = spec_affected_from(vfs@, chset, unitsv, 0);
        proof {
            assert(path_views(affected@) =~= aff0);
        }
        match &self.active_file {
            None => {},
            Some(active) => {
                proof {
                    reveal_strlit(".tex");
                }
                let ab = if ends_with_str(active.as_str(), ".tex") {
                    let alen = active.as_str().unicode_len();
                    assert(alen >= 4);
                    active.as_str().substring_char(0, alen - 4).to_owned()
                } else {
                    active.clone()
                };
                proof {
                    assert(ab@ == spec_base_name(active@));
                }
                if has_path(&units, ab.as_str()) {
                    if focus_mode {
                        affected = focus_bibs(vfs, &units, ab);
                    } else {
                        if !has_path(&affected, ab.as_str()) {
                            let ghost before = affected@;
                            affected.push(ab);
                            proof {
                                assert(path_views(affected@) =~= path_views(before) + seq![
                                    affected@.last()@,
                                ]);
                                assert(path_views(affected@) =~= path_views(before).push(
                                    affected@.last()@,
                                ));
                            }
                        }
                    }
                }
            },
        }
        let ghost aff = spec_apply_focus(
            vfs@,
            aff0,
            unitsv,
            old(self).spec_active(),
            focus_mode,
        );
        proof {
            assert(path_views(affected@) == aff);
        }
        let (optimized, incremental) = inject_directive(latex, &affected, units.len());
        let out = self.apply_draft_mode(optimized.as_str(), draft);
        (out, incremental, deltas)
    }

    /// The compile entry for direct backends: the optimizer runs, then the
    /// in-process backend answers through the cache. Requests naming an
    /// engine-backed backend are refused here; the daemon dispatches them.
    pub fn compile(&mut self, latex: &str, draft: bool, focus_mode: bool, vfs: &Vfs) -> (r: Result<
        Vec<u8>,
        CompileError,
    >)
        requires
            vfs.wf(),
        ensures
            ({
                let o = spec_optimize(
                    old(self).spec_hashes(),
                    vfs@,
                    latex@,
                    draft,
                    focus_mode,
                    old(self).spec_active(),
                );
                final(self).spec_hashes() == o.3 && match old(self).spec_backend() {
                    CompileBackend::Internal => {
                        let d = spec_dispatch_internal(old(self).spec_cache(), o.0);
                        final(self).spec_cache() == d.0 && (r matches Ok(out) && out@ == d.1)
                    },
                    _ => r is Err && final(self).spec_cache() == old(self).spec_cache(),
                }
            }),
            final(self).spec_backend() == old(self).spec_backend(),
            final(self).spec_active() == old(self).spec_active(),
    {
        let (optimized, _incremental, _deltas) = self.optimize_latex(
            latex,
            draft,
            focus_mode,
            vfs,
        );
        match self.backend {
            CompileBackend::Internal => Ok(self.run_internal_cached(&optimized)),
            CompileBackend::Tectonic => Err(
                CompileError {
                    line: 0,
                    message: "the engine backend is dispatched asynchronously by the daemon".to_owned(),
                },
            ),
            CompileBackend::Latexmk => Err(
                CompileError {
                    line: 0,
                    message: "the external-process backend is handled asynchronously by the daemon".to_owned(),
                },
            ),
        }
    }

    /// Prepares an engine-backed compile: runs the optimizer, computes the
    /// cache key for the current backend, and hands back any cached output.
    pub fn prepare_engine_compile(
        &mut self,
        latex: &str,
        draft: bool,
        focus_mode: bool,
        vfs: &Vfs,
    ) -> (r: (String, u64, Option<Vec<u8>>))
        requires
            vfs.wf(),
        ensures
            ({
                let o = spec_optimize(
                    old(self).spec_hashes(),
                    vfs@,
                    latex@,
                    draft,
                    focus_mode,
                    old(self).spec_active(),
                );
                let key = spec_source_key(o.0, spec_backend_tag(old(self).spec_backend()));
                final(self).spec_hashes() == o.3 && r.0@ == o.0 && r.1 == key && match r.2 {
                    Some(v) => old(self).spec_cache().dom().contains(key) && v@ == old(
                        self,
                    ).spec_cache()[key],
                    None => !old(self).spec_cache().dom().contains(key),
                }
            }),
            final(self).spec_cache() == old(self).spec_cache(),
            final(self).spec_backend() == old(self).spec_backend(),
            final(self).spec_active() == old(self).spec_active(),
    {
        let (optimized, _incremental, _deltas) = self.optimize_latex(
            latex,
            draft,
            focus_mode,
            vfs,
        );
        let key = source_key(optimized.as_str(), backend_tag(self.backend));
        let cached = cache_map_get(&self.cache, &key);
        (optimized, key, cached)
    }

    /// Rewrites `latex` for the draft flag: draft on ensures the draft
    /// option and the visible marker; draft off removes both.
    pub fn apply_draft_mode(&self, latex: &str, draft: bool) -> (r: String)
        ensures
            r@ == spec_draft(latex@, draft),
    {
        if draft {
            let ghost c1 = spec_draft_on_class(latex@);
            let s1: String = match find_docclass(latex, false) {
                None => latex.to_owned(),
                Some(dc) => {
                    let opts: String = match dc.opts {
                        Some(o) => o,
                        None => String::new(),
                    };
                    if contains_str(opts.as_str(), "draft") {
                        latex.to_owned()
                    } else {
                        let mut decl = String::new();
                        decl.append("\\documentclass[");
                        if opts.as_str().unicode_len() == 0 {
                            decl.append("draft");
                            proof {
                                assert(decl@ =~= "\\documentclass["@ + "draft"@);
                            }
                        } else {
                            decl.append("draft,");
                            decl.append(opts.as_str());
                            proof {
                                assert(decl@ =~= "\\documentclass["@ + ("draft,"@ + opts@));
                            }
                        }
                        decl.append("]{");
                        decl.append(dc.class.as_str());
                        decl.append("}");
                        let out = splice(latex, dc.start, dc.end, decl.as_str());
                        proof {
                            assert(out@ =~= c1);
                        }
                        out
                    }
                },
            };
            assert(s1@ == c1);
            match find_from(s1.as_str(), "\\begin{document}", 0) {
                None => s1,
                Some(p) => {
                    let m = "\n\\textbf{--- DRAFT MODE ACTIVE ---}\n";
                    if contains_str(s1.as_str(), m) {
                        s1
                    } else {
                        let bd_len = "\\begin{document}".unicode_len();
                        let s1_len = s1.as_str().unicode_len();
                        proof {
                            lemma_find_props(s1@, "\\begin{document}"@, 0);
                            assert(is_match_at(s1@, "\\begin{document}"@, p as int));
                            assert(p + bd_len <= s1_len);
                        }
                        let q = p + bd_len;
                        let out = splice(s1.as_str(), q, q, m);
                        proof {
                            assert(out@ =~= spec_mark(c1));
                        }
                        out
                    }
                },
            }
        } else {
            let ghost c1 = spec_draft_off_class(latex@);
            let s1: String = match find_docclass(latex, true) {
                None => latex.to_owned(),
                Some(dc) => {
                    let opts: String = match dc.opts {
                        Some(o) => o,
                        None => String::new(),
                    };
                    if !contains_str(opts.as_str(), "draft") {
                        latex.to_owned()
                    } else {
                        let parts = split_on(opts.as_str(), ',');
                        let ghost partsv = spec_split_on(opts@, ',');
                        assert(parts@.map_values(|p: String| p@) == partsv);
                        let mut kept: Vec<String> = Vec::new();
                        proof {
                            assert(path_views(kept@) =~= Seq::<Seq<char>>::empty());
                        }
                        let mut j: usize = 0;
                        while j < parts.len()
                            invariant
                                0 <= j <= parts@.len(),
                                parts@.map_values(|p: String| p@) == partsv,
                                path_views(kept@) + spec_off_parts(partsv, j as int)
                                    =~= spec_off_parts(partsv, 0),
                            decreases parts@.len() - j,
                        {
                            assert(partsv[j as int] == parts@[j as int]@);
                            let t = trim_str(parts[j].as_str());
                            if !str_eq(t.as_str(), "draft") {
                                let ghost before = kept@;
                                kept.push(t);
                                proof {
                                    assert(path_views(kept@) =~= path_views(before)
                                        + seq![kept@.last()@]);
                                }
                            }
                            j += 1;
                        }
                        proof {
                            assert(path_views(kept@) =~= spec_off_parts(partsv, 0));
                        }
                        let mut decl = String::new();
                        if kept.len() == 0 {
                            decl.append("\\documentclass{");
                            decl.append(dc.class.as_str());
                            decl.append("}");
                        } else {
                            proof {
                                reveal_strlit(",");
                                assert(","@ =~= seq![',']);
                            }
                            let joined = join_with(&kept, ",");
                            decl.append("\\documentclass[");
                            decl.append(joined.as_str());
                            decl.append("]{");
                            decl.append(dc.class.as_str());
                            decl.append("}");
                        }
                        let out = splice(latex, dc.start, dc.end, decl.as_str());
                        proof {
                            assert(out@ =~= c1);
                        }
                        out
                    }
                },
            };
            assert(s1@ == c1);
            let m = "\n\\textbf{--- DRAFT MODE ACTIVE ---}\n";
            match find_from(s1.as_str(), m, 0) {
                None => s1,
                Some(p) => {
                    let mlen = m.unicode_len();
                    let s1_len = s1.as_str().unicode_len();
                    proof {
                        lemma_find_props(s1@, marker(), 0);
                        assert(is_match_at(s1@, marker(), p as int));
                        assert(p + mlen <= s1_len);
                    }
                    let out = splice(s1.as_str(), p, p + mlen, "");
                    proof {
                        reveal_strlit("");
                        assert(out@ =~= spec_unmark(c1));
                    }
                    out
                },
            }
        }
    }

    /// Stores an engine-produced output under its cache key; the daemon
    /// calls this only for successful builds, so failures are never cached.
    pub fn store_engine_result(&mut self, key: u64, pdf: &Vec<u8>)
        ensures
            final(self).spec_cache() == old(self).spec_cache().insert(key, pdf@),
            final(self).spec_hashes() == old(self).spec_hashes(),
            final(self).spec_backend() == old(self).spec_backend(),
            final(self).spec_active() == old(self).spec_active(),
    {
        cache_map_insert(&mut self.cache, key, pdf.clone());
    }
}

} // verus!
