//! The library's model of a concrete syntax tree, and the traversals the
//! symbol resolver needs.
//!
//! An incremental parser produces the real tree; a pre-order dump of it
//! (one record per node, with its depth) is handed in as plain values,
//! and a verified builder links the records into a well-formed tree whose
//! child and sibling links always point forward.  The traversals — the
//! import scan and the smallest-node-at-point descent — are verified
//! against recursive specifications of their visit order.

use vstd::prelude::*;

use crate::text::{chars_end_with, ends_with, str_equal, str_to_chars};

verus! {

/// One node of the model: its grammar category, its text, its span as
/// start and end positions (row, column), and links to its first child
/// and next sibling.
pub struct SyntaxNode {
    pub kind: String,
    pub text: String,
    pub start_row: usize,
    pub start_col: usize,
    pub end_row: usize,
    pub end_col: usize,
    pub first_child: Option<usize>,
    pub next_sibling: Option<usize>,
}

/// A syntax tree: its nodes in pre-order, the root first.
pub struct SyntaxTree {
    pub nodes: Vec<SyntaxNode>,
}

/// The links of node `i` point forward and stay in bounds.
pub open spec fn wf_links(nodes: Seq<SyntaxNode>, i: int) -> bool {
    &&& (nodes[i].first_child matches Some(c) ==> i < c < nodes.len())
    &&& (nodes[i].next_sibling matches Some(s) ==> i < s < nodes.len())
}

impl SyntaxTree {
    /// Well-formedness: at least the root, and every link forward.
    pub open spec fn wf(&self) -> bool {
        &&& self.nodes@.len() >= 1
        &&& forall|i: int| 0 <= i < self.nodes@.len() ==> #[trigger] wf_links(self.nodes@, i)
    }
}

/// One record of a pre-order dump: the node's category, text and span,
/// and its depth below the root.
pub struct RawNode {
    pub kind: String,
    pub text: String,
    pub start_row: usize,
    pub start_col: usize,
    pub end_row: usize,
    pub end_col: usize,
    pub depth: usize,
}

/// Whether a dump is a plausible pre-order walk of one rooted tree: it
/// starts with the root at depth 0, and each later record descends at
/// most one level below its predecessor and never back to the root.
pub open spec fn depths_ok(raw: Seq<RawNode>) -> bool {
    &&& raw.len() >= 1
    &&& raw[0].depth == 0
    &&& forall|i: int|
        1 <= i < raw.len() ==> 1 <= (#[trigger] raw[i]).depth <= raw[i - 1].depth + 1
}

/// Whether a stored optional index denotes the given mathematical one.
pub open spec fn opt_index_is(a: Option<usize>, b: Option<int>) -> bool {
    match a {
        None => b is None,
        Some(x) => b matches Some(y) && x as int == y,
    }
}

/// The first child a pre-order dump implies for node `i`: the next
/// record exactly one level deeper.
pub open spec fn spec_first_child(raw: Seq<RawNode>, i: int) -> Option<int> {
    if i + 1 < raw.len() && raw[i + 1].depth == raw[i].depth + 1 {
        Some(i + 1)
    } else {
        None
    }
}

/// The next record at depth `d` before any record above it, scanning
/// from `j`.
pub open spec fn sib_scan(raw: Seq<RawNode>, d: int, j: int) -> Option<int>
    decreases raw.len() - j,
{
    if j < 0 || j >= raw.len() {
        None
    } else if raw[j].depth == d {
        Some(j)
    } else if raw[j].depth < d {
        None
    } else {
        sib_scan(raw, d, j + 1)
    }
}

/// The next sibling a pre-order dump implies for node `i`.
pub open spec fn spec_next_sibling(raw: Seq<RawNode>, i: int) -> Option<int> {
    sib_scan(raw, raw[i].depth as int, i + 1)
}

proof fn lemma_sib_scan_bounds(raw: Seq<RawNode>, d: int, j: int)
    requires
        0 <= j,
    ensures
        sib_scan(raw, d, j) matches Some(k) ==> j <= k < raw.len(),
    decreases raw.len() - j,
{
    if j < raw.len() && raw[j].depth != d && raw[j].depth > d {
        lemma_sib_scan_bounds(raw, d, j + 1);
    }
}

/// After a scan that saw only deeper records strictly before `j`, the
/// sibling scan from `start` resolves at `j`.
proof fn lemma_sib_scan_exact(raw: Seq<RawNode>, d: int, start: int, j: int)
    requires
        0 <= start <= j <= raw.len(),
        forall|k: int| start <= k < j ==> (#[trigger] raw[k]).depth > d,
    ensures
        j < raw.len() && raw[j].depth == d ==> sib_scan(raw, d, start) == Some(j),
        j < raw.len() && raw[j].depth < d ==> sib_scan(raw, d, start) is None,
        j == raw.len() ==> sib_scan(raw, d, start) is None,
    decreases j - start,
{
    if start < j {
        lemma_sib_scan_exact(raw, d, start + 1, j);
    }
}

/// Node `nd` carries what record `i` of the dump holds, with the links
/// the dump's depths imply.
pub open spec fn node_from_raw(raw: Seq<RawNode>, i: int, nd: SyntaxNode) -> bool {
    &&& nd.kind@ == raw[i].kind@
    &&& nd.text@ == raw[i].text@
    &&& nd.start_row == raw[i].start_row
    &&& nd.start_col == raw[i].start_col
    &&& nd.end_row == raw[i].end_row
    &&& nd.end_col == raw[i].end_col
    &&& opt_index_is(nd.first_child, spec_first_child(raw, i))
    &&& opt_index_is(nd.next_sibling, spec_next_sibling(raw, i))
}

/// The tree is exactly what the dump builds: one node per record, each
/// carrying its record's fields and the links the depths imply.
pub open spec fn model_of_dump(raw: Seq<RawNode>, t: SyntaxTree) -> bool {
    &&& t.nodes@.len() == raw.len()
    &&& forall|i: int| 0 <= i < raw.len() ==> node_from_raw(raw, i, #[trigger] t.nodes@[i])
}

/// Links a pre-order dump into a tree.  Succeeds exactly on dumps whose
/// depths form one rooted pre-order walk; the produced tree is
/// well-formed, copies every record's category, text and span, and links
/// each node to the first child and next sibling its depths imply.
#[verifier::rlimit(30)]
pub fn build_tree(raw: &Vec<RawNode>) -> (r: Option<SyntaxTree>)
    ensures
        r is Some <==> depths_ok(raw@),
        r matches Some(t) ==> t.wf() && model_of_dump(raw@, t),
{
    let n = raw.len();
    if n == 0 {
        return None;
    }
    if raw[0].depth != 0 {
        return None;
    }
    let mut i: usize = 1;
    while i < n
        invariant
            n == raw@.len(),
            1 <= i <= n,
            forall|k: int|
                1 <= k < i ==> 1 <= (#[trigger] raw@[k]).depth <= raw@[k - 1].depth + 1,
        decreases n - i,
    {
        if raw[i].depth < 1 || raw[i].depth - 1 > raw[i - 1].depth {
            assert(!depths_ok(raw@));
            return None;
        }
        i += 1;
    }
    assert(depths_ok(raw@));
    let mut nodes: Vec<SyntaxNode> = Vec::new();
    let mut i: usize = 0;
    while i < n
        invariant
            n == raw@.len(),
            depths_ok(raw@),
            i <= n,
            nodes@.len() == i,
            forall|k: int| 0 <= k < i ==> node_from_raw(raw@, k, #[trigger] nodes@[k]),
        decreases n - i,
    {
        let first_child: Option<usize> = if i + 1 < n && raw[i + 1].depth >= 1 && raw[i + 1].depth
            - 1 == raw[i].depth {
            Some(i + 1)
        } else {
            None
        };
        assert(opt_index_is(first_child, spec_first_child(raw@, i as int)));
        let d = raw[i].depth;
        let mut j: usize = i + 1;
        while j < n && raw[j].depth > d
            invariant
                n == raw@.len(),
                i + 1 <= j <= n,
                d == raw@[i as int].depth,
                forall|k: int| i + 1 <= k < j ==> (#[trigger] raw@[k]).depth > d,
            decreases n - j,
        {
            j += 1;
        }
        proof {
            lemma_sib_scan_exact(raw@, d as int, i + 1, j as int);
        }
        let next_sibling: Option<usize> = if j < n && raw[j].depth == d {
            Some(j)
        } else {
            None
        };
        assert(opt_index_is(next_sibling, spec_next_sibling(raw@, i as int)));
        nodes.push(
            SyntaxNode {
                kind: raw[i].kind.clone(),
                text: raw[i].text.clone(),
                start_row: raw[i].start_row,
                start_col: raw[i].start_col,
                end_row: raw[i].end_row,
                end_col: raw[i].end_col,
                first_child,
                next_sibling,
            },
        );
        i += 1;
    }
    let t = SyntaxTree { nodes };
    proof {
        assert forall|k: int| 0 <= k < t.nodes@.len() implies #[trigger] wf_links(
            t.nodes@,
            k,
        ) by {
            lemma_sib_scan_bounds(raw@, raw@[k].depth as int, k + 1);
            assert(node_from_raw(raw@, k, t.nodes@[k]));
        }
    }
    Some(t)
}

/// The node the walk visits after `i`: the next sibling when there is
/// one, else the first child.
pub open spec fn step(t: SyntaxTree, i: int) -> Option<int> {
    match t.nodes[i].next_sibling {
        Some(s) => Some(s as int),
        None => match t.nodes[i].first_child {
            Some(c) => Some(c as int),
            None => None,
        },
    }
}

/// The second child of node `i`, if it has one: for an import
/// declaration this is the imported name.
pub open spec fn child1(t: SyntaxTree, i: int) -> Option<int> {
    match t.nodes[i].first_child {
        None => None,
        Some(c) => match t.nodes[c as int].next_sibling {
            None => None,
            Some(s) => Some(s as int),
        },
    }
}

/// Whether node `i` is an import declaration carrying a name node.
pub open spec fn is_import_node(t: SyntaxTree, i: int) -> bool {
    t.nodes[i].kind@ == "import_declaration"@ && child1(t, i) is Some
}

/// The name nodes of every import declaration the walk from node `i`
/// reaches, in visit order.  The walk visits a node, then its next
/// sibling, falling back to its first child when no sibling remains.
pub open spec fn imports_from(t: SyntaxTree, i: int) -> Seq<int>
    decreases t.nodes.len() - i,
        when t.wf() && 0 <= i < t.nodes.len()
        via imports_from_dec
{
    let here = if is_import_node(t, i) {
        seq![child1(t, i).unwrap()]
    } else {
        Seq::<int>::empty()
    };
    match step(t, i) {
        None => here,
        Some(j) => here + imports_from(t, j),
    }
}

#[via_fn]
proof fn imports_from_dec(t: SyntaxTree, i: int) {
    assert(wf_links(t.nodes@, i));
}

/// Collects the import name nodes of the whole tree, exactly as
/// [`imports_from`] describes starting at the root.
pub fn collect_imports(t: &SyntaxTree) -> (r: Vec<usize>)
    requires
        t.wf(),
    ensures
        r@.map_values(|x: usize| x as int) == imports_from(*t, 0),
        forall|k: int| 0 <= k < r@.len() ==> (#[trigger] r@[k]) < t.nodes@.len(),
{
    let marker: String = "import_declaration".to_owned();
    let n = t.nodes.len();
    let mut r: Vec<usize> = Vec::new();
    let mut cur: usize = 0;
    assert(r@.map_values(|x: usize| x as int) + imports_from(*t, 0) =~= imports_from(*t, 0));
    loop
        invariant
            t.wf(),
            n == t.nodes@.len(),
            cur < n,
            marker@ == "import_declaration"@,
            imports_from(*t, 0) =~= r@.map_values(|x: usize| x as int) + imports_from(
                *t,
                cur as int,
            ),
            forall|k: int| 0 <= k < r@.len() ==> (#[trigger] r@[k]) < t.nodes@.len(),
        ensures
            r@.map_values(|x: usize| x as int) == imports_from(*t, 0),
            forall|k: int| 0 <= k < r@.len() ==> (#[trigger] r@[k]) < t.nodes@.len(),
        decreases n - cur,
    {
        proof {
            assert(wf_links(t.nodes@, cur as int));
        }
        let ghost r0 = r@;
        let node = &t.nodes[cur];
        if str_equal(node.kind.as_str(), marker.as_str()) {
            match node.first_child {
                Some(c) => {
                    proof {
                        assert(wf_links(t.nodes@, c as int));
                    }
                    match t.nodes[c].next_sibling {
                        Some(s) => {
                            r.push(s);
                            assert(r@.map_values(|x: usize| x as int) =~= r0.map_values(
                                |x: usize| x as int,
                            ).push(s as int));
                        },
                        None => {},
                    }
                },
                None => {},
            }
        }
        proof {
            let here: Seq<int> = if is_import_node(*t, cur as int) {
                seq![child1(*t, cur as int).unwrap()]
            } else {
                Seq::<int>::empty()
            };
            assert(r@.map_values(|x: usize| x as int) =~= r0.map_values(|x: usize| x as int)
                + here);
        }
        match node.next_sibling {
            Some(s) => {
                proof {
                    assert(imports_from(*t, 0) =~= r@.map_values(|x: usize| x as int)
                        + imports_from(*t, s as int));
                }
                cur = s;
            },
            None => match node.first_child {
                Some(c) => {
                    proof {
                        assert(imports_from(*t, 0) =~= r@.map_values(|x: usize| x as int)
                            + imports_from(*t, c as int));
                    }
                    cur = c;
                },
                None => {
                    proof {
                        assert(imports_from(*t, cur as int) =~= (
                        if is_import_node(*t, cur as int) {
                            seq![child1(*t, cur as int).unwrap()]
                        } else {
                            Seq::<int>::empty()
                        }));
                        assert(imports_from(*t, 0) =~= r@.map_values(|x: usize| x as int));
                    }
                    break ;
                },
            },
        }
    }
    r
}

/// Whether the span of `n` contains the point `(row, col)`: at or after
/// the start and strictly before the end, positions ordered by row then
/// column.
pub open spec fn contains_point(n: SyntaxNode, row: int, col: int) -> bool {
    &&& (n.start_row < row || (n.start_row == row && n.start_col <= col))
    &&& (row < n.end_row || (row == n.end_row && col < n.end_col))
}

/// The first node of the sibling chain starting at `c` whose span
/// contains the point.
pub open spec fn scan_children(t: SyntaxTree, c: Option<int>, row: int, col: int) -> Option<int>
    decreases (match c {
        Some(j) => t.nodes.len() - j,
        None => 0,
    }),
        when t.wf() && (c matches Some(j) ==> 0 <= j < t.nodes.len())
        via scan_children_dec
{
    match c {
        None => None,
        Some(j) => if contains_point(t.nodes[j], row, col) {
            Some(j)
        } else {
            scan_children(
                t,
                match t.nodes[j].next_sibling {
                    Some(s) => Some(s as int),
                    None => None,
                },
                row,
                col,
            )
        },
    }
}

#[via_fn]
proof fn scan_children_dec(t: SyntaxTree, c: Option<int>, row: int, col: int) {
    match c {
        Some(j) => {
            assert(wf_links(t.nodes@, j));
        },
        None => {},
    }
}

proof fn lemma_scan_children_bounds(t: SyntaxTree, c: Option<int>, row: int, col: int)
    requires
        t.wf(),
        c matches Some(j) ==> 0 <= j < t.nodes@.len(),
    ensures
        scan_children(t, c, row, col) matches Some(k) ==> (c matches Some(j) && j <= k
            < t.nodes@.len()),
    decreases (match c {
        Some(j) => t.nodes@.len() - j,
        None => 0,
    }),
{
    match c {
        Some(j) => {
            assert(wf_links(t.nodes@, j));
            if !contains_point(t.nodes@[j], row, col) {
                match t.nodes@[j].next_sibling {
                    Some(s) => {
                        lemma_scan_children_bounds(t, Some(s as int), row, col);
                    },
                    None => {
                        lemma_scan_children_bounds(t, None, row, col);
                    },
                }
            }
        },
        None => {},
    }
}

/// The smallest node containing the point: from `i`, repeatedly descend
/// to the first child whose span contains the point, until none does.
pub open spec fn descend(t: SyntaxTree, i: int, row: int, col: int) -> int
    decreases t.nodes.len() - i,
        when t.wf() && 0 <= i < t.nodes.len()
        via descend_dec
{
    let c = match t.nodes[i].first_child {
        Some(fc) => Some(fc as int),
        None => None,
    };
    match scan_children(t, c, row, col) {
        None => i,
        Some(k) => descend(t, k, row, col),
    }
}

#[via_fn]
proof fn descend_dec(t: SyntaxTree, i: int, row: int, col: int) {
    assert(wf_links(t.nodes@, i));
    let c = match t.nodes@[i].first_child {
        Some(fc) => Some(fc as int),
        None => None,
    };
    lemma_scan_children_bounds(t, c, row, col);
}

/// Finds the smallest node containing the point, descending from the
/// root exactly as [`descend`] describes.
pub fn find_node_by_point(t: &SyntaxTree, row: usize, col: usize) -> (r: usize)
    requires
        t.wf(),
    ensures
        r as int == descend(*t, 0, row as int, col as int),
        r < t.nodes@.len(),
{
    let n = t.nodes.len();
    let mut cur: usize = 0;
    loop
        invariant
            t.wf(),
            n == t.nodes@.len(),
            cur < n,
            descend(*t, 0, row as int, col as int) == descend(*t, cur as int, row as int, col as int),
        ensures
            cur as int == descend(*t, 0, row as int, col as int),
            cur < n,
        decreases n - cur,
    {
        proof {
            assert(wf_links(t.nodes@, cur as int));
        }
        // scan the children of cur for the first containing the point
        let mut child: Option<usize> = t.nodes[cur].first_child;
        let ghost c0: Option<int> = match child {
            Some(j) => Some(j as int),
            None => None,
        };
        let mut found: Option<usize> = None;
        loop
            invariant_except_break
                found is None,
            invariant
                t.wf(),
                n == t.nodes@.len(),
                cur < n,
                (child matches Some(j) ==> cur < j < n),
                scan_children(*t, c0, row as int, col as int) == scan_children(
                    *t,
                    match child {
                        Some(j) => Some(j as int),
                        None => None,
                    },
                    row as int,
                    col as int,
                ),
            ensures
                n == t.nodes@.len(),
                match found {
                    Some(k) => scan_children(*t, c0, row as int, col as int) == Some(k as int) && cur
                        < k < n,
                    None => scan_children(*t, c0, row as int, col as int) is None,
                },
            decreases (match child {
                Some(j) => n - j,
                None => 0,
            }),
        {
            match child {
                Some(j) => {
                    proof {
                        assert(wf_links(t.nodes@, j as int));
                    }
                    let nd = &t.nodes[j];
                    let after_start = nd.start_row < row || (nd.start_row == row && nd.start_col
                        <= col);
                    let before_end = row < nd.end_row || (row == nd.end_row && col < nd.end_col);
                    if after_start && before_end {
                        found = Some(j);
                        break ;
                    }
                    child = nd.next_sibling;
                },
                None => {
                    break ;
                },
            }
        }
        match found {
            Some(k) => {
                cur = k;
            },
            None => {
                break ;
            },
        }
    }
    cur
}

/// The text of the first import in the list whose text ends with a dot
/// followed by `name`, if any.
pub open spec fn first_match(t: SyntaxTree, imps: Seq<int>, name: Seq<char>) -> Option<Seq<char>>
    decreases imps.len(),
{
    if imps.len() == 0 {
        None
    } else if ends_with(t.nodes[imps[0]].text@, seq!['.'] + name) {
        Some(t.nodes[imps[0]].text@)
    } else {
        first_match(t, imps.subrange(1, imps.len() as int), name)
    }
}

/// What the symbol query returns for a point: when the smallest node
/// containing it is a type identifier, the full text of the first
/// import whose text ends with `.` followed by that node's text; none
/// for any other node kind or when no import matches.
pub open spec fn spec_symbol_at(t: SyntaxTree, row: int, col: int) -> Option<Seq<char>> {
    let n = descend(t, 0, row, col);
    if t.nodes[n].kind@ == "type_identifier"@ {
        first_match(t, imports_from(t, 0), t.nodes[n].text@)
    } else {
        None
    }
}

/// Resolves the symbol under a point against the tree's imports,
/// exactly as [`spec_symbol_at`] describes.
pub fn symbol_at(t: &SyntaxTree, row: usize, col: usize) -> (r: Option<String>)
    requires
        t.wf(),
    ensures
        match spec_symbol_at(*t, row as int, col as int) {
            Some(s) => r matches Some(v) && v@ == s,
            None => r is None,
        },
{
    let node = find_node_by_point(t, row, col);
    if !str_equal(t.nodes[node].kind.as_str(), "type_identifier") {
        return None;
    }
    let name = str_to_chars(t.nodes[node].text.as_str());
    let mut suffix: Vec<char> = Vec::new();
    suffix.push('.');
    let mut i: usize = 0;
    while i < name.len()
        invariant
            i <= name@.len(),
            suffix@ =~= seq!['.'] + name@.subrange(0, i as int),
        decreases name@.len() - i,
    {
        suffix.push(name[i]);
        assert(suffix@ =~= seq!['.'] + name@.subrange(0, i + 1 as int));
        i += 1;
    }
    assert(name@.subrange(0, name@.len() as int) =~= name@);
    assert(suffix@ =~= seq!['.'] + name@);
    let imps = collect_imports(t);
    let ghost all = imps@.map_values(|x: usize| x as int);
    let mut k: usize = 0;
    assert(all.subrange(0, all.len() as int) =~= all);
    while k < imps.len()
        invariant
            t.wf(),
            all == imps@.map_values(|x: usize| x as int),
            all == imports_from(*t, 0),
            forall|q: int| 0 <= q < imps@.len() ==> (#[trigger] imps@[q]) < t.nodes@.len(),
            k <= imps@.len(),
            0 <= descend(*t, 0, row as int, col as int) < t.nodes@.len(),
            suffix@ == seq!['.'] + t.nodes@[descend(*t, 0, row as int, col as int)].text@,
            t.nodes@[descend(*t, 0, row as int, col as int)].kind@ == "type_identifier"@,
            first_match(*t, all, t.nodes@[descend(*t, 0, row as int, col as int)].text@)
                == first_match(
                *t,
                all.subrange(k as int, all.len() as int),
                t.nodes@[descend(*t, 0, row as int, col as int)].text@,
            ),
        decreases imps@.len() - k,
    {
        let ghost restk = all.subrange(k as int, all.len() as int);
        assert(restk[0] == imps@[k as int] as int);
        assert(restk.subrange(1, restk.len() as int) =~= all.subrange(k + 1, all.len() as int));
        let idx = imps[k];
        let text = str_to_chars(t.nodes[idx].text.as_str());
        if chars_end_with(&text, &suffix) {
            return Some(t.nodes[idx].text.clone());
        }
        k += 1;
    }
    assert(all.subrange(all.len() as int, all.len() as int) =~= Seq::<int>::empty());
    None
}

proof fn lemma_first_match_chars(t: SyntaxTree, imps: Seq<int>, name: Seq<char>)
    ensures
        match first_match(t, imps, name) {
            Some(s) => exists|k: int|
                #![trigger imps[k]]
                0 <= k < imps.len() && s == t.nodes[imps[k]].text@ && ends_with(
                    s,
                    seq!['.'] + name,
                ) && (forall|j: int|
                    0 <= j < k ==> !ends_with(t.nodes[#[trigger] imps[j]].text@, seq!['.'] + name)),
            None => forall|k: int|
                0 <= k < imps.len() ==> !ends_with(
                    t.nodes[#[trigger] imps[k]].text@,
                    seq!['.'] + name,
                ),
        },
    decreases imps.len(),
{
    if imps.len() > 0 && !ends_with(t.nodes[imps[0]].text@, seq!['.'] + name) {
        let rest = imps.subrange(1, imps.len() as int);
        lemma_first_match_chars(t, rest, name);
        match first_match(t, rest, name) {
            Some(s) => {
                let k = choose|k: int|
                    #![trigger rest[k]]
                    0 <= k < rest.len() && s == t.nodes[rest[k]].text@ && ends_with(
                        s,
                        seq!['.'] + name,
                    ) && (forall|j: int|
                        0 <= j < k ==> !ends_with(
                            t.nodes[#[trigger] rest[j]].text@,
                            seq!['.'] + name,
                        ));
                assert(imps[k + 1] == rest[k]);
                assert forall|j: int|
                    0 <= j < k + 1 implies !ends_with(
                    t.nodes[#[trigger] imps[j]].text@,
                    seq!['.'] + name,
                ) by {
                    if j >= 1 {
                        assert(rest[j - 1] == imps[j]);
                        assert(!ends_with(t.nodes[rest[j - 1]].text@, seq!['.'] + name));
                    }
                }
                assert(0 <= k + 1 < imps.len() && s == t.nodes[imps[k + 1]].text@);
            },
            None => {
                assert forall|k: int|
                    0 <= k < imps.len() implies !ends_with(
                    t.nodes[#[trigger] imps[k]].text@,
                    seq!['.'] + name,
                ) by {
                    if k >= 1 {
                        assert(rest[k - 1] == imps[k]);
                        assert(!ends_with(t.nodes[rest[k - 1]].text@, seq!['.'] + name));
                    }
                }
            },
        }
    } else if imps.len() > 0 {
        assert(first_match(t, imps, name) == Some(t.nodes[imps[0]].text@));
        let s = t.nodes[imps[0]].text@;
        assert(0 <= 0 < imps.len() && s == t.nodes[imps[0]].text@ && ends_with(
            s,
            seq!['.'] + name,
        ) && (forall|j: int|
            0 <= j < 0 ==> !ends_with(t.nodes[#[trigger] imps[j]].text@, seq!['.'] + name)));
    }
}

/// The symbol-resolution law.  At the smallest node containing the
/// cursor: when it is a type identifier, the query answers with the text
/// of the first import ending in `.` plus the node's text, and answers
/// nothing exactly when no import's text ends that way; at a node of any
/// other kind (a plain identifier among them) it answers nothing.
pub proof fn lemma_symbol_resolution(t: SyntaxTree, row: int, col: int)
    requires
        t.wf(),
    ensures
        ({
            let n = descend(t, 0, row, col);
            let imps = imports_from(t, 0);
            let suffix = seq!['.'] + t.nodes[n].text@;
            &&& (t.nodes[n].kind@ != "type_identifier"@ ==> spec_symbol_at(t, row, col) is None)
            &&& (t.nodes[n].kind@ == "type_identifier"@ ==> match spec_symbol_at(t, row, col) {
                Some(s) => exists|k: int|
                    #![trigger imps[k]]
                    0 <= k < imps.len() && s == t.nodes[imps[k]].text@ && ends_with(s, suffix) && (
                    forall|j: int|
                        0 <= j < k ==> !ends_with(t.nodes[#[trigger] imps[j]].text@, suffix)),
                None => forall|k: int|
                    0 <= k < imps.len() ==> !ends_with(t.nodes[#[trigger] imps[k]].text@, suffix),
            })
        }),
{
    let n = descend(t, 0, row, col);
    if t.nodes[n].kind@ == "type_identifier"@ {
        lemma_first_match_chars(t, imports_from(t, 0), t.nodes[n].text@);
    }
}

} // verus!
