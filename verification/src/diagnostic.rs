//! The diagnostic micro-parser: turns the external compiler's
//! unstructured error stream into positioned errors grouped by file URI.
//!
//! A line is a diagnostic header exactly when it does not start with a
//! blank character and contains the source-file marker `.java:`.  A
//! header contributes one error: the first `:`-separated field is the
//! file path (reported as a `file://` URL), the second is the row, the
//! last is the message with its leading blanks removed; the line after
//! the header is skipped, and the line after that is the pointer line,
//! whose leading blanks before the first `^` give the column.  Lines of
//! any other shape are skipped; parsing is best effort and never fails.

use vstd::prelude::*;

use crate::compiler::CompileError;
use crate::text::{
    blank_char, chars_contain, chars_to_string, contains_seq, field_number, find_from, is_blank,
    leading_blanks, lemma_find_from_scan, lemma_leading_blanks_scan, lemma_split_on_len,
    parse_field_number, split_chars, split_on, str_to_chars, trim_leading, trim_leading_chars,
};

verus! {

/// One extracted diagnostic, as plain mathematical values: file URI,
/// row as emitted, 0-based column, message.
pub type DiagModel = (Seq<char>, u32, u32, Seq<char>);

/// A line with a trailing carriage return removed.
pub open spec fn strip_cr(l: Seq<char>) -> Seq<char> {
    if l.len() > 0 && l.last() == '\r' {
        l.drop_last()
    } else {
        l
    }
}

/// The lines of an error stream: the text split on line feeds, each
/// line with a trailing carriage return removed.
pub open spec fn to_lines(s: Seq<char>) -> Seq<Seq<char>> {
    split_on(s, '\n').map_values(|l: Seq<char>| strip_cr(l))
}

/// Whether a line is a diagnostic header: it does not start with a
/// blank character and contains the source-file marker.
pub open spec fn spec_header(l: Seq<char>) -> bool {
    !(l.len() > 0 && is_blank(l[0])) && contains_seq(l, ".java:"@)
}

/// The column a pointer line denotes: the count of leading blanks
/// before the first `^`, 0 when there is no `^`, saturated at the
/// largest column.
pub open spec fn spec_caret_col(l: Seq<char>) -> u32 {
    match find_from(l, 0, '^') {
        None => 0u32,
        Some(k) => {
            let c = leading_blanks(l.subrange(0, k));
            if c > u32::MAX {
                u32::MAX
            } else {
                c as u32
            }
        },
    }
}

/// The diagnostic one header line and its pointer line denote.
pub open spec fn spec_diag(header: Seq<char>, pointer: Seq<char>) -> DiagModel {
    let fields = split_on(header, ':');
    let uri = "file://"@ + fields[0];
    let row = if fields.len() >= 2 {
        field_number(fields[1])
    } else {
        0u32
    };
    let msg = trim_leading(fields.last());
    (uri, row, spec_caret_col(pointer), msg)
}

/// Every diagnostic the error stream's lines hold from line `i` on, in
/// order.  A header consumes itself, the following line, and the
/// pointer line after that; a header too close to the end of the
/// stream exhausts it without contributing; any other line is skipped.
pub open spec fn spec_parse_diags(lines: Seq<Seq<char>>, i: int) -> Seq<DiagModel>
    decreases lines.len() - i,
{
    if i < 0 || i >= lines.len() {
        Seq::empty()
    } else if spec_header(lines[i]) {
        if i + 2 < lines.len() {
            seq![spec_diag(lines[i], lines[i + 2])] + spec_parse_diags(lines, i + 3)
        } else {
            Seq::empty()
        }
    } else {
        spec_parse_diags(lines, i + 1)
    }
}

/// The first group carrying the given URI, if any.
pub open spec fn find_group(groups: Seq<(Seq<char>, Seq<(u32, u32, Seq<char>)>)>, uri: Seq<char>) -> Option<
    int,
>
    decreases groups.len(),
{
    if groups.len() == 0 {
        None
    } else if groups[0].0 == uri {
        Some(0)
    } else {
        match find_group(groups.subrange(1, groups.len() as int), uri) {
            None => None,
            Some(k) => Some(k + 1),
        }
    }
}

/// One diagnostic appended to its URI's group, the group being created
/// at the end when the URI is new.
pub open spec fn add_diag(
    groups: Seq<(Seq<char>, Seq<(u32, u32, Seq<char>)>)>,
    d: DiagModel,
) -> Seq<(Seq<char>, Seq<(u32, u32, Seq<char>)>)> {
    match find_group(groups, d.0) {
        None => groups.push((d.0, seq![(d.1, d.2, d.3)])),
        Some(k) => groups.update(k, (groups[k].0, groups[k].1.push((d.1, d.2, d.3)))),
    }
}

/// Diagnostics grouped by URI in order of first appearance, each
/// group's errors in extraction order.
pub open spec fn group_diags(ds: Seq<DiagModel>) -> Seq<(Seq<char>, Seq<(u32, u32, Seq<char>)>)>
    decreases ds.len(),
{
    if ds.len() == 0 {
        Seq::empty()
    } else {
        add_diag(group_diags(ds.drop_last()), ds.last())
    }
}

/// The mathematical value of one produced group.
pub open spec fn group_view(g: (String, Vec<CompileError>)) -> (Seq<char>, Seq<(u32, u32, Seq<char>)>) {
    (g.0@, g.1@.map_values(|e: CompileError| (e.row, e.column, e.error_message@)))
}

/// The mathematical value of the produced grouping.
pub open spec fn groups_view(v: Seq<(String, Vec<CompileError>)>) -> Seq<
    (Seq<char>, Seq<(u32, u32, Seq<char>)>),
> {
    v.map_values(|g: (String, Vec<CompileError>)| group_view(g))
}

/// Tests whether a line is a diagnostic header.
pub fn header_line(l: &Vec<char>) -> (r: bool)
    ensures
        r == spec_header(l@),
{
    if l.len() > 0 && blank_char(l[0]) {
        return false;
    }
    let marker = str_to_chars(".java:");
    chars_contain(l, &marker)
}

/// Computes the column a pointer line denotes.
pub fn caret_column(l: &Vec<char>) -> (r: u32)
    ensures
        r == spec_caret_col(l@),
{
    let n = l.len();
    let mut k: usize = 0;
    while k < n && l[k] != '^'
        invariant
            n == l@.len(),
            k <= n,
            forall|q: int| 0 <= q < k ==> l@[q] != '^',
        decreases n - k,
    {
        k += 1;
    }
    proof {
        lemma_find_from_scan(l@, 0, k as int, '^');
    }
    if k >= n {
        return 0;
    }
    let mut j: usize = 0;
    while j < k && blank_char(l[j])
        invariant
            k < l@.len(),
            j <= k,
            forall|q: int| 0 <= q < j ==> is_blank(#[trigger] l@[q]),
        decreases k - j,
    {
        j += 1;
    }
    proof {
        let prefix = l@.subrange(0, k as int);
        assert(forall|q: int| 0 <= q < j ==> is_blank(#[trigger] prefix[q]));
        assert(j == prefix.len() || !is_blank(prefix[j as int]));
        lemma_leading_blanks_scan(prefix, j as int);
    }
    if j > u32::MAX as usize {
        u32::MAX
    } else {
        j as u32
    }
}

/// Splits an error stream into lines.
fn stream_lines(stderr: &str) -> (r: Vec<Vec<char>>)
    ensures
        r.deep_view() == to_lines(stderr@),
{
    let chars = str_to_chars(stderr);
    let raw = split_chars(&chars, '\n');
    let mut lines: Vec<Vec<char>> = Vec::new();
    let mut i: usize = 0;
    while i < raw.len()
        invariant
            i <= raw@.len(),
            lines.deep_view() =~~= raw.deep_view().subrange(0, i as int).map_values(
                |l: Seq<char>| strip_cr(l),
            ),
        decreases raw@.len() - i,
    {
        let ghost lv0 = lines.deep_view();
        let mut line = raw[i].clone();
        if line.len() > 0 && line[line.len() - 1] == '\r' {
            line.pop();
            assert(line@ =~= strip_cr(raw.deep_view()[i as int]));
        } else {
            assert(line@ =~= strip_cr(raw.deep_view()[i as int]));
        }
        lines.push(line);
        assert(lines.deep_view() =~~= lv0.push(strip_cr(raw.deep_view()[i as int])));
        assert(lines.deep_view() =~~= raw.deep_view().subrange(0, i + 1 as int).map_values(
            |l: Seq<char>| strip_cr(l),
        ));
        i += 1;
    }
    assert(raw.deep_view().subrange(0, raw@.len() as int) =~~= raw.deep_view());
    assert(lines.deep_view() =~~= to_lines(stderr@));
    lines
}

/// Builds the diagnostic one header and pointer line denote.
fn extract_diag(header: &Vec<char>, pointer: &Vec<char>) -> (r: (String, CompileError))
    ensures
        ({
            let d = spec_diag(header@, pointer@);
            r.0@ == d.0 && r.1.row == d.1 && r.1.column == d.2 && r.1.error_message@ == d.3
        }),
{
    let fields = split_chars(header, ':');
    proof {
        lemma_split_on_len(header@, ':');
        assert(fields.deep_view().len() >= 1);
        assert(fields@.len() == fields.deep_view().len());
        assert(fields@[0]@ == split_on(header@, ':')[0]);
        assert(fields@[fields@.len() - 1]@ == split_on(header@, ':').last());
        if fields@.len() >= 2 {
            assert(fields@[1]@ == split_on(header@, ':')[1]);
        }
    }
    let mut uri = "file://".to_owned();
    let path = chars_to_string(&fields[0]);
    uri.append(path.as_str());
    assert(uri@ == "file://"@ + split_on(header@, ':')[0]);
    let row: u32 = if fields.len() >= 2 {
        parse_field_number(&fields[1])
    } else {
        0
    };
    let last = &fields[fields.len() - 1];
    assert(last@ == split_on(header@, ':').last());
    let msg = chars_to_string(&trim_leading_chars(last));
    let column = caret_column(pointer);
    (uri, CompileError { row, column, error_message: msg })
}

/// Finds the group already carrying `uri`, if any.
fn find_group_index(groups: &Vec<(String, Vec<CompileError>)>, uri: &String) -> (r: Option<usize>)
    ensures
        match find_group(groups_view(groups@), uri@) {
            None => r is None,
            Some(k) => r matches Some(j) && j == k && k < groups@.len(),
        },
{
    let mut i: usize = 0;
    while i < groups.len()
        invariant
            i <= groups@.len(),
            forall|k: int| 0 <= k < i ==> (#[trigger] groups_view(groups@)[k]).0 != uri@,
        decreases groups@.len() - i,
    {
        if groups[i].0 == *uri {
            proof {
                lemma_find_group_scan(groups_view(groups@), uri@, i as int);
            }
            return Some(i);
        }
        assert(groups_view(groups@)[i as int].0 != uri@);
        i += 1;
    }
    proof {
        lemma_find_group_none(groups_view(groups@), uri@);
    }
    None
}

proof fn lemma_find_group_scan(
    groups: Seq<(Seq<char>, Seq<(u32, u32, Seq<char>)>)>,
    uri: Seq<char>,
    i: int,
)
    requires
        0 <= i < groups.len(),
        groups[i].0 == uri,
        forall|k: int| 0 <= k < i ==> (#[trigger] groups[k]).0 != uri,
    ensures
        find_group(groups, uri) == Some(i),
    decreases groups.len(),
{
    if i > 0 {
        let rest = groups.subrange(1, groups.len() as int);
        assert(forall|k: int| 0 <= k < i - 1 ==> rest[k] == #[trigger] groups[k + 1]);
        lemma_find_group_scan(rest, uri, i - 1);
    }
}

proof fn lemma_find_group_none(
    groups: Seq<(Seq<char>, Seq<(u32, u32, Seq<char>)>)>,
    uri: Seq<char>,
)
    requires
        forall|k: int| 0 <= k < groups.len() ==> (#[trigger] groups[k]).0 != uri,
    ensures
        find_group(groups, uri) is None,
    decreases groups.len(),
{
    if groups.len() > 0 {
        lemma_find_group_none(groups.subrange(1, groups.len() as int), uri);
    }
}

/// Parses a whole error stream into diagnostics grouped by file URI,
/// exactly as [`spec_parse_diags`] and [`group_diags`] describe.
pub fn parse_compile_errors(stderr: &str) -> (r: Vec<(String, Vec<CompileError>)>)
    ensures
        groups_view(r@) == group_diags(spec_parse_diags(to_lines(stderr@), 0)),
{
    let lines = stream_lines(stderr);
    let ghost ldv = lines.deep_view();
    let nlines = lines.len();
    let mut groups: Vec<(String, Vec<CompileError>)> = Vec::new();
    let mut i: usize = 0;
    let ghost mut flat: Seq<DiagModel> = Seq::empty();
    assert(Seq::<DiagModel>::empty() + spec_parse_diags(ldv, 0) =~= spec_parse_diags(ldv, 0));
    while i < nlines
        invariant
            ldv == lines.deep_view(),
            nlines == ldv.len(),
            i <= nlines,
            spec_parse_diags(ldv, 0) == flat + spec_parse_diags(ldv, i as int),
            groups_view(groups@) == group_diags(flat),
        ensures
            groups_view(groups@) == group_diags(spec_parse_diags(ldv, 0)),
        decreases nlines - i,
    {
        assert(ldv[i as int] == lines@[i as int]@);
        if header_line(&lines[i]) {
            if nlines - i <= 2 {
                proof {
                    assert(spec_parse_diags(ldv, i as int) =~= Seq::<DiagModel>::empty());
                    assert(flat + Seq::<DiagModel>::empty() =~= flat);
                }
                break ;
            }
            assert(ldv[i + 2] == lines@[i + 2]@);
            let (uri, err) = extract_diag(&lines[i], &lines[i + 2]);
            let ghost d = spec_diag(ldv[i as int], ldv[i + 2]);
            let ghost groups0 = groups_view(groups@);
            let ghost flat0 = flat;
            match find_group_index(&groups, &uri) {
                Some(k) => {
                    let mut entry = groups.remove(k);
                    entry.1.push(err);
                    groups.insert(k, entry);
                    proof {
                        assert(groups_view(groups@) =~~= add_diag(groups0, d));
                    }
                },
                None => {
                    let mut es: Vec<CompileError> = Vec::new();
                    es.push(err);
                    groups.push((uri, es));
                    proof {
                        assert(groups_view(groups@) =~~= groups0.push((d.0, seq![(d.1, d.2, d.3)])));
                        assert(groups_view(groups@) =~~= add_diag(groups0, d));
                    }
                },
            }
            proof {
                flat = flat0.push(d);
                assert(flat.drop_last() =~= flat0);
                assert(flat.last() == d);
                assert(group_diags(flat) == add_diag(group_diags(flat0), d));
                assert(groups_view(groups@) =~~= group_diags(flat));
                assert(spec_parse_diags(ldv, i as int) == seq![d] + spec_parse_diags(ldv, i + 3));
                assert(flat0 + (seq![d] + spec_parse_diags(ldv, i + 3)) =~= flat
                    + spec_parse_diags(ldv, i + 3));
            }
            i += 3;
        } else {
            i += 1;
        }
    }
    groups
}

/// The URIs among `open` that `erroring` does not list, in order.
pub open spec fn spec_cleared(open: Seq<Seq<char>>, erroring: Seq<Seq<char>>) -> Seq<Seq<char>>
    decreases open.len(),
{
    if open.len() == 0 {
        Seq::empty()
    } else {
        let rest = spec_cleared(open.subrange(1, open.len() as int), erroring);
        if erroring.contains(open[0]) {
            rest
        } else {
            seq![open[0]] + rest
        }
    }
}

/// The URIs the erroring groups carry, in order.
pub open spec fn group_uris(groups: Seq<(String, Vec<CompileError>)>) -> Seq<Seq<char>> {
    groups.map_values(|g: (String, Vec<CompileError>)| g.0@)
}

/// Pairs every open document the latest compile reports no error for
/// with an empty diagnostic list, in order, so the caller can clear its
/// previously published errors.
pub fn cleared_documents(
    open_uris: &Vec<String>,
    errors: &Vec<(String, Vec<CompileError>)>,
) -> (r: Vec<(String, Vec<CompileError>)>)
    ensures
        r@.map_values(|g: (String, Vec<CompileError>)| g.0@) == spec_cleared(
            open_uris.deep_view(),
            group_uris(errors@),
        ),
        forall|k: int| 0 <= k < r@.len() ==> (#[trigger] r@[k]).1@.len() == 0,
{
    let ghost odv = open_uris.deep_view();
    let ghost keys = group_uris(errors@);
    let mut r: Vec<(String, Vec<CompileError>)> = Vec::new();
    let mut i: usize = 0;
    proof {
        assert(odv.subrange(0, odv.len() as int) =~~= odv);
        assert(r@.map_values(|g: (String, Vec<CompileError>)| g.0@) =~~= Seq::<Seq<char>>::empty());
        assert(Seq::<Seq<char>>::empty() + spec_cleared(odv, keys) =~~= spec_cleared(odv, keys));
    }
    while i < open_uris.len()
        invariant
            odv == open_uris.deep_view(),
            odv.len() == open_uris@.len(),
            keys == group_uris(errors@),
            keys.len() == errors@.len(),
            i <= open_uris@.len(),
            spec_cleared(odv, keys) =~~= r@.map_values(|g: (String, Vec<CompileError>)| g.0@)
                + spec_cleared(odv.subrange(i as int, odv.len() as int), keys),
            forall|k: int| 0 <= k < r@.len() ==> (#[trigger] r@[k]).1@.len() == 0,
        decreases open_uris@.len() - i,
    {
        let ghost remaining = odv.subrange(i as int, odv.len() as int);
        proof {
            assert(remaining[0] == odv[i as int]);
            assert(remaining.subrange(1, remaining.len() as int) =~~= odv.subrange(
                i + 1,
                odv.len() as int,
            ));
            assert(odv[i as int] == open_uris@[i as int]@);
        }
        let mut listed = false;
        let mut j: usize = 0;
        while j < errors.len()
            invariant
                keys == group_uris(errors@),
                keys.len() == errors@.len(),
                i < open_uris@.len(),
                odv == open_uris.deep_view(),
                j <= errors@.len(),
                listed ==> keys.contains(odv[i as int]),
                !listed ==> forall|q: int| 0 <= q < j ==> #[trigger] keys[q] != odv[i as int],
            decreases errors@.len() - j,
        {
            if crate::text::str_equal(errors[j].0.as_str(), open_uris[i].as_str()) {
                assert(keys[j as int] == odv[i as int]);
                listed = true;
                j = errors.len();
            } else {
                assert(keys[j as int] != odv[i as int]);
                j += 1;
            }
        }
        let ghost r0 = r@;
        if listed {
            assert(keys.contains(odv[i as int]));
        } else {
            assert(!keys.contains(odv[i as int])) by {
                assert(forall|q: int| 0 <= q < keys.len() ==> #[trigger] keys[q] != odv[i as int]);
            }
            r.push((open_uris[i].clone(), Vec::new()));
            assert(r@.map_values(|g: (String, Vec<CompileError>)| g.0@) =~~= r0.map_values(
                |g: (String, Vec<CompileError>)| g.0@,
            ).push(odv[i as int]));
        }
        proof {
            let mapped = r@.map_values(|g: (String, Vec<CompileError>)| g.0@);
            let mapped0 = r0.map_values(|g: (String, Vec<CompileError>)| g.0@);
            if listed {
                assert(mapped0 + spec_cleared(remaining, keys) =~~= mapped + spec_cleared(
                    odv.subrange(i + 1, odv.len() as int),
                    keys,
                ));
            } else {
                assert(mapped0 + (seq![odv[i as int]] + spec_cleared(
                    odv.subrange(i + 1, odv.len() as int),
                    keys,
                )) =~~= mapped + spec_cleared(odv.subrange(i + 1, odv.len() as int), keys));
            }
        }
        i += 1;
    }
    proof {
        assert(odv.subrange(odv.len() as int, odv.len() as int) =~~= Seq::<Seq<char>>::empty());
        assert(r@.map_values(|g: (String, Vec<CompileError>)| g.0@) + Seq::<Seq<char>>::empty()
            =~~= r@.map_values(|g: (String, Vec<CompileError>)| g.0@));
    }
    r
}

/// The position a diagnostic is reported at: the emitted 1-based row
/// converted to 0-based (rows already 0 stay 0), and the column as is.
pub fn report_position(e: &CompileError) -> (r: (u32, u32))
    ensures
        r.0 == if e.row > 0 {
            (e.row - 1) as u32
        } else {
            0u32
        },
        r.1 == e.column,
{
    if e.row > 0 {
        (e.row - 1, e.column)
    } else {
        (0, e.column)
    }
}

} // verus!
