//! The directory listing renderer: immediate entries, sorted per the
//! configured order code, rendered as a fixed HTML page or a JSON array.
//!
//! Order codes: 0 name ascending, 1 name descending, 2 size ascending,
//! 3 size descending, 4 modification time ascending, 5 modification time
//! descending; any other code falls back to name ascending.  Listing
//! never recurses; hidden entries are excluded when configured; a parent
//! link is included unless the listed directory is the root itself.

use vstd::prelude::*;
use vstd::string::StrSliceExecFns;
use vstd::string::StringSliceAdditionalSpecFns;
use crate::bytes::spec_dec;
use crate::fs::{Fs, NodeModel};

verus! {

/// One listing row.
pub struct ListEntry {
    pub name: Vec<u8>,
    pub is_dir: bool,
    pub size: u64,
    pub mtime: u64,
}

/// Spec-level model of a row.
pub struct EntryModel {
    pub name: Seq<u8>,
    pub is_dir: bool,
    pub size: u64,
    pub mtime: u64,
}

impl View for ListEntry {
    type V = EntryModel;

    open spec fn view(&self) -> EntryModel {
        EntryModel { name: self.name@, is_dir: self.is_dir, size: self.size, mtime: self.mtime }
    }
}

impl DeepView for ListEntry {
    type V = EntryModel;

    open spec fn deep_view(&self) -> EntryModel {
        self@
    }
}

/// The row an fs entry contributes when it is an immediate child of `dir`.
pub open spec fn spec_child_row(entry: (Seq<Seq<u8>>, NodeModel), dir: Seq<Seq<u8>>) -> Option<
    EntryModel,
> {
    if entry.0.len() == dir.len() + 1 && entry.0.take(dir.len() as int) == dir {
        let name = entry.0.last();
        match entry.1 {
            NodeModel::File { bytes, mtime } => Some(
                EntryModel { name, is_dir: false, size: bytes.len() as u64, mtime },
            ),
            NodeModel::Dir => Some(EntryModel { name, is_dir: true, size: 0, mtime: 0 }),
            NodeModel::Denied => None,
        }
    } else {
        None
    }
}

/// A row is kept unless it is hidden while hidden files are ignored.
pub open spec fn spec_row_kept(row: EntryModel, ignore_hidden: bool) -> bool {
    !(ignore_hidden && row.name.len() > 0 && row.name[0] == 46)
}

/// The rows of the immediate children of `dir`, in fs order, from
/// position `i` on.
pub open spec fn spec_children_from(
    fsv: Seq<(Seq<Seq<u8>>, NodeModel)>,
    dir: Seq<Seq<u8>>,
    ignore_hidden: bool,
    i: int,
) -> Seq<EntryModel>
    decreases fsv.len() - i,
{
    if i < 0 || i >= fsv.len() {
        Seq::empty()
    } else {
        let rest = spec_children_from(fsv, dir, ignore_hidden, i + 1);
        match spec_child_row(fsv[i], dir) {
            Some(row) => if spec_row_kept(row, ignore_hidden) {
                seq![row] + rest
            } else {
                rest
            },
            None => rest,
        }
    }
}

/// All rows of the listing of `dir`.
pub open spec fn spec_children(
    fsv: Seq<(Seq<Seq<u8>>, NodeModel)>,
    dir: Seq<Seq<u8>>,
    ignore_hidden: bool,
) -> Seq<EntryModel> {
    spec_children_from(fsv, dir, ignore_hidden, 0)
}

fn seg_prefix_eq(p: &Vec<Vec<u8>>, d: &Vec<Vec<u8>>) -> (r: bool)
    requires
        p@.len() >= d@.len(),
    ensures
        r == (p.deep_view().take(d.deep_view().len() as int) == d.deep_view()),
{
    let ghost pv = p.deep_view();
    let ghost dv = d.deep_view();
    let mut k: usize = 0;
    while k < d.len()
        invariant
            k <= d.len(),
            pv == p.deep_view(),
            dv == d.deep_view(),
            p@.len() >= d@.len(),
            dv.len() == d@.len(),
            pv.len() == p@.len(),
            forall|j: int| 0 <= j < k ==> pv[j] == dv[j],
        decreases d.len() - k,
    {
        proof {
            assert(pv[k as int] =~= p@[k as int]@);
            assert(dv[k as int] =~= d@[k as int]@);
        }
        if !crate::bytes::bytes_eq(&p[k], &d[k]) {
            assert(pv.take(dv.len() as int)[k as int] != dv[k as int]);
            return false;
        }
        k += 1;
    }
    assert(pv.take(dv.len() as int) =~= dv);
    true
}

/// Collects the immediate children of `dir`.
pub fn children(fs: &Fs, dir: &Vec<Vec<u8>>, ignore_hidden: bool) -> (r: Vec<ListEntry>)
    ensures
        r.deep_view() == spec_children(fs@, dir.deep_view(), ignore_hidden),
{
    let ghost fsv = fs@;
    let ghost dv = dir.deep_view();
    let mut out: Vec<ListEntry> = Vec::new();
    assert(out.deep_view() =~= Seq::<EntryModel>::empty());
    let mut i: usize = 0;
    while i < fs.entries.len()
        invariant
            i <= fs.entries.len(),
            fsv == fs@,
            dv == dir.deep_view(),
            fsv.len() == fs.entries@.len(),
            spec_children(fsv, dv, ignore_hidden) =~= out.deep_view() + spec_children_from(
                fsv,
                dv,
                ignore_hidden,
                i as int,
            ),
        decreases fs.entries.len() - i,
    {
        let e = &fs.entries[i];
        let ghost pre = out.deep_view();
        proof {
            assert(fsv[i as int] == fs.entries@[i as int]@);
            assert(e.path.deep_view().len() == e.path@.len());
            assert(dv.len() == dir@.len());
        }
        if e.path.len() > 0 && e.path.len() - 1 == dir.len() {
            let is_prefix = seg_prefix_eq(&e.path, dir);
            if is_prefix {
                let name = crate::bytes::copy_bytes(&e.path[e.path.len() - 1]);
                proof {
                    assert(e.path.deep_view().last() =~= e.path@.last()@);
                }
                let row_opt: Option<ListEntry> = match &e.node {
                    crate::fs::FsNode::File { bytes, mtime } => Some(
                        ListEntry {
                            name,
                            is_dir: false,
                            size: bytes.len() as u64,
                            mtime: *mtime,
                        },
                    ),
                    crate::fs::FsNode::Dir => Some(
                        ListEntry { name, is_dir: true, size: 0, mtime: 0 },
                    ),
                    crate::fs::FsNode::Denied => None,
                };
                match row_opt {
                    Some(row) => {
                        let keep = !(ignore_hidden && row.name.len() > 0 && row.name[0] == 46);
                        if keep {
                            out.push(row);
                            assert(out.deep_view() =~~= pre + seq![
                                spec_child_row(fsv[i as int], dv).unwrap(),
                            ]);
                        }
                    },
                    None => {},
                }
            }
        }
        i += 1;
    }
    out
}

/// Byte-wise lexicographic order on names.
pub open spec fn spec_lex_le(a: Seq<u8>, b: Seq<u8>) -> bool
    decreases a.len(),
{
    if a.len() == 0 {
        true
    } else if b.len() == 0 {
        false
    } else if a[0] < b[0] {
        true
    } else if a[0] > b[0] {
        false
    } else {
        spec_lex_le(a.drop_first(), b.drop_first())
    }
}

/// Lexicographic order is total.
pub proof fn lemma_lex_total(a: Seq<u8>, b: Seq<u8>)
    ensures
        spec_lex_le(a, b) || spec_lex_le(b, a),
    decreases a.len(),
{
    if a.len() > 0 && b.len() > 0 && a[0] == b[0] {
        lemma_lex_total(a.drop_first(), b.drop_first());
    }
}

/// Compares two names lexicographically.
pub fn lex_le(a: &Vec<u8>, b: &Vec<u8>) -> (r: bool)
    ensures
        r == spec_lex_le(a@, b@),
{
    proof {
        assert(a@.skip(0) =~= a@);
        assert(b@.skip(0) =~= b@);
    }
    let mut i: usize = 0;
    while i < a.len() && i < b.len()
        invariant
            i <= a.len(),
            i <= b.len(),
            spec_lex_le(a@, b@) == spec_lex_le(a@.skip(i as int), b@.skip(i as int)),
        decreases a.len() - i,
    {
        proof {
            assert(a@.skip(i as int)[0] == a@[i as int]);
            assert(b@.skip(i as int)[0] == b@[i as int]);
            assert(a@.skip(i as int).drop_first() =~= a@.skip(i + 1));
            assert(b@.skip(i as int).drop_first() =~= b@.skip(i + 1));
        }
        if a[i] < b[i] {
            return true;
        }
        if a[i] > b[i] {
            return false;
        }
        i += 1;
    }
    assert(a@.skip(i as int).len() == 0 || b@.skip(i as int).len() == 0);
    i == a.len()
}

/// The configured order relation between two rows.
pub open spec fn spec_le(order: u16, a: EntryModel, b: EntryModel) -> bool {
    if order == 1 {
        spec_lex_le(b.name, a.name)
    } else if order == 2 {
        a.size <= b.size
    } else if order == 3 {
        b.size <= a.size
    } else if order == 4 {
        a.mtime <= b.mtime
    } else if order == 5 {
        b.mtime <= a.mtime
    } else {
        spec_lex_le(a.name, b.name)
    }
}

/// Every order code yields a total relation.
pub proof fn lemma_le_total(order: u16, a: EntryModel, b: EntryModel)
    ensures
        spec_le(order, a, b) || spec_le(order, b, a),
{
    lemma_lex_total(a.name, b.name);
    lemma_lex_total(b.name, a.name);
}

/// Compares two rows under `order`.
pub fn le(order: u16, a: &ListEntry, b: &ListEntry) -> (r: bool)
    ensures
        r == spec_le(order, a@, b@),
{
    if order == 1 {
        lex_le(&b.name, &a.name)
    } else if order == 2 {
        a.size <= b.size
    } else if order == 3 {
        b.size <= a.size
    } else if order == 4 {
        a.mtime <= b.mtime
    } else if order == 5 {
        b.mtime <= a.mtime
    } else {
        lex_le(&a.name, &b.name)
    }
}

/// `x` inserted before the first row not below it.
pub open spec fn spec_insert(order: u16, x: EntryModel, s: Seq<EntryModel>) -> Seq<EntryModel>
    decreases s.len(),
{
    if s.len() == 0 {
        seq![x]
    } else if spec_le(order, x, s[0]) {
        seq![x] + s
    } else {
        seq![s[0]] + spec_insert(order, x, s.drop_first())
    }
}

/// Insertion sort of the rows, inserting left to right.
pub open spec fn spec_sort(order: u16, s: Seq<EntryModel>) -> Seq<EntryModel>
    decreases s.len(),
{
    if s.len() == 0 {
        Seq::empty()
    } else {
        spec_insert(order, s.last(), spec_sort(order, s.drop_last()))
    }
}

/// Neighbouring rows of a sorted listing are in order.
pub open spec fn spec_sorted(order: u16, s: Seq<EntryModel>) -> bool {
    forall|i: int| 0 <= i < s.len() - 1 ==> spec_le(order, #[trigger] s[i], s[i + 1])
}

proof fn lemma_insert_sorted(order: u16, x: EntryModel, s: Seq<EntryModel>)
    requires
        spec_sorted(order, s),
    ensures
        spec_sorted(order, spec_insert(order, x, s)),
        spec_insert(order, x, s).len() == s.len() + 1,
    decreases s.len(),
{
    if s.len() == 0 {
    } else if spec_le(order, x, s[0]) {
        let r = seq![x] + s;
        assert(forall|i: int| 0 <= i < s.len() ==> r[i + 1] == s[i]);
        assert(forall|i: int| 1 <= i < r.len() - 1 ==> spec_le(order, #[trigger] r[i], r[i + 1]));
    } else {
        assert(spec_sorted(order, s.drop_first())) by {
            assert(forall|i: int|
                0 <= i < s.drop_first().len() - 1 ==> s.drop_first()[i] == s[i + 1]
                    && #[trigger] s.drop_first()[i + 1] == s[i + 2]);
        }
        lemma_insert_sorted(order, x, s.drop_first());
        lemma_le_total(order, x, s[0]);
        let t = spec_insert(order, x, s.drop_first());
        let r = seq![s[0]] + t;
        assert(spec_le(order, s[0], r[1])) by {
            if s.drop_first().len() == 0 {
                assert(r[1] == x);
            } else if spec_le(order, x, s.drop_first()[0]) {
                assert(r[1] == x);
            } else {
                assert(r[1] == s.drop_first()[0]);
                assert(s.drop_first()[0] == s[1]);
            }
        }
        assert(forall|i: int| 1 <= i < r.len() - 1 ==> spec_le(order, #[trigger] r[i], r[i + 1]))
            by {
            assert(forall|i: int| 0 <= i < t.len() ==> r[i + 1] == t[i]);
        }
    }
}

/// The sorted listing is sorted, whatever the order code: each row is
/// below its successor under the configured relation.
pub proof fn lemma_sort_sorted(order: u16, s: Seq<EntryModel>)
    ensures
        spec_sorted(order, spec_sort(order, s)),
        spec_sort(order, s).len() == s.len(),
    decreases s.len(),
{
    if s.len() > 0 {
        lemma_sort_sorted(order, s.drop_last());
        lemma_insert_sorted(order, s.last(), spec_sort(order, s.drop_last()));
    }
}

fn insert_row(order: u16, out: &mut Vec<ListEntry>, x: ListEntry)
    ensures
        final(out).deep_view() == spec_insert(order, x@, old(out).deep_view()),
{
    let ghost s = out.deep_view();
    let mut j: usize = 0;
    let mut found = false;
    while j < out.len() && !found
        invariant
            j <= out.len(),
            s == out.deep_view(),
            s.len() == out@.len(),
            forall|k: int| 0 <= k < j ==> !spec_le(order, x@, #[trigger] s[k]),
            found ==> j < out.len() && spec_le(order, x@, s[j as int]),
        decreases out.len() - j + (if found { 0int } else { 1int }),
    {
        proof {
            assert(s[j as int] == out@[j as int]@);
        }
        if le(order, &x, &out[j]) {
            found = true;
        } else {
            j += 1;
        }
    }
    let ghost xm = x@;
    out.insert(j, x);
    proof {
        assert(out.deep_view() =~~= s.take(j as int) + seq![xm] + s.skip(j as int));
        lemma_insert_at(order, xm, s, j as int);
    }
}

proof fn lemma_insert_at(order: u16, x: EntryModel, s: Seq<EntryModel>, j: int)
    requires
        0 <= j <= s.len(),
        forall|k: int| 0 <= k < j ==> !spec_le(order, x, #[trigger] s[k]),
        j < s.len() ==> spec_le(order, x, s[j]),
    ensures
        spec_insert(order, x, s) == s.take(j) + seq![x] + s.skip(j),
    decreases j,
{
    if s.len() == 0 {
        assert(spec_insert(order, x, s) =~= s.take(j) + seq![x] + s.skip(j));
    } else if j == 0 {
        assert(spec_le(order, x, s[0]));
        assert(spec_insert(order, x, s) =~= s.take(0) + seq![x] + s.skip(0));
    } else {
        assert(!spec_le(order, x, s[0]));
        lemma_insert_at(order, x, s.drop_first(), j - 1);
        assert(s.drop_first().take(j - 1) =~= s.take(j).drop_first());
        assert(s.drop_first().skip(j - 1) =~= s.skip(j));
        assert(seq![s[0]] + (s.drop_first().take(j - 1) + seq![x] + s.drop_first().skip(j - 1))
            =~= s.take(j) + seq![x] + s.skip(j));
    }
}

/// Sorts the rows under `order`.
pub fn sort_rows(order: u16, rows: Vec<ListEntry>) -> (r: Vec<ListEntry>)
    ensures
        r.deep_view() == spec_sort(order, rows.deep_view()),
{
    let ghost rv = rows.deep_view();
    let mut out: Vec<ListEntry> = Vec::new();
    assert(out.deep_view() =~= Seq::<EntryModel>::empty());
    assert(rv.take(0) =~= Seq::<EntryModel>::empty());
    let mut rest = rows;
    let mut i: usize = 0;
    while i < rest.len()
        invariant
            i <= rest.len(),
            rv == rest.deep_view(),
            rv.len() == rest@.len(),
            out.deep_view() == spec_sort(order, rv.take(i as int)),
        decreases rest.len() - i,
    {
        let x = ListEntry {
            name: crate::bytes::copy_bytes(&rest[i].name),
            is_dir: rest[i].is_dir,
            size: rest[i].size,
            mtime: rest[i].mtime,
        };
        assert(x@ == rv[i as int]);
        insert_row(order, &mut out, x);
        proof {
            assert(rv.take(i + 1).drop_last() =~= rv.take(i as int));
            assert(rv.take(i + 1).last() == rv[i as int]);
        }
        i += 1;
    }
    assert(rv.take(rv.len() as int) =~= rv);
    out
}

/// The JSON object for one row.
pub open spec fn spec_json_row(e: EntryModel) -> Seq<u8> {
    "{\"name\":\"".spec_bytes() + e.name + "\",\"type\":\"".spec_bytes() + (if e.is_dir {
        "directory".spec_bytes()
    } else {
        "file".spec_bytes()
    }) + "\",\"size\":".spec_bytes() + spec_dec(e.size as nat) + ",\"mtime\":".spec_bytes()
        + spec_dec(e.mtime as nat) + "}".spec_bytes()
}

/// The rows from position `i` on, each preceded by a comma.
pub open spec fn spec_json_rows_from(rows: Seq<EntryModel>, i: int) -> Seq<u8>
    decreases rows.len() - i,
{
    if i < 0 || i >= rows.len() {
        Seq::empty()
    } else {
        seq![44u8] + spec_json_row(rows[i]) + spec_json_rows_from(rows, i + 1)
    }
}

/// The JSON rendering of a listing: a plain array of row objects.
pub open spec fn spec_render_json(rows: Seq<EntryModel>) -> Seq<u8> {
    if rows.len() == 0 {
        "[]".spec_bytes()
    } else {
        "[".spec_bytes() + spec_json_row(rows[0]) + spec_json_rows_from(rows, 1)
            + "]".spec_bytes()
    }
}

fn push_row_json(out: &mut Vec<u8>, e: &ListEntry)
    ensures
        final(out)@ == old(out)@ + spec_json_row(e@),
{
    crate::bytes::push_bytes(out, &"{\"name\":\"".as_bytes_vec());
    crate::bytes::push_bytes(out, &e.name);
    crate::bytes::push_bytes(out, &"\",\"type\":\"".as_bytes_vec());
    if e.is_dir {
        crate::bytes::push_bytes(out, &"directory".as_bytes_vec());
    } else {
        crate::bytes::push_bytes(out, &"file".as_bytes_vec());
    }
    crate::bytes::push_bytes(out, &"\",\"size\":".as_bytes_vec());
    let size = crate::bytes::u64_to_dec(e.size);
    crate::bytes::push_bytes(out, &size);
    crate::bytes::push_bytes(out, &",\"mtime\":".as_bytes_vec());
    let mtime = crate::bytes::u64_to_dec(e.mtime);
    crate::bytes::push_bytes(out, &mtime);
    crate::bytes::push_bytes(out, &"}".as_bytes_vec());
    assert(out@ =~= old(out)@ + spec_json_row(e@));
}

/// Renders the rows as JSON.
pub fn render_json(rows: &Vec<ListEntry>) -> (r: Vec<u8>)
    ensures
        r@ == spec_render_json(rows.deep_view()),
{
    let ghost rv = rows.deep_view();
    let mut out: Vec<u8> = Vec::new();
    if rows.len() == 0 {
        crate::bytes::push_bytes(&mut out, &"[]".as_bytes_vec());
        assert(out@ =~= spec_render_json(rv));
        return out;
    }
    crate::bytes::push_bytes(&mut out, &"[".as_bytes_vec());
    proof {
        assert(rv[0] == rows@[0]@);
    }
    push_row_json(&mut out, &rows[0]);
    let mut i: usize = 1;
    while i < rows.len()
        invariant
            1 <= i <= rows.len(),
            rv == rows.deep_view(),
            rv.len() == rows@.len(),
            spec_render_json(rv) == out@ + spec_json_rows_from(rv, i as int) + "]".spec_bytes(),
        decreases rows.len() - i,
    {
        crate::bytes::push_bytes(&mut out, &",".as_bytes_vec());
        proof {
            reveal_strlit(",");
            vstd::string::is_ascii_spec_bytes(",");
            assert(",".spec_bytes() =~= seq![44u8]);
            assert(rv[i as int] == rows@[i as int]@);
        }
        push_row_json(&mut out, &rows[i]);
        assert(out@ + spec_json_rows_from(rv, i + 1) + "]".spec_bytes() =~= spec_render_json(rv));
        i += 1;
    }
    crate::bytes::push_bytes(&mut out, &"]".as_bytes_vec());
    assert(out@ =~= spec_render_json(rv));
    out
}

/// The HTML item for one row: a link, directories with a trailing slash.
pub open spec fn spec_html_row(e: EntryModel) -> Seq<u8> {
    let shown = e.name + (if e.is_dir {
        "/".spec_bytes()
    } else {
        Seq::<u8>::empty()
    });
    "<li><a href=\"".spec_bytes() + shown + "\">".spec_bytes() + shown + "</a></li>".spec_bytes()
}

/// The HTML items from position `i` on.
pub open spec fn spec_html_rows_from(rows: Seq<EntryModel>, i: int) -> Seq<u8>
    decreases rows.len() - i,
{
    if i < 0 || i >= rows.len() {
        Seq::empty()
    } else {
        spec_html_row(rows[i]) + spec_html_rows_from(rows, i + 1)
    }
}

/// The fixed-structure HTML page for a listing.
pub open spec fn spec_render_html(rows: Seq<EntryModel>) -> Seq<u8> {
    "<html><head><title>Index</title></head><body><h1>Index</h1><ul>".spec_bytes()
        + spec_html_rows_from(rows, 0) + "</ul></body></html>".spec_bytes()
}

fn push_row_html(out: &mut Vec<u8>, e: &ListEntry)
    ensures
        final(out)@ == old(out)@ + spec_html_row(e@),
{
    let mut shown = crate::bytes::copy_bytes(&e.name);
    if e.is_dir {
        crate::bytes::push_bytes(&mut shown, &"/".as_bytes_vec());
    }
    proof {
        if !e.is_dir {
            assert(shown@ =~= e.name@ + Seq::<u8>::empty());
        }
    }
    crate::bytes::push_bytes(out, &"<li><a href=\"".as_bytes_vec());
    crate::bytes::push_bytes(out, &shown);
    crate::bytes::push_bytes(out, &"\">".as_bytes_vec());
    crate::bytes::push_bytes(out, &shown);
    crate::bytes::push_bytes(out, &"</a></li>".as_bytes_vec());
    assert(out@ =~= old(out)@ + spec_html_row(e@));
}

/// Renders the rows as the fixed HTML page.
pub fn render_html(rows: &Vec<ListEntry>) -> (r: Vec<u8>)
    ensures
        r@ == spec_render_html(rows.deep_view()),
{
    let ghost rv = rows.deep_view();
    let mut out: Vec<u8> = Vec::new();
    crate::bytes::push_bytes(
        &mut out,
        &"<html><head><title>Index</title></head><body><h1>Index</h1><ul>".as_bytes_vec(),
    );
    let ghost head = out@;
    let mut i: usize = 0;
    while i < rows.len()
        invariant
            i <= rows.len(),
            rv == rows.deep_view(),
            rv.len() == rows@.len(),
            head + spec_html_rows_from(rv, 0) == out@ + spec_html_rows_from(rv, i as int),
        decreases rows.len() - i,
    {
        proof {
            assert(rv[i as int] == rows@[i as int]@);
        }
        push_row_html(&mut out, &rows[i]);
        assert(out@ + spec_html_rows_from(rv, i + 1) =~= head + spec_html_rows_from(rv, 0));
        i += 1;
    }
    crate::bytes::push_bytes(&mut out, &"</ul></body></html>".as_bytes_vec());
    assert(out@ =~= spec_render_html(rv));
    out
}

} // verus!
