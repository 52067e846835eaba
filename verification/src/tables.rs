//! Tables of a document: tables written with `|` in plain text, tables that
//! a page break split in two, and their Markdown form.
use vstd::prelude::*;
use crate::document::{BlockType, RawBlock, RawDocument, RawPage, RawTable};
use crate::numbers::{dec, fmt_int_exec};
use crate::text::{
    chars_of, eq_str, extend_chars, extend_str, join, join_chars, replace_char, split_chars, split_on,
    string_of, trim, trim_chars, views,
};

verus! {

/// A table as values: id and rows of optional cell texts.
pub type TableView = (Seq<char>, Seq<Seq<Option<Seq<char>>>>);

pub open spec fn cell_view(c: Option<String>) -> Option<Seq<char>> {
    match c {
        Some(s) => Some(s@),
        None => None,
    }
}

pub open spec fn row_view(r: Vec<Option<String>>) -> Seq<Option<Seq<char>>> {
    r@.map_values(|c: Option<String>| cell_view(c))
}

pub open spec fn rows_view(rows: Seq<Vec<Option<String>>>) -> Seq<Seq<Option<Seq<char>>>> {
    rows.map_values(|r: Vec<Option<String>>| row_view(r))
}

pub open spec fn table_view(t: RawTable) -> TableView {
    (t.id@, rows_view(t.rows@))
}

pub open spec fn table_views(ts: Seq<RawTable>) -> Seq<TableView> {
    ts.map_values(|t: RawTable| table_view(t))
}

// ─── Markdown ───────────────────────────────────────────────────

/// The widest row.
pub open spec fn max_width(rows: Seq<Seq<Option<Seq<char>>>>) -> nat
    decreases rows.len(),
{
    if rows.len() == 0 {
        0
    } else {
        let m = max_width(rows.drop_last());
        if rows.last().len() > m { rows.last().len() } else { m }
    }
}

/// A cell's text: line breaks as spaces, trimmed; empty when absent.
pub open spec fn cell_text(row: Seq<Option<Seq<char>>>, c: int) -> Seq<char> {
    if 0 <= c < row.len() && row[c] is Some {
        trim(replace_char(row[c].unwrap(), '\n', ' '))
    } else {
        Seq::<char>::empty()
    }
}

pub open spec fn row_line(row: Seq<Option<Seq<char>>>, w: nat) -> Seq<char> {
    "| "@ + join(Seq::new(w, |c: int| cell_text(row, c)), " | "@) + " |"@
}

pub open spec fn sep_line(w: nat) -> Seq<char> {
    "| "@ + join(Seq::new(w, |_c: int| "---"@), " | "@) + " |"@
}

/// The lines of the Markdown table: the header row, a separator, the rows.
pub open spec fn table_lines(rows: Seq<Seq<Option<Seq<char>>>>, w: nat) -> Seq<Seq<char>> {
    seq![row_line(rows[0], w), sep_line(w)] + rows.subrange(1, rows.len() as int).map_values(|r: Seq<Option<Seq<char>>>| row_line(r, w))
}

/// A table as Markdown, every row padded to the widest; none for a table
/// without rows or columns.
pub open spec fn markdown(rows: Seq<Seq<Option<Seq<char>>>>) -> Option<Seq<char>> {
    if rows.len() == 0 || max_width(rows) == 0 {
        None
    } else {
        Some(join(table_lines(rows, max_width(rows)), "\n"@))
    }
}

fn cell_text_exec(row: &Vec<Option<String>>, c: usize) -> (r: Vec<char>)
    ensures
        r@ == cell_text(row_view(*row), c as int),
{
    if c < row.len() {
        match &row[c] {
            Some(s) => {
                let sc = chars_of(s.as_str());
                let mut rep: Vec<char> = Vec::new();
                let mut i: usize = 0;
                while i < sc.len()
                    invariant
                        i <= sc@.len(),
                        rep@ =~= replace_char(sc@, '\n', ' ').subrange(0, i as int),
                    decreases sc@.len() - i,
                {
                    if sc[i] == '\n' {
                        rep.push(' ');
                    } else {
                        rep.push(sc[i]);
                    }
                    i = i + 1;
                }
                assert(rep@ =~= replace_char(sc@, '\n', ' '));
                trim_chars(rep.as_slice())
            },
            None => Vec::new(),
        }
    } else {
        Vec::new()
    }
}

fn bar_line(cells: &Vec<Vec<char>>) -> (r: Vec<char>)
    ensures
        r@ == "| "@ + join(views(cells@), " | "@) + " |"@,
{
    let mut v: Vec<char> = Vec::new();
    extend_str(&mut v, "| ");
    let sep = chars_of(" | ");
    let inner = join_chars(cells, sep.as_slice());
    extend_chars(&mut v, inner.as_slice());
    extend_str(&mut v, " |");
    v
}

fn row_line_exec(row: &Vec<Option<String>>, w: usize) -> (r: Vec<char>)
    ensures
        r@ == row_line(row_view(*row), w as nat),
{
    let mut cells: Vec<Vec<char>> = Vec::new();
    let mut c: usize = 0;
    while c < w
        invariant
            c <= w,
            views(cells@) =~= Seq::new(c as nat, |k: int| cell_text(row_view(*row), k)),
        decreases w - c,
    {
        let x = cell_text_exec(row, c);
        let ghost before = views(cells@);
        cells.push(x);
        assert(views(cells@) =~= before.push(x@));
        c = c + 1;
    }
    bar_line(&cells)
}

fn sep_line_exec(w: usize) -> (r: Vec<char>)
    ensures
        r@ == sep_line(w as nat),
{
    let mut cells: Vec<Vec<char>> = Vec::new();
    let mut c: usize = 0;
    while c < w
        invariant
            c <= w,
            views(cells@) =~= Seq::new(c as nat, |_k: int| "---"@),
        decreases w - c,
    {
        let x = chars_of("---");
        let ghost before = views(cells@);
        cells.push(x);
        assert(views(cells@) =~= before.push(x@));
        c = c + 1;
    }
    bar_line(&cells)
}

/// Formats a table as Markdown.
pub fn format_table_as_markdown(table: &RawTable) -> (r: Option<String>)
    ensures
        match r {
            Some(s) => markdown(rows_view(table.rows@)) == Some(s@),
            None => markdown(rows_view(table.rows@)) is None,
        },
{
    let ghost rv = rows_view(table.rows@);
    let n = table.rows.len();
    if n == 0 {
        return None;
    }
    let mut w: usize = 0;
    let mut i: usize = 0;
    while i < n
        invariant
            i <= n,
            n == table.rows@.len(),
            rv == rows_view(table.rows@),
            w == max_width(rv.subrange(0, i as int)),
        decreases n - i,
    {
        proof {
            let nxt = rv.subrange(0, i as int + 1);
            assert(nxt.drop_last() =~= rv.subrange(0, i as int));
            assert(nxt.last() == row_view(table.rows@[i as int]));
        }
        if table.rows[i].len() > w {
            w = table.rows[i].len();
        }
        i = i + 1;
    }
    assert(rv.subrange(0, n as int) =~= rv);
    if w == 0 {
        return None;
    }
    let mut lines_v: Vec<Vec<char>> = Vec::new();
    lines_v.push(row_line_exec(&table.rows[0], w));
    lines_v.push(sep_line_exec(w));
    let mut k: usize = 1;
    while k < n
        invariant
            1 <= k <= n,
            n == table.rows@.len(),
            rv == rows_view(table.rows@),
            views(lines_v@) =~= seq![row_line(rv[0], w as nat), sep_line(w as nat)]
                + rv.subrange(1, k as int).map_values(|r: Seq<Option<Seq<char>>>| row_line(r, w as nat)),
        decreases n - k,
    {
        let l = row_line_exec(&table.rows[k], w);
        let ghost before = views(lines_v@);
        lines_v.push(l);
        proof {
            assert(views(lines_v@) =~= before.push(l@));
            assert(rv[k as int] == row_view(table.rows@[k as int]));
            assert(rv.subrange(1, k as int + 1).map_values(|r: Seq<Option<Seq<char>>>| row_line(r, w as nat))
                =~= rv.subrange(1, k as int).map_values(|r: Seq<Option<Seq<char>>>| row_line(r, w as nat)).push(row_line(rv[k as int], w as nat)));
        }
        k = k + 1;
    }
    let nl = chars_of("\n");
    let joined = join_chars(&lines_v, nl.as_slice());
    Some(string_of(joined.as_slice()))
}

// ─── tables written with `|` ────────────────────────────────────

/// How many `|`-separated cells a text has.
pub open spec fn pipe_cols(text: Seq<char>) -> nat {
    split_on(text, '|').len()
}

/// The end of the run of paragraph blocks from `j` on with `cols` cells each.
pub open spec fn same_run_end(bs: Seq<RawBlock>, cols: nat, j: int) -> int
    decreases bs.len() - j,
{
    if j < 0 || j >= bs.len() || bs[j].block_type != BlockType::Paragraph || pipe_cols(bs[j].text@) != cols {
        j
    } else {
        same_run_end(bs, cols, j + 1)
    }
}

pub proof fn lemma_same_run_end(bs: Seq<RawBlock>, cols: nat, j: int)
    requires
        0 <= j <= bs.len(),
    ensures
        j <= same_run_end(bs, cols, j) <= bs.len(),
    decreases bs.len() - j,
{
    if j < bs.len() && bs[j].block_type == BlockType::Paragraph && pipe_cols(bs[j].text@) == cols {
        lemma_same_run_end(bs, cols, j + 1);
    }
}

/// The runs `[start, end)` of two or more consecutive paragraph blocks with
/// the same number (at least two) of `|`-separated cells, from block `i` on.
pub open spec fn pipe_runs(bs: Seq<RawBlock>, i: int) -> Seq<(int, int)>
    decreases bs.len() - i,
{
    if i < 0 || i >= bs.len() {
        Seq::<(int, int)>::empty()
    } else if bs[i].block_type != BlockType::Paragraph || pipe_cols(bs[i].text@) < 2 {
        pipe_runs(bs, i + 1)
    } else {
        let j = same_run_end(bs, pipe_cols(bs[i].text@), i);
        proof {
            lemma_same_run_end(bs, pipe_cols(bs[i].text@), i + 1);
        }
        if j - i < 2 {
            pipe_runs(bs, j)
        } else {
            seq![(i, j)] + pipe_runs(bs, j)
        }
    }
}

/// The cells of one `|` row: trimmed, empty ones absent.
pub open spec fn cells_of(text: Seq<char>) -> Seq<Option<Seq<char>>> {
    split_on(text, '|').map_values(|c: Seq<char>| if trim(c).len() == 0 { None } else { Some(trim(c)) })
}

pub open spec fn table_id(page: usize, k: int) -> Seq<char> {
    "t_"@ + dec(page as nat) + "_"@ + dec(k as nat)
}

/// The tables found on a page, numbered after the tables it already has.
pub open spec fn detected(p: RawPage) -> Seq<TableView> {
    Seq::new(pipe_runs(p.blocks@, 0).len(), |k: int| pipe_table(p.blocks@, p.page_index, p.tables@.len() as int, k))
}

/// Tables found on the first `n` pages.
pub open spec fn detected_count(pages: Seq<RawPage>, n: int) -> nat
    decreases n,
{
    if n <= 0 {
        0
    } else {
        detected_count(pages, n - 1) + pipe_runs(pages[n - 1].blocks@, 0).len()
    }
}

fn pipe_cols_exec(text: &str) -> (r: usize)
    ensures
        r == pipe_cols(text@),
{
    let tc = chars_of(text);
    let parts = split_chars(tc.as_slice(), '|');
    assert(views(parts@).len() == parts@.len());
    parts.len()
}

fn cells_exec(text: &str) -> (r: Vec<Option<String>>)
    ensures
        row_view(r) == cells_of(text@),
{
    let tc = chars_of(text);
    let parts = split_chars(tc.as_slice(), '|');
    let ghost pv = views(parts@);
    let mut out: Vec<Option<String>> = Vec::new();
    let mut i: usize = 0;
    while i < parts.len()
        invariant
            i <= parts@.len(),
            pv == views(parts@),
            pv == split_on(text@, '|'),
            row_view(out) =~= pv.subrange(0, i as int).map_values(|c: Seq<char>| if trim(c).len() == 0 { None } else { Some(trim(c)) }),
        decreases parts@.len() - i,
    {
        let t = trim_chars(parts[i].as_slice());
        let cell = if t.len() == 0 { None } else { Some(string_of(t.as_slice())) };
        let ghost before = row_view(out);
        out.push(cell);
        proof {
            assert(pv[i as int] == parts@[i as int]@);
            assert(row_view(out) =~= before.push(cell_view(cell)));
        }
        i = i + 1;
    }
    assert(pv.subrange(0, pv.len() as int) =~= pv);
    out
}

fn id_exec(page: usize, k: usize) -> (r: String)
    ensures
        r@ == table_id(page, k as int),
{
    let mut v: Vec<char> = Vec::new();
    extend_str(&mut v, "t_");
    let p = fmt_int_exec(page as i128, 0);
    extend_chars(&mut v, p.as_slice());
    extend_str(&mut v, "_");
    let q = fmt_int_exec(k as i128, 0);
    extend_chars(&mut v, q.as_slice());
    string_of(v.as_slice())
}

/// The `k`-th table found among the blocks, numbered from `first`.
pub open spec fn pipe_table(bs: Seq<RawBlock>, page: usize, first: int, k: int) -> TableView {
    let run = pipe_runs(bs, 0)[k];
    (table_id(page, first + k), bs.subrange(run.0, run.1).map_values(|b: RawBlock| cells_of(b.text@)))
}

/// The tables found among a page's blocks, numbered from `first`.
fn page_pipe_tables(bs: &Vec<RawBlock>, page: usize, first: usize) -> (r: Vec<RawTable>)
    requires
        first + bs@.len() <= usize::MAX,
    ensures
        table_views(r@) == Seq::new(pipe_runs(bs@, 0).len(), |k: int| pipe_table(bs@, page, first as int, k)),
{
    let ghost all = pipe_runs(bs@, 0);
    let n = bs.len();
    let mut out: Vec<RawTable> = Vec::new();
    let mut i: usize = 0;
    while i < n
        invariant
            i <= n,
            n == bs@.len(),
            all == pipe_runs(bs@, 0),
            first + n <= usize::MAX,
            out@.len() <= i,
            all == Seq::new(out@.len() as nat, |k: int| all[k]) + pipe_runs(bs@, i as int),
            table_views(out@) =~= Seq::new(out@.len() as nat, |k: int| pipe_table(bs@, page, first as int, k)),
        decreases n - i,
    {
        let b = &bs[i];
        if b.block_type != BlockType::Paragraph {
            i = i + 1;
            continue;
        }
        let cols = pipe_cols_exec(b.text.as_str());
        if cols < 2 {
            i = i + 1;
            continue;
        }
        let mut j: usize = i;
        while j < n && bs[j].block_type == BlockType::Paragraph && pipe_cols_exec(bs[j].text.as_str()) == cols
            invariant
                i <= j <= n,
                n == bs@.len(),
                same_run_end(bs@, cols as nat, i as int) == same_run_end(bs@, cols as nat, j as int),
            decreases n - j,
        {
            j = j + 1;
        }
        assert(j > i);
        if j - i < 2 {
            proof {
                assert(pipe_runs(bs@, i as int) == pipe_runs(bs@, j as int));
            }
            i = j;
            continue;
        }
        let mut rows: Vec<Vec<Option<String>>> = Vec::new();
        let mut k: usize = i;
        while k < j
            invariant
                i <= k <= j <= n,
                n == bs@.len(),
                rows_view(rows@) =~= bs@.subrange(i as int, k as int).map_values(|b: RawBlock| cells_of(b.text@)),
            decreases j - k,
        {
            let row = cells_exec(bs[k].text.as_str());
            let ghost before = rows_view(rows@);
            rows.push(row);
            assert(rows_view(rows@) =~= before.push(row_view(row)));
            k = k + 1;
        }
        let id = id_exec(page, first + out.len());
        let t = RawTable { id, rows };
        let ghost before = table_views(out@);
        let ghost m = out@.len();
        proof {
            assert(pipe_runs(bs@, i as int) == seq![(i as int, j as int)] + pipe_runs(bs@, j as int));
            assert(all[m as int] == (i as int, j as int));
            assert(Seq::new((m + 1) as nat, |k: int| all[k]) + pipe_runs(bs@, j as int) =~= all);
        }
        out.push(t);
        proof {
            assert(table_views(out@) =~= before.push(table_view(t)));
            assert(t.id@ == table_id(page, first + m));
            assert(rows_view(t.rows@) == bs@.subrange(i as int, j as int).map_values(|b: RawBlock| cells_of(b.text@)));
            assert(table_view(t) == pipe_table(bs@, page, first as int, m as int));
        }
        i = j;
    }
    out
}

/// Finds tables written with `|` separators in consecutive paragraph blocks
/// and adds them to their pages; returns how many were found.
pub fn detect_pipe_tables(raw_doc: &mut RawDocument) -> (r: usize)
    requires
        forall|q: int| 0 <= q < old(raw_doc).pages@.len() ==>
            #[trigger] old(raw_doc).pages@[q].tables@.len() + old(raw_doc).pages@[q].blocks@.len() <= usize::MAX,
        detected_count(old(raw_doc).pages@, old(raw_doc).pages@.len() as int) <= usize::MAX,
    ensures
        final(raw_doc).document_id == old(raw_doc).document_id,
        final(raw_doc).source_path == old(raw_doc).source_path,
        final(raw_doc).pages@.len() == old(raw_doc).pages@.len(),
        forall|q: int| 0 <= q < final(raw_doc).pages@.len() ==> {
            let o = #[trigger] old(raw_doc).pages@[q];
            let f = final(raw_doc).pages@[q];
            &&& f.page_index == o.page_index
            &&& f.blocks == o.blocks
            &&& table_views(f.tables@) == table_views(o.tables@) + detected(o)
        },
        r == detected_count(old(raw_doc).pages@, old(raw_doc).pages@.len() as int),
{
    let ghost old_pages = raw_doc.pages@;
    let n = raw_doc.pages.len();
    let mut total: usize = 0;
    let mut p: usize = 0;
    while p < n
        invariant
            p <= n,
            n == raw_doc.pages@.len(),
            old_pages.len() == n,
            raw_doc.document_id == old(raw_doc).document_id,
            raw_doc.source_path == old(raw_doc).source_path,
            old_pages == old(raw_doc).pages@,
            forall|q: int| 0 <= q < n ==> #[trigger] old_pages[q].tables@.len() + old_pages[q].blocks@.len() <= usize::MAX,
            detected_count(old_pages, n as int) <= usize::MAX,
            total == detected_count(old_pages, p as int),
            forall|q: int| p <= q < n ==> #[trigger] raw_doc.pages@[q] == old_pages[q],
            forall|q: int| 0 <= q < p ==> {
                let o = #[trigger] old_pages[q];
                let f = raw_doc.pages@[q];
                &&& f.page_index == o.page_index
                &&& f.blocks == o.blocks
                &&& table_views(f.tables@) == table_views(o.tables@) + detected(o)
            },
        decreases n - p,
    {
        let mut found = page_pipe_tables(&raw_doc.pages[p].blocks, raw_doc.pages[p].page_index, raw_doc.pages[p].tables.len());
        let count = found.len();
        proof {
            lemma_detected_count_mono(old_pages, p as int + 1, n as int);
            assert(raw_doc.pages@[p as int] == old_pages[p as int]);
            assert(table_views(found@).len() == found@.len());
            assert(count == pipe_runs(old_pages[p as int].blocks@, 0).len());
        }
        let ghost before = raw_doc.pages@[p as int].tables@;
        let ghost fv = found@;
        raw_doc.pages[p].tables.append(&mut found);
        proof {
            let f = raw_doc.pages@[p as int];
            assert(f.tables@ == before + fv);
            assert(table_views(f.tables@) =~= table_views(before) + table_views(fv));
            assert(table_views(fv) =~= detected(old_pages[p as int]));
        }
        total = total + count;
        p = p + 1;
    }
    total
}

pub proof fn lemma_detected_count_mono(pages: Seq<RawPage>, a: int, b: int)
    requires
        0 <= a <= b,
    ensures
        detected_count(pages, a) <= detected_count(pages, b),
    decreases b - a,
{
    if a < b {
        lemma_detected_count_mono(pages, a, b - 1);
    }
}

// ─── tables split by a page break ───────────────────────────────

pub open spec fn first_width(t: TableView) -> nat {
    if t.1.len() > 0 { t.1[0].len() } else { 0 }
}

pub open spec fn first_cell(t: TableView) -> Seq<char> {
    if t.1.len() > 0 && t.1[0].len() > 0 && t.1[0][0] is Some { t.1[0][0].unwrap() } else { Seq::<char>::empty() }
}

/// Table `b` continues table `a`: same number of columns in the first row,
/// and `b` does not repeat `a`'s first cell (a repeated header).
pub open spec fn continues(a: TableView, b: TableView) -> bool {
    &&& first_width(a) != 0
    &&& first_width(a) == first_width(b)
    &&& !(first_cell(a) == first_cell(b) && first_cell(a).len() > 0)
}

pub open spec fn page_tables(pages: Seq<RawPage>) -> Seq<Seq<TableView>> {
    pages.map_values(|p: RawPage| table_views(p.tables@))
}

/// The last table of page `n` and the first of page `n + 1` are one table.
pub open spec fn can_join(ts: Seq<Seq<TableView>>, n: int) -> bool {
    ts[n].len() > 0 && ts[n + 1].len() > 0 && continues(ts[n].last(), ts[n + 1][0])
}

/// The rows of the first table of page `n + 1` appended to the last table of
/// page `n`, and that first table removed.
pub open spec fn joined_at(ts: Seq<Seq<TableView>>, n: int) -> Seq<Seq<TableView>> {
    let a = ts[n].last();
    let b = ts[n + 1][0];
    ts.update(n, ts[n].update(ts[n].len() - 1, (a.0, a.1 + b.1))).update(n + 1, ts[n + 1].drop_first())
}

/// The tables after the joins at page pairs `0..k`, and where joins happened.
pub open spec fn merge_upto(ts: Seq<Seq<TableView>>, k: int) -> (Seq<Seq<TableView>>, Seq<usize>)
    decreases k,
{
    if k <= 0 {
        (ts, Seq::<usize>::empty())
    } else {
        let prev = merge_upto(ts, k - 1);
        if can_join(prev.0, k - 1) {
            (joined_at(prev.0, k - 1), prev.1.push((k - 1) as usize))
        } else {
            prev
        }
    }
}

pub open spec fn merged_tables(pages: Seq<RawPage>) -> (Seq<Seq<TableView>>, Seq<usize>) {
    if pages.len() < 2 {
        (page_tables(pages), Seq::<usize>::empty())
    } else {
        merge_upto(page_tables(pages), pages.len() - 1)
    }
}

pub(crate) proof fn lemma_merge_len(ts: Seq<Seq<TableView>>, k: int)
    requires
        0 <= k < ts.len(),
    ensures
        merge_upto(ts, k).0.len() == ts.len(),
        merge_upto(ts, k).1.len() <= k,
    decreases k,
{
    if k > 0 {
        lemma_merge_len(ts, k - 1);
    }
}

fn first_cell_is(t: &RawTable, u: &RawTable) -> (r: bool)
    ensures
        r == (first_cell(table_view(*t)) == first_cell(table_view(*u)) && first_cell(table_view(*t)).len() > 0),
{
    let a: Vec<char> = if t.rows.len() > 0 && t.rows[0].len() > 0 {
        match &t.rows[0][0] {
            Some(s) => chars_of(s.as_str()),
            None => Vec::new(),
        }
    } else {
        Vec::new()
    };
    let b: String = if u.rows.len() > 0 && u.rows[0].len() > 0 {
        match &u.rows[0][0] {
            Some(s) => s.clone(),
            None => String::new(),
        }
    } else {
        String::new()
    };
    proof {
        if t.rows@.len() > 0 && t.rows@[0]@.len() > 0 {
            assert(table_view(*t).1[0] == row_view(t.rows@[0]));
            assert(row_view(t.rows@[0])[0] == cell_view(t.rows@[0]@[0]));
        }
        if u.rows@.len() > 0 && u.rows@[0]@.len() > 0 {
            assert(table_view(*u).1[0] == row_view(u.rows@[0]));
            assert(row_view(u.rows@[0])[0] == cell_view(u.rows@[0]@[0]));
        }
    }
    a.len() > 0 && eq_str(a.as_slice(), b.as_str())
}

/// Joins tables that a page break split: the last table of a page and the
/// first of the next, when the second continues the first. Returns the
/// pages (by position) whose last table received rows.
pub fn merge_cross_page_tables(raw_doc: &mut RawDocument) -> (r: Vec<usize>)
    ensures
        final(raw_doc).document_id == old(raw_doc).document_id,
        final(raw_doc).source_path == old(raw_doc).source_path,
        final(raw_doc).pages@.len() == old(raw_doc).pages@.len(),
        forall|q: int| 0 <= q < final(raw_doc).pages@.len() ==> {
            &&& (#[trigger] final(raw_doc).pages@[q]).page_index == old(raw_doc).pages@[q].page_index
            &&& final(raw_doc).pages@[q].blocks == old(raw_doc).pages@[q].blocks
        },
        page_tables(final(raw_doc).pages@) == merged_tables(old(raw_doc).pages@).0,
        r@ == merged_tables(old(raw_doc).pages@).1,
{
    let ghost ts0 = page_tables(raw_doc.pages@);
    let count = raw_doc.pages.len();
    let mut merged: Vec<usize> = Vec::new();
    if count < 2 {
        return merged;
    }
    let mut n: usize = 0;
    while n < count - 1
        invariant
            count >= 2,
            n <= count - 1,
            count == raw_doc.pages@.len(),
            count == old(raw_doc).pages@.len(),
            ts0.len() == count,
            raw_doc.document_id == old(raw_doc).document_id,
            raw_doc.source_path == old(raw_doc).source_path,
            ts0 == page_tables(old(raw_doc).pages@),
            forall|q: int| 0 <= q < count ==> {
                &&& (#[trigger] raw_doc.pages@[q]).page_index == old(raw_doc).pages@[q].page_index
                &&& raw_doc.pages@[q].blocks == old(raw_doc).pages@[q].blocks
            },
            page_tables(raw_doc.pages@) == merge_upto(ts0, n as int).0,
            merged@ == merge_upto(ts0, n as int).1,
            merged@.len() <= n,
        decreases count - 1 - n,
    {
        let ghost ts = page_tables(raw_doc.pages@);
        proof {
            lemma_merge_len(ts0, n as int);
            assert(ts[n as int] == table_views(raw_doc.pages@[n as int].tables@));
            assert(ts[n as int + 1] == table_views(raw_doc.pages@[n as int + 1].tables@));
        }
        if raw_doc.pages[n].tables.len() == 0 || raw_doc.pages[n + 1].tables.len() == 0 {
            n = n + 1;
            continue;
        }
        let last = raw_doc.pages[n].tables.len() - 1;
        let cols_n = if raw_doc.pages[n].tables[last].rows.len() > 0 { raw_doc.pages[n].tables[last].rows[0].len() } else { 0 };
        let cols_n1 = if raw_doc.pages[n + 1].tables[0].rows.len() > 0 { raw_doc.pages[n + 1].tables[0].rows[0].len() } else { 0 };
        proof {
            let a = raw_doc.pages@[n as int].tables@[last as int];
            let b = raw_doc.pages@[n as int + 1].tables@[0];
            assert(ts[n as int].last() == table_view(a));
            assert(ts[n as int + 1][0] == table_view(b));
            if a.rows@.len() > 0 {
                assert(table_view(a).1[0] == row_view(a.rows@[0]));
            }
            if b.rows@.len() > 0 {
                assert(table_view(b).1[0] == row_view(b.rows@[0]));
            }
        }
        if cols_n == 0 || cols_n != cols_n1 {
            n = n + 1;
            continue;
        }
        if first_cell_is(&raw_doc.pages[n].tables[last], &raw_doc.pages[n + 1].tables[0]) {
            n = n + 1;
            continue;
        }
        let ghost a0 = raw_doc.pages@[n as int].tables@[last as int];
        let ghost b0 = raw_doc.pages@[n as int + 1].tables@[0];
        let mut moved: Vec<Vec<Option<String>>> = Vec::new();
        std::mem::swap(&mut moved, &mut raw_doc.pages[n + 1].tables[0].rows);
        raw_doc.pages[n].tables[last].rows.append(&mut moved);
        raw_doc.pages[n + 1].tables.remove(0);
        merged.push(n);
        proof {
            let ts2 = page_tables(raw_doc.pages@);
            let want = joined_at(ts, n as int);
            assert(raw_doc.pages@[n as int].tables@[last as int].rows@ == a0.rows@ + b0.rows@);
            assert(raw_doc.pages@[n as int].tables@[last as int].id == a0.id);
            assert(rows_view(a0.rows@ + b0.rows@) =~= rows_view(a0.rows@) + rows_view(b0.rows@));
            assert(table_views(raw_doc.pages@[n as int].tables@) =~= want[n as int]);
            assert(table_views(raw_doc.pages@[n as int + 1].tables@) =~= want[n as int + 1]);
            assert forall|q: int| 0 <= q < count implies #[trigger] ts2[q] == want[q] by {
                if q != n && q != n + 1 {
                    assert(ts2[q] == ts[q]);
                }
            }
            assert(ts2 =~= want);
        }
        n = n + 1;
    }
    merged
}

} // verus!
