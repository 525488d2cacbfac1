//! Markup for a styled table: one CSS rule per styled cell, then the table.
use vstd::prelude::*;

use crate::error::StyleError;
use crate::text::{dec_text, push_dec};
use crate::html::{
    attr_text, cell_children, cell_new_data, cell_with_attribute, cell_with_raw, element_text,
    row_attrs, row_children, row_new, row_with_cell, table_body, table_frame, table_head,
    table_new, table_to_html, table_with_attribute, table_with_custom_body_row,
    table_with_header_row,
};
use crate::text_map::TextMap;

verus! {

/// `T_<hash>_row<r>_col<c>`: the id shared by a cell and its CSS rule.
pub open spec fn cell_id_text(hash: Seq<char>, r: nat, c: nat) -> Seq<char> {
    "T_"@ + hash + "_row"@ + dec_text(r) + "_col"@ + dec_text(c)
}

/// `attr: value` for the first `n` entries, joined by `; `.
pub open spec fn css_decls(m: Seq<(Seq<char>, Seq<char>)>, n: int) -> Seq<char>
    decreases n,
{
    if n <= 0 {
        Seq::empty()
    } else if n == 1 {
        m[0].0 + ": "@ + m[0].1
    } else {
        css_decls(m, n - 1) + "; "@ + m[n - 1].0 + ": "@ + m[n - 1].1
    }
}

/// Row, column and declarations of one styled cell.
pub type StyledCell = (usize, usize, Seq<(Seq<char>, Seq<char>)>);

/// `#<id> {<declarations>}`.
pub open spec fn style_rule(hash: Seq<char>, e: StyledCell) -> Seq<char> {
    "#"@ + cell_id_text(hash, e.0 as nat, e.1 as nat) + " {"@ + css_decls(e.2, e.2.len() as int)
        + "}"@
}

/// The rules of the first `n` styled cells, joined by a line break and indent.
pub open spec fn style_rules(hash: Seq<char>, st: Seq<StyledCell>, n: int) -> Seq<char>
    decreases n,
{
    if n <= 0 {
        Seq::empty()
    } else if n == 1 {
        style_rule(hash, st[0])
    } else {
        style_rules(hash, st, n - 1) + "\n  "@ + style_rule(hash, st[n - 1])
    }
}

pub open spec fn style_block(hash: Seq<char>, st: Seq<StyledCell>) -> Seq<char> {
    "<style>\n  "@ + style_rules(hash, st, st.len() as int) + "\n</style>"@
}

/// A data cell: `<td id="<id>">value</td>`.
pub open spec fn data_cell_text(hash: Seq<char>, cells: Seq<Seq<Seq<char>>>, r: int, c: int) -> Seq<
    char,
> {
    element_text(
        "td"@,
        attr_text("id"@, cell_id_text(hash, r as nat, c as nat)),
        seq![cells[c][r]],
    )
}

/// Body row `r`: its cells left to right.
pub open spec fn body_row_text(hash: Seq<char>, cells: Seq<Seq<Seq<char>>>, r: int) -> Seq<char> {
    element_text(
        "tr"@,
        Seq::empty(),
        Seq::new(cells.len(), |c: int| data_cell_text(hash, cells, r, c)),
    )
}

/// The header row: one `th` per label.
pub open spec fn header_row_text(labels: Seq<Seq<char>>) -> Seq<char> {
    element_text(
        "tr"@,
        Seq::empty(),
        Seq::new(labels.len(), |i: int| element_text("th"@, Seq::empty(), seq![labels[i]])),
    )
}

/// `dataframe` followed by the first `n` extra classes, space separated.
pub open spec fn class_list(classes: Seq<Seq<char>>, n: int) -> Seq<char>
    decreases n,
{
    if n <= 0 {
        "dataframe"@
    } else {
        class_list(classes, n - 1) + " "@ + classes[n - 1]
    }
}

/// The table of class `dataframe` and the extra classes, with the header row in
/// its head and one row per record in its body; elements without children close
/// themselves.
pub open spec fn table_html(
    labels: Seq<Seq<char>>,
    cells: Seq<Seq<Seq<char>>>,
    hash: Seq<char>,
    classes: Seq<Seq<char>>,
) -> Seq<char> {
    element_text(
        "table"@,
        attr_text("class"@, class_list(classes, classes.len() as int)),
        seq![
            element_text("thead"@, Seq::empty(), seq![header_row_text(labels)]),
            element_text(
                "tbody"@,
                Seq::empty(),
                Seq::new(cells[0].len(), |r: int| body_row_text(hash, cells, r)),
            ),
            Seq::empty(),
        ],
    )
}

/// All columns hold the same number of cells, and there is at least one column.
pub open spec fn rectangular(cells: Seq<Seq<Seq<char>>>) -> bool {
    cells.len() > 0 && forall|c: int| 0 <= c < cells.len() ==> #[trigger] cells[c].len()
        == cells[0].len()
}

pub open spec fn texts(v: Seq<String>) -> Seq<Seq<char>> {
    v.map_values(|s: String| s@)
}

pub open spec fn text_grid(v: Seq<Vec<String>>) -> Seq<Seq<Seq<char>>> {
    v.map_values(|col: Vec<String>| texts(col@))
}

pub open spec fn styled_cells(v: Seq<(usize, usize, TextMap)>) -> Seq<StyledCell> {
    v.map_values(|e: (usize, usize, TextMap)| (e.0, e.1, e.2@))
}

/// The `<style>` block, a line break, then the table.
pub open spec fn page_text(
    labels: Seq<Seq<char>>,
    cells: Seq<Seq<Seq<char>>>,
    st: Seq<StyledCell>,
    hash: Seq<char>,
    classes: Seq<Seq<char>>,
) -> Seq<char> {
    style_block(hash, st) + "\n"@ + table_html(labels, cells, hash, classes)
}

/// Everything a table needs to be written out.
pub struct Renderer {
    /// Header text of each column, in order.
    pub column_labels: Vec<String>,
    /// Display text of each cell, column by column.
    pub cell_values: Vec<Vec<String>>,
    /// Row, column and declarations of each styled cell.
    pub cell_styles: Vec<(usize, usize, TextMap)>,
    /// Marks every id of this table apart from those of other tables.
    pub hash: String,
    /// Classes of the table besides `dataframe`.
    pub classes: Vec<String>,
}

pub open spec fn render_text(rd: &Renderer) -> Seq<char> {
    page_text(
        texts(rd.column_labels@),
        text_grid(rd.cell_values@),
        styled_cells(rd.cell_styles@),
        rd.hash@,
        texts(rd.classes@),
    )
}

/// `T_<hash>_row<r>_col<c>`.
pub fn cell_id(hash: &str, row: usize, col: usize) -> (s: String)
    ensures
        s@ == cell_id_text(hash@, row as nat, col as nat),
{
    let mut s = String::new();
    push_cell_id(&mut s, hash, row, col);
    s
}

fn push_cell_id(s: &mut String, hash: &str, r: usize, c: usize)
    ensures
        final(s)@ == old(s)@ + cell_id_text(hash@, r as nat, c as nat),
{
    s.append("T_");
    s.append(hash);
    s.append("_row");
    push_dec(s, r as u64);
    s.append("_col");
    push_dec(s, c as u64);
    assert(final(s)@ =~= old(s)@ + cell_id_text(hash@, r as nat, c as nat));
}

/// `attr: value` pairs of a cell, joined by `; `.
pub fn css_styles(m: &TextMap) -> (s: String)
    ensures
        s@ == css_decls(m@, m@.len() as int),
{
    let mut s = String::new();
    let n = m.len();
    let mut i: usize = 0;
    while i < n
        invariant
            n == m@.len(),
            i <= n,
            s@ == css_decls(m@, i as int),
        decreases n - i,
    {
        if i > 0 {
            s.append("; ");
        }
        s.append(m.key(i).as_str());
        s.append(": ");
        s.append(m.value(i).as_str());
        i = i + 1;
    }
    s
}

impl Renderer {
    /// The `<style>` block followed by the table, or `Structure` when there are no
    /// columns or the columns differ in length.
    pub fn render(&self) -> (res: Result<String, StyleError>)
        ensures
            rectangular(text_grid(self.cell_values@)) ==> (res matches Ok(s) && s@ == render_text(self)),
            !rectangular(text_grid(self.cell_values@)) ==> res == Err::<String, StyleError>(
                StyleError::Structure,
            ),
    {
        let ncol = self.cell_values.len();
        if ncol == 0 {
            return Err(StyleError::Structure);
        }
        let nrow = self.cell_values[0].len();
        let mut c: usize = 0;
        while c < ncol
            invariant
                ncol == self.cell_values@.len(),
                nrow == self.cell_values@[0]@.len(),
                c <= ncol,
                forall|k: int| 0 <= k < c ==> #[trigger] self.cell_values@[k]@.len() == nrow,
            decreases ncol - c,
        {
            if self.cell_values[c].len() != nrow {
                assert(text_grid(self.cell_values@)[c as int].len() != text_grid(
                    self.cell_values@,
                )[0].len());
                return Err(StyleError::Structure);
            }
            c = c + 1;
        }
        assert(forall|k: int|
            0 <= k < ncol ==> #[trigger] text_grid(self.cell_values@)[k].len() == text_grid(
                self.cell_values@,
            )[0].len());
        let mut s = self.styles();
        s.append("\n");
        let t = self.table();
        s.append(t.as_str());
        Ok(s)
    }

    /// `<style>`, one rule per styled cell, `</style>`.
    pub fn styles(&self) -> (s: String)
        ensures
            s@ == style_block(self.hash@, styled_cells(self.cell_styles@)),
    {
        let mut s = String::new();
        s.append("<style>\n  ");
        let n = self.cell_styles.len();
        let mut i: usize = 0;
        let ghost start = s@;
        while i < n
            invariant
                n == self.cell_styles@.len(),
                i <= n,
                s@ == start + style_rules(self.hash@, styled_cells(self.cell_styles@), i as int),
            decreases n - i,
        {
            if i > 0 {
                s.append("\n  ");
            }
            let e = &self.cell_styles[i];
            s.append("#");
            push_cell_id(&mut s, self.hash.as_str(), e.0, e.1);
            s.append(" {");
            let decls = css_styles(&e.2);
            s.append(decls.as_str());
            s.append("}");
            i = i + 1;
            assert(s@ =~= start + style_rules(self.hash@, styled_cells(self.cell_styles@), i as int));
        }
        s.append("\n</style>");
        assert(s@ =~= style_block(self.hash@, styled_cells(self.cell_styles@)));
        s
    }

    fn table(&self) -> (s: String)
        requires
            rectangular(text_grid(self.cell_values@)),
        ensures
            s@ == table_html(
                texts(self.column_labels@),
                text_grid(self.cell_values@),
                self.hash@,
                texts(self.classes@),
            ),
    {
        let ghost grid = text_grid(self.cell_values@);
        let ncol = self.cell_values.len();
        let nrow = self.cell_values[0].len();
        let mut t = table_new();
        let mut r: usize = 0;
        while r < nrow
            invariant
                rectangular(grid),
                grid == text_grid(self.cell_values@),
                ncol == grid.len(),
                nrow == grid[0].len(),
                r <= nrow,
                table_frame(t) == seq![Seq::<char>::empty(), Seq::<char>::empty(), Seq::<char>::empty(), Seq::<char>::empty()],
                table_head(t) == Seq::<Seq<char>>::empty(),
                table_body(t) == Seq::new(r as nat, |k: int| body_row_text(self.hash@, grid, k)),
            decreases nrow - r,
        {
            let mut row = row_new();
            let mut c: usize = 0;
            while c < ncol
                invariant
                    rectangular(grid),
                    grid == text_grid(self.cell_values@),
                    ncol == grid.len(),
                    nrow == grid[0].len(),
                    r < nrow,
                    c <= ncol,
                    row_attrs(row) == Seq::<char>::empty(),
                    row_children(row) == Seq::new(
                        c as nat,
                        |k: int| data_cell_text(self.hash@, grid, r as int, k),
                    ),
                decreases ncol - c,
            {
                assert(grid[c as int].len() == nrow);
                let id = cell_id(self.hash.as_str(), r, c);
                let cell = cell_new_data();
                let cell = cell_with_attribute(cell, "id", id.as_str());
                let cell = cell_with_raw(cell, self.cell_values[c][r].as_str());
                assert(Seq::<char>::empty() + attr_text("id"@, id@) =~= attr_text("id"@, id@));
                assert(cell_children(cell) =~= seq![grid[c as int][r as int]]);
                let ghost before = row_children(row);
                row = row_with_cell(row, cell);
                c = c + 1;
                assert(row_children(row) =~= Seq::new(
                    c as nat,
                    |k: int| data_cell_text(self.hash@, grid, r as int, k),
                ));
            }
            assert(row_children(row) =~= Seq::new(
                grid.len(),
                |k: int| data_cell_text(self.hash@, grid, r as int, k),
            ));
            t = table_with_custom_body_row(t, row);
            r = r + 1;
            assert(table_body(t) =~= Seq::new(r as nat, |k: int| body_row_text(self.hash@, grid, k)));
        }
        t = table_with_header_row(t, &self.column_labels);
        let mut cls = String::new();
        cls.append("dataframe");
        let nc = self.classes.len();
        let mut i: usize = 0;
        while i < nc
            invariant
                nc == self.classes@.len(),
                i <= nc,
                cls@ == class_list(texts(self.classes@), i as int),
            decreases nc - i,
        {
            cls.append(" ");
            cls.append(self.classes[i].as_str());
            i = i + 1;
            assert(cls@ =~= class_list(texts(self.classes@), i as int));
        }
        t = table_with_attribute(t, "class", cls.as_str());
        let s = table_to_html(&t);
        proof {
            assert(Seq::<char>::empty() + attr_text("class"@, cls@) =~= attr_text("class"@, cls@));
            assert(Seq::new(
                self.column_labels@.len(),
                |i: int| element_text("th"@, Seq::<char>::empty(), seq![self.column_labels@[i]@]),
            ) =~= Seq::new(
                texts(self.column_labels@).len(),
                |i: int| element_text("th"@, Seq::<char>::empty(), seq![texts(self.column_labels@)[i]]),
            ));
            assert(table_head(t) =~= seq![header_row_text(texts(self.column_labels@))]);
        }
        s
    }
}

} // verus!
