//! The styling state of a table: per-cell CSS declarations, labels, precision and
//! table classes, and its rendering.
use vstd::prelude::*;

use crate::error::StyleError;
use crate::colors::{rgba_text, Color};
use crate::fixed::{abs, fixed_text, fixed_text_prec, sign_text, Fixed};
use crate::normalize::{normalize_series, normalize_spec};
use crate::renderer::{page_text, rectangular, styled_cells, text_grid, texts, Renderer, StyledCell};
use crate::text::{dec_text, hex_lower, push_char, push_dec, push_hex};
use crate::text_map::{lookup, merge, upsert, TextMap};

verus! {

/// One cell of a table.
#[derive(Clone, Debug)]
pub enum Value {
    Int(i64),
    Float(Fixed),
    Text(String),
    Bool(bool),
}

/// A named column of cells.
#[derive(Clone, Debug)]
pub struct Column {
    pub name: String,
    pub values: Vec<Value>,
}

pub open spec fn int_text(n: int) -> Seq<char> {
    sign_text(n) + dec_text(abs(n))
}

/// Display text of a cell: reals with `precision` digits after the point when it is
/// set and in shortest exact form otherwise, text as it is, and everything else in
/// its natural form.
pub open spec fn value_text(v: Value, precision: Option<u32>) -> Seq<char> {
    match v {
        Value::Int(n) => int_text(n as int),
        Value::Float(x) => match precision {
            Some(p) => fixed_text_prec(x, p as nat),
            None => fixed_text(x),
        },
        Value::Text(s) => s@,
        Value::Bool(b) => if b {
            "true"@
        } else {
            "false"@
        },
    }
}

/// Display text of a cell.
pub fn format_value(v: &Value, precision: Option<u32>) -> (s: String)
    ensures
        s@ == value_text(*v, precision),
{
    match v {
        Value::Int(n) => {
            let mut s = String::new();
            let a: u64 = if *n < 0 {
                (-(*n as i128)) as u64
            } else {
                *n as u64
            };
            if *n < 0 {
                push_char(&mut s, '-');
            }
            push_dec(&mut s, a);
            assert(s@ =~= value_text(*v, precision));
            s
        },
        Value::Float(x) => match precision {
            Some(p) => x.to_text_prec(p),
            None => x.to_text(),
        },
        Value::Text(t) => t.clone(),
        Value::Bool(b) => if *b {
            String::from_str("true")
        } else {
            String::from_str("false")
        },
    }
}

/// All columns hold the same number of cells.
pub open spec fn same_heights(cols: Seq<Column>) -> bool {
    forall|c: int| 0 <= c < cols.len() ==> #[trigger] cols[c].values@.len() == cols[0].values@.len()
}

pub open spec fn height_of(cols: Seq<Column>) -> nat {
    if cols.len() == 0 {
        0
    } else {
        cols[0].values@.len()
    }
}

/// Columns of equal length, in order.
#[derive(Debug)]
pub struct DataTable {
    columns: Vec<Column>,
}

impl View for DataTable {
    type V = Seq<Column>;

    closed spec fn view(&self) -> Seq<Column> {
        self.columns@
    }
}

impl DataTable {
    #[verifier::type_invariant]
    spec fn inv(&self) -> bool {
        same_heights(self.columns@)
    }

    /// A table of the given columns, or `None` when their lengths differ.
    pub fn new(columns: Vec<Column>) -> (t: Option<DataTable>)
        ensures
            same_heights(columns@) ==> (t matches Some(t) && t@ == columns@),
            !same_heights(columns@) ==> t is None,
    {
        let n = columns.len();
        let mut c: usize = 0;
        while c < n
            invariant
                n == columns@.len(),
                c <= n,
                forall|k: int| 0 <= k < c ==> #[trigger] columns@[k].values@.len() == columns@[0].values@.len(),
            decreases n - c,
        {
            if columns[c].values.len() != columns[0].values.len() {
                return None;
            }
            c = c + 1;
        }
        Some(DataTable { columns })
    }

    /// Number of columns.
    pub fn width(&self) -> (n: usize)
        ensures
            n == self@.len(),
    {
        self.columns.len()
    }

    /// Number of rows.
    pub fn height(&self) -> (n: usize)
        ensures
            n == height_of(self@),
    {
        if self.columns.len() == 0 {
            0
        } else {
            self.columns[0].values.len()
        }
    }

    /// The column at `i`.
    pub fn column(&self, i: usize) -> (c: &Column)
        requires
            i < self@.len(),
        ensures
            *c == self@[i as int],
    {
        &self.columns[i]
    }
}

pub open spec fn no_styles(ncols: nat, nrows: nat) -> Seq<Seq<Seq<(Seq<char>, Seq<char>)>>> {
    Seq::new(ncols, |c: int| Seq::new(nrows, |r: int| Seq::<(Seq<char>, Seq<char>)>::empty()))
}

/// What a styler holds.
pub ghost struct StylerView {
    pub columns: Seq<Column>,
    pub precision: Option<u32>,
    pub classes: Option<Seq<Seq<char>>>,
    /// Declarations of each cell, column by column.
    pub styles: Seq<Seq<Seq<(Seq<char>, Seq<char>)>>>,
    /// Display labels by column name.
    pub labels: Seq<(Seq<char>, Seq<char>)>,
}

/// Settings that shape the rendered text.
#[derive(Clone, Debug)]
pub struct StylerParams {
    pub precision: Option<u32>,
    pub table_classes: Option<Vec<String>>,
}

impl Default for StylerParams {
    /// No precision and no extra classes.
    fn default() -> (p: StylerParams)
        ensures
            p.precision is None && p.table_classes is None,
    {
        StylerParams { precision: None, table_classes: None }
    }
}

/// A table with styles attached to its cells.
#[derive(Debug)]
pub struct Styler {
    table: DataTable,
    params: StylerParams,
    applied_styles: Vec<Vec<TextMap>>,
    labels: TextMap,
}

pub open spec fn map_views(col: Seq<TextMap>) -> Seq<Seq<(Seq<char>, Seq<char>)>> {
    col.map_values(|m: TextMap| m@)
}

impl View for Styler {
    type V = StylerView;

    closed spec fn view(&self) -> StylerView {
        StylerView {
            columns: self.table@,
            precision: self.params.precision,
            classes: match self.params.table_classes {
                Some(v) => Some(texts(v@)),
                None => None,
            },
            styles: self.applied_styles@.map_values(|col: Vec<TextMap>| map_views(col@)),
            labels: self.labels@,
        }
    }
}

/// Index of the first column at or after `i` named `name`; `cols.len()` if none.
pub open spec fn column_index(cols: Seq<Column>, name: Seq<char>, i: int) -> int
    decreases cols.len() - i,
{
    if 0 <= i < cols.len() {
        if cols[i].name@ == name {
            i
        } else {
            column_index(cols, name, i + 1)
        }
    } else {
        cols.len() as int
    }
}

proof fn lemma_column_index_bounds(cols: Seq<Column>, name: Seq<char>, i: int)
    requires
        0 <= i <= cols.len(),
    ensures
        i <= column_index(cols, name, i) <= cols.len(),
    decreases cols.len() - i,
{
    if i < cols.len() && cols[i].name@ != name {
        lemma_column_index_bounds(cols, name, i + 1);
    }
}

/// The cells' declarations with the new ones merged in, row by row; rows past the
/// end of `new` keep theirs.
pub open spec fn apply_styles(
    col: Seq<Seq<(Seq<char>, Seq<char>)>>,
    new: Seq<Seq<(Seq<char>, Seq<char>)>>,
) -> Seq<Seq<(Seq<char>, Seq<char>)>> {
    Seq::new(
        col.len(),
        |r: int|
            if r < new.len() {
                merge(col[r], new[r])
            } else {
                col[r]
            },
    )
}

/// Column names paired with labels in order, as far as both go.
pub open spec fn label_pairs(cols: Seq<Column>, labels: Seq<String>) -> Seq<(Seq<char>, Seq<char>)> {
    let n = if cols.len() < labels.len() {
        cols.len()
    } else {
        labels.len()
    };
    Seq::new(n, |i: int| (cols[i].name@, labels[i]@))
}

/// One `background-color` declaration per value: `color` at that opacity.
pub open spec fn gradient_maps(color: Color, alphas: Seq<Fixed>) -> Seq<
    Seq<(Seq<char>, Seq<char>)>,
> {
    Seq::new(alphas.len(), |i: int| seq![("background-color"@, rgba_text(color, alphas[i]))])
}

fn gradient_styles(alphas: &Vec<Fixed>, color: &Color) -> (maps: Vec<TextMap>)
    ensures
        map_views(maps@) == gradient_maps(*color, alphas@),
{
    let n = alphas.len();
    let mut maps: Vec<TextMap> = Vec::new();
    let mut i: usize = 0;
    while i < n
        invariant
            n == alphas@.len(),
            i <= n,
            maps@.len() == i,
            forall|k: int|
                0 <= k < i ==> (#[trigger] maps@[k])@ == seq![
                    ("background-color"@, rgba_text(*color, alphas@[k])),
                ],
        decreases n - i,
    {
        let mut m = TextMap::new();
        m.insert(String::from_str("background-color"), color.to_rgba(alphas[i]));
        assert(m@ =~= seq![("background-color"@, rgba_text(*color, alphas@[i as int]))]);
        maps.push(m);
        i = i + 1;
    }
    assert(map_views(maps@) =~= gradient_maps(*color, alphas@));
    maps
}

/// The label set for `name`, or `name` itself.
pub open spec fn display_label(labels: Seq<(Seq<char>, Seq<char>)>, name: Seq<char>) -> Seq<char> {
    match lookup(labels, name) {
        Some(l) => l,
        None => name,
    }
}

pub open spec fn label_texts(v: StylerView) -> Seq<Seq<char>> {
    Seq::new(v.columns.len(), |c: int| display_label(v.labels, v.columns[c].name@))
}

pub open spec fn cell_texts(v: StylerView) -> Seq<Seq<Seq<char>>> {
    Seq::new(
        v.columns.len(),
        |c: int|
            Seq::new(v.columns[c].values@.len(), |r: int| value_text(v.columns[c].values@[r], v.precision)),
    )
}

/// The styled cells of row `r` among the first `n` columns, left to right.
pub open spec fn row_styled(styles: Seq<Seq<Seq<(Seq<char>, Seq<char>)>>>, r: int, n: int) -> Seq<
    StyledCell,
>
    decreases n,
{
    if n <= 0 {
        Seq::empty()
    } else {
        row_styled(styles, r, n - 1) + if styles[n - 1][r].len() > 0 {
            seq![(r as usize, (n - 1) as usize, styles[n - 1][r])]
        } else {
            Seq::empty()
        }
    }
}

/// The styled cells of the first `k` rows, row by row.
pub open spec fn styled_rows(styles: Seq<Seq<Seq<(Seq<char>, Seq<char>)>>>, ncols: int, k: int) -> Seq<
    StyledCell,
>
    decreases k,
{
    if k <= 0 {
        Seq::empty()
    } else {
        styled_rows(styles, ncols, k - 1) + row_styled(styles, k - 1, ncols)
    }
}

pub open spec fn classes_of(v: StylerView) -> Seq<Seq<char>> {
    match v.classes {
        Some(c) => c,
        None => Seq::empty(),
    }
}

/// The rendered text of a styler under the id `hash`.
pub open spec fn styler_page(v: StylerView, hash: Seq<char>) -> Seq<char> {
    page_text(
        label_texts(v),
        cell_texts(v),
        styled_rows(v.styles, v.columns.len() as int, height_of(v.columns) as int),
        hash,
        classes_of(v),
    )
}

/// Largest per-render id, exclusive: six hexadecimal digits.
pub const HASH_BOUND: u32 = 16_777_216;

/// Relies on rand's `thread_rng().gen_range(0..bound)`: a number in `0..bound`
/// (it panics on an empty range, which `requires` leaves out).
#[verifier::external_body]
fn random_below(bound: u32) -> (r: u32)
    requires
        bound > 0,
    ensures
        r < bound,
{
    rand::Rng::gen_range(&mut rand::thread_rng(), 0..bound)
}

/// A fresh id of at most six lower-case hexadecimal digits.
pub fn random_hash() -> (h: String)
    ensures
        exists|n: nat| n < HASH_BOUND && h@ == hex_lower(n),
{
    let n = random_below(HASH_BOUND);
    let mut h = String::new();
    push_hex(&mut h, n as u64);
    assert(h@ == hex_lower(n as nat));
    h
}

/// Columns of equal height, and one style map per cell.
pub open spec fn well_sized(v: StylerView) -> bool {
    &&& same_heights(v.columns)
    &&& v.styles.len() == v.columns.len()
    &&& forall|c: int| 0 <= c < v.styles.len() ==> #[trigger] v.styles[c].len() == height_of(v.columns)
}

/// A one-time setting: refused (`None`) once made, else made.
pub open spec fn set_once<T>(current: Option<T>, value: T) -> Option<Option<T>> {
    if current is Some {
        None
    } else {
        Some(Some(value))
    }
}

impl Styler {
    /// Sizes agree: one style map per cell.
    pub open spec fn wf(&self) -> bool {
        well_sized(self@)
    }

    /// Unstyled, unlabelled, with no settings made.
    pub fn new(table: DataTable) -> (s: Styler)
        ensures
            s.wf(),
            s@ == (StylerView {
                columns: table@,
                precision: None,
                classes: None,
                styles: no_styles(table@.len(), height_of(table@)),
                labels: Seq::empty(),
            }),
    {
        proof {
            use_type_invariant(&table);
        }
        let ncols = table.width();
        let nrows = table.height();
        let mut styles: Vec<Vec<TextMap>> = Vec::new();
        let mut c: usize = 0;
        while c < ncols
            invariant
                c <= ncols,
                styles@.len() == c,
                forall|k: int|
                    0 <= k < c ==> #[trigger] styles@[k]@.len() == nrows && map_views(styles@[k]@)
                        == Seq::new(nrows as nat, |r: int| Seq::<(Seq<char>, Seq<char>)>::empty()),
            decreases ncols - c,
        {
            let mut col: Vec<TextMap> = Vec::new();
            let mut r: usize = 0;
            while r < nrows
                invariant
                    r <= nrows,
                    col@.len() == r,
                    forall|k: int| 0 <= k < r ==> (#[trigger] col@[k])@ == Seq::<(Seq<char>, Seq<char>)>::empty(),
                decreases nrows - r,
            {
                col.push(TextMap::new());
                r = r + 1;
            }
            assert(map_views(col@) =~= Seq::new(
                nrows as nat,
                |r: int| Seq::<(Seq<char>, Seq<char>)>::empty(),
            ));
            styles.push(col);
            c = c + 1;
        }
        let s = Styler {
            table,
            params: StylerParams::default(),
            applied_styles: styles,
            labels: TextMap::new(),
        };
        assert(s@.styles =~= no_styles(ncols as nat, nrows as nat));
        s
    }

    /// Sets the digits shown after the decimal point of real cells; a second
    /// setting is refused.
    pub fn set_precision(self, precision: u32) -> (res: Result<Styler, StyleError>)
        requires
            self.wf(),
        ensures
            match set_once(self@.precision, precision) {
                Some(p) => res matches Ok(s) && s.wf() && s@ == (StylerView {
                    precision: p,
                    ..self@
                }),
                None => res == Err::<Styler, StyleError>(StyleError::Misconfiguration),
            },
    {
        if self.params.precision.is_some() {
            return Err(StyleError::Misconfiguration);
        }
        let mut s = self;
        s.params.precision = Some(precision);
        Ok(s)
    }

    /// Sets the extra classes of the table; a second setting is refused.
    pub fn set_table_classes(self, classes: Vec<String>) -> (res: Result<Styler, StyleError>)
        requires
            self.wf(),
        ensures
            match set_once(self@.classes, texts(classes@)) {
                Some(c) => res matches Ok(s) && s.wf() && s@ == (StylerView { classes: c, ..self@ }),
                None => res == Err::<Styler, StyleError>(StyleError::Misconfiguration),
            },
    {
        if self.params.table_classes.is_some() {
            return Err(StyleError::Misconfiguration);
        }
        let mut s = self;
        s.params.table_classes = Some(classes);
        Ok(s)
    }

    /// Adds extra classes after those already set.
    pub fn add_table_classes(self, classes: Vec<String>) -> (s: Styler)
        requires
            self.wf(),
        ensures
            s.wf(),
            s@ == (StylerView {
                classes: Some(
                    match self@.classes {
                        Some(old) => old + texts(classes@),
                        None => texts(classes@),
                    },
                ),
                ..self@
            }),
    {
        let mut s = self;
        let ghost before = s.params.table_classes;
        match s.params.table_classes {
            Some(ref mut existing) => {
                let mut more = classes;
                existing.append(&mut more);
            }
            None => {
                s.params.table_classes = Some(classes);
            }
        }
        proof {
            if let Some(old) = before {
                assert(texts(s.params.table_classes.unwrap()@) =~= texts(old@) + texts(classes@));
            }
        }
        s
    }
    /// The first column named `name`.
    pub fn find_column(&self, name: &str) -> (res: Option<usize>)
        ensures
            res matches Some(i) ==> i as int == column_index(self@.columns, name@, 0) && i
                < self@.columns.len(),
            res is None ==> column_index(self@.columns, name@, 0) >= self@.columns.len(),
    {
        let n = self.table.columns.len();
        let mut i: usize = 0;
        while i < n
            invariant
                n == self@.columns.len(),
                self@.columns == self.table.columns@,
                i <= n,
                column_index(self@.columns, name@, i as int) == column_index(self@.columns, name@, 0),
            decreases n - i,
        {
            if crate::text::str_eq(self.table.columns[i].name.as_str(), name) {
                return Some(i);
            }
            i = i + 1;
        }
        None
    }

    /// The table being styled.
    pub fn table(&self) -> (t: &DataTable)
        ensures
            t@ == self@.columns,
    {
        &self.table
    }

    /// Declarations of the cell at `col`, `row`.
    pub fn cell_styles(&self, col: usize, row: usize) -> (m: &TextMap)
        requires
            self.wf(),
            col < self@.styles.len(),
            row < self@.styles[col as int].len(),
        ensures
            m@ == self@.styles[col as int][row as int],
    {
        &self.applied_styles[col][row]
    }

    /// Names of the columns, in order.
    pub fn column_names(&self) -> (names: Vec<String>)
        ensures
            texts(names@) == Seq::new(self@.columns.len(), |c: int| self@.columns[c].name@),
    {
        let n = self.table.columns.len();
        let mut names: Vec<String> = Vec::new();
        let mut i: usize = 0;
        while i < n
            invariant
                n == self@.columns.len(),
                self@.columns == self.table.columns@,
                i <= n,
                texts(names@) == Seq::new(i as nat, |c: int| self@.columns[c].name@),
            decreases n - i,
        {
            let name = self.table.columns[i].name.clone();
            assert(name@ == self@.columns[i as int].name@);
            let ghost prev = names@;
            names.push(name);
            assert(texts(names@) =~= texts(prev).push(name@));
            i = i + 1;
            assert(texts(names@) =~= Seq::new(i as nat, |c: int| self@.columns[c].name@));
        }
        names
    }

    /// Merges `styles[r]` into the declarations of row `r` of the first column named
    /// `column`, attribute by attribute, new values replacing old ones; `NotFound`
    /// when no column has that name.
    pub fn apply(self, column: &str, styles: &Vec<TextMap>) -> (res: Result<Styler, StyleError>)
        requires
            self.wf(),
        ensures
            ({
                let c = column_index(self@.columns, column@, 0);
                &&& c < self@.columns.len() ==> (res matches Ok(s) && s.wf() && s@ == (StylerView {
                    styles: self@.styles.update(
                        c,
                        apply_styles(self@.styles[c], map_views(styles@)),
                    ),
                    ..self@
                }))
                &&& c >= self@.columns.len() ==> res == Err::<Styler, StyleError>(
                    StyleError::NotFound,
                )
            }),
    {
        proof {
            lemma_column_index_bounds(self@.columns, column@, 0);
        }
        let c = match self.find_column(column) {
            Some(c) => c,
            None => return Err(StyleError::NotFound),
        };
        let mut s = self;
        let mut col = s.applied_styles.remove(c);
        let ghost orig = map_views(col@);
        let ghost target = apply_styles(orig, map_views(styles@));
        let nrows = col.len();
        let n = if nrows < styles.len() {
            nrows
        } else {
            styles.len()
        };
        let mut r: usize = 0;
        while r < n
            invariant
                n <= nrows,
                n <= styles@.len(),
                col@.len() == nrows,
                orig.len() == nrows,
                target == apply_styles(orig, map_views(styles@)),
                r <= n,
                forall|k: int| 0 <= k < r ==> (#[trigger] col@[k])@ == target[k],
                forall|k: int| r <= k < nrows ==> (#[trigger] col@[k])@ == orig[k],
            decreases n - r,
        {
            let mut m = col.remove(r);
            m.extend(&styles[r]);
            col.insert(r, m);
            r = r + 1;
        }
        assert(map_views(col@) =~= target);
        s.applied_styles.insert(c, col);
        assert(s@.styles =~= self@.styles.update(c as int, target));
        assert(s.applied_styles@ == self.applied_styles@.update(c as int, s.applied_styles@[c as int]));
        Ok(s)
    }

    /// Sets `label` as the display label of `column`.
    pub fn relabel_column(self, column: &str, label: &str) -> (s: Styler)
        requires
            self.wf(),
        ensures
            s.wf(),
            s@ == (StylerView { labels: upsert(self@.labels, column@, label@), ..self@ }),
    {
        let mut s = self;
        s.labels.insert(String::from_str(column), String::from_str(label));
        s
    }

    /// Sets each label of `mapping`, in its order.
    pub fn relabel(self, mapping: &TextMap) -> (s: Styler)
        requires
            self.wf(),
        ensures
            s.wf(),
            s@ == (StylerView { labels: merge(self@.labels, mapping@), ..self@ }),
    {
        let mut s = self;
        s.labels.extend(mapping);
        s
    }

    /// Labels the columns in order with `labels`, as far as both go.
    pub fn set_labels(self, labels: Vec<String>) -> (s: Styler)
        requires
            self.wf(),
        ensures
            s.wf(),
            s@ == (StylerView {
                labels: merge(self@.labels, label_pairs(self@.columns, labels@)),
                ..self@
            }),
    {
        let mut s = self;
        let ghost pairs = label_pairs(s@.columns, labels@);
        let ncols = s.table.columns.len();
        let n = if ncols < labels.len() {
            ncols
        } else {
            labels.len()
        };
        let mut i: usize = 0;
        while i < n
            invariant
                n == pairs.len(),
                n <= labels@.len(),
                n <= s.table.columns@.len(),
                pairs == label_pairs(self@.columns, labels@),
                s.table.columns@ == self@.columns,
                s.wf(),
                s@ == (StylerView { labels: merge(self@.labels, pairs.take(i as int)), ..self@ }),
                i <= n,
            decreases n - i,
        {
            let k = s.table.columns[i].name.clone();
            let v = labels[i].clone();
            s.labels.insert(k, v);
            assert(pairs.take(i + 1).drop_last() =~= pairs.take(i as int));
            i = i + 1;
        }
        assert(pairs.take(n as int) =~= pairs);
        s
    }
    /// Colours the first column named `column` by value: each cell gets
    /// `background-color` set to `color` at the opacity of its normalised value (see
    /// `normalize_spec`), clamped to `vmin` and `vmax` where given.
    pub fn background_gradient(
        self,
        column: &str,
        color: &Color,
        vmin: Option<Fixed>,
        vmax: Option<Fixed>,
    ) -> (res: Result<Styler, StyleError>)
        requires
            self.wf(),
        ensures
            ({
                let c = column_index(self@.columns, column@, 0);
                &&& c >= self@.columns.len() ==> res == Err::<Styler, StyleError>(
                    StyleError::NotFound,
                )
                &&& c < self@.columns.len() ==> match normalize_spec(
                    self@.columns[c].values@,
                    vmin,
                    vmax,
                ) {
                    Err(e) => res == Err::<Styler, StyleError>(e),
                    Ok(a) => res matches Ok(s) && s.wf() && s@ == (StylerView {
                        styles: self@.styles.update(
                            c,
                            apply_styles(self@.styles[c], gradient_maps(*color, a)),
                        ),
                        ..self@
                    }),
                }
            }),
    {
        proof {
            lemma_column_index_bounds(self@.columns, column@, 0);
        }
        let c = match self.find_column(column) {
            Some(c) => c,
            None => return Err(StyleError::NotFound),
        };
        let alphas = match normalize_series(&self.table.columns[c].values, vmin, vmax) {
            Ok(a) => a,
            Err(e) => return Err(e),
        };
        let maps = gradient_styles(&alphas, color);
        self.apply(column, &maps)
    }

    /// Colours the first column named `name` by `values`, which stand for it (they
    /// are typically derived from it): cell `r` gets `background-color` set to
    /// `color` at the opacity of `values[r]` normalised without bounds.
    pub fn background_gradient_series(self, name: &str, values: &Vec<Value>, color: &Color) -> (res:
        Result<Styler, StyleError>)
        requires
            self.wf(),
        ensures
            ({
                let c = column_index(self@.columns, name@, 0);
                &&& c >= self@.columns.len() ==> res == Err::<Styler, StyleError>(
                    StyleError::NotFound,
                )
                &&& c < self@.columns.len() ==> match normalize_spec(values@, None, None) {
                    Err(e) => res == Err::<Styler, StyleError>(e),
                    Ok(a) => res matches Ok(s) && s.wf() && s@ == (StylerView {
                        styles: self@.styles.update(
                            c,
                            apply_styles(self@.styles[c], gradient_maps(*color, a)),
                        ),
                        ..self@
                    }),
                }
            }),
    {
        proof {
            lemma_column_index_bounds(self@.columns, name@, 0);
        }
        if self.find_column(name).is_none() {
            return Err(StyleError::NotFound);
        }
        let alphas = match normalize_series(values, None, None) {
            Ok(a) => a,
            Err(e) => return Err(e),
        };
        let maps = gradient_styles(&alphas, color);
        self.apply(name, &maps)
    }
    fn labels_for_render(&self) -> (labels: Vec<String>)
        requires
            self.wf(),
        ensures
            texts(labels@) == label_texts(self@),
    {
        let n = self.table.columns.len();
        let mut labels: Vec<String> = Vec::new();
        let mut i: usize = 0;
        while i < n
            invariant
                n == self@.columns.len(),
                self@.columns == self.table.columns@,
                i <= n,
                labels@.len() == i,
                forall|k: int|
                    0 <= k < i ==> (#[trigger] labels@[k])@ == display_label(
                        self@.labels,
                        self@.columns[k].name@,
                    ),
            decreases n - i,
        {
            let name = &self.table.columns[i].name;
            let label = match self.labels.get(name.as_str()) {
                Some(l) => l.clone(),
                None => name.clone(),
            };
            labels.push(label);
            i = i + 1;
        }
        assert(texts(labels@) =~= label_texts(self@));
        labels
    }

    fn cells_for_render(&self) -> (cells: Vec<Vec<String>>)
        requires
            self.wf(),
        ensures
            text_grid(cells@) == cell_texts(self@),
    {
        let n = self.table.columns.len();
        let mut cells: Vec<Vec<String>> = Vec::new();
        let mut c: usize = 0;
        while c < n
            invariant
                n == self@.columns.len(),
                self@.columns == self.table.columns@,
                c <= n,
                cells@.len() == c,
                forall|k: int| 0 <= k < c ==> texts((#[trigger] cells@[k])@) == cell_texts(self@)[k],
            decreases n - c,
        {
            let values = &self.table.columns[c].values;
            let m = values.len();
            let mut col: Vec<String> = Vec::new();
            let mut r: usize = 0;
            while r < m
                invariant
                    m == values@.len(),
                    r <= m,
                    col@.len() == r,
                    forall|k: int|
                        0 <= k < r ==> (#[trigger] col@[k])@ == value_text(values@[k], self@.precision),
                decreases m - r,
            {
                col.push(format_value(&values[r], self.params.precision));
                r = r + 1;
            }
            assert(texts(col@) =~= cell_texts(self@)[c as int]);
            cells.push(col);
            c = c + 1;
        }
        assert(text_grid(cells@) =~= cell_texts(self@));
        cells
    }

    fn styles_for_render(&self) -> (st: Vec<(usize, usize, TextMap)>)
        requires
            self.wf(),
        ensures
            styled_cells(st@) == styled_rows(
                self@.styles,
                self@.columns.len() as int,
                height_of(self@.columns) as int,
            ),
    {
        let ncols = self.applied_styles.len();
        let nrows = self.table.height();
        let ghost styles = self@.styles;
        let mut st: Vec<(usize, usize, TextMap)> = Vec::new();
        let mut r: usize = 0;
        while r < nrows
            invariant
                self.wf(),
                styles == self@.styles,
                ncols == self@.columns.len() == styles.len(),
                nrows == height_of(self@.columns),
                r <= nrows,
                styled_cells(st@) == styled_rows(styles, ncols as int, r as int),
            decreases nrows - r,
        {
            let mut c: usize = 0;
            let ghost before = styled_cells(st@);
            while c < ncols
                invariant
                    self.wf(),
                    styles == self@.styles,
                    ncols == self@.columns.len() == styles.len(),
                    nrows == height_of(self@.columns),
                    r < nrows,
                    c <= ncols,
                    styled_cells(st@) == before + row_styled(styles, r as int, c as int),
                decreases ncols - c,
            {
                assert(styles[c as int].len() == nrows);
                assert(map_views(self.applied_styles@[c as int]@).len() == self.applied_styles@[c as int]@.len());
                assert(self.applied_styles@[c as int]@.len() == nrows);
                let m = &self.applied_styles[c][r];
                assert(m@ == styles[c as int][r as int]);
                if !m.is_empty() {
                    let ghost prev = st@;
                    st.push((r, c, m.copy()));
                    assert(styled_cells(st@) =~= styled_cells(prev).push(
                        (r, c, styles[c as int][r as int]),
                    ));
                }
                c = c + 1;
                assert(styled_cells(st@) =~= before + row_styled(styles, r as int, c as int));
            }
            r = r + 1;
        }
        st
    }

    fn classes_for_render(&self) -> (classes: Vec<String>)
        ensures
            texts(classes@) == classes_of(self@),
    {
        let mut classes: Vec<String> = Vec::new();
        match &self.params.table_classes {
            Some(v) => {
                let n = v.len();
                let mut i: usize = 0;
                while i < n
                    invariant
                        n == v@.len(),
                        i <= n,
                        texts(classes@) == texts(v@).take(i as int),
                    decreases n - i,
                {
                    let name = v[i].clone();
                    let ghost prev = classes@;
                    classes.push(name);
                    assert(texts(classes@) =~= texts(prev).push(name@));
                    i = i + 1;
                    assert(texts(classes@) =~= texts(v@).take(i as int));
                }
                assert(texts(v@).take(n as int) =~= texts(v@));
            },
            None => {
                assert(texts(classes@) =~= Seq::<Seq<char>>::empty());
            },
        }
        classes
    }

    /// The `<style>` block and the table, with `hash` in every cell id; `Structure`
    /// when the table has no columns.
    pub fn render_with_hash(&self, hash: &str) -> (res: Result<String, StyleError>)
        requires
            self.wf(),
        ensures
            self@.columns.len() == 0 ==> res == Err::<String, StyleError>(StyleError::Structure),
            self@.columns.len() > 0 ==> (res matches Ok(s) && s@ == styler_page(self@, hash@)),
    {
        let rd = Renderer {
            column_labels: self.labels_for_render(),
            cell_values: self.cells_for_render(),
            cell_styles: self.styles_for_render(),
            hash: String::from_str(hash),
            classes: self.classes_for_render(),
        };
        proof {
            let g = text_grid(rd.cell_values@);
            if self@.columns.len() > 0 {
                assert forall|c: int| 0 <= c < g.len() implies #[trigger] g[c].len() == g[0].len() by {
                    assert(self@.columns[c].values@.len() == self@.columns[0].values@.len());
                }
                assert(rectangular(g));
            }
        }
        rd.render()
    }

    /// Renders under a fresh random id of six hexadecimal digits at most, so that
    /// the selectors of two rendered tables never meet on one page.
    pub fn render(self) -> (res: Result<String, StyleError>)
        requires
            self.wf(),
        ensures
            self@.columns.len() == 0 ==> res == Err::<String, StyleError>(StyleError::Structure),
            self@.columns.len() > 0 ==> (res matches Ok(s) && exists|n: nat|
                n < HASH_BOUND && s@ == styler_page(self@, hex_lower(n))),
    {
        let hash = random_hash();
        self.render_with_hash(hash.as_str())
    }
}

/// Starting a styler from a table.
pub trait StylerExt {
    fn style(self) -> (s: Styler)
        ensures
            s.wf(),
    ;
}

impl StylerExt for DataTable {
    /// An unstyled styler over this table.
    fn style(self) -> (s: Styler)
        ensures
            s.wf(),
            s@ == (StylerView {
                columns: self@,
                precision: None,
                classes: None,
                styles: no_styles(self@.len(), height_of(self@)),
                labels: Seq::empty(),
            }),
    {
        Styler::new(self)
    }
}

/// Setting a one-time parameter twice is refused, whatever the two values.
pub proof fn lemma_set_once_refuses_second<T>(current: Option<T>, first: T, second: T)
    ensures
        set_once(current, first) matches Some(after) ==> set_once(after, second) is None,
        current is None ==> set_once(current, first) is Some,
        current is Some ==> set_once(current, first) is None,
{
}

} // verus!
