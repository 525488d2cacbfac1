//! Building table markup with `build_html`.
//!
//! Each builder value is described by the markup of its children and the text of
//! its attributes, so that what `to_html_string` writes can be stated.
use vstd::prelude::*;

use build_html::{Html, HtmlContainer};

verus! {

#[verifier::external_type_specification]
#[verifier::external_body]
pub struct ExTable(build_html::Table);

#[verifier::external_type_specification]
#[verifier::external_body]
pub struct ExTableRow(build_html::TableRow);

#[verifier::external_type_specification]
#[verifier::external_body]
pub struct ExTableCell(build_html::TableCell);

/// ` key="value"`, as an element writes one attribute.
pub open spec fn attr_text(k: Seq<char>, v: Seq<char>) -> Seq<char> {
    " "@ + k + "=\""@ + v + "\""@
}

/// The pieces written one after the other.
pub open spec fn concat_all(parts: Seq<Seq<char>>) -> Seq<char>
    decreases parts.len(),
{
    if parts.len() == 0 {
        Seq::empty()
    } else {
        concat_all(parts.drop_last()) + parts.last()
    }
}

/// An element with its attribute text and the markup of its children; one without
/// children closes itself.
pub open spec fn element_text(tag: Seq<char>, attrs: Seq<char>, children: Seq<Seq<char>>) -> Seq<
    char,
> {
    if children.len() == 0 {
        "<"@ + tag + attrs + "/>"@
    } else {
        "<"@ + tag + attrs + ">"@ + concat_all(children) + "</"@ + tag + ">"@
    }
}

/// A cell's tag name (`td` or `th`) and its attribute text.
pub uninterp spec fn cell_frame(c: build_html::TableCell) -> Seq<Seq<char>>;

/// Markup of each child of a cell.
pub uninterp spec fn cell_children(c: build_html::TableCell) -> Seq<Seq<char>>;

/// A row's attribute text.
pub uninterp spec fn row_attrs(r: build_html::TableRow) -> Seq<char>;

/// Markup of each cell of a row.
pub uninterp spec fn row_children(r: build_html::TableRow) -> Seq<Seq<char>>;

/// Attribute text of the table, of its head and of its body, then the markup that
/// follows the body (a footer and a caption, when there are any).
pub uninterp spec fn table_frame(t: build_html::Table) -> Seq<Seq<char>>;

/// Markup of each row of the table head.
pub uninterp spec fn table_head(t: build_html::Table) -> Seq<Seq<char>>;

/// Markup of each row of the table body.
pub uninterp spec fn table_body(t: build_html::Table) -> Seq<Seq<char>>;

pub open spec fn cell_text(c: build_html::TableCell) -> Seq<char> {
    element_text(cell_frame(c)[0], cell_frame(c)[1], cell_children(c))
}

pub open spec fn row_text(r: build_html::TableRow) -> Seq<char> {
    element_text("tr"@, row_attrs(r), row_children(r))
}

/// Relies on `build_html::TableCell::new(TableCellType::Data)`: an empty `td` element.
#[verifier::external_body]
pub(crate) fn cell_new_data() -> (c: build_html::TableCell)
    ensures
        cell_frame(c) == seq!["td"@, Seq::<char>::empty()],
        cell_children(c) == Seq::<Seq<char>>::empty(),
{
    build_html::TableCell::new(build_html::TableCellType::Data)
}

/// Relies on `build_html::TableCell::with_attributes`: each pair is appended to the attributes.
#[verifier::external_body]
pub(crate) fn cell_with_attribute(c: build_html::TableCell, k: &str, v: &str) -> (r: build_html::TableCell)
    ensures
        cell_frame(r) == seq![cell_frame(c)[0], cell_frame(c)[1] + attr_text(k@, v@)],
        cell_children(r) == cell_children(c),
{
    c.with_attributes([(k, v)])
}

/// Relies on `HtmlContainer::with_raw`: the text is appended as a child, unescaped.
#[verifier::external_body]
pub(crate) fn cell_with_raw(c: build_html::TableCell, inner: &str) -> (r: build_html::TableCell)
    ensures
        cell_frame(r) == cell_frame(c),
        cell_children(r) == cell_children(c).push(inner@),
{
    c.with_raw(inner)
}

/// Relies on `build_html::TableRow::new`: an empty `tr` element.
#[verifier::external_body]
pub(crate) fn row_new() -> (r: build_html::TableRow)
    ensures
        row_attrs(r) == Seq::<char>::empty(),
        row_children(r) == Seq::<Seq<char>>::empty(),
{
    build_html::TableRow::new()
}

/// Relies on `build_html::TableRow::with_cell`: the cell becomes the row's last child.
#[verifier::external_body]
pub(crate) fn row_with_cell(r: build_html::TableRow, c: build_html::TableCell) -> (out: build_html::TableRow)
    ensures
        row_attrs(out) == row_attrs(r),
        row_children(out) == row_children(r).push(cell_text(c)),
{
    r.with_cell(c)
}

/// Relies on `build_html::Table::new`: no attributes, an empty head and body, no footer or caption.
#[verifier::external_body]
pub(crate) fn table_new() -> (t: build_html::Table)
    ensures
        table_frame(t) == seq![
            Seq::<char>::empty(),
            Seq::<char>::empty(),
            Seq::<char>::empty(),
            Seq::<char>::empty(),
        ],
        table_head(t) == Seq::<Seq<char>>::empty(),
        table_body(t) == Seq::<Seq<char>>::empty(),
{
    build_html::Table::new()
}

/// Relies on `build_html::Table::with_custom_body_row`: the row becomes the body's last child.
#[verifier::external_body]
pub(crate) fn table_with_custom_body_row(t: build_html::Table, r: build_html::TableRow) -> (out: build_html::Table)
    ensures
        table_frame(out) == table_frame(t),
        table_head(out) == table_head(t),
        table_body(out) == table_body(t).push(row_text(r)),
{
    t.with_custom_body_row(r)
}

/// Relies on `build_html::Table::with_header_row`: a row of `th` cells, one per label, each
/// holding the label's text, becomes the head's last child.
#[verifier::external_body]
pub(crate) fn table_with_header_row(t: build_html::Table, labels: &Vec<String>) -> (out: build_html::Table)
    ensures
        table_frame(out) == table_frame(t),
        table_body(out) == table_body(t),
        table_head(out) == table_head(t).push(
            element_text(
                "tr"@,
                Seq::<char>::empty(),
                Seq::new(
                    labels@.len(),
                    |i: int| element_text("th"@, Seq::<char>::empty(), seq![labels@[i]@]),
                ),
            ),
        ),
{
    t.with_header_row(labels)
}

/// Relies on `build_html::Table::with_attributes`: each pair is appended to the table's attributes.
#[verifier::external_body]
pub(crate) fn table_with_attribute(t: build_html::Table, k: &str, v: &str) -> (out: build_html::Table)
    ensures
        table_frame(out) == table_frame(t).update(0, table_frame(t)[0] + attr_text(k@, v@)),
        table_head(out) == table_head(t),
        table_body(out) == table_body(t),
{
    t.with_attributes([(k, v)])
}

/// Relies on `Html::to_html_string` for `build_html::Table`: the table element holding its head,
/// its body and what follows them.
#[verifier::external_body]
pub(crate) fn table_to_html(t: &build_html::Table) -> (s: String)
    ensures
        s@ == element_text(
            "table"@,
            table_frame(*t)[0],
            seq![
                element_text("thead"@, table_frame(*t)[1], table_head(*t)),
                element_text("tbody"@, table_frame(*t)[2], table_body(*t)),
                table_frame(*t)[3],
            ],
        ),
{
    t.to_html_string()
}

} // verus!
