//! Table rendering for command output.
//!
//! The layout of the rendered table is computed by the `comfy_table`
//! crate; with unstyled cells and its default content arrangement it is a
//! function of the header and rows alone, named here `table_render_of`.

use vstd::prelude::*;

verus! {

/// What `comfy_table` renders, with the condensed UTF-8 preset and its
/// default arrangement, for a given header and given rows.  A function of
/// its arguments alone.
pub uninterp spec fn table_render_of(header: Seq<Seq<char>>, rows: Seq<Seq<Seq<char>>>) -> Seq<
    char,
>;

/// Relies on comfy_table's `Table`: `load_style`, `set_header` and
/// `add_row` fill the table, and its `Display` rendering with unstyled
/// cells and the default (disabled) content arrangement depends on the
/// cell texts alone.
#[verifier::external_body]
pub(crate) fn render_table(header: &Vec<String>, rows: &Vec<Vec<String>>) -> (r: String)
    ensures
        r@ == table_render_of(
            header@.map_values(|s: String| s@),
            rows@.map_values(|row: Vec<String>| row@.map_values(|s: String| s@)),
        ),
{
    let mut table = comfy_table::Table::new();
    table.load_style(comfy_table::presets::UTF8_FULL_CONDENSED);
    table.set_header(header.clone());
    for row in rows.iter() {
        table.add_row(row.clone());
    }
    format!("{}", table)
}

/// Renders a table of `rows` under `headers` with the condensed UTF-8
/// preset.
pub fn table(headers: &Vec<String>, rows: &Vec<Vec<String>>) -> (r: String)
    ensures
        r@ == table_render_of(
            headers@.map_values(|s: String| s@),
            rows@.map_values(|row: Vec<String>| row@.map_values(|s: String| s@)),
        ),
{
    render_table(headers, rows)
}

} // verus!
