//! The bounding-box table of the region filter: the extremes of the
//! positions kept, beside those of the converted data.
//!
//! The extremes are taken over the platform-level reports, whose extent
//! columns hold floating-point numbers; they are reduced and rendered
//! (three decimals) before they reach this module, which decides what the
//! table shows.

use vstd::prelude::*;

use crate::report::summary::{
    opt_view, string_of, strings_of, text, Cell, CellView, Table, TableView,
};

verus! {

pub const DESC_BBOX: &'static str = "The extremes of the positions that remain after the region filter, over all platforms. The original extremes, when the Conversion report gives them, show how far the data reached before the filter.";

/// The geographic extent of a report, each bound already rendered as text;
/// a bound is absent when no platform has a valid position.
#[derive(Debug)]
pub struct Extent {
    pub lon_min: Option<String>,
    pub lon_max: Option<String>,
    pub lat_min: Option<String>,
    pub lat_max: Option<String>,
}

/// The four bounds of an extent, in table order.
pub open spec fn bounds(e: Extent) -> Seq<Option<Seq<char>>> {
    seq![opt_view(e.lon_min), opt_view(e.lon_max), opt_view(e.lat_min), opt_view(e.lat_max)]
}

/// The labels of the four bounds.
pub open spec fn bound_labels() -> Seq<Seq<char>> {
    seq!["Longitude min"@, "Longitude max"@, "Latitude min"@, "Latitude max"@]
}

/// The cell of a bound: its text, or blank when it is absent.
pub open spec fn bound_cell(b: Option<Seq<char>>) -> CellView {
    match b {
        Some(s) => text(s),
        None => text(Seq::empty()),
    }
}

/// The extent has at least one bound.
pub open spec fn has_bound(e: Extent) -> bool {
    e.lon_min is Some || e.lon_max is Some || e.lat_min is Some || e.lat_max is Some
}

/// Row `k` of the table: the label, the filtered bound and, when the original
/// extent is given, the original bound.
pub open spec fn bbox_row(k: int, filtered: Extent, original: Option<Extent>) -> Seq<CellView> {
    let r = seq![text(bound_labels()[k]), bound_cell(bounds(filtered)[k])];
    match original {
        Some(o) => r.push(bound_cell(bounds(o)[k])),
        None => r,
    }
}

/// The bounding-box table: none when the filtered data has no valid
/// position; otherwise one row per bound, with an "Original" column exactly
/// when the original extent is given.
pub open spec fn bbox_view(filtered: Extent, original: Option<Extent>) -> Option<TableView<CellView>> {
    if !has_bound(filtered) {
        None
    } else {
        Some(
            TableView {
                title: Some("Bounding box"@),
                desc: DESC_BBOX@,
                headers: match original {
                    Some(_) => seq!["Metric"@, "Filtered"@, "Original"@],
                    None => seq!["Metric"@, "Filtered"@],
                },
                rows: Seq::new(4, |k: int| bbox_row(k, filtered, original)),
            },
        )
    }
}

/// The cell of a bound.
fn bound_text(b: &Option<String>) -> (r: Cell)
    ensures
        r@ == bound_cell(opt_view(*b)),
{
    match b {
        Some(s) => Cell::Text(s.clone()),
        None => Cell::Text(String::new()),
    }
}

/// The bounds of an extent, in table order.
fn bound_refs(e: &Extent) -> (r: [&Option<String>; 4])
    ensures
        forall|k: int| 0 <= k < 4 ==> #[trigger] opt_view(*r@[k]) == bounds(*e)[k],
{
    [&e.lon_min, &e.lon_max, &e.lat_min, &e.lat_max]
}

/// The bounding-box table of the region filter (see `bbox_view`).
pub fn bbox_table(filtered: &Extent, original: &Option<Extent>) -> (r: Option<Table<Cell>>)
    ensures
        match r {
            Some(t) => bbox_view(*filtered, *original) == Some(t@),
            None => bbox_view(*filtered, *original) is None,
        },
{
    if filtered.lon_min.is_none() && filtered.lon_max.is_none() && filtered.lat_min.is_none()
        && filtered.lat_max.is_none() {
        return None;
    }
    let labels = strings_of(&["Longitude min", "Longitude max", "Latitude min", "Latitude max"]);
    let fb = bound_refs(filtered);
    let mut rows: Vec<Vec<Cell>> = Vec::new();
    let mut k: usize = 0;
    while k < 4
        invariant
            k <= 4,
            labels.len() == 4,
            forall|j: int| 0 <= j < 4 ==> (#[trigger] labels@[j])@ == bound_labels()[j],
            forall|j: int| 0 <= j < 4 ==> #[trigger] opt_view(*fb@[j]) == bounds(*filtered)[j],
            rows.len() == k,
            forall|j: int| 0 <= j < k ==> cell_row(#[trigger] rows@[j]) == bbox_row(j, *filtered, *original),
        decreases 4 - k,
    {
        let mut row = vec![Cell::Text(labels[k].clone()), bound_text(fb[k])];
        match original {
            Some(o) => {
                let ob = bound_refs(o);
                row.push(bound_text(ob[k]));
            },
            None => {},
        }
        proof {
            assert(labels@[k as int]@ == bound_labels()[k as int]);
            assert(cell_row(row) =~= bbox_row(k as int, *filtered, *original));
        }
        rows.push(row);
        k += 1;
    }
    let headers = match original {
        Some(_) => strings_of(&["Metric", "Filtered", "Original"]),
        None => strings_of(&["Metric", "Filtered"]),
    };
    let t = Table { title: Some(string_of("Bounding box")), desc: string_of(DESC_BBOX), headers, rows };
    proof {
        let v = bbox_view(*filtered, *original)->0;
        assert(t@.headers =~= v.headers);
        assert(t@.rows =~= v.rows);
        assert(t@ =~= v);
    }
    Some(t)
}

/// The views of the cells of a row.
pub open spec fn cell_row(r: Vec<Cell>) -> Seq<CellView> {
    r@.map_values(|c: Cell| c@)
}

} // verus!
