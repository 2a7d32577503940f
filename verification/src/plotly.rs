//! What the chart asks of the plotting library, as plain values: the
//! traces, the layout and the options that go into each call. Making the
//! calls is left to whoever holds the page.

use vstd::prelude::*;
use vstd::string::*;

verus! {

/// One trace of a plot.
#[derive(Debug, PartialEq, Eq)]
pub struct Trace {
    /// The kind of trace.
    pub kind: &'static str,
    /// The horizontal coordinates of its points.
    pub x: Vec<u64>,
    /// The vertical coordinates of its points.
    pub y: Vec<u64>,
}

/// The layout of a plot.
#[derive(Debug, PartialEq, Eq)]
pub struct Layout {
    /// What dragging does.
    pub dragmode: &'static str,
    /// Which point the pointer picks.
    pub hovermode: &'static str,
    /// Whether the horizontal axis shows a range slider.
    pub rangeslider_visible: bool,
    /// Whether the vertical axis keeps its range.
    pub fixedrange: bool,
}

/// A new plot: its traces, its layout and its options.
#[derive(Debug, PartialEq, Eq)]
pub struct Plot {
    pub traces: Vec<Trace>,
    pub layout: Layout,
    pub responsive: bool,
    pub displaylogo: bool,
    pub scroll_zoom: bool,
}

/// New points for the traces of a plot.
#[derive(Debug, PartialEq, Eq)]
pub struct Extension {
    /// For each trace, the horizontal coordinates of its new points.
    pub x: Vec<Vec<u64>>,
    /// For each trace, the vertical coordinates of its new points.
    pub y: Vec<Vec<u64>>,
    /// The traces that the points go to: the first, the second, and so on.
    pub indices: Vec<u32>,
}

fn copy_of(values: &Vec<u64>) -> (copy: Vec<u64>)
    ensures
        copy@ == values@,
{
    let mut copy: Vec<u64> = Vec::new();
    let mut i: usize = 0;
    while i < values.len()
        invariant
            i <= values@.len(),
            copy@ == values@.take(i as int),
        decreases values@.len() - i,
    {
        copy.push(values[i]);
        assert(copy@ =~= values@.take(i + 1));
        i += 1;
    }
    assert(values@.take(i as int) =~= values@);
    copy
}

/// A trace drawn as a line through the given points.
pub fn new_trace(x: &Vec<u64>, y: &Vec<u64>) -> (trace: Trace)
    ensures
        trace.kind@ == "scattergl"@,
        trace.x@ == x@,
        trace.y@ == y@,
{
    Trace { kind: "scattergl", x: copy_of(x), y: copy_of(y) }
}

/// The trace to add where a chart lacks one: a trace without points.
pub fn add_new_trace() -> (trace: Trace)
    ensures
        trace.kind@ == "scattergl"@,
        trace.x@ == Seq::<u64>::empty(),
        trace.y@ == Seq::<u64>::empty(),
{
    let none: Vec<u64> = Vec::new();
    new_trace(&none, &none)
}

/// The layout of the chart: dragging pans, the pointer picks the closest
/// point, no range slider, and a vertical axis that may change its range.
pub fn new_layout() -> (layout: Layout)
    ensures
        layout.dragmode@ == "pan"@,
        layout.hovermode@ == "closest"@,
        !layout.rangeslider_visible,
        !layout.fixedrange,
{
    Layout { dragmode: "pan", hovermode: "closest", rangeslider_visible: false, fixedrange: false }
}

/// The plot a chart starts with: no traces, the chart's layout, responsive,
/// without the library's logo, zooming by scrolling.
pub fn new_plot() -> (plot: Plot)
    ensures
        plot.traces@ == Seq::<Trace>::empty(),
        plot.layout.dragmode@ == "pan"@,
        plot.layout.hovermode@ == "closest"@,
        !plot.layout.rangeslider_visible,
        !plot.layout.fixedrange,
        plot.responsive,
        !plot.displaylogo,
        plot.scroll_zoom,
{
    Plot {
        traces: Vec::new(),
        layout: new_layout(),
        responsive: true,
        displaylogo: false,
        scroll_zoom: true,
    }
}

/// Pairs new points with the traces they go to: the points in `x[t]` and
/// `y[t]` go to trace `t`. Traces are numbered in 32 bits; points for more
/// traces than that give nothing.
pub fn extend_traces(x: Vec<Vec<u64>>, y: Vec<Vec<u64>>) -> (extension: Option<Extension>)
    ensures
        match extension {
            Some(extension) => {
                &&& x@.len() <= u32::MAX
                &&& extension.x == x
                &&& extension.y == y
                &&& extension.indices@.len() == x@.len()
                &&& forall|t: int| 0 <= t < x@.len() ==> #[trigger] extension.indices@[t] == t
            },
            None => x@.len() > u32::MAX,
        },
{
    if x.len() > 0xFFFF_FFFF {
        return None;
    }
    let mut indices: Vec<u32> = Vec::new();
    let mut t: u32 = 0;
    while indices.len() < x.len()
        invariant
            x@.len() <= u32::MAX,
            indices@.len() == t,
            indices@.len() <= x@.len(),
            forall|k: int| 0 <= k < indices@.len() ==> #[trigger] indices@[k] == k,
        decreases x@.len() - indices@.len(),
    {
        indices.push(t);
        t += 1;
    }
    Some(Extension { x, y, indices })
}

} // verus!
