//! The viewer's chart: it collects the samples it is sent and says when to
//! draw and what. It draws nothing itself.

use crate::data::{Data, DataModel};
use crate::plotly::{extend_traces, new_plot, Extension, Plot};
use vstd::prelude::*;

verus! {

/// What the chart is doing.
#[derive(Clone, Copy, PartialEq, Eq, Structural, Debug)]
pub enum State {
    /// No stream: before the first drawing, or after the link went down.
    Stopped,
    /// Samples are collected and drawn.
    Running,
    /// The stream goes on, the chart stands still: samples are dropped.
    Paused,
}

/// What the chart is told.
#[derive(Debug, PartialEq, Eq)]
pub enum Msg {
    /// Set the chart up and start.
    Init,
    /// Hold the chart.
    Pause,
    /// Go on after a pause.
    Resume,
    /// The stream has ended.
    Stop,
    /// A sample came in.
    AppendData(Data),
}

/// What a [`Msg`] is.
pub ghost enum MsgModel {
    Init,
    Pause,
    Resume,
    Stop,
    AppendData(DataModel),
}

impl View for Msg {
    type V = MsgModel;

    open spec fn view(&self) -> MsgModel {
        match self {
            Msg::Init => MsgModel::Init,
            Msg::Pause => MsgModel::Pause,
            Msg::Resume => MsgModel::Resume,
            Msg::Stop => MsgModel::Stop,
            Msg::AppendData(data) => MsgModel::AppendData(data@),
        }
    }
}

/// What the chart is created with: nothing.
#[derive(Debug, PartialEq, Eq, Clone, Copy)]
pub struct Props {}

impl Default for Props {
    fn default() -> (props: Props)
        ensures
            props == (Props {  }),
    {
        Props {  }
    }
}

/// What the chart asks of the plotting library after a message.
#[derive(Debug, PartialEq, Eq)]
pub enum Call {
    /// Nothing.
    Nothing,
    /// Make this plot on the chart's element, and from now on draw what was
    /// collected at regular times.
    NewPlot(Plot),
    /// Add these points to the plot.
    ExtendTraces(Extension),
}

/// What a message asks for.
#[derive(Debug, PartialEq, Eq)]
pub struct Outcome {
    /// Whether the chart's controls have to be drawn again.
    pub render: bool,
    /// What to ask of the plotting library.
    pub call: Call,
}

/// The plot a chart starts with: no traces, dragging pans, the pointer picks
/// the closest point, no range slider, a vertical axis that may change its
/// range, responsive, without the library's logo, zooming by scrolling.
pub open spec fn is_first_plot(plot: Plot) -> bool {
    &&& plot.traces@.len() == 0
    &&& plot.layout.dragmode@ == "pan"@
    &&& plot.layout.hovermode@ == "closest"@
    &&& !plot.layout.rangeslider_visible
    &&& !plot.layout.fixedrange
    &&& plot.responsive
    &&& !plot.displaylogo
    &&& plot.scroll_zoom
}

/// Points for no trace at all.
pub open spec fn is_empty_extension(extension: Extension) -> bool {
    &&& extension.x@.len() == 0
    &&& extension.y@.len() == 0
    &&& extension.indices@.len() == 0
}

/// The chart's one button, as it has to be drawn.
#[derive(Debug, PartialEq, Eq)]
pub struct Controls {
    /// The class of the button's icon.
    pub icon_class: &'static str,
    /// Whether the button is out of use.
    pub disabled: bool,
    /// What a click on the button tells the chart.
    pub on_click: Msg,
}

/// The views of a batch of samples, oldest first.
pub open spec fn data_views(batch: Seq<Data>) -> Seq<DataModel> {
    batch.map_values(|data: Data| data@)
}

/// How many traces a batch needs: one for each position that any of its
/// samples has a value at, and never less than one.
pub open spec fn width(batch: Seq<DataModel>) -> nat
    decreases batch.len(),
{
    if batch.len() == 0 {
        1
    } else {
        let before = width(batch.drop_last());
        if batch.last().values.len() > before {
            batch.last().values.len()
        } else {
            before
        }
    }
}

/// The horizontal coordinates of trace `t`: the timestamp of every sample of
/// the batch that has a value at position `t`, oldest first.
pub open spec fn stamps_of(batch: Seq<DataModel>, t: int) -> Seq<u64>
    decreases batch.len(),
{
    if batch.len() == 0 {
        Seq::empty()
    } else if t < batch.last().values.len() {
        stamps_of(batch.drop_last(), t).push(batch.last().stamp)
    } else {
        stamps_of(batch.drop_last(), t)
    }
}

/// The vertical coordinates of trace `t`: the value at position `t` of every
/// sample of the batch that has one, oldest first.
pub open spec fn values_of(batch: Seq<DataModel>, t: int) -> Seq<u64>
    decreases batch.len(),
{
    if batch.len() == 0 {
        Seq::empty()
    } else if 0 <= t < batch.last().values.len() {
        values_of(batch.drop_last(), t).push(batch.last().values[t])
    } else {
        values_of(batch.drop_last(), t)
    }
}

/// The points to add to a chart, trace by trace.
#[derive(Debug, PartialEq, Eq)]
pub struct Traces {
    /// For each trace, the timestamps of its new points.
    pub x: Vec<Vec<u64>>,
    /// For each trace, the values of its new points.
    pub y: Vec<Vec<u64>>,
}

impl Traces {
    /// The traces hold exactly the points of `batch`: point `k` of trace `t`
    /// is the `k`-th sample that has a value at position `t`.
    pub open spec fn holds(&self, batch: Seq<DataModel>) -> bool {
        &&& self.x@.len() == width(batch)
        &&& self.y@.len() == width(batch)
        &&& forall|t: int| 0 <= t < self.x@.len() ==> (#[trigger] self.x@[t])@ == stamps_of(batch, t)
        &&& forall|t: int| 0 <= t < self.y@.len() ==> (#[trigger] self.y@[t])@ == values_of(batch, t)
    }
}

proof fn lemma_nothing_beyond_width(batch: Seq<DataModel>, t: int)
    requires
        t >= width(batch),
    ensures
        stamps_of(batch, t) == Seq::<u64>::empty(),
        values_of(batch, t) == Seq::<u64>::empty(),
    decreases batch.len(),
{
    if batch.len() > 0 {
        lemma_nothing_beyond_width(batch.drop_last(), t);
    }
}

/// Sorts a batch of samples into traces: the value at position `t` of a
/// sample becomes a point of trace `t`, at the sample's timestamp.
pub fn collect(batch: &Vec<Data>) -> (traces: Traces)
    ensures
        traces.holds(data_views(batch@)),
{
    let ghost views = data_views(batch@);
    let mut x: Vec<Vec<u64>> = Vec::new();
    let mut y: Vec<Vec<u64>> = Vec::new();
    x.push(Vec::new());
    y.push(Vec::new());
    let mut n: usize = 0;
    assert(views.take(0) =~= Seq::empty());
    while n < batch.len()
        invariant
            n <= batch@.len(),
            views == data_views(batch@),
            x@.len() == width(views.take(n as int)),
            y@.len() == x@.len(),
            forall|t: int| 0 <= t < x@.len() ==> (#[trigger] x@[t])@ == stamps_of(views.take(n as int), t),
            forall|t: int| 0 <= t < y@.len() ==> (#[trigger] y@[t])@ == values_of(views.take(n as int), t),
        decreases batch@.len() - n,
    {
        let ghost before = views.take(n as int);
        let ghost now = views.take(n + 1);
        let sample = &batch[n];
        assert(now.drop_last() =~= before);
        assert(now.last() == sample@);
        while x.len() < sample.values.len()
            invariant
                y@.len() == x@.len(),
                x@.len() >= width(before),
                x@.len() <= width(now),
                forall|t: int| 0 <= t < x@.len() ==> (#[trigger] x@[t])@ == stamps_of(before, t),
                forall|t: int| 0 <= t < y@.len() ==> (#[trigger] y@[t])@ == values_of(before, t),
                now.drop_last() == before,
                now.last() == sample@,
                now.len() > 0,
            decreases sample.values@.len() - x@.len(),
        {
            proof {
                lemma_nothing_beyond_width(before, x@.len() as int);
            }
            x.push(Vec::new());
            y.push(Vec::new());
        }
        let mut index: usize = 0;
        while index < sample.values.len()
            invariant
                index <= sample.values@.len(),
                sample.values@.len() <= x@.len(),
                y@.len() == x@.len(),
                x@.len() == width(now),
                forall|t: int| 0 <= t < index ==> (#[trigger] x@[t])@ == stamps_of(now, t),
                forall|t: int| 0 <= t < index ==> (#[trigger] y@[t])@ == values_of(now, t),
                forall|t: int| index <= t < x@.len() ==> (#[trigger] x@[t])@ == stamps_of(before, t),
                forall|t: int| index <= t < y@.len() ==> (#[trigger] y@[t])@ == values_of(before, t),
                now.drop_last() == before,
                now.last() == sample@,
                now.len() > 0,
            decreases sample.values@.len() - index,
        {
            x[index].push(sample.stamp);
            y[index].push(sample.values[index]);
            index += 1;
        }
        n += 1;
    }
    assert(views.take(n as int) =~= views);
    Traces { x, y }
}

/// How many traces the chart lacks for a batch that needs `needed`.
pub fn traces_to_add(needed: usize, present: usize) -> (missing: usize)
    ensures
        missing == (if needed > present { needed - present } else { 0 }),
{
    if needed > present {
        needed - present
    } else {
        0
    }
}

/// The chart as mathematics: whether its plot is made, what it is doing, and
/// the samples collected since the last drawing, oldest first.
pub ghost struct ChartModel {
    pub plotted: bool,
    pub state: State,
    pub pending: Seq<DataModel>,
}

impl ChartModel {
    /// A chart before it is set up.
    pub open spec fn blank() -> ChartModel {
        ChartModel { plotted: false, state: State::Stopped, pending: Seq::empty() }
    }

    /// The chart takes a message. The flag says whether the chart's controls
    /// have to be drawn again.
    pub open spec fn update(self, msg: MsgModel) -> (ChartModel, bool) {
        match msg {
            MsgModel::Init => (ChartModel { plotted: true, state: State::Running, ..self }, true),
            MsgModel::Pause => (ChartModel { state: State::Paused, ..self }, true),
            MsgModel::Resume => (ChartModel { state: State::Running, ..self }, true),
            MsgModel::Stop => (ChartModel { state: State::Stopped, ..self }, true),
            MsgModel::AppendData(data) => if self.state == State::Running {
                (ChartModel { pending: self.pending.push(data), ..self }, false)
            } else {
                (self, false)
            },
        }
    }

    /// The class of the icon on the chart's button: play while paused, pause
    /// otherwise.
    pub open spec fn icon_class(self) -> Seq<char> {
        if self.state == State::Paused {
            "zmdi zmdi-play"@
        } else {
            "zmdi zmdi-pause"@
        }
    }

    /// What a click on the chart's button asks for: to go on while paused,
    /// to pause otherwise.
    pub open spec fn on_click(self) -> MsgModel {
        if self.state == State::Paused {
            MsgModel::Resume
        } else {
            MsgModel::Pause
        }
    }
}

/// The viewer's chart.
pub struct Model {
    plotted: bool,
    state: State,
    pending: Vec<Data>,
}

impl View for Model {
    type V = ChartModel;

    closed spec fn view(&self) -> ChartModel {
        ChartModel {
            plotted: self.plotted,
            state: self.state,
            pending: data_views(self.pending@),
        }
    }
}

impl Model {
    /// A chart before it is set up: stopped, with nothing collected.
    pub fn create(props: Props) -> (chart: Model)
        ensures
            chart@ == ChartModel::blank(),
    {
        let chart = Model { plotted: false, state: State::Stopped, pending: Vec::new() };
        assert(chart@.pending =~= Seq::empty());
        chart
    }

    /// What the chart is doing.
    pub fn state(&self) -> (state: State)
        ensures
            state == self@.state,
    {
        self.state
    }

    /// Takes a message. Says whether the chart's controls have to be drawn
    /// again, and what to ask of the plotting library: the first message
    /// makes the plot, a pause on a chart with a plot extends it by nothing,
    /// any other message asks for nothing. A sample is kept only while the
    /// chart is running.
    pub fn update(&mut self, msg: Msg) -> (outcome: Outcome)
        ensures
            (final(self)@, outcome.render) == old(self)@.update(msg@),
            match msg {
                Msg::Init => outcome.call matches Call::NewPlot(plot) && is_first_plot(plot),
                Msg::Pause => if old(self)@.plotted {
                    outcome.call matches Call::ExtendTraces(extension) && is_empty_extension(
                        extension,
                    )
                } else {
                    outcome.call is Nothing
                },
                _ => outcome.call is Nothing,
            },
    {
        match msg {
            Msg::Init => {
                self.plotted = true;
                self.state = State::Running;
                Outcome { render: true, call: Call::NewPlot(new_plot()) }
            },
            Msg::Pause => {
                self.state = State::Paused;
                let call = if self.plotted {
                    match extend_traces(Vec::new(), Vec::new()) {
                        Some(extension) => Call::ExtendTraces(extension),
                        None => Call::Nothing,
                    }
                } else {
                    Call::Nothing
                };
                Outcome { render: true, call }
            },
            Msg::Resume => {
                self.state = State::Running;
                Outcome { render: true, call: Call::Nothing }
            },
            Msg::Stop => {
                self.state = State::Stopped;
                Outcome { render: true, call: Call::Nothing }
            },
            Msg::AppendData(data) => {
                match self.state {
                    State::Running => {
                        self.pending.push(data);
                        assert(self@.pending =~= old(self)@.pending.push(data@));
                    },
                    _ => {},
                }
                Outcome { render: false, call: Call::Nothing }
            },
        }
    }

    /// The chart's button as it has to be drawn: it shows play while the
    /// chart is paused and pause otherwise, a click asks for the one or the
    /// other, and it is out of use while there is no stream.
    pub fn controls(&self) -> (controls: Controls)
        ensures
            controls.icon_class@ == self@.icon_class(),
            controls.disabled == (self@.state == State::Stopped),
            controls.on_click@ == self@.on_click(),
    {
        match self.state {
            State::Paused => Controls {
                icon_class: "zmdi zmdi-play",
                disabled: false,
                on_click: Msg::Resume,
            },
            State::Running => Controls {
                icon_class: "zmdi zmdi-pause",
                disabled: false,
                on_click: Msg::Pause,
            },
            State::Stopped => Controls {
                icon_class: "zmdi zmdi-pause",
                disabled: true,
                on_click: Msg::Pause,
            },
        }
    }

    /// Hands out what was collected since the last call, sorted into traces,
    /// and starts collecting anew.
    pub fn drain(&mut self) -> (traces: Traces)
        ensures
            traces.holds(old(self)@.pending),
            final(self)@ == (ChartModel { pending: Seq::empty(), ..old(self)@ }),
    {
        let traces = collect(&self.pending);
        self.pending.clear();
        assert(self@.pending =~= Seq::empty());
        traces
    }
}

} // verus!
