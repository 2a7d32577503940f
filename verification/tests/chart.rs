use sample_relay::chart::{
    collect, traces_to_add, Call, Controls, Model, Msg, Outcome, Props, State, Traces,
};
use sample_relay::data::Data;
use sample_relay::plotly::{
    add_new_trace, extend_traces, new_layout, new_plot, new_trace, Extension, Layout, Trace,
};

fn reading(stamp: u64, values: &[u64]) -> Data {
    Data { stamp, values: values.to_vec() }
}

#[test]
fn empty_batch_gives_one_empty_trace() {
    let traces = collect(&vec![]);
    assert_eq!(traces, Traces { x: vec![vec![]], y: vec![vec![]] });
}

#[test]
fn values_are_sorted_into_traces_by_position() {
    let batch = vec![reading(1, &[10, 20]), reading(2, &[11, 21]), reading(3, &[12, 22])];
    let traces = collect(&batch);
    assert_eq!(traces.x, vec![vec![1, 2, 3], vec![1, 2, 3]]);
    assert_eq!(traces.y, vec![vec![10, 11, 12], vec![20, 21, 22]]);
}

#[test]
fn ragged_batch_fills_each_trace_with_what_it_has() {
    let batch =
        vec![reading(1, &[10]), reading(2, &[11, 21, 31]), reading(3, &[]), reading(4, &[13, 23])];
    let traces = collect(&batch);
    assert_eq!(traces.x, vec![vec![1, 2, 4], vec![2, 4], vec![2]]);
    assert_eq!(traces.y, vec![vec![10, 11, 13], vec![21, 23], vec![31]]);
}

#[test]
fn missing_traces_are_counted() {
    assert_eq!(traces_to_add(3, 1), 2);
    assert_eq!(traces_to_add(1, 1), 0);
    assert_eq!(traces_to_add(1, 4), 0);
    assert_eq!(traces_to_add(0, 0), 0);
}

#[test]
fn chart_starts_stopped_and_runs_after_init() {
    let mut chart = Model::create(Props::default());
    assert_eq!(chart.state(), State::Stopped);
    assert_eq!(chart.update(Msg::Init), Outcome { render: true, call: Call::NewPlot(new_plot()) });
    assert_eq!(chart.state(), State::Running);
}

#[test]
fn pause_extends_the_plot_by_nothing_once_there_is_one() {
    let mut chart = Model::create(Props::default());
    assert_eq!(chart.update(Msg::Pause), Outcome { render: true, call: Call::Nothing });
    chart.update(Msg::Init);
    assert_eq!(
        chart.update(Msg::Pause),
        Outcome {
            render: true,
            call: Call::ExtendTraces(Extension { x: vec![], y: vec![], indices: vec![] }),
        }
    );
    assert_eq!(chart.state(), State::Paused);
    assert_eq!(chart.update(Msg::Resume), Outcome { render: true, call: Call::Nothing });
    assert_eq!(chart.update(Msg::Stop), Outcome { render: true, call: Call::Nothing });
}

#[test]
fn chart_keeps_samples_only_while_running() {
    let idle = Outcome { render: false, call: Call::Nothing };
    let mut chart = Model::create(Props {});
    assert_eq!(chart.update(Msg::AppendData(reading(1, &[1]))), idle);
    chart.update(Msg::Init);
    assert_eq!(chart.update(Msg::AppendData(reading(2, &[2]))), idle);
    assert!(chart.update(Msg::Pause).render);
    assert_eq!(chart.state(), State::Paused);
    assert_eq!(chart.update(Msg::AppendData(reading(3, &[3]))), idle);
    assert!(chart.update(Msg::Resume).render);
    assert_eq!(chart.update(Msg::AppendData(reading(4, &[4]))), idle);
    assert!(chart.update(Msg::Stop).render);
    assert_eq!(chart.state(), State::Stopped);
    assert_eq!(chart.update(Msg::AppendData(reading(5, &[5]))), idle);
    let traces = chart.drain();
    assert_eq!(traces.x, vec![vec![2, 4]]);
    assert_eq!(traces.y, vec![vec![2, 4]]);
    let again = chart.drain();
    assert_eq!(again, Traces { x: vec![vec![]], y: vec![vec![]] });
    assert_eq!(chart.state(), State::Stopped);
}

#[test]
fn button_follows_the_state() {
    let mut chart = Model::create(Props::default());
    assert_eq!(
        chart.controls(),
        Controls { icon_class: "zmdi zmdi-pause", disabled: true, on_click: Msg::Pause }
    );
    chart.update(Msg::Init);
    assert_eq!(
        chart.controls(),
        Controls { icon_class: "zmdi zmdi-pause", disabled: false, on_click: Msg::Pause }
    );
    chart.update(Msg::Pause);
    assert_eq!(
        chart.controls(),
        Controls { icon_class: "zmdi zmdi-play", disabled: false, on_click: Msg::Resume }
    );
}

#[test]
fn new_trace_holds_the_given_points() {
    let trace = new_trace(&vec![1, 2, 3], &vec![4, 5, 6]);
    assert_eq!(trace, Trace { kind: "scattergl", x: vec![1, 2, 3], y: vec![4, 5, 6] });
    assert_eq!(add_new_trace(), Trace { kind: "scattergl", x: vec![], y: vec![] });
}

#[test]
fn new_plot_uses_the_chart_layout() {
    let layout = new_layout();
    assert_eq!(
        layout,
        Layout { dragmode: "pan", hovermode: "closest", rangeslider_visible: false, fixedrange: false }
    );
    let plot = new_plot();
    assert!(plot.traces.is_empty());
    assert_eq!(plot.layout, layout);
    assert!(plot.responsive);
    assert!(!plot.displaylogo);
    assert!(plot.scroll_zoom);
}

#[test]
fn new_points_go_to_the_traces_in_order() {
    let x = vec![vec![1, 2], vec![2], vec![]];
    let y = vec![vec![10, 20], vec![21], vec![]];
    assert_eq!(
        extend_traces(x.clone(), y.clone()),
        Some(Extension { x, y, indices: vec![0, 1, 2] })
    );
    assert_eq!(extend_traces(vec![], vec![]), Some(Extension { x: vec![], y: vec![], indices: vec![] }));
}
